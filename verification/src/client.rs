//! The IPC client's state machine and exchange logic.
//!
//! A client is bound to one endpoint path and is either disconnected or
//! connected.  The transport itself (dialing the socket, writing the
//! framed line, reading bytes until a line feed or end of stream) is the
//! caller's: this module decides what to send, whether sending is allowed
//! at all, and what the bytes that came back mean.
//!
//! One exchange is: [`IpcClient::begin_request`] yields the full framed
//! line to write (or refuses, when disconnected, before any transport work
//! is done); the caller transmits it whole, reads one line back and hands
//! it to [`IpcClient::finish_request`], which decodes it or classifies the
//! failure.  Neither step changes the connection state: a transport
//! failure is reported by the caller as [`IpcError::IoError`] and it is
//! the caller's decision when to reconnect.

use vstd::prelude::*;
use crate::protocol::{Request, Response, RpcError};
use crate::value::JsonValue;

verus! {

/// How connecting or requesting can fail.
#[derive(Debug, Clone, PartialEq, Eq)]
pub enum IpcError {
    /// A request was attempted while no connection is live.  A local usage
    /// error, detected before any transport work.
    NotConnected,
    /// The transport connection could not be established.
    ConnectionError,
    /// A write or read on an established connection failed.
    IoError,
    /// The request could not be encoded.  Unreachable here: the verified
    /// encoder is total.  The variant remains so the caller-visible
    /// taxonomy is complete.
    SerializationError,
    /// Bytes came back, but no response could be decoded from them; this
    /// includes an empty or truncated line after the peer closed the
    /// stream early.
    ProtocolError,
}

/// One client: an endpoint path, fixed at construction, and whether a
/// connection is currently considered live.
pub struct IpcClient {
    pub endpoint: String,
    pub connected: bool,
}

/// The line handed to `finish_request`, without its trailing line feed if
/// it has one.
pub open spec fn strip_lf(s: Seq<char>) -> Seq<char> {
    if s.len() > 0 && s[s.len() - 1] == '\n' {
        s.subrange(0, s.len() - 1)
    } else {
        s
    }
}

impl IpcClient {
    /// A fresh client starts disconnected.
    pub fn new(path: String) -> (c: Self)
        ensures
            c.endpoint == path,
            !c.connected,
    {
        IpcClient { endpoint: path, connected: false }
    }

    /// Record the outcome of the caller's transport dial: connected on
    /// success, still disconnected (with a `ConnectionError`) on failure.
    pub fn on_connect(&mut self, established: bool) -> (r: Result<(), IpcError>)
        ensures
            final(self).endpoint == old(self).endpoint,
            final(self).connected == established,
            established ==> r == Ok::<(), IpcError>(()),
            !established ==> r == Err::<(), IpcError>(IpcError::ConnectionError),
    {
        self.connected = established;
        if established {
            Ok(())
        } else {
            Err(IpcError::ConnectionError)
        }
    }

    /// The complete framed line to transmit for a request: its encoding
    /// and one final line feed, which appears nowhere else in the line.
    /// With no live connection this refuses with `NotConnected`, before
    /// any transport work could have happened.
    pub fn begin_request(&self, req: &Request) -> (r: Result<String, IpcError>)
        requires
            crate::protocol::wf_request(req@),
        ensures
            match r {
                Ok(line) => self.connected && line@ == crate::protocol::enc_request(req@)
                    + seq!['\n'] && line@.len() > 0 && line@[line@.len() - 1] == '\n' && (forall|
                    k: int,
                |
                    0 <= k < line@.len() - 1 ==> (#[trigger] line@[k]) != '\n'),
                Err(e) => !self.connected && e == IpcError::NotConnected,
            },
    {
        if !self.connected {
            Err(IpcError::NotConnected)
        } else {
            let mut line = crate::protocol::encode_request(req);
            line.append("\n");
            proof {
                reveal_strlit("\n");
                assert(("\n")@ =~= seq!['\n']);
                crate::protocol::lemma_enc_request_no_lf(req@);
            }
            Ok(line)
        }
    }

    /// What one line read back from the peer means: the decoded response,
    /// or `ProtocolError` when the line (its trailing line feed aside,
    /// and `None` standing for bytes that were not valid text) holds no
    /// response — never a made-up default response.
    pub fn finish_request(&self, line: Option<&str>) -> (r: Result<Response, IpcError>)
        ensures
            match line {
                None => r == Err::<Response, IpcError>(IpcError::ProtocolError),
                Some(text) => match r {
                    Ok(resp) => crate::protocol::sp_decode_response(strip_lf(text@)) == Some(
                        resp@,
                    ),
                    Err(e) => e == IpcError::ProtocolError && crate::protocol::sp_decode_response(
                        strip_lf(text@),
                    ) is None,
                },
            },
    {
        match line {
            None => Err(IpcError::ProtocolError),
            Some(text) => {
                let n = text.unicode_len();
                let body: &str = if n > 0 && text.get_char(n - 1) == '\n' {
                    let b = text.substring_char(0, n - 1);
                    proof {
                        assert(b@ =~= strip_lf(text@));
                    }
                    b
                } else {
                    text
                };
                match crate::protocol::decode_response(body) {
                    None => Err(IpcError::ProtocolError),
                    Some(resp) => Ok(resp),
                }
            },
        }
    }
}

/// The caller-visible outcome of a decoded response: a reported failure
/// takes precedence over any result; otherwise the optional result stands.
pub fn response_outcome(resp: Response) -> (r: Result<Option<JsonValue>, RpcError>)
    ensures
        match r {
            Err(e) => resp@.error == Some(e@),
            Ok(opt) => resp@.error is None && crate::protocol::opt_model(opt) == resp@.result,
        },
{
    let Response { id: _, result, error } = resp;
    match error {
        Some(e) => Err(e),
        None => Ok(result),
    }
}

} // verus!
