//! What the consuming layer reads out of daemon results: the element list
//! of `elements.list`, the one-line text for each element, the status line
//! derived from `status`, and the requests those operations send.

use vstd::prelude::*;
use crate::value::{JVal, JsonValue, jval_model, obj_model, obj_lookup};
use crate::protocol::Request;

verus! {

/// One selectable element, as the consuming layer keeps it.
#[derive(Debug, PartialEq, Eq)]
pub struct ElementItem {
    pub id: u64,
    pub hint: String,
    pub label: String,
    pub role: String,
    pub desc: String,
}

/// Mathematical model of an element.
pub struct ElemView {
    pub id: int,
    pub hint: Seq<char>,
    pub label: Seq<char>,
    pub role: Seq<char>,
    pub desc: Seq<char>,
}

impl View for ElementItem {
    type V = ElemView;

    open spec fn view(&self) -> ElemView {
        ElemView {
            id: self.id as int,
            hint: self.hint@,
            label: self.label@,
            role: self.role@,
            desc: self.desc@,
        }
    }
}

/// A string field of an element: empty when absent or of another type.
pub open spec fn str_field(fs: Seq<(Seq<char>, JVal)>, key: Seq<char>) -> Seq<char> {
    match obj_lookup(fs, key) {
        Some(JVal::Str(s)) => s,
        _ => Seq::empty(),
    }
}

/// The numeric `id` of an element: zero when absent, negative, too large
/// or of another type.
pub open spec fn uint_field(fs: Seq<(Seq<char>, JVal)>, key: Seq<char>) -> int {
    match obj_lookup(fs, key) {
        Some(JVal::Int(n)) => if 0 <= n <= u64::MAX as int {
            n
        } else {
            0
        },
        _ => 0,
    }
}

/// The element an item of the list denotes; every field defaults.
pub open spec fn elem_view_of(v: JVal) -> ElemView {
    match v {
        JVal::Obj(fs) => ElemView {
            id: uint_field(fs, ("id")@),
            hint: str_field(fs, ("hint")@),
            label: str_field(fs, ("label")@),
            role: str_field(fs, ("role")@),
            desc: str_field(fs, ("desc")@),
        },
        _ => ElemView {
            id: 0,
            hint: Seq::empty(),
            label: Seq::empty(),
            role: Seq::empty(),
            desc: Seq::empty(),
        },
    }
}

/// The elements an `elements.list` result denotes: the `elements` array,
/// capped at the first fifty items; empty when the shape is anything else.
pub open spec fn elements_model(v: JVal) -> Seq<ElemView> {
    match v {
        JVal::Obj(fs) => match obj_lookup(fs, ("elements")@) {
            Some(JVal::Arr(items)) => Seq::new(
                if items.len() <= 50 {
                    items.len()
                } else {
                    50
                },
                |i: int| elem_view_of(items[i]),
            ),
            _ => Seq::empty(),
        },
        _ => Seq::empty(),
    }
}

/// A string field of an element, read out with its defaults.
fn read_str_field(fs: &Vec<(String, JsonValue)>, key: &str) -> (r: String)
    ensures
        r@ == str_field(obj_model(fs@), key@),
{
    match crate::value::obj_get(fs, key) {
        Some(v) => match crate::value::as_str_ref(v) {
            Some(s) => s.clone(),
            None => String::new(),
        },
        None => String::new(),
    }
}

/// One element of the list, read out with its defaults.
fn read_element(item: &JsonValue) -> (r: ElementItem)
    ensures
        r@ == elem_view_of(jval_model(*item)),
{
    match crate::value::as_obj_ref(item) {
        None => ElementItem {
            id: 0,
            hint: String::new(),
            label: String::new(),
            role: String::new(),
            desc: String::new(),
        },
        Some(fs) => {
            let id: u64 = match crate::value::obj_get(fs, "id") {
                Some(v) => match crate::value::as_int(v) {
                    Some(n) => if 0 <= n && n <= 0xFFFF_FFFF_FFFF_FFFFi128 {
                        n as u64
                    } else {
                        0
                    },
                    None => 0,
                },
                None => 0,
            };
            ElementItem {
                id,
                hint: read_str_field(fs, "hint"),
                label: read_str_field(fs, "label"),
                role: read_str_field(fs, "role"),
                desc: read_str_field(fs, "desc"),
            }
        },
    }
}

/// The elements of an `elements.list` result, at most fifty of them.
pub fn parse_elements(result: &JsonValue) -> (r: Vec<ElementItem>)
    ensures
        r@.len() == elements_model(jval_model(*result)).len(),
        r@.len() <= 50,
        forall|k: int|
            0 <= k < r@.len() ==> (#[trigger] r@[k])@ == elements_model(jval_model(*result))[k],
{
    let ghost model = elements_model(jval_model(*result));
    let mut out: Vec<ElementItem> = Vec::new();
    match crate::value::as_obj_ref(result) {
        None => out,
        Some(fs) => match crate::value::obj_get(fs, "elements") {
            None => out,
            Some(ev) => match crate::value::as_arr_ref(ev) {
                None => out,
                Some(items) => {
                    proof {
                        crate::encode::lemma_arr_model_props(items@);
                    }
                    let n: usize = if items.len() <= 50 {
                        items.len()
                    } else {
                        50
                    };
                    let mut i: usize = 0;
                    while i < n
                        invariant
                            i <= n,
                            n <= items@.len(),
                            n == model.len(),
                            out@.len() == i,
                            crate::value::arr_model(items@).len() == items@.len(),
                            forall|k: int|
                                0 <= k < items@.len() ==> crate::value::arr_model(items@)[k]
                                    == jval_model(#[trigger] items@[k]),
                            forall|k: int|
                                0 <= k < model.len() ==> model[k] == elem_view_of(
                                    crate::value::arr_model(items@)[k],
                                ),
                            forall|k: int| 0 <= k < i ==> (#[trigger] out@[k])@ == model[k],
                        decreases n - i,
                    {
                        let e = read_element(&items[i]);
                        out.push(e);
                        i = i + 1;
                    }
                    out
                },
            },
        },
    }
}

/// The one-line text for an element: hint in brackets, then the label with
/// the role in parentheses; with no label, the description stands in, and
/// with neither, the role does.
pub open spec fn line_model(e: ElemView) -> Seq<char> {
    if e.label.len() == 0 {
        ("[")@ + e.hint + ("] ")@ + (if e.desc.len() > 0 {
            e.desc
        } else {
            e.role
        })
    } else {
        ("[")@ + e.hint + ("] ")@ + e.label + (" (")@ + e.role + (")")@
    }
}

impl ElementItem {
    /// The line shown for this element.
    pub fn display_line(&self) -> (r: String)
        ensures
            r@ == line_model(self@),
    {
        let mut out = String::from_str("[");
        out.append(self.hint.as_str());
        out.append("] ");
        if self.label.as_str().is_empty() {
            if self.desc.as_str().is_empty() {
                out.append(self.role.as_str());
            } else {
                out.append(self.desc.as_str());
            }
            proof {
                if self@.desc.len() == 0 {
                    assert(self@.desc =~= self@.role || self@.desc =~= Seq::<char>::empty());
                }
            }
        } else {
            out.append(self.label.as_str());
            out.append(" (");
            out.append(self.role.as_str());
            out.append(")");
        }
        out
    }
}

/// The status line derived from a `status` result: the daemon's version
/// when it reports one, a connected-but-unknown-version line when it does
/// not, and a disconnected line when there was no result at all.
pub open spec fn status_model(result: Option<JVal>) -> Seq<char> {
    match result {
        None => ("IPC: disconnected")@,
        Some(v) => match v {
            JVal::Obj(fs) => match obj_lookup(fs, ("version")@) {
                Some(JVal::Str(ver)) => ("daemon: ")@ + ver,
                _ => ("IPC: connected")@,
            },
            _ => ("IPC: connected")@,
        },
    }
}

/// The status line for a `status` result, or for its absence.
pub fn status_text(result: Option<&JsonValue>) -> (r: String)
    ensures
        r@ == status_model(match result {
            None => None,
            Some(v) => Some(jval_model(*v)),
        }),
{
    match result {
        None => String::from_str("IPC: disconnected"),
        Some(v) => match crate::value::as_obj_ref(v) {
            None => String::from_str("IPC: connected"),
            Some(fs) => match crate::value::obj_get(fs, "version") {
                Some(vv) => match crate::value::as_str_ref(vv) {
                    Some(s) => {
                        let mut out = String::from_str("daemon: ");
                        out.append(s.as_str());
                        out
                    },
                    None => String::from_str("IPC: connected"),
                },
                None => String::from_str("IPC: connected"),
            },
        },
    }
}

/// The request that asks for the daemon's status.
pub fn status_request() -> (r: Request)
    ensures
        r@.id == 1,
        r@.method == ("status")@,
        r@.params is None,
        crate::protocol::wf_request(r@),
{
    Request { id: 1, method: String::from_str("status"), params: None }
}

/// The request that asks for the element list.
pub fn list_request() -> (r: Request)
    ensures
        r@.id == 2,
        r@.method == ("elements.list")@,
        r@.params is None,
        crate::protocol::wf_request(r@),
{
    Request { id: 2, method: String::from_str("elements.list"), params: None }
}

/// The request that acts on one element: `params` is `{"id": element}`.
pub fn element_action_request(method: &str, element: u64) -> (r: Request)
    ensures
        r@.id == 3,
        r@.method == method@,
        r@.params == Some(JVal::Obj(seq![(("id")@, JVal::Int(element as int))])),
        crate::protocol::wf_request(r@),
{
    let mut fields: Vec<(String, JsonValue)> = Vec::new();
    fields.push((String::from_str("id"), JsonValue::Int(element as i128)));
    proof {
        assert(fields@.subrange(1, 1) =~= Seq::<(String, JsonValue)>::empty());
        assert(obj_model(Seq::<(String, JsonValue)>::empty()) =~= Seq::<(Seq<char>, JVal)>::empty());
        assert(jval_model(fields@[0].1) == JVal::Int(element as int));
        assert(obj_model(fields@) =~= seq![(("id")@, JVal::Int(element as int))]);
        assert(crate::value::wf_jval(JVal::Int(element as int)));
        assert(crate::value::wf_obj(Seq::<(Seq<char>, JVal)>::empty()));
        assert(obj_model(fields@).subrange(1, 1) =~= Seq::<(Seq<char>, JVal)>::empty());
        assert(crate::value::wf_obj(obj_model(fields@)));
    }
    Request { id: 3, method: String::from_str(method), params: Some(JsonValue::Obj(fields)) }
}

/// The status line after acting on an element.
pub fn action_status(method: &str, ok: bool) -> (r: String)
    ensures
        ok ==> r@ == ("sent ")@ + method@,
        !ok ==> r@ == method@ + (" failed")@,
{
    if ok {
        let mut out = String::from_str("sent ");
        out.append(method);
        out
    } else {
        let mut out = String::from_str(method);
        out.append(" failed");
        out
    }
}

/// The status line after refreshing the element list.
pub fn refresh_status(ok: bool) -> (r: String)
    ensures
        r@ == (if ok {
            ("elements refreshed")@
        } else {
            ("elements refresh failed")@
        }),
{
    if ok {
        String::from_str("elements refreshed")
    } else {
        String::from_str("elements refresh failed")
    }
}

} // verus!
