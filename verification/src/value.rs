//! The structured values that travel on the wire, and their mathematical
//! model.
//!
//! Wire values are JSON: null, booleans, integers, strings, arrays and
//! objects.  Numbers are modelled as integers in the range a peer can
//! exchange losslessly (everything a signed or unsigned 64-bit integer can
//! hold); the protocol itself never uses fractional numbers.

use vstd::prelude::*;

verus! {

/// Mathematical model of a wire value.  Objects keep their fields in wire
/// order; a key may in principle repeat, and lookups take the first match.
pub enum JVal {
    Null,
    Bool(bool),
    Int(int),
    Str(Seq<char>),
    Arr(Seq<JVal>),
    Obj(Seq<(Seq<char>, JVal)>),
}

/// A structured wire value.  `Int` carries the logical integer; values a
/// peer can represent lie in `[i64::MIN, u64::MAX]` (see [`wf_jval`]).
#[derive(Debug, PartialEq, Eq)]
pub enum JsonValue {
    Null,
    Bool(bool),
    Int(i128),
    Str(String),
    Arr(Vec<JsonValue>),
    Obj(Vec<(String, JsonValue)>),
}

/// Model of a sequence of wire values (the contents of an array).
pub open spec fn arr_model(items: Seq<JsonValue>) -> Seq<JVal>
    decreases items,
{
    if items.len() == 0 {
        Seq::empty()
    } else {
        seq![jval_model(items[0])] + arr_model(items.subrange(1, items.len() as int))
    }
}

/// Model of a sequence of object fields.
pub open spec fn obj_model(fields: Seq<(String, JsonValue)>) -> Seq<(Seq<char>, JVal)>
    decreases fields,
{
    if fields.len() == 0 {
        Seq::empty()
    } else {
        seq![(fields[0].0@, jval_model(fields[0].1))] + obj_model(
            fields.subrange(1, fields.len() as int),
        )
    }
}

/// Model of a wire value.
pub open spec fn jval_model(v: JsonValue) -> JVal
    decreases v,
{
    match v {
        JsonValue::Null => JVal::Null,
        JsonValue::Bool(b) => JVal::Bool(b),
        JsonValue::Int(n) => JVal::Int(n as int),
        JsonValue::Str(s) => JVal::Str(s@),
        JsonValue::Arr(a) => JVal::Arr(arr_model(a@)),
        JsonValue::Obj(o) => JVal::Obj(obj_model(o@)),
    }
}

impl View for JsonValue {
    type V = JVal;

    open spec fn view(&self) -> JVal {
        jval_model(*self)
    }
}

/// The smallest integer a wire value may carry.
pub open spec fn int_min() -> int {
    i64::MIN as int
}

/// The largest integer a wire value may carry.
pub open spec fn int_max() -> int {
    u64::MAX as int
}

/// Every integer in the value lies in the range a peer can exchange.
pub open spec fn wf_jval(v: JVal) -> bool
    decreases v, 0int,
{
    match v {
        JVal::Null => true,
        JVal::Bool(_) => true,
        JVal::Int(n) => int_min() <= n <= int_max(),
        JVal::Str(_) => true,
        JVal::Arr(items) => wf_arr(items),
        JVal::Obj(fields) => wf_obj(fields),
    }
}

/// Every item of the sequence is well formed.
pub open spec fn wf_arr(items: Seq<JVal>) -> bool
    decreases items, 1int,
{
    items.len() == 0 || (wf_jval(items[0]) && wf_arr(items.subrange(1, items.len() as int)))
}

/// Every field value of the sequence is well formed.
pub open spec fn wf_obj(fields: Seq<(Seq<char>, JVal)>) -> bool
    decreases fields, 1int,
{
    fields.len() == 0 || (wf_jval(fields[0].1) && wf_obj(fields.subrange(1, fields.len() as int)))
}

/// The value under the first occurrence of a key in an object's fields.
pub open spec fn obj_lookup(fields: Seq<(Seq<char>, JVal)>, key: Seq<char>) -> Option<JVal>
    decreases fields.len(),
{
    if fields.len() == 0 {
        None
    } else if fields[0].0 == key {
        Some(fields[0].1)
    } else {
        obj_lookup(fields.subrange(1, fields.len() as int), key)
    }
}

/// Character-wise string equality.
pub fn str_eq(a: &str, b: &str) -> (r: bool)
    ensures
        r == (a@ == b@),
{
    let na = a.unicode_len();
    let nb = b.unicode_len();
    if na != nb {
        return false;
    }
    let mut i: usize = 0;
    while i < na
        invariant
            i <= na,
            na == a@.len(),
            na == b@.len(),
            forall|k: int| 0 <= k < i ==> a@[k] == b@[k],
        decreases na - i,
    {
        if a.get_char(i) != b.get_char(i) {
            return false;
        }
        i = i + 1;
    }
    proof {
        assert(a@ =~= b@);
    }
    true
}

/// Whether a value is the null value.
pub fn is_null(v: &JsonValue) -> (r: bool)
    ensures
        r == (jval_model(*v) is Null),
{
    match v {
        JsonValue::Null => true,
        _ => false,
    }
}

/// Runtime check of [`wf_jval`]: every integer in the value lies in the
/// exchangeable range.
pub fn check_wf(v: &JsonValue) -> (r: bool)
    ensures
        r == wf_jval(jval_model(*v)),
    decreases *v, 0int, 0int,
{
    match v {
        JsonValue::Null => true,
        JsonValue::Bool(_) => true,
        JsonValue::Int(n) => -0x8000_0000_0000_0000i128 <= *n && *n <= 0xFFFF_FFFF_FFFF_FFFFi128,
        JsonValue::Str(_) => true,
        JsonValue::Arr(items) => {
            let r = check_wf_arr(items, 0);
            proof {
                let m = arr_model(items@);
                assert(m.subrange(0, m.len() as int) =~= m);
            }
            r
        },
        JsonValue::Obj(fields) => {
            let r = check_wf_obj(fields, 0);
            proof {
                let m = obj_model(fields@);
                assert(m.subrange(0, m.len() as int) =~= m);
            }
            r
        },
    }
}

/// Runtime check of [`wf_arr`] from index `i` on.
fn check_wf_arr(items: &Vec<JsonValue>, i: usize) -> (r: bool)
    requires
        i <= items@.len(),
    ensures
        r == wf_arr(arr_model(items@).subrange(i as int, arr_model(items@).len() as int)),
    decreases items@, 1int, items@.len() - i,
{
    let ghost m = arr_model(items@);
    proof {
        crate::encode::lemma_arr_model_props(items@);
    }
    if i == items.len() {
        proof {
            assert(m.subrange(i as int, m.len() as int).len() == 0);
        }
        true
    } else {
        let ghost t = m.subrange(i as int, m.len() as int);
        proof {
            assert(t[0] == m[i as int]);
            assert(t.subrange(1, t.len() as int) =~= m.subrange(i as int + 1, m.len() as int));
        }
        let head_ok = check_wf(&items[i]);
        if head_ok {
            let rest_ok = check_wf_arr(items, i + 1);
            proof {
                assert(wf_arr(t) == (wf_jval(t[0]) && wf_arr(
                    m.subrange(i as int + 1, m.len() as int),
                )));
            }
            rest_ok
        } else {
            proof {
                assert(!wf_jval(t[0]));
                assert(!wf_arr(t));
            }
            false
        }
    }
}

/// Runtime check of [`wf_obj`] from index `i` on.
fn check_wf_obj(fields: &Vec<(String, JsonValue)>, i: usize) -> (r: bool)
    requires
        i <= fields@.len(),
    ensures
        r == wf_obj(obj_model(fields@).subrange(i as int, obj_model(fields@).len() as int)),
    decreases fields@, 1int, fields@.len() - i,
{
    let ghost m = obj_model(fields@);
    proof {
        crate::encode::lemma_obj_model_props(fields@);
    }
    if i == fields.len() {
        proof {
            assert(m.subrange(i as int, m.len() as int).len() == 0);
        }
        true
    } else {
        let ghost t = m.subrange(i as int, m.len() as int);
        proof {
            assert(t[0] == m[i as int]);
            assert(m[i as int] == (fields@[i as int].0@, jval_model(fields@[i as int].1)));
            assert(t.subrange(1, t.len() as int) =~= m.subrange(i as int + 1, m.len() as int));
        }
        let head_ok = check_wf(&fields[i].1);
        if head_ok {
            let rest_ok = check_wf_obj(fields, i + 1);
            proof {
                assert(wf_obj(t) == (wf_jval(t[0].1) && wf_obj(
                    m.subrange(i as int + 1, m.len() as int),
                )));
            }
            rest_ok
        } else {
            proof {
                assert(!wf_jval(t[0].1));
                assert(!wf_obj(t));
            }
            false
        }
    }
}

/// One step of a lookup.
pub proof fn lemma_lookup_step(m0: Seq<(Seq<char>, JVal)>, key: Seq<char>)
    requires
        m0.len() > 0,
    ensures
        obj_lookup(m0, key) == (if m0[0].0 == key {
            Some(m0[0].1)
        } else {
            obj_lookup(m0.subrange(1, m0.len() as int), key)
        }),
{
}

/// The integer a value holds, if it is a number.
pub fn as_int(v: &JsonValue) -> (r: Option<i128>)
    ensures
        match r {
            Some(n) => jval_model(*v) == JVal::Int(n as int),
            None => !(jval_model(*v) is Int),
        },
{
    match v {
        JsonValue::Int(n) => Some(*n),
        _ => None,
    }
}

/// A borrowed view of a value's fields, if it is an object.
pub fn as_obj_ref<'a>(v: &'a JsonValue) -> (r: Option<&'a Vec<(String, JsonValue)>>)
    ensures
        match r {
            Some(fs) => jval_model(*v) == JVal::Obj(obj_model(fs@)),
            None => !(jval_model(*v) is Obj),
        },
{
    match v {
        JsonValue::Obj(fs) => Some(fs),
        _ => None,
    }
}

/// A borrowed view of a value's items, if it is an array.
pub fn as_arr_ref<'a>(v: &'a JsonValue) -> (r: Option<&'a Vec<JsonValue>>)
    ensures
        match r {
            Some(items) => jval_model(*v) == JVal::Arr(arr_model(items@)),
            None => !(jval_model(*v) is Arr),
        },
{
    match v {
        JsonValue::Arr(items) => Some(items),
        _ => None,
    }
}

/// A borrowed view of a value's text, if it is a string.
pub fn as_str_ref<'a>(v: &'a JsonValue) -> (r: Option<&'a String>)
    ensures
        match r {
            Some(s) => jval_model(*v) == JVal::Str(s@),
            None => !(jval_model(*v) is Str),
        },
{
    match v {
        JsonValue::Str(s) => Some(s),
        _ => None,
    }
}

/// The value under the first occurrence of a key, borrowed.
pub fn obj_get<'a>(fields: &'a Vec<(String, JsonValue)>, key: &str) -> (r: Option<&'a JsonValue>)
    ensures
        match r {
            None => obj_lookup(obj_model(fields@), key@) is None,
            Some(v) => obj_lookup(obj_model(fields@), key@) == Some(jval_model(*v)),
        },
{
    let ghost m = obj_model(fields@);
    proof {
        crate::encode::lemma_obj_model_props(fields@);
        assert(m.subrange(0, m.len() as int) =~= m);
    }
    let mut i: usize = 0;
    while i < fields.len()
        invariant
            i <= fields@.len(),
            m == obj_model(fields@),
            m.len() == fields@.len(),
            forall|k: int|
                0 <= k < fields@.len() ==> m[k] == (
                #[trigger] fields@[k].0@,
                jval_model(fields@[k].1),
            ),
            obj_lookup(m, key@) == obj_lookup(m.subrange(i as int, m.len() as int), key@),
        decreases fields@.len() - i,
    {
        let ghost t = m.subrange(i as int, m.len() as int);
        proof {
            lemma_lookup_step(t, key@);
            assert(t[0] == m[i as int]);
            assert(t.subrange(1, t.len() as int) =~= m.subrange(i as int + 1, m.len() as int));
        }
        if str_eq(fields[i].0.as_str(), key) {
            return Some(&fields[i].1);
        }
        i = i + 1;
    }
    proof {
        assert(m.subrange(i as int, m.len() as int).len() == 0);
    }
    None
}

/// Each item of a well-formed array is well formed.
pub proof fn lemma_wf_arr(items: Seq<JVal>, i: int)
    requires
        wf_arr(items),
        0 <= i < items.len(),
    ensures
        wf_jval(items[i]),
    decreases items.len(),
{
    if i > 0 {
        let sub = items.subrange(1, items.len() as int);
        lemma_wf_arr(sub, i - 1);
        assert(sub[i - 1] == items[i]);
    }
}

/// Each field value of a well-formed object is well formed.
pub proof fn lemma_wf_obj(fields: Seq<(Seq<char>, JVal)>, i: int)
    requires
        wf_obj(fields),
        0 <= i < fields.len(),
    ensures
        wf_jval(fields[i].1),
    decreases fields.len(),
{
    if i > 0 {
        let sub = fields.subrange(1, fields.len() as int);
        lemma_wf_obj(sub, i - 1);
        assert(sub[i - 1] == fields[i]);
    }
}

} // verus!
