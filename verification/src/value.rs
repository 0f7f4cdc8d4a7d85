//! The value model: a tagged, recursive value representing a scalar or a
//! structured record, used both as template input and as bind-value
//! container. A record is projected into the `Object` variant, an ordered
//! field-name-to-value list whose order drives generated column order.

use vstd::prelude::*;

verus! {

broadcast use vstd::std_specs::vec::group_vec_axioms;

/// The mathematical shape of a [`Value`], used by all contracts.
pub enum ValueS {
    Null,
    Bool(bool),
    I32(i32),
    I64(i64),
    U32(u32),
    U64(u64),
    Str(Seq<char>),
    Bytes(Seq<u8>),
    Array(Seq<ValueS>),
    Object(Seq<(Seq<char>, ValueS)>),
    Ext(Seq<char>, Box<ValueS>),
}

/// A dynamically-typed value: `Null`, a scalar, a byte string, an ordered
/// sequence, an ordered field map (a record projection), or a named
/// extension wrapping a nested value (used for domain types such as
/// timestamps).
#[derive(Debug)]
pub enum Value {
    Null,
    Bool(bool),
    I32(i32),
    I64(i64),
    U32(u32),
    U64(u64),
    Str(String),
    Bytes(Vec<u8>),
    Array(Vec<Value>),
    Object(Vec<(String, Value)>),
    Ext(String, Box<Value>),
}

/// The mathematical view of a value.
pub open spec fn view_value(v: Value) -> ValueS
    decreases v,
{
    match v {
        Value::Null => ValueS::Null,
        Value::Bool(b) => ValueS::Bool(b),
        Value::I32(n) => ValueS::I32(n),
        Value::I64(n) => ValueS::I64(n),
        Value::U32(n) => ValueS::U32(n),
        Value::U64(n) => ValueS::U64(n),
        Value::Str(s) => ValueS::Str(s@),
        Value::Bytes(b) => ValueS::Bytes(b@),
        Value::Array(a) => ValueS::Array(view_values(a@)),
        Value::Object(m) => ValueS::Object(view_entries(m@)),
        Value::Ext(n, b) => ValueS::Ext(n@, Box::new(view_value(*b))),
    }
}

/// The views of a sequence of values, in order.
pub open spec fn view_values(s: Seq<Value>) -> Seq<ValueS>
    decreases s,
{
    if s.len() == 0 {
        Seq::empty()
    } else {
        seq![view_value(s[0])] + view_values(s.drop_first())
    }
}

/// The views of a sequence of named entries, in order.
pub open spec fn view_entries(s: Seq<(String, Value)>) -> Seq<(Seq<char>, ValueS)>
    decreases s,
{
    if s.len() == 0 {
        Seq::empty()
    } else {
        seq![(s[0].0@, view_value(s[0].1))] + view_entries(s.drop_first())
    }
}

/// `view_values` maps the view over the sequence, element by element.
pub proof fn lemma_view_values(s: Seq<Value>)
    ensures
        view_values(s).len() == s.len(),
        forall|i: int| 0 <= i < s.len() ==> #[trigger] view_values(s)[i] == view_value(s[i]),
    decreases s,
{
    if s.len() > 0 {
        lemma_view_values(s.drop_first());
    }
}

/// `view_entries` maps the view over the entries, element by element.
pub proof fn lemma_view_entries(s: Seq<(String, Value)>)
    ensures
        view_entries(s).len() == s.len(),
        forall|i: int| 0 <= i < s.len() ==>
            #[trigger] view_entries(s)[i] == (s[i].0@, view_value(s[i].1)),
    decreases s,
{
    if s.len() > 0 {
        lemma_view_entries(s.drop_first());
    }
}

/// Appending an entry appends its view.
pub proof fn lemma_view_entries_push(s: Seq<(String, Value)>, p: (String, Value))
    ensures
        view_entries(s.push(p)) == view_entries(s).push((p.0@, view_value(p.1))),
{
    lemma_view_entries(s.push(p));
    lemma_view_entries(s);
    assert(view_entries(s.push(p)) =~= view_entries(s).push((p.0@, view_value(p.1))));
}

/// A deep copy whose view equals the original's view.
#[verifier::loop_isolation(false)]
pub fn clone_value(v: &Value) -> (r: Value)
    ensures
        view_value(r) == view_value(*v),
    decreases *v,
{
    match v {
        Value::Null => Value::Null,
        Value::Bool(b) => Value::Bool(*b),
        Value::I32(n) => Value::I32(*n),
        Value::I64(n) => Value::I64(*n),
        Value::U32(n) => Value::U32(*n),
        Value::U64(n) => Value::U64(*n),
        Value::Str(s) => Value::Str(s.clone()),
        Value::Bytes(b) => {
            let mut out: Vec<u8> = Vec::new();
            let mut i: usize = 0;
            while i < b.len()
                invariant
                    i <= b.len(),
                    out@ == b@.take(i as int),
                decreases b.len() - i,
            {
                out.push(b[i]);
                i = i + 1;
                proof {
                    assert(out@ =~= b@.take(i as int));
                }
            }
            proof {
                assert(out@ =~= b@);
            }
            Value::Bytes(out)
        },
        Value::Array(a) => {
            let mut out: Vec<Value> = Vec::new();
            let mut i: usize = 0;
            while i < a.len()
                invariant
                    i <= a.len(),
                    out@.len() == i,
                    forall|j: int| 0 <= j < i ==>
                        #[trigger] view_value(out@[j]) == view_value(a@[j]),
                decreases a.len() - i,
            {
                proof {
                    assert(*a == v->Array_0);
                    assert(decreases_to!(*v => v->Array_0));
                    assert(decreases_to!(v->Array_0 => (v->Array_0)[i as int]));
                }
                let c = clone_value(&a[i]);
                out.push(c);
                i = i + 1;
            }
            proof {
                lemma_view_values(out@);
                lemma_view_values(a@);
                assert(view_values(out@) =~= view_values(a@));
            }
            Value::Array(out)
        },
        Value::Object(m) => {
            let mut out: Vec<(String, Value)> = Vec::new();
            let mut i: usize = 0;
            while i < m.len()
                invariant
                    i <= m.len(),
                    out@.len() == i,
                    forall|j: int| 0 <= j < i ==>
                        #[trigger] out@[j].0@ == m@[j].0@ && view_value(out@[j].1) == view_value(m@[j].1),
                decreases m.len() - i,
            {
                proof {
                    assert(*m == v->Object_0);
                    assert(decreases_to!(*v => v->Object_0));
                    assert(decreases_to!(v->Object_0 => (v->Object_0)[i as int]));
                    assert(decreases_to!((v->Object_0)[i as int] => (v->Object_0)[i as int].1));
                }
                let k = m[i].0.clone();
                let c = clone_value(&m[i].1);
                out.push((k, c));
                i = i + 1;
            }
            proof {
                lemma_view_entries(out@);
                lemma_view_entries(m@);
                assert(view_entries(out@) =~= view_entries(m@));
            }
            Value::Object(out)
        },
        Value::Ext(n, b) => Value::Ext(n.clone(), Box::new(clone_value(b))),
    }
}

/// The mathematical integer carried by a numeric value, if any.
pub open spec fn num_of(v: ValueS) -> Option<int> {
    match v {
        ValueS::I32(n) => Some(n as int),
        ValueS::I64(n) => Some(n as int),
        ValueS::U32(n) => Some(n as int),
        ValueS::U64(n) => Some(n as int),
        _ => None,
    }
}

/// The integer of a numeric value, widened to 128 bits.
pub fn num_exec(v: &Value) -> (r: Option<i128>)
    ensures
        match r {
            Some(n) => num_of(view_value(*v)) == Some(n as int),
            None => num_of(view_value(*v)) is None,
        },
{
    match v {
        Value::I32(n) => Some(*n as i128),
        Value::I64(n) => Some(*n as i128),
        Value::U32(n) => Some(*n as i128),
        Value::U64(n) => Some(*n as i128),
        _ => None,
    }
}

/// A record notation value kept for interoperability: the original object
/// notation with a struct tag, an enum tag, and an ordered map held as a
/// key/value list (keys unique, insertion order kept).
#[derive(Debug)]
pub enum RBON {
    Null,
    String(String),
    I32(i32),
    I64(i64),
    U32(u32),
    U64(u64),
    Bytes(Vec<u8>),
    Object(Vec<(String, RBON)>),
    Struct(String, Vec<(String, RBON)>),
    Array(Vec<RBON>),
    Enum((String, Box<RBON>)),
}

} // verus!
