//! The dynamic wire value: a tagged union mirroring everything the binary
//! wire format can carry, together with its mathematical model.

use vstd::prelude::*;

verus! {

/// Mathematical model of a wire value: the same tree, over `Seq` instead of
/// `Vec` and `String`. A string is modelled by its character sequence.
pub enum Val {
    Null,
    Bool(bool),
    Int(u64),
    Str(Seq<char>),
    Bin(Seq<u8>),
    Arr(Seq<Val>),
    Obj(Seq<(Seq<char>, Val)>),
}

/// A dynamically-typed wire value. The wire form carries no discriminant of
/// its own: the decoder tells the variants apart by the physical type marker
/// of the underlying codec, so a byte buffer stays distinct from a UTF-8
/// string through arbitrary nesting.
#[derive(Debug, PartialEq, Eq)]
pub enum Value {
    Null,
    Bool(bool),
    Number(u64),
    String(String),
    Bytes(Vec<u8>),
    Array(Vec<Value>),
    Object(Vec<(String, Value)>),
}

impl Value {
    /// Deep view: the mathematical model of this value.
    pub open spec fn dv(self) -> Val
        decreases self,
    {
        match self {
            Value::Null => Val::Null,
            Value::Bool(b) => Val::Bool(b),
            Value::Number(n) => Val::Int(n),
            Value::String(s) => Val::Str(s@),
            Value::Bytes(b) => Val::Bin(b@),
            Value::Array(elems) => Val::Arr(dv_seq(elems@)),
            Value::Object(fields) => Val::Obj(dv_fields(fields@)),
        }
    }
}

/// Deep view of a sequence of values.
pub open spec fn dv_seq(s: Seq<Value>) -> Seq<Val>
    decreases s,
{
    if s.len() == 0 {
        Seq::empty()
    } else {
        seq![s[0].dv()] + dv_seq(s.drop_first())
    }
}

/// Deep view of a sequence of object fields.
pub open spec fn dv_fields(s: Seq<(String, Value)>) -> Seq<(Seq<char>, Val)>
    decreases s,
{
    if s.len() == 0 {
        Seq::empty()
    } else {
        seq![(s[0].0@, s[0].1.dv())] + dv_fields(s.drop_first())
    }
}

pub proof fn lemma_dv_seq_len(s: Seq<Value>)
    ensures
        dv_seq(s).len() == s.len(),
        forall|i: int| 0 <= i < s.len() ==> dv_seq(s)[i] == s[i].dv(),
    decreases s,
{
    if s.len() > 0 {
        lemma_dv_seq_len(s.drop_first());
    }
}

pub proof fn lemma_dv_fields_len(s: Seq<(String, Value)>)
    ensures
        dv_fields(s).len() == s.len(),
        forall|i: int| 0 <= i < s.len() ==> dv_fields(s)[i] == (s[i].0@, s[i].1.dv()),
    decreases s,
{
    if s.len() > 0 {
        lemma_dv_fields_len(s.drop_first());
    }
}

pub proof fn lemma_dv_seq_push(s: Seq<Value>, x: Value)
    ensures
        dv_seq(s.push(x)) == dv_seq(s).push(x.dv()),
{
    lemma_dv_seq_len(s);
    lemma_dv_seq_len(s.push(x));
    assert(dv_seq(s.push(x)) =~= dv_seq(s).push(x.dv()));
}

pub proof fn lemma_dv_fields_push(s: Seq<(String, Value)>, k: String, x: Value)
    ensures
        dv_fields(s.push((k, x))) == dv_fields(s).push((k@, x.dv())),
{
    lemma_dv_fields_len(s);
    lemma_dv_fields_len(s.push((k, x)));
    assert(dv_fields(s.push((k, x))) =~= dv_fields(s).push((k@, x.dv())));
}

impl Default for Value {
    /// The default wire value is `Null`.
    fn default() -> (r: Self)
        ensures
            r.dv() == Val::Null,
    {
        Value::Null
    }
}

} // verus!
