//! Wire forms of the typed message shapes: each shape maps to a key-value
//! unit of the dynamic model, required fields always present, defaulted
//! fields omitted when equal to their default and read back as that default
//! when absent.

use vstd::prelude::*;

use crate::error::Error;
use crate::templates::{Checkport, CheckportResponse, Either, ErrorResponse, FindHashIds, GetFile,
    GetFileResponse, GetHashfield, GetHashfieldResponse, GetPieceFields, GetPieceFieldsResponse,
    Handshake, ListModified, OkResponse, Pex, PexResponse, Ping, PingResponse, SetHashfield,
    SetHashfieldResponse, SetPieceFields, SetPieceFieldsResponse, StreamFile, StreamFileResponse,
    UpdateSiteResponse};
use crate::value::{dv_fields, dv_seq, lemma_dv_fields_len, lemma_dv_seq_len, Val, Value};

verus! {

/// The value under the first occurrence of `key`, if any.
pub open spec fn obj_get(fs: Seq<(Seq<char>, Val)>, key: Seq<char>) -> Option<Val>
    decreases fs,
{
    if fs.len() == 0 {
        None
    } else if fs[0].0 == key {
        Some(fs[0].1)
    } else {
        obj_get(fs.drop_first(), key)
    }
}

proof fn lemma_obj_get_skip(fs: Seq<(Seq<char>, Val)>, key: Seq<char>, i: int)
    requires
        0 <= i <= fs.len(),
        forall|k: int| 0 <= k < i ==> (#[trigger] fs[k]).0 != key,
    ensures
        obj_get(fs, key) == obj_get(fs.skip(i), key),
    decreases i,
{
    if i > 0 {
        assert(fs.drop_first().skip(i - 1) =~= fs.skip(i));
        assert(forall|k: int| 0 <= k < i - 1 ==> (#[trigger] fs.drop_first()[k]).0 != key);
        lemma_obj_get_skip(fs.drop_first(), key, i - 1);
    } else {
        assert(fs.skip(0) =~= fs);
    }
}

/// Find the field named `key`, by the same rule as [`obj_get`].
fn lookup<'a>(fields: &'a Vec<(String, Value)>, key: &str) -> (r: Option<&'a Value>)
    ensures
        match r {
            Some(v) => obj_get(dv_fields(fields@), key@) == Some(v.dv()),
            None => obj_get(dv_fields(fields@), key@) is None,
        },
{
    proof {
        lemma_dv_fields_len(fields@);
    }
    let key_owned: String = key.to_owned();
    let n = fields.len();
    let mut i: usize = 0;
    while i < n
        invariant
            i <= n,
            n == fields@.len(),
            key_owned@ == key@,
            forall|k: int| 0 <= k < i ==> (#[trigger] dv_fields(fields@)[k]).0 != key@,
            dv_fields(fields@).len() == fields@.len(),
            forall|k: int|
                0 <= k < fields@.len() ==> #[trigger] dv_fields(fields@)[k] == (
                fields@[k].0@,
                fields@[k].1.dv(),
            ),
        decreases n - i,
    {
        if fields[i].0 == key_owned {
            proof {
                lemma_obj_get_skip(dv_fields(fields@), key@, i as int);
                assert(dv_fields(fields@).skip(i as int)[0] == dv_fields(fields@)[i as int]);
            }
            return Some(&fields[i].1);
        }
        i += 1;
    }
    proof {
        lemma_obj_get_skip(dv_fields(fields@), key@, n as int);
        assert(dv_fields(fields@).skip(n as int).len() == 0);
    }
    None
}

/// A string field: absent reads as the default `d`, a present non-string is
/// a shape error.
pub open spec fn str_field(fs: Seq<(Seq<char>, Val)>, key: Seq<char>, d: Seq<char>) -> Option<
    Seq<char>,
> {
    match obj_get(fs, key) {
        Some(w) => match w {
            Val::Str(s) => Some(s),
            _ => None,
        },
        None => Some(d),
    }
}

/// An integer field: absent reads as the default `d`, a present non-integer
/// is a shape error.
pub open spec fn int_field(fs: Seq<(Seq<char>, Val)>, key: Seq<char>, d: u64) -> Option<u64> {
    match obj_get(fs, key) {
        Some(w) => match w {
            Val::Int(x) => Some(x),
            _ => None,
        },
        None => Some(d),
    }
}

/// An optional integer field: absent reads as `None`.
pub open spec fn opt_int_field(fs: Seq<(Seq<char>, Val)>, key: Seq<char>) -> Option<Option<u64>> {
    match obj_get(fs, key) {
        Some(w) => match w {
            Val::Int(x) => Some(Some(x)),
            _ => None,
        },
        None => Some(None),
    }
}

/// A byte-buffer field: absent reads as empty.
pub open spec fn bin_field(fs: Seq<(Seq<char>, Val)>, key: Seq<char>) -> Option<Seq<u8>> {
    match obj_get(fs, key) {
        Some(w) => match w {
            Val::Bin(b) => Some(b),
            _ => None,
        },
        None => Some(Seq::empty()),
    }
}

fn get_str_field(fields: &Vec<(String, Value)>, key: &str) -> (r: Result<String, Error>)
    ensures
        r matches Ok(s) ==> str_field(dv_fields(fields@), key@, Seq::empty()) == Some(s@),
        r is Err <==> str_field(dv_fields(fields@), key@, Seq::empty()) is None,
{
    match lookup(fields, key) {
        Some(w) => match w {
            Value::String(s) => Ok(s.clone()),
            _ => Err(Error::WrongShape),
        },
        None => Ok(String::new()),
    }
}

fn get_usize_field(fields: &Vec<(String, Value)>, key: &str, d: usize) -> (r: Result<usize, Error>)
    ensures
        r matches Ok(x) ==> int_field(dv_fields(fields@), key@, d as u64) == Some(x as u64),
        r is Err <==> (int_field(dv_fields(fields@), key@, d as u64) is None || (int_field(
            dv_fields(fields@),
            key@,
            d as u64,
        ) matches Some(x) && x > usize::MAX)),
{
    match lookup(fields, key) {
        Some(w) => match w {
            Value::Number(x) => {
                if *x > usize::MAX as u64 {
                    Err(Error::NumberTooLarge)
                } else {
                    Ok(*x as usize)
                }
            },
            _ => Err(Error::WrongShape),
        },
        None => Ok(d),
    }
}

fn get_opt_usize_field(fields: &Vec<(String, Value)>, key: &str) -> (r: Result<
    Option<usize>,
    Error,
>)
    ensures
        r matches Ok(x) ==> opt_int_field(dv_fields(fields@), key@) == Some(
            match x {
                Some(y) => Some(y as u64),
                None => None::<u64>,
            },
        ),
        r is Err <==> (opt_int_field(dv_fields(fields@), key@) is None || (opt_int_field(
            dv_fields(fields@),
            key@,
        ) matches Some(Some(x)) && x > usize::MAX)),
{
    match lookup(fields, key) {
        Some(w) => match w {
            Value::Number(x) => {
                if *x > usize::MAX as u64 {
                    Err(Error::NumberTooLarge)
                } else {
                    Ok(Some(*x as usize))
                }
            },
            _ => Err(Error::WrongShape),
        },
        None => Ok(None),
    }
}

/// A boolean field: absent reads as the default `d`, a present non-boolean
/// is a shape error.
pub open spec fn bool_field(fs: Seq<(Seq<char>, Val)>, key: Seq<char>, d: bool) -> Option<bool> {
    match obj_get(fs, key) {
        Some(w) => match w {
            Val::Bool(b) => Some(b),
            _ => None,
        },
        None => Some(d),
    }
}

fn get_bool_field(fields: &Vec<(String, Value)>, key: &str, d: bool) -> (r: Result<bool, Error>)
    ensures
        r matches Ok(b) ==> bool_field(dv_fields(fields@), key@, d) == Some(b),
        r is Err <==> bool_field(dv_fields(fields@), key@, d) is None,
{
    match lookup(fields, key) {
        Some(w) => match w {
            Value::Bool(b) => Ok(*b),
            _ => Err(Error::WrongShape),
        },
        None => Ok(d),
    }
}

fn get_u16_field(fields: &Vec<(String, Value)>, key: &str, d: u16) -> (r: Result<u16, Error>)
    ensures
        r matches Ok(x) ==> int_field(dv_fields(fields@), key@, d as u64) == Some(x as u64),
        r is Err <==> (int_field(dv_fields(fields@), key@, d as u64) is None || (int_field(
            dv_fields(fields@),
            key@,
            d as u64,
        ) matches Some(x) && x > u16::MAX)),
{
    match lookup(fields, key) {
        Some(w) => match w {
            Value::Number(x) => {
                if *x > u16::MAX as u64 {
                    Err(Error::NumberTooLarge)
                } else {
                    Ok(*x as u16)
                }
            },
            _ => Err(Error::WrongShape),
        },
        None => Ok(d),
    }
}

fn get_bin_field(fields: &Vec<(String, Value)>, key: &str) -> (r: Result<Vec<u8>, Error>)
    ensures
        r matches Ok(b) ==> bin_field(dv_fields(fields@), key@) == Some(b@),
        r is Err <==> bin_field(dv_fields(fields@), key@) is None,
{
    match lookup(fields, key) {
        Some(w) => match w {
            Value::Bytes(b) => Ok(vstd::slice::slice_to_vec(b.as_slice())),
            _ => Err(Error::WrongShape),
        },
        None => Ok(Vec::new()),
    }
}

/// One list of integers, as the model sees it.
pub open spec fn ints(s: Seq<u64>) -> Seq<Val> {
    Seq::new(s.len(), |i: int| Val::Int(s[i]))
}

/// The 64-bit images of a list of machine integers.
pub open spec fn u64s(s: Seq<usize>) -> Seq<u64> {
    Seq::new(s.len(), |i: int| s[i] as u64)
}

/// Whether a wire array holds only integers, and the integers it holds.
pub open spec fn as_int_list(es: Seq<Val>) -> Option<Seq<u64>> {
    if exists|i: int| 0 <= i < es.len() && !((#[trigger] es[i]) matches Val::Int(_)) {
        None
    } else {
        Some(Seq::new(es.len(), |i: int| es[i]->Int_0))
    }
}

/// A field holding a list of integers: absent reads as empty, any entry of
/// another kind is a shape error.
pub open spec fn int_list_field(fs: Seq<(Seq<char>, Val)>, key: Seq<char>) -> Option<Seq<u64>> {
    match obj_get(fs, key) {
        Some(w) => match w {
            Val::Arr(es) => as_int_list(es),
            _ => None,
        },
        None => Some(Seq::empty()),
    }
}

#[verifier::loop_isolation(false)]
fn get_usize_list_field(fields: &Vec<(String, Value)>, key: &str) -> (r: Result<
    Vec<usize>,
    Error,
>)
    ensures
        r matches Ok(l) ==> int_list_field(dv_fields(fields@), key@) == Some(u64s(l@)),
        r is Err <==> (int_list_field(dv_fields(fields@), key@) is None || (int_list_field(
            dv_fields(fields@),
            key@,
        ) matches Some(l) && exists|i: int| 0 <= i < l.len() && #[trigger] l[i] > usize::MAX)),
{
    match lookup(fields, key) {
        Some(w) => match w {
            Value::Array(es) => {
                proof {
                    lemma_dv_seq_len(es@);
                }
                let n = es.len();
                let mut out: Vec<usize> = Vec::new();
                let mut i: usize = 0;
                while i < n
                    invariant
                        i <= n,
                        n == es@.len(),
                        out@.len() == i,
                        forall|k: int|
                            0 <= k < i ==> ((#[trigger] dv_seq(es@)[k]) matches Val::Int(_)
                                && dv_seq(es@)[k]->Int_0 == out@[k] as u64),
                    decreases n - i,
                {
                    match &es[i] {
                        Value::Number(x) => {
                            if *x > usize::MAX as u64 {
                                proof {
                                    let l = as_int_list(dv_seq(es@));
                                    if l is Some {
                                        assert(l->0[i as int] == dv_seq(es@)[i as int]->Int_0);
                                        assert(l->0[i as int] > usize::MAX);
                                    }
                                }
                                return Err(Error::NumberTooLarge);
                            }
                            out.push(*x as usize);
                        },
                        other => {
                            proof {
                                assert(dv_seq(es@)[i as int] == other.dv());
                                assert(exists|k: int|
                                    0 <= k < dv_seq(es@).len() && !((#[trigger] dv_seq(
                                        es@,
                                    )[k]) matches Val::Int(_))) by {
                                    assert(!((dv_seq(es@)[i as int]) matches Val::Int(_)));
                                }
                            }
                            return Err(Error::WrongShape);
                        },
                    }
                    i += 1;
                }
                proof {
                    assert(as_int_list(dv_seq(es@)) =~= Some(u64s(out@))) by {
                        assert(Seq::new(dv_seq(es@).len(), |k: int| dv_seq(es@)[k]->Int_0)
                            =~= u64s(out@));
                    }
                }
                Ok(out)
            },
            _ => Err(Error::WrongShape),
        },
        None => Ok(Vec::new()),
    }
}

/// One list of packed byte buffers, as the model sees it.
pub open spec fn bins(s: Seq<Seq<u8>>) -> Seq<Val> {
    Seq::new(s.len(), |i: int| Val::Bin(s[i]))
}

/// The deep view of a list of byte buffers.
pub open spec fn bufs(s: Seq<Vec<u8>>) -> Seq<Seq<u8>> {
    Seq::new(s.len(), |i: int| s[i]@)
}

/// Whether a wire array holds only byte buffers, and the buffers it holds.
pub open spec fn as_bin_list(es: Seq<Val>) -> Option<Seq<Seq<u8>>> {
    if exists|i: int| 0 <= i < es.len() && !((#[trigger] es[i]) matches Val::Bin(_)) {
        None
    } else {
        Some(Seq::new(es.len(), |i: int| es[i]->Bin_0))
    }
}

/// A field holding a list of byte buffers: absent reads as empty, any entry
/// of another kind is a shape error.
pub open spec fn bin_list_field(fs: Seq<(Seq<char>, Val)>, key: Seq<char>) -> Option<Seq<Seq<u8>>> {
    match obj_get(fs, key) {
        Some(w) => match w {
            Val::Arr(es) => as_bin_list(es),
            _ => None,
        },
        None => Some(Seq::empty()),
    }
}

/// An optional field holding a list of byte buffers: absent reads as `None`.
pub open spec fn opt_bin_list_field(fs: Seq<(Seq<char>, Val)>, key: Seq<char>) -> Option<
    Option<Seq<Seq<u8>>>,
> {
    match obj_get(fs, key) {
        Some(w) => match w {
            Val::Arr(es) => match as_bin_list(es) {
                Some(l) => Some(Some(l)),
                None => None,
            },
            _ => None,
        },
        None => Some(None),
    }
}

#[verifier::loop_isolation(false)]
fn bin_list_of_array(es: &Vec<Value>) -> (r: Result<Vec<Vec<u8>>, Error>)
    ensures
        r matches Ok(b) ==> as_bin_list(dv_seq(es@)) == Some(bufs(b@)),
        r is Err <==> as_bin_list(dv_seq(es@)) is None,
{
    proof {
        lemma_dv_seq_len(es@);
    }
    let n = es.len();
    let mut out: Vec<Vec<u8>> = Vec::new();
    let mut i: usize = 0;
    while i < n
        invariant
            i <= n,
            n == es@.len(),
            out@.len() == i,
            dv_seq(es@).len() == es@.len(),
            forall|k: int| 0 <= k < es@.len() ==> #[trigger] dv_seq(es@)[k] == es@[k].dv(),
            forall|k: int|
                0 <= k < i ==> ((#[trigger] dv_seq(es@)[k]) matches Val::Bin(_) && dv_seq(
                    es@,
                )[k]->Bin_0 == out@[k]@),
        decreases n - i,
    {
        match &es[i] {
            Value::Bytes(b) => {
                out.push(vstd::slice::slice_to_vec(b.as_slice()));
            },
            other => {
                proof {
                    assert(dv_seq(es@)[i as int] == other.dv());
                    assert(exists|k: int|
                        0 <= k < dv_seq(es@).len() && !((#[trigger] dv_seq(es@)[k]) matches
                        Val::Bin(_))) by {
                        assert(!((dv_seq(es@)[i as int]) matches Val::Bin(_)));
                    }
                }
                return Err(Error::WrongShape);
            },
        }
        i += 1;
    }
    proof {
        assert(as_bin_list(dv_seq(es@)) =~= Some(bufs(out@))) by {
            assert(Seq::new(dv_seq(es@).len(), |k: int| dv_seq(es@)[k]->Bin_0) =~= bufs(out@));
        }
    }
    Ok(out)
}

fn get_bin_list_field(fields: &Vec<(String, Value)>, key: &str) -> (r: Result<Vec<Vec<u8>>, Error>)
    ensures
        r matches Ok(b) ==> bin_list_field(dv_fields(fields@), key@) == Some(bufs(b@)),
        r is Err <==> bin_list_field(dv_fields(fields@), key@) is None,
{
    match lookup(fields, key) {
        Some(w) => match w {
            Value::Array(es) => bin_list_of_array(es),
            _ => Err(Error::WrongShape),
        },
        None => Ok(Vec::new()),
    }
}

fn get_opt_bin_list_field(fields: &Vec<(String, Value)>, key: &str) -> (r: Result<
    Option<Vec<Vec<u8>>>,
    Error,
>)
    ensures
        r matches Ok(b) ==> opt_bin_list_field(dv_fields(fields@), key@) == Some(
            match b {
                Some(l) => Some(bufs(l@)),
                None => None::<Seq<Seq<u8>>>,
            },
        ),
        r is Err <==> opt_bin_list_field(dv_fields(fields@), key@) is None,
{
    match lookup(fields, key) {
        Some(w) => match w {
            Value::Array(es) => match bin_list_of_array(es) {
                Ok(l) => Ok(Some(l)),
                Err(e) => Err(e),
            },
            _ => Err(Error::WrongShape),
        },
        None => Ok(None),
    }
}

proof fn lemma_obj_get_cons(k: Seq<char>, v: Val, rest: Seq<(Seq<char>, Val)>, key: Seq<char>)
    ensures
        obj_get(seq![(k, v)] + rest, key) == (if key == k {
            Some(v)
        } else {
            obj_get(rest, key)
        }),
{
    let fs = seq![(k, v)] + rest;
    assert(fs[0] == (k, v));
    assert(fs.drop_first() =~= rest);
}

/// One optional leading entry: present only when `cond` holds.
pub open spec fn opt_entry(cond: bool, k: Seq<char>, v: Val) -> Seq<(Seq<char>, Val)> {
    if cond {
        seq![(k, v)]
    } else {
        Seq::empty()
    }
}

proof fn lemma_obj_get_opt_cons(
    cond: bool,
    k: Seq<char>,
    v: Val,
    rest: Seq<(Seq<char>, Val)>,
    key: Seq<char>,
)
    ensures
        obj_get(opt_entry(cond, k, v) + rest, key) == (if cond && key == k {
            Some(v)
        } else {
            obj_get(rest, key)
        }),
{
    if cond {
        lemma_obj_get_cons(k, v, rest, key);
        assert(opt_entry(cond, k, v) + rest =~= seq![(k, v)] + rest);
    } else {
        assert(opt_entry(cond, k, v) + rest =~= rest);
    }
}

proof fn lemma_obj_get_single(k: Seq<char>, v: Val, key: Seq<char>)
    ensures
        obj_get(seq![(k, v)], key) == (if key == k {
            Some(v)
        } else {
            None::<Val>
        }),
{
    lemma_obj_get_cons(k, v, Seq::<(Seq<char>, Val)>::empty(), key);
    assert(seq![(k, v)] =~= seq![(k, v)] + Seq::<(Seq<char>, Val)>::empty());
}

proof fn lemma_obj_get_pair(k1: Seq<char>, v1: Val, k2: Seq<char>, v2: Val, key: Seq<char>)
    ensures
        obj_get(seq![(k1, v1), (k2, v2)], key) == (if key == k1 {
            Some(v1)
        } else if key == k2 {
            Some(v2)
        } else {
            None::<Val>
        }),
{
    assert(seq![(k1, v1), (k2, v2)] =~= seq![(k1, v1)] + seq![(k2, v2)]);
    lemma_obj_get_cons(k1, v1, seq![(k2, v2)], key);
    lemma_obj_get_single(k2, v2, key);
}

proof fn lemma_obj_get_triple(
    k1: Seq<char>,
    v1: Val,
    k2: Seq<char>,
    v2: Val,
    k3: Seq<char>,
    v3: Val,
    key: Seq<char>,
)
    ensures
        obj_get(seq![(k1, v1), (k2, v2), (k3, v3)], key) == (if key == k1 {
            Some(v1)
        } else if key == k2 {
            Some(v2)
        } else if key == k3 {
            Some(v3)
        } else {
            None::<Val>
        }),
{
    assert(seq![(k1, v1), (k2, v2), (k3, v3)] =~= seq![(k1, v1)] + seq![(k2, v2), (k3, v3)]);
    lemma_obj_get_cons(k1, v1, seq![(k2, v2), (k3, v3)], key);
    lemma_obj_get_pair(k2, v2, k3, v3, key);
}

proof fn lemma_bins_all_bin(s: Seq<Seq<u8>>)
    ensures
        !exists|i: int| 0 <= i < bins(s).len() && !((#[trigger] bins(s)[i]) matches Val::Bin(_)),
        Seq::new(bins(s).len(), |i: int| bins(s)[i]->Bin_0) == s,
{
    assert(Seq::new(bins(s).len(), |i: int| bins(s)[i]->Bin_0) =~= s);
}

/// Build the wire value of one list of packed byte buffers.
fn bins_value(list: &Vec<Vec<u8>>) -> (r: Value)
    ensures
        r.dv() == Val::Arr(bins(bufs(list@))),
{
    let n = list.len();
    let mut es: Vec<Value> = Vec::new();
    let mut i: usize = 0;
    while i < n
        invariant
            i <= n,
            n == list@.len(),
            es@.len() == i,
            forall|k: int| 0 <= k < i ==> (#[trigger] es@[k]).dv() == Val::Bin(list@[k]@),
        decreases n - i,
    {
        es.push(Value::Bytes(vstd::slice::slice_to_vec(list[i].as_slice())));
        i += 1;
    }
    proof {
        lemma_dv_seq_len(es@);
        assert(dv_seq(es@) =~= bins(bufs(list@)));
    }
    Value::Array(es)
}

/// One list of strings, as the model sees it.
pub open spec fn strs(s: Seq<String>) -> Seq<Val> {
    Seq::new(s.len(), |i: int| Val::Str(s[i]@))
}

/// Build the wire value of one list of strings.
fn strs_value(list: &Vec<String>) -> (r: Value)
    ensures
        r.dv() == Val::Arr(strs(list@)),
{
    let n = list.len();
    let mut es: Vec<Value> = Vec::new();
    let mut i: usize = 0;
    while i < n
        invariant
            i <= n,
            n == list@.len(),
            es@.len() == i,
            forall|k: int| 0 <= k < i ==> (#[trigger] es@[k]).dv() == Val::Str(list@[k]@),
        decreases n - i,
    {
        es.push(Value::String(list[i].clone()));
        i += 1;
    }
    proof {
        lemma_dv_seq_len(es@);
        assert(dv_seq(es@) =~= strs(list@));
    }
    Value::Array(es)
}

proof fn lemma_obj_get_push(f: Seq<(Seq<char>, Val)>, k: Seq<char>, v: Val, key: Seq<char>)
    ensures
        obj_get(f.push((k, v)), key) == (match obj_get(f, key) {
            Some(w) => Some(w),
            None => if key == k {
                Some(v)
            } else {
                None::<Val>
            },
        }),
    decreases f,
{
    if f.len() == 0 {
        assert(f.push((k, v)) =~= seq![(k, v)]);
        lemma_obj_get_single(k, v, key);
    } else {
        assert(f.push((k, v)).drop_first() =~= f.drop_first().push((k, v)));
        lemma_obj_get_push(f.drop_first(), k, v, key);
    }
}

/// Append one named field to an object under construction.
fn push_field(fields: &mut Vec<(String, Value)>, key: &str, val: Value)
    ensures
        dv_fields(final(fields)@) == dv_fields(old(fields)@).push((key@, val.dv())),
{
    let ghost before = fields@;
    let ghost gv = val;
    let key_s: String = key.to_owned();
    let ghost gk = key_s;
    fields.push((key_s, val));
    proof {
        crate::value::lemma_dv_fields_push(before, gk, gv);
    }
}

impl Handshake {
    /// The wire object of the handshake. The peer identifier, file-server
    /// port and timestamp always travel; every other field is omitted when
    /// equal to its default. The observed external address is carried under
    /// the wire name `target_ip`, not its in-memory field name.
    pub open spec fn wire_fields(self) -> Seq<(Seq<char>, Val)> {
        self.reach_fields(self.crypt_fields(self.required_fields()))
    }

    /// The three fields that always travel.
    pub open spec fn required_fields(self) -> Seq<(Seq<char>, Val)> {
        seq![
            ("peer_id"@, Val::Str(self.peer_id@)),
            ("fileserver_port"@, Val::Int(self.fileserver_port as u64)),
            ("time"@, Val::Int(self.time)),
        ]
    }

    /// The defaulted reachability fields, appended to `f` when set: onion
    /// address, protocol, reachability flag, revision, observed external
    /// address — under the wire name `target_ip` — and version.
    pub open spec fn reach_fields(self, f: Seq<(Seq<char>, Val)>) -> Seq<(Seq<char>, Val)> {
        let f = if self.onion is Some {
            f.push(("onion"@, Val::Str(self.onion->0@)))
        } else {
            f
        };
        let f = if self.protocol@.len() != 0 {
            f.push(("protocol"@, Val::Str(self.protocol@)))
        } else {
            f
        };
        let f = if self.port_opened is Some {
            f.push(("port_opened"@, Val::Bool(self.port_opened->0)))
        } else {
            f
        };
        let f = if self.rev != 0 {
            f.push(("rev"@, Val::Int(self.rev as u64)))
        } else {
            f
        };
        let f = if self.target_address is Some {
            f.push(("target_ip"@, Val::Str(self.target_address->0@)))
        } else {
            f
        };
        if self.version@.len() != 0 {
            f.push(("version"@, Val::Str(self.version@)))
        } else {
            f
        }
    }

    /// The defaulted encryption fields, appended to `f` when set.
    pub open spec fn crypt_fields(self, f: Seq<(Seq<char>, Val)>) -> Seq<(Seq<char>, Val)> {
        let f = if self.crypt is Some {
            f.push(("crypt"@, Val::Str(self.crypt->0@)))
        } else {
            f
        };
        let f = if self.crypt_supported@.len() != 0 {
            f.push(("crypt_supported"@, Val::Arr(strs(self.crypt_supported@))))
        } else {
            f
        };
        if self.use_bin_type {
            f.push(("use_bin_type"@, Val::Bool(true)))
        } else {
            f
        }
    }

    /// The wire form of this record.
    pub open spec fn wire(self) -> Val {
        Val::Obj(self.wire_fields())
    }

    /// Turn this record into its wire value, applying the default-omission
    /// rule and the `target_ip` rename.
    #[verifier::rlimit(100)]
    pub fn to_value(&self) -> (r: Value)
        ensures
            r.dv() == self.wire(),
    {
        let mut fields: Vec<(String, Value)> = Vec::new();
        push_field(&mut fields, "peer_id", Value::String(self.peer_id.clone()));
        push_field(&mut fields, "fileserver_port", Value::Number(self.fileserver_port as u64));
        push_field(&mut fields, "time", Value::Number(self.time));
        proof {
            assert(dv_fields(Seq::<(String, Value)>::empty()) =~= Seq::<(Seq<char>, Val)>::empty());
            assert(dv_fields(fields@) =~= self.required_fields());
        }
        push_crypt_fields(self, &mut fields);
        push_reach_fields(self, &mut fields);
        Value::Object(fields)
    }
}

/// Append the encryption fields of the handshake that are set.
fn push_crypt_fields(h: &Handshake, fields: &mut Vec<(String, Value)>)
    ensures
        dv_fields(final(fields)@) == h.crypt_fields(dv_fields(old(fields)@)),
{
    let ghost mut model: Seq<(Seq<char>, Val)> = dv_fields(fields@);
    match &h.crypt {
        Some(c) => {
            push_field(fields, "crypt", Value::String(c.clone()));
            proof {
                model = model.push(("crypt"@, Val::Str(c@)));
                assert(dv_fields(fields@) == model);
            }
        },
        None => {},
    }
    if h.crypt_supported.len() != 0 {
        push_field(fields, "crypt_supported", strs_value(&h.crypt_supported));
        proof {
            model = model.push(("crypt_supported"@, Val::Arr(strs(h.crypt_supported@))));
            assert(dv_fields(fields@) == model);
        }
    }
    if h.use_bin_type {
        push_field(fields, "use_bin_type", Value::Bool(true));
        proof {
            model = model.push(("use_bin_type"@, Val::Bool(true)));
            assert(dv_fields(fields@) == model);
        }
    }
    proof {
        assert(dv_fields(fields@) == model);
        assert(model == h.crypt_fields(dv_fields(old(fields)@)));
    }
}

/// Append the reachability fields of the handshake that are set.
fn push_reach_fields(h: &Handshake, fields: &mut Vec<(String, Value)>)
    ensures
        dv_fields(final(fields)@) == h.reach_fields(dv_fields(old(fields)@)),
{
    let ghost mut model: Seq<(Seq<char>, Val)> = dv_fields(fields@);
    match &h.onion {
        Some(o) => {
            push_field(fields, "onion", Value::String(o.clone()));
            proof {
                model = model.push(("onion"@, Val::Str(o@)));
                assert(dv_fields(fields@) == model);
            }
        },
        None => {},
    }
    if !h.protocol.as_str().is_empty() {
        push_field(fields, "protocol", Value::String(h.protocol.clone()));
        proof {
            model = model.push(("protocol"@, Val::Str(h.protocol@)));
            assert(dv_fields(fields@) == model);
        }
    }
    match &h.port_opened {
        Some(p) => {
            push_field(fields, "port_opened", Value::Bool(*p));
            proof {
                model = model.push(("port_opened"@, Val::Bool(h.port_opened->0)));
                assert(dv_fields(fields@) == model);
            }
        },
        None => {},
    }
    if h.rev != 0 {
        push_field(fields, "rev", Value::Number(h.rev as u64));
        proof {
            model = model.push(("rev"@, Val::Int(h.rev as u64)));
            assert(dv_fields(fields@) == model);
        }
    }
    match &h.target_address {
        Some(a) => {
            push_field(fields, "target_ip", Value::String(a.clone()));
            proof {
                model = model.push(("target_ip"@, Val::Str(a@)));
                assert(dv_fields(fields@) == model);
            }
        },
        None => {},
    }
    if !h.version.as_str().is_empty() {
        push_field(fields, "version", Value::String(h.version.clone()));
        proof {
            model = model.push(("version"@, Val::Str(h.version@)));
            assert(dv_fields(fields@) == model);
        }
    }
    proof {
        assert(dv_fields(fields@) == model);
        assert(model == h.reach_fields(dv_fields(old(fields)@)));
    }
}

/// The rename is part of the contract: the observed external address
/// travels under the wire name `target_ip` exactly when it is set, and the
/// in-memory field name `target_address` never appears on the wire.
pub proof fn lemma_handshake_wire_rename(h: Handshake)
    ensures
        obj_get(h.wire_fields(), "target_ip"@) == (match h.target_address {
            Some(a) => Some(Val::Str(a@)),
            None => None::<Val>,
        }),
        obj_get(h.wire_fields(), "target_address"@) is None,
{
    reveal_strlit("peer_id");
    reveal_strlit("fileserver_port");
    reveal_strlit("time");
    reveal_strlit("crypt");
    reveal_strlit("crypt_supported");
    reveal_strlit("use_bin_type");
    reveal_strlit("onion");
    reveal_strlit("protocol");
    reveal_strlit("port_opened");
    reveal_strlit("rev");
    reveal_strlit("target_ip");
    reveal_strlit("version");
    reveal_strlit("target_address");
    assert("peer_id"@.len() == 7 && "fileserver_port"@.len() == 15 && "time"@.len() == 4
        && "crypt"@.len() == 5 && "crypt_supported"@.len() == 15 && "use_bin_type"@.len() == 12
        && "onion"@.len() == 5 && "protocol"@.len() == 8 && "port_opened"@.len() == 11
        && "rev"@.len() == 3 && "target_ip"@.len() == 9 && "version"@.len() == 7
        && "target_address"@.len() == 14);
    let f3 = seq![
        ("peer_id"@, Val::Str(h.peer_id@)),
        ("fileserver_port"@, Val::Int(h.fileserver_port as u64)),
        ("time"@, Val::Int(h.time)),
    ];
    let f4 = if h.crypt is Some {
        f3.push(("crypt"@, Val::Str(h.crypt->0@)))
    } else {
        f3
    };
    let f5 = if h.crypt_supported@.len() != 0 {
        f4.push(("crypt_supported"@, Val::Arr(strs(h.crypt_supported@))))
    } else {
        f4
    };
    let f6 = if h.use_bin_type {
        f5.push(("use_bin_type"@, Val::Bool(true)))
    } else {
        f5
    };
    let f7 = if h.onion is Some {
        f6.push(("onion"@, Val::Str(h.onion->0@)))
    } else {
        f6
    };
    let f8 = if h.protocol@.len() != 0 {
        f7.push(("protocol"@, Val::Str(h.protocol@)))
    } else {
        f7
    };
    let f9 = if h.port_opened is Some {
        f8.push(("port_opened"@, Val::Bool(h.port_opened->0)))
    } else {
        f8
    };
    let f10 = if h.rev != 0 {
        f9.push(("rev"@, Val::Int(h.rev as u64)))
    } else {
        f9
    };
    let f11 = if h.target_address is Some {
        f10.push(("target_ip"@, Val::Str(h.target_address->0@)))
    } else {
        f10
    };
    let f12 = if h.version@.len() != 0 {
        f11.push(("version"@, Val::Str(h.version@)))
    } else {
        f11
    };
    assert(h.wire_fields() == f12);
    assert forall|key: Seq<char>|
        key == "target_ip"@ || key == "target_address"@ implies obj_get(f3, key) is None by {
        lemma_obj_get_triple(
            "peer_id"@,
            Val::Str(h.peer_id@),
            "fileserver_port"@,
            Val::Int(h.fileserver_port as u64),
            "time"@,
            Val::Int(h.time),
            key,
        );
    }
    assert forall|key: Seq<char>|
        key == "target_ip"@ || key == "target_address"@ implies obj_get(f10, key) is None by {
        if h.crypt is Some {
            lemma_obj_get_push(f3, "crypt"@, Val::Str(h.crypt->0@), key);
        }
        if h.crypt_supported@.len() != 0 {
            lemma_obj_get_push(f4, "crypt_supported"@, Val::Arr(strs(h.crypt_supported@)), key);
        }
        if h.use_bin_type {
            lemma_obj_get_push(f5, "use_bin_type"@, Val::Bool(true), key);
        }
        if h.onion is Some {
            lemma_obj_get_push(f6, "onion"@, Val::Str(h.onion->0@), key);
        }
        if h.protocol@.len() != 0 {
            lemma_obj_get_push(f7, "protocol"@, Val::Str(h.protocol@), key);
        }
        if h.port_opened is Some {
            lemma_obj_get_push(f8, "port_opened"@, Val::Bool(h.port_opened->0), key);
        }
        if h.rev != 0 {
            lemma_obj_get_push(f9, "rev"@, Val::Int(h.rev as u64), key);
        }
    }
    if h.target_address is Some {
        lemma_obj_get_push(f10, "target_ip"@, Val::Str(h.target_address->0@), "target_ip"@);
        lemma_obj_get_push(f10, "target_ip"@, Val::Str(h.target_address->0@), "target_address"@);
    }
    if h.version@.len() != 0 {
        lemma_obj_get_push(f11, "version"@, Val::Str(h.version@), "target_ip"@);
        lemma_obj_get_push(f11, "version"@, Val::Str(h.version@), "target_address"@);
    }
}

impl GetFile {
    /// The wire object of this request: `site`, `inner_path` and `location`
    /// always present, `read_bytes` only when set, `file_size` only when
    /// nonzero.
    pub open spec fn wire_fields(self) -> Seq<(Seq<char>, Val)> {
        seq![("site"@, Val::Str(self.site@))] + (seq![("inner_path"@, Val::Str(self.inner_path@))]
            + (seq![("location"@, Val::Int(self.location as u64))] + ((match self.read_bytes {
            Some(rb) => seq![("read_bytes"@, Val::Int(rb as u64))],
            None => Seq::<(Seq<char>, Val)>::empty(),
        }) + (if self.file_size != 0 {
            seq![("file_size"@, Val::Int(self.file_size as u64))]
        } else {
            Seq::<(Seq<char>, Val)>::empty()
        }))))
    }

    /// The wire form of this request.
    pub open spec fn wire(self) -> Val {
        Val::Obj(self.wire_fields())
    }

    /// Turn this request into its wire value.
    pub fn to_value(&self) -> (r: Value)
        ensures
            r.dv() == self.wire(),
    {
        let mut fields: Vec<(String, Value)> = Vec::new();
        fields.push(("site".to_owned(), Value::String(self.site.clone())));
        fields.push(("inner_path".to_owned(), Value::String(self.inner_path.clone())));
        fields.push(("location".to_owned(), Value::Number(self.location as u64)));
        match &self.read_bytes {
            Some(rb) => {
                fields.push(("read_bytes".to_owned(), Value::Number(*rb as u64)));
            },
            None => {},
        }
        if self.file_size != 0 {
            fields.push(("file_size".to_owned(), Value::Number(self.file_size as u64)));
        }
        proof {
            lemma_dv_fields_len(fields@);
            assert(dv_fields(fields@) =~= self.wire_fields());
        }
        Value::Object(fields)
    }

    /// Read this request back from a wire value. Absent defaulted fields
    /// read as their defaults; every value produced by [`GetFile::to_value`]
    /// reads back equal to the request it came from.
    pub fn from_value(v: &Value) -> (r: Result<GetFile, Error>)
        ensures
            forall|g: GetFile|
                v.dv() == #[trigger] g.wire() ==> (r matches Ok(d) && d.site@ == g.site@
                    && d.inner_path@ == g.inner_path@ && d.location == g.location
                    && d.read_bytes == g.read_bytes && d.file_size == g.file_size),
            r matches Ok(_) ==> v.dv() matches Val::Obj(_),
    {
        let fields = match v {
            Value::Object(fs) => fs,
            _ => {
                return Err(Error::WrongShape);
            },
        };
        proof {
            assert forall|g: GetFile| v.dv() == #[trigger] g.wire() implies dv_fields(fields@)
                == g.wire_fields() by {
            }
            assert forall|g: GetFile| true implies {
                &&& str_field(#[trigger] g.wire_fields(), "site"@, Seq::empty()) == Some(g.site@)
                &&& str_field(g.wire_fields(), "inner_path"@, Seq::empty()) == Some(
                    g.inner_path@,
                )
                &&& int_field(g.wire_fields(), "location"@, 0) == Some(g.location as u64)
                &&& opt_int_field(g.wire_fields(), "read_bytes"@) == Some(
                    match g.read_bytes {
                        Some(rb) => Some(rb as u64),
                        None => None::<u64>,
                    },
                )
                &&& int_field(g.wire_fields(), "file_size"@, 0) == Some(g.file_size as u64)
            } by {
                lemma_get_file_wire_lookups(g);
            }
        }
        let site = match get_str_field(fields, "site") {
            Ok(s) => s,
            Err(e) => {
                return Err(e);
            },
        };
        let inner_path = match get_str_field(fields, "inner_path") {
            Ok(s) => s,
            Err(e) => {
                return Err(e);
            },
        };
        let location = match get_usize_field(fields, "location", 0) {
            Ok(x) => x,
            Err(e) => {
                return Err(e);
            },
        };
        let read_bytes = match get_opt_usize_field(fields, "read_bytes") {
            Ok(x) => x,
            Err(e) => {
                return Err(e);
            },
        };
        let file_size = match get_usize_field(fields, "file_size", 0) {
            Ok(x) => x,
            Err(e) => {
                return Err(e);
            },
        };
        Ok(GetFile { site, inner_path, location, read_bytes, file_size })
    }
}

proof fn lemma_get_file_wire_lookups(g: GetFile)
    ensures
        str_field(g.wire_fields(), "site"@, Seq::empty()) == Some(g.site@),
        str_field(g.wire_fields(), "inner_path"@, Seq::empty()) == Some(g.inner_path@),
        int_field(g.wire_fields(), "location"@, 0) == Some(g.location as u64),
        opt_int_field(g.wire_fields(), "read_bytes"@) == Some(
            match g.read_bytes {
                Some(rb) => Some(rb as u64),
                None => None::<u64>,
            },
        ),
        int_field(g.wire_fields(), "file_size"@, 0) == Some(g.file_size as u64),
{
    reveal_strlit("site");
    reveal_strlit("inner_path");
    reveal_strlit("location");
    reveal_strlit("read_bytes");
    reveal_strlit("file_size");
    let t_rb = match g.read_bytes {
        Some(rb) => seq![("read_bytes"@, Val::Int(rb as u64))],
        None => Seq::<(Seq<char>, Val)>::empty(),
    };
    let t_fs = if g.file_size != 0 {
        seq![("file_size"@, Val::Int(g.file_size as u64))]
    } else {
        Seq::<(Seq<char>, Val)>::empty()
    };
    let keys = seq!["site"@, "inner_path"@, "location"@, "read_bytes"@, "file_size"@];
    assert forall|a: int, b: int|
        0 <= a < 5 && 0 <= b < 5 && a != b implies keys[a] != keys[b] by {
        assert("site"@.len() == 4 && "inner_path"@.len() == 10 && "location"@.len() == 8
            && "read_bytes"@.len() == 10 && "file_size"@.len() == 9);
        assert("inner_path"@[0] == 'i' && "read_bytes"@[0] == 'r');
    }
    assert forall|key: int| 0 <= key < 5 implies obj_get(g.wire_fields(), keys[key]) == (if key
        == 0 {
        Some(Val::Str(g.site@))
    } else if key == 1 {
        Some(Val::Str(g.inner_path@))
    } else if key == 2 {
        Some(Val::Int(g.location as u64))
    } else {
        obj_get(t_rb + t_fs, keys[key])
    }) by {
        lemma_obj_get_cons(
            "site"@,
            Val::Str(g.site@),
            seq![("inner_path"@, Val::Str(g.inner_path@))] + (seq![
                ("location"@, Val::Int(g.location as u64)),
            ] + (t_rb + t_fs)),
            keys[key],
        );
        lemma_obj_get_cons(
            "inner_path"@,
            Val::Str(g.inner_path@),
            seq![("location"@, Val::Int(g.location as u64))] + (t_rb + t_fs),
            keys[key],
        );
        lemma_obj_get_cons("location"@, Val::Int(g.location as u64), t_rb + t_fs, keys[key]);
    }
    assert forall|key: int| 0 <= key < 5 implies obj_get(t_rb + t_fs, keys[key]) == (if key == 3
        && g.read_bytes is Some {
        Some(Val::Int(g.read_bytes->0 as u64))
    } else {
        obj_get(t_fs, keys[key])
    }) by {
        match g.read_bytes {
            Some(rb) => {
                lemma_obj_get_cons("read_bytes"@, Val::Int(rb as u64), t_fs, keys[key]);
            },
            None => {
                assert(t_rb + t_fs =~= t_fs);
            },
        }
    }
    assert forall|key: int| 0 <= key < 5 implies obj_get(t_fs, keys[key]) == (if key == 4
        && g.file_size != 0 {
        Some(Val::Int(g.file_size as u64))
    } else {
        None::<Val>
    }) by {
        if g.file_size != 0 {
            lemma_obj_get_cons(
                "file_size"@,
                Val::Int(g.file_size as u64),
                Seq::<(Seq<char>, Val)>::empty(),
                keys[key],
            );
            assert(seq![("file_size"@, Val::Int(g.file_size as u64))] + Seq::<(
                Seq<char>,
                Val,
            )>::empty() =~= seq![("file_size"@, Val::Int(g.file_size as u64))]);
            assert(t_fs =~= seq![("file_size"@, Val::Int(g.file_size as u64))] + Seq::<(
                Seq<char>,
                Val,
            )>::empty());
        }
    }
    assert(obj_get(g.wire_fields(), keys[0]) == Some(Val::Str(g.site@)));
    assert(obj_get(g.wire_fields(), keys[1]) == Some(Val::Str(g.inner_path@)));
    assert(obj_get(g.wire_fields(), keys[2]) == Some(Val::Int(g.location as u64)));
    assert(obj_get(g.wire_fields(), keys[3]) == (match g.read_bytes {
        Some(rb) => Some(Val::Int(rb as u64)),
        None => None::<Val>,
    }));
    assert(obj_get(g.wire_fields(), keys[4]) == (if g.file_size != 0 {
        Some(Val::Int(g.file_size as u64))
    } else {
        None::<Val>
    }));
}

impl Pex {
    /// The wire object of this request: `site`, `peers` and `need` always
    /// present, the onion and IPv6 peer lists only when set — a set-but-
    /// empty list still travels.
    pub open spec fn wire_fields(self) -> Seq<(Seq<char>, Val)> {
        seq![("site"@, Val::Str(self.site@))] + (seq![
            ("peers"@, Val::Arr(bins(bufs(self.peers@)))),
        ] + ((match self.peers_onion {
            Some(v) => seq![("peers_onion"@, Val::Arr(bins(bufs(v@))))],
            None => Seq::<(Seq<char>, Val)>::empty(),
        }) + ((match self.peers_ipv6 {
            Some(v) => seq![("peers_ipv6"@, Val::Arr(bins(bufs(v@))))],
            None => Seq::<(Seq<char>, Val)>::empty(),
        }) + seq![("need"@, Val::Int(self.need as u64))])))
    }

    /// The wire form of this request.
    pub open spec fn wire(self) -> Val {
        Val::Obj(self.wire_fields())
    }

    /// Turn this request into its wire value.
    pub fn to_value(&self) -> (r: Value)
        ensures
            r.dv() == self.wire(),
    {
        let mut fields: Vec<(String, Value)> = Vec::new();
        fields.push(("site".to_owned(), Value::String(self.site.clone())));
        fields.push(("peers".to_owned(), bins_value(&self.peers)));
        match &self.peers_onion {
            Some(v) => {
                fields.push(("peers_onion".to_owned(), bins_value(v)));
            },
            None => {},
        }
        match &self.peers_ipv6 {
            Some(v) => {
                fields.push(("peers_ipv6".to_owned(), bins_value(v)));
            },
            None => {},
        }
        fields.push(("need".to_owned(), Value::Number(self.need as u64)));
        proof {
            lemma_dv_fields_len(fields@);
            assert(dv_fields(fields@) =~= self.wire_fields());
        }
        Value::Object(fields)
    }

    /// Read this request back from a wire value; every value produced by
    /// [`Pex::to_value`] reads back equal to the request it came from.
    pub fn from_value(v: &Value) -> (r: Result<Pex, Error>)
        ensures
            forall|g: Pex|
                v.dv() == #[trigger] g.wire() ==> (r matches Ok(d) && d.site@ == g.site@ && bufs(
                    d.peers@,
                ) == bufs(g.peers@) && (match (d.peers_onion, g.peers_onion) {
                    (Some(dl), Some(gl)) => bufs(dl@) == bufs(gl@),
                    (None, None) => true,
                    _ => false,
                }) && (match (d.peers_ipv6, g.peers_ipv6) {
                    (Some(dl), Some(gl)) => bufs(dl@) == bufs(gl@),
                    (None, None) => true,
                    _ => false,
                }) && d.need == g.need),
            r matches Ok(_) ==> v.dv() matches Val::Obj(_),
    {
        let fields = match v {
            Value::Object(fs) => fs,
            _ => {
                return Err(Error::WrongShape);
            },
        };
        proof {
            assert forall|g: Pex| true implies {
                &&& str_field(#[trigger] g.wire_fields(), "site"@, Seq::empty()) == Some(g.site@)
                &&& bin_list_field(g.wire_fields(), "peers"@) == Some(bufs(g.peers@))
                &&& opt_bin_list_field(g.wire_fields(), "peers_onion"@) == Some(
                    match g.peers_onion {
                        Some(l) => Some(bufs(l@)),
                        None => None::<Seq<Seq<u8>>>,
                    },
                )
                &&& opt_bin_list_field(g.wire_fields(), "peers_ipv6"@) == Some(
                    match g.peers_ipv6 {
                        Some(l) => Some(bufs(l@)),
                        None => None::<Seq<Seq<u8>>>,
                    },
                )
                &&& int_field(g.wire_fields(), "need"@, 0) == Some(g.need as u64)
            } by {
                lemma_pex_wire_lookups(g);
            }
        }
        let site = match get_str_field(fields, "site") {
            Ok(s) => s,
            Err(e) => {
                return Err(e);
            },
        };
        let peers = match get_bin_list_field(fields, "peers") {
            Ok(l) => l,
            Err(e) => {
                return Err(e);
            },
        };
        let peers_onion = match get_opt_bin_list_field(fields, "peers_onion") {
            Ok(l) => l,
            Err(e) => {
                return Err(e);
            },
        };
        let peers_ipv6 = match get_opt_bin_list_field(fields, "peers_ipv6") {
            Ok(l) => l,
            Err(e) => {
                return Err(e);
            },
        };
        let need = match get_usize_field(fields, "need", 0) {
            Ok(x) => x,
            Err(e) => {
                return Err(e);
            },
        };
        Ok(Pex { site, peers, peers_onion, peers_ipv6, need })
    }
}

proof fn lemma_pex_wire_lookups(g: Pex)
    ensures
        str_field(g.wire_fields(), "site"@, Seq::empty()) == Some(g.site@),
        bin_list_field(g.wire_fields(), "peers"@) == Some(bufs(g.peers@)),
        opt_bin_list_field(g.wire_fields(), "peers_onion"@) == Some(
            match g.peers_onion {
                Some(l) => Some(bufs(l@)),
                None => None::<Seq<Seq<u8>>>,
            },
        ),
        opt_bin_list_field(g.wire_fields(), "peers_ipv6"@) == Some(
            match g.peers_ipv6 {
                Some(l) => Some(bufs(l@)),
                None => None::<Seq<Seq<u8>>>,
            },
        ),
        int_field(g.wire_fields(), "need"@, 0) == Some(g.need as u64),
{
    reveal_strlit("site");
    reveal_strlit("peers");
    reveal_strlit("peers_onion");
    reveal_strlit("peers_ipv6");
    reveal_strlit("need");
    let t_on = match g.peers_onion {
        Some(v) => seq![("peers_onion"@, Val::Arr(bins(bufs(v@))))],
        None => Seq::<(Seq<char>, Val)>::empty(),
    };
    let t_v6 = match g.peers_ipv6 {
        Some(v) => seq![("peers_ipv6"@, Val::Arr(bins(bufs(v@))))],
        None => Seq::<(Seq<char>, Val)>::empty(),
    };
    let t_need = seq![("need"@, Val::Int(g.need as u64))];
    let keys = seq!["site"@, "peers"@, "peers_onion"@, "peers_ipv6"@, "need"@];
    assert forall|a: int, b: int|
        0 <= a < 5 && 0 <= b < 5 && a != b implies keys[a] != keys[b] by {
        assert("site"@.len() == 4 && "peers"@.len() == 5 && "peers_onion"@.len() == 11
            && "peers_ipv6"@.len() == 10 && "need"@.len() == 4);
        assert("site"@[0] == 's' && "need"@[0] == 'n');
    }
    assert forall|key: int| 0 <= key < 5 implies obj_get(g.wire_fields(), keys[key]) == (if key
        == 0 {
        Some(Val::Str(g.site@))
    } else if key == 1 {
        Some(Val::Arr(bins(bufs(g.peers@))))
    } else {
        obj_get(t_on + (t_v6 + t_need), keys[key])
    }) by {
        lemma_obj_get_cons(
            "site"@,
            Val::Str(g.site@),
            seq![("peers"@, Val::Arr(bins(bufs(g.peers@))))] + (t_on + (t_v6 + t_need)),
            keys[key],
        );
        lemma_obj_get_cons(
            "peers"@,
            Val::Arr(bins(bufs(g.peers@))),
            t_on + (t_v6 + t_need),
            keys[key],
        );
    }
    assert forall|key: int| 0 <= key < 5 implies obj_get(t_on + (t_v6 + t_need), keys[key]) == (
    if key == 2 && g.peers_onion is Some {
        Some(Val::Arr(bins(bufs(g.peers_onion->0@))))
    } else {
        obj_get(t_v6 + t_need, keys[key])
    }) by {
        match g.peers_onion {
            Some(v) => {
                lemma_obj_get_cons(
                    "peers_onion"@,
                    Val::Arr(bins(bufs(v@))),
                    t_v6 + t_need,
                    keys[key],
                );
            },
            None => {
                assert(t_on + (t_v6 + t_need) =~= t_v6 + t_need);
            },
        }
    }
    assert forall|key: int| 0 <= key < 5 implies obj_get(t_v6 + t_need, keys[key]) == (if key == 3
        && g.peers_ipv6 is Some {
        Some(Val::Arr(bins(bufs(g.peers_ipv6->0@))))
    } else {
        obj_get(t_need, keys[key])
    }) by {
        match g.peers_ipv6 {
            Some(v) => {
                lemma_obj_get_cons("peers_ipv6"@, Val::Arr(bins(bufs(v@))), t_need, keys[key]);
            },
            None => {
                assert(t_v6 + t_need =~= t_need);
            },
        }
    }
    assert forall|key: int| 0 <= key < 5 implies obj_get(t_need, keys[key]) == (if key == 4 {
        Some(Val::Int(g.need as u64))
    } else {
        None::<Val>
    }) by {
        lemma_obj_get_cons(
            "need"@,
            Val::Int(g.need as u64),
            Seq::<(Seq<char>, Val)>::empty(),
            keys[key],
        );
        assert(t_need =~= seq![("need"@, Val::Int(g.need as u64))] + Seq::<(
            Seq<char>,
            Val,
        )>::empty());
    }
    assert(obj_get(g.wire_fields(), keys[0]) == Some(Val::Str(g.site@)));
    assert(obj_get(g.wire_fields(), keys[1]) == Some(Val::Arr(bins(bufs(g.peers@)))));
    lemma_bins_all_bin(bufs(g.peers@));
    assert(obj_get(g.wire_fields(), keys[2]) == (match g.peers_onion {
        Some(v) => Some(Val::Arr(bins(bufs(v@)))),
        None => None::<Val>,
    }));
    assert(obj_get(g.wire_fields(), keys[3]) == (match g.peers_ipv6 {
        Some(v) => Some(Val::Arr(bins(bufs(v@)))),
        None => None::<Val>,
    }));
    match g.peers_onion {
        Some(v) => {
            lemma_bins_all_bin(bufs(v@));
        },
        None => {},
    }
    match g.peers_ipv6 {
        Some(v) => {
            lemma_bins_all_bin(bufs(v@));
        },
        None => {},
    }
    assert(obj_get(g.wire_fields(), keys[4]) == Some(Val::Int(g.need as u64)));
}

impl GetFileResponse {
    /// The wire object of a successful file fetch: all three fields always
    /// present, and no `error` field — that is what tells it apart from the
    /// error-variant response.
    pub open spec fn wire_fields(self) -> Seq<(Seq<char>, Val)> {
        seq![("body"@, Val::Bin(self.body@))] + (seq![
            ("location"@, Val::Int(self.location as u64)),
        ] + seq![("size"@, Val::Int(self.size as u64))])
    }

    /// The wire form of this response.
    pub open spec fn wire(self) -> Val {
        Val::Obj(self.wire_fields())
    }

    /// Turn this response into its wire value.
    pub fn to_value(&self) -> (r: Value)
        ensures
            r.dv() == self.wire(),
    {
        let mut fields: Vec<(String, Value)> = Vec::new();
        fields.push(("body".to_owned(), Value::Bytes(vstd::slice::slice_to_vec(
            self.body.as_slice(),
        ))));
        fields.push(("location".to_owned(), Value::Number(self.location as u64)));
        fields.push(("size".to_owned(), Value::Number(self.size as u64)));
        proof {
            lemma_dv_fields_len(fields@);
            assert(dv_fields(fields@) =~= self.wire_fields());
        }
        Value::Object(fields)
    }

    /// Read this response back from a wire value; every value produced by
    /// [`GetFileResponse::to_value`] reads back equal to the response it
    /// came from.
    pub fn from_value(v: &Value) -> (r: Result<GetFileResponse, Error>)
        ensures
            forall|g: GetFileResponse|
                v.dv() == #[trigger] g.wire() ==> (r matches Ok(d) && d.body@ == g.body@
                    && d.location == g.location && d.size == g.size),
            r matches Ok(_) ==> v.dv() matches Val::Obj(_),
    {
        let fields = match v {
            Value::Object(fs) => fs,
            _ => {
                return Err(Error::WrongShape);
            },
        };
        proof {
            assert forall|g: GetFileResponse| true implies {
                &&& bin_field(#[trigger] g.wire_fields(), "body"@) == Some(g.body@)
                &&& int_field(g.wire_fields(), "location"@, 0) == Some(g.location as u64)
                &&& int_field(g.wire_fields(), "size"@, 0) == Some(g.size as u64)
            } by {
                lemma_get_file_response_wire_lookups(g);
            }
        }
        let body = match get_bin_field(fields, "body") {
            Ok(b) => b,
            Err(e) => {
                return Err(e);
            },
        };
        let location = match get_usize_field(fields, "location", 0) {
            Ok(x) => x,
            Err(e) => {
                return Err(e);
            },
        };
        let size = match get_usize_field(fields, "size", 0) {
            Ok(x) => x,
            Err(e) => {
                return Err(e);
            },
        };
        Ok(GetFileResponse { body, location, size })
    }
}

proof fn lemma_get_file_response_wire_lookups(g: GetFileResponse)
    ensures
        bin_field(g.wire_fields(), "body"@) == Some(g.body@),
        int_field(g.wire_fields(), "location"@, 0) == Some(g.location as u64),
        int_field(g.wire_fields(), "size"@, 0) == Some(g.size as u64),
        obj_get(g.wire_fields(), "error"@) is None,
{
    reveal_strlit("body");
    reveal_strlit("location");
    reveal_strlit("size");
    reveal_strlit("error");
    let t_loc = seq![("location"@, Val::Int(g.location as u64))];
    let t_size = seq![("size"@, Val::Int(g.size as u64))];
    let keys = seq!["body"@, "location"@, "size"@, "error"@];
    assert forall|a: int, b: int|
        0 <= a < 4 && 0 <= b < 4 && a != b implies keys[a] != keys[b] by {
        assert("body"@.len() == 4 && "location"@.len() == 8 && "size"@.len() == 4
            && "error"@.len() == 5);
        assert("body"@[0] == 'b' && "size"@[0] == 's');
    }
    assert forall|key: int| 0 <= key < 4 implies obj_get(g.wire_fields(), keys[key]) == (if key
        == 0 {
        Some(Val::Bin(g.body@))
    } else if key == 1 {
        Some(Val::Int(g.location as u64))
    } else if key == 2 {
        Some(Val::Int(g.size as u64))
    } else {
        None::<Val>
    }) by {
        lemma_obj_get_cons("body"@, Val::Bin(g.body@), t_loc + t_size, keys[key]);
        lemma_obj_get_cons("location"@, Val::Int(g.location as u64), t_size, keys[key]);
        lemma_obj_get_cons(
            "size"@,
            Val::Int(g.size as u64),
            Seq::<(Seq<char>, Val)>::empty(),
            keys[key],
        );
        assert(t_size =~= seq![("size"@, Val::Int(g.size as u64))] + Seq::<(
            Seq<char>,
            Val,
        )>::empty());
    }
    assert(obj_get(g.wire_fields(), keys[0]) == Some(Val::Bin(g.body@)));
    assert(obj_get(g.wire_fields(), keys[1]) == Some(Val::Int(g.location as u64)));
    assert(obj_get(g.wire_fields(), keys[2]) == Some(Val::Int(g.size as u64)));
    assert(obj_get(g.wire_fields(), keys[3]) is None);
}

impl ErrorResponse {
    /// The wire object of the error-variant response: the one `error` field.
    pub open spec fn wire_fields(self) -> Seq<(Seq<char>, Val)> {
        seq![("error"@, Val::Str(self.error@))]
    }

    /// The wire form of this response.
    pub open spec fn wire(self) -> Val {
        Val::Obj(self.wire_fields())
    }

    /// Turn this response into its wire value.
    pub fn to_value(&self) -> (r: Value)
        ensures
            r.dv() == self.wire(),
    {
        let mut fields: Vec<(String, Value)> = Vec::new();
        fields.push(("error".to_owned(), Value::String(self.error.clone())));
        proof {
            lemma_dv_fields_len(fields@);
            assert(dv_fields(fields@) =~= self.wire_fields());
        }
        Value::Object(fields)
    }
}

proof fn lemma_error_response_wire_lookups(g: ErrorResponse)
    ensures
        obj_get(g.wire_fields(), "error"@) == Some(Val::Str(g.error@)),
{
    lemma_obj_get_cons(
        "error"@,
        Val::Str(g.error@),
        Seq::<(Seq<char>, Val)>::empty(),
        "error"@,
    );
    assert(g.wire_fields() =~= seq![("error"@, Val::Str(g.error@))] + Seq::<(
        Seq<char>,
        Val,
    )>::empty());
}

/// Decode the response of a file fetch: a well-formed peer may answer with
/// the success shape or with the error shape, and both are valid outcomes —
/// the error shape is returned as the right-hand branch, not as a decode
/// failure.
pub fn file_result_from_value(v: &Value) -> (r: Result<
    Either<GetFileResponse, ErrorResponse>,
    Error,
>)
    ensures
        forall|g: GetFileResponse|
            v.dv() == #[trigger] g.wire() ==> (r matches Ok(Either::Left(d)) && d.body@ == g.body@
                && d.location == g.location && d.size == g.size),
        forall|e: ErrorResponse|
            v.dv() == #[trigger] e.wire() ==> (r matches Ok(Either::Right(d)) && d.error@
                == e.error@),
{
    let fields = match v {
        Value::Object(fs) => fs,
        _ => {
            return Err(Error::WrongShape);
        },
    };
    proof {
        assert forall|g: GetFileResponse| true implies obj_get(
            #[trigger] g.wire_fields(),
            "error"@,
        ) is None by {
            lemma_get_file_response_wire_lookups(g);
        }
        assert forall|e: ErrorResponse| true implies obj_get(#[trigger] e.wire_fields(), "error"@)
            == Some(Val::Str(e.error@)) by {
            lemma_error_response_wire_lookups(e);
        }
    }
    match lookup(fields, "error") {
        Some(w) => match w {
            Value::String(s) => Ok(Either::Right(ErrorResponse { error: s.clone() })),
            _ => Err(Error::WrongShape),
        },
        None => match GetFileResponse::from_value(v) {
            Ok(d) => Ok(Either::Left(d)),
            Err(e) => Err(e),
        },
    }
}

impl PexResponse {
    /// The wire object of a peer-exchange response: the three peer lists,
    /// always present.
    pub open spec fn wire_fields(self) -> Seq<(Seq<char>, Val)> {
        seq![("peers"@, Val::Arr(bins(bufs(self.peers@))))] + (seq![
            ("peers_ipv6"@, Val::Arr(bins(bufs(self.peers_ipv6@)))),
        ] + seq![("peers_onion"@, Val::Arr(bins(bufs(self.peers_onion@))))])
    }

    /// The wire form of this response.
    pub open spec fn wire(self) -> Val {
        Val::Obj(self.wire_fields())
    }

    /// Turn this response into its wire value.
    pub fn to_value(&self) -> (r: Value)
        ensures
            r.dv() == self.wire(),
    {
        let mut fields: Vec<(String, Value)> = Vec::new();
        fields.push(("peers".to_owned(), bins_value(&self.peers)));
        fields.push(("peers_ipv6".to_owned(), bins_value(&self.peers_ipv6)));
        fields.push(("peers_onion".to_owned(), bins_value(&self.peers_onion)));
        proof {
            lemma_dv_fields_len(fields@);
            assert(dv_fields(fields@) =~= self.wire_fields());
        }
        Value::Object(fields)
    }

    /// Read this response back from a wire value; every value produced by
    /// [`PexResponse::to_value`] reads back equal to the response it came
    /// from, and a response of three absent lists reads as three empty
    /// lists.
    pub fn from_value(v: &Value) -> (r: Result<PexResponse, Error>)
        ensures
            forall|g: PexResponse|
                v.dv() == #[trigger] g.wire() ==> (r matches Ok(d) && bufs(d.peers@) == bufs(
                    g.peers@,
                ) && bufs(d.peers_ipv6@) == bufs(g.peers_ipv6@) && bufs(d.peers_onion@) == bufs(
                    g.peers_onion@,
                )),
            r matches Ok(_) ==> v.dv() matches Val::Obj(_),
    {
        let fields = match v {
            Value::Object(fs) => fs,
            _ => {
                return Err(Error::WrongShape);
            },
        };
        proof {
            assert forall|g: PexResponse| true implies {
                &&& bin_list_field(#[trigger] g.wire_fields(), "peers"@) == Some(bufs(g.peers@))
                &&& bin_list_field(g.wire_fields(), "peers_ipv6"@) == Some(bufs(g.peers_ipv6@))
                &&& bin_list_field(g.wire_fields(), "peers_onion"@) == Some(bufs(g.peers_onion@))
            } by {
                lemma_pex_response_wire_lookups(g);
            }
        }
        let peers = match get_bin_list_field(fields, "peers") {
            Ok(l) => l,
            Err(e) => {
                return Err(e);
            },
        };
        let peers_ipv6 = match get_bin_list_field(fields, "peers_ipv6") {
            Ok(l) => l,
            Err(e) => {
                return Err(e);
            },
        };
        let peers_onion = match get_bin_list_field(fields, "peers_onion") {
            Ok(l) => l,
            Err(e) => {
                return Err(e);
            },
        };
        Ok(PexResponse { peers, peers_ipv6, peers_onion })
    }
}

proof fn lemma_pex_response_wire_lookups(g: PexResponse)
    ensures
        bin_list_field(g.wire_fields(), "peers"@) == Some(bufs(g.peers@)),
        bin_list_field(g.wire_fields(), "peers_ipv6"@) == Some(bufs(g.peers_ipv6@)),
        bin_list_field(g.wire_fields(), "peers_onion"@) == Some(bufs(g.peers_onion@)),
{
    reveal_strlit("peers");
    reveal_strlit("peers_ipv6");
    reveal_strlit("peers_onion");
    let t_v6 = seq![("peers_ipv6"@, Val::Arr(bins(bufs(g.peers_ipv6@))))];
    let t_on = seq![("peers_onion"@, Val::Arr(bins(bufs(g.peers_onion@))))];
    let keys = seq!["peers"@, "peers_ipv6"@, "peers_onion"@];
    assert forall|a: int, b: int|
        0 <= a < 3 && 0 <= b < 3 && a != b implies keys[a] != keys[b] by {
        assert("peers"@.len() == 5 && "peers_ipv6"@.len() == 10 && "peers_onion"@.len() == 11);
    }
    assert forall|key: int| 0 <= key < 3 implies obj_get(g.wire_fields(), keys[key]) == (if key
        == 0 {
        Some(Val::Arr(bins(bufs(g.peers@))))
    } else if key == 1 {
        Some(Val::Arr(bins(bufs(g.peers_ipv6@))))
    } else {
        Some(Val::Arr(bins(bufs(g.peers_onion@))))
    }) by {
        lemma_obj_get_cons("peers"@, Val::Arr(bins(bufs(g.peers@))), t_v6 + t_on, keys[key]);
        lemma_obj_get_cons("peers_ipv6"@, Val::Arr(bins(bufs(g.peers_ipv6@))), t_on, keys[key]);
        lemma_obj_get_cons(
            "peers_onion"@,
            Val::Arr(bins(bufs(g.peers_onion@))),
            Seq::<(Seq<char>, Val)>::empty(),
            keys[key],
        );
        assert(t_on =~= seq![("peers_onion"@, Val::Arr(bins(bufs(g.peers_onion@))))] + Seq::<(
            Seq<char>,
            Val,
        )>::empty());
    }
    lemma_bins_all_bin(bufs(g.peers@));
    lemma_bins_all_bin(bufs(g.peers_ipv6@));
    lemma_bins_all_bin(bufs(g.peers_onion@));
    assert(obj_get(g.wire_fields(), keys[0]) == Some(Val::Arr(bins(bufs(g.peers@)))));
    assert(obj_get(g.wire_fields(), keys[1]) == Some(Val::Arr(bins(bufs(g.peers_ipv6@)))));
    assert(obj_get(g.wire_fields(), keys[2]) == Some(Val::Arr(bins(bufs(g.peers_onion@)))));
}

impl ErrorResponse {
    /// Read the error-variant response back from a wire value; every value
    /// produced by [`ErrorResponse::to_value`] reads back equal.
    pub fn from_value(v: &Value) -> (r: Result<ErrorResponse, Error>)
        ensures
            forall|g: ErrorResponse|
                v.dv() == #[trigger] g.wire() ==> (r matches Ok(d) && d.error@ == g.error@),
            r matches Ok(_) ==> v.dv() matches Val::Obj(_),
    {
        let fields = match v {
            Value::Object(fs) => fs,
            _ => {
                return Err(Error::WrongShape);
            },
        };
        proof {
            assert forall|g: ErrorResponse| true implies str_field(
                #[trigger] g.wire_fields(),
                "error"@,
                Seq::empty(),
            ) == Some(g.error@) by {
                lemma_obj_get_single("error"@, Val::Str(g.error@), "error"@);
            }
        }
        let error = match get_str_field(fields, "error") {
            Ok(s) => s,
            Err(e) => {
                return Err(e);
            },
        };
        Ok(ErrorResponse { error })
    }
}

impl OkResponse {
    /// The wire object: the one `ok` field.
    pub open spec fn wire_fields(self) -> Seq<(Seq<char>, Val)> {
        seq![("ok"@, Val::Str(self.ok@))]
    }

    /// The wire form of this response.
    pub open spec fn wire(self) -> Val {
        Val::Obj(self.wire_fields())
    }

    /// Turn this response into its wire value.
    pub fn to_value(&self) -> (r: Value)
        ensures
            r.dv() == self.wire(),
    {
        let mut fields: Vec<(String, Value)> = Vec::new();
        fields.push(("ok".to_owned(), Value::String(self.ok.clone())));
        proof {
            lemma_dv_fields_len(fields@);
            assert(dv_fields(fields@) =~= self.wire_fields());
        }
        Value::Object(fields)
    }

    /// Read this response back from a wire value; every value produced by
    /// [`OkResponse::to_value`] reads back equal.
    pub fn from_value(v: &Value) -> (r: Result<OkResponse, Error>)
        ensures
            forall|g: OkResponse|
                v.dv() == #[trigger] g.wire() ==> (r matches Ok(d) && d.ok@ == g.ok@),
            r matches Ok(_) ==> v.dv() matches Val::Obj(_),
    {
        let fields = match v {
            Value::Object(fs) => fs,
            _ => {
                return Err(Error::WrongShape);
            },
        };
        proof {
            assert forall|g: OkResponse| true implies str_field(
                #[trigger] g.wire_fields(),
                "ok"@,
                Seq::empty(),
            ) == Some(g.ok@) by {
                lemma_obj_get_single("ok"@, Val::Str(g.ok@), "ok"@);
            }
        }
        let ok = match get_str_field(fields, "ok") {
            Ok(s) => s,
            Err(e) => {
                return Err(e);
            },
        };
        Ok(OkResponse { ok })
    }
}

impl UpdateSiteResponse {
    /// The wire object: the one `ok` field.
    pub open spec fn wire_fields(self) -> Seq<(Seq<char>, Val)> {
        seq![("ok"@, Val::Str(self.ok@))]
    }

    /// The wire form of this response.
    pub open spec fn wire(self) -> Val {
        Val::Obj(self.wire_fields())
    }

    /// Turn this response into its wire value.
    pub fn to_value(&self) -> (r: Value)
        ensures
            r.dv() == self.wire(),
    {
        let mut fields: Vec<(String, Value)> = Vec::new();
        fields.push(("ok".to_owned(), Value::String(self.ok.clone())));
        proof {
            lemma_dv_fields_len(fields@);
            assert(dv_fields(fields@) =~= self.wire_fields());
        }
        Value::Object(fields)
    }

    /// Read this response back from a wire value; every value produced by
    /// [`UpdateSiteResponse::to_value`] reads back equal.
    pub fn from_value(v: &Value) -> (r: Result<UpdateSiteResponse, Error>)
        ensures
            forall|g: UpdateSiteResponse|
                v.dv() == #[trigger] g.wire() ==> (r matches Ok(d) && d.ok@ == g.ok@),
            r matches Ok(_) ==> v.dv() matches Val::Obj(_),
    {
        let fields = match v {
            Value::Object(fs) => fs,
            _ => {
                return Err(Error::WrongShape);
            },
        };
        proof {
            assert forall|g: UpdateSiteResponse| true implies str_field(
                #[trigger] g.wire_fields(),
                "ok"@,
                Seq::empty(),
            ) == Some(g.ok@) by {
                lemma_obj_get_single("ok"@, Val::Str(g.ok@), "ok"@);
            }
        }
        let ok = match get_str_field(fields, "ok") {
            Ok(s) => s,
            Err(e) => {
                return Err(e);
            },
        };
        Ok(UpdateSiteResponse { ok })
    }
}

impl SetHashfieldResponse {
    /// The wire object: the one `ok` field.
    pub open spec fn wire_fields(self) -> Seq<(Seq<char>, Val)> {
        seq![("ok"@, Val::Str(self.ok@))]
    }

    /// The wire form of this response.
    pub open spec fn wire(self) -> Val {
        Val::Obj(self.wire_fields())
    }

    /// Turn this response into its wire value.
    pub fn to_value(&self) -> (r: Value)
        ensures
            r.dv() == self.wire(),
    {
        let mut fields: Vec<(String, Value)> = Vec::new();
        fields.push(("ok".to_owned(), Value::String(self.ok.clone())));
        proof {
            lemma_dv_fields_len(fields@);
            assert(dv_fields(fields@) =~= self.wire_fields());
        }
        Value::Object(fields)
    }

    /// Read this response back from a wire value; every value produced by
    /// [`SetHashfieldResponse::to_value`] reads back equal.
    pub fn from_value(v: &Value) -> (r: Result<SetHashfieldResponse, Error>)
        ensures
            forall|g: SetHashfieldResponse|
                v.dv() == #[trigger] g.wire() ==> (r matches Ok(d) && d.ok@ == g.ok@),
            r matches Ok(_) ==> v.dv() matches Val::Obj(_),
    {
        let fields = match v {
            Value::Object(fs) => fs,
            _ => {
                return Err(Error::WrongShape);
            },
        };
        proof {
            assert forall|g: SetHashfieldResponse| true implies str_field(
                #[trigger] g.wire_fields(),
                "ok"@,
                Seq::empty(),
            ) == Some(g.ok@) by {
                lemma_obj_get_single("ok"@, Val::Str(g.ok@), "ok"@);
            }
        }
        let ok = match get_str_field(fields, "ok") {
            Ok(s) => s,
            Err(e) => {
                return Err(e);
            },
        };
        Ok(SetHashfieldResponse { ok })
    }
}

impl PingResponse {
    /// The wire object: the one `body` field.
    pub open spec fn wire_fields(self) -> Seq<(Seq<char>, Val)> {
        seq![("body"@, Val::Str(self.body@))]
    }

    /// The wire form of this response.
    pub open spec fn wire(self) -> Val {
        Val::Obj(self.wire_fields())
    }

    /// Turn this response into its wire value.
    pub fn to_value(&self) -> (r: Value)
        ensures
            r.dv() == self.wire(),
    {
        let mut fields: Vec<(String, Value)> = Vec::new();
        fields.push(("body".to_owned(), Value::String(self.body.clone())));
        proof {
            lemma_dv_fields_len(fields@);
            assert(dv_fields(fields@) =~= self.wire_fields());
        }
        Value::Object(fields)
    }

    /// Read this response back from a wire value; every value produced by
    /// [`PingResponse::to_value`] reads back equal.
    pub fn from_value(v: &Value) -> (r: Result<PingResponse, Error>)
        ensures
            forall|g: PingResponse|
                v.dv() == #[trigger] g.wire() ==> (r matches Ok(d) && d.body@ == g.body@),
            r matches Ok(_) ==> v.dv() matches Val::Obj(_),
    {
        let fields = match v {
            Value::Object(fs) => fs,
            _ => {
                return Err(Error::WrongShape);
            },
        };
        proof {
            assert forall|g: PingResponse| true implies str_field(
                #[trigger] g.wire_fields(),
                "body"@,
                Seq::empty(),
            ) == Some(g.body@) by {
                lemma_obj_get_single("body"@, Val::Str(g.body@), "body"@);
            }
        }
        let body = match get_str_field(fields, "body") {
            Ok(s) => s,
            Err(e) => {
                return Err(e);
            },
        };
        Ok(PingResponse { body })
    }
}

impl Ping {
    /// A ping request carries no fields.
    pub open spec fn wire_fields(self) -> Seq<(Seq<char>, Val)> {
        Seq::empty()
    }

    /// The wire form of this request.
    pub open spec fn wire(self) -> Val {
        Val::Obj(self.wire_fields())
    }

    /// Turn this request into its wire value.
    pub fn to_value(&self) -> (r: Value)
        ensures
            r.dv() == self.wire(),
    {
        let fields: Vec<(String, Value)> = Vec::new();
        proof {
            lemma_dv_fields_len(fields@);
            assert(dv_fields(fields@) =~= self.wire_fields());
        }
        Value::Object(fields)
    }

    /// Read this request back from a wire value: any key-value unit will do,
    /// since a ping carries nothing.
    pub fn from_value(v: &Value) -> (r: Result<Ping, Error>)
        ensures
            forall|g: Ping| v.dv() == #[trigger] g.wire() ==> r matches Ok(_),
            r matches Ok(_) ==> v.dv() matches Val::Obj(_),
    {
        match v {
            Value::Object(_) => Ok(Ping()),
            _ => Err(Error::WrongShape),
        }
    }
}

impl GetHashfield {
    /// The wire object: the one `site` field.
    pub open spec fn wire_fields(self) -> Seq<(Seq<char>, Val)> {
        seq![("site"@, Val::Str(self.site@))]
    }

    /// The wire form of this request.
    pub open spec fn wire(self) -> Val {
        Val::Obj(self.wire_fields())
    }

    /// Turn this request into its wire value.
    pub fn to_value(&self) -> (r: Value)
        ensures
            r.dv() == self.wire(),
    {
        let mut fields: Vec<(String, Value)> = Vec::new();
        fields.push(("site".to_owned(), Value::String(self.site.clone())));
        proof {
            lemma_dv_fields_len(fields@);
            assert(dv_fields(fields@) =~= self.wire_fields());
        }
        Value::Object(fields)
    }

    /// Read this request back from a wire value; every value produced by
    /// [`GetHashfield::to_value`] reads back equal.
    pub fn from_value(v: &Value) -> (r: Result<GetHashfield, Error>)
        ensures
            forall|g: GetHashfield|
                v.dv() == #[trigger] g.wire() ==> (r matches Ok(d) && d.site@ == g.site@),
            r matches Ok(_) ==> v.dv() matches Val::Obj(_),
    {
        let fields = match v {
            Value::Object(fs) => fs,
            _ => {
                return Err(Error::WrongShape);
            },
        };
        proof {
            assert forall|g: GetHashfield| true implies str_field(
                #[trigger] g.wire_fields(),
                "site"@,
                Seq::empty(),
            ) == Some(g.site@) by {
                lemma_obj_get_single("site"@, Val::Str(g.site@), "site"@);
            }
        }
        let site = match get_str_field(fields, "site") {
            Ok(s) => s,
            Err(e) => {
                return Err(e);
            },
        };
        Ok(GetHashfield { site })
    }
}

impl GetPieceFields {
    /// The wire object: the one `site` field.
    pub open spec fn wire_fields(self) -> Seq<(Seq<char>, Val)> {
        seq![("site"@, Val::Str(self.site@))]
    }

    /// The wire form of this request.
    pub open spec fn wire(self) -> Val {
        Val::Obj(self.wire_fields())
    }

    /// Turn this request into its wire value.
    pub fn to_value(&self) -> (r: Value)
        ensures
            r.dv() == self.wire(),
    {
        let mut fields: Vec<(String, Value)> = Vec::new();
        fields.push(("site".to_owned(), Value::String(self.site.clone())));
        proof {
            lemma_dv_fields_len(fields@);
            assert(dv_fields(fields@) =~= self.wire_fields());
        }
        Value::Object(fields)
    }

    /// Read this request back from a wire value; every value produced by
    /// [`GetPieceFields::to_value`] reads back equal.
    pub fn from_value(v: &Value) -> (r: Result<GetPieceFields, Error>)
        ensures
            forall|g: GetPieceFields|
                v.dv() == #[trigger] g.wire() ==> (r matches Ok(d) && d.site@ == g.site@),
            r matches Ok(_) ==> v.dv() matches Val::Obj(_),
    {
        let fields = match v {
            Value::Object(fs) => fs,
            _ => {
                return Err(Error::WrongShape);
            },
        };
        proof {
            assert forall|g: GetPieceFields| true implies str_field(
                #[trigger] g.wire_fields(),
                "site"@,
                Seq::empty(),
            ) == Some(g.site@) by {
                lemma_obj_get_single("site"@, Val::Str(g.site@), "site"@);
            }
        }
        let site = match get_str_field(fields, "site") {
            Ok(s) => s,
            Err(e) => {
                return Err(e);
            },
        };
        Ok(GetPieceFields { site })
    }
}

impl GetHashfieldResponse {
    /// The wire object: the one `hashfield_raw` field.
    pub open spec fn wire_fields(self) -> Seq<(Seq<char>, Val)> {
        seq![("hashfield_raw"@, Val::Bin(self.hashfield_raw@))]
    }

    /// The wire form of this response.
    pub open spec fn wire(self) -> Val {
        Val::Obj(self.wire_fields())
    }

    /// Turn this response into its wire value.
    pub fn to_value(&self) -> (r: Value)
        ensures
            r.dv() == self.wire(),
    {
        let mut fields: Vec<(String, Value)> = Vec::new();
        fields.push(("hashfield_raw".to_owned(), Value::Bytes(vstd::slice::slice_to_vec(
            self.hashfield_raw.as_slice(),
        ))));
        proof {
            lemma_dv_fields_len(fields@);
            assert(dv_fields(fields@) =~= self.wire_fields());
        }
        Value::Object(fields)
    }

    /// Read this response back from a wire value; every value produced by
    /// [`GetHashfieldResponse::to_value`] reads back equal.
    pub fn from_value(v: &Value) -> (r: Result<GetHashfieldResponse, Error>)
        ensures
            forall|g: GetHashfieldResponse|
                v.dv() == #[trigger] g.wire() ==> (r matches Ok(d) && d.hashfield_raw@
                    == g.hashfield_raw@),
            r matches Ok(_) ==> v.dv() matches Val::Obj(_),
    {
        let fields = match v {
            Value::Object(fs) => fs,
            _ => {
                return Err(Error::WrongShape);
            },
        };
        proof {
            assert forall|g: GetHashfieldResponse| true implies bin_field(
                #[trigger] g.wire_fields(),
                "hashfield_raw"@,
            ) == Some(g.hashfield_raw@) by {
                lemma_obj_get_single("hashfield_raw"@, Val::Bin(g.hashfield_raw@), "hashfield_raw"@);
            }
        }
        let hashfield_raw = match get_bin_field(fields, "hashfield_raw") {
            Ok(b) => b,
            Err(e) => {
                return Err(e);
            },
        };
        Ok(GetHashfieldResponse { hashfield_raw })
    }
}

impl GetPieceFieldsResponse {
    /// The wire object: the one `piecefields_packed` field.
    pub open spec fn wire_fields(self) -> Seq<(Seq<char>, Val)> {
        seq![("piecefields_packed"@, Val::Bin(self.piecefields_packed@))]
    }

    /// The wire form of this response.
    pub open spec fn wire(self) -> Val {
        Val::Obj(self.wire_fields())
    }

    /// Turn this response into its wire value.
    pub fn to_value(&self) -> (r: Value)
        ensures
            r.dv() == self.wire(),
    {
        let mut fields: Vec<(String, Value)> = Vec::new();
        fields.push(("piecefields_packed".to_owned(), Value::Bytes(vstd::slice::slice_to_vec(
            self.piecefields_packed.as_slice(),
        ))));
        proof {
            lemma_dv_fields_len(fields@);
            assert(dv_fields(fields@) =~= self.wire_fields());
        }
        Value::Object(fields)
    }

    /// Read this response back from a wire value; every value produced by
    /// [`GetPieceFieldsResponse::to_value`] reads back equal.
    pub fn from_value(v: &Value) -> (r: Result<GetPieceFieldsResponse, Error>)
        ensures
            forall|g: GetPieceFieldsResponse|
                v.dv() == #[trigger] g.wire() ==> (r matches Ok(d) && d.piecefields_packed@
                    == g.piecefields_packed@),
            r matches Ok(_) ==> v.dv() matches Val::Obj(_),
    {
        let fields = match v {
            Value::Object(fs) => fs,
            _ => {
                return Err(Error::WrongShape);
            },
        };
        proof {
            assert forall|g: GetPieceFieldsResponse| true implies bin_field(
                #[trigger] g.wire_fields(),
                "piecefields_packed"@,
            ) == Some(g.piecefields_packed@) by {
                lemma_obj_get_single(
                    "piecefields_packed"@,
                    Val::Bin(g.piecefields_packed@),
                    "piecefields_packed"@,
                );
            }
        }
        let piecefields_packed = match get_bin_field(fields, "piecefields_packed") {
            Ok(b) => b,
            Err(e) => {
                return Err(e);
            },
        };
        Ok(GetPieceFieldsResponse { piecefields_packed })
    }
}

impl SetPieceFieldsResponse {
    /// The wire object: the one `ok` flag.
    pub open spec fn wire_fields(self) -> Seq<(Seq<char>, Val)> {
        seq![("ok"@, Val::Bool(self.ok))]
    }

    /// The wire form of this response.
    pub open spec fn wire(self) -> Val {
        Val::Obj(self.wire_fields())
    }

    /// Turn this response into its wire value.
    pub fn to_value(&self) -> (r: Value)
        ensures
            r.dv() == self.wire(),
    {
        let mut fields: Vec<(String, Value)> = Vec::new();
        fields.push(("ok".to_owned(), Value::Bool(self.ok)));
        proof {
            lemma_dv_fields_len(fields@);
            assert(dv_fields(fields@) =~= self.wire_fields());
        }
        Value::Object(fields)
    }

    /// Read this response back from a wire value; every value produced by
    /// [`SetPieceFieldsResponse::to_value`] reads back equal, and an absent
    /// flag reads as false.
    pub fn from_value(v: &Value) -> (r: Result<SetPieceFieldsResponse, Error>)
        ensures
            forall|g: SetPieceFieldsResponse|
                v.dv() == #[trigger] g.wire() ==> (r matches Ok(d) && d.ok == g.ok),
            r matches Ok(_) ==> v.dv() matches Val::Obj(_),
    {
        let fields = match v {
            Value::Object(fs) => fs,
            _ => {
                return Err(Error::WrongShape);
            },
        };
        proof {
            assert forall|g: SetPieceFieldsResponse| true implies bool_field(
                #[trigger] g.wire_fields(),
                "ok"@,
                false,
            ) == Some(g.ok) by {
                lemma_obj_get_single("ok"@, Val::Bool(g.ok), "ok"@);
            }
        }
        let ok = match get_bool_field(fields, "ok", false) {
            Ok(b) => b,
            Err(e) => {
                return Err(e);
            },
        };
        Ok(SetPieceFieldsResponse { ok })
    }
}

impl Checkport {
    /// The wire object: the one `port` field.
    pub open spec fn wire_fields(self) -> Seq<(Seq<char>, Val)> {
        seq![("port"@, Val::Int(self.port as u64))]
    }

    /// The wire form of this request.
    pub open spec fn wire(self) -> Val {
        Val::Obj(self.wire_fields())
    }

    /// Turn this request into its wire value.
    pub fn to_value(&self) -> (r: Value)
        ensures
            r.dv() == self.wire(),
    {
        let mut fields: Vec<(String, Value)> = Vec::new();
        fields.push(("port".to_owned(), Value::Number(self.port as u64)));
        proof {
            lemma_dv_fields_len(fields@);
            assert(dv_fields(fields@) =~= self.wire_fields());
        }
        Value::Object(fields)
    }

    /// Read this request back from a wire value; every value produced by
    /// [`Checkport::to_value`] reads back equal, and an absent port reads
    /// as zero.
    pub fn from_value(v: &Value) -> (r: Result<Checkport, Error>)
        ensures
            forall|g: Checkport|
                v.dv() == #[trigger] g.wire() ==> (r matches Ok(d) && d.port == g.port),
            r matches Ok(_) ==> v.dv() matches Val::Obj(_),
    {
        let fields = match v {
            Value::Object(fs) => fs,
            _ => {
                return Err(Error::WrongShape);
            },
        };
        proof {
            assert forall|g: Checkport| true implies int_field(
                #[trigger] g.wire_fields(),
                "port"@,
                0,
            ) == Some(g.port as u64) by {
                lemma_obj_get_single("port"@, Val::Int(g.port as u64), "port"@);
            }
        }
        let port = match get_u16_field(fields, "port", 0) {
            Ok(x) => x,
            Err(e) => {
                return Err(e);
            },
        };
        Ok(Checkport { port })
    }
}

impl CheckportResponse {
    /// The wire object: the probe's verdict and the observed address.
    pub open spec fn wire_fields(self) -> Seq<(Seq<char>, Val)> {
        seq![("status"@, Val::Str(self.status@)), ("ip_external"@, Val::Str(self.ip_external@))]
    }

    /// The wire form of this response.
    pub open spec fn wire(self) -> Val {
        Val::Obj(self.wire_fields())
    }

    /// Turn this response into its wire value.
    pub fn to_value(&self) -> (r: Value)
        ensures
            r.dv() == self.wire(),
    {
        let mut fields: Vec<(String, Value)> = Vec::new();
        fields.push(("status".to_owned(), Value::String(self.status.clone())));
        fields.push(("ip_external".to_owned(), Value::String(self.ip_external.clone())));
        proof {
            lemma_dv_fields_len(fields@);
            assert(dv_fields(fields@) =~= self.wire_fields());
        }
        Value::Object(fields)
    }

    /// Read this response back from a wire value; every value produced by
    /// [`CheckportResponse::to_value`] reads back equal.
    pub fn from_value(v: &Value) -> (r: Result<CheckportResponse, Error>)
        ensures
            forall|g: CheckportResponse|
                v.dv() == #[trigger] g.wire() ==> (r matches Ok(d) && d.status@ == g.status@
                    && d.ip_external@ == g.ip_external@),
            r matches Ok(_) ==> v.dv() matches Val::Obj(_),
    {
        let fields = match v {
            Value::Object(fs) => fs,
            _ => {
                return Err(Error::WrongShape);
            },
        };
        proof {
            assert forall|g: CheckportResponse| true implies {
                &&& str_field(#[trigger] g.wire_fields(), "status"@, Seq::empty()) == Some(
                    g.status@,
                )
                &&& str_field(g.wire_fields(), "ip_external"@, Seq::empty()) == Some(
                    g.ip_external@,
                )
            } by {
                reveal_strlit("status");
                reveal_strlit("ip_external");
                assert("status"@.len() == 6 && "ip_external"@.len() == 11);
                lemma_obj_get_pair(
                    "status"@,
                    Val::Str(g.status@),
                    "ip_external"@,
                    Val::Str(g.ip_external@),
                    "status"@,
                );
                lemma_obj_get_pair(
                    "status"@,
                    Val::Str(g.status@),
                    "ip_external"@,
                    Val::Str(g.ip_external@),
                    "ip_external"@,
                );
            }
        }
        let status = match get_str_field(fields, "status") {
            Ok(s) => s,
            Err(e) => {
                return Err(e);
            },
        };
        let ip_external = match get_str_field(fields, "ip_external") {
            Ok(s) => s,
            Err(e) => {
                return Err(e);
            },
        };
        Ok(CheckportResponse { status, ip_external })
    }
}

impl ListModified {
    /// The wire object: the site and the `since` timestamp.
    pub open spec fn wire_fields(self) -> Seq<(Seq<char>, Val)> {
        seq![("site"@, Val::Str(self.site@)), ("since"@, Val::Int(self.since as u64))]
    }

    /// The wire form of this request.
    pub open spec fn wire(self) -> Val {
        Val::Obj(self.wire_fields())
    }

    /// Turn this request into its wire value.
    pub fn to_value(&self) -> (r: Value)
        ensures
            r.dv() == self.wire(),
    {
        let mut fields: Vec<(String, Value)> = Vec::new();
        fields.push(("site".to_owned(), Value::String(self.site.clone())));
        fields.push(("since".to_owned(), Value::Number(self.since as u64)));
        proof {
            lemma_dv_fields_len(fields@);
            assert(dv_fields(fields@) =~= self.wire_fields());
        }
        Value::Object(fields)
    }

    /// Read this request back from a wire value; every value produced by
    /// [`ListModified::to_value`] reads back equal.
    pub fn from_value(v: &Value) -> (r: Result<ListModified, Error>)
        ensures
            forall|g: ListModified|
                v.dv() == #[trigger] g.wire() ==> (r matches Ok(d) && d.site@ == g.site@
                    && d.since == g.since),
            r matches Ok(_) ==> v.dv() matches Val::Obj(_),
    {
        let fields = match v {
            Value::Object(fs) => fs,
            _ => {
                return Err(Error::WrongShape);
            },
        };
        proof {
            assert forall|g: ListModified| true implies {
                &&& str_field(#[trigger] g.wire_fields(), "site"@, Seq::empty()) == Some(g.site@)
                &&& int_field(g.wire_fields(), "since"@, 0) == Some(g.since as u64)
            } by {
                reveal_strlit("site");
                reveal_strlit("since");
                assert("site"@.len() == 4 && "since"@.len() == 5);
                lemma_obj_get_pair(
                    "site"@,
                    Val::Str(g.site@),
                    "since"@,
                    Val::Int(g.since as u64),
                    "site"@,
                );
                lemma_obj_get_pair(
                    "site"@,
                    Val::Str(g.site@),
                    "since"@,
                    Val::Int(g.since as u64),
                    "since"@,
                );
            }
        }
        let site = match get_str_field(fields, "site") {
            Ok(s) => s,
            Err(e) => {
                return Err(e);
            },
        };
        let since = match get_usize_field(fields, "since", 0) {
            Ok(x) => x,
            Err(e) => {
                return Err(e);
            },
        };
        Ok(ListModified { site, since })
    }
}

impl SetHashfield {
    /// The wire object: the site and the packed hashfield.
    pub open spec fn wire_fields(self) -> Seq<(Seq<char>, Val)> {
        seq![("site"@, Val::Str(self.site@)), ("hashfield_raw"@, Val::Bin(self.hashfield_raw@))]
    }

    /// The wire form of this request.
    pub open spec fn wire(self) -> Val {
        Val::Obj(self.wire_fields())
    }

    /// Turn this request into its wire value.
    pub fn to_value(&self) -> (r: Value)
        ensures
            r.dv() == self.wire(),
    {
        let mut fields: Vec<(String, Value)> = Vec::new();
        fields.push(("site".to_owned(), Value::String(self.site.clone())));
        fields.push(("hashfield_raw".to_owned(), Value::Bytes(vstd::slice::slice_to_vec(
            self.hashfield_raw.as_slice(),
        ))));
        proof {
            lemma_dv_fields_len(fields@);
            assert(dv_fields(fields@) =~= self.wire_fields());
        }
        Value::Object(fields)
    }

    /// Read this request back from a wire value; every value produced by
    /// [`SetHashfield::to_value`] reads back equal.
    pub fn from_value(v: &Value) -> (r: Result<SetHashfield, Error>)
        ensures
            forall|g: SetHashfield|
                v.dv() == #[trigger] g.wire() ==> (r matches Ok(d) && d.site@ == g.site@
                    && d.hashfield_raw@ == g.hashfield_raw@),
            r matches Ok(_) ==> v.dv() matches Val::Obj(_),
    {
        let fields = match v {
            Value::Object(fs) => fs,
            _ => {
                return Err(Error::WrongShape);
            },
        };
        proof {
            assert forall|g: SetHashfield| true implies {
                &&& str_field(#[trigger] g.wire_fields(), "site"@, Seq::empty()) == Some(g.site@)
                &&& bin_field(g.wire_fields(), "hashfield_raw"@) == Some(g.hashfield_raw@)
            } by {
                reveal_strlit("site");
                reveal_strlit("hashfield_raw");
                assert("site"@.len() == 4 && "hashfield_raw"@.len() == 13);
                lemma_obj_get_pair(
                    "site"@,
                    Val::Str(g.site@),
                    "hashfield_raw"@,
                    Val::Bin(g.hashfield_raw@),
                    "site"@,
                );
                lemma_obj_get_pair(
                    "site"@,
                    Val::Str(g.site@),
                    "hashfield_raw"@,
                    Val::Bin(g.hashfield_raw@),
                    "hashfield_raw"@,
                );
            }
        }
        let site = match get_str_field(fields, "site") {
            Ok(s) => s,
            Err(e) => {
                return Err(e);
            },
        };
        let hashfield_raw = match get_bin_field(fields, "hashfield_raw") {
            Ok(b) => b,
            Err(e) => {
                return Err(e);
            },
        };
        Ok(SetHashfield { site, hashfield_raw })
    }
}

impl SetPieceFields {
    /// The wire object: the site and the packed piece fields.
    pub open spec fn wire_fields(self) -> Seq<(Seq<char>, Val)> {
        seq![
            ("site"@, Val::Str(self.site@)),
            ("piecefields_packed"@, Val::Bin(self.piecefields_packed@)),
        ]
    }

    /// The wire form of this request.
    pub open spec fn wire(self) -> Val {
        Val::Obj(self.wire_fields())
    }

    /// Turn this request into its wire value.
    pub fn to_value(&self) -> (r: Value)
        ensures
            r.dv() == self.wire(),
    {
        let mut fields: Vec<(String, Value)> = Vec::new();
        fields.push(("site".to_owned(), Value::String(self.site.clone())));
        fields.push(("piecefields_packed".to_owned(), Value::Bytes(vstd::slice::slice_to_vec(
            self.piecefields_packed.as_slice(),
        ))));
        proof {
            lemma_dv_fields_len(fields@);
            assert(dv_fields(fields@) =~= self.wire_fields());
        }
        Value::Object(fields)
    }

    /// Read this request back from a wire value; every value produced by
    /// [`SetPieceFields::to_value`] reads back equal.
    pub fn from_value(v: &Value) -> (r: Result<SetPieceFields, Error>)
        ensures
            forall|g: SetPieceFields|
                v.dv() == #[trigger] g.wire() ==> (r matches Ok(d) && d.site@ == g.site@
                    && d.piecefields_packed@ == g.piecefields_packed@),
            r matches Ok(_) ==> v.dv() matches Val::Obj(_),
    {
        let fields = match v {
            Value::Object(fs) => fs,
            _ => {
                return Err(Error::WrongShape);
            },
        };
        proof {
            assert forall|g: SetPieceFields| true implies {
                &&& str_field(#[trigger] g.wire_fields(), "site"@, Seq::empty()) == Some(g.site@)
                &&& bin_field(g.wire_fields(), "piecefields_packed"@) == Some(
                    g.piecefields_packed@,
                )
            } by {
                reveal_strlit("site");
                reveal_strlit("piecefields_packed");
                assert("site"@.len() == 4 && "piecefields_packed"@.len() == 18);
                lemma_obj_get_pair(
                    "site"@,
                    Val::Str(g.site@),
                    "piecefields_packed"@,
                    Val::Bin(g.piecefields_packed@),
                    "site"@,
                );
                lemma_obj_get_pair(
                    "site"@,
                    Val::Str(g.site@),
                    "piecefields_packed"@,
                    Val::Bin(g.piecefields_packed@),
                    "piecefields_packed"@,
                );
            }
        }
        let site = match get_str_field(fields, "site") {
            Ok(s) => s,
            Err(e) => {
                return Err(e);
            },
        };
        let piecefields_packed = match get_bin_field(fields, "piecefields_packed") {
            Ok(b) => b,
            Err(e) => {
                return Err(e);
            },
        };
        Ok(SetPieceFields { site, piecefields_packed })
    }
}

impl FindHashIds {
    /// The wire object: the site and the list of numeric hash ids.
    pub open spec fn wire_fields(self) -> Seq<(Seq<char>, Val)> {
        seq![
            ("site"@, Val::Str(self.site@)),
            ("hash_ids"@, Val::Arr(ints(u64s(self.hash_ids@)))),
        ]
    }

    /// The wire form of this request.
    pub open spec fn wire(self) -> Val {
        Val::Obj(self.wire_fields())
    }

    /// Turn this request into its wire value.
    pub fn to_value(&self) -> (r: Value)
        ensures
            r.dv() == self.wire(),
    {
        let mut fields: Vec<(String, Value)> = Vec::new();
        fields.push(("site".to_owned(), Value::String(self.site.clone())));
        let n = self.hash_ids.len();
        let mut ids: Vec<Value> = Vec::new();
        let mut i: usize = 0;
        while i < n
            invariant
                i <= n,
                n == self.hash_ids@.len(),
                ids@.len() == i,
                forall|k: int|
                    0 <= k < i ==> (#[trigger] ids@[k]).dv() == Val::Int(self.hash_ids@[k] as u64),
            decreases n - i,
        {
            ids.push(Value::Number(self.hash_ids[i] as u64));
            i += 1;
        }
        proof {
            lemma_dv_seq_len(ids@);
            assert(dv_seq(ids@) =~= ints(u64s(self.hash_ids@)));
        }
        fields.push(("hash_ids".to_owned(), Value::Array(ids)));
        proof {
            lemma_dv_fields_len(fields@);
            assert(dv_fields(fields@) =~= self.wire_fields());
        }
        Value::Object(fields)
    }

    /// Read this request back from a wire value; every value produced by
    /// [`FindHashIds::to_value`] reads back equal.
    pub fn from_value(v: &Value) -> (r: Result<FindHashIds, Error>)
        ensures
            forall|g: FindHashIds|
                v.dv() == #[trigger] g.wire() ==> (r matches Ok(d) && d.site@ == g.site@ && u64s(
                    d.hash_ids@,
                ) == u64s(g.hash_ids@)),
            r matches Ok(_) ==> v.dv() matches Val::Obj(_),
    {
        let fields = match v {
            Value::Object(fs) => fs,
            _ => {
                return Err(Error::WrongShape);
            },
        };
        proof {
            assert forall|g: FindHashIds| true implies {
                &&& str_field(#[trigger] g.wire_fields(), "site"@, Seq::empty()) == Some(g.site@)
                &&& int_list_field(g.wire_fields(), "hash_ids"@) == Some(u64s(g.hash_ids@))
                &&& !(exists|i: int|
                    0 <= i < u64s(g.hash_ids@).len() && #[trigger] u64s(g.hash_ids@)[i]
                        > usize::MAX)
            } by {
                reveal_strlit("site");
                reveal_strlit("hash_ids");
                assert("site"@.len() == 4 && "hash_ids"@.len() == 8);
                lemma_obj_get_pair(
                    "site"@,
                    Val::Str(g.site@),
                    "hash_ids"@,
                    Val::Arr(ints(u64s(g.hash_ids@))),
                    "site"@,
                );
                lemma_obj_get_pair(
                    "site"@,
                    Val::Str(g.site@),
                    "hash_ids"@,
                    Val::Arr(ints(u64s(g.hash_ids@))),
                    "hash_ids"@,
                );
                assert(as_int_list(ints(u64s(g.hash_ids@))) =~= Some(u64s(g.hash_ids@))) by {
                    assert(Seq::new(
                        ints(u64s(g.hash_ids@)).len(),
                        |i: int| ints(u64s(g.hash_ids@))[i]->Int_0,
                    ) =~= u64s(g.hash_ids@));
                }
            }
        }
        let site = match get_str_field(fields, "site") {
            Ok(s) => s,
            Err(e) => {
                return Err(e);
            },
        };
        let hash_ids = match get_usize_list_field(fields, "hash_ids") {
            Ok(l) => l,
            Err(e) => {
                return Err(e);
            },
        };
        Ok(FindHashIds { site, hash_ids })
    }
}

impl StreamFile {
    /// The wire object of this request: `site`, `inner_path` and `location`
    /// always present, `read_bytes` and `file_size` only when nonzero.
    pub open spec fn wire_fields(self) -> Seq<(Seq<char>, Val)> {
        seq![("site"@, Val::Str(self.site@))] + (seq![("inner_path"@, Val::Str(self.inner_path@))]
            + (seq![("location"@, Val::Int(self.location as u64))] + ((if self.read_bytes != 0 {
            seq![("read_bytes"@, Val::Int(self.read_bytes as u64))]
        } else {
            Seq::<(Seq<char>, Val)>::empty()
        }) + (if self.file_size != 0 {
            seq![("file_size"@, Val::Int(self.file_size as u64))]
        } else {
            Seq::<(Seq<char>, Val)>::empty()
        }))))
    }

    /// The wire form of this request.
    pub open spec fn wire(self) -> Val {
        Val::Obj(self.wire_fields())
    }

    /// Turn this request into its wire value.
    pub fn to_value(&self) -> (r: Value)
        ensures
            r.dv() == self.wire(),
    {
        let mut fields: Vec<(String, Value)> = Vec::new();
        fields.push(("site".to_owned(), Value::String(self.site.clone())));
        fields.push(("inner_path".to_owned(), Value::String(self.inner_path.clone())));
        fields.push(("location".to_owned(), Value::Number(self.location as u64)));
        if self.read_bytes != 0 {
            fields.push(("read_bytes".to_owned(), Value::Number(self.read_bytes as u64)));
        }
        if self.file_size != 0 {
            fields.push(("file_size".to_owned(), Value::Number(self.file_size as u64)));
        }
        proof {
            lemma_dv_fields_len(fields@);
            assert(dv_fields(fields@) =~= self.wire_fields());
        }
        Value::Object(fields)
    }

    /// Read this request back from a wire value. Absent defaulted fields
    /// read as zero; every value produced by [`StreamFile::to_value`] reads
    /// back equal to the request it came from.
    pub fn from_value(v: &Value) -> (r: Result<StreamFile, Error>)
        ensures
            forall|g: StreamFile|
                v.dv() == #[trigger] g.wire() ==> (r matches Ok(d) && d.site@ == g.site@
                    && d.inner_path@ == g.inner_path@ && d.location == g.location
                    && d.read_bytes == g.read_bytes && d.file_size == g.file_size),
            r matches Ok(_) ==> v.dv() matches Val::Obj(_),
    {
        let fields = match v {
            Value::Object(fs) => fs,
            _ => {
                return Err(Error::WrongShape);
            },
        };
        proof {
            assert forall|g: StreamFile| true implies {
                &&& str_field(#[trigger] g.wire_fields(), "site"@, Seq::empty()) == Some(g.site@)
                &&& str_field(g.wire_fields(), "inner_path"@, Seq::empty()) == Some(
                    g.inner_path@,
                )
                &&& int_field(g.wire_fields(), "location"@, 0) == Some(g.location as u64)
                &&& int_field(g.wire_fields(), "read_bytes"@, 0) == Some(g.read_bytes as u64)
                &&& int_field(g.wire_fields(), "file_size"@, 0) == Some(g.file_size as u64)
            } by {
                lemma_stream_file_wire_lookups(g);
            }
        }
        let site = match get_str_field(fields, "site") {
            Ok(s) => s,
            Err(e) => {
                return Err(e);
            },
        };
        let inner_path = match get_str_field(fields, "inner_path") {
            Ok(s) => s,
            Err(e) => {
                return Err(e);
            },
        };
        let location = match get_usize_field(fields, "location", 0) {
            Ok(x) => x,
            Err(e) => {
                return Err(e);
            },
        };
        let read_bytes = match get_usize_field(fields, "read_bytes", 0) {
            Ok(x) => x,
            Err(e) => {
                return Err(e);
            },
        };
        let file_size = match get_usize_field(fields, "file_size", 0) {
            Ok(x) => x,
            Err(e) => {
                return Err(e);
            },
        };
        Ok(StreamFile { site, inner_path, location, read_bytes, file_size })
    }
}

proof fn lemma_stream_file_wire_lookups(g: StreamFile)
    ensures
        str_field(g.wire_fields(), "site"@, Seq::empty()) == Some(g.site@),
        str_field(g.wire_fields(), "inner_path"@, Seq::empty()) == Some(g.inner_path@),
        int_field(g.wire_fields(), "location"@, 0) == Some(g.location as u64),
        int_field(g.wire_fields(), "read_bytes"@, 0) == Some(g.read_bytes as u64),
        int_field(g.wire_fields(), "file_size"@, 0) == Some(g.file_size as u64),
{
    reveal_strlit("site");
    reveal_strlit("inner_path");
    reveal_strlit("location");
    reveal_strlit("read_bytes");
    reveal_strlit("file_size");
    let t_rb = if g.read_bytes != 0 {
        seq![("read_bytes"@, Val::Int(g.read_bytes as u64))]
    } else {
        Seq::<(Seq<char>, Val)>::empty()
    };
    let t_fs = if g.file_size != 0 {
        seq![("file_size"@, Val::Int(g.file_size as u64))]
    } else {
        Seq::<(Seq<char>, Val)>::empty()
    };
    let keys = seq!["site"@, "inner_path"@, "location"@, "read_bytes"@, "file_size"@];
    assert forall|a: int, b: int|
        0 <= a < 5 && 0 <= b < 5 && a != b implies keys[a] != keys[b] by {
        assert("site"@.len() == 4 && "inner_path"@.len() == 10 && "location"@.len() == 8
            && "read_bytes"@.len() == 10 && "file_size"@.len() == 9);
        assert("inner_path"@[0] == 'i' && "read_bytes"@[0] == 'r');
    }
    assert forall|key: int| 0 <= key < 5 implies obj_get(g.wire_fields(), keys[key]) == (if key
        == 0 {
        Some(Val::Str(g.site@))
    } else if key == 1 {
        Some(Val::Str(g.inner_path@))
    } else if key == 2 {
        Some(Val::Int(g.location as u64))
    } else {
        obj_get(t_rb + t_fs, keys[key])
    }) by {
        lemma_obj_get_cons(
            "site"@,
            Val::Str(g.site@),
            seq![("inner_path"@, Val::Str(g.inner_path@))] + (seq![
                ("location"@, Val::Int(g.location as u64)),
            ] + (t_rb + t_fs)),
            keys[key],
        );
        lemma_obj_get_cons(
            "inner_path"@,
            Val::Str(g.inner_path@),
            seq![("location"@, Val::Int(g.location as u64))] + (t_rb + t_fs),
            keys[key],
        );
        lemma_obj_get_cons("location"@, Val::Int(g.location as u64), t_rb + t_fs, keys[key]);
    }
    assert forall|key: int| 0 <= key < 5 implies obj_get(t_rb + t_fs, keys[key]) == (if key == 3
        && g.read_bytes != 0 {
        Some(Val::Int(g.read_bytes as u64))
    } else {
        obj_get(t_fs, keys[key])
    }) by {
        if g.read_bytes != 0 {
            lemma_obj_get_cons("read_bytes"@, Val::Int(g.read_bytes as u64), t_fs, keys[key]);
        } else {
            assert(t_rb + t_fs =~= t_fs);
        }
    }
    assert forall|key: int| 0 <= key < 5 implies obj_get(t_fs, keys[key]) == (if key == 4
        && g.file_size != 0 {
        Some(Val::Int(g.file_size as u64))
    } else {
        None::<Val>
    }) by {
        if g.file_size != 0 {
            lemma_obj_get_cons(
                "file_size"@,
                Val::Int(g.file_size as u64),
                Seq::<(Seq<char>, Val)>::empty(),
                keys[key],
            );
            assert(t_fs =~= seq![("file_size"@, Val::Int(g.file_size as u64))] + Seq::<(
                Seq<char>,
                Val,
            )>::empty());
        }
    }
    assert(obj_get(g.wire_fields(), keys[0]) == Some(Val::Str(g.site@)));
    assert(obj_get(g.wire_fields(), keys[1]) == Some(Val::Str(g.inner_path@)));
    assert(obj_get(g.wire_fields(), keys[2]) == Some(Val::Int(g.location as u64)));
    assert(obj_get(g.wire_fields(), keys[3]) == (if g.read_bytes != 0 {
        Some(Val::Int(g.read_bytes as u64))
    } else {
        None::<Val>
    }));
    assert(obj_get(g.wire_fields(), keys[4]) == (if g.file_size != 0 {
        Some(Val::Int(g.file_size as u64))
    } else {
        None::<Val>
    }));
}

impl StreamFileResponse {
    /// The wire object: offset, size and streamed byte count.
    pub open spec fn wire_fields(self) -> Seq<(Seq<char>, Val)> {
        seq![
            ("location"@, Val::Int(self.location as u64)),
            ("size"@, Val::Int(self.size as u64)),
            ("stream_bytes"@, Val::Int(self.stream_bytes as u64)),
        ]
    }

    /// The wire form of this response.
    pub open spec fn wire(self) -> Val {
        Val::Obj(self.wire_fields())
    }

    /// Turn this response into its wire value.
    pub fn to_value(&self) -> (r: Value)
        ensures
            r.dv() == self.wire(),
    {
        let mut fields: Vec<(String, Value)> = Vec::new();
        fields.push(("location".to_owned(), Value::Number(self.location as u64)));
        fields.push(("size".to_owned(), Value::Number(self.size as u64)));
        fields.push(("stream_bytes".to_owned(), Value::Number(self.stream_bytes as u64)));
        proof {
            lemma_dv_fields_len(fields@);
            assert(dv_fields(fields@) =~= self.wire_fields());
        }
        Value::Object(fields)
    }

    /// Read this response back from a wire value; every value produced by
    /// [`StreamFileResponse::to_value`] reads back equal.
    pub fn from_value(v: &Value) -> (r: Result<StreamFileResponse, Error>)
        ensures
            forall|g: StreamFileResponse|
                v.dv() == #[trigger] g.wire() ==> (r matches Ok(d) && d.location == g.location
                    && d.size == g.size && d.stream_bytes == g.stream_bytes),
            r matches Ok(_) ==> v.dv() matches Val::Obj(_),
    {
        let fields = match v {
            Value::Object(fs) => fs,
            _ => {
                return Err(Error::WrongShape);
            },
        };
        proof {
            assert forall|g: StreamFileResponse| true implies {
                &&& int_field(#[trigger] g.wire_fields(), "location"@, 0) == Some(
                    g.location as u64,
                )
                &&& int_field(g.wire_fields(), "size"@, 0) == Some(g.size as u64)
                &&& int_field(g.wire_fields(), "stream_bytes"@, 0) == Some(g.stream_bytes as u64)
            } by {
                reveal_strlit("location");
                reveal_strlit("size");
                reveal_strlit("stream_bytes");
                assert("location"@.len() == 8 && "size"@.len() == 4 && "stream_bytes"@.len()
                    == 12);
                lemma_obj_get_triple(
                    "location"@,
                    Val::Int(g.location as u64),
                    "size"@,
                    Val::Int(g.size as u64),
                    "stream_bytes"@,
                    Val::Int(g.stream_bytes as u64),
                    "location"@,
                );
                lemma_obj_get_triple(
                    "location"@,
                    Val::Int(g.location as u64),
                    "size"@,
                    Val::Int(g.size as u64),
                    "stream_bytes"@,
                    Val::Int(g.stream_bytes as u64),
                    "size"@,
                );
                lemma_obj_get_triple(
                    "location"@,
                    Val::Int(g.location as u64),
                    "size"@,
                    Val::Int(g.size as u64),
                    "stream_bytes"@,
                    Val::Int(g.stream_bytes as u64),
                    "stream_bytes"@,
                );
            }
        }
        let location = match get_usize_field(fields, "location", 0) {
            Ok(x) => x,
            Err(e) => {
                return Err(e);
            },
        };
        let size = match get_usize_field(fields, "size", 0) {
            Ok(x) => x,
            Err(e) => {
                return Err(e);
            },
        };
        let stream_bytes = match get_usize_field(fields, "stream_bytes", 0) {
            Ok(x) => x,
            Err(e) => {
                return Err(e);
            },
        };
        Ok(StreamFileResponse { location, size, stream_bytes })
    }
}

} // verus!
