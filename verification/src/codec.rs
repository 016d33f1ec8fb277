//! The binary wire codec for [`Value`]: a self-describing encoding whose
//! type markers keep raw byte buffers distinct from UTF-8 strings. The
//! encoder is total; the decoder accepts exactly the well-formed encodings
//! and recovers the encoded value (the round-trip law is the decoder's
//! contract, and [`lemma_enc_prefix_free`] pins the decoded value down as
//! the only one possible).
//!
//! Wire grammar, one tagged unit per value:
//! - `0xc0` — null
//! - `0xc2` / `0xc3` — false / true
//! - `0xcf` + 8-byte big-endian integer
//! - `0xdb` + 8-byte big-endian byte length + UTF-8 bytes — string
//! - `0xc6` + 8-byte big-endian byte length + raw bytes — byte buffer
//! - `0xdd` + 8-byte big-endian element count + elements — array
//! - `0xdf` + 8-byte big-endian entry count + (string key, value) pairs — map

use vstd::prelude::*;
use vstd::slice::{slice_subrange, slice_to_vec};
use vstd::string::StrSliceExecFns;
use vstd::utf8::{encode_utf8, encode_utf8_decode_utf8, encode_utf8_valid_utf8, valid_utf8};

use crate::error::Error;
use crate::value::{dv_fields, dv_seq, lemma_dv_fields_len, lemma_dv_seq_len, Val, Value};

verus! {

pub const TAG_NULL: u8 = 0xc0;

pub const TAG_FALSE: u8 = 0xc2;

pub const TAG_TRUE: u8 = 0xc3;

pub const TAG_INT: u8 = 0xcf;

pub const TAG_BIN: u8 = 0xc6;

pub const TAG_STR: u8 = 0xdb;

pub const TAG_ARR: u8 = 0xdd;

pub const TAG_MAP: u8 = 0xdf;

/// The eight bytes of `x`, most significant first.
pub open spec fn be64(x: u64) -> Seq<u8> {
    seq![
        ((x >> 56) & 0xff) as u8,
        ((x >> 48) & 0xff) as u8,
        ((x >> 40) & 0xff) as u8,
        ((x >> 32) & 0xff) as u8,
        ((x >> 24) & 0xff) as u8,
        ((x >> 16) & 0xff) as u8,
        ((x >> 8) & 0xff) as u8,
        (x & 0xff) as u8,
    ]
}

/// A model value is well formed when every length in it fits the wire's
/// 64-bit length fields. Every value built from an in-memory [`Value`] is
/// well formed.
pub open spec fn wf(v: Val) -> bool
    decreases v,
{
    match v {
        Val::Null => true,
        Val::Bool(_) => true,
        Val::Int(_) => true,
        Val::Str(cs) => encode_utf8(cs).len() <= u64::MAX,
        Val::Bin(bs) => bs.len() <= u64::MAX,
        Val::Arr(es) => es.len() <= u64::MAX && forall|i: int|
            0 <= i < es.len() ==> wf(#[trigger] es[i]),
        Val::Obj(fs) => fs.len() <= u64::MAX && forall|i: int|
            0 <= i < fs.len() ==> wf(#[trigger] fs[i].1) && encode_utf8(fs[i].0).len()
                <= u64::MAX,
    }
}

/// The encoding of one string unit: marker, byte length, UTF-8 bytes.
pub open spec fn str_unit(cs: Seq<char>) -> Seq<u8> {
    seq![TAG_STR] + be64(encode_utf8(cs).len() as u64) + encode_utf8(cs)
}

/// The encoding of a model value.
pub open spec fn enc(v: Val) -> Seq<u8>
    decreases v,
{
    match v {
        Val::Null => seq![TAG_NULL],
        Val::Bool(b) => if b {
            seq![TAG_TRUE]
        } else {
            seq![TAG_FALSE]
        },
        Val::Int(n) => seq![TAG_INT] + be64(n),
        Val::Str(cs) => str_unit(cs),
        Val::Bin(bs) => seq![TAG_BIN] + be64(bs.len() as u64) + bs,
        Val::Arr(es) => seq![TAG_ARR] + be64(es.len() as u64) + enc_list(es),
        Val::Obj(fs) => seq![TAG_MAP] + be64(fs.len() as u64) + enc_fields(fs),
    }
}

/// The encodings of a sequence of values, one after the other.
pub open spec fn enc_list(es: Seq<Val>) -> Seq<u8>
    decreases es,
{
    if es.len() == 0 {
        Seq::empty()
    } else {
        enc(es[0]) + enc_list(es.drop_first())
    }
}

/// The encodings of a sequence of map entries: each key as a string unit,
/// then its value.
pub open spec fn enc_fields(fs: Seq<(Seq<char>, Val)>) -> Seq<u8>
    decreases fs,
{
    if fs.len() == 0 {
        Seq::empty()
    } else {
        str_unit(fs[0].0) + enc(fs[0].1) + enc_fields(fs.drop_first())
    }
}

/// The wire type marker that opens the encoding of `v`.
pub open spec fn tag_of(v: Val) -> u8 {
    match v {
        Val::Null => TAG_NULL,
        Val::Bool(b) => if b {
            TAG_TRUE
        } else {
            TAG_FALSE
        },
        Val::Int(_) => TAG_INT,
        Val::Str(_) => TAG_STR,
        Val::Bin(_) => TAG_BIN,
        Val::Arr(_) => TAG_ARR,
        Val::Obj(_) => TAG_MAP,
    }
}

/// `p` occurs in `b` starting at position `i`.
pub open spec fn prefix_at(b: Seq<u8>, i: int, p: Seq<u8>) -> bool {
    0 <= i && i + p.len() <= b.len() && b.subrange(i, i + p.len()) == p
}

pub proof fn lemma_enc_shape(v: Val)
    ensures
        enc(v).len() >= 1,
        enc(v)[0] == tag_of(v),
{
    match v {
        Val::Null => {},
        Val::Bool(_) => {},
        Val::Int(_) => {},
        Val::Str(_) => {},
        Val::Bin(_) => {},
        Val::Arr(_) => {},
        Val::Obj(_) => {},
    }
}

pub proof fn lemma_prefix_at_concat(b: Seq<u8>, i: int, p: Seq<u8>, q: Seq<u8>)
    requires
        prefix_at(b, i, p + q),
    ensures
        prefix_at(b, i, p),
        prefix_at(b, i + p.len(), q),
{
    let pq = p + q;
    assert(forall|j: int| 0 <= j < pq.len() ==> pq[j] == b[i + j]) by {
        assert(b.subrange(i, i + pq.len() as int) == pq);
    }
    assert(b.subrange(i, i + p.len()) =~= p);
    assert forall|k: int| 0 <= k < q.len() implies b.subrange(
        i + p.len(),
        i + p.len() + q.len(),
    )[k] == q[k] by {
        assert(pq[p.len() + k] == q[k]);
        assert(pq[p.len() + k] == b[i + p.len() + k]);
    }
    assert(b.subrange(i + p.len(), i + p.len() + q.len()) =~= q);
}

pub proof fn lemma_prefix_at_join(b: Seq<u8>, i: int, p: Seq<u8>, q: Seq<u8>)
    requires
        prefix_at(b, i, p),
        prefix_at(b, i + p.len(), q),
    ensures
        prefix_at(b, i, p + q),
{
    assert(b.subrange(i, i + (p + q).len() as int) =~= p + q);
}

pub proof fn lemma_be64_injective(x: u64, y: u64)
    requires
        be64(x) == be64(y),
    ensures
        x == y,
{
    assert(be64(x)[0] == be64(y)[0]);
    assert(be64(x)[1] == be64(y)[1]);
    assert(be64(x)[2] == be64(y)[2]);
    assert(be64(x)[3] == be64(y)[3]);
    assert(be64(x)[4] == be64(y)[4]);
    assert(be64(x)[5] == be64(y)[5]);
    assert(be64(x)[6] == be64(y)[6]);
    assert(be64(x)[7] == be64(y)[7]);
    assert(x == y) by (bit_vector)
        requires
            ((x >> 56) & 0xff) as u8 == ((y >> 56) & 0xff) as u8,
            ((x >> 48) & 0xff) as u8 == ((y >> 48) & 0xff) as u8,
            ((x >> 40) & 0xff) as u8 == ((y >> 40) & 0xff) as u8,
            ((x >> 32) & 0xff) as u8 == ((y >> 32) & 0xff) as u8,
            ((x >> 24) & 0xff) as u8 == ((y >> 24) & 0xff) as u8,
            ((x >> 16) & 0xff) as u8 == ((y >> 16) & 0xff) as u8,
            ((x >> 8) & 0xff) as u8 == ((y >> 8) & 0xff) as u8,
            (x & 0xff) as u8 == (y & 0xff) as u8,
    ;
}

fn push_be64(out: &mut Vec<u8>, x: u64)
    ensures
        final(out)@ == old(out)@ + be64(x),
{
    proof {
        assert((x >> 56) & 0xff < 256 && (x >> 48) & 0xff < 256 && (x >> 40) & 0xff < 256 && (x
            >> 32) & 0xff < 256 && (x >> 24) & 0xff < 256 && (x >> 16) & 0xff < 256 && (x >> 8)
            & 0xff < 256 && x & 0xff < 256) by (bit_vector);
    }
    out.push(((x >> 56) & 0xff) as u8);
    out.push(((x >> 48) & 0xff) as u8);
    out.push(((x >> 40) & 0xff) as u8);
    out.push(((x >> 32) & 0xff) as u8);
    out.push(((x >> 24) & 0xff) as u8);
    out.push(((x >> 16) & 0xff) as u8);
    out.push(((x >> 8) & 0xff) as u8);
    out.push((x & 0xff) as u8);
    proof {
        assert(out@ =~= old(out)@ + be64(x));
    }
}

fn read_be64(bytes: &[u8], i: usize) -> (x: u64)
    requires
        i + 8 <= bytes@.len(),
    ensures
        be64(x) == bytes@.subrange(i as int, i as int + 8),
{
    let n = bytes.len();
    assert(i + 8 <= n);
    let b0 = *vstd::slice::slice_index_get(bytes, i);
    let b1 = *vstd::slice::slice_index_get(bytes, i + 1);
    let b2 = *vstd::slice::slice_index_get(bytes, i + 2);
    let b3 = *vstd::slice::slice_index_get(bytes, i + 3);
    let b4 = *vstd::slice::slice_index_get(bytes, i + 4);
    let b5 = *vstd::slice::slice_index_get(bytes, i + 5);
    let b6 = *vstd::slice::slice_index_get(bytes, i + 6);
    let b7 = *vstd::slice::slice_index_get(bytes, i + 7);
    let x: u64 = ((b0 as u64) << 56) | ((b1 as u64) << 48) | ((b2 as u64) << 40) | ((b3 as u64)
        << 32) | ((b4 as u64) << 24) | ((b5 as u64) << 16) | ((b6 as u64) << 8) | (b7 as u64);
    proof {
        assert(((x >> 56) & 0xff) as u8 == b0) by (bit_vector)
            requires
                x == ((b0 as u64) << 56) | ((b1 as u64) << 48) | ((b2 as u64) << 40) | ((
                b3 as u64) << 32) | ((b4 as u64) << 24) | ((b5 as u64) << 16) | ((b6 as u64)
                    << 8) | (b7 as u64),
        ;
        assert(((x >> 48) & 0xff) as u8 == b1) by (bit_vector)
            requires
                x == ((b0 as u64) << 56) | ((b1 as u64) << 48) | ((b2 as u64) << 40) | ((
                b3 as u64) << 32) | ((b4 as u64) << 24) | ((b5 as u64) << 16) | ((b6 as u64)
                    << 8) | (b7 as u64),
        ;
        assert(((x >> 40) & 0xff) as u8 == b2) by (bit_vector)
            requires
                x == ((b0 as u64) << 56) | ((b1 as u64) << 48) | ((b2 as u64) << 40) | ((
                b3 as u64) << 32) | ((b4 as u64) << 24) | ((b5 as u64) << 16) | ((b6 as u64)
                    << 8) | (b7 as u64),
        ;
        assert(((x >> 32) & 0xff) as u8 == b3) by (bit_vector)
            requires
                x == ((b0 as u64) << 56) | ((b1 as u64) << 48) | ((b2 as u64) << 40) | ((
                b3 as u64) << 32) | ((b4 as u64) << 24) | ((b5 as u64) << 16) | ((b6 as u64)
                    << 8) | (b7 as u64),
        ;
        assert(((x >> 24) & 0xff) as u8 == b4) by (bit_vector)
            requires
                x == ((b0 as u64) << 56) | ((b1 as u64) << 48) | ((b2 as u64) << 40) | ((
                b3 as u64) << 32) | ((b4 as u64) << 24) | ((b5 as u64) << 16) | ((b6 as u64)
                    << 8) | (b7 as u64),
        ;
        assert(((x >> 16) & 0xff) as u8 == b5) by (bit_vector)
            requires
                x == ((b0 as u64) << 56) | ((b1 as u64) << 48) | ((b2 as u64) << 40) | ((
                b3 as u64) << 32) | ((b4 as u64) << 24) | ((b5 as u64) << 16) | ((b6 as u64)
                    << 8) | (b7 as u64),
        ;
        assert(((x >> 8) & 0xff) as u8 == b6) by (bit_vector)
            requires
                x == ((b0 as u64) << 56) | ((b1 as u64) << 48) | ((b2 as u64) << 40) | ((
                b3 as u64) << 32) | ((b4 as u64) << 24) | ((b5 as u64) << 16) | ((b6 as u64)
                    << 8) | (b7 as u64),
        ;
        assert((x & 0xff) as u8 == b7) by (bit_vector)
            requires
                x == ((b0 as u64) << 56) | ((b1 as u64) << 48) | ((b2 as u64) << 40) | ((
                b3 as u64) << 32) | ((b4 as u64) << 24) | ((b5 as u64) << 16) | ((b6 as u64)
                    << 8) | (b7 as u64),
        ;
        assert(be64(x) =~= bytes@.subrange(i as int, i as int + 8));
    }
    x
}

pub proof fn lemma_enc_list_snoc(es: Seq<Val>, x: Val)
    ensures
        enc_list(es.push(x)) == enc_list(es) + enc(x),
    decreases es,
{
    if es.len() == 0 {
        assert(es.push(x).drop_first() =~= Seq::<Val>::empty());
        assert(enc_list(es.push(x)) == enc(x) + enc_list(Seq::<Val>::empty()));
        assert(enc(x) + Seq::<u8>::empty() =~= enc(x));
        assert(enc_list(es) + enc(x) =~= enc(x));
    } else {
        assert(es.push(x).drop_first() =~= es.drop_first().push(x));
        lemma_enc_list_snoc(es.drop_first(), x);
        assert(enc_list(es.push(x)) == enc(es[0]) + (enc_list(es.drop_first()) + enc(x)));
        assert(enc(es[0]) + (enc_list(es.drop_first()) + enc(x)) =~= (enc(es[0]) + enc_list(
            es.drop_first(),
        )) + enc(x));
    }
}

pub proof fn lemma_enc_fields_snoc(fs: Seq<(Seq<char>, Val)>, k: Seq<char>, x: Val)
    ensures
        enc_fields(fs.push((k, x))) == enc_fields(fs) + str_unit(k) + enc(x),
    decreases fs,
{
    if fs.len() == 0 {
        assert(fs.push((k, x)).drop_first() =~= Seq::<(Seq<char>, Val)>::empty());
        assert(enc_fields(fs.push((k, x))) == str_unit(k) + enc(x) + enc_fields(
            Seq::<(Seq<char>, Val)>::empty(),
        ));
        assert(str_unit(k) + enc(x) + Seq::<u8>::empty() =~= str_unit(k) + enc(x));
        assert(enc_fields(fs) + str_unit(k) + enc(x) =~= str_unit(k) + enc(x));
    } else {
        assert(fs.push((k, x)).drop_first() =~= fs.drop_first().push((k, x)));
        lemma_enc_fields_snoc(fs.drop_first(), k, x);
        assert(enc_fields(fs.push((k, x))) == str_unit(fs[0].0) + enc(fs[0].1) + (enc_fields(
            fs.drop_first(),
        ) + str_unit(k) + enc(x)));
        assert(str_unit(fs[0].0) + enc(fs[0].1) + (enc_fields(fs.drop_first()) + str_unit(k)
            + enc(x)) =~= (str_unit(fs[0].0) + enc(fs[0].1) + enc_fields(fs.drop_first()))
            + str_unit(k) + enc(x));
    }
}

/// Relies on std's `String::from_utf8`: it succeeds exactly on valid UTF-8
/// input, and the returned string wraps exactly the given bytes.
#[verifier::external_body]
fn string_from_utf8(bytes: Vec<u8>) -> (r: Option<String>)
    ensures
        r is Some <==> valid_utf8(bytes@),
        r matches Some(s) ==> encode_utf8(s@) == bytes@,
{
    String::from_utf8(bytes).ok()
}

/// Append the one string unit that encodes `s` to `out`.
fn push_str_unit(out: &mut Vec<u8>, s: &str)
    ensures
        final(out)@ == old(out)@ + str_unit(s@),
        encode_utf8(s@).len() <= u64::MAX,
{
    let mut payload = s.as_bytes_vec();
    out.push(TAG_STR);
    push_be64(out, payload.len() as u64);
    out.append(&mut payload);
    proof {
        assert(out@ =~= old(out)@ + str_unit(s@));
    }
}

/// Append the encoding of `v` to `out`. Total: every variant encodes.
#[verifier::loop_isolation(false)]
fn encode_into(v: &Value, out: &mut Vec<u8>)
    ensures
        final(out)@ == old(out)@ + enc(v.dv()),
        wf(v.dv()),
    decreases v,
{
    match v {
        Value::Null => {
            out.push(TAG_NULL);
            proof {
                assert(out@ =~= old(out)@ + enc(v.dv()));
            }
        },
        Value::Bool(b) => {
            out.push(if *b {
                TAG_TRUE
            } else {
                TAG_FALSE
            });
            proof {
                assert(out@ =~= old(out)@ + enc(v.dv()));
            }
        },
        Value::Number(n) => {
            out.push(TAG_INT);
            push_be64(out, *n);
            proof {
                assert(out@ =~= old(out)@ + enc(v.dv()));
            }
        },
        Value::String(s) => {
            push_str_unit(out, s.as_str());
        },
        Value::Bytes(bs) => {
            let mut payload = slice_to_vec(bs.as_slice());
            out.push(TAG_BIN);
            push_be64(out, payload.len() as u64);
            out.append(&mut payload);
            proof {
                assert(out@ =~= old(out)@ + enc(v.dv()));
            }
        },
        Value::Array(elems) => {
            out.push(TAG_ARR);
            let n = elems.len();
            push_be64(out, n as u64);
            let ghost base = out@;
            let mut idx: usize = 0;
            while idx < n
                invariant
                    idx <= n,
                    n == elems@.len(),
                    out@ == base + enc_list(dv_seq(elems@.subrange(0, idx as int))),
                    forall|k: int| 0 <= k < idx ==> wf(#[trigger] elems@[k].dv()),
                decreases n - idx,
            {
                proof {
                    lemma_dv_seq_len(elems@.subrange(0, idx as int));
                    broadcast use vstd::std_specs::vec::group_vec_axioms;
                    broadcast use vstd::seq::group_seq_axioms;

                    let ghost es = *elems;
                    assert(*v == Value::Array(es));
                    assert(decreases_to!(Value::Array(es) => es));
                    assert(decreases_to!(*elems => elems@));
                    assert(decreases_to!(elems@ => elems@[idx as int]));
                }
                encode_into(&elems[idx], out);
                proof {
                    assert(elems@.subrange(0, idx + 1) =~= elems@.subrange(0, idx as int).push(
                        elems@[idx as int],
                    ));
                    crate::value::lemma_dv_seq_push(
                        elems@.subrange(0, idx as int),
                        elems@[idx as int],
                    );
                    lemma_enc_list_snoc(
                        dv_seq(elems@.subrange(0, idx as int)),
                        elems@[idx as int].dv(),
                    );
                    assert(out@ =~= base + enc_list(dv_seq(elems@.subrange(0, idx + 1))));
                }
                idx += 1;
            }
            proof {
                assert(elems@.subrange(0, n as int) =~= elems@);
                lemma_dv_seq_len(elems@);
                assert(out@ =~= old(out)@ + enc(v.dv()));
            }
        },
        Value::Object(fields) => {
            out.push(TAG_MAP);
            let n = fields.len();
            push_be64(out, n as u64);
            let ghost base = out@;
            let mut idx: usize = 0;
            while idx < n
                invariant
                    idx <= n,
                    n == fields@.len(),
                    out@ == base + enc_fields(dv_fields(fields@.subrange(0, idx as int))),
                    forall|k: int| 0 <= k < idx ==> wf(#[trigger] fields@[k].1.dv())
                        && encode_utf8(fields@[k].0@).len() <= u64::MAX,
                decreases n - idx,
            {
                proof {
                    lemma_dv_fields_len(fields@.subrange(0, idx as int));
                    broadcast use vstd::std_specs::vec::group_vec_axioms;
                    broadcast use vstd::seq::group_seq_axioms;

                    let ghost fs = *fields;
                    assert(*v == Value::Object(fs));
                    assert(decreases_to!(Value::Object(fs) => fs));
                    assert(decreases_to!(*fields => fields@));
                    assert(decreases_to!(fields@ => fields@[idx as int]));
                    assert(decreases_to!(fields@[idx as int] => fields@[idx as int].1));
                }
                let pair = &fields[idx];
                push_str_unit(out, pair.0.as_str());
                encode_into(&pair.1, out);
                proof {
                    assert(fields@.subrange(0, idx + 1) =~= fields@.subrange(0, idx as int).push(
                        fields@[idx as int],
                    ));
                    crate::value::lemma_dv_fields_push(
                        fields@.subrange(0, idx as int),
                        fields@[idx as int].0,
                        fields@[idx as int].1,
                    );
                    lemma_enc_fields_snoc(
                        dv_fields(fields@.subrange(0, idx as int)),
                        fields@[idx as int].0@,
                        fields@[idx as int].1.dv(),
                    );
                    assert(out@ =~= base + enc_fields(dv_fields(fields@.subrange(0, idx + 1))));
                }
                idx += 1;
            }
            proof {
                assert(fields@.subrange(0, n as int) =~= fields@);
                lemma_dv_fields_len(fields@);
                assert(out@ =~= old(out)@ + enc(v.dv()));
            }
        },
    }
}

/// What a prefix that encodes `m` forces on the bytes: the tag, the length
/// field, and the position of the payload.
pub proof fn lemma_enc_header(m: Val, b: Seq<u8>, i: int)
    requires
        prefix_at(b, i, enc(m)),
    ensures
        i + enc(m).len() <= b.len(),
        enc(m).len() >= 1,
        b[i] == tag_of(m),
        m matches Val::Int(x) ==> enc(m).len() == 9 && b.subrange(i + 1, i + 9) == be64(x),
        m matches Val::Str(cs) ==> enc(m).len() == 9 + encode_utf8(cs).len() && b.subrange(
            i + 1,
            i + 9,
        ) == be64(encode_utf8(cs).len() as u64) && prefix_at(b, i + 9, encode_utf8(cs)),
        m matches Val::Bin(bs) ==> enc(m).len() == 9 + bs.len() && b.subrange(i + 1, i + 9)
            == be64(bs.len() as u64) && prefix_at(b, i + 9, bs),
        m matches Val::Arr(es) ==> enc(m).len() == 9 + enc_list(es).len() && b.subrange(
            i + 1,
            i + 9,
        ) == be64(es.len() as u64) && prefix_at(b, i + 9, enc_list(es)),
        m matches Val::Obj(fs) ==> enc(m).len() == 9 + enc_fields(fs).len() && b.subrange(
            i + 1,
            i + 9,
        ) == be64(fs.len() as u64) && prefix_at(b, i + 9, enc_fields(fs)),
{
    lemma_enc_shape(m);
    assert(b.subrange(i, i + enc(m).len())[0] == b[i]);
    match m {
        Val::Null => {},
        Val::Bool(_) => {},
        Val::Int(x) => {
            lemma_prefix_at_concat(b, i, seq![TAG_INT], be64(x));
        },
        Val::Str(cs) => {
            lemma_prefix_at_concat(
                b,
                i,
                seq![TAG_STR] + be64(encode_utf8(cs).len() as u64),
                encode_utf8(cs),
            );
            lemma_prefix_at_concat(b, i, seq![TAG_STR], be64(encode_utf8(cs).len() as u64));
        },
        Val::Bin(bs) => {
            lemma_prefix_at_concat(b, i, seq![TAG_BIN] + be64(bs.len() as u64), bs);
            lemma_prefix_at_concat(b, i, seq![TAG_BIN], be64(bs.len() as u64));
        },
        Val::Arr(es) => {
            lemma_prefix_at_concat(b, i, seq![TAG_ARR] + be64(es.len() as u64), enc_list(es));
            lemma_prefix_at_concat(b, i, seq![TAG_ARR], be64(es.len() as u64));
        },
        Val::Obj(fs) => {
            lemma_prefix_at_concat(b, i, seq![TAG_MAP] + be64(fs.len() as u64), enc_fields(fs));
            lemma_prefix_at_concat(b, i, seq![TAG_MAP], be64(fs.len() as u64));
        },
    }
}

/// Two well-formed values whose encodings open at the same position of the
/// same byte sequence are the same value: the wire form is unambiguous.
pub proof fn lemma_enc_prefix_free(m1: Val, m2: Val, b: Seq<u8>, i: int)
    requires
        wf(m1),
        wf(m2),
        prefix_at(b, i, enc(m1)),
        prefix_at(b, i, enc(m2)),
    ensures
        m1 == m2,
    decreases m1,
{
    lemma_enc_header(m1, b, i);
    lemma_enc_header(m2, b, i);
    match m1 {
        Val::Null => {
            assert(tag_of(m2) == TAG_NULL);
        },
        Val::Bool(x) => {
            match m2 {
                Val::Bool(y) => {
                    assert(tag_of(m1) == tag_of(m2));
                },
                _ => {
                    assert(false);
                },
            }
        },
        Val::Int(x) => {
            match m2 {
                Val::Int(y) => {
                    lemma_be64_injective(x, y);
                },
                _ => {
                    assert(false);
                },
            }
        },
        Val::Str(c1) => {
            match m2 {
                Val::Str(c2) => {
                    lemma_str_payload_equal(c1, c2, b, i);
                },
                _ => {
                    assert(false);
                },
            }
        },
        Val::Bin(b1) => {
            match m2 {
                Val::Bin(b2) => {
                    lemma_be64_injective(b1.len() as u64, b2.len() as u64);
                    assert(b1.len() == b2.len());
                    assert(b1 =~= b.subrange(i + 9, i + 9 + b1.len()));
                    assert(b2 =~= b.subrange(i + 9, i + 9 + b2.len()));
                },
                _ => {
                    assert(false);
                },
            }
        },
        Val::Arr(e1) => {
            match m2 {
                Val::Arr(e2) => {
                    lemma_be64_injective(e1.len() as u64, e2.len() as u64);
                    assert(e1.len() == e2.len());
                    lemma_enc_list_prefix_free(e1, e2, b, i + 9);
                },
                _ => {
                    assert(false);
                },
            }
        },
        Val::Obj(f1) => {
            match m2 {
                Val::Obj(f2) => {
                    lemma_be64_injective(f1.len() as u64, f2.len() as u64);
                    assert(f1.len() == f2.len());
                    lemma_enc_fields_prefix_free(f1, f2, b, i + 9);
                },
                _ => {
                    assert(false);
                },
            }
        },
    }
}

/// Two string units of equal position carry the same characters.
proof fn lemma_str_payload_equal(c1: Seq<char>, c2: Seq<char>, b: Seq<u8>, i: int)
    requires
        encode_utf8(c1).len() <= u64::MAX,
        encode_utf8(c2).len() <= u64::MAX,
        prefix_at(b, i, str_unit(c1)),
        prefix_at(b, i, str_unit(c2)),
    ensures
        c1 == c2,
{
    lemma_enc_header(Val::Str(c1), b, i);
    lemma_enc_header(Val::Str(c2), b, i);
    lemma_be64_injective(encode_utf8(c1).len() as u64, encode_utf8(c2).len() as u64);
    assert(encode_utf8(c1).len() == encode_utf8(c2).len());
    assert(encode_utf8(c1) =~= b.subrange(i + 9, i + 9 + encode_utf8(c1).len()));
    assert(encode_utf8(c2) =~= b.subrange(i + 9, i + 9 + encode_utf8(c2).len()));
    encode_utf8_decode_utf8(c1);
    encode_utf8_decode_utf8(c2);
}

proof fn lemma_enc_list_prefix_free(e1: Seq<Val>, e2: Seq<Val>, b: Seq<u8>, j: int)
    requires
        e1.len() == e2.len(),
        forall|k: int| 0 <= k < e1.len() ==> wf(#[trigger] e1[k]),
        forall|k: int| 0 <= k < e2.len() ==> wf(#[trigger] e2[k]),
        prefix_at(b, j, enc_list(e1)),
        prefix_at(b, j, enc_list(e2)),
    ensures
        e1 == e2,
    decreases e1,
{
    if e1.len() == 0 {
        assert(e1 =~= e2);
    } else {
        lemma_prefix_at_concat(b, j, enc(e1[0]), enc_list(e1.drop_first()));
        lemma_prefix_at_concat(b, j, enc(e2[0]), enc_list(e2.drop_first()));
        lemma_enc_prefix_free(e1[0], e2[0], b, j);
        lemma_enc_list_prefix_free(
            e1.drop_first(),
            e2.drop_first(),
            b,
            j + enc(e1[0]).len(),
        );
        assert forall|k: int| 0 <= k < e1.len() implies e1[k] == e2[k] by {
            if k > 0 {
                assert(e1.drop_first()[k - 1] == e2.drop_first()[k - 1]);
            }
        }
        assert(e1 =~= e2);
    }
}

proof fn lemma_enc_fields_prefix_free(
    f1: Seq<(Seq<char>, Val)>,
    f2: Seq<(Seq<char>, Val)>,
    b: Seq<u8>,
    j: int,
)
    requires
        f1.len() == f2.len(),
        forall|k: int|
            0 <= k < f1.len() ==> wf(#[trigger] f1[k].1) && encode_utf8(f1[k].0).len()
                <= u64::MAX,
        forall|k: int|
            0 <= k < f2.len() ==> wf(#[trigger] f2[k].1) && encode_utf8(f2[k].0).len()
                <= u64::MAX,
        prefix_at(b, j, enc_fields(f1)),
        prefix_at(b, j, enc_fields(f2)),
    ensures
        f1 == f2,
    decreases f1,
{
    if f1.len() == 0 {
        assert(f1 =~= f2);
    } else {
        lemma_prefix_at_concat(
            b,
            j,
            str_unit(f1[0].0) + enc(f1[0].1),
            enc_fields(f1.drop_first()),
        );
        lemma_prefix_at_concat(b, j, str_unit(f1[0].0), enc(f1[0].1));
        lemma_prefix_at_concat(
            b,
            j,
            str_unit(f2[0].0) + enc(f2[0].1),
            enc_fields(f2.drop_first()),
        );
        lemma_prefix_at_concat(b, j, str_unit(f2[0].0), enc(f2[0].1));
        lemma_str_payload_equal(f1[0].0, f2[0].0, b, j);
        lemma_enc_prefix_free(f1[0].1, f2[0].1, b, j + str_unit(f1[0].0).len());
        lemma_enc_fields_prefix_free(
            f1.drop_first(),
            f2.drop_first(),
            b,
            j + str_unit(f1[0].0).len() + enc(f1[0].1).len(),
        );
        assert forall|k: int| 0 <= k < f1.len() implies f1[k] == f2[k] by {
            if k > 0 {
                assert(f1.drop_first()[k - 1] == f2.drop_first()[k - 1]);
            }
        }
        assert(f1 =~= f2);
    }
}

/// A run of already-decoded values pins down the first elements of any
/// encoded list that opens at the same position, and leaves the rest of that
/// list right after the run.
proof fn lemma_enc_list_align(es: Seq<Val>, done: Seq<Val>, b: Seq<u8>, p: int, c: int)
    requires
        forall|k: int| 0 <= k < es.len() ==> wf(#[trigger] es[k]),
        forall|k: int| 0 <= k < done.len() ==> wf(#[trigger] done[k]),
        done.len() <= es.len(),
        prefix_at(b, p, enc_list(es)),
        c == p + enc_list(done).len(),
        c <= b.len(),
        b.subrange(p, c) == enc_list(done),
    ensures
        forall|k: int| 0 <= k < done.len() ==> es[k] == done[k],
        prefix_at(b, c, enc_list(es.skip(done.len() as int))),
    decreases done.len(),
{
    if done.len() == 0 {
        assert(es.skip(0) =~= es);
    } else {
        lemma_prefix_at_concat(b, p, enc(es[0]), enc_list(es.drop_first()));
        assert(prefix_at(b, p, enc_list(done)));
        lemma_prefix_at_concat(b, p, enc(done[0]), enc_list(done.drop_first()));
        lemma_enc_prefix_free(es[0], done[0], b, p);
        let w = enc(done[0]).len() as int;
        assert(b.subrange(p + w, c) =~= enc_list(done.drop_first())) by {
            assert(b.subrange(p, c) == enc(done[0]) + enc_list(done.drop_first()));
            assert forall|t: int| 0 <= t < enc_list(done.drop_first()).len() implies b.subrange(
                p + w,
                c,
            )[t] == enc_list(done.drop_first())[t] by {
                assert(b.subrange(p, c)[w + t] == b[p + w + t]);
                assert((enc(done[0]) + enc_list(done.drop_first()))[w + t] == enc_list(
                    done.drop_first(),
                )[t]);
            }
        }
        lemma_enc_list_align(es.drop_first(), done.drop_first(), b, p + w, c);
        assert(es.drop_first().skip(done.len() - 1) =~= es.skip(done.len() as int));
        assert forall|k: int| 0 <= k < done.len() implies es[k] == done[k] by {
            if k > 0 {
                assert(es.drop_first()[k - 1] == done.drop_first()[k - 1]);
            }
        }
    }
}

/// The same alignment statement for map entries.
proof fn lemma_enc_fields_align(
    fs: Seq<(Seq<char>, Val)>,
    done: Seq<(Seq<char>, Val)>,
    b: Seq<u8>,
    p: int,
    c: int,
)
    requires
        forall|k: int|
            0 <= k < fs.len() ==> wf(#[trigger] fs[k].1) && encode_utf8(fs[k].0).len()
                <= u64::MAX,
        forall|k: int|
            0 <= k < done.len() ==> wf(#[trigger] done[k].1) && encode_utf8(done[k].0).len()
                <= u64::MAX,
        done.len() <= fs.len(),
        prefix_at(b, p, enc_fields(fs)),
        c == p + enc_fields(done).len(),
        c <= b.len(),
        b.subrange(p, c) == enc_fields(done),
    ensures
        forall|k: int| 0 <= k < done.len() ==> fs[k] == done[k],
        prefix_at(b, c, enc_fields(fs.skip(done.len() as int))),
    decreases done.len(),
{
    if done.len() == 0 {
        assert(fs.skip(0) =~= fs);
    } else {
        lemma_prefix_at_concat(
            b,
            p,
            str_unit(fs[0].0) + enc(fs[0].1),
            enc_fields(fs.drop_first()),
        );
        lemma_prefix_at_concat(b, p, str_unit(fs[0].0), enc(fs[0].1));
        assert(prefix_at(b, p, enc_fields(done)));
        lemma_prefix_at_concat(
            b,
            p,
            str_unit(done[0].0) + enc(done[0].1),
            enc_fields(done.drop_first()),
        );
        lemma_prefix_at_concat(b, p, str_unit(done[0].0), enc(done[0].1));
        lemma_str_payload_equal(fs[0].0, done[0].0, b, p);
        lemma_enc_prefix_free(fs[0].1, done[0].1, b, p + str_unit(done[0].0).len());
        let w = (str_unit(done[0].0) + enc(done[0].1)).len() as int;
        assert(b.subrange(p + w, c) =~= enc_fields(done.drop_first())) by {
            assert(b.subrange(p, c) == (str_unit(done[0].0) + enc(done[0].1)) + enc_fields(
                done.drop_first(),
            )) by {
                assert(enc_fields(done) =~= (str_unit(done[0].0) + enc(done[0].1)) + enc_fields(
                    done.drop_first(),
                ));
            }
            assert forall|t: int| 0 <= t < enc_fields(done.drop_first()).len() implies b.subrange(
                p + w,
                c,
            )[t] == enc_fields(done.drop_first())[t] by {
                assert(b.subrange(p, c)[w + t] == b[p + w + t]);
                assert(((str_unit(done[0].0) + enc(done[0].1)) + enc_fields(done.drop_first()))[w
                    + t] == enc_fields(done.drop_first())[t]);
            }
        }
        lemma_enc_fields_align(fs.drop_first(), done.drop_first(), b, p + w, c);
        assert(fs.drop_first().skip(done.len() - 1) =~= fs.skip(done.len() as int));
        assert forall|k: int| 0 <= k < done.len() implies fs[k] == done[k] by {
            if k > 0 {
                assert(fs.drop_first()[k - 1] == done.drop_first()[k - 1]);
            }
        }
    }
}

/// Inside a partially decoded map unit, any well-formed value encoded at the
/// unit's start must be a map that agrees with the entries decoded so far
/// and whose next entry — a string key, then a value — opens at the cursor.
proof fn lemma_map_progress(
    bytes: Seq<u8>,
    start: int,
    n: u64,
    done: Seq<(Seq<char>, Val)>,
    cursor: int,
    m: Val,
)
    requires
        0 <= start,
        start + 9 <= bytes.len(),
        bytes[start] == TAG_MAP,
        bytes.subrange(start + 1, start + 9) == be64(n),
        start + 9 <= cursor <= bytes.len(),
        bytes.subrange(start + 9, cursor) == enc_fields(done),
        forall|k: int|
            0 <= k < done.len() ==> wf(#[trigger] done[k].1) && encode_utf8(done[k].0).len()
                <= u64::MAX,
        done.len() < n,
        wf(m),
        prefix_at(bytes, start, enc(m)),
    ensures
        m matches Val::Obj(fs) && {
            let entry = fs.skip(done.len() as int)[0];
            &&& fs.len() == n
            &&& done.len() < fs.len()
            &&& prefix_at(bytes, cursor, enc(Val::Str(entry.0)))
            &&& encode_utf8(entry.0).len() <= u64::MAX
            &&& prefix_at(bytes, cursor + str_unit(entry.0).len(), enc(entry.1))
            &&& wf(entry.1)
        },
{
    lemma_enc_header(m, bytes, start);
    match m {
        Val::Obj(fs) => {
            lemma_be64_injective(fs.len() as u64, n);
            assert(fs.len() == n);
            lemma_enc_fields_align(fs, done, bytes, start + 9, cursor);
            let rest = fs.skip(done.len() as int);
            assert(rest.len() > 0);
            lemma_prefix_at_concat(
                bytes,
                cursor,
                str_unit(rest[0].0) + enc(rest[0].1),
                enc_fields(rest.drop_first()),
            );
            lemma_prefix_at_concat(bytes, cursor, str_unit(rest[0].0), enc(rest[0].1));
        },
        _ => {
            assert(false);
        },
    }
}

/// Encode a value to its wire bytes. Total: every constructible value has a
/// defined encoding, and the result is exactly the model encoding of the
/// value.
pub fn encode(v: &Value) -> (r: Vec<u8>)
    ensures
        r@ == enc(v.dv()),
        wf(v.dv()),
{
    let mut out: Vec<u8> = Vec::new();
    encode_into(v, &mut out);
    out
}

/// Parse one value whose encoding opens at `start`. On success the consumed
/// range is exactly the encoding of the returned value; on failure no
/// well-formed value has its encoding there.
#[verifier::loop_isolation(false)]
#[verifier::rlimit(60)]
fn parse_value(bytes: &[u8], start: usize) -> (r: Result<(Value, usize), Error>)
    requires
        start <= bytes@.len(),
    ensures
        r matches Ok(p) ==> start < p.1 <= bytes@.len() && wf(p.0.dv()) && bytes@.subrange(
            start as int,
            p.1 as int,
        ) == enc(p.0.dv()),
        r is Err ==> forall|m: Val| wf(m) ==> !prefix_at(bytes@, start as int, enc(m)),
    decreases bytes@.len() - start, 1int,
{
    let len = bytes.len();
    if start >= len {
        proof {
            assert forall|m: Val| wf(m) implies !prefix_at(bytes@, start as int, enc(m)) by {
                if prefix_at(bytes@, start as int, enc(m)) {
                    lemma_enc_shape(m);
                }
            }
        }
        return Err(Error::UnexpectedEnd);
    }
    let tag = *vstd::slice::slice_index_get(bytes, start);
    proof {
        assert forall|m: Val| wf(m) && prefix_at(bytes@, start as int, enc(m)) implies tag_of(m)
            == tag by {
            lemma_enc_header(m, bytes@, start as int);
        }
    }
    if tag == TAG_NULL {
        proof {
            assert(bytes@.subrange(start as int, start + 1) =~= enc(Val::Null));
        }
        return Ok((Value::Null, start + 1));
    }
    if tag == TAG_TRUE {
        proof {
            assert(bytes@.subrange(start as int, start + 1) =~= enc(Val::Bool(true)));
        }
        return Ok((Value::Bool(true), start + 1));
    }
    if tag == TAG_FALSE {
        proof {
            assert(bytes@.subrange(start as int, start + 1) =~= enc(Val::Bool(false)));
        }
        return Ok((Value::Bool(false), start + 1));
    }
    if tag == TAG_INT {
        if len - start < 9 {
            proof {
                assert forall|m: Val| wf(m) implies !prefix_at(bytes@, start as int, enc(m)) by {
                    if prefix_at(bytes@, start as int, enc(m)) {
                        lemma_enc_header(m, bytes@, start as int);
                    }
                }
            }
            return Err(Error::UnexpectedEnd);
        }
        let x = read_be64(bytes, start + 1);
        proof {
            assert(prefix_at(bytes@, start as int, seq![TAG_INT])) by {
                assert(bytes@.subrange(start as int, start + 1) =~= seq![TAG_INT]);
            }
            lemma_prefix_at_join(bytes@, start as int, seq![TAG_INT], be64(x));
            assert(bytes@.subrange(start as int, start + 9) == enc(Val::Int(x)));
        }
        return Ok((Value::Number(x), start + 9));
    }
    if tag == TAG_STR || tag == TAG_BIN {
        if len - start < 9 {
            proof {
                assert forall|m: Val| wf(m) implies !prefix_at(bytes@, start as int, enc(m)) by {
                    if prefix_at(bytes@, start as int, enc(m)) {
                        lemma_enc_header(m, bytes@, start as int);
                    }
                }
            }
            return Err(Error::UnexpectedEnd);
        }
        let l64 = read_be64(bytes, start + 1);
        let avail = len - (start + 9);
        if l64 > avail as u64 {
            proof {
                assert forall|m: Val| wf(m) implies !prefix_at(bytes@, start as int, enc(m)) by {
                    if prefix_at(bytes@, start as int, enc(m)) {
                        lemma_enc_header(m, bytes@, start as int);
                        match m {
                            Val::Str(cs) => {
                                lemma_be64_injective(encode_utf8(cs).len() as u64, l64);
                            },
                            Val::Bin(bs) => {
                                lemma_be64_injective(bs.len() as u64, l64);
                            },
                            _ => {},
                        }
                    }
                }
            }
            return Err(Error::UnexpectedEnd);
        }
        let pl = l64 as usize;
        let payload = slice_subrange(bytes, start + 9, start + 9 + pl);
        proof {
            assert(prefix_at(bytes@, start as int, seq![tag])) by {
                assert(bytes@.subrange(start as int, start + 1) =~= seq![tag]);
            }
            lemma_prefix_at_join(bytes@, start as int, seq![tag], be64(l64));
            lemma_prefix_at_join(bytes@, start as int, seq![tag] + be64(l64), payload@);
        }
        if tag == TAG_BIN {
            let v = Value::Bytes(slice_to_vec(payload));
            proof {
                assert(bytes@.subrange(start as int, start + 9 + pl) == enc(v.dv()));
            }
            return Ok((v, start + 9 + pl));
        }
        match string_from_utf8(slice_to_vec(payload)) {
            Option::None => {
                proof {
                    assert forall|m: Val| wf(m) implies !prefix_at(
                        bytes@,
                        start as int,
                        enc(m),
                    ) by {
                        if prefix_at(bytes@, start as int, enc(m)) {
                            lemma_enc_header(m, bytes@, start as int);
                            match m {
                                Val::Str(cs) => {
                                    lemma_be64_injective(encode_utf8(cs).len() as u64, l64);
                                    assert(encode_utf8(cs) =~= payload@);
                                    encode_utf8_valid_utf8(cs);
                                },
                                _ => {},
                            }
                        }
                    }
                }
                return Err(Error::InvalidUtf8);
            },
            Option::Some(s) => {
                let v = Value::String(s);
                proof {
                    assert(bytes@.subrange(start as int, start + 9 + pl) == enc(v.dv()));
                }
                return Ok((v, start + 9 + pl));
            },
        }
    }
    if tag == TAG_ARR {
        if len - start < 9 {
            proof {
                assert forall|m: Val| wf(m) implies !prefix_at(bytes@, start as int, enc(m)) by {
                    if prefix_at(bytes@, start as int, enc(m)) {
                        lemma_enc_header(m, bytes@, start as int);
                    }
                }
            }
            return Err(Error::UnexpectedEnd);
        }
        return parse_array(bytes, start);
    }
    if tag == TAG_MAP {
        if len - start < 9 {
            proof {
                assert forall|m: Val| wf(m) implies !prefix_at(bytes@, start as int, enc(m)) by {
                    if prefix_at(bytes@, start as int, enc(m)) {
                        lemma_enc_header(m, bytes@, start as int);
                    }
                }
            }
            return Err(Error::UnexpectedEnd);
        }
        return parse_map(bytes, start);
    }
    proof {
        assert forall|m: Val| wf(m) implies !prefix_at(bytes@, start as int, enc(m)) by {
            if prefix_at(bytes@, start as int, enc(m)) {
                assert(tag_of(m) == TAG_NULL || tag_of(m) == TAG_TRUE || tag_of(m) == TAG_FALSE
                    || tag_of(m) == TAG_INT || tag_of(m) == TAG_STR || tag_of(m) == TAG_BIN
                    || tag_of(m) == TAG_ARR || tag_of(m) == TAG_MAP);
            }
        }
    }
    Err(Error::UnknownTag)
}

/// Parse one array unit opening at `start`; the marker has been checked.
#[verifier::loop_isolation(false)]
#[verifier::rlimit(100)]
fn parse_array(bytes: &[u8], start: usize) -> (r: Result<(Value, usize), Error>)
    requires
        start + 9 <= bytes@.len(),
        bytes@[start as int] == TAG_ARR,
    ensures
        r matches Ok(p) ==> start < p.1 <= bytes@.len() && wf(p.0.dv()) && bytes@.subrange(
            start as int,
            p.1 as int,
        ) == enc(p.0.dv()),
        r is Err ==> forall|m: Val| wf(m) ==> !prefix_at(bytes@, start as int, enc(m)),
    decreases bytes@.len() - start, 0int,
{
    let len = bytes.len();
    proof {
        assert forall|m: Val| wf(m) && prefix_at(bytes@, start as int, enc(m)) implies tag_of(m)
            == TAG_ARR by {
            lemma_enc_header(m, bytes@, start as int);
        }
    }
    {
        let n = read_be64(bytes, start + 1);
        let mut elems: Vec<Value> = Vec::new();
        let mut cursor = start + 9;
        let mut i: u64 = 0;
        while i < n
            invariant
                start + 9 <= cursor <= len,
                i <= n,
                elems@.len() == i,
                cursor >= start + 9 + i,
                bytes@.subrange(start + 9, cursor as int) == enc_list(dv_seq(elems@)),
                forall|k: int| 0 <= k < elems@.len() ==> wf(#[trigger] elems@[k].dv()),
            decreases n - i,
        {
            proof {
                lemma_dv_seq_len(elems@);
            }
            match parse_value(bytes, cursor) {
                Result::Err(e) => {
                    proof {
                        assert forall|m: Val| wf(m) implies !prefix_at(
                            bytes@,
                            start as int,
                            enc(m),
                        ) by {
                            if prefix_at(bytes@, start as int, enc(m)) {
                                lemma_enc_header(m, bytes@, start as int);
                                match m {
                                    Val::Arr(es) => {
                                        lemma_be64_injective(es.len() as u64, n);
                                        assert(es.len() == n);
                                        lemma_enc_list_align(
                                            es,
                                            dv_seq(elems@),
                                            bytes@,
                                            start + 9,
                                            cursor as int,
                                        );
                                        let rest = es.skip(i as int);
                                        assert(rest.len() > 0);
                                        lemma_prefix_at_concat(
                                            bytes@,
                                            cursor as int,
                                            enc(rest[0]),
                                            enc_list(rest.drop_first()),
                                        );
                                        assert(wf(rest[0]));
                                        assert(false);
                                    },
                                    _ => {},
                                }
                            }
                        }
                    }
                    return Err(e);
                },
                Result::Ok((v, end)) => {
                    proof {
                        let ghost prev = elems@;
                        let ghost vd = v.dv();
                        crate::value::lemma_dv_seq_push(prev, v);
                        lemma_enc_list_snoc(dv_seq(prev), vd);
                        assert(bytes@.subrange(start + 9, end as int) =~= bytes@.subrange(
                            start + 9,
                            cursor as int,
                        ) + bytes@.subrange(cursor as int, end as int));
                    }
                    elems.push(v);
                    cursor = end;
                    i = i + 1;
                },
            }
        }
        let v = Value::Array(elems);
        proof {
            match &v {
                Value::Array(es) => {
                    lemma_dv_seq_len(es@);
                    assert(prefix_at(bytes@, start as int, seq![TAG_ARR])) by {
                        assert(bytes@.subrange(start as int, start + 1) =~= seq![TAG_ARR]);
                    }
                    lemma_prefix_at_join(bytes@, start as int, seq![TAG_ARR], be64(n));
                    lemma_prefix_at_join(
                        bytes@,
                        start as int,
                        seq![TAG_ARR] + be64(n),
                        enc_list(dv_seq(es@)),
                    );
                    assert(bytes@.subrange(start as int, cursor as int) == enc(v.dv()));
                },
                _ => {},
            }
        }
        return Ok((v, cursor));
    }
}

/// Parse one map unit opening at `start`; the marker has been checked.
#[verifier::loop_isolation(false)]
#[verifier::rlimit(100)]
fn parse_map(bytes: &[u8], start: usize) -> (r: Result<(Value, usize), Error>)
    requires
        start + 9 <= bytes@.len(),
        bytes@[start as int] == TAG_MAP,
    ensures
        r matches Ok(p) ==> start < p.1 <= bytes@.len() && wf(p.0.dv()) && bytes@.subrange(
            start as int,
            p.1 as int,
        ) == enc(p.0.dv()),
        r is Err ==> forall|m: Val| wf(m) ==> !prefix_at(bytes@, start as int, enc(m)),
    decreases bytes@.len() - start, 0int,
{
    let len = bytes.len();
    proof {
        assert forall|m: Val| wf(m) && prefix_at(bytes@, start as int, enc(m)) implies tag_of(m)
            == TAG_MAP by {
            lemma_enc_header(m, bytes@, start as int);
        }
    }
    {
        let n = read_be64(bytes, start + 1);
        let mut fields: Vec<(String, Value)> = Vec::new();
        let mut cursor = start + 9;
        let mut i: u64 = 0;
        while i < n
            invariant
                start + 9 <= cursor <= len,
                i <= n,
                fields@.len() == i,
                cursor >= start + 9 + i,
                bytes@.subrange(start + 9, cursor as int) == enc_fields(dv_fields(fields@)),
                forall|k: int|
                    0 <= k < fields@.len() ==> wf(#[trigger] fields@[k].1.dv()) && encode_utf8(
                        fields@[k].0@,
                    ).len() <= u64::MAX,
            decreases n - i,
        {
            proof {
                lemma_dv_fields_len(fields@);
            }
            let kr = parse_value(bytes, cursor);
            proof {
                if kr is Err {
                    assert forall|m: Val| wf(m) implies !prefix_at(
                        bytes@,
                        start as int,
                        enc(m),
                    ) by {
                        if prefix_at(bytes@, start as int, enc(m)) {
                            lemma_map_progress(
                                bytes@,
                                start as int,
                                n,
                                dv_fields(fields@),
                                cursor as int,
                                m,
                            );
                            match m {
                                Val::Obj(fs) => {
                                    let entry = fs.skip(i as int)[0];
                                    assert(wf(Val::Str(entry.0)));
                                    assert(prefix_at(bytes@, cursor as int, enc(Val::Str(
                                        entry.0,
                                    ))));
                                    assert(false);
                                },
                                _ => {},
                            }
                        }
                    }
                }
            }
            let (kv, kend) = match kr {
                Result::Err(e) => {
                    return Err(e);
                },
                Result::Ok(p) => p,
            };
            proof {
                assert forall|m: Val|
                    wf(m) && prefix_at(bytes@, start as int, enc(m)) implies m matches Val::Obj(
                    fs,
                ) && fs.len() == n && kv.dv() == Val::Str(fs.skip(i as int)[0].0) && prefix_at(
                    bytes@,
                    kend as int,
                    enc(fs.skip(i as int)[0].1),
                ) && wf(fs.skip(i as int)[0].1) by {
                    lemma_map_progress(
                        bytes@,
                        start as int,
                        n,
                        dv_fields(fields@),
                        cursor as int,
                        m,
                    );
                    match m {
                        Val::Obj(fs) => {
                            let rest = fs.skip(i as int);
                            assert(prefix_at(bytes@, cursor as int, enc(kv.dv()))) by {
                                assert(bytes@.subrange(cursor as int, kend as int) == enc(
                                    kv.dv(),
                                ));
                            }
                            lemma_enc_prefix_free(
                                Val::Str(rest[0].0),
                                kv.dv(),
                                bytes@,
                                cursor as int,
                            );
                        },
                        _ => {},
                    }
                }
            }
            let key = match kv {
                Value::String(s) => s,
                kv_other => {
                    proof {
                        assert forall|m: Val| wf(m) implies !prefix_at(
                            bytes@,
                            start as int,
                            enc(m),
                        ) by {
                            if prefix_at(bytes@, start as int, enc(m)) {
                                assert(kv_other.dv() matches Val::Str(_));
                                assert(false);
                            }
                        }
                    }
                    return Err(Error::NonStringKey);
                },
            };
            let vr = parse_value(bytes, kend);
            proof {
                if vr is Err {
                    assert forall|m: Val| wf(m) implies !prefix_at(
                        bytes@,
                        start as int,
                        enc(m),
                    ) by {
                        if prefix_at(bytes@, start as int, enc(m)) {
                            assert(false);
                        }
                    }
                }
            }
            let (vv, vend) = match vr {
                Result::Err(e) => {
                    return Err(e);
                },
                Result::Ok(p) => p,
            };
            proof {
                let ghost prev = fields@;
                let ghost kd = key@;
                let ghost vd = vv.dv();
                crate::value::lemma_dv_fields_push(prev, key, vv);
                lemma_enc_fields_snoc(dv_fields(prev), kd, vd);
                assert(bytes@.subrange(start + 9, vend as int) =~= bytes@.subrange(
                    start + 9,
                    cursor as int,
                ) + bytes@.subrange(cursor as int, kend as int) + bytes@.subrange(
                    kend as int,
                    vend as int,
                ));
            }
            fields.push((key, vv));
            cursor = vend;
            i = i + 1;
        }
        let v = Value::Object(fields);
        proof {
            match &v {
                Value::Object(fs) => {
                    lemma_dv_fields_len(fs@);
                    assert(prefix_at(bytes@, start as int, seq![TAG_MAP])) by {
                        assert(bytes@.subrange(start as int, start + 1) =~= seq![TAG_MAP]);
                    }
                    lemma_prefix_at_join(bytes@, start as int, seq![TAG_MAP], be64(n));
                    lemma_prefix_at_join(
                        bytes@,
                        start as int,
                        seq![TAG_MAP] + be64(n),
                        enc_fields(dv_fields(fs@)),
                    );
                    assert(bytes@.subrange(start as int, cursor as int) == enc(v.dv()));
                },
                _ => {},
            }
        }
        return Ok((v, cursor));
    }
}

/// Decode one wire unit. Succeeds exactly when the whole input is the
/// encoding of some well-formed value, and then returns that value: together
/// with [`encode`], decoding an encoded value gives the value back.
pub fn decode(bytes: &[u8]) -> (r: Result<Value, Error>)
    ensures
        r matches Ok(v) ==> wf(v.dv()) && bytes@ == enc(v.dv()),
        r is Err ==> forall|m: Val| wf(m) ==> bytes@ != enc(m),
{
    let len = bytes.len();
    match parse_value(bytes, 0) {
        Result::Err(e) => {
            proof {
                assert forall|m: Val| wf(m) implies bytes@ != enc(m) by {
                    if bytes@ == enc(m) {
                        assert(bytes@.subrange(0, enc(m).len() as int) =~= enc(m));
                    }
                }
            }
            Err(e)
        },
        Result::Ok((v, end)) => {
            if end == len {
                proof {
                    assert(bytes@.subrange(0, len as int) =~= bytes@);
                }
                Ok(v)
            } else {
                proof {
                    assert forall|m: Val| wf(m) implies bytes@ != enc(m) by {
                        if bytes@ == enc(m) {
                            assert(prefix_at(bytes@, 0, enc(m))) by {
                                assert(bytes@.subrange(0, enc(m).len() as int) =~= enc(m));
                            }
                            assert(prefix_at(bytes@, 0, enc(v.dv()))) by {
                                assert(bytes@.subrange(0, end as int) == enc(v.dv()));
                            }
                            lemma_enc_prefix_free(m, v.dv(), bytes@, 0);
                        }
                    }
                }
                Err(Error::TrailingBytes)
            }
        },
    }
}

/// No two distinct well-formed values share an encoding: what `decode`
/// returns is the only value `encode` could have produced the input from.
pub proof fn lemma_codec_injective(m1: Val, m2: Val)
    requires
        wf(m1),
        wf(m2),
        enc(m1) == enc(m2),
    ensures
        m1 == m2,
{
    let b = enc(m1);
    assert(prefix_at(b, 0, enc(m1))) by {
        assert(b.subrange(0, enc(m1).len() as int) =~= enc(m1));
    }
    assert(prefix_at(b, 0, enc(m2))) by {
        assert(b.subrange(0, enc(m2).len() as int) =~= enc(m2));
    }
    lemma_enc_prefix_free(m1, m2, b, 0);
}

} // verus!
