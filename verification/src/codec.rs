//! The payload codec: every [`Message`](crate::message::Message) is
//! encoded as one binary item and decoded back, and decoding inverts
//! encoding.
//!
//! An item is written in canonical concise binary object representation:
//! unsigned and negative integers (major types 0 and 1), byte strings
//! (major type 2), text strings (major type 3, UTF-8), arrays (major
//! type 4), and the simple values false, true and null. A message is the
//! array `[discriminator, field, ...]`; the discriminator equals the
//! frame tag of the variant, `InsertOpe` and `CountResponse` taking the
//! extended tags 17 and 18.

use vstd::prelude::*;
use crate::cbor::{
    spec_header, spec_dec_header, lemma_header_round_trip, lemma_header_len, push_header,
    read_header, pow256, lemma_pow256_vals, lemma_be_bytes_len,
};
use vstd::utf8::{encode_utf8, decode_utf8, valid_utf8};

verus! {

/// Splitting a concatenation found inside a byte sequence.
pub proof fn lemma_concat_at(b: Seq<u8>, pos: int, e1: Seq<u8>, e2: Seq<u8>)
    requires
        0 <= pos,
        pos + e1.len() + e2.len() <= b.len(),
        b.subrange(pos, pos + e1.len() + e2.len()) == e1 + e2,
    ensures
        b.subrange(pos, pos + e1.len() as int) == e1,
        b.subrange(pos + e1.len() as int, pos + e1.len() + e2.len()) == e2,
{
    assert forall|i: int| 0 <= i < e1.len() implies b.subrange(pos, pos + e1.len() as int)[i]
        == e1[i] by {
        assert(b.subrange(pos, pos + e1.len() + e2.len())[i] == (e1 + e2)[i]);
        assert((e1 + e2)[i] == e1[i]);
    }
    assert(b.subrange(pos, pos + e1.len() as int) =~= e1);
    assert forall|i: int|
        0 <= i < e2.len() implies b.subrange(pos + e1.len() as int, pos + e1.len() + e2.len())[i]
        == e2[i] by {
        assert(b.subrange(pos, pos + e1.len() + e2.len())[e1.len() + i] == (e1 + e2)[e1.len() + i]);
        assert((e1 + e2)[e1.len() + i] == e2[i]);
    }
    assert(b.subrange(pos + e1.len() as int, pos + e1.len() + e2.len()) =~= e2);
}

// ---------------------------------------------------------------------
// unsigned and signed integers
// ---------------------------------------------------------------------

/// An unsigned integer item.
pub open spec fn spec_enc_u64(n: u64) -> Seq<u8> {
    spec_header(0, n)
}

/// Reads an unsigned integer item.
pub open spec fn spec_dec_u64(b: Seq<u8>, pos: int) -> Option<(u64, int)> {
    match spec_dec_header(b, pos) {
        Some((major, arg, p2)) => if major == 0 {
            Some((arg, p2))
        } else {
            None
        },
        None => None,
    }
}

pub proof fn lemma_u64_round_trip(b: Seq<u8>, pos: int, n: u64)
    requires
        0 <= pos,
        pos + spec_enc_u64(n).len() <= b.len(),
        b.subrange(pos, pos + spec_enc_u64(n).len() as int) == spec_enc_u64(n),
    ensures
        spec_dec_u64(b, pos) == Some((n, pos + spec_enc_u64(n).len() as int)),
{
    lemma_header_round_trip(b, pos, 0, n);
}

/// A signed integer item: nonnegative values as major type 0, negative
/// values `x` as major type 1 with argument `-1 - x`.
pub open spec fn spec_enc_i64(x: i64) -> Seq<u8> {
    if x >= 0 {
        spec_header(0, x as u64)
    } else {
        spec_header(1, (-1 - x) as u64)
    }
}

/// Reads a signed integer item.
pub open spec fn spec_dec_i64(b: Seq<u8>, pos: int) -> Option<(i64, int)> {
    match spec_dec_header(b, pos) {
        Some((major, arg, p2)) => if major == 0 && arg <= i64::MAX as u64 {
            Some((arg as i64, p2))
        } else if major == 1 && arg <= i64::MAX as u64 {
            Some(((-1 - arg as i64) as i64, p2))
        } else {
            None
        },
        None => None,
    }
}

pub proof fn lemma_i64_round_trip(b: Seq<u8>, pos: int, x: i64)
    requires
        0 <= pos,
        pos + spec_enc_i64(x).len() <= b.len(),
        b.subrange(pos, pos + spec_enc_i64(x).len() as int) == spec_enc_i64(x),
    ensures
        spec_dec_i64(b, pos) == Some((x, pos + spec_enc_i64(x).len() as int)),
{
    if x >= 0 {
        lemma_header_round_trip(b, pos, 0, x as u64);
    } else {
        lemma_header_round_trip(b, pos, 1, (-1 - x) as u64);
    }
}

// ---------------------------------------------------------------------
// booleans and null
// ---------------------------------------------------------------------

/// The simple values false and true.
pub open spec fn spec_enc_bool(v: bool) -> Seq<u8> {
    if v {
        seq![0xf5u8]
    } else {
        seq![0xf4u8]
    }
}

/// Reads a boolean item.
pub open spec fn spec_dec_bool(b: Seq<u8>, pos: int) -> Option<(bool, int)> {
    if 0 <= pos < b.len() {
        if b[pos] == 0xf4u8 {
            Some((false, pos + 1))
        } else if b[pos] == 0xf5u8 {
            Some((true, pos + 1))
        } else {
            None
        }
    } else {
        None
    }
}

pub proof fn lemma_bool_round_trip(b: Seq<u8>, pos: int, v: bool)
    requires
        0 <= pos,
        pos + 1 <= b.len(),
        b.subrange(pos, pos + 1) == spec_enc_bool(v),
    ensures
        spec_dec_bool(b, pos) == Some((v, pos + 1)),
{
    assert(b[pos] == spec_enc_bool(v)[0]);
}

/// The simple value null, standing for an absent optional field.
pub open spec fn spec_null() -> Seq<u8> {
    seq![0xf6u8]
}

// ---------------------------------------------------------------------
// byte strings
// ---------------------------------------------------------------------

/// A byte string item.
pub open spec fn spec_enc_bytes(v: Seq<u8>) -> Seq<u8> {
    spec_header(2, v.len() as u64) + v
}

/// Reads a byte string item.
pub open spec fn spec_dec_bytes(b: Seq<u8>, pos: int) -> Option<(Seq<u8>, int)> {
    match spec_dec_header(b, pos) {
        Some((major, arg, p2)) => if major == 2 && p2 + arg <= b.len() {
            Some((b.subrange(p2, p2 + arg as int), p2 + arg as int))
        } else {
            None
        },
        None => None,
    }
}

pub proof fn lemma_bytes_round_trip(b: Seq<u8>, pos: int, v: Seq<u8>)
    requires
        0 <= pos,
        v.len() < 0x1_0000_0000_0000_0000,
        pos + spec_enc_bytes(v).len() <= b.len(),
        b.subrange(pos, pos + spec_enc_bytes(v).len() as int) == spec_enc_bytes(v),
    ensures
        spec_dec_bytes(b, pos) == Some((v, pos + spec_enc_bytes(v).len() as int)),
{
    let h = spec_header(2, v.len() as u64);
    lemma_concat_at(b, pos, h, v);
    lemma_header_round_trip(b, pos, 2, v.len() as u64);
}

// ---------------------------------------------------------------------
// text strings
// ---------------------------------------------------------------------

/// A text string item: the UTF-8 bytes of the characters.
pub open spec fn spec_enc_text(s: Seq<char>) -> Seq<u8> {
    spec_header(3, encode_utf8(s).len() as u64) + encode_utf8(s)
}

/// Reads a text string item; bytes that are not UTF-8 read as nothing.
pub open spec fn spec_dec_text(b: Seq<u8>, pos: int) -> Option<(Seq<char>, int)> {
    match spec_dec_header(b, pos) {
        Some((major, arg, p2)) => if major == 3 && p2 + arg <= b.len() && valid_utf8(
            b.subrange(p2, p2 + arg as int),
        ) {
            Some((decode_utf8(b.subrange(p2, p2 + arg as int)), p2 + arg as int))
        } else {
            None
        },
        None => None,
    }
}

pub proof fn lemma_text_round_trip(b: Seq<u8>, pos: int, s: Seq<char>)
    requires
        0 <= pos,
        encode_utf8(s).len() < 0x1_0000_0000_0000_0000,
        pos + spec_enc_text(s).len() <= b.len(),
        b.subrange(pos, pos + spec_enc_text(s).len() as int) == spec_enc_text(s),
    ensures
        spec_dec_text(b, pos) == Some((s, pos + spec_enc_text(s).len() as int)),
{
    let u = encode_utf8(s);
    let h = spec_header(3, u.len() as u64);
    lemma_concat_at(b, pos, h, u);
    lemma_header_round_trip(b, pos, 3, u.len() as u64);
    broadcast use vstd::utf8::encode_utf8_valid_utf8;
    broadcast use vstd::utf8::encode_utf8_decode_utf8;

    assert(valid_utf8(u));
    assert(decode_utf8(encode_utf8(s)) == s);
}

// ---------------------------------------------------------------------
// well-formedness: lengths that fit the 64-bit header argument
// ---------------------------------------------------------------------

/// A text string whose UTF-8 form fits one header argument.
pub open spec fn text_wf(s: Seq<char>) -> bool {
    encode_utf8(s).len() < 0x1_0000_0000_0000_0000
}

/// A byte string that fits one header argument.
pub open spec fn bytes_wf(v: Seq<u8>) -> bool {
    v.len() < 0x1_0000_0000_0000_0000
}

/// A list of text strings, each and the count well formed.
pub open spec fn text_list_wf(ss: Seq<Seq<char>>) -> bool {
    ss.len() < 0x1_0000_0000_0000_0000 && forall|k: int| 0 <= k < ss.len() ==> text_wf(#[trigger] ss[k])
}

/// A list of byte strings, each and the count well formed.
pub open spec fn bytes_list_wf(vs: Seq<Seq<u8>>) -> bool {
    vs.len() < 0x1_0000_0000_0000_0000 && forall|k: int| 0 <= k < vs.len() ==> bytes_wf(#[trigger] vs[k])
}

// ---------------------------------------------------------------------
// lists of text strings and of byte strings
// ---------------------------------------------------------------------

/// The elements of a text list, one text item after the other.
pub open spec fn spec_enc_text_items(ss: Seq<Seq<char>>) -> Seq<u8>
    decreases ss.len(),
{
    if ss.len() == 0 {
        Seq::empty()
    } else {
        spec_enc_text(ss[0]) + spec_enc_text_items(ss.drop_first())
    }
}

/// A list of text strings: an array header and the elements.
pub open spec fn spec_enc_text_list(ss: Seq<Seq<char>>) -> Seq<u8> {
    spec_header(4, ss.len() as u64) + spec_enc_text_items(ss)
}

/// Reads `n` text items.
pub open spec fn spec_dec_text_items(b: Seq<u8>, pos: int, n: u64) -> Option<(Seq<Seq<char>>, int)>
    decreases n,
{
    if n == 0 {
        Some((Seq::empty(), pos))
    } else {
        match spec_dec_text(b, pos) {
            Some((s, p2)) => match spec_dec_text_items(b, p2, (n - 1) as u64) {
                Some((rest, p3)) => Some((seq![s] + rest, p3)),
                None => None,
            },
            None => None,
        }
    }
}

/// Reads a list of text strings.
pub open spec fn spec_dec_text_list(b: Seq<u8>, pos: int) -> Option<(Seq<Seq<char>>, int)> {
    match spec_dec_header(b, pos) {
        Some((major, arg, p2)) => if major == 4 {
            spec_dec_text_items(b, p2, arg)
        } else {
            None
        },
        None => None,
    }
}

pub proof fn lemma_text_items_round_trip(b: Seq<u8>, pos: int, ss: Seq<Seq<char>>)
    requires
        0 <= pos,
        text_list_wf(ss),
        pos + spec_enc_text_items(ss).len() <= b.len(),
        b.subrange(pos, pos + spec_enc_text_items(ss).len() as int) == spec_enc_text_items(ss),
    ensures
        spec_dec_text_items(b, pos, ss.len() as u64) == Some(
            (ss, pos + spec_enc_text_items(ss).len() as int),
        ),
    decreases ss.len(),
{
    if ss.len() == 0 {
        assert(spec_dec_text_items(b, pos, 0) == Some((Seq::<Seq<char>>::empty(), pos)));
        assert(ss =~= Seq::<Seq<char>>::empty());
    } else {
        let e1 = spec_enc_text(ss[0]);
        let e2 = spec_enc_text_items(ss.drop_first());
        lemma_concat_at(b, pos, e1, e2);
        lemma_text_round_trip(b, pos, ss[0]);
        assert(text_list_wf(ss.drop_first())) by {
            assert(forall|k: int|
                0 <= k < ss.drop_first().len() ==> #[trigger] ss.drop_first()[k] == ss[k + 1]);
        }
        lemma_text_items_round_trip(b, pos + e1.len() as int, ss.drop_first());
        assert(seq![ss[0]] + ss.drop_first() =~= ss);
    }
}

pub proof fn lemma_text_list_round_trip(b: Seq<u8>, pos: int, ss: Seq<Seq<char>>)
    requires
        0 <= pos,
        text_list_wf(ss),
        pos + spec_enc_text_list(ss).len() <= b.len(),
        b.subrange(pos, pos + spec_enc_text_list(ss).len() as int) == spec_enc_text_list(ss),
    ensures
        spec_dec_text_list(b, pos) == Some((ss, pos + spec_enc_text_list(ss).len() as int)),
{
    let h = spec_header(4, ss.len() as u64);
    lemma_concat_at(b, pos, h, spec_enc_text_items(ss));
    lemma_header_round_trip(b, pos, 4, ss.len() as u64);
    lemma_text_items_round_trip(b, pos + h.len() as int, ss);
}

/// The elements of a byte-string list.
pub open spec fn spec_enc_bytes_items(vs: Seq<Seq<u8>>) -> Seq<u8>
    decreases vs.len(),
{
    if vs.len() == 0 {
        Seq::empty()
    } else {
        spec_enc_bytes(vs[0]) + spec_enc_bytes_items(vs.drop_first())
    }
}

/// A list of byte strings: an array header and the elements.
pub open spec fn spec_enc_bytes_list(vs: Seq<Seq<u8>>) -> Seq<u8> {
    spec_header(4, vs.len() as u64) + spec_enc_bytes_items(vs)
}

/// Reads `n` byte-string items.
pub open spec fn spec_dec_bytes_items(b: Seq<u8>, pos: int, n: u64) -> Option<(Seq<Seq<u8>>, int)>
    decreases n,
{
    if n == 0 {
        Some((Seq::empty(), pos))
    } else {
        match spec_dec_bytes(b, pos) {
            Some((v, p2)) => match spec_dec_bytes_items(b, p2, (n - 1) as u64) {
                Some((rest, p3)) => Some((seq![v] + rest, p3)),
                None => None,
            },
            None => None,
        }
    }
}

/// Reads a list of byte strings.
pub open spec fn spec_dec_bytes_list(b: Seq<u8>, pos: int) -> Option<(Seq<Seq<u8>>, int)> {
    match spec_dec_header(b, pos) {
        Some((major, arg, p2)) => if major == 4 {
            spec_dec_bytes_items(b, p2, arg)
        } else {
            None
        },
        None => None,
    }
}

pub proof fn lemma_bytes_items_round_trip(b: Seq<u8>, pos: int, vs: Seq<Seq<u8>>)
    requires
        0 <= pos,
        bytes_list_wf(vs),
        pos + spec_enc_bytes_items(vs).len() <= b.len(),
        b.subrange(pos, pos + spec_enc_bytes_items(vs).len() as int) == spec_enc_bytes_items(vs),
    ensures
        spec_dec_bytes_items(b, pos, vs.len() as u64) == Some(
            (vs, pos + spec_enc_bytes_items(vs).len() as int),
        ),
    decreases vs.len(),
{
    if vs.len() == 0 {
        assert(vs =~= Seq::<Seq<u8>>::empty());
    } else {
        let e1 = spec_enc_bytes(vs[0]);
        let e2 = spec_enc_bytes_items(vs.drop_first());
        lemma_concat_at(b, pos, e1, e2);
        lemma_bytes_round_trip(b, pos, vs[0]);
        assert(bytes_list_wf(vs.drop_first())) by {
            assert(forall|k: int|
                0 <= k < vs.drop_first().len() ==> #[trigger] vs.drop_first()[k] == vs[k + 1]);
        }
        lemma_bytes_items_round_trip(b, pos + e1.len() as int, vs.drop_first());
        assert(seq![vs[0]] + vs.drop_first() =~= vs);
    }
}

pub proof fn lemma_bytes_list_round_trip(b: Seq<u8>, pos: int, vs: Seq<Seq<u8>>)
    requires
        0 <= pos,
        bytes_list_wf(vs),
        pos + spec_enc_bytes_list(vs).len() <= b.len(),
        b.subrange(pos, pos + spec_enc_bytes_list(vs).len() as int) == spec_enc_bytes_list(vs),
    ensures
        spec_dec_bytes_list(b, pos) == Some((vs, pos + spec_enc_bytes_list(vs).len() as int)),
{
    let h = spec_header(4, vs.len() as u64);
    lemma_concat_at(b, pos, h, spec_enc_bytes_items(vs));
    lemma_header_round_trip(b, pos, 4, vs.len() as u64);
    lemma_bytes_items_round_trip(b, pos + h.len() as int, vs);
}

// ---------------------------------------------------------------------
// optional fields
// ---------------------------------------------------------------------

/// An optional byte string: null when absent.
pub open spec fn spec_enc_opt_bytes(o: Option<Seq<u8>>) -> Seq<u8> {
    match o {
        None => spec_null(),
        Some(v) => spec_enc_bytes(v),
    }
}

/// Reads an optional byte string.
pub open spec fn spec_dec_opt_bytes(b: Seq<u8>, pos: int) -> Option<(Option<Seq<u8>>, int)> {
    if 0 <= pos < b.len() && b[pos] == 0xf6u8 {
        Some((None, pos + 1))
    } else {
        match spec_dec_bytes(b, pos) {
            Some((v, p2)) => Some((Some(v), p2)),
            None => None,
        }
    }
}

pub proof fn lemma_opt_bytes_round_trip(b: Seq<u8>, pos: int, o: Option<Seq<u8>>)
    requires
        0 <= pos,
        (o matches Some(v) ==> bytes_wf(v)),
        pos + spec_enc_opt_bytes(o).len() <= b.len(),
        b.subrange(pos, pos + spec_enc_opt_bytes(o).len() as int) == spec_enc_opt_bytes(o),
    ensures
        spec_dec_opt_bytes(b, pos) == Some((o, pos + spec_enc_opt_bytes(o).len() as int)),
{
    match o {
        None => {
            assert(b[pos] == spec_null()[0]);
        }
        Some(v) => {
            let h = spec_header(2, v.len() as u64);
            lemma_header_len(2, v.len() as u64);
            lemma_concat_at(b, pos, h, v);
            assert(b[pos] == h[0]);
            assert(h[0] != 0xf6u8);
            lemma_bytes_round_trip(b, pos, v);
        }
    }
}

/// An optional signed integer: null when absent.
pub open spec fn spec_enc_opt_i64(o: Option<i64>) -> Seq<u8> {
    match o {
        None => spec_null(),
        Some(x) => spec_enc_i64(x),
    }
}

/// Reads an optional signed integer.
pub open spec fn spec_dec_opt_i64(b: Seq<u8>, pos: int) -> Option<(Option<i64>, int)> {
    if 0 <= pos < b.len() && b[pos] == 0xf6u8 {
        Some((None, pos + 1))
    } else {
        match spec_dec_i64(b, pos) {
            Some((x, p2)) => Some((Some(x), p2)),
            None => None,
        }
    }
}

pub proof fn lemma_opt_i64_round_trip(b: Seq<u8>, pos: int, o: Option<i64>)
    requires
        0 <= pos,
        pos + spec_enc_opt_i64(o).len() <= b.len(),
        b.subrange(pos, pos + spec_enc_opt_i64(o).len() as int) == spec_enc_opt_i64(o),
    ensures
        spec_dec_opt_i64(b, pos) == Some((o, pos + spec_enc_opt_i64(o).len() as int)),
{
    match o {
        None => {
            assert(b[pos] == spec_null()[0]);
        }
        Some(x) => {
            let h = spec_enc_i64(x);
            lemma_header_len(if x >= 0 { 0u8 } else { 1u8 }, if x >= 0 { x as u64 } else { (-1 - x) as u64 });
            assert(b[pos] == h[0]);
            assert(h[0] != 0xf6u8);
            lemma_i64_round_trip(b, pos, x);
        }
    }
}

/// An optional list of byte strings: null when absent.
pub open spec fn spec_enc_opt_bytes_list(o: Option<Seq<Seq<u8>>>) -> Seq<u8> {
    match o {
        None => spec_null(),
        Some(vs) => spec_enc_bytes_list(vs),
    }
}

/// Reads an optional list of byte strings.
pub open spec fn spec_dec_opt_bytes_list(b: Seq<u8>, pos: int) -> Option<
    (Option<Seq<Seq<u8>>>, int),
> {
    if 0 <= pos < b.len() && b[pos] == 0xf6u8 {
        Some((None, pos + 1))
    } else {
        match spec_dec_bytes_list(b, pos) {
            Some((vs, p2)) => Some((Some(vs), p2)),
            None => None,
        }
    }
}

pub proof fn lemma_opt_bytes_list_round_trip(b: Seq<u8>, pos: int, o: Option<Seq<Seq<u8>>>)
    requires
        0 <= pos,
        (o matches Some(vs) ==> bytes_list_wf(vs)),
        pos + spec_enc_opt_bytes_list(o).len() <= b.len(),
        b.subrange(pos, pos + spec_enc_opt_bytes_list(o).len() as int) == spec_enc_opt_bytes_list(o),
    ensures
        spec_dec_opt_bytes_list(b, pos) == Some((o, pos + spec_enc_opt_bytes_list(o).len() as int)),
{
    match o {
        None => {
            assert(b[pos] == spec_null()[0]);
        }
        Some(vs) => {
            let h = spec_header(4, vs.len() as u64);
            lemma_header_len(4, vs.len() as u64);
            lemma_concat_at(b, pos, h, spec_enc_bytes_items(vs));
            assert(b[pos] == h[0]);
            assert(h[0] != 0xf6u8);
            lemma_bytes_list_round_trip(b, pos, vs);
        }
    }
}

// ---------------------------------------------------------------------
// splitting longer concatenations
// ---------------------------------------------------------------------

pub proof fn lemma_split3(b: Seq<u8>, pos: int, e1: Seq<u8>, e2: Seq<u8>, e3: Seq<u8>)
    requires
        0 <= pos,
        pos + e1.len() + e2.len() + e3.len() <= b.len(),
        b.subrange(pos, pos + e1.len() + e2.len() + e3.len()) == e1 + e2 + e3,
    ensures
        b.subrange(pos, pos + e1.len() as int) == e1,
        b.subrange(pos + e1.len() as int, pos + e1.len() + e2.len()) == e2,
        b.subrange(pos + e1.len() + e2.len(), pos + e1.len() + e2.len() + e3.len()) == e3,
{
    lemma_concat_at(b, pos, e1 + e2, e3);
    lemma_concat_at(b, pos, e1, e2);
}

pub proof fn lemma_split4(b: Seq<u8>, pos: int, e1: Seq<u8>, e2: Seq<u8>, e3: Seq<u8>, e4: Seq<u8>)
    requires
        0 <= pos,
        pos + e1.len() + e2.len() + e3.len() + e4.len() <= b.len(),
        b.subrange(pos, pos + e1.len() + e2.len() + e3.len() + e4.len()) == e1 + e2 + e3 + e4,
    ensures
        b.subrange(pos, pos + e1.len() as int) == e1,
        b.subrange(pos + e1.len() as int, pos + e1.len() + e2.len()) == e2,
        b.subrange(pos + e1.len() + e2.len(), pos + e1.len() + e2.len() + e3.len()) == e3,
        b.subrange(
            pos + e1.len() + e2.len() + e3.len(),
            pos + e1.len() + e2.len() + e3.len() + e4.len(),
        ) == e4,
{
    lemma_concat_at(b, pos, e1 + e2 + e3, e4);
    lemma_split3(b, pos, e1, e2, e3);
}

pub proof fn lemma_split5(
    b: Seq<u8>,
    pos: int,
    e1: Seq<u8>,
    e2: Seq<u8>,
    e3: Seq<u8>,
    e4: Seq<u8>,
    e5: Seq<u8>,
)
    requires
        0 <= pos,
        pos + e1.len() + e2.len() + e3.len() + e4.len() + e5.len() <= b.len(),
        b.subrange(pos, pos + e1.len() + e2.len() + e3.len() + e4.len() + e5.len()) == e1 + e2 + e3
            + e4 + e5,
    ensures
        b.subrange(pos, pos + e1.len() as int) == e1,
        b.subrange(pos + e1.len() as int, pos + e1.len() + e2.len()) == e2,
        b.subrange(pos + e1.len() + e2.len(), pos + e1.len() + e2.len() + e3.len()) == e3,
        b.subrange(
            pos + e1.len() + e2.len() + e3.len(),
            pos + e1.len() + e2.len() + e3.len() + e4.len(),
        ) == e4,
        b.subrange(
            pos + e1.len() + e2.len() + e3.len() + e4.len(),
            pos + e1.len() + e2.len() + e3.len() + e4.len() + e5.len(),
        ) == e5,
{
    lemma_concat_at(b, pos, e1 + e2 + e3 + e4, e5);
    lemma_split4(b, pos, e1, e2, e3, e4);
}

pub proof fn lemma_split6(
    b: Seq<u8>,
    pos: int,
    e1: Seq<u8>,
    e2: Seq<u8>,
    e3: Seq<u8>,
    e4: Seq<u8>,
    e5: Seq<u8>,
    e6: Seq<u8>,
)
    requires
        0 <= pos,
        pos + e1.len() + e2.len() + e3.len() + e4.len() + e5.len() + e6.len() <= b.len(),
        b.subrange(pos, pos + e1.len() + e2.len() + e3.len() + e4.len() + e5.len() + e6.len())
            == e1 + e2 + e3 + e4 + e5 + e6,
    ensures
        b.subrange(pos, pos + e1.len() as int) == e1,
        b.subrange(pos + e1.len() as int, pos + e1.len() + e2.len()) == e2,
        b.subrange(pos + e1.len() + e2.len(), pos + e1.len() + e2.len() + e3.len()) == e3,
        b.subrange(
            pos + e1.len() + e2.len() + e3.len(),
            pos + e1.len() + e2.len() + e3.len() + e4.len(),
        ) == e4,
        b.subrange(
            pos + e1.len() + e2.len() + e3.len() + e4.len(),
            pos + e1.len() + e2.len() + e3.len() + e4.len() + e5.len(),
        ) == e5,
        b.subrange(
            pos + e1.len() + e2.len() + e3.len() + e4.len() + e5.len(),
            pos + e1.len() + e2.len() + e3.len() + e4.len() + e5.len() + e6.len(),
        ) == e6,
{
    lemma_concat_at(b, pos, e1 + e2 + e3 + e4 + e5, e6);
    lemma_split5(b, pos, e1, e2, e3, e4, e5);
}

// ---------------------------------------------------------------------
// queries
// ---------------------------------------------------------------------

/// The number standing for a query combination.
pub open spec fn spec_query_type_code(t: crate::query::QueryType) -> u64 {
    match t {
        crate::query::QueryType::And => 0,
        crate::query::QueryType::Or => 1,
    }
}

/// A query item: an array whose first element says which variant.
pub open spec fn spec_enc_query(q: crate::query::QueryV) -> Seq<u8>
    decreases q,
{
    match q {
        crate::query::QueryV::Single(s) => spec_header(4, 5) + spec_enc_u64(0) + spec_enc_text(
            s.collection,
        ) + spec_enc_text(s.usecase) + spec_enc_opt_i64(s.upper_limit) + spec_enc_opt_i64(
            s.lower_limit,
        ),
        crate::query::QueryV::Compound(c) => spec_header(4, 4) + spec_enc_u64(1) + spec_enc_u64(
            spec_query_type_code(c.query_type),
        ) + spec_header(4, c.queries.len() as u64) + spec_enc_query_items(c.queries),
        crate::query::QueryV::GetById { id, collection } => spec_header(4, 3) + spec_enc_u64(2)
            + spec_enc_text(id) + spec_enc_text(collection),
        crate::query::QueryV::GetByIds { ids, collection } => spec_header(4, 3) + spec_enc_u64(3)
            + spec_enc_text_list(ids) + spec_enc_text(collection),
    }
}

/// The branches of a compound query, one query item after the other.
pub open spec fn spec_enc_query_items(qs: Seq<crate::query::QueryV>) -> Seq<u8>
    decreases qs,
{
    if qs.len() == 0 {
        Seq::empty()
    } else {
        spec_enc_query(qs[0]) + spec_enc_query_items(qs.drop_first())
    }
}

/// Reads one query item.
pub open spec fn spec_dec_query(b: Seq<u8>, pos: int) -> Option<(crate::query::QueryV, int)>
    decreases b.len() - pos, 0int,
{
    match spec_dec_header(b, pos) {
        Some((major, cnt, p1)) => if major == 4 {
            match spec_dec_u64(b, p1) {
                Some((disc, p2)) => if disc == 0 && cnt == 5 {
                    match spec_dec_text(b, p2) {
                        Some((collection, p3)) => match spec_dec_text(b, p3) {
                            Some((usecase, p4)) => match spec_dec_opt_i64(b, p4) {
                                Some((upper_limit, p5)) => match spec_dec_opt_i64(b, p5) {
                                    Some((lower_limit, p6)) => Some(
                                        (
                                            crate::query::QueryV::Single(
                                                crate::query::SingleQueryV {
                                                    collection,
                                                    usecase,
                                                    upper_limit,
                                                    lower_limit,
                                                },
                                            ),
                                            p6,
                                        ),
                                    ),
                                    None => None,
                                },
                                None => None,
                            },
                            None => None,
                        },
                        None => None,
                    }
                } else if disc == 1 && cnt == 4 {
                    match spec_dec_u64(b, p2) {
                        Some((code, p3)) => if code <= 1 {
                            match spec_dec_header(b, p3) {
                                Some((m2, n, p4)) => if m2 == 4 && p2 < p4 {
                                    match spec_dec_query_items(b, p4, n) {
                                        Some((children, p5)) => Some(
                                            (
                                                crate::query::QueryV::Compound(
                                                    crate::query::CompoundQueryV {
                                                        query_type: if code == 0 {
                                                            crate::query::QueryType::And
                                                        } else {
                                                            crate::query::QueryType::Or
                                                        },
                                                        queries: children,
                                                    },
                                                ),
                                                p5,
                                            ),
                                        ),
                                        None => None,
                                    }
                                } else {
                                    None
                                },
                                None => None,
                            }
                        } else {
                            None
                        },
                        None => None,
                    }
                } else if disc == 2 && cnt == 3 {
                    match spec_dec_text(b, p2) {
                        Some((id, p3)) => match spec_dec_text(b, p3) {
                            Some((collection, p4)) => Some(
                                (crate::query::QueryV::GetById { id, collection }, p4),
                            ),
                            None => None,
                        },
                        None => None,
                    }
                } else if disc == 3 && cnt == 3 {
                    match spec_dec_text_list(b, p2) {
                        Some((ids, p3)) => match spec_dec_text(b, p3) {
                            Some((collection, p4)) => Some(
                                (crate::query::QueryV::GetByIds { ids, collection }, p4),
                            ),
                            None => None,
                        },
                        None => None,
                    }
                } else {
                    None
                },
                None => None,
            }
        } else {
            None
        },
        None => None,
    }
}

/// Reads `n` query items; a branch that consumes nothing reads as nothing.
pub open spec fn spec_dec_query_items(b: Seq<u8>, pos: int, n: u64) -> Option<
    (Seq<crate::query::QueryV>, int),
>
    decreases b.len() - pos, 1int + n,
{
    if n == 0 {
        Some((Seq::empty(), pos))
    } else {
        match spec_dec_query(b, pos) {
            Some((q, p2)) => if pos < p2 <= b.len() {
                match spec_dec_query_items(b, p2, (n - 1) as u64) {
                    Some((rest, p3)) => Some((seq![q] + rest, p3)),
                    None => None,
                }
            } else {
                None
            },
            None => None,
        }
    }
}

/// Every query item the encoder writes is well formed when its strings
/// and lists fit the header argument.
pub open spec fn query_wf(q: crate::query::QueryV) -> bool
    decreases q,
{
    match q {
        crate::query::QueryV::Single(s) => text_wf(s.collection) && text_wf(s.usecase),
        crate::query::QueryV::Compound(c) => c.queries.len() < 0x1_0000_0000_0000_0000
            && queries_wf(c.queries),
        crate::query::QueryV::GetById { id, collection } => text_wf(id) && text_wf(collection),
        crate::query::QueryV::GetByIds { ids, collection } => text_list_wf(ids) && text_wf(
            collection,
        ),
    }
}

/// All branches of a list are well formed.
pub open spec fn queries_wf(qs: Seq<crate::query::QueryV>) -> bool
    decreases qs,
{
    if qs.len() == 0 {
        true
    } else {
        query_wf(qs[0]) && queries_wf(qs.drop_first())
    }
}

/// A query item is never empty: it starts with its array header.
pub proof fn lemma_enc_query_len(q: crate::query::QueryV)
    ensures
        spec_enc_query(q).len() >= 1,
{
    match q {
        crate::query::QueryV::Single(_) => lemma_header_len(4, 5),
        crate::query::QueryV::Compound(_) => lemma_header_len(4, 4),
        crate::query::QueryV::GetById { .. } => lemma_header_len(4, 3),
        crate::query::QueryV::GetByIds { .. } => lemma_header_len(4, 3),
    }
}

/// Decoding a query item inverts encoding it.
#[verifier::rlimit(100)]
pub proof fn lemma_query_round_trip(b: Seq<u8>, pos: int, q: crate::query::QueryV)
    requires
        0 <= pos,
        query_wf(q),
        pos + spec_enc_query(q).len() <= b.len(),
        b.subrange(pos, pos + spec_enc_query(q).len() as int) == spec_enc_query(q),
    ensures
        spec_dec_query(b, pos) == Some((q, pos + spec_enc_query(q).len() as int)),
    decreases q,
{
    match q {
        crate::query::QueryV::Single(s) => {
            let e1 = spec_header(4, 5);
            let e2 = spec_enc_u64(0);
            let e3 = spec_enc_text(s.collection);
            let e4 = spec_enc_text(s.usecase);
            let e5 = spec_enc_opt_i64(s.upper_limit);
            let e6 = spec_enc_opt_i64(s.lower_limit);
            lemma_split6(b, pos, e1, e2, e3, e4, e5, e6);
            lemma_header_round_trip(b, pos, 4, 5);
            let p1 = pos + e1.len() as int;
            lemma_u64_round_trip(b, p1, 0);
            let p2 = p1 + e2.len() as int;
            lemma_text_round_trip(b, p2, s.collection);
            let p3 = p2 + e3.len() as int;
            lemma_text_round_trip(b, p3, s.usecase);
            let p4 = p3 + e4.len() as int;
            lemma_opt_i64_round_trip(b, p4, s.upper_limit);
            let p5 = p4 + e5.len() as int;
            lemma_opt_i64_round_trip(b, p5, s.lower_limit);
        }
        crate::query::QueryV::Compound(c) => {
            let e1 = spec_header(4, 4);
            let e2 = spec_enc_u64(1);
            let e3 = spec_enc_u64(spec_query_type_code(c.query_type));
            let e4 = spec_header(4, c.queries.len() as u64);
            let e5 = spec_enc_query_items(c.queries);
            lemma_split5(b, pos, e1, e2, e3, e4, e5);
            lemma_header_round_trip(b, pos, 4, 4);
            let p1 = pos + e1.len() as int;
            lemma_u64_round_trip(b, p1, 1);
            let p2 = p1 + e2.len() as int;
            lemma_u64_round_trip(b, p2, spec_query_type_code(c.query_type));
            let p3 = p2 + e3.len() as int;
            lemma_header_round_trip(b, p3, 4, c.queries.len() as u64);
            let p4 = p3 + e4.len() as int;
            lemma_header_len(4, c.queries.len() as u64);
            lemma_query_items_round_trip(b, p4, c.queries);
        }
        crate::query::QueryV::GetById { id, collection } => {
            let e1 = spec_header(4, 3);
            let e2 = spec_enc_u64(2);
            let e3 = spec_enc_text(id);
            let e4 = spec_enc_text(collection);
            lemma_split4(b, pos, e1, e2, e3, e4);
            lemma_header_round_trip(b, pos, 4, 3);
            let p1 = pos + e1.len() as int;
            lemma_u64_round_trip(b, p1, 2);
            let p2 = p1 + e2.len() as int;
            lemma_text_round_trip(b, p2, id);
            let p3 = p2 + e3.len() as int;
            lemma_text_round_trip(b, p3, collection);
        }
        crate::query::QueryV::GetByIds { ids, collection } => {
            let e1 = spec_header(4, 3);
            let e2 = spec_enc_u64(3);
            let e3 = spec_enc_text_list(ids);
            let e4 = spec_enc_text(collection);
            lemma_split4(b, pos, e1, e2, e3, e4);
            lemma_header_round_trip(b, pos, 4, 3);
            let p1 = pos + e1.len() as int;
            lemma_u64_round_trip(b, p1, 3);
            let p2 = p1 + e2.len() as int;
            lemma_text_list_round_trip(b, p2, ids);
            let p3 = p2 + e3.len() as int;
            lemma_text_round_trip(b, p3, collection);
        }
    }
}

/// Decoding a list of query items inverts encoding it.
pub proof fn lemma_query_items_round_trip(b: Seq<u8>, pos: int, qs: Seq<crate::query::QueryV>)
    requires
        0 <= pos,
        qs.len() < 0x1_0000_0000_0000_0000,
        queries_wf(qs),
        pos + spec_enc_query_items(qs).len() <= b.len(),
        b.subrange(pos, pos + spec_enc_query_items(qs).len() as int) == spec_enc_query_items(qs),
    ensures
        spec_dec_query_items(b, pos, qs.len() as u64) == Some(
            (qs, pos + spec_enc_query_items(qs).len() as int),
        ),
    decreases qs,
{
    if qs.len() == 0 {
        assert(qs =~= Seq::<crate::query::QueryV>::empty());
    } else {
        let e1 = spec_enc_query(qs[0]);
        let e2 = spec_enc_query_items(qs.drop_first());
        lemma_concat_at(b, pos, e1, e2);
        lemma_query_round_trip(b, pos, qs[0]);
        lemma_enc_query_len(qs[0]);
        lemma_query_items_round_trip(b, pos + e1.len() as int, qs.drop_first());
        assert(seq![qs[0]] + qs.drop_first() =~= qs);
    }
}

// ---------------------------------------------------------------------
// count and drop subjects
// ---------------------------------------------------------------------

/// A count subject item.
pub open spec fn spec_enc_count_subject(v: crate::message::CountSubjectV) -> Seq<u8> {
    match v {
        crate::message::CountSubjectV::Collection(c) => spec_header(4, 2) + spec_enc_u64(0)
            + spec_enc_text(c),
        crate::message::CountSubjectV::Usecase { collection, usecase } => spec_header(4, 3)
            + spec_enc_u64(1) + spec_enc_text(collection) + spec_enc_text(usecase),
    }
}

/// Reads a count subject item.
pub open spec fn spec_dec_count_subject(b: Seq<u8>, pos: int) -> Option<
    (crate::message::CountSubjectV, int),
> {
    match spec_dec_header(b, pos) {
        Some((major, cnt, p1)) => if major == 4 {
            match spec_dec_u64(b, p1) {
                Some((disc, p2)) => if disc == 0 && cnt == 2 {
                    match spec_dec_text(b, p2) {
                        Some((c, p3)) => Some((crate::message::CountSubjectV::Collection(c), p3)),
                        None => None,
                    }
                } else if disc == 1 && cnt == 3 {
                    match spec_dec_text(b, p2) {
                        Some((collection, p3)) => match spec_dec_text(b, p3) {
                            Some((usecase, p4)) => Some(
                                (crate::message::CountSubjectV::Usecase { collection, usecase }, p4),
                            ),
                            None => None,
                        },
                        None => None,
                    }
                } else {
                    None
                },
                None => None,
            }
        } else {
            None
        },
        None => None,
    }
}

pub open spec fn count_subject_wf(v: crate::message::CountSubjectV) -> bool {
    match v {
        crate::message::CountSubjectV::Collection(c) => text_wf(c),
        crate::message::CountSubjectV::Usecase { collection, usecase } => text_wf(collection)
            && text_wf(usecase),
    }
}

pub proof fn lemma_count_subject_round_trip(b: Seq<u8>, pos: int, v: crate::message::CountSubjectV)
    requires
        0 <= pos,
        count_subject_wf(v),
        pos + spec_enc_count_subject(v).len() <= b.len(),
        b.subrange(pos, pos + spec_enc_count_subject(v).len() as int) == spec_enc_count_subject(v),
    ensures
        spec_dec_count_subject(b, pos) == Some((v, pos + spec_enc_count_subject(v).len() as int)),
{
    match v {
        crate::message::CountSubjectV::Collection(c) => {
            let e1 = spec_header(4, 2);
            let e2 = spec_enc_u64(0);
            let e3 = spec_enc_text(c);
            lemma_split3(b, pos, e1, e2, e3);
            lemma_header_round_trip(b, pos, 4, 2);
            lemma_u64_round_trip(b, pos + e1.len() as int, 0);
            lemma_text_round_trip(b, pos + e1.len() + e2.len(), c);
        }
        crate::message::CountSubjectV::Usecase { collection, usecase } => {
            let e1 = spec_header(4, 3);
            let e2 = spec_enc_u64(1);
            let e3 = spec_enc_text(collection);
            let e4 = spec_enc_text(usecase);
            lemma_split4(b, pos, e1, e2, e3, e4);
            lemma_header_round_trip(b, pos, 4, 3);
            lemma_u64_round_trip(b, pos + e1.len() as int, 1);
            lemma_text_round_trip(b, pos + e1.len() + e2.len(), collection);
            lemma_text_round_trip(b, pos + e1.len() + e2.len() + e3.len(), usecase);
        }
    }
}

/// A drop subject item, laid out like a count subject.
pub open spec fn spec_enc_drop_subject(v: crate::message::DropSubjectV) -> Seq<u8> {
    match v {
        crate::message::DropSubjectV::Collection(c) => spec_header(4, 2) + spec_enc_u64(0)
            + spec_enc_text(c),
        crate::message::DropSubjectV::Usecase { collection, usecase } => spec_header(4, 3)
            + spec_enc_u64(1) + spec_enc_text(collection) + spec_enc_text(usecase),
    }
}

/// Reads a drop subject item.
pub open spec fn spec_dec_drop_subject(b: Seq<u8>, pos: int) -> Option<
    (crate::message::DropSubjectV, int),
> {
    match spec_dec_count_subject(b, pos) {
        Some((v, p2)) => match v {
            crate::message::CountSubjectV::Collection(c) => Some(
                (crate::message::DropSubjectV::Collection(c), p2),
            ),
            crate::message::CountSubjectV::Usecase { collection, usecase } => Some(
                (crate::message::DropSubjectV::Usecase { collection, usecase }, p2),
            ),
        },
        None => None,
    }
}

pub open spec fn drop_subject_wf(v: crate::message::DropSubjectV) -> bool {
    match v {
        crate::message::DropSubjectV::Collection(c) => text_wf(c),
        crate::message::DropSubjectV::Usecase { collection, usecase } => text_wf(collection)
            && text_wf(usecase),
    }
}

pub proof fn lemma_drop_subject_round_trip(b: Seq<u8>, pos: int, v: crate::message::DropSubjectV)
    requires
        0 <= pos,
        drop_subject_wf(v),
        pos + spec_enc_drop_subject(v).len() <= b.len(),
        b.subrange(pos, pos + spec_enc_drop_subject(v).len() as int) == spec_enc_drop_subject(v),
    ensures
        spec_dec_drop_subject(b, pos) == Some((v, pos + spec_enc_drop_subject(v).len() as int)),
{
    match v {
        crate::message::DropSubjectV::Collection(c) => {
            lemma_count_subject_round_trip(b, pos, crate::message::CountSubjectV::Collection(c));
        }
        crate::message::DropSubjectV::Usecase { collection, usecase } => {
            lemma_count_subject_round_trip(
                b,
                pos,
                crate::message::CountSubjectV::Usecase { collection, usecase },
            );
        }
    }
}

// ---------------------------------------------------------------------
// messages
// ---------------------------------------------------------------------

/// The number standing for an update outcome.
pub open spec fn spec_update_status_code(s: crate::message::UpdateStatus) -> u64 {
    match s {
        crate::message::UpdateStatus::Success => 0,
        crate::message::UpdateStatus::Failure => 1,
        crate::message::UpdateStatus::KeyNotFound => 2,
    }
}

/// One whole message as a payload item: the array of its discriminator
/// and its fields. The discriminator equals the variant's frame tag.
pub open spec fn spec_enc_message(m: crate::message::MessageV) -> Seq<u8> {
    match m {
        crate::message::MessageV::ClientSetup(s) => spec_header(4, 5) + spec_enc_u64(0)
            + spec_enc_text(s.protocol_version) + spec_enc_bytes(s.client_public_key)
            + spec_enc_text_list(s.cipher_suits) + spec_enc_text(s.compression),
        crate::message::MessageV::ClientAuthentification(a) => spec_header(4, 3) + spec_enc_u64(1)
            + spec_enc_text(a.username) + spec_enc_text(a.password),
        crate::message::MessageV::Insert(i) => spec_header(4, 5) + spec_enc_u64(2) + spec_enc_text(
            i.collection,
        ) + spec_enc_text_list(i.acl) + spec_enc_bytes(i.data) + spec_enc_text_list(i.usecases),
        crate::message::MessageV::InsertOpe(i) => spec_header(4, 5) + spec_enc_u64(17)
            + spec_enc_text(i.collection) + spec_enc_text_list(i.acl) + spec_enc_bytes(i.data)
            + spec_enc_text_list(i.usecases),
        crate::message::MessageV::InsertResponse { inserted_id } => spec_header(4, 2)
            + spec_enc_u64(3) + spec_enc_text(inserted_id),
        crate::message::MessageV::Query(q) => spec_header(4, 2) + spec_enc_u64(4) + spec_enc_query(
            q,
        ),
        crate::message::MessageV::QueryResponse { data, nonces } => spec_header(4, 3)
            + spec_enc_u64(5) + spec_enc_bytes_list(data) + spec_enc_opt_bytes_list(nonces),
        crate::message::MessageV::SingleValueResponse { data, nonce } => spec_header(4, 3)
            + spec_enc_u64(6) + spec_enc_opt_bytes(data) + spec_enc_opt_bytes(nonce),
        crate::message::MessageV::Count(v) => spec_header(4, 2) + spec_enc_u64(7)
            + spec_enc_count_subject(v),
        crate::message::MessageV::CountResponse(n) => spec_header(4, 2) + spec_enc_u64(18)
            + spec_enc_u64(n as u64),
        crate::message::MessageV::Update(u) => spec_header(4, 4) + spec_enc_u64(8) + spec_enc_text(
            u.collection,
        ) + spec_enc_text(u.id) + spec_enc_bytes(u.new_value),
        crate::message::MessageV::UpdateResponse { status } => spec_header(4, 2) + spec_enc_u64(9)
            + spec_enc_u64(spec_update_status_code(status)),
        crate::message::MessageV::Delete(d) => spec_header(4, 3) + spec_enc_u64(10) + spec_enc_text(
            d.collection,
        ) + spec_enc_text(d.id),
        crate::message::MessageV::DeleteResult(ok) => spec_header(4, 2) + spec_enc_u64(11)
            + spec_enc_bool(ok),
        crate::message::MessageV::DeleteForUsecase { collection, id } => spec_header(4, 3)
            + spec_enc_u64(12) + spec_enc_text(collection) + spec_enc_text(id),
        crate::message::MessageV::Drop(v) => spec_header(4, 2) + spec_enc_u64(13)
            + spec_enc_drop_subject(v),
        crate::message::MessageV::DropResult(ok) => spec_header(4, 2) + spec_enc_u64(14)
            + spec_enc_bool(ok),
        crate::message::MessageV::EndOfCommunication => spec_header(4, 1) + spec_enc_u64(15),
        crate::message::MessageV::CloseCommunication => spec_header(4, 1) + spec_enc_u64(16),
    }
}

/// Reads one message item.
pub open spec fn spec_dec_message(b: Seq<u8>, pos: int) -> Option<(crate::message::MessageV, int)> {
    match spec_dec_header(b, pos) {
        Some((major, cnt, p1)) => if major == 4 {
            match spec_dec_u64(b, p1) {
                Some((disc, p2)) => spec_dec_message_body(b, p2, disc, cnt),
                None => None,
            }
        } else {
            None
        },
        None => None,
    }
}

/// Reads the fields of a message whose discriminator is `disc` out of an
/// array of `cnt` items.
pub open spec fn spec_dec_message_body(b: Seq<u8>, p2: int, disc: u64, cnt: u64) -> Option<
    (crate::message::MessageV, int),
> {
    if disc == 0 && cnt == 5 {
        match spec_dec_text(b, p2) {
            Some((protocol_version, p3)) => match spec_dec_bytes(b, p3) {
                Some((client_public_key, p4)) => match spec_dec_text_list(b, p4) {
                    Some((cipher_suits, p5)) => match spec_dec_text(b, p5) {
                        Some((compression, p6)) => Some(
                            (
                                crate::message::MessageV::ClientSetup(
                                    crate::message::ClientSetupSecureConnectionV {
                                        protocol_version,
                                        client_public_key,
                                        cipher_suits,
                                        compression,
                                    },
                                ),
                                p6,
                            ),
                        ),
                        None => None,
                    },
                    None => None,
                },
                None => None,
            },
            None => None,
        }
    } else if disc == 1 && cnt == 3 {
        match spec_dec_text(b, p2) {
            Some((username, p3)) => match spec_dec_text(b, p3) {
                Some((password, p4)) => Some(
                    (
                        crate::message::MessageV::ClientAuthentification(
                            crate::message::ClientAuthenticationV { username, password },
                        ),
                        p4,
                    ),
                ),
                None => None,
            },
            None => None,
        }
    } else if (disc == 2 || disc == 17) && cnt == 5 {
        match spec_dec_text(b, p2) {
            Some((collection, p3)) => match spec_dec_text_list(b, p3) {
                Some((acl, p4)) => match spec_dec_bytes(b, p4) {
                    Some((data, p5)) => match spec_dec_text_list(b, p5) {
                        Some((usecases, p6)) => {
                            let i = crate::message::InsertionV { collection, acl, data, usecases };
                            if disc == 2 {
                                Some((crate::message::MessageV::Insert(i), p6))
                            } else {
                                Some((crate::message::MessageV::InsertOpe(i), p6))
                            }
                        },
                        None => None,
                    },
                    None => None,
                },
                None => None,
            },
            None => None,
        }
    } else if disc == 3 && cnt == 2 {
        match spec_dec_text(b, p2) {
            Some((inserted_id, p3)) => Some(
                (crate::message::MessageV::InsertResponse { inserted_id }, p3),
            ),
            None => None,
        }
    } else if disc == 4 && cnt == 2 {
        match spec_dec_query(b, p2) {
            Some((q, p3)) => Some((crate::message::MessageV::Query(q), p3)),
            None => None,
        }
    } else if disc == 5 && cnt == 3 {
        match spec_dec_bytes_list(b, p2) {
            Some((data, p3)) => match spec_dec_opt_bytes_list(b, p3) {
                Some((nonces, p4)) => Some(
                    (crate::message::MessageV::QueryResponse { data, nonces }, p4),
                ),
                None => None,
            },
            None => None,
        }
    } else if disc == 6 && cnt == 3 {
        match spec_dec_opt_bytes(b, p2) {
            Some((data, p3)) => match spec_dec_opt_bytes(b, p3) {
                Some((nonce, p4)) => Some(
                    (crate::message::MessageV::SingleValueResponse { data, nonce }, p4),
                ),
                None => None,
            },
            None => None,
        }
    } else if disc == 7 && cnt == 2 {
        match spec_dec_count_subject(b, p2) {
            Some((v, p3)) => Some((crate::message::MessageV::Count(v), p3)),
            None => None,
        }
    } else if disc == 18 && cnt == 2 {
        match spec_dec_u64(b, p2) {
            Some((n, p3)) => if n <= u32::MAX as u64 {
                Some((crate::message::MessageV::CountResponse(n as u32), p3))
            } else {
                None
            },
            None => None,
        }
    } else if disc == 8 && cnt == 4 {
        match spec_dec_text(b, p2) {
            Some((collection, p3)) => match spec_dec_text(b, p3) {
                Some((id, p4)) => match spec_dec_bytes(b, p4) {
                    Some((new_value, p5)) => Some(
                        (
                            crate::message::MessageV::Update(
                                crate::message::UpdateV { collection, id, new_value },
                            ),
                            p5,
                        ),
                    ),
                    None => None,
                },
                None => None,
            },
            None => None,
        }
    } else if disc == 9 && cnt == 2 {
        match spec_dec_u64(b, p2) {
            Some((code, p3)) => if code == 0 {
                Some(
                    (
                        crate::message::MessageV::UpdateResponse {
                            status: crate::message::UpdateStatus::Success,
                        },
                        p3,
                    ),
                )
            } else if code == 1 {
                Some(
                    (
                        crate::message::MessageV::UpdateResponse {
                            status: crate::message::UpdateStatus::Failure,
                        },
                        p3,
                    ),
                )
            } else if code == 2 {
                Some(
                    (
                        crate::message::MessageV::UpdateResponse {
                            status: crate::message::UpdateStatus::KeyNotFound,
                        },
                        p3,
                    ),
                )
            } else {
                None
            },
            None => None,
        }
    } else if disc == 10 && cnt == 3 {
        match spec_dec_text(b, p2) {
            Some((collection, p3)) => match spec_dec_text(b, p3) {
                Some((id, p4)) => Some(
                    (
                        crate::message::MessageV::Delete(
                            crate::message::DeleteV { collection, id },
                        ),
                        p4,
                    ),
                ),
                None => None,
            },
            None => None,
        }
    } else if disc == 11 && cnt == 2 {
        match spec_dec_bool(b, p2) {
            Some((ok, p3)) => Some((crate::message::MessageV::DeleteResult(ok), p3)),
            None => None,
        }
    } else if disc == 12 && cnt == 3 {
        match spec_dec_text(b, p2) {
            Some((collection, p3)) => match spec_dec_text(b, p3) {
                Some((id, p4)) => Some(
                    (crate::message::MessageV::DeleteForUsecase { collection, id }, p4),
                ),
                None => None,
            },
            None => None,
        }
    } else if disc == 13 && cnt == 2 {
        match spec_dec_drop_subject(b, p2) {
            Some((v, p3)) => Some((crate::message::MessageV::Drop(v), p3)),
            None => None,
        }
    } else if disc == 14 && cnt == 2 {
        match spec_dec_bool(b, p2) {
            Some((ok, p3)) => Some((crate::message::MessageV::DropResult(ok), p3)),
            None => None,
        }
    } else if disc == 15 && cnt == 1 {
        Some((crate::message::MessageV::EndOfCommunication, p2))
    } else if disc == 16 && cnt == 1 {
        Some((crate::message::MessageV::CloseCommunication, p2))
    } else {
        None
    }
}

/// A whole payload: one message item filling the byte sequence exactly.
pub open spec fn spec_dec_message_full(b: Seq<u8>) -> Option<crate::message::MessageV> {
    match spec_dec_message(b, 0) {
        Some((m, end)) => if end == b.len() {
            Some(m)
        } else {
            None
        },
        None => None,
    }
}

/// Every length in the message fits a header argument.
pub open spec fn message_wf(m: crate::message::MessageV) -> bool {
    match m {
        crate::message::MessageV::ClientSetup(s) => text_wf(s.protocol_version) && bytes_wf(
            s.client_public_key,
        ) && text_list_wf(s.cipher_suits) && text_wf(s.compression),
        crate::message::MessageV::ClientAuthentification(a) => text_wf(a.username) && text_wf(
            a.password,
        ),
        crate::message::MessageV::Insert(i) => text_wf(i.collection) && text_list_wf(i.acl)
            && bytes_wf(i.data) && text_list_wf(i.usecases),
        crate::message::MessageV::InsertOpe(i) => text_wf(i.collection) && text_list_wf(i.acl)
            && bytes_wf(i.data) && text_list_wf(i.usecases),
        crate::message::MessageV::InsertResponse { inserted_id } => text_wf(inserted_id),
        crate::message::MessageV::Query(q) => query_wf(q),
        crate::message::MessageV::QueryResponse { data, nonces } => bytes_list_wf(data) && (
        nonces matches Some(vs) ==> bytes_list_wf(vs)),
        crate::message::MessageV::SingleValueResponse { data, nonce } => (data matches Some(v)
            ==> bytes_wf(v)) && (nonce matches Some(v) ==> bytes_wf(v)),
        crate::message::MessageV::Count(v) => count_subject_wf(v),
        crate::message::MessageV::CountResponse(_) => true,
        crate::message::MessageV::Update(u) => text_wf(u.collection) && text_wf(u.id) && bytes_wf(
            u.new_value,
        ),
        crate::message::MessageV::UpdateResponse { .. } => true,
        crate::message::MessageV::Delete(d) => text_wf(d.collection) && text_wf(d.id),
        crate::message::MessageV::DeleteResult(_) => true,
        crate::message::MessageV::DeleteForUsecase { collection, id } => text_wf(collection)
            && text_wf(id),
        crate::message::MessageV::Drop(v) => drop_subject_wf(v),
        crate::message::MessageV::DropResult(_) => true,
        crate::message::MessageV::EndOfCommunication => true,
        crate::message::MessageV::CloseCommunication => true,
    }
}

/// Decoding a message inverts encoding it: the round trip of the codec.
pub proof fn lemma_message_round_trip(m: crate::message::MessageV)
    requires
        message_wf(m),
    ensures
        spec_dec_message_full(spec_enc_message(m)) == Some(m),
{
    let b = spec_enc_message(m);
    assert(b.subrange(0, b.len() as int) =~= b);
    lemma_message_round_trip_at(b, 0, m);
}

/// Decoding a message item after any prefix yields what was encoded.
pub proof fn lemma_message_round_trip_at(b: Seq<u8>, pos: int, m: crate::message::MessageV)
    requires
        0 <= pos,
        message_wf(m),
        pos + spec_enc_message(m).len() <= b.len(),
        b.subrange(pos, pos + spec_enc_message(m).len() as int) == spec_enc_message(m),
    ensures
        spec_dec_message(b, pos) == Some((m, pos + spec_enc_message(m).len() as int)),
{
    match m {
        crate::message::MessageV::ClientSetup(_) => lemma_message_round_trip_a(b, pos, m),
        crate::message::MessageV::ClientAuthentification(_) => lemma_message_round_trip_a(b, pos, m),
        crate::message::MessageV::Insert(_) => lemma_message_round_trip_a(b, pos, m),
        crate::message::MessageV::InsertOpe(_) => lemma_message_round_trip_a(b, pos, m),
        crate::message::MessageV::InsertResponse { .. } => lemma_message_round_trip_a(b, pos, m),
        crate::message::MessageV::Query(_) => lemma_message_round_trip_b(b, pos, m),
        crate::message::MessageV::QueryResponse { .. } => lemma_message_round_trip_b2(b, pos, m),
        crate::message::MessageV::SingleValueResponse { .. } => lemma_message_round_trip_b2(b, pos, m),
        crate::message::MessageV::Count(_) => lemma_message_round_trip_b2(b, pos, m),
        crate::message::MessageV::CountResponse(_) => lemma_message_round_trip_b2(b, pos, m),
        crate::message::MessageV::Update(_) => lemma_message_round_trip_c(b, pos, m),
        crate::message::MessageV::UpdateResponse { .. } => lemma_message_round_trip_c(b, pos, m),
        crate::message::MessageV::Delete(_) => lemma_message_round_trip_c(b, pos, m),
        crate::message::MessageV::DeleteResult(_) => lemma_message_round_trip_c(b, pos, m),
        crate::message::MessageV::DeleteForUsecase { .. } => lemma_message_round_trip_c(b, pos, m),
        crate::message::MessageV::Drop(_) => lemma_message_round_trip_d(b, pos, m),
        crate::message::MessageV::DropResult(_) => lemma_message_round_trip_d(b, pos, m),
        crate::message::MessageV::EndOfCommunication => lemma_message_round_trip_d(b, pos, m),
        crate::message::MessageV::CloseCommunication => lemma_message_round_trip_d(b, pos, m),
    }
}

/// Round trip for one group of variants.
#[verifier::rlimit(100)]
proof fn lemma_message_round_trip_a(b: Seq<u8>, pos: int, m: crate::message::MessageV)
    requires
        0 <= pos,
        message_wf(m),
        m is ClientSetup || m is ClientAuthentification || m is Insert || m is InsertOpe || m is InsertResponse,
        pos + spec_enc_message(m).len() <= b.len(),
        b.subrange(pos, pos + spec_enc_message(m).len() as int) == spec_enc_message(m),
    ensures
        spec_dec_message(b, pos) == Some((m, pos + spec_enc_message(m).len() as int)),
{
    match m {
        crate::message::MessageV::ClientSetup(s) => {
            let e1 = spec_header(4, 5);
            let e2 = spec_enc_u64(0);
            let e3 = spec_enc_text(s.protocol_version);
            let e4 = spec_enc_bytes(s.client_public_key);
            let e5 = spec_enc_text_list(s.cipher_suits);
            let e6 = spec_enc_text(s.compression);
            lemma_split6(b, pos, e1, e2, e3, e4, e5, e6);
            lemma_header_round_trip(b, pos, 4, 5);
            lemma_u64_round_trip(b, pos + e1.len() as int, 0);
            lemma_text_round_trip(b, pos + e1.len() + e2.len(), s.protocol_version);
            lemma_bytes_round_trip(b, pos + e1.len() + e2.len() + e3.len(), s.client_public_key);
            lemma_text_list_round_trip(
                b,
                pos + e1.len() + e2.len() + e3.len() + e4.len(),
                s.cipher_suits,
            );
            lemma_text_round_trip(
                b,
                pos + e1.len() + e2.len() + e3.len() + e4.len() + e5.len(),
                s.compression,
            );
        }
        crate::message::MessageV::ClientAuthentification(a) => {
            let e1 = spec_header(4, 3);
            let e2 = spec_enc_u64(1);
            let e3 = spec_enc_text(a.username);
            let e4 = spec_enc_text(a.password);
            lemma_split4(b, pos, e1, e2, e3, e4);
            lemma_header_round_trip(b, pos, 4, 3);
            lemma_u64_round_trip(b, pos + e1.len() as int, 1);
            lemma_text_round_trip(b, pos + e1.len() + e2.len(), a.username);
            lemma_text_round_trip(b, pos + e1.len() + e2.len() + e3.len(), a.password);
        }
        crate::message::MessageV::Insert(i) => {
            lemma_insertion_round_trip(b, pos, i, 2);
        }
        crate::message::MessageV::InsertOpe(i) => {
            lemma_insertion_round_trip(b, pos, i, 17);
        }
        crate::message::MessageV::InsertResponse { inserted_id } => {
            let e1 = spec_header(4, 2);
            let e2 = spec_enc_u64(3);
            let e3 = spec_enc_text(inserted_id);
            lemma_split3(b, pos, e1, e2, e3);
            lemma_header_round_trip(b, pos, 4, 2);
            lemma_u64_round_trip(b, pos + e1.len() as int, 3);
            lemma_text_round_trip(b, pos + e1.len() + e2.len(), inserted_id);
        }
        _ => {}
    }
}

/// Round trip for one group of variants.
#[verifier::rlimit(100)]
proof fn lemma_message_round_trip_b(b: Seq<u8>, pos: int, m: crate::message::MessageV)
    requires
        0 <= pos,
        message_wf(m),
        m is Query,
        pos + spec_enc_message(m).len() <= b.len(),
        b.subrange(pos, pos + spec_enc_message(m).len() as int) == spec_enc_message(m),
    ensures
        spec_dec_message(b, pos) == Some((m, pos + spec_enc_message(m).len() as int)),
{
    match m {
        crate::message::MessageV::Query(q) => {
            let e1 = spec_header(4, 2);
            let e2 = spec_enc_u64(4);
            let e3 = spec_enc_query(q);
            lemma_split3(b, pos, e1, e2, e3);
            lemma_header_round_trip(b, pos, 4, 2);
            lemma_u64_round_trip(b, pos + e1.len() as int, 4);
            lemma_query_round_trip(b, pos + e1.len() + e2.len(), q);
        }
        _ => {}
    }
}

/// Round trip for one group of variants.
#[verifier::rlimit(100)]
proof fn lemma_message_round_trip_b2(b: Seq<u8>, pos: int, m: crate::message::MessageV)
    requires
        0 <= pos,
        message_wf(m),
        m is QueryResponse || m is SingleValueResponse || m is Count || m is CountResponse,
        pos + spec_enc_message(m).len() <= b.len(),
        b.subrange(pos, pos + spec_enc_message(m).len() as int) == spec_enc_message(m),
    ensures
        spec_dec_message(b, pos) == Some((m, pos + spec_enc_message(m).len() as int)),
{
    match m {
        crate::message::MessageV::QueryResponse { data, nonces } => {
            let e1 = spec_header(4, 3);
            let e2 = spec_enc_u64(5);
            let e3 = spec_enc_bytes_list(data);
            let e4 = spec_enc_opt_bytes_list(nonces);
            lemma_split4(b, pos, e1, e2, e3, e4);
            lemma_header_round_trip(b, pos, 4, 3);
            lemma_u64_round_trip(b, pos + e1.len() as int, 5);
            lemma_bytes_list_round_trip(b, pos + e1.len() + e2.len(), data);
            lemma_opt_bytes_list_round_trip(b, pos + e1.len() + e2.len() + e3.len(), nonces);
        }
        crate::message::MessageV::SingleValueResponse { data, nonce } => {
            let e1 = spec_header(4, 3);
            let e2 = spec_enc_u64(6);
            let e3 = spec_enc_opt_bytes(data);
            let e4 = spec_enc_opt_bytes(nonce);
            lemma_split4(b, pos, e1, e2, e3, e4);
            lemma_header_round_trip(b, pos, 4, 3);
            lemma_u64_round_trip(b, pos + e1.len() as int, 6);
            lemma_opt_bytes_round_trip(b, pos + e1.len() + e2.len(), data);
            lemma_opt_bytes_round_trip(b, pos + e1.len() + e2.len() + e3.len(), nonce);
        }
        crate::message::MessageV::Count(v) => {
            let e1 = spec_header(4, 2);
            let e2 = spec_enc_u64(7);
            let e3 = spec_enc_count_subject(v);
            lemma_split3(b, pos, e1, e2, e3);
            lemma_header_round_trip(b, pos, 4, 2);
            lemma_u64_round_trip(b, pos + e1.len() as int, 7);
            lemma_count_subject_round_trip(b, pos + e1.len() + e2.len(), v);
        }
        crate::message::MessageV::CountResponse(n) => {
            let e1 = spec_header(4, 2);
            let e2 = spec_enc_u64(18);
            let e3 = spec_enc_u64(n as u64);
            lemma_split3(b, pos, e1, e2, e3);
            lemma_header_round_trip(b, pos, 4, 2);
            lemma_u64_round_trip(b, pos + e1.len() as int, 18);
            lemma_u64_round_trip(b, pos + e1.len() + e2.len(), n as u64);
        }
        _ => {}
    }
}

/// Round trip for one group of variants.
#[verifier::rlimit(100)]
proof fn lemma_message_round_trip_c(b: Seq<u8>, pos: int, m: crate::message::MessageV)
    requires
        0 <= pos,
        message_wf(m),
        m is Update || m is UpdateResponse || m is Delete || m is DeleteResult || m is DeleteForUsecase,
        pos + spec_enc_message(m).len() <= b.len(),
        b.subrange(pos, pos + spec_enc_message(m).len() as int) == spec_enc_message(m),
    ensures
        spec_dec_message(b, pos) == Some((m, pos + spec_enc_message(m).len() as int)),
{
    match m {
        crate::message::MessageV::Update(u) => {
            let e1 = spec_header(4, 4);
            let e2 = spec_enc_u64(8);
            let e3 = spec_enc_text(u.collection);
            let e4 = spec_enc_text(u.id);
            let e5 = spec_enc_bytes(u.new_value);
            lemma_split5(b, pos, e1, e2, e3, e4, e5);
            lemma_header_round_trip(b, pos, 4, 4);
            lemma_u64_round_trip(b, pos + e1.len() as int, 8);
            lemma_text_round_trip(b, pos + e1.len() + e2.len(), u.collection);
            lemma_text_round_trip(b, pos + e1.len() + e2.len() + e3.len(), u.id);
            lemma_bytes_round_trip(b, pos + e1.len() + e2.len() + e3.len() + e4.len(), u.new_value);
        }
        crate::message::MessageV::UpdateResponse { status } => {
            let e1 = spec_header(4, 2);
            let e2 = spec_enc_u64(9);
            let e3 = spec_enc_u64(spec_update_status_code(status));
            lemma_split3(b, pos, e1, e2, e3);
            lemma_header_round_trip(b, pos, 4, 2);
            lemma_u64_round_trip(b, pos + e1.len() as int, 9);
            lemma_u64_round_trip(b, pos + e1.len() + e2.len(), spec_update_status_code(status));
        }
        crate::message::MessageV::Delete(d) => {
            let e1 = spec_header(4, 3);
            let e2 = spec_enc_u64(10);
            let e3 = spec_enc_text(d.collection);
            let e4 = spec_enc_text(d.id);
            lemma_split4(b, pos, e1, e2, e3, e4);
            lemma_header_round_trip(b, pos, 4, 3);
            lemma_u64_round_trip(b, pos + e1.len() as int, 10);
            lemma_text_round_trip(b, pos + e1.len() + e2.len(), d.collection);
            lemma_text_round_trip(b, pos + e1.len() + e2.len() + e3.len(), d.id);
        }
        crate::message::MessageV::DeleteResult(ok) => {
            let e1 = spec_header(4, 2);
            let e2 = spec_enc_u64(11);
            let e3 = spec_enc_bool(ok);
            lemma_split3(b, pos, e1, e2, e3);
            lemma_header_round_trip(b, pos, 4, 2);
            lemma_u64_round_trip(b, pos + e1.len() as int, 11);
            lemma_bool_round_trip(b, pos + e1.len() + e2.len(), ok);
        }
        crate::message::MessageV::DeleteForUsecase { collection, id } => {
            let e1 = spec_header(4, 3);
            let e2 = spec_enc_u64(12);
            let e3 = spec_enc_text(collection);
            let e4 = spec_enc_text(id);
            lemma_split4(b, pos, e1, e2, e3, e4);
            lemma_header_round_trip(b, pos, 4, 3);
            lemma_u64_round_trip(b, pos + e1.len() as int, 12);
            lemma_text_round_trip(b, pos + e1.len() + e2.len(), collection);
            lemma_text_round_trip(b, pos + e1.len() + e2.len() + e3.len(), id);
        }
        _ => {}
    }
}

/// Round trip for one group of variants.
#[verifier::rlimit(100)]
proof fn lemma_message_round_trip_d(b: Seq<u8>, pos: int, m: crate::message::MessageV)
    requires
        0 <= pos,
        message_wf(m),
        m is Drop || m is DropResult || m is EndOfCommunication || m is CloseCommunication,
        pos + spec_enc_message(m).len() <= b.len(),
        b.subrange(pos, pos + spec_enc_message(m).len() as int) == spec_enc_message(m),
    ensures
        spec_dec_message(b, pos) == Some((m, pos + spec_enc_message(m).len() as int)),
{
    match m {
        crate::message::MessageV::Drop(v) => {
            let e1 = spec_header(4, 2);
            let e2 = spec_enc_u64(13);
            let e3 = spec_enc_drop_subject(v);
            lemma_split3(b, pos, e1, e2, e3);
            lemma_header_round_trip(b, pos, 4, 2);
            lemma_u64_round_trip(b, pos + e1.len() as int, 13);
            lemma_drop_subject_round_trip(b, pos + e1.len() + e2.len(), v);
        }
        crate::message::MessageV::DropResult(ok) => {
            let e1 = spec_header(4, 2);
            let e2 = spec_enc_u64(14);
            let e3 = spec_enc_bool(ok);
            lemma_split3(b, pos, e1, e2, e3);
            lemma_header_round_trip(b, pos, 4, 2);
            lemma_u64_round_trip(b, pos + e1.len() as int, 14);
            lemma_bool_round_trip(b, pos + e1.len() + e2.len(), ok);
        }
        crate::message::MessageV::EndOfCommunication => {
            let e1 = spec_header(4, 1);
            let e2 = spec_enc_u64(15);
            lemma_concat_at(b, pos, e1, e2);
            lemma_header_round_trip(b, pos, 4, 1);
            lemma_u64_round_trip(b, pos + e1.len() as int, 15);
        }
        crate::message::MessageV::CloseCommunication => {
            let e1 = spec_header(4, 1);
            let e2 = spec_enc_u64(16);
            lemma_concat_at(b, pos, e1, e2);
            lemma_header_round_trip(b, pos, 4, 1);
            lemma_u64_round_trip(b, pos + e1.len() as int, 16);
        }
        _ => {}
    }
}

/// The shared field layout of the two insertion variants.
proof fn lemma_insertion_round_trip(b: Seq<u8>, pos: int, i: crate::message::InsertionV, disc: u64)
    requires
        0 <= pos,
        disc == 2 || disc == 17,
        text_wf(i.collection) && text_list_wf(i.acl) && bytes_wf(i.data) && text_list_wf(
            i.usecases,
        ),
        pos + spec_enc_insertion(i, disc).len() <= b.len(),
        b.subrange(pos, pos + spec_enc_insertion(i, disc).len() as int) == spec_enc_insertion(
            i,
            disc,
        ),
    ensures
        spec_dec_message(b, pos) == Some(
            (
                if disc == 2 {
                    crate::message::MessageV::Insert(i)
                } else {
                    crate::message::MessageV::InsertOpe(i)
                },
                pos + spec_enc_insertion(i, disc).len() as int,
            ),
        ),
{
    let e1 = spec_header(4, 5);
    let e2 = spec_enc_u64(disc);
    let e3 = spec_enc_text(i.collection);
    let e4 = spec_enc_text_list(i.acl);
    let e5 = spec_enc_bytes(i.data);
    let e6 = spec_enc_text_list(i.usecases);
    lemma_split6(b, pos, e1, e2, e3, e4, e5, e6);
    lemma_header_round_trip(b, pos, 4, 5);
    lemma_u64_round_trip(b, pos + e1.len() as int, disc);
    lemma_text_round_trip(b, pos + e1.len() + e2.len(), i.collection);
    lemma_text_list_round_trip(b, pos + e1.len() + e2.len() + e3.len(), i.acl);
    lemma_bytes_round_trip(b, pos + e1.len() + e2.len() + e3.len() + e4.len(), i.data);
    lemma_text_list_round_trip(
        b,
        pos + e1.len() + e2.len() + e3.len() + e4.len() + e5.len(),
        i.usecases,
    );
}

/// An insertion message with the given discriminator.
pub open spec fn spec_enc_insertion(i: crate::message::InsertionV, disc: u64) -> Seq<u8> {
    spec_header(4, 5) + spec_enc_u64(disc) + spec_enc_text(i.collection) + spec_enc_text_list(i.acl)
        + spec_enc_bytes(i.data) + spec_enc_text_list(i.usecases)
}

// ---------------------------------------------------------------------
// list encodings grow one element at a time
// ---------------------------------------------------------------------

pub proof fn lemma_enc_text_items_push(ss: Seq<Seq<char>>, x: Seq<char>)
    ensures
        spec_enc_text_items(ss.push(x)) == spec_enc_text_items(ss) + spec_enc_text(x),
    decreases ss.len(),
{
    if ss.len() == 0 {
        reveal_with_fuel(spec_enc_text_items, 3);
        assert(ss.push(x)[0] == x);
        assert(ss.push(x).drop_first() =~= Seq::<Seq<char>>::empty());
        assert(spec_enc_text_items(ss) + spec_enc_text(x) =~= spec_enc_text(x));
        assert(spec_enc_text_items(ss.push(x)) =~= spec_enc_text(x) + Seq::<u8>::empty());
        assert(spec_enc_text(x) + Seq::<u8>::empty() =~= spec_enc_text(x));
    } else {
        assert(ss.push(x).drop_first() =~= ss.drop_first().push(x));
        lemma_enc_text_items_push(ss.drop_first(), x);
        assert(spec_enc_text(ss[0]) + (spec_enc_text_items(ss.drop_first()) + spec_enc_text(x))
            =~= (spec_enc_text(ss[0]) + spec_enc_text_items(ss.drop_first())) + spec_enc_text(x));
    }
}

pub proof fn lemma_enc_bytes_items_push(vs: Seq<Seq<u8>>, x: Seq<u8>)
    ensures
        spec_enc_bytes_items(vs.push(x)) == spec_enc_bytes_items(vs) + spec_enc_bytes(x),
    decreases vs.len(),
{
    if vs.len() == 0 {
        reveal_with_fuel(spec_enc_bytes_items, 3);
        assert(vs.push(x)[0] == x);
        assert(vs.push(x).drop_first() =~= Seq::<Seq<u8>>::empty());
        assert(spec_enc_bytes_items(vs) + spec_enc_bytes(x) =~= spec_enc_bytes(x));
        assert(spec_enc_bytes_items(vs.push(x)) =~= spec_enc_bytes(x) + Seq::<u8>::empty());
        assert(spec_enc_bytes(x) + Seq::<u8>::empty() =~= spec_enc_bytes(x));
    } else {
        assert(vs.push(x).drop_first() =~= vs.drop_first().push(x));
        lemma_enc_bytes_items_push(vs.drop_first(), x);
        assert(spec_enc_bytes(vs[0]) + (spec_enc_bytes_items(vs.drop_first()) + spec_enc_bytes(x))
            =~= (spec_enc_bytes(vs[0]) + spec_enc_bytes_items(vs.drop_first())) + spec_enc_bytes(
            x,
        ));
    }
}

pub proof fn lemma_enc_query_items_push(qs: Seq<crate::query::QueryV>, x: crate::query::QueryV)
    ensures
        spec_enc_query_items(qs.push(x)) == spec_enc_query_items(qs) + spec_enc_query(x),
    decreases qs.len(),
{
    if qs.len() == 0 {
        reveal_with_fuel(spec_enc_query_items, 3);
        assert(qs.push(x)[0] == x);
        assert(qs.push(x).drop_first() =~= Seq::<crate::query::QueryV>::empty());
        assert(spec_enc_query_items(qs) + spec_enc_query(x) =~= spec_enc_query(x));
        assert(spec_enc_query_items(qs.push(x)) =~= spec_enc_query(x) + Seq::<u8>::empty());
        assert(spec_enc_query(x) + Seq::<u8>::empty() =~= spec_enc_query(x));
    } else {
        assert(qs.push(x).drop_first() =~= qs.drop_first().push(x));
        lemma_enc_query_items_push(qs.drop_first(), x);
        assert(spec_enc_query(qs[0]) + (spec_enc_query_items(qs.drop_first()) + spec_enc_query(x))
            =~= (spec_enc_query(qs[0]) + spec_enc_query_items(qs.drop_first())) + spec_enc_query(
            x,
        ));
    }
}

pub proof fn lemma_queries_wf_push(qs: Seq<crate::query::QueryV>, x: crate::query::QueryV)
    requires
        queries_wf(qs),
        query_wf(x),
    ensures
        queries_wf(qs.push(x)),
    decreases qs.len(),
{
    if qs.len() == 0 {
        reveal_with_fuel(queries_wf, 3);
        assert(qs.push(x)[0] == x);
        assert(qs.push(x).drop_first() =~= Seq::<crate::query::QueryV>::empty());
    } else {
        assert(qs.push(x).drop_first() =~= qs.drop_first().push(x));
        lemma_queries_wf_push(qs.drop_first(), x);
        assert(qs.push(x)[0] == qs[0]);
    }
}

// ---------------------------------------------------------------------
// executable encoders
// ---------------------------------------------------------------------

/// Writes an unsigned integer item.
pub fn push_u64(out: &mut Vec<u8>, n: u64)
    ensures
        final(out)@ == old(out)@ + spec_enc_u64(n),
{
    push_header(out, 0, n);
}

/// Writes a signed integer item.
pub fn push_i64(out: &mut Vec<u8>, x: i64)
    ensures
        final(out)@ == old(out)@ + spec_enc_i64(x),
{
    if x >= 0 {
        push_header(out, 0, x as u64);
    } else {
        push_header(out, 1, (-1 - x) as u64);
    }
}

/// Writes a boolean item.
pub fn push_bool(out: &mut Vec<u8>, v: bool)
    ensures
        final(out)@ == old(out)@ + spec_enc_bool(v),
{
    let ghost pre = out@;
    if v {
        out.push(0xf5u8);
    } else {
        out.push(0xf4u8);
    }
    proof {
        assert(out@ =~= pre + spec_enc_bool(v));
    }
}

/// Writes the null item.
pub fn push_null(out: &mut Vec<u8>)
    ensures
        final(out)@ == old(out)@ + spec_null(),
{
    let ghost pre = out@;
    out.push(0xf6u8);
    proof {
        assert(out@ =~= pre + spec_null());
    }
}

/// Writes a byte string item.
pub fn push_bytes(out: &mut Vec<u8>, v: &Vec<u8>)
    ensures
        final(out)@ == old(out)@ + spec_enc_bytes(v@),
        bytes_wf(v@),
{
    let ghost pre = out@;
    push_header(out, 2, v.len() as u64);
    let mut i: usize = 0;
    while i < v.len()
        invariant
            i <= v@.len(),
            out@ == pre + spec_header(2, v@.len() as u64) + v@.subrange(0, i as int),
        decreases v@.len() - i,
    {
        out.push(v[i]);
        proof {
            assert(v@.subrange(0, i + 1) =~= v@.subrange(0, i as int).push(v@[i as int]));
            assert((pre + spec_header(2, v@.len() as u64) + v@.subrange(0, i as int)).push(
                v@[i as int],
            ) =~= pre + spec_header(2, v@.len() as u64) + v@.subrange(0, i + 1));
        }
        i = i + 1;
    }
    proof {
        assert(v@.subrange(0, v@.len() as int) =~= v@);
        assert(pre + spec_header(2, v@.len() as u64) + v@ =~= pre + spec_enc_bytes(v@));
    }
}

/// Writes a text string item.
pub fn push_text(out: &mut Vec<u8>, s: &str)
    ensures
        final(out)@ == old(out)@ + spec_enc_text(s@),
        text_wf(s@),
{
    let ghost pre = out@;
    let bv = vstd::string::StrSliceExecFns::as_bytes_vec(s);
    push_bytes(out, &bv);
    proof {
        assert(bv@ == encode_utf8(s@));
        assert(out@ =~= pre + (spec_header(2, bv@.len() as u64) + bv@));
    }
    let last = out.len() - 1;
    let ghost mid = out@;
    // rewrite the header's major type from byte string to text string
    let hpos = out.len() - bv.len() - header_len_of(bv.len() as u64);
    set_text_major(out, hpos);
    proof {
        lemma_header_len(2, bv@.len() as u64);
        lemma_retag_text(pre, bv@, out@, mid);
    }
}

/// The byte length of the canonical header for `arg`.
fn header_len_of(arg: u64) -> (r: usize)
    ensures
        r == spec_header(0, arg).len(),
        spec_header(0, arg).len() == spec_header(2, arg).len(),
        spec_header(0, arg).len() == spec_header(3, arg).len(),
        spec_header(0, arg).len() == spec_header(4, arg).len(),
{
    proof {
        lemma_be_bytes_len(arg as nat, 1);
        lemma_be_bytes_len(arg as nat, 2);
        lemma_be_bytes_len(arg as nat, 4);
        lemma_be_bytes_len(arg as nat, 8);
    }
    if arg < 24 {
        1
    } else if arg < 256 {
        2
    } else if arg < 65536 {
        3
    } else if arg < 0x1_0000_0000 {
        5
    } else {
        9
    }
}

/// Turns the byte-string header at `hpos` into a text-string header.
fn set_text_major(out: &mut Vec<u8>, hpos: usize)
    requires
        hpos < old(out)@.len(),
        64 <= old(out)@[hpos as int] < 96,
    ensures
        final(out)@ == old(out)@.update(hpos as int, (old(out)@[hpos as int] + 32) as u8),
{
    let b = out[hpos];
    out.set(hpos, b + 32);
}

/// Re-tagging the header of a byte string yields the text string item.
proof fn lemma_retag_text(pre: Seq<u8>, bv: Seq<u8>, now: Seq<u8>, mid: Seq<u8>)
    requires
        mid == pre + (spec_header(2, bv.len() as u64) + bv),
        spec_header(2, bv.len() as u64).len() >= 1,
        now == mid.update(
            pre.len() as int,
            (mid[pre.len() as int] + 32) as u8,
        ),
        64 <= mid[pre.len() as int] < 96,
    ensures
        now == pre + (spec_header(3, bv.len() as u64) + bv),
{
    let h2 = spec_header(2, bv.len() as u64);
    let h3 = spec_header(3, bv.len() as u64);
    lemma_be_bytes_len(bv.len() as u64 as nat, 1);
    lemma_be_bytes_len(bv.len() as u64 as nat, 2);
    lemma_be_bytes_len(bv.len() as u64 as nat, 4);
    lemma_be_bytes_len(bv.len() as u64 as nat, 8);
    assert(h2.len() == h3.len());
    assert(h3[0] == (h2[0] + 32) as u8);
    assert(forall|i: int| 1 <= i < h2.len() ==> #[trigger] h2[i] == h3[i]);
    assert(now =~= pre + (h3 + bv));
}

/// Writes a list of text strings.
pub fn push_text_list(out: &mut Vec<u8>, ss: &Vec<String>)
    ensures
        final(out)@ == old(out)@ + spec_enc_text_list(ss.deep_view()),
        text_list_wf(ss.deep_view()),
{
    let ghost pre = out@;
    push_header(out, 4, ss.len() as u64);
    let mut i: usize = 0;
    proof {
        assert(ss.deep_view().take(0) =~= Seq::<Seq<char>>::empty());
        assert(out@ =~= pre + spec_header(4, ss.deep_view().len() as u64) + spec_enc_text_items(
            ss.deep_view().take(0),
        ));
    }
    while i < ss.len()
        invariant
            i <= ss.deep_view().len(),
            ss.deep_view().len() < 0x1_0000_0000_0000_0000,
            out@ == pre + spec_header(4, ss.deep_view().len() as u64) + spec_enc_text_items(
                ss.deep_view().take(i as int),
            ),
            forall|k: int| 0 <= k < i ==> text_wf(#[trigger] ss.deep_view()[k]),
        decreases ss.deep_view().len() - i,
    {
        push_text(out, ss[i].as_str());
        proof {
            assert(ss.deep_view().take(i + 1) =~= ss.deep_view().take(i as int).push(
                ss.deep_view()[i as int],
            ));
            lemma_enc_text_items_push(ss.deep_view().take(i as int), ss.deep_view()[i as int]);
            assert(pre + spec_header(4, ss.deep_view().len() as u64) + spec_enc_text_items(
                ss.deep_view().take(i as int),
            ) + spec_enc_text(ss.deep_view()[i as int]) =~= pre + spec_header(
                4,
                ss.deep_view().len() as u64,
            ) + spec_enc_text_items(ss.deep_view().take(i + 1)));
        }
        i = i + 1;
    }
    proof {
        assert(ss.deep_view().take(ss.deep_view().len() as int) =~= ss.deep_view());
        assert(out@ =~= pre + spec_enc_text_list(ss.deep_view()));
    }
}

/// Writes a list of byte strings.
pub fn push_bytes_list(out: &mut Vec<u8>, vs: &Vec<Vec<u8>>)
    ensures
        final(out)@ == old(out)@ + spec_enc_bytes_list(vs.deep_view()),
        bytes_list_wf(vs.deep_view()),
{
    let ghost pre = out@;
    push_header(out, 4, vs.len() as u64);
    let mut i: usize = 0;
    proof {
        assert(vs.deep_view().take(0) =~= Seq::<Seq<u8>>::empty());
        assert(out@ =~= pre + spec_header(4, vs.deep_view().len() as u64) + spec_enc_bytes_items(
            vs.deep_view().take(0),
        ));
    }
    while i < vs.len()
        invariant
            i <= vs.deep_view().len(),
            vs.deep_view().len() < 0x1_0000_0000_0000_0000,
            out@ == pre + spec_header(4, vs.deep_view().len() as u64) + spec_enc_bytes_items(
                vs.deep_view().take(i as int),
            ),
            forall|k: int| 0 <= k < i ==> bytes_wf(#[trigger] vs.deep_view()[k]),
        decreases vs.deep_view().len() - i,
    {
        push_bytes(out, &vs[i]);
        proof {
            assert(vs.deep_view().take(i + 1) =~= vs.deep_view().take(i as int).push(
                vs.deep_view()[i as int],
            ));
            lemma_enc_bytes_items_push(vs.deep_view().take(i as int), vs.deep_view()[i as int]);
            assert(pre + spec_header(4, vs.deep_view().len() as u64) + spec_enc_bytes_items(
                vs.deep_view().take(i as int),
            ) + spec_enc_bytes(vs.deep_view()[i as int]) =~= pre + spec_header(
                4,
                vs.deep_view().len() as u64,
            ) + spec_enc_bytes_items(vs.deep_view().take(i + 1)));
        }
        i = i + 1;
    }
    proof {
        assert(vs.deep_view().take(vs.deep_view().len() as int) =~= vs.deep_view());
        assert(out@ =~= pre + spec_enc_bytes_list(vs.deep_view()));
    }
}

/// Writes an optional byte string.
pub fn push_opt_bytes(out: &mut Vec<u8>, o: &Option<Vec<u8>>)
    ensures
        final(out)@ == old(out)@ + spec_enc_opt_bytes(o.deep_view()),
        (o.deep_view() matches Some(v) ==> bytes_wf(v)),
{
    match o {
        None => push_null(out),
        Some(v) => push_bytes(out, v),
    }
}

/// Writes an optional signed integer.
pub fn push_opt_i64(out: &mut Vec<u8>, o: &Option<i64>)
    ensures
        final(out)@ == old(out)@ + spec_enc_opt_i64(*o),
{
    match o {
        None => push_null(out),
        Some(x) => push_i64(out, *x),
    }
}

/// Writes an optional list of byte strings.
pub fn push_opt_bytes_list(out: &mut Vec<u8>, o: &Option<Vec<Vec<u8>>>)
    ensures
        final(out)@ == old(out)@ + spec_enc_opt_bytes_list(o.deep_view()),
        (o.deep_view() matches Some(vs) ==> bytes_list_wf(vs)),
{
    match o {
        None => push_null(out),
        Some(vs) => push_bytes_list(out, vs),
    }
}

/// Writes a count subject item.
pub fn push_count_subject(out: &mut Vec<u8>, v: &crate::message::CountSubject)
    ensures
        final(out)@ == old(out)@ + spec_enc_count_subject(v@),
        count_subject_wf(v@),
{
    let ghost pre = out@;
    match v {
        crate::message::CountSubject::Collection(c) => {
            push_header(out, 4, 2);
            push_u64(out, 0);
            push_text(out, c.as_str());
            proof {
                assert(out@ =~= pre + spec_enc_count_subject(v@));
            }
        }
        crate::message::CountSubject::Usecase { collection, usecase } => {
            push_header(out, 4, 3);
            push_u64(out, 1);
            push_text(out, collection.as_str());
            push_text(out, usecase.as_str());
            proof {
                assert(out@ =~= pre + spec_enc_count_subject(v@));
            }
        }
    }
}

/// Writes a drop subject item.
pub fn push_drop_subject(out: &mut Vec<u8>, v: &crate::message::DropSubject)
    ensures
        final(out)@ == old(out)@ + spec_enc_drop_subject(v@),
        drop_subject_wf(v@),
{
    let ghost pre = out@;
    match v {
        crate::message::DropSubject::Collection(c) => {
            push_header(out, 4, 2);
            push_u64(out, 0);
            push_text(out, c.as_str());
            proof {
                assert(out@ =~= pre + spec_enc_drop_subject(v@));
            }
        }
        crate::message::DropSubject::Usecase { collection, usecase } => {
            push_header(out, 4, 3);
            push_u64(out, 1);
            push_text(out, collection.as_str());
            push_text(out, usecase.as_str());
            proof {
                assert(out@ =~= pre + spec_enc_drop_subject(v@));
            }
        }
    }
}

/// Writes one query item.
#[verifier::rlimit(100)]
pub fn push_query(out: &mut Vec<u8>, q: &crate::query::Query)
    ensures
        final(out)@ == old(out)@ + spec_enc_query(q@),
        query_wf(q@),
    decreases *q,
{
    let ghost pre = out@;
    match q {
        crate::query::Query::Single(s) => {
            push_header(out, 4, 5);
            push_u64(out, 0);
            push_text(out, s.collection.as_str());
            push_text(out, s.usecase.as_str());
            push_opt_i64(out, &s.upper_limit);
            push_opt_i64(out, &s.lower_limit);
            proof {
                assert(out@ =~= pre + spec_enc_query(q@));
            }
        }
        crate::query::Query::Compound(c) => {
            push_header(out, 4, 4);
            push_u64(out, 1);
            match c.query_type {
                crate::query::QueryType::And => push_u64(out, 0),
                crate::query::QueryType::Or => push_u64(out, 1),
            }
            push_header(out, 4, c.queries.len() as u64);
            let ghost mid = out@;
            let ghost qsv = crate::query::spec_queries_view(c.queries@);
            proof {
                crate::query::lemma_queries_view_index(c.queries@);
                assert(qsv.take(0) =~= Seq::<crate::query::QueryV>::empty());
                assert(out@ =~= mid + spec_enc_query_items(qsv.take(0)));
            }
            let mut i: usize = 0;
            while i < c.queries.len()
                invariant
                    *q == crate::query::Query::Compound(*c),
                    qsv == crate::query::spec_queries_view(c.queries@),
                    i <= qsv.len(),
                    qsv.len() == c.queries@.len() < 0x1_0000_0000_0000_0000,
                    forall|k: int|
                        0 <= k < qsv.len() ==> #[trigger] qsv[k] == crate::query::spec_query_view(
                            c.queries@[k],
                        ),
                    out@ == mid + spec_enc_query_items(qsv.take(i as int)),
                    queries_wf(qsv.take(i as int)),
                decreases qsv.len() - i,
            {
                proof {
                    assert(*c == q->Compound_0);
                    assert(decreases_to!(*q => q->Compound_0));
                    assert(decreases_to!(*c => c.queries));
                    assert(decreases_to!(c.queries => c.queries@));
                    assert(decreases_to!(c.queries@ => c.queries@[i as int]));
                }
                push_query(out, &c.queries[i]);
                // the recursive call descends into one branch of this query
                proof {
                    assert(qsv.take(i + 1) =~= qsv.take(i as int).push(qsv[i as int]));
                    lemma_enc_query_items_push(qsv.take(i as int), qsv[i as int]);
                    lemma_queries_wf_push(qsv.take(i as int), qsv[i as int]);
                    assert(mid + spec_enc_query_items(qsv.take(i as int)) + spec_enc_query(
                        qsv[i as int],
                    ) =~= mid + spec_enc_query_items(qsv.take(i + 1)));
                }
                i = i + 1;
            }
            proof {
                assert(qsv.take(qsv.len() as int) =~= qsv);
                assert(out@ =~= pre + spec_enc_query(q@));
            }
        }
        crate::query::Query::GetById { id, collection } => {
            push_header(out, 4, 3);
            push_u64(out, 2);
            push_text(out, id.as_str());
            push_text(out, collection.as_str());
            proof {
                assert(out@ =~= pre + spec_enc_query(q@));
            }
        }
        crate::query::Query::GetByIds { ids, collection } => {
            push_header(out, 4, 3);
            push_u64(out, 3);
            push_text_list(out, ids);
            push_text(out, collection.as_str());
            proof {
                assert(out@ =~= pre + spec_enc_query(q@));
            }
        }
    }
}

/// Encodes one message as its payload bytes.
pub fn encode_message(m: &crate::message::Message) -> (r: Vec<u8>)
    ensures
        r@ == spec_enc_message(m@),
        message_wf(m@),
{
    let mut out: Vec<u8> = Vec::new();
    let ghost pre = out@;
    match m {
        crate::message::Message::ClientSetup(s) => {
            push_header(&mut out, 4, 5);
            push_u64(&mut out, 0);
            push_text(&mut out, s.protocol_version.as_str());
            push_bytes(&mut out, &s.client_public_key);
            push_text_list(&mut out, &s.cipher_suits);
            push_text(&mut out, s.compression.as_str());
        }
        crate::message::Message::ClientAuthentification(a) => {
            push_header(&mut out, 4, 3);
            push_u64(&mut out, 1);
            push_text(&mut out, a.username.as_str());
            push_text(&mut out, a.password.as_str());
        }
        crate::message::Message::Insert(i) => {
            push_header(&mut out, 4, 5);
            push_u64(&mut out, 2);
            push_text(&mut out, i.collection.as_str());
            push_text_list(&mut out, &i.acl);
            push_bytes(&mut out, &i.data);
            push_text_list(&mut out, &i.usecases);
        }
        crate::message::Message::InsertOpe(i) => {
            push_header(&mut out, 4, 5);
            push_u64(&mut out, 17);
            push_text(&mut out, i.collection.as_str());
            push_text_list(&mut out, &i.acl);
            push_bytes(&mut out, &i.data);
            push_text_list(&mut out, &i.usecases);
        }
        crate::message::Message::InsertResponse { inserted_id } => {
            push_header(&mut out, 4, 2);
            push_u64(&mut out, 3);
            push_text(&mut out, inserted_id.as_str());
        }
        crate::message::Message::Query(q) => {
            push_header(&mut out, 4, 2);
            push_u64(&mut out, 4);
            push_query(&mut out, q);
        }
        crate::message::Message::QueryResponse { data, nonces } => {
            push_header(&mut out, 4, 3);
            push_u64(&mut out, 5);
            push_bytes_list(&mut out, data);
            push_opt_bytes_list(&mut out, nonces);
        }
        crate::message::Message::SingleValueResponse { data, nonce } => {
            push_header(&mut out, 4, 3);
            push_u64(&mut out, 6);
            push_opt_bytes(&mut out, data);
            push_opt_bytes(&mut out, nonce);
        }
        crate::message::Message::Count(v) => {
            push_header(&mut out, 4, 2);
            push_u64(&mut out, 7);
            push_count_subject(&mut out, v);
        }
        crate::message::Message::CountResponse(n) => {
            push_header(&mut out, 4, 2);
            push_u64(&mut out, 18);
            push_u64(&mut out, *n as u64);
        }
        crate::message::Message::Update(u) => {
            push_header(&mut out, 4, 4);
            push_u64(&mut out, 8);
            push_text(&mut out, u.collection.as_str());
            push_text(&mut out, u.id.as_str());
            push_bytes(&mut out, &u.new_value);
        }
        crate::message::Message::UpdateResponse { status } => {
            push_header(&mut out, 4, 2);
            push_u64(&mut out, 9);
            match status {
                crate::message::UpdateStatus::Success => push_u64(&mut out, 0),
                crate::message::UpdateStatus::Failure => push_u64(&mut out, 1),
                crate::message::UpdateStatus::KeyNotFound => push_u64(&mut out, 2),
            }
        }
        crate::message::Message::Delete(d) => {
            push_header(&mut out, 4, 3);
            push_u64(&mut out, 10);
            push_text(&mut out, d.collection.as_str());
            push_text(&mut out, d.id.as_str());
        }
        crate::message::Message::DeleteResult(ok) => {
            push_header(&mut out, 4, 2);
            push_u64(&mut out, 11);
            push_bool(&mut out, *ok);
        }
        crate::message::Message::DeleteForUsecase { collection, id } => {
            push_header(&mut out, 4, 3);
            push_u64(&mut out, 12);
            push_text(&mut out, collection.as_str());
            push_text(&mut out, id.as_str());
        }
        crate::message::Message::Drop(v) => {
            push_header(&mut out, 4, 2);
            push_u64(&mut out, 13);
            push_drop_subject(&mut out, v);
        }
        crate::message::Message::DropResult(ok) => {
            push_header(&mut out, 4, 2);
            push_u64(&mut out, 14);
            push_bool(&mut out, *ok);
        }
        crate::message::Message::EndOfCommunication => {
            push_header(&mut out, 4, 1);
            push_u64(&mut out, 15);
        }
        crate::message::Message::CloseCommunication => {
            push_header(&mut out, 4, 1);
            push_u64(&mut out, 16);
        }
    }
    proof {
        assert(out@ =~= spec_enc_message(m@));
    }
    out
}

// ---------------------------------------------------------------------
// executable decoders
// ---------------------------------------------------------------------

/// Relies on `String::from_utf8`: it returns the string whose UTF-8
/// encoding is the input, and succeeds exactly on valid UTF-8.
#[verifier::external_body]
pub(crate) fn bytes_to_string(v: Vec<u8>) -> (r: Option<String>)
    ensures
        (r matches Some(s) ==> encode_utf8(s@) == v@),
        valid_utf8(v@) ==> r is Some,
{
    match String::from_utf8(v) {
        Ok(s) => Some(s),
        Err(_) => None,
    }
}

/// Reads an unsigned integer item.
pub fn read_u64(b: &[u8], pos: usize) -> (r: Option<(u64, usize)>)
    ensures
        match r {
            Some((n, p)) => spec_dec_u64(b@, pos as int) == Some((n, p as int)) && pos < p
                <= b@.len(),
            None => spec_dec_u64(b@, pos as int) is None,
        },
{
    match read_header(b, pos) {
        Some((major, arg, p2)) => if major == 0 {
            Some((arg, p2))
        } else {
            None
        },
        None => None,
    }
}

/// Reads a signed integer item.
pub fn read_i64(b: &[u8], pos: usize) -> (r: Option<(i64, usize)>)
    ensures
        match r {
            Some((x, p)) => spec_dec_i64(b@, pos as int) == Some((x, p as int)) && pos < p
                <= b@.len(),
            None => spec_dec_i64(b@, pos as int) is None,
        },
{
    match read_header(b, pos) {
        Some((major, arg, p2)) => if major == 0 && arg <= i64::MAX as u64 {
            Some((arg as i64, p2))
        } else if major == 1 && arg <= i64::MAX as u64 {
            Some((-1 - arg as i64, p2))
        } else {
            None
        },
        None => None,
    }
}

/// Reads a boolean item.
pub fn read_bool(b: &[u8], pos: usize) -> (r: Option<(bool, usize)>)
    ensures
        match r {
            Some((v, p)) => spec_dec_bool(b@, pos as int) == Some((v, p as int)) && pos < p
                <= b@.len(),
            None => spec_dec_bool(b@, pos as int) is None,
        },
{
    if pos < b.len() {
        let x = *vstd::slice::slice_index_get(b, pos);
        if x == 0xf4u8 {
            Some((false, pos + 1))
        } else if x == 0xf5u8 {
            Some((true, pos + 1))
        } else {
            None
        }
    } else {
        None
    }
}

/// Reads a byte string item.
pub fn read_bytes(b: &[u8], pos: usize) -> (r: Option<(Vec<u8>, usize)>)
    ensures
        match r {
            Some((v, p)) => spec_dec_bytes(b@, pos as int) == Some((v@, p as int)) && pos < p
                <= b@.len(),
            None => spec_dec_bytes(b@, pos as int) is None,
        },
{
    match read_header(b, pos) {
        Some((major, arg, p2)) => if major == 2 && arg <= (b.len() - p2) as u64 {
            let end = p2 + arg as usize;
            let v = vstd::slice::slice_to_vec(vstd::slice::slice_subrange(b, p2, end));
            Some((v, end))
        } else {
            None
        },
        None => None,
    }
}

/// Reads a text string item.
pub fn read_text(b: &[u8], pos: usize) -> (r: Option<(String, usize)>)
    ensures
        match r {
            Some((s, p)) => spec_dec_text(b@, pos as int) == Some((s@, p as int)) && pos < p
                <= b@.len(),
            None => spec_dec_text(b@, pos as int) is None,
        },
{
    match read_header(b, pos) {
        Some((major, arg, p2)) => if major == 3 && arg <= (b.len() - p2) as u64 {
            let end = p2 + arg as usize;
            let v = vstd::slice::slice_to_vec(vstd::slice::slice_subrange(b, p2, end));
            let ghost region = b@.subrange(p2 as int, end as int);
            match bytes_to_string(v) {
                Some(s) => {
                    proof {
                        broadcast use vstd::utf8::encode_utf8_valid_utf8;
                        broadcast use vstd::utf8::encode_utf8_decode_utf8;

                        assert(valid_utf8(region));
                        assert(decode_utf8(region) == s@);
                    }
                    Some((s, end))
                }
                None => {
                    proof {
                        assert(!valid_utf8(region));
                    }
                    None
                }
            }
        } else {
            None
        },
        None => None,
    }
}

/// Prepending already-read elements to the rest of a text-items read.
pub open spec fn spec_prepend_texts(a: Seq<Seq<char>>, o: Option<(Seq<Seq<char>>, int)>) -> Option<
    (Seq<Seq<char>>, int),
> {
    match o {
        Some((rest, e)) => Some((a + rest, e)),
        None => None,
    }
}

/// Reads `n` text items.
fn read_text_items(b: &[u8], pos: usize, n: u64) -> (r: Option<(Vec<String>, usize)>)
    requires
        pos <= b@.len(),
    ensures
        match r {
            Some((vs, p)) => spec_dec_text_items(b@, pos as int, n) == Some(
                (vs.deep_view(), p as int),
            ) && pos <= p <= b@.len(),
            None => spec_dec_text_items(b@, pos as int, n) is None,
        },
{
    let mut acc: Vec<String> = Vec::new();
    let mut cur: usize = pos;
    let mut i: u64 = 0;
    proof {
        assert(acc.deep_view() =~= Seq::<Seq<char>>::empty());
        assert(spec_prepend_texts(acc.deep_view(), spec_dec_text_items(b@, cur as int, n))
            == spec_dec_text_items(b@, pos as int, n)) by {
            match spec_dec_text_items(b@, cur as int, n) {
                Some((rest, e)) => {
                    assert(acc.deep_view() + rest =~= rest);
                }
                None => {}
            }
        }
    }
    while i < n
        invariant
            i <= n,
            pos <= cur <= b@.len(),
            spec_dec_text_items(b@, pos as int, n) == spec_prepend_texts(
                acc.deep_view(),
                spec_dec_text_items(b@, cur as int, (n - i) as u64),
            ),
        decreases n - i,
    {
        match read_text(b, cur) {
            Some((s, p2)) => {
                let ghost acc0 = acc.deep_view();
                acc.push(s);
                proof {
                    assert(acc.deep_view() =~= acc0.push(s@));
                    match spec_dec_text_items(b@, p2 as int, (n - i - 1) as u64) {
                        Some((rest, e)) => {
                            assert(acc0 + (seq![s@] + rest) =~= acc0.push(s@) + rest);
                        }
                        None => {}
                    }
                }
                cur = p2;
            }
            None => {
                return None;
            }
        }
        i = i + 1;
    }
    proof {
        match spec_dec_text_items(b@, cur as int, 0) {
            Some((rest, e)) => {
                assert(acc.deep_view() + rest =~= acc.deep_view());
            }
            None => {}
        }
    }
    Some((acc, cur))
}

/// Reads a list of text strings.
pub fn read_text_list(b: &[u8], pos: usize) -> (r: Option<(Vec<String>, usize)>)
    ensures
        match r {
            Some((vs, p)) => spec_dec_text_list(b@, pos as int) == Some(
                (vs.deep_view(), p as int),
            ) && pos <= p <= b@.len(),
            None => spec_dec_text_list(b@, pos as int) is None,
        },
{
    match read_header(b, pos) {
        Some((major, arg, p2)) => if major == 4 {
            read_text_items(b, p2, arg)
        } else {
            None
        },
        None => None,
    }
}

/// Prepending already-read elements to the rest of a byte-items read.
pub open spec fn spec_prepend_bytes(a: Seq<Seq<u8>>, o: Option<(Seq<Seq<u8>>, int)>) -> Option<
    (Seq<Seq<u8>>, int),
> {
    match o {
        Some((rest, e)) => Some((a + rest, e)),
        None => None,
    }
}

/// Reads `n` byte-string items.
fn read_bytes_items(b: &[u8], pos: usize, n: u64) -> (r: Option<(Vec<Vec<u8>>, usize)>)
    requires
        pos <= b@.len(),
    ensures
        match r {
            Some((vs, p)) => spec_dec_bytes_items(b@, pos as int, n) == Some(
                (vs.deep_view(), p as int),
            ) && pos <= p <= b@.len(),
            None => spec_dec_bytes_items(b@, pos as int, n) is None,
        },
{
    let mut acc: Vec<Vec<u8>> = Vec::new();
    let mut cur: usize = pos;
    let mut i: u64 = 0;
    proof {
        assert(acc.deep_view() =~= Seq::<Seq<u8>>::empty());
        assert(spec_prepend_bytes(acc.deep_view(), spec_dec_bytes_items(b@, cur as int, n))
            == spec_dec_bytes_items(b@, pos as int, n)) by {
            match spec_dec_bytes_items(b@, cur as int, n) {
                Some((rest, e)) => {
                    assert(acc.deep_view() + rest =~= rest);
                }
                None => {}
            }
        }
    }
    while i < n
        invariant
            i <= n,
            pos <= cur <= b@.len(),
            spec_dec_bytes_items(b@, pos as int, n) == spec_prepend_bytes(
                acc.deep_view(),
                spec_dec_bytes_items(b@, cur as int, (n - i) as u64),
            ),
        decreases n - i,
    {
        match read_bytes(b, cur) {
            Some((v, p2)) => {
                let ghost acc0 = acc.deep_view();
                acc.push(v);
                proof {
                    assert(acc.deep_view() =~~= acc0.push(v@));
                    match spec_dec_bytes_items(b@, p2 as int, (n - i - 1) as u64) {
                        Some((rest, e)) => {
                            assert(acc0 + (seq![v@] + rest) =~= acc0.push(v@) + rest);
                        }
                        None => {}
                    }
                }
                cur = p2;
            }
            None => {
                return None;
            }
        }
        i = i + 1;
    }
    proof {
        match spec_dec_bytes_items(b@, cur as int, 0) {
            Some((rest, e)) => {
                assert(acc.deep_view() + rest =~= acc.deep_view());
            }
            None => {}
        }
    }
    Some((acc, cur))
}

/// Reads a list of byte strings.
pub fn read_bytes_list(b: &[u8], pos: usize) -> (r: Option<(Vec<Vec<u8>>, usize)>)
    ensures
        match r {
            Some((vs, p)) => spec_dec_bytes_list(b@, pos as int) == Some(
                (vs.deep_view(), p as int),
            ) && pos <= p <= b@.len(),
            None => spec_dec_bytes_list(b@, pos as int) is None,
        },
{
    match read_header(b, pos) {
        Some((major, arg, p2)) => if major == 4 {
            read_bytes_items(b, p2, arg)
        } else {
            None
        },
        None => None,
    }
}

/// Reads an optional byte string.
pub fn read_opt_bytes(b: &[u8], pos: usize) -> (r: Option<(Option<Vec<u8>>, usize)>)
    ensures
        match r {
            Some((o, p)) => spec_dec_opt_bytes(b@, pos as int) == Some((o.deep_view(), p as int))
                && pos < p <= b@.len(),
            None => spec_dec_opt_bytes(b@, pos as int) is None,
        },
{
    if pos < b.len() && *vstd::slice::slice_index_get(b, pos) == 0xf6u8 {
        Some((None, pos + 1))
    } else {
        match read_bytes(b, pos) {
            Some((v, p2)) => Some((Some(v), p2)),
            None => None,
        }
    }
}

/// Reads an optional signed integer.
pub fn read_opt_i64(b: &[u8], pos: usize) -> (r: Option<(Option<i64>, usize)>)
    ensures
        match r {
            Some((o, p)) => spec_dec_opt_i64(b@, pos as int) == Some((o, p as int)) && pos < p
                <= b@.len(),
            None => spec_dec_opt_i64(b@, pos as int) is None,
        },
{
    if pos < b.len() && *vstd::slice::slice_index_get(b, pos) == 0xf6u8 {
        Some((None, pos + 1))
    } else {
        match read_i64(b, pos) {
            Some((x, p2)) => Some((Some(x), p2)),
            None => None,
        }
    }
}

/// Reads an optional list of byte strings.
pub fn read_opt_bytes_list(b: &[u8], pos: usize) -> (r: Option<(Option<Vec<Vec<u8>>>, usize)>)
    ensures
        match r {
            Some((o, p)) => spec_dec_opt_bytes_list(b@, pos as int) == Some(
                (o.deep_view(), p as int),
            ) && pos <= p <= b@.len(),
            None => spec_dec_opt_bytes_list(b@, pos as int) is None,
        },
{
    if pos < b.len() && *vstd::slice::slice_index_get(b, pos) == 0xf6u8 {
        Some((None, pos + 1))
    } else {
        match read_bytes_list(b, pos) {
            Some((vs, p2)) => Some((Some(vs), p2)),
            None => None,
        }
    }
}

/// Reads a count subject item.
pub fn read_count_subject(b: &[u8], pos: usize) -> (r: Option<(crate::message::CountSubject, usize)>)
    ensures
        match r {
            Some((v, p)) => spec_dec_count_subject(b@, pos as int) == Some((v@, p as int)) && pos
                < p <= b@.len(),
            None => spec_dec_count_subject(b@, pos as int) is None,
        },
{
    match read_header(b, pos) {
        Some((major, cnt, p1)) => if major == 4 {
            match read_u64(b, p1) {
                Some((disc, p2)) => if disc == 0 && cnt == 2 {
                    match read_text(b, p2) {
                        Some((c, p3)) => Some((crate::message::CountSubject::Collection(c), p3)),
                        None => None,
                    }
                } else if disc == 1 && cnt == 3 {
                    match read_text(b, p2) {
                        Some((collection, p3)) => match read_text(b, p3) {
                            Some((usecase, p4)) => Some(
                                (crate::message::CountSubject::Usecase { collection, usecase }, p4),
                            ),
                            None => None,
                        },
                        None => None,
                    }
                } else {
                    None
                },
                None => None,
            }
        } else {
            None
        },
        None => None,
    }
}

/// Reads a drop subject item.
pub fn read_drop_subject(b: &[u8], pos: usize) -> (r: Option<(crate::message::DropSubject, usize)>)
    ensures
        match r {
            Some((v, p)) => spec_dec_drop_subject(b@, pos as int) == Some((v@, p as int)) && pos
                < p <= b@.len(),
            None => spec_dec_drop_subject(b@, pos as int) is None,
        },
{
    match read_count_subject(b, pos) {
        Some((v, p2)) => match v {
            crate::message::CountSubject::Collection(c) => Some(
                (crate::message::DropSubject::Collection(c), p2),
            ),
            crate::message::CountSubject::Usecase { collection, usecase } => Some(
                (crate::message::DropSubject::Usecase { collection, usecase }, p2),
            ),
        },
        None => None,
    }
}

/// Prepending already-read branches to the rest of a query-items read.
pub open spec fn spec_prepend_queries(
    a: Seq<crate::query::QueryV>,
    o: Option<(Seq<crate::query::QueryV>, int)>,
) -> Option<(Seq<crate::query::QueryV>, int)> {
    match o {
        Some((rest, e)) => Some((a + rest, e)),
        None => None,
    }
}

/// Reads one query item.
#[verifier::rlimit(100)]
pub fn read_query(b: &[u8], pos: usize) -> (r: Option<(crate::query::Query, usize)>)
    ensures
        match r {
            Some((q, p)) => spec_dec_query(b@, pos as int) == Some((q@, p as int)) && pos < p
                <= b@.len(),
            None => spec_dec_query(b@, pos as int) is None,
        },
    decreases b@.len() - pos, 1int,
{
    match read_header(b, pos) {
        Some((major, cnt, p1)) => if major == 4 {
            match read_u64(b, p1) {
                Some((disc, p2)) => if disc == 0 && cnt == 5 {
                    match read_text(b, p2) {
                        Some((collection, p3)) => match read_text(b, p3) {
                            Some((usecase, p4)) => match read_opt_i64(b, p4) {
                                Some((upper_limit, p5)) => match read_opt_i64(b, p5) {
                                    Some((lower_limit, p6)) => Some(
                                        (
                                            crate::query::Query::Single(
                                                crate::query::SingleQuery {
                                                    collection,
                                                    usecase,
                                                    upper_limit,
                                                    lower_limit,
                                                },
                                            ),
                                            p6,
                                        ),
                                    ),
                                    None => None,
                                },
                                None => None,
                            },
                            None => None,
                        },
                        None => None,
                    }
                } else if disc == 1 && cnt == 4 {
                    match read_u64(b, p2) {
                        Some((code, p3)) => if code <= 1 {
                            match read_header(b, p3) {
                                Some((m2, n, p4)) => if m2 == 4 {
                                    match read_query_items(b, p4, n, Ghost(pos as int)) {
                                        Some((children, p5)) => {
                                            let qt = if code == 0 {
                                                crate::query::QueryType::And
                                            } else {
                                                crate::query::QueryType::Or
                                            };
                                            let ghost cv = crate::query::spec_queries_view(
                                                children@,
                                            );
                                            Some(
                                                (
                                                    crate::query::Query::Compound(
                                                        crate::query::CompoundQuery {
                                                            query_type: qt,
                                                            queries: children,
                                                        },
                                                    ),
                                                    p5,
                                                ),
                                            )
                                        }
                                        None => None,
                                    }
                                } else {
                                    None
                                },
                                None => None,
                            }
                        } else {
                            None
                        },
                        None => None,
                    }
                } else if disc == 2 && cnt == 3 {
                    match read_text(b, p2) {
                        Some((id, p3)) => match read_text(b, p3) {
                            Some((collection, p4)) => Some(
                                (crate::query::Query::GetById { id, collection }, p4),
                            ),
                            None => None,
                        },
                        None => None,
                    }
                } else if disc == 3 && cnt == 3 {
                    match read_text_list(b, p2) {
                        Some((ids, p3)) => match read_text(b, p3) {
                            Some((collection, p4)) => {
                                proof {
                                    assert(crate::query::spec_query_view(
                                        crate::query::Query::GetByIds {
                                            ids: ids,
                                            collection: collection,
                                        },
                                    ) == (crate::query::QueryV::GetByIds {
                                        ids: ids.deep_view(),
                                        collection: collection@,
                                    }));
                                }
                                Some((crate::query::Query::GetByIds { ids, collection }, p4))
                            }
                            None => None,
                        },
                        None => None,
                    }
                } else {
                    None
                },
                None => None,
            }
        } else {
            None
        },
        None => None,
    }
}

/// Reads `n` query items, all lying strictly after `outer`.
#[verifier::rlimit(100)]
fn read_query_items(b: &[u8], pos: usize, n: u64, outer: Ghost<int>) -> (r: Option<
    (Vec<crate::query::Query>, usize),
>)
    requires
        0 <= outer@ < pos <= b@.len(),
    ensures
        match r {
            Some((vs, p)) => spec_dec_query_items(b@, pos as int, n) == Some(
                (crate::query::spec_queries_view(vs@), p as int),
            ) && pos <= p <= b@.len(),
            None => spec_dec_query_items(b@, pos as int, n) is None,
        },
    decreases b@.len() - outer@, 0int,
{
    let mut acc: Vec<crate::query::Query> = Vec::new();
    let mut cur: usize = pos;
    let mut i: u64 = 0;
    proof {
        crate::query::lemma_queries_view_index(acc@);
        assert(crate::query::spec_queries_view(acc@) =~= Seq::<crate::query::QueryV>::empty());
        assert(spec_prepend_queries(
            crate::query::spec_queries_view(acc@),
            spec_dec_query_items(b@, cur as int, n),
        ) == spec_dec_query_items(b@, pos as int, n)) by {
            match spec_dec_query_items(b@, cur as int, n) {
                Some((rest, e)) => {
                    assert(crate::query::spec_queries_view(acc@) + rest =~= rest);
                }
                None => {}
            }
        }
    }
    while i < n
        invariant
            i <= n,
            outer@ < pos <= cur <= b@.len(),
            spec_dec_query_items(b@, pos as int, n) == spec_prepend_queries(
                crate::query::spec_queries_view(acc@),
                spec_dec_query_items(b@, cur as int, (n - i) as u64),
            ),
        decreases n - i,
    {
        match read_query(b, cur) {
            Some((q, p2)) => {
                let ghost acc0 = crate::query::spec_queries_view(acc@);
                let ghost accs = acc@;
                acc.push(q);
                proof {
                    assert(acc@.drop_last() =~= accs);
                    assert(crate::query::spec_queries_view(acc@) == acc0.push(q@));
                    match spec_dec_query_items(b@, p2 as int, (n - i - 1) as u64) {
                        Some((rest, e)) => {
                            assert(acc0 + (seq![q@] + rest) =~= acc0.push(q@) + rest);
                        }
                        None => {}
                    }
                }
                cur = p2;
            }
            None => {
                return None;
            }
        }
        i = i + 1;
    }
    proof {
        match spec_dec_query_items(b@, cur as int, 0) {
            Some((rest, e)) => {
                assert(crate::query::spec_queries_view(acc@) + rest =~= crate::query::spec_queries_view(acc@));
            }
            None => {}
        }
    }
    Some((acc, cur))
}

/// Reads one whole message item.
#[verifier::rlimit(100)]
pub fn read_message(b: &[u8], pos: usize) -> (r: Option<(crate::message::Message, usize)>)
    ensures
        match r {
            Some((m, p)) => spec_dec_message(b@, pos as int) == Some((m@, p as int)) && pos < p
                <= b@.len(),
            None => spec_dec_message(b@, pos as int) is None,
        },
{
    match read_header(b, pos) {
        Some((major, cnt, p1)) => if major == 4 {
            match read_u64(b, p1) {
                Some((disc, p2)) => read_message_body(b, p2, disc, cnt, Ghost(pos as int)),
                None => None,
            }
        } else {
            None
        },
        None => None,
    }
}

/// Reads the fields of a message with discriminator `disc` and `cnt`
/// array elements.
#[verifier::rlimit(100)]
fn read_message_body(b: &[u8], p2: usize, disc: u64, cnt: u64, start: Ghost<int>) -> (r: Option<
    (crate::message::Message, usize),
>)
    requires
        0 <= start@ < p2 <= b@.len(),
    ensures
        match r {
            Some((m, p)) => spec_dec_message_body(b@, p2 as int, disc, cnt) == Some(
                (m@, p as int),
            ) && start@ < p <= b@.len(),
            None => spec_dec_message_body(b@, p2 as int, disc, cnt) is None,
        },
{
    if disc == 0 && cnt == 5 {
        match read_text(b, p2) {
            Some((protocol_version, p3)) => match read_bytes(b, p3) {
                Some((client_public_key, p4)) => match read_text_list(b, p4) {
                    Some((cipher_suits, p5)) => match read_text(b, p5) {
                        Some((compression, p6)) => Some(
                            (
                                crate::message::Message::ClientSetup(
                                    crate::message::ClientSetupSecureConnection {
                                        protocol_version,
                                        client_public_key,
                                        cipher_suits,
                                        compression,
                                    },
                                ),
                                p6,
                            ),
                        ),
                        None => None,
                    },
                    None => None,
                },
                None => None,
            },
            None => None,
        }
    } else if disc == 1 && cnt == 3 {
        match read_text(b, p2) {
            Some((username, p3)) => match read_text(b, p3) {
                Some((password, p4)) => Some(
                    (
                        crate::message::Message::ClientAuthentification(
                            crate::message::ClientAuthentication { username, password },
                        ),
                        p4,
                    ),
                ),
                None => None,
            },
            None => None,
        }
    } else if (disc == 2 || disc == 17) && cnt == 5 {
        match read_text(b, p2) {
            Some((collection, p3)) => match read_text_list(b, p3) {
                Some((acl, p4)) => match read_bytes(b, p4) {
                    Some((data, p5)) => match read_text_list(b, p5) {
                        Some((usecases, p6)) => {
                            let i = crate::message::Insertion { collection, acl, data, usecases };
                            if disc == 2 {
                                Some((crate::message::Message::Insert(i), p6))
                            } else {
                                Some((crate::message::Message::InsertOpe(i), p6))
                            }
                        }
                        None => None,
                    },
                    None => None,
                },
                None => None,
            },
            None => None,
        }
    } else if disc == 3 && cnt == 2 {
        match read_text(b, p2) {
            Some((inserted_id, p3)) => Some(
                (crate::message::Message::InsertResponse { inserted_id }, p3),
            ),
            None => None,
        }
    } else if disc == 4 && cnt == 2 {
        match read_query(b, p2) {
            Some((q, p3)) => Some((crate::message::Message::Query(q), p3)),
            None => None,
        }
    } else if disc == 5 && cnt == 3 {
        match read_bytes_list(b, p2) {
            Some((data, p3)) => match read_opt_bytes_list(b, p3) {
                Some((nonces, p4)) => Some(
                    (crate::message::Message::QueryResponse { data, nonces }, p4),
                ),
                None => None,
            },
            None => None,
        }
    } else if disc == 6 && cnt == 3 {
        match read_opt_bytes(b, p2) {
            Some((data, p3)) => match read_opt_bytes(b, p3) {
                Some((nonce, p4)) => Some(
                    (crate::message::Message::SingleValueResponse { data, nonce }, p4),
                ),
                None => None,
            },
            None => None,
        }
    } else if disc == 7 && cnt == 2 {
        match read_count_subject(b, p2) {
            Some((v, p3)) => Some((crate::message::Message::Count(v), p3)),
            None => None,
        }
    } else if disc == 18 && cnt == 2 {
        match read_u64(b, p2) {
            Some((n, p3)) => if n <= u32::MAX as u64 {
                Some((crate::message::Message::CountResponse(n as u32), p3))
            } else {
                None
            },
            None => None,
        }
    } else if 8 <= disc && disc <= 16 {
        read_message_body_hi(b, p2, disc, cnt, start)
    } else {
        None
    }
}

/// Reads the fields of the mutation and shutdown variants.
#[verifier::rlimit(100)]
fn read_message_body_hi(b: &[u8], p2: usize, disc: u64, cnt: u64, start: Ghost<int>) -> (r: Option<
    (crate::message::Message, usize),
>)
    requires
        0 <= start@ < p2 <= b@.len(),
        8 <= disc <= 16,
    ensures
        match r {
            Some((m, p)) => spec_dec_message_body(b@, p2 as int, disc, cnt) == Some(
                (m@, p as int),
            ) && start@ < p <= b@.len(),
            None => spec_dec_message_body(b@, p2 as int, disc, cnt) is None,
        },
{
    if false {
        None
    } else if disc == 8 && cnt == 4 {
        match read_text(b, p2) {
            Some((collection, p3)) => match read_text(b, p3) {
                Some((id, p4)) => match read_bytes(b, p4) {
                    Some((new_value, p5)) => Some(
                        (
                            crate::message::Message::Update(
                                crate::message::Update { collection, id, new_value },
                            ),
                            p5,
                        ),
                    ),
                    None => None,
                },
                None => None,
            },
            None => None,
        }
    } else if disc == 9 && cnt == 2 {
        match read_u64(b, p2) {
            Some((code, p3)) => if code == 0 {
                Some(
                    (
                        crate::message::Message::UpdateResponse {
                            status: crate::message::UpdateStatus::Success,
                        },
                        p3,
                    ),
                )
            } else if code == 1 {
                Some(
                    (
                        crate::message::Message::UpdateResponse {
                            status: crate::message::UpdateStatus::Failure,
                        },
                        p3,
                    ),
                )
            } else if code == 2 {
                Some(
                    (
                        crate::message::Message::UpdateResponse {
                            status: crate::message::UpdateStatus::KeyNotFound,
                        },
                        p3,
                    ),
                )
            } else {
                None
            },
            None => None,
        }
    } else if disc == 10 && cnt == 3 {
        match read_text(b, p2) {
            Some((collection, p3)) => match read_text(b, p3) {
                Some((id, p4)) => Some(
                    (
                        crate::message::Message::Delete(crate::message::Delete { collection, id }),
                        p4,
                    ),
                ),
                None => None,
            },
            None => None,
        }
    } else if disc == 11 && cnt == 2 {
        match read_bool(b, p2) {
            Some((ok, p3)) => Some((crate::message::Message::DeleteResult(ok), p3)),
            None => None,
        }
    } else if disc == 12 && cnt == 3 {
        match read_text(b, p2) {
            Some((collection, p3)) => match read_text(b, p3) {
                Some((id, p4)) => Some(
                    (crate::message::Message::DeleteForUsecase { collection, id }, p4),
                ),
                None => None,
            },
            None => None,
        }
    } else if disc == 13 && cnt == 2 {
        match read_drop_subject(b, p2) {
            Some((v, p3)) => Some((crate::message::Message::Drop(v), p3)),
            None => None,
        }
    } else if disc == 14 && cnt == 2 {
        match read_bool(b, p2) {
            Some((ok, p3)) => Some((crate::message::Message::DropResult(ok), p3)),
            None => None,
        }
    } else if disc == 15 && cnt == 1 {
        Some((crate::message::Message::EndOfCommunication, p2))
    } else if disc == 16 && cnt == 1 {
        Some((crate::message::Message::CloseCommunication, p2))
    } else {
        None
    }
}

/// Decodes one whole payload into a message: the inverse of
/// [`encode_message`], succeeding exactly when the bytes are one
/// well-formed message item and nothing more.
pub fn decode_message(b: &[u8]) -> (r: Option<crate::message::Message>)
    ensures
        match r {
            Some(m) => spec_dec_message_full(b@) == Some(m@),
            None => spec_dec_message_full(b@) is None,
        },
{
    match read_message(b, 0) {
        Some((m, p)) => if p == b.len() {
            Some(m)
        } else {
            None
        },
        None => None,
    }
}

/// Every element of a decoded byte-string list fits one header
/// argument.
pub proof fn lemma_dec_bytes_items_wf(b: Seq<u8>, pos: int, n: u64)
    ensures
        spec_dec_bytes_items(b, pos, n) matches Some((vs, e)) ==> vs.len() == n && forall|i: int|
            0 <= i < vs.len() ==> bytes_wf(#[trigger] vs[i]),
    decreases n,
{
    if n > 0 {
        match spec_dec_bytes(b, pos) {
            Some((v, p2)) => {
                lemma_dec_bytes_items_wf(b, p2, (n - 1) as u64);
                match spec_dec_bytes_items(b, p2, (n - 1) as u64) {
                    Some((rest, e)) => {
                        match spec_dec_header(b, pos) {
                            Some((major, arg, ph)) => {
                                assert(v.len() == arg);
                                assert(forall|i: int|
                                    0 <= i < (seq![v] + rest).len() ==> bytes_wf(
                                        #[trigger] (seq![v] + rest)[i],
                                    ));
                            }
                            None => {}
                        }
                    }
                    None => {}
                }
            }
            None => {}
        }
    }
}

} // verus!
