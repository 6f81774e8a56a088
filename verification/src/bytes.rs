//! Fixed-width and length-prefixed byte encodings.

use vstd::prelude::*;

verus! {

/// The big-endian bytes of a 64-bit number.
pub open spec fn be_u64(v: u64) -> Seq<u8> {
    seq![
        ((v / 0x100000000000000) % 256) as u8,
        ((v / 0x1000000000000) % 256) as u8,
        ((v / 0x10000000000) % 256) as u8,
        ((v / 0x100000000) % 256) as u8,
        ((v / 0x1000000) % 256) as u8,
        ((v / 0x10000) % 256) as u8,
        ((v / 0x100) % 256) as u8,
        (v % 256) as u8,
    ]
}

/// The 64-bit two's complement pattern of a signed number.
pub open spec fn twos(v: i64) -> u64 {
    if v >= 0 {
        v as u64
    } else {
        (v + 0x10000000000000000int) as u64
    }
}

/// The big-endian bytes of a signed 64-bit number.
pub open spec fn be_i64(v: i64) -> Seq<u8> {
    be_u64(twos(v))
}

/// A variable-width field: its length as eight big-endian bytes, then itself.
#[verifier::opaque]
pub open spec fn field(data: Seq<u8>) -> Seq<u8> {
    be_u64(data.len() as u64) + data
}

/// The UTF-8 bytes of a text.
pub open spec fn utf8(text: Seq<char>) -> Seq<u8> {
    vstd::utf8::encode_utf8(text)
}

/// Append `data` to `bytes`.
pub fn append(bytes: &mut Vec<u8>, data: &[u8])
    ensures
        final(bytes)@ == old(bytes)@ + data@,
{
    let ghost start = bytes@;
    let mut i: usize = 0;
    while i < data.len()
        invariant
            i <= data@.len(),
            bytes@ == start + data@.take(i as int),
        decreases data@.len() - i,
    {
        bytes.push(data[i]);
        assert(data@.take(i + 1) == data@.take(i as int).push(data@[i as int]));
        i += 1;
    }
    assert(data@.take(i as int) == data@);
}

/// Append the big-endian bytes of `v` to `bytes`.
pub fn append_u64(bytes: &mut Vec<u8>, v: u64)
    ensures
        final(bytes)@ == old(bytes)@ + be_u64(v),
{
    bytes.push(((v / 0x100000000000000) % 256) as u8);
    bytes.push(((v / 0x1000000000000) % 256) as u8);
    bytes.push(((v / 0x10000000000) % 256) as u8);
    bytes.push(((v / 0x100000000) % 256) as u8);
    bytes.push(((v / 0x1000000) % 256) as u8);
    bytes.push(((v / 0x10000) % 256) as u8);
    bytes.push(((v / 0x100) % 256) as u8);
    bytes.push((v % 256) as u8);
    assert(bytes@ =~= old(bytes)@ + be_u64(v));
}

/// Append the big-endian bytes of a signed number to `bytes`.
pub fn append_i64(bytes: &mut Vec<u8>, v: i64)
    ensures
        final(bytes)@ == old(bytes)@ + be_i64(v),
{
    let pattern: u64 = if v >= 0 {
        v as u64
    } else {
        u64::MAX - ((-(v + 1)) as u64)
    };
    append_u64(bytes, pattern);
}

/// The big-endian form of a number determines the number.
pub proof fn lemma_be_u64_injective(a: u64, b: u64)
    requires
        be_u64(a) == be_u64(b),
    ensures
        a == b,
{
    let x = be_u64(a);
    let y = be_u64(b);
    assert(x[0] == y[0] && x[1] == y[1] && x[2] == y[2] && x[3] == y[3]);
    assert(x[4] == y[4] && x[5] == y[5] && x[6] == y[6] && x[7] == y[7]);
    lemma_be_u64_value(a);
    lemma_be_u64_value(b);
}

/// The big-endian form of a signed number determines the number.
pub proof fn lemma_be_i64_injective(a: i64, b: i64)
    requires
        be_i64(a) == be_i64(b),
    ensures
        a == b,
{
    lemma_be_u64_injective(twos(a), twos(b));
}

/// A number is the sum of its big-endian bytes at their places.
proof fn lemma_be_u64_value(v: u64)
    ensures
        v == (be_u64(v)[0] as int) * 0x100000000000000 + (be_u64(v)[1] as int) * 0x1000000000000 + (
        be_u64(v)[2] as int) * 0x10000000000 + (be_u64(v)[3] as int) * 0x100000000 + (be_u64(
            v,
        )[4] as int) * 0x1000000 + (be_u64(v)[5] as int) * 0x10000 + (be_u64(v)[6] as int) * 0x100
            + (be_u64(v)[7] as int),
{
    let q1 = v / 0x100;
    let q2 = v / 0x10000;
    let q3 = v / 0x1000000;
    let q4 = v / 0x100000000;
    let q5 = v / 0x10000000000;
    let q6 = v / 0x1000000000000;
    let q7 = v / 0x100000000000000;
    assert(q2 == q1 / 256);
    assert(q3 == q2 / 256);
    assert(q4 == q3 / 256);
    assert(q5 == q4 / 256);
    assert(q6 == q5 / 256);
    assert(q7 == q6 / 256);
    assert(q7 < 256);
}

/// Fields that begin the same bytes hold the same data, and what follows them
/// is the same.
pub proof fn lemma_field_prefix(a: Seq<u8>, rest_a: Seq<u8>, b: Seq<u8>, rest_b: Seq<u8>)
    requires
        a.len() <= u64::MAX,
        b.len() <= u64::MAX,
        field(a) + rest_a == field(b) + rest_b,
    ensures
        a == b,
        rest_a == rest_b,
{
    reveal(field);
    let l = field(a) + rest_a;
    let r = field(b) + rest_b;
    assert(l.take(8) == be_u64(a.len() as u64));
    assert(r.take(8) == be_u64(b.len() as u64));
    lemma_be_u64_injective(a.len() as u64, b.len() as u64);
    let n = a.len() as int;
    assert(l.subrange(8, 8 + n) == a);
    assert(r.subrange(8, 8 + n) == b);
    assert(l.skip(8 + n) == rest_a);
    assert(r.skip(8 + n) == rest_b);
}

/// The UTF-8 form of a text determines the text.
pub proof fn lemma_utf8_injective(a: Seq<char>, b: Seq<char>)
    requires
        utf8(a) == utf8(b),
    ensures
        a == b,
{
    vstd::utf8::encode_utf8_decode_utf8(a);
    vstd::utf8::encode_utf8_decode_utf8(b);
}

/// A text takes at most four bytes a character.
pub proof fn lemma_utf8_len(text: Seq<char>)
    ensures
        utf8(text).len() <= 4 * text.len(),
    decreases text.len(),
{
    if text.len() > 0 {
        lemma_utf8_len(text.drop_first());
    }
}

/// A number takes eight bytes, the most significant first, and a negative one is
/// written as what is left of two to the sixty-fourth.
pub proof fn law_numbers_are_written_most_significant_first(v: u64, w: i64)
    ensures
        be_u64(v).len() == 8,
        v == be_u64(v)[7] + 256 * (be_u64(v)[6] + 256 * (be_u64(v)[5] + 256 * (be_u64(v)[4] + 256
            * (be_u64(v)[3] + 256 * (be_u64(v)[2] + 256 * (be_u64(v)[1] + 256 * be_u64(
            v,
        )[0])))))),
        w >= 0 ==> be_i64(w) == be_u64(w as u64),
        w < 0 ==> be_i64(w) == be_u64((w + 0x10000000000000000int) as u64),
{
    lemma_be_u64_value(v);
}

/// A field is its length, in eight bytes, and then its data.
pub proof fn law_a_field_is_its_length_and_its_data(data: Seq<u8>)
    ensures
        field(data).len() == 8 + data.len(),
        field(data).take(8) == be_u64(data.len() as u64),
        field(data).skip(8) == data,
{
    reveal(field);
    assert(field(data).take(8) =~= be_u64(data.len() as u64));
    assert(field(data).skip(8) =~= data);
}

} // verus!
