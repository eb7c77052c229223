//! The canonical byte encoding that feeds the content hash: integers as
//! eight big-endian bytes, text as its UTF-8 byte length followed by its
//! UTF-8 bytes.
use vstd::prelude::*;
use vstd::utf8::encode_utf8;
use vstd::string::StringSliceAdditionalSpecFns;

verus! {

/// The eight big-endian bytes of `x`.
pub open spec fn u64_bytes(x: u64) -> Seq<u8> {
    seq![
        (x >> 56u64) as u8,
        (x >> 48u64) as u8,
        (x >> 40u64) as u8,
        (x >> 32u64) as u8,
        (x >> 24u64) as u8,
        (x >> 16u64) as u8,
        (x >> 8u64) as u8,
        x as u8,
    ]
}

/// Text as a length-prefixed run of UTF-8 bytes.
pub open spec fn text_bytes(s: Seq<char>) -> Seq<u8> {
    u64_bytes(encode_utf8(s).len() as u64) + encode_utf8(s)
}

/// The big-endian bytes of an integer determine it, and where they stand
/// first they determine what follows them.
pub proof fn lemma_u64_bytes_prefix(x: u64, y: u64, r1: Seq<u8>, r2: Seq<u8>)
    requires
        u64_bytes(x) + r1 == u64_bytes(y) + r2,
    ensures
        x == y,
        r1 == r2,
{
    let (a, b) = (u64_bytes(x) + r1, u64_bytes(y) + r2);
    assert(a[0] == b[0] && a[1] == b[1] && a[2] == b[2] && a[3] == b[3]);
    assert(a[4] == b[4] && a[5] == b[5] && a[6] == b[6] && a[7] == b[7]);
    assert(((x >> 56u64) as u8 == (y >> 56u64) as u8 && (x >> 48u64) as u8 == (y >> 48u64) as u8
        && (x >> 40u64) as u8 == (y >> 40u64) as u8 && (x >> 32u64) as u8 == (y >> 32u64) as u8
        && (x >> 24u64) as u8 == (y >> 24u64) as u8 && (x >> 16u64) as u8 == (y >> 16u64) as u8
        && (x >> 8u64) as u8 == (y >> 8u64) as u8 && x as u8 == y as u8) ==> x == y) by (bit_vector);
    assert(r1 =~= a.subrange(8, a.len() as int));
    assert(r2 =~= b.subrange(8, b.len() as int));
}

/// Length-prefixed text determines the text, and where it stands first it
/// determines what follows it, for texts whose UTF-8 length fits in 64
/// bits.
pub proof fn lemma_text_bytes_prefix(s: Seq<char>, t: Seq<char>, r1: Seq<u8>, r2: Seq<u8>)
    requires
        text_bytes(s) + r1 == text_bytes(t) + r2,
        encode_utf8(s).len() <= u64::MAX,
        encode_utf8(t).len() <= u64::MAX,
    ensures
        s == t,
        r1 == r2,
{
    let (es, et) = (encode_utf8(s), encode_utf8(t));
    assert(text_bytes(s) + r1 =~= u64_bytes(es.len() as u64) + (es + r1));
    assert(text_bytes(t) + r2 =~= u64_bytes(et.len() as u64) + (et + r2));
    lemma_u64_bytes_prefix(es.len() as u64, et.len() as u64, es + r1, et + r2);
    assert(es =~= (es + r1).subrange(0, es.len() as int));
    assert(et =~= (et + r2).subrange(0, et.len() as int));
    assert(r1 =~= (es + r1).subrange(es.len() as int, (es + r1).len() as int));
    assert(r2 =~= (et + r2).subrange(et.len() as int, (et + r2).len() as int));
    vstd::utf8::encode_utf8_decode_utf8(s);
    vstd::utf8::encode_utf8_decode_utf8(t);
}

/// Appends the big-endian bytes of `x` to `out`.
pub fn push_u64(out: &mut Vec<u8>, x: u64)
    ensures
        final(out)@ == old(out)@ + u64_bytes(x),
{
    out.push((x >> 56u64) as u8);
    out.push((x >> 48u64) as u8);
    out.push((x >> 40u64) as u8);
    out.push((x >> 32u64) as u8);
    out.push((x >> 24u64) as u8);
    out.push((x >> 16u64) as u8);
    out.push((x >> 8u64) as u8);
    out.push(x as u8);
    assert(out@ =~= old(out)@ + u64_bytes(x));
}

/// Appends the length-prefixed UTF-8 bytes of `s` to `out`.
pub fn push_text(out: &mut Vec<u8>, s: &str)
    ensures
        final(out)@ == old(out)@ + text_bytes(s@),
{
    let bytes = s.as_bytes();
    let n = bytes.len();
    push_u64(out, n as u64);
    let ghost start = out@;
    let mut i: usize = 0;
    while i < n
        invariant
            n == bytes@.len(),
            bytes@ == encode_utf8(s@),
            0 <= i <= n,
            out@ == start + bytes@.subrange(0, i as int),
        decreases n - i,
    {
        out.push(bytes[i]);
        i += 1;
        assert(out@ =~= start + bytes@.subrange(0, i as int));
    }
    assert(bytes@.subrange(0, n as int) =~= bytes@);
}

} // verus!
