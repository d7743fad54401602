//! Little-endian numbers and UTF-8 text in byte strings.

use vstd::prelude::*;
use vstd::utf8::*;

verus! {

/// The number that two bytes of `s` from `i` on write, least byte first.
pub open spec fn le16(s: Seq<u8>, i: int) -> nat {
    (s[i] + 256 * s[i + 1]) as nat
}

/// The number that four bytes of `s` from `i` on write, least byte first.
pub open spec fn le32(s: Seq<u8>, i: int) -> nat {
    (s[i] + 256 * s[i + 1] + 65536 * s[i + 2] + 16777216 * s[i + 3]) as nat
}

/// `n` in two bytes, least byte first.
pub open spec fn le16_bytes(n: nat) -> Seq<u8> {
    seq![(n % 256) as u8, (n / 256 % 256) as u8]
}

/// `n` in four bytes, least byte first.
pub open spec fn le32_bytes(n: nat) -> Seq<u8> {
    seq![
        (n % 256) as u8,
        (n / 256 % 256) as u8,
        (n / 65536 % 256) as u8,
        (n / 16777216 % 256) as u8,
    ]
}

/// The byte that comes first counts for the least: each byte counts 256 times
/// as much as the one before it, wherever they stand.
pub proof fn law_the_first_byte_counts_least(before: Seq<u8>, a: u8, b: u8, c: u8, d: u8, after: Seq<u8>)
    ensures
        le16(before + seq![a, b] + after, before.len() as int) == a + 0x100 * b,
        le32(before + seq![a, b, c, d] + after, before.len() as int) == a + 0x100 * (b + 0x100 * (c
            + 0x100 * d)),
        le16_bytes((a + 0x100 * b) as nat) == seq![a, b],
        le32_bytes((a + 0x100 * (b + 0x100 * (c + 0x100 * d))) as nat) == seq![a, b, c, d],
{
    let i = before.len() as int;
    let s = before + seq![a, b] + after;
    assert(s[i] == a && s[i + 1] == b);
    let t = before + seq![a, b, c, d] + after;
    assert(t[i] == a && t[i + 1] == b && t[i + 2] == c && t[i + 3] == d);
    let n = (a + 0x100 * (b + 0x100 * (c + 0x100 * d))) as nat;
    assert(n % 256 == a && n / 256 % 256 == b && n / 65536 % 256 == c && n / 16777216 % 256 == d);
    assert(le32_bytes(n) =~= seq![a, b, c, d]);
    assert(le16_bytes((a + 0x100 * b) as nat) =~= seq![a, b]);
}

/// A number below 2^16 is read back from its two bytes, wherever they stand.
pub proof fn lemma_le16_is_read_back(n: nat, s: Seq<u8>, i: int)
    requires
        n < 65536,
        0 <= i && i + 2 <= s.len(),
        s.subrange(i, i + 2) == le16_bytes(n),
    ensures
        le16(s, i) == n,
{
    let t = s.subrange(i, i + 2);
    assert(s[i] == t[0] && s[i + 1] == t[1]);
}

/// A number below 2^32 is read back from its four bytes, wherever they stand.
pub proof fn lemma_le32_is_read_back(n: nat, s: Seq<u8>, i: int)
    requires
        n < 4294967296,
        0 <= i && i + 4 <= s.len(),
        s.subrange(i, i + 4) == le32_bytes(n),
    ensures
        le32(s, i) == n,
{
    let t = s.subrange(i, i + 4);
    assert(s[i] == t[0] && s[i + 1] == t[1] && s[i + 2] == t[2] && s[i + 3] == t[3]);
}

/// Reads two bytes from `i` on, least byte first.
pub fn read_le16(s: &[u8], i: usize) -> (n: u16)
    requires
        i + 2 <= s.len(),
    ensures
        n == le16(s@, i as int),
{
    (s[i] as u16) + 256 * (s[i + 1] as u16)
}

/// Reads four bytes from `i` on, least byte first.
pub fn read_le32(s: &[u8], i: usize) -> (n: u32)
    requires
        i + 4 <= s.len(),
    ensures
        n == le32(s@, i as int),
{
    (s[i] as u32) + 256 * (s[i + 1] as u32) + 65536 * (s[i + 2] as u32) + 16777216 * (
    s[i + 3] as u32)
}

/// Appends `n` in two bytes, least byte first.
pub fn push_le16(out: &mut Vec<u8>, n: u16)
    ensures
        final(out)@ == old(out)@ + le16_bytes(n as nat),
{
    out.push((n % 256) as u8);
    out.push((n / 256 % 256) as u8);
    assert(out@ =~= old(out)@ + le16_bytes(n as nat));
}

/// Appends `n` in four bytes, least byte first.
pub fn push_le32(out: &mut Vec<u8>, n: u32)
    ensures
        final(out)@ == old(out)@ + le32_bytes(n as nat),
{
    out.push((n % 256) as u8);
    out.push((n / 256 % 256) as u8);
    out.push((n / 65536 % 256) as u8);
    out.push((n / 16777216 % 256) as u8);
    assert(out@ =~= old(out)@ + le32_bytes(n as nat));
}

/// Appends the bytes `s`.
pub fn push_all(out: &mut Vec<u8>, s: &[u8])
    ensures
        final(out)@ == old(out)@ + s@,
{
    let mut i: usize = 0;
    assert(out@ =~= old(out)@ + s@.take(0));
    while i < s.len()
        invariant
            i <= s.len(),
            out@ == old(out)@ + s@.take(i as int),
        decreases s.len() - i,
    {
        out.push(s[i]);
        assert(out@ =~= old(out)@ + s@.take(i + 1));
        i += 1;
    }
    assert(s@.take(i as int) =~= s@);
}

/// What `String::from_utf8_lossy` makes of bytes `s` that are not UTF-8.
pub uninterp spec fn repaired_text(s: Seq<u8>) -> Seq<char>;

/// The text that the bytes `s` stand for: what they encode if they are UTF-8,
/// and a repaired text if they are not.
pub open spec fn text_of(s: Seq<u8>) -> Seq<char> {
    if valid_utf8(s) {
        decode_utf8(s)
    } else {
        repaired_text(s)
    }
}

/// `String::from_utf8_lossy`: the text that `s` encodes, if `s` is UTF-8. Of
/// other bytes it is only said that the same bytes give the same text; there
/// the function puts `U+FFFD` in place of what is not UTF-8.
#[verifier::external_body]
pub(crate) fn text_lossy(s: &[u8]) -> (r: String)
    ensures
        valid_utf8(s@) ==> r@ == decode_utf8(s@),
        !valid_utf8(s@) ==> r@ == repaired_text(s@),
{
    String::from_utf8_lossy(s).into_owned()
}

/// `std::str::from_utf8`: the text that `s` encodes, if `s` is UTF-8, and
/// nothing if it is not.
#[verifier::external_body]
pub(crate) fn text_strict(s: &[u8]) -> (r: Option<&str>)
    ensures
        match r {
            Some(t) => valid_utf8(s@) && t@ == decode_utf8(s@),
            None => !valid_utf8(s@),
        },
{
    std::str::from_utf8(s).ok()
}

} // verus!
