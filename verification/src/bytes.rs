//! Byte-level helpers: overwriting a range, big-endian integers, mutable
//! sections of a slice.
use vstd::prelude::*;

verus! {

/// `s` with the bytes from `at` on overwritten by `src`.
pub open spec fn splice(s: Seq<u8>, at: int, src: Seq<u8>) -> Seq<u8> {
    Seq::new(s.len(), |i: int| if at <= i < at + src.len() { src[i - at] } else { s[i] })
}

/// `s` with the bytes from `start` up to `end` replaced by `section`.
pub open spec fn with_section(s: Seq<u8>, start: int, end: int, section: Seq<u8>) -> Seq<u8> {
    s.subrange(0, start) + section + s.subrange(end, s.len() as int)
}

/// `n` zero bytes.
pub open spec fn zeros(n: int) -> Seq<u8> {
    Seq::new(n as nat, |i: int| 0u8)
}

/// The eight bytes of `n`, most significant first.
pub open spec fn be_bytes(n: u64) -> Seq<u8> {
    seq![
        (n >> 56) as u8,
        (n >> 48) as u8,
        (n >> 40) as u8,
        (n >> 32) as u8,
        (n >> 24) as u8,
        (n >> 16) as u8,
        (n >> 8) as u8,
        n as u8,
    ]
}

/// The number whose eight bytes, most significant first, start at `at`.
pub open spec fn be_value(s: Seq<u8>, at: int) -> u64 {
    (s[at] as u64) << 56 | (s[at + 1] as u64) << 48 | (s[at + 2] as u64) << 40 | (s[at + 3] as u64)
        << 32 | (s[at + 4] as u64) << 24 | (s[at + 5] as u64) << 16 | (s[at + 6] as u64) << 8 | (
    s[at + 7] as u64)
}

/// Reading the big-endian bytes of a number gives the number back.
pub proof fn lemma_be_value_of_be_bytes(n: u64)
    ensures
        be_value(be_bytes(n), 0) == n,
{
    let s = be_bytes(n);
    assert(((n >> 56) as u8 as u64) << 56 | ((n >> 48) as u8 as u64) << 48 | ((n >> 40) as u8 as u64)
        << 40 | ((n >> 32) as u8 as u64) << 32 | ((n >> 24) as u8 as u64) << 24 | ((n
        >> 16) as u8 as u64) << 16 | ((n >> 8) as u8 as u64) << 8 | (n as u8 as u64) == n)
        by (bit_vector);
    assert(s[0] == (n >> 56) as u8);
}

/// Eight bytes are the big-endian bytes of the number they spell.
pub proof fn lemma_be_bytes_of_be_value(s: Seq<u8>, at: int)
    requires
        0 <= at,
        at + 8 <= s.len(),
    ensures
        be_bytes(be_value(s, at)) == s.subrange(at, at + 8),
{
    let (a, b, c, d) = (s[at], s[at + 1], s[at + 2], s[at + 3]);
    let (e, f, g, h) = (s[at + 4], s[at + 5], s[at + 6], s[at + 7]);
    let n = be_value(s, at);
    assert((n >> 56) as u8 == a && (n >> 48) as u8 == b && (n >> 40) as u8 == c && (n >> 32) as u8
        == d && (n >> 24) as u8 == e && (n >> 16) as u8 == f && (n >> 8) as u8 == g && n as u8 == h)
        by (bit_vector)
        requires
            n == (a as u64) << 56 | (b as u64) << 48 | (c as u64) << 40 | (d as u64) << 32 | (
            e as u64) << 24 | (f as u64) << 16 | (g as u64) << 8 | (h as u64),
    ;
    assert(be_bytes(n) =~= s.subrange(at, at + 8));
}

/// A number that was spliced into a sequence is read back from there.
pub proof fn lemma_be_value_of_splice(s: Seq<u8>, at: int, n: u64)
    requires
        0 <= at,
        at + 8 <= s.len(),
    ensures
        be_value(splice(s, at, be_bytes(n)), at) == n,
{
    lemma_be_value_of_be_bytes(n);
    let t = splice(s, at, be_bytes(n));
    assert forall|i: int| 0 <= i < 8 implies #[trigger] t[at + i] == be_bytes(n)[i] by {}
    assert(t[at + 0] == be_bytes(n)[0]);
}

/// The big-endian bytes of `n`.
pub fn encode_u64(n: u64) -> (encoded: [u8; 8])
    ensures
        encoded@ == be_bytes(n),
{
    [
        (n >> 56) as u8,
        (n >> 48) as u8,
        (n >> 40) as u8,
        (n >> 32) as u8,
        (n >> 24) as u8,
        (n >> 16) as u8,
        (n >> 8) as u8,
        n as u8,
    ]
}

/// Reads the big-endian number at `at`.
pub fn read_u64(mem: &[u8], at: usize) -> (n: u64)
    requires
        at + 8 <= mem@.len(),
    ensures
        n == be_value(mem@, at as int),
{
    (mem[at] as u64) << 56 | (mem[at + 1] as u64) << 48 | (mem[at + 2] as u64) << 40 | (mem[at
        + 3] as u64) << 32 | (mem[at + 4] as u64) << 24 | (mem[at + 5] as u64) << 16 | (mem[at
        + 6] as u64) << 8 | (mem[at + 7] as u64)
}

/// Overwrites the bytes from `at` on with `src`.
pub fn copy_into(mem: &mut [u8], at: usize, src: &[u8])
    requires
        at + src@.len() <= old(mem)@.len(),
    ensures
        final(mem)@ == splice(old(mem)@, at as int, src@),
{
    assert(mem.len() == mem@.len());
    let mut i: usize = 0;
    while i < src.len()
        invariant
            i <= src@.len(),
            old(mem)@.len() <= usize::MAX,
            at + src@.len() <= old(mem)@.len(),
            mem@ == splice(old(mem)@, at as int, src@.take(i as int)),
        decreases src@.len() - i,
    {
        let byte: u8 = src[i];
        mem[at + i] = byte;
        i = i + 1;
        assert(mem@ =~= splice(old(mem)@, at as int, src@.take(i as int)));
    }
    assert(src@.take(i as int) =~= src@);
}

/// Overwrites the bytes from `start` up to `end` with zeros.
pub fn zero_fill(mem: &mut [u8], start: usize, end: usize)
    requires
        start <= end <= old(mem)@.len(),
    ensures
        final(mem)@ == splice(old(mem)@, start as int, zeros(end - start)),
{
    let mut i: usize = start;
    while i < end
        invariant
            start <= i <= end <= old(mem)@.len(),
            mem@ == splice(old(mem)@, start as int, zeros(i - start)),
        decreases end - i,
    {
        mem[i] = 0;
        i = i + 1;
        assert(mem@ =~= splice(old(mem)@, start as int, zeros(i - start)));
    }
}

/// The bytes from `start` up to `end`, to be changed in place.
pub fn section_mut(mem: &mut [u8], start: usize, end: usize) -> (section: &mut [u8])
    requires
        start <= end <= old(mem)@.len(),
    ensures
        section@ == old(mem)@.subrange(start as int, end as int),
        final(mem)@ == with_section(old(mem)@, start as int, end as int, final(section)@),
{
    let (front, _back) = mem.split_at_mut(end);
    let (_skipped, section) = front.split_at_mut(start);
    section
}

/// What was overwritten is what was put there, and nothing before or behind it
/// changed.
pub proof fn law_splice(s: Seq<u8>, at: int, src: Seq<u8>)
    requires
        0 <= at,
        at + src.len() <= s.len(),
    ensures
        splice(s, at, src).len() == s.len(),
        splice(s, at, src).subrange(at, at + src.len()) == src,
        splice(s, at, src).subrange(0, at) == s.subrange(0, at),
        splice(s, at, src).subrange(at + src.len(), s.len() as int) == s.subrange(
            at + src.len(),
            s.len() as int,
        ),
{
}

/// A section that was replaced is read back, and nothing before or behind it changed.
pub proof fn law_section(s: Seq<u8>, start: int, end: int, section: Seq<u8>)
    requires
        0 <= start <= end <= s.len(),
        section.len() == end - start,
    ensures
        with_section(s, start, end, section).len() == s.len(),
        with_section(s, start, end, section).subrange(start, end) == section,
        with_section(s, start, end, section).subrange(0, start) == s.subrange(0, start),
        with_section(s, start, end, section).subrange(end, s.len() as int) == s.subrange(
            end,
            s.len() as int,
        ),
{
}

/// Zeros are as many as asked for, and each of them is zero.
pub proof fn law_zeros(n: int)
    requires
        0 <= n,
    ensures
        zeros(n).len() == n,
        forall|i: int| 0 <= i < n ==> #[trigger] zeros(n)[i] == 0,
{
}

/// The bytes of a number are its digits to the base 256, most significant first.
pub proof fn law_big_endian(s: Seq<u8>, at: int)
    requires
        0 <= at,
        at + 8 <= s.len(),
    ensures
        be_value(s, at) == s[at] * 0x100_0000_0000_0000 + s[at + 1] * 0x1_0000_0000_0000 + s[at + 2]
            * 0x100_0000_0000 + s[at + 3] * 0x1_0000_0000 + s[at + 4] * 0x100_0000 + s[at + 5]
            * 0x1_0000 + s[at + 6] * 0x100 + s[at + 7],
        be_bytes(be_value(s, at)) == s.subrange(at, at + 8),
        be_bytes(be_value(s, at)).len() == 8,
{
    let (a, b, c, d) = (s[at], s[at + 1], s[at + 2], s[at + 3]);
    let (e, f, g, h) = (s[at + 4], s[at + 5], s[at + 6], s[at + 7]);
    assert((a as u64) << 56 | (b as u64) << 48 | (c as u64) << 40 | (d as u64) << 32 | (e as u64)
        << 24 | (f as u64) << 16 | (g as u64) << 8 | (h as u64) == a * 0x100_0000_0000_0000 + b
        * 0x1_0000_0000_0000 + c * 0x100_0000_0000 + d * 0x1_0000_0000 + e * 0x100_0000 + f
        * 0x1_0000 + g * 0x100 + h) by (bit_vector);
    lemma_be_bytes_of_be_value(s, at);
}

/// A number is read back from its bytes, which are eight.
pub proof fn law_number_is_read_back(n: u64)
    ensures
        be_bytes(n).len() == 8,
        be_value(be_bytes(n), 0) == n,
{
    lemma_be_value_of_be_bytes(n);
}

} // verus!
