use vstd::prelude::*;

verus! {

/// The little-endian 16-bit word that starts at index `at`.
pub open spec fn le16(s: Seq<u8>, at: int) -> u16 {
    (s[at] as int + s[at + 1] as int * 256) as u16
}

/// The little-endian 32-bit word that starts at index `at`.
pub open spec fn le32(s: Seq<u8>, at: int) -> u32 {
    (s[at] as int + s[at + 1] as int * 256 + s[at + 2] as int * 65536 + s[at + 3] as int
        * 16777216) as u32
}

/// The two bytes of a 16-bit word, low byte first.
pub open spec fn le16_bytes(x: u16) -> Seq<u8> {
    seq![(x as int % 256) as u8, (x as int / 256) as u8]
}

/// The four bytes of a 32-bit word, lowest byte first.
pub open spec fn le32_bytes(x: u32) -> Seq<u8> {
    seq![
        (x as int % 256) as u8,
        (x as int / 256 % 256) as u8,
        (x as int / 65536 % 256) as u8,
        (x as int / 16777216) as u8,
    ]
}

/// Decoding undoes encoding, for both word sizes.
pub proof fn lemma_le_round_trip(x: u16, y: u32)
    ensures
        le16(le16_bytes(x), 0) == x,
        le32(le32_bytes(y), 0) == y,
{
}

/// Reads a little-endian 16-bit word.
pub fn read_le16(s: &Vec<u8>, at: usize) -> (x: u16)
    requires
        at + 2 <= s.len(),
    ensures
        x == le16(s@, at as int),
{
    s[at] as u16 + s[at + 1] as u16 * 256
}

/// Reads a little-endian 32-bit word.
pub fn read_le32(s: &Vec<u8>, at: usize) -> (x: u32)
    requires
        at + 4 <= s.len(),
    ensures
        x == le32(s@, at as int),
{
    s[at] as u32 + s[at + 1] as u32 * 256 + s[at + 2] as u32 * 65536 + s[at + 3] as u32 * 16777216
}

/// Appends a 16-bit word, low byte first.
pub fn push_le16(out: &mut Vec<u8>, x: u16)
    ensures
        final(out)@ == old(out)@ + le16_bytes(x),
{
    out.push((x % 256) as u8);
    out.push((x / 256) as u8);
    assert(out@ =~= old(out)@ + le16_bytes(x));
}

/// Appends a 32-bit word, lowest byte first.
pub fn push_le32(out: &mut Vec<u8>, x: u32)
    ensures
        final(out)@ == old(out)@ + le32_bytes(x),
{
    out.push((x % 256) as u8);
    out.push((x / 256 % 256) as u8);
    out.push((x / 65536 % 256) as u8);
    out.push((x / 16777216) as u8);
    assert(out@ =~= old(out)@ + le32_bytes(x));
}

/// Appends a run of bytes.
pub fn push_bytes(out: &mut Vec<u8>, src: &[u8])
    ensures
        final(out)@ == old(out)@ + src@,
{
    let mut i: usize = 0;
    while i < src.len()
        invariant
            i <= src@.len(),
            out@ == old(out)@ + src@.subrange(0, i as int),
        decreases src@.len() - i,
    {
        out.push(src[i]);
        i += 1;
        assert(out@ =~= old(out)@ + src@.subrange(0, i as int));
    }
    assert(src@.subrange(0, i as int) =~= src@);
}

/// A copy of the bytes from `start` up to `end`.
pub fn copy_range(src: &Vec<u8>, start: usize, end: usize) -> (out: Vec<u8>)
    requires
        start <= end <= src.len(),
    ensures
        out@ == src@.subrange(start as int, end as int),
{
    let mut out: Vec<u8> = Vec::new();
    let mut i: usize = start;
    while i < end
        invariant
            start <= i <= end,
            end <= src.len(),
            out@ == src@.subrange(start as int, i as int),
        decreases end - i,
    {
        out.push(src[i]);
        i += 1;
        assert(out@ =~= src@.subrange(start as int, i as int));
    }
    out
}

} // verus!
