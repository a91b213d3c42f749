//! Little-endian integers in byte sequences.

use vstd::prelude::*;

verus! {

/// The value of the two bytes of `s` from `i` on.
pub open spec fn le16(s: Seq<u8>, i: int) -> int {
    s[i] + 0x100 * s[i + 1]
}

/// The value of the four bytes of `s` from `i` on.
pub open spec fn le32(s: Seq<u8>, i: int) -> int {
    s[i] + 0x100 * s[i + 1] + 0x1_0000 * s[i + 2] + 0x100_0000 * s[i + 3]
}

/// The value of the eight bytes of `s` from `i` on.
pub open spec fn le64(s: Seq<u8>, i: int) -> int {
    le32(s, i) + 0x1_0000_0000 * le32(s, i + 4)
}

/// The two bytes of `x`, lowest first.
pub open spec fn bytes16(x: u16) -> Seq<u8> {
    seq![(x % 0x100) as u8, (x / 0x100) as u8]
}

/// The four bytes of `x`, lowest first.
pub open spec fn bytes32(x: u32) -> Seq<u8> {
    seq![
        (x % 0x100) as u8,
        (x / 0x100 % 0x100) as u8,
        (x / 0x1_0000 % 0x100) as u8,
        (x / 0x100_0000) as u8,
    ]
}

/// The eight bytes of `x`, lowest first.
pub open spec fn bytes64(x: u64) -> Seq<u8> {
    bytes32((x % 0x1_0000_0000) as u32) + bytes32((x / 0x1_0000_0000) as u32)
}

/// Reading the bytes of a number gives the number back.
pub proof fn le16_reads_bytes16(x: u16)
    ensures
        le16(bytes16(x), 0) == x,
{
}

/// Reading the bytes of a number gives the number back.
pub proof fn le32_reads_bytes32(x: u32)
    ensures
        le32(bytes32(x), 0) == x,
{
}

/// Reading the bytes of a number gives the number back.
pub proof fn le64_reads_bytes64(x: u64)
    ensures
        le64(bytes64(x), 0) == x,
{
    let lo = (x % 0x1_0000_0000) as u32;
    let hi = (x / 0x1_0000_0000) as u32;
    le32_reads_bytes32(lo);
    le32_reads_bytes32(hi);
    assert(bytes64(x).subrange(0, 4) =~= bytes32(lo));
    assert(bytes64(x).subrange(4, 8) =~= bytes32(hi));
    assert(forall|i: int| 0 <= i < 4 ==> bytes64(x)[i] == bytes32(lo)[i]);
    assert(forall|i: int| 0 <= i < 4 ==> bytes64(x)[i + 4] == #[trigger] bytes32(hi)[i]);
}

/// A number is determined by its bytes.
pub proof fn bytes32_of_le32(s: Seq<u8>, i: int)
    requires
        0 <= i,
        i + 4 <= s.len(),
    ensures
        0 <= le32(s, i) <= u32::MAX,
        bytes32(le32(s, i) as u32) == s.subrange(i, i + 4),
{
    assert(bytes32(le32(s, i) as u32) =~= s.subrange(i, i + 4));
}

/// A number is determined by its bytes.
pub proof fn bytes64_of_le64(s: Seq<u8>, i: int)
    requires
        0 <= i,
        i + 8 <= s.len(),
    ensures
        0 <= le64(s, i) <= u64::MAX,
        bytes64(le64(s, i) as u64) == s.subrange(i, i + 8),
{
    bytes32_of_le32(s, i);
    bytes32_of_le32(s, i + 4);
    bytes64_of_halves(le32(s, i), le32(s, i + 4));
    assert(s.subrange(i, i + 4) + s.subrange(i + 4, i + 8) =~= s.subrange(i, i + 8));
}

proof fn bytes64_of_halves(lo: int, hi: int)
    requires
        0 <= lo <= u32::MAX,
        0 <= hi <= u32::MAX,
    ensures
        0 <= lo + 0x1_0000_0000 * hi <= u64::MAX,
        bytes64((lo + 0x1_0000_0000 * hi) as u64) == bytes32(lo as u32) + bytes32(hi as u32),
{
    let x = (lo + 0x1_0000_0000 * hi) as u64;
    assert(x % 0x1_0000_0000 == lo);
    assert(x / 0x1_0000_0000 == hi);
}

/// Reads the two bytes from `i` on.
pub fn get_u16(s: &[u8], i: usize) -> (x: u16)
    requires
        i + 2 <= s.len(),
    ensures
        x == le16(s@, i as int),
{
    s[i] as u16 + 0x100 * (s[i + 1] as u16)
}

/// Reads the four bytes from `i` on.
pub fn get_u32(s: &[u8], i: usize) -> (x: u32)
    requires
        i + 4 <= s.len(),
    ensures
        x == le32(s@, i as int),
{
    s[i] as u32 + 0x100 * (s[i + 1] as u32) + 0x1_0000 * (s[i + 2] as u32) + 0x100_0000 * (s[i
        + 3] as u32)
}

/// Reads the eight bytes from `i` on.
pub fn get_u64(s: &[u8], i: usize) -> (x: u64)
    requires
        i + 8 <= s.len(),
    ensures
        x == le64(s@, i as int),
{
    get_u32(s, i) as u64 + 0x1_0000_0000 * (get_u32(s, i + 4) as u64)
}

/// Appends the four bytes of `x`.
pub fn put_u32(out: &mut Vec<u8>, x: u32)
    ensures
        final(out)@ == old(out)@ + bytes32(x),
{
    let ghost before = out@;
    out.push((x % 0x100) as u8);
    out.push((x / 0x100 % 0x100) as u8);
    out.push((x / 0x1_0000 % 0x100) as u8);
    out.push((x / 0x100_0000) as u8);
    assert(out@ =~= before + bytes32(x));
}

/// Appends the eight bytes of `x`.
pub fn put_u64(out: &mut Vec<u8>, x: u64)
    ensures
        final(out)@ == old(out)@ + bytes64(x),
{
    let ghost before = out@;
    put_u32(out, (x % 0x1_0000_0000) as u32);
    put_u32(out, (x / 0x1_0000_0000) as u32);
    assert(out@ =~= before + bytes64(x));
}

/// The first byte of a number is the lowest: a number is the sum of its bytes,
/// each worth 256 times as much as the one before.
pub proof fn later_bytes_weigh_more(s: Seq<u8>, i: int)
    requires
        0 <= i,
        i + 8 <= s.len(),
    ensures
        le16(s, i) == s[i] + 256 * s[i + 1],
        le32(s, i) == s[i] + 256 * (s[i + 1] + 256 * (s[i + 2] + 256 * s[i + 3])),
        le64(s, i) == le32(s, i) + 256 * (256 * (256 * (256 * (s[i + 4] + 256 * (s[i + 5] + 256 * (
        s[i + 6] + 256 * s[i + 7])))))),
{
}

/// The bytes of a number are written lowest first.
pub proof fn the_lowest_byte_comes_first(x: u32, y: u64)
    ensures
        ({
            let b = bytes32(x);
            &&& b.len() == 4
            &&& x == b[0] + 256 * (b[1] + 256 * (b[2] + 256 * b[3]))
        }),
        ({
            let b = bytes64(y);
            let low = b[0] + 256 * (b[1] + 256 * (b[2] + 256 * b[3]));
            let high = b[4] + 256 * (b[5] + 256 * (b[6] + 256 * b[7]));
            &&& b.len() == 8
            &&& y == low + 0x1_0000_0000 * high
        }),
{
    sum_of_bytes(x);
    let lo = (y % 0x1_0000_0000) as u32;
    let hi = (y / 0x1_0000_0000) as u32;
    sum_of_bytes(lo);
    sum_of_bytes(hi);
    assert(bytes64(y)[0] == bytes32(lo)[0] && bytes64(y)[1] == bytes32(lo)[1]);
    assert(bytes64(y)[2] == bytes32(lo)[2] && bytes64(y)[3] == bytes32(lo)[3]);
    assert(bytes64(y)[4] == bytes32(hi)[0] && bytes64(y)[5] == bytes32(hi)[1]);
    assert(bytes64(y)[6] == bytes32(hi)[2] && bytes64(y)[7] == bytes32(hi)[3]);
}

proof fn sum_of_bytes(x: u32)
    ensures
        bytes32(x).len() == 4,
        x == bytes32(x)[0] + 256 * (bytes32(x)[1] + 256 * (bytes32(x)[2] + 256 * bytes32(x)[3])),
{
}

} // verus!
