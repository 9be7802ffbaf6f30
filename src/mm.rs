//! Physical memory, seen as a byte image: address `a` is byte `a` of the image.
//! Every read is bounds-checked and yields `None` instead of trapping when the
//! image does not hold the requested bytes.
use vstd::prelude::*;
use vstd::arithmetic::div_mod::lemma_add_mod_noop;

verus! {

/// A strongly typed physical address.
#[derive(Clone, Copy, Debug, PartialEq, Eq, PartialOrd, Ord)]
pub struct PhysAddr(pub u64);

/// Does the image hold the `n` bytes starting at `a`?
pub open spec fn in_image(mem: Seq<u8>, a: int, n: int) -> bool {
    0 <= a && 0 <= n && a + n <= mem.len()
}

/// Little-endian 16-bit value at `a`.
pub open spec fn le16(mem: Seq<u8>, a: int) -> int {
    mem[a] + 256 * mem[a + 1]
}

/// Little-endian 32-bit value at `a`.
pub open spec fn le32(mem: Seq<u8>, a: int) -> int {
    le16(mem, a) + 65536 * le16(mem, a + 2)
}

/// Little-endian 64-bit value at `a`.
pub open spec fn le64(mem: Seq<u8>, a: int) -> int {
    le32(mem, a) + 4294967296 * le32(mem, a + 4)
}

/// The unsigned sum of all bytes of `s`.
pub open spec fn byte_sum(s: Seq<u8>) -> int
    decreases s.len(),
{
    if s.len() == 0 {
        0
    } else {
        byte_sum(s.drop_last()) + s.last()
    }
}

/// A region checksums correctly when its bytes sum to zero modulo 256.
pub open spec fn checksum_ok(s: Seq<u8>) -> bool {
    byte_sum(s) % 256 == 0
}

/// Does the image hold `n` bytes at `addr`? (Computed without overflow.)
pub fn fits(mem: &[u8], addr: u64, n: u64) -> (r: bool)
    ensures
        r == in_image(mem@, addr as int, n as int),
{
    let len = mem.len() as u64;
    addr <= len && n <= len - addr
}

/// Reads the byte at `addr`.
pub fn read_phys(mem: &[u8], addr: PhysAddr) -> (r: Option<u8>)
    ensures
        r == (if in_image(mem@, addr.0 as int, 1) {
            Some(mem@[addr.0 as int])
        } else {
            None::<u8>
        }),
{
    if fits(mem, addr.0, 1) {
        Some(mem[addr.0 as usize])
    } else {
        None
    }
}

/// Reads the little-endian 16-bit value at `addr`.
pub fn read_phys_u16(mem: &[u8], addr: PhysAddr) -> (r: Option<u16>)
    ensures
        in_image(mem@, addr.0 as int, 2) ==> r == Some(le16(mem@, addr.0 as int) as u16),
        !in_image(mem@, addr.0 as int, 2) ==> r is None,
        r matches Some(v) ==> v as int == le16(mem@, addr.0 as int),
{
    if fits(mem, addr.0, 2) {
        let a = addr.0 as usize;
        Some(mem[a] as u16 + (mem[a + 1] as u16) * 256)
    } else {
        None
    }
}

/// Reads the little-endian 32-bit value at `addr`.
pub fn read_phys_u32(mem: &[u8], addr: PhysAddr) -> (r: Option<u32>)
    ensures
        in_image(mem@, addr.0 as int, 4) ==> r == Some(le32(mem@, addr.0 as int) as u32),
        !in_image(mem@, addr.0 as int, 4) ==> r is None,
        r matches Some(v) ==> v as int == le32(mem@, addr.0 as int),
{
    if fits(mem, addr.0, 4) {
        let a = addr.0 as usize;
        let lo = mem[a] as u32 + (mem[a + 1] as u32) * 256;
        let hi = mem[a + 2] as u32 + (mem[a + 3] as u32) * 256;
        Some(lo + hi * 65536)
    } else {
        None
    }
}

/// Reads the little-endian 64-bit value at `addr`.
pub fn read_phys_u64(mem: &[u8], addr: PhysAddr) -> (r: Option<u64>)
    ensures
        in_image(mem@, addr.0 as int, 8) ==> r == Some(le64(mem@, addr.0 as int) as u64),
        !in_image(mem@, addr.0 as int, 8) ==> r is None,
        r matches Some(v) ==> v as int == le64(mem@, addr.0 as int),
{
    let n = mem.len();
    if fits(mem, addr.0, 8) {
        assert(addr.0 + 4 <= n);
        let lo = read_phys_u32(mem, addr).unwrap();
        let hi = read_phys_u32(mem, PhysAddr(addr.0 + 4)).unwrap();
        Some(lo as u64 + (hi as u64) * 4294967296)
    } else {
        None
    }
}

/// The byte sum modulo 256 of the `len` bytes at `start`, accumulated with
/// wrapping 8-bit additions.
pub fn checksum(mem: &[u8], start: usize, len: usize) -> (r: u8)
    requires
        start + len <= mem@.len(),
    ensures
        r as int == byte_sum(mem@.subrange(start as int, start + len)) % 256,
{
    let n = mem.len();
    let end = start + len;
    let mut acc: u8 = 0;
    let mut i: usize = start;
    while i < end
        invariant
            end == start + len,
            start <= i <= end,
            end <= mem@.len(),
            acc as int == byte_sum(mem@.subrange(start as int, i as int)) % 256,
        decreases end - i,
    {
        let b = mem[i];
        proof {
            let pre = mem@.subrange(start as int, i as int);
            let next = mem@.subrange(start as int, i + 1);
            assert(next.drop_last() =~= pre);
            assert(next.last() == b);
            lemma_add_mod_noop(byte_sum(pre), b as int, 256);
            assert((b as int) % 256 == b as int);
            assert((acc as int + b as int) % 256 == (byte_sum(pre) + b) % 256);
        }
        acc = acc.wrapping_add(b);
        i += 1;
    }
    acc
}

} // verus!
