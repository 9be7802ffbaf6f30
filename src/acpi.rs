//! ACPI table discovery and parsing over an image of physical memory: the root
//! pointer scan, checksummed table headers, the root table walk, and the
//! interrupt-controller (MADT) and resource-affinity (SRAT) tables.
use vstd::prelude::*;
use crate::mm::{
    PhysAddr, in_image, le16, le32, le64, byte_sum, checksum_ok, fits, checksum, read_phys_u16,
    read_phys_u32, read_phys_u64,
};
use crate::topology::{Topology, TopologyView, registry_result, build_topology};

verus! {

/// Size in bytes of the standard table header.
pub const HEADER_SIZE: u64 = 36;

/// Signature of the root system description table, "RSDT" read little-endian.
pub const SIG_RSDT: u32 = 0x5444_5352;

/// Signature of the interrupt-controller table, "APIC" read little-endian.
pub const SIG_APIC: u32 = 0x4349_5041;

/// Signature of the resource-affinity table, "SRAT" read little-endian.
pub const SIG_SRAT: u32 = 0x5441_5253;

/// Why discovery failed. Every one of these is fatal to boot.
#[derive(Clone, Copy, Debug, PartialEq, Eq)]
pub enum AcpiError {
    /// No valid root pointer in either scanned window.
    RsdpNotFound,
    /// A structure reaches past the end of the memory image.
    OutOfBounds,
    /// A header declares a total length smaller than the header itself.
    LengthUnderflow { signature: u32 },
    /// A table's bytes do not sum to zero modulo 256.
    BadChecksum { signature: u32 },
    /// The root table does not carry the "RSDT" signature.
    BadSignature { signature: u32 },
    /// The root table's payload is not a whole number of 32-bit pointers.
    RootTableMisaligned,
    /// More than one interrupt-controller table is listed.
    DuplicateMadt,
    /// More than one resource-affinity table is listed.
    DuplicateSrat,
    /// A table is too short for its fixed fields, or its sub-entries do not
    /// tile its payload exactly.
    MalformedTable { signature: u32 },
    /// An APIC id does not fit the core registry.
    ApicIdOutOfRange,
}

/// The common header at the start of every standard description table.
#[derive(Clone, Copy, Debug, PartialEq, Eq)]
pub struct AcpiTableHeader {
    /// The four signature bytes, read as a little-endian value.
    pub signature: u32,
    /// Total length of the table, header included.
    pub length: u32,
    pub revision: u8,
    pub checksum: u8,
    pub oem_id: [u8; 6],
    pub oem_table_id: u64,
    pub oem_revision: u32,
    pub asl_compiler_id: u32,
    pub asl_compiler_revision: u32,
}

/// The header laid out at `a`.
pub open spec fn header_at(mem: Seq<u8>, a: int) -> AcpiTableHeader {
    AcpiTableHeader {
        signature: le32(mem, a) as u32,
        length: le32(mem, a + 4) as u32,
        revision: mem[a + 8],
        checksum: mem[a + 9],
        oem_id: [mem[a + 10], mem[a + 11], mem[a + 12], mem[a + 13], mem[a + 14], mem[a + 15]],
        oem_table_id: le64(mem, a + 16) as u64,
        oem_revision: le32(mem, a + 24) as u32,
        asl_compiler_id: le32(mem, a + 28) as u32,
        asl_compiler_revision: le32(mem, a + 32) as u32,
    }
}

/// What parsing the table at `a` yields: its header, the address of the
/// payload that follows the header, and the payload's length.
pub open spec fn header_result(mem: Seq<u8>, a: int) -> Result<
    (AcpiTableHeader, PhysAddr, usize),
    AcpiError,
> {
    if !in_image(mem, a, HEADER_SIZE as int) {
        Err(AcpiError::OutOfBounds)
    } else if le32(mem, a + 4) < HEADER_SIZE {
        Err(AcpiError::LengthUnderflow { signature: le32(mem, a) as u32 })
    } else if !in_image(mem, a, le32(mem, a + 4)) {
        Err(AcpiError::OutOfBounds)
    } else if !checksum_ok(mem.subrange(a, a + le32(mem, a + 4))) {
        Err(AcpiError::BadChecksum { signature: le32(mem, a) as u32 })
    } else {
        Ok(
            (
                header_at(mem, a),
                PhysAddr((a + HEADER_SIZE) as u64),
                (le32(mem, a + 4) - HEADER_SIZE) as usize,
            ),
        )
    }
}

/// Reads the header at `addr`, checks its length and its checksum over the
/// whole declared length, and returns the header, the payload's address and
/// the payload's length.
pub fn parse_header(mem: &[u8], addr: PhysAddr) -> (r: Result<
    (AcpiTableHeader, PhysAddr, usize),
    AcpiError,
>)
    ensures
        r == header_result(mem@, addr.0 as int),
{
    let n = mem.len();
    if !fits(mem, addr.0, HEADER_SIZE) {
        return Err(AcpiError::OutOfBounds);
    }
    let a = addr.0;
    let signature = read_phys_u32(mem, addr).unwrap();
    let length = read_phys_u32(mem, PhysAddr(a + 4)).unwrap();
    if (length as u64) < HEADER_SIZE {
        return Err(AcpiError::LengthUnderflow { signature });
    }
    if !fits(mem, a, length as u64) {
        return Err(AcpiError::OutOfBounds);
    }
    let i = a as usize;
    if checksum(mem, i, length as usize) != 0 {
        return Err(AcpiError::BadChecksum { signature });
    }
    let header = AcpiTableHeader {
        signature,
        length,
        revision: mem[i + 8],
        checksum: mem[i + 9],
        oem_id: [mem[i + 10], mem[i + 11], mem[i + 12], mem[i + 13], mem[i + 14], mem[i + 15]],
        oem_table_id: read_phys_u64(mem, PhysAddr(a + 16)).unwrap(),
        oem_revision: read_phys_u32(mem, PhysAddr(a + 24)).unwrap(),
        asl_compiler_id: read_phys_u32(mem, PhysAddr(a + 28)).unwrap(),
        asl_compiler_revision: read_phys_u32(mem, PhysAddr(a + 32)).unwrap(),
    };
    Ok((header, PhysAddr(a + HEADER_SIZE), (length as u64 - HEADER_SIZE) as usize))
}

/// A table that lies inside the image and declares a length no smaller than
/// its header is accepted exactly when its bytes, over the whole declared
/// length, sum to zero modulo 256.
pub proof fn lemma_checksum_decides_acceptance(mem: Seq<u8>, a: int)
    requires
        in_image(mem, a, HEADER_SIZE as int),
        le32(mem, a + 4) >= HEADER_SIZE,
        in_image(mem, a, le32(mem, a + 4)),
    ensures
        header_result(mem, a) is Ok <==> byte_sum(mem.subrange(a, a + le32(mem, a + 4))) % 256
            == 0,
{
}

/// Replacing one byte of a sequence changes its sum by the difference.
proof fn lemma_byte_sum_update(s: Seq<u8>, i: int, v: u8)
    requires
        0 <= i < s.len(),
    ensures
        byte_sum(s.update(i, v)) == byte_sum(s) - s[i] + v,
    decreases s.len(),
{
    let t = s.update(i, v);
    if i == s.len() - 1 {
        assert(t.drop_last() =~= s.drop_last());
    } else {
        lemma_byte_sum_update(s.drop_last(), i, v);
        assert(t.drop_last() =~= s.drop_last().update(i, v));
    }
}

/// A table that parses is rejected once any single byte of it is changed,
/// other than a byte of its length field (which moves the checksummed
/// region itself): the checksum catches every one-byte mutation.
pub proof fn lemma_single_byte_mutation_rejected(mem: Seq<u8>, a: int, i: int, v: u8)
    requires
        header_result(mem, a) is Ok,
        a <= i < a + le32(mem, a + 4),
        !(a + 4 <= i < a + 8),
        v != mem[i],
    ensures
        header_result(mem.update(i, v), a) matches Err(AcpiError::BadChecksum { .. }),
{
    let m2 = mem.update(i, v);
    let len = le32(mem, a + 4);
    assert(m2[a + 4] == mem[a + 4] && m2[a + 5] == mem[a + 5]);
    assert(m2[a + 6] == mem[a + 6] && m2[a + 7] == mem[a + 7]);
    assert(le32(m2, a + 4) == len);
    let sub = mem.subrange(a, a + len);
    assert(m2.subrange(a, a + len) =~= sub.update(i - a, v));
    lemma_byte_sum_update(sub, i - a, v);
    let d = v - mem[i];
    assert(byte_sum(sub) % 256 == 0);
    assert(-256 < d < 256 && d != 0);
    assert((byte_sum(sub) + d) % 256 != 0) by (nonlinear_arith)
        requires
            byte_sum(sub) % 256 == 0,
            -256 < d < 256,
            d != 0,
    ;
}

/// Signature of the root pointer, "RSD PTR " read little-endian.
pub const RSDP_SIGNATURE: u64 = 0x2052_5450_2044_5352;

/// Size of the version-1 root pointer structure.
pub const RSDP_V1_SIZE: u64 = 20;

/// Size of the extended root pointer structure.
pub const RSDP_V2_SIZE: u64 = 36;

/// Address of the 16-bit value that locates the extended BIOS data area.
pub const EBDA_POINTER: u64 = 0x40E;

/// How much of the extended BIOS data area is scanned.
pub const EBDA_SCAN_LEN: u64 = 1024;

/// First byte of the fixed BIOS window that is scanned.
pub const BIOS_WINDOW_START: u64 = 0xE0000;

/// Last byte of the fixed BIOS window that is scanned.
pub const BIOS_WINDOW_END: u64 = 0xFFFFF;

/// The root pointer, as found in memory.
#[derive(Clone, Copy, Debug, PartialEq, Eq)]
pub struct RsdpDescriptor {
    /// Where the structure was found.
    pub address: PhysAddr,
    pub checksum: u8,
    pub oem_id: [u8; 6],
    pub revision: u8,
    /// Physical address of the root system description table.
    pub rsdt_address: u32,
}

/// The root pointer laid out at `c`.
pub open spec fn rsdp_at(mem: Seq<u8>, c: int) -> RsdpDescriptor {
    RsdpDescriptor {
        address: PhysAddr(c as u64),
        checksum: mem[c + 8],
        oem_id: [mem[c + 9], mem[c + 10], mem[c + 11], mem[c + 12], mem[c + 13], mem[c + 14]],
        revision: mem[c + 15],
        rsdt_address: le32(mem, c + 16) as u32,
    }
}

/// A valid root pointer sits at `c`: the signature matches, the version-1
/// structure checksums, and for revision 1 and later so does the extended one.
#[verifier::opaque]
pub open spec fn rsdp_valid_at(mem: Seq<u8>, c: int) -> bool {
    &&& le64(mem, c) == RSDP_SIGNATURE
    &&& checksum_ok(mem.subrange(c, c + RSDP_V1_SIZE))
    &&& (mem[c + 15] == 0 || checksum_ok(mem.subrange(c, c + RSDP_V2_SIZE)))
}

/// A candidate at `c` is examined only while the extended structure ends
/// inside the window (whose last byte is `end`) and inside the image.
pub open spec fn candidate_fits(mem: Seq<u8>, c: int, end: int) -> bool {
    c + RSDP_V2_SIZE - 1 <= end && in_image(mem, c, RSDP_V2_SIZE as int)
}

/// The first candidate at `c`, `c + 16`, `c + 32`, ... that holds a valid root
/// pointer, stopping at the first candidate that does not fit.
pub open spec fn scan_from(mem: Seq<u8>, c: int, end: int) -> Option<int>
    decreases end - c,
{
    if c < 0 || !candidate_fits(mem, c, end) {
        None
    } else if rsdp_valid_at(mem, c) {
        Some(c)
    } else {
        scan_from(mem, c + 16, end)
    }
}

/// `s` rounded up to a multiple of 16.
pub open spec fn align_up16(s: int) -> int {
    (s + 15) / 16 * 16
}

/// The root pointer found in the window from `start` to `end` (both included).
pub open spec fn window_result(mem: Seq<u8>, start: int, end: int) -> Option<RsdpDescriptor> {
    match scan_from(mem, align_up16(start), end) {
        Some(c) => Some(rsdp_at(mem, c)),
        None => None,
    }
}

/// The root pointer search: the first kilobyte of the extended BIOS data area
/// (located by the 16-bit value at `EBDA_POINTER`, taken as an address), then
/// the fixed BIOS window.
pub open spec fn rsdp_search(mem: Seq<u8>) -> Option<RsdpDescriptor> {
    let fixed = window_result(mem, BIOS_WINDOW_START as int, BIOS_WINDOW_END as int);
    if in_image(mem, EBDA_POINTER as int, 2) {
        let e = le16(mem, EBDA_POINTER as int);
        match window_result(mem, e, e + EBDA_SCAN_LEN - 1) {
            Some(d) => Some(d),
            None => fixed,
        }
    } else {
        fixed
    }
}

/// Does a valid root pointer sit at `c`?
fn rsdp_valid(mem: &[u8], c: u64) -> (r: bool)
    requires
        in_image(mem@, c as int, RSDP_V2_SIZE as int),
    ensures
        r == rsdp_valid_at(mem@, c as int),
{
    reveal(rsdp_valid_at);
    let n = mem.len();
    assert(c + 36 <= n);
    let i = c as usize;
    let sig = read_phys_u64(mem, PhysAddr(c)).unwrap();
    let s1 = checksum(mem, i, 20);
    let rev = mem[i + 15];
    let s2 = checksum(mem, i, 36);
    sig == RSDP_SIGNATURE && s1 == 0 && (rev == 0 || s2 == 0)
}

/// Scans the window from `start` to `end` (both included) at 16-byte-aligned
/// addresses, in ascending order, for the first valid root pointer.
pub fn scan_window(mem: &[u8], start: u64, end: u64) -> (r: Option<RsdpDescriptor>)
    requires
        end < 0x1_0000_0000,
        start < 0x1_0000_0000,
    ensures
        r == window_result(mem@, start as int, end as int),
{
    let mut c: u64 = (start + 15) / 16 * 16;
    while c + (RSDP_V2_SIZE - 1) <= end && fits(mem, c, RSDP_V2_SIZE)
        invariant
            end < 0x1_0000_0000,
            c < 0x1_0000_0000 + 16,
            scan_from(mem@, align_up16(start as int), end as int) == scan_from(
                mem@,
                c as int,
                end as int,
            ),
        decreases end - c,
    {
        if rsdp_valid(mem, c) {
            let n = mem.len();
            assert(c + 36 <= n);
            let i = c as usize;
            return Some(
                RsdpDescriptor {
                    address: PhysAddr(c),
                    checksum: mem[i + 8],
                    oem_id: [mem[i + 9], mem[i + 10], mem[i + 11], mem[i + 12], mem[i + 13], mem[i + 14]],
                    revision: mem[i + 15],
                    rsdt_address: read_phys_u32(mem, PhysAddr(c + 16)).unwrap(),
                },
            );
        }
        c = c + 16;
    }
    None
}

/// Locates the root pointer: the extended BIOS data area first, then the fixed
/// BIOS window. `None` means there is none, which is fatal to boot.
pub fn find_rsdp(mem: &[u8]) -> (r: Option<RsdpDescriptor>)
    ensures
        r == rsdp_search(mem@),
{
    if let Some(e) = read_phys_u16(mem, PhysAddr(EBDA_POINTER)) {
        let e = e as u64;
        if let Some(d) = scan_window(mem, e, e + EBDA_SCAN_LEN - 1) {
            return Some(d);
        }
    }
    scan_window(mem, BIOS_WINDOW_START, BIOS_WINDOW_END)
}

proof fn lemma_scan_from_first(mem: Seq<u8>, c: int, end: int)
    requires
        c >= 0,
        c % 16 == 0,
    ensures
        scan_from(mem, c, end) matches Some(x) ==> {
            &&& c <= x && x % 16 == 0
            &&& candidate_fits(mem, x, end)
            &&& rsdp_valid_at(mem, x)
            &&& forall|y: int| c <= y < x && y % 16 == 0 ==> !rsdp_valid_at(mem, y)
        },
        scan_from(mem, c, end) is None ==> forall|y: int|
            c <= y && y % 16 == 0 && candidate_fits(mem, y, end) ==> !rsdp_valid_at(mem, y),
    decreases end - c,
{
    if candidate_fits(mem, c, end) && !rsdp_valid_at(mem, c) {
        lemma_scan_from_first(mem, c + 16, end);
        match scan_from(mem, c, end) {
            Some(x) => {
                assert forall|y: int| c <= y < x && y % 16 == 0 implies !#[trigger] rsdp_valid_at(
                    mem,
                    y,
                ) by {
                    if y != c {
                        assert(c + 16 <= y);
                    }
                }
            },
            None => {
                assert forall|y: int|
                    c <= y && y % 16 == 0 && candidate_fits(mem, y, end) implies !#[trigger] rsdp_valid_at(
                    mem,
                    y,
                ) by {
                    if y != c {
                        assert(c + 16 <= y);
                    }
                }
            },
        }
    }
}

/// A window scan finds the lowest 16-byte-aligned address in the window that
/// holds a valid root pointer whose extended structure ends inside the window
/// and the image, and returns the structure found there; when it finds none,
/// no such address exists. A structure that is not 16-byte aligned is never
/// found.
pub proof fn lemma_window_scan_finds_first(mem: Seq<u8>, start: int, end: int)
    requires
        start >= 0,
        mem.len() <= u64::MAX,
    ensures
        window_result(mem, start, end) matches Some(d) ==> {
            let x = d.address.0 as int;
            &&& start <= x && x % 16 == 0
            &&& candidate_fits(mem, x, end)
            &&& rsdp_valid_at(mem, x)
            &&& d == rsdp_at(mem, x)
            &&& forall|y: int| start <= y < x && y % 16 == 0 ==> !rsdp_valid_at(mem, y)
        },
        window_result(mem, start, end) is None ==> forall|y: int|
            start <= y && y % 16 == 0 && candidate_fits(mem, y, end) ==> !rsdp_valid_at(mem, y),
{
    lemma_align_up16(start);
    let c = align_up16(start);
    lemma_scan_from_first(mem, c, end);
}

/// The two images hold the same bytes from `lo` up to, not including, `hi`.
pub open spec fn agree_on(m1: Seq<u8>, m2: Seq<u8>, lo: int, hi: int) -> bool {
    forall|k: int| lo <= k < hi ==> m1[k] == m2[k]
}

proof fn lemma_align_up16(s: int)
    requires
        s >= 0,
    ensures
        s <= align_up16(s) < s + 16,
        align_up16(s) % 16 == 0,
{
    assert(s <= (s + 15) / 16 * 16 < s + 16) by (nonlinear_arith)
        requires
            s >= 0,
    ;
    assert(((s + 15) / 16 * 16) % 16 == 0) by (nonlinear_arith);
}

proof fn lemma_scan_from_agree(m1: Seq<u8>, m2: Seq<u8>, c: int, end: int)
    requires
        m1.len() == m2.len(),
        agree_on(m1, m2, c, end + 1),
    ensures
        scan_from(m1, c, end) == scan_from(m2, c, end),
        scan_from(m1, c, end) matches Some(x) ==> rsdp_at(m1, x) == rsdp_at(m2, x),
    decreases end - c,
{
    if c >= 0 && candidate_fits(m1, c, end) {
        assert(m1.subrange(c, c + 20) =~= m2.subrange(c, c + 20));
        assert(m1.subrange(c, c + 36) =~= m2.subrange(c, c + 36));
        assert(forall|k: int| c <= k < c + 36 ==> m1[k] == m2[k]);
        assert(le64(m1, c) == le64(m2, c));
        assert(le32(m1, c + 16) == le32(m2, c + 16));
        reveal(rsdp_valid_at);
        assert(rsdp_valid_at(m1, c) == rsdp_valid_at(m2, c));
        assert(rsdp_at(m1, c) == rsdp_at(m2, c));
        if !rsdp_valid_at(m1, c) {
            lemma_scan_from_agree(m1, m2, c + 16, end);
        }
    }
}

proof fn lemma_window_agree(m1: Seq<u8>, m2: Seq<u8>, start: int, end: int)
    requires
        start >= 0,
        m1.len() == m2.len(),
        agree_on(m1, m2, start, end + 1),
    ensures
        window_result(m1, start, end) == window_result(m2, start, end),
{
    lemma_align_up16(start);
    lemma_scan_from_agree(m1, m2, align_up16(start), end);
}

/// The root pointer search is deterministic and reads nothing but the bytes
/// it scans: two images of the same size that agree on the 16-bit pointer to
/// the extended BIOS data area, on the first kilobyte of that area, and on the
/// fixed BIOS window, yield the same descriptor. (An image scanned twice
/// agrees with itself everywhere.)
pub proof fn lemma_rsdp_search_deterministic(m1: Seq<u8>, m2: Seq<u8>)
    requires
        m1.len() == m2.len(),
        agree_on(m1, m2, EBDA_POINTER as int, EBDA_POINTER + 2),
        in_image(m1, EBDA_POINTER as int, 2) ==> agree_on(
            m1,
            m2,
            le16(m1, EBDA_POINTER as int),
            le16(m1, EBDA_POINTER as int) + EBDA_SCAN_LEN,
        ),
        agree_on(m1, m2, BIOS_WINDOW_START as int, BIOS_WINDOW_END + 1),
    ensures
        rsdp_search(m1) == rsdp_search(m2),
{
    lemma_window_agree(m1, m2, BIOS_WINDOW_START as int, BIOS_WINDOW_END as int);
    if in_image(m1, EBDA_POINTER as int, 2) {
        let p = EBDA_POINTER as int;
        assert(m1[p] == m2[p] && m1[p + 1] == m2[p + 1]);
        let e = le16(m1, p);
        assert(le16(m2, p) == e);
        lemma_window_agree(m1, m2, e, e + EBDA_SCAN_LEN - 1);
    }
}

/// The tables that the root table lists and that discovery reads.
#[derive(Clone, Copy, Debug, PartialEq, Eq)]
pub struct RootTables {
    /// The interrupt-controller table, if listed.
    pub madt: Option<PhysAddr>,
    /// The resource-affinity table, if listed.
    pub srat: Option<PhysAddr>,
}

/// The `count` 32-bit table pointers stored from `payload` on.
pub open spec fn rsdt_entries(mem: Seq<u8>, payload: int, count: int) -> Seq<int> {
    Seq::new(count as nat, |i: int| le32(mem, payload + 4 * i))
}

/// Dispatches one listed table by its signature, read without parsing the
/// table: a second interrupt-controller or resource-affinity table is an
/// error, other signatures are ignored.
pub open spec fn dispatch_entry(mem: Seq<u8>, t: RootTables, ptr: int) -> Result<
    RootTables,
    AcpiError,
> {
    if !in_image(mem, ptr, 4) {
        Err(AcpiError::OutOfBounds)
    } else if le32(mem, ptr) == SIG_APIC {
        if t.madt is Some {
            Err(AcpiError::DuplicateMadt)
        } else {
            Ok(RootTables { madt: Some(PhysAddr(ptr as u64)), ..t })
        }
    } else if le32(mem, ptr) == SIG_SRAT {
        if t.srat is Some {
            Err(AcpiError::DuplicateSrat)
        } else {
            Ok(RootTables { srat: Some(PhysAddr(ptr as u64)), ..t })
        }
    } else {
        Ok(t)
    }
}

/// Dispatches the listed tables in order; the first failure ends the walk.
pub open spec fn dispatch(mem: Seq<u8>, ptrs: Seq<int>) -> Result<RootTables, AcpiError>
    decreases ptrs.len(),
{
    if ptrs.len() == 0 {
        Ok(RootTables { madt: None, srat: None })
    } else {
        match dispatch(mem, ptrs.drop_last()) {
            Err(e) => Err(e),
            Ok(t) => dispatch_entry(mem, t, ptrs.last()),
        }
    }
}

/// What walking the root table at `a` yields.
pub open spec fn walk_result(mem: Seq<u8>, a: int) -> Result<RootTables, AcpiError> {
    match header_result(mem, a) {
        Err(e) => Err(e),
        Ok((h, p, n)) => {
            if h.signature != SIG_RSDT {
                Err(AcpiError::BadSignature { signature: h.signature })
            } else if n % 4 != 0 {
                Err(AcpiError::RootTableMisaligned)
            } else {
                dispatch(mem, rsdt_entries(mem, p.0 as int, n as int / 4))
            }
        },
    }
}

proof fn lemma_dispatch_err_prefix(mem: Seq<u8>, s: Seq<int>, j: int, e: AcpiError)
    requires
        0 <= j <= s.len(),
        dispatch(mem, s.take(j)) == Err::<RootTables, AcpiError>(e),
    ensures
        dispatch(mem, s) == Err::<RootTables, AcpiError>(e),
    decreases s.len() - j,
{
    if j < s.len() {
        assert(s.take(j + 1).drop_last() =~= s.take(j));
        lemma_dispatch_err_prefix(mem, s, j + 1, e);
    } else {
        assert(s.take(j) =~= s);
    }
}

/// A root table whose payload is not a whole number of 32-bit pointers is
/// rejected, never truncated to the pointers that fit.
pub proof fn lemma_misaligned_root_rejected(mem: Seq<u8>, a: int)
    requires
        header_result(mem, a) matches Ok((h, _, n)) && h.signature == SIG_RSDT && n % 4 != 0,
    ensures
        walk_result(mem, a) == Err::<RootTables, AcpiError>(AcpiError::RootTableMisaligned),
{
}

/// Validates the root table at `rsdt` (header, checksum, "RSDT" signature,
/// payload a whole number of 32-bit pointers) and dispatches every table it
/// lists by signature.
pub fn walk_rsdt(mem: &[u8], rsdt: PhysAddr) -> (r: Result<RootTables, AcpiError>)
    ensures
        r == walk_result(mem@, rsdt.0 as int),
{
    let (h, payload, n) = match parse_header(mem, rsdt) {
        Ok(x) => x,
        Err(e) => return Err(e),
    };
    if h.signature != SIG_RSDT {
        return Err(AcpiError::BadSignature { signature: h.signature });
    }
    if n % 4 != 0 {
        return Err(AcpiError::RootTableMisaligned);
    }
    let ghost entries = rsdt_entries(mem@, payload.0 as int, n as int / 4);
    assert(walk_result(mem@, rsdt.0 as int) == dispatch(mem@, entries));
    let count = n / 4;
    let mlen = mem.len();
    let mut t = RootTables { madt: None, srat: None };
    let mut k: usize = 0;
    while k < count
        invariant
            k <= count,
            count == n / 4,
            mlen == mem@.len(),
            payload.0 + n <= mem@.len(),
            entries == rsdt_entries(mem@, payload.0 as int, count as int),
            walk_result(mem@, rsdt.0 as int) == dispatch(mem@, entries),
            dispatch(mem@, entries.take(k as int)) == Ok::<RootTables, AcpiError>(t),
        decreases count - k,
    {
        assert(4 * k + 4 <= n);
        let ptr = read_phys_u32(mem, PhysAddr(payload.0 + 4 * k as u64)).unwrap();
        proof {
            assert(entries.take(k + 1).drop_last() =~= entries.take(k as int));
            assert(entries.take(k + 1).last() == ptr as int);
        }
        let step = match read_phys_u32(mem, PhysAddr(ptr as u64)) {
            None => Err(AcpiError::OutOfBounds),
            Some(sig) => {
                if sig == SIG_APIC {
                    if t.madt.is_some() {
                        Err(AcpiError::DuplicateMadt)
                    } else {
                        Ok(RootTables { madt: Some(PhysAddr(ptr as u64)), ..t })
                    }
                } else if sig == SIG_SRAT {
                    if t.srat.is_some() {
                        Err(AcpiError::DuplicateSrat)
                    } else {
                        Ok(RootTables { srat: Some(PhysAddr(ptr as u64)), ..t })
                    }
                } else {
                    Ok(t)
                }
            },
        };
        proof {
            assert(dispatch(mem@, entries.take(k + 1)) == step);
        }
        match step {
            Ok(t2) => {
                t = t2;
            },
            Err(e) => {
                proof {
                    lemma_dispatch_err_prefix(mem@, entries, k + 1, e);
                }
                return Err(e);
            },
        }
        k += 1;
    }
    proof {
        assert(entries.take(count as int) =~= entries);
    }
    Ok(t)
}

/// The sub-entries of a payload `p` from offset `off` on, as (offset, length)
/// pairs. Each entry declares its own length in its second byte; the chain
/// parses only when those lengths, each at least 2, end exactly at the end of
/// the payload.
pub open spec fn entry_chain(p: Seq<u8>, off: int) -> Option<Seq<(usize, usize)>>
    decreases p.len() - off,
{
    if off < 0 || off > p.len() {
        None
    } else if off == p.len() {
        Some(Seq::empty())
    } else if off + 2 > p.len() || p[off + 1] < 2 || off + p[off + 1] > p.len() {
        None
    } else {
        match entry_chain(p, off + p[off + 1]) {
            Some(rest) => Some(seq![(off as usize, p[off + 1] as usize)] + rest),
            None => None,
        }
    }
}

/// `prefix` put in front of the entries of `o`, if any.
pub open spec fn prepend(
    prefix: Seq<(usize, usize)>,
    o: Option<Seq<(usize, usize)>>,
) -> Option<Seq<(usize, usize)>> {
    match o {
        Some(rest) => Some(prefix + rest),
        None => None,
    }
}

/// The sum of the declared lengths of `es`.
pub open spec fn span_sum(es: Seq<(usize, usize)>) -> int
    decreases es.len(),
{
    if es.len() == 0 {
        0
    } else {
        es[0].1 + span_sum(es.drop_first())
    }
}

/// Sub-entries that parse tile the payload exactly: the first starts at
/// `start`, each begins where the one before it ends, each declares (in its
/// second byte) a length of at least 2, and the declared lengths add up to the
/// bytes from `start` to the end of the payload.
pub proof fn lemma_entries_tile_payload(p: Seq<u8>, start: int)
    requires
        p.len() <= usize::MAX,
        entry_chain(p, start) is Some,
    ensures
        span_sum(entry_chain(p, start).unwrap()) == p.len() - start,
        entry_chain(p, start).unwrap().len() > 0 ==> entry_chain(p, start).unwrap()[0].0 == start,
        forall|i: int|
            0 <= i < entry_chain(p, start).unwrap().len() ==> {
                let e = #[trigger] entry_chain(p, start).unwrap()[i];
                &&& e.1 >= 2
                &&& e.1 == p[e.0 as int + 1]
                &&& e.0 + e.1 <= p.len()
                &&& (i + 1 < entry_chain(p, start).unwrap().len() ==> entry_chain(
                    p,
                    start,
                ).unwrap()[i + 1].0 == e.0 + e.1)
            },
    decreases p.len() - start,
{
    let es = entry_chain(p, start).unwrap();
    if start < p.len() {
        let l = p[start + 1] as int;
        lemma_entries_tile_payload(p, start + l);
        let rest = entry_chain(p, start + l).unwrap();
        assert(es == seq![(start as usize, l as usize)] + rest);
        assert(es.drop_first() =~= rest);
        assert forall|i: int| 0 <= i < es.len() implies {
            let e = #[trigger] es[i];
            &&& e.1 >= 2
            &&& e.1 == p[e.0 as int + 1]
            &&& e.0 + e.1 <= p.len()
            &&& (i + 1 < es.len() ==> es[i + 1].0 == e.0 + e.1)
        } by {
            if i > 0 {
                assert(es[i] == rest[i - 1]);
            }
            if i == 0 && 1 < es.len() {
                assert(es[1] == rest[0]);
            }
        }
    }
}

/// Splits the payload `p` into its sub-entries from offset `start` on, or
/// `None` when the entries' declared lengths do not tile the payload exactly.
/// Every read stays inside the payload whatever the lengths say.
pub fn sub_entries(p: &[u8], start: usize) -> (r: Option<Vec<(usize, usize)>>)
    ensures
        r is None <==> entry_chain(p@, start as int) is None,
        r matches Some(v) ==> entry_chain(p@, start as int) == Some(v@),
{
    let n = p.len();
    if start > n {
        return None;
    }
    let mut v: Vec<(usize, usize)> = Vec::new();
    let mut off: usize = start;
    while off < n
        invariant
            start <= off <= n,
            n == p@.len(),
            entry_chain(p@, start as int) == prepend(v@, entry_chain(p@, off as int)),
        decreases n - off,
    {
        if n - off < 2 {
            return None;
        }
        let l = p[off + 1] as usize;
        if l < 2 || l > n - off {
            return None;
        }
        proof {
            let x = (off, l);
            match entry_chain(p@, off + l) {
                Some(rest) => {
                    assert(v@ + (seq![x] + rest) =~= v@.push(x) + rest);
                },
                None => {},
            }
        }
        v.push((off, l));
        off = off + l;
    }
    proof {
        assert(v@ + Seq::<(usize, usize)>::empty() =~= v@);
    }
    Some(v)
}

/// Copies the `len` bytes at `start` out of the image.
pub fn copy_bytes(mem: &[u8], start: usize, len: usize) -> (r: Vec<u8>)
    requires
        start + len <= mem@.len(),
    ensures
        r@ == mem@.subrange(start as int, start + len),
{
    let n = mem.len();
    let end = start + len;
    let mut v: Vec<u8> = Vec::with_capacity(len);
    let mut i: usize = start;
    while i < end
        invariant
            end == start + len,
            start <= i <= end,
            end <= n,
            n == mem@.len(),
            v@ == mem@.subrange(start as int, i as int),
        decreases end - i,
    {
        v.push(mem[i]);
        i += 1;
        assert(v@ =~= mem@.subrange(start as int, i as int));
    }
    v
}

/// The payload of the table at `a` and its sub-entries from `start` on, once
/// the header, the signature `sig` and the tiling of the entries all check.
pub open spec fn table_entries(mem: Seq<u8>, a: int, sig: u32, start: int) -> Result<
    (Seq<u8>, Seq<(usize, usize)>),
    AcpiError,
> {
    match header_result(mem, a) {
        Err(e) => Err(e),
        Ok((h, p, n)) => {
            let payload = mem.subrange(p.0 as int, p.0 + n);
            if h.signature != sig {
                Err(AcpiError::BadSignature { signature: h.signature })
            } else {
                match entry_chain(payload, start) {
                    None => Err(AcpiError::MalformedTable { signature: sig }),
                    Some(es) => Ok((payload, es)),
                }
            }
        },
    }
}

/// Parses the table at `addr`, checks its signature, copies its payload and
/// splits it into sub-entries from offset `start` on.
fn read_table_entries(mem: &[u8], addr: PhysAddr, sig: u32, start: usize) -> (r: Result<
    (Vec<u8>, Vec<(usize, usize)>),
    AcpiError,
>)
    ensures
        match r {
            Ok((p, es)) => table_entries(mem@, addr.0 as int, sig, start as int) == Ok::<
                (Seq<u8>, Seq<(usize, usize)>),
                AcpiError,
            >((p@, es@)),
            Err(e) => table_entries(mem@, addr.0 as int, sig, start as int) == Err::<
                (Seq<u8>, Seq<(usize, usize)>),
                AcpiError,
            >(e),
        },
{
    let (h, p, n) = match parse_header(mem, addr) {
        Ok(x) => x,
        Err(e) => return Err(e),
    };
    if h.signature != sig {
        return Err(AcpiError::BadSignature { signature: h.signature });
    }
    let ml = mem.len();
    assert(p.0 + n <= ml);
    let payload = copy_bytes(mem, p.0 as usize, n);
    assert(payload@ == mem@.subrange(p.0 as int, p.0 + n));
    match sub_entries(payload.as_slice(), start) {
        None => Err(AcpiError::MalformedTable { signature: sig }),
        Some(es) => Ok((payload, es)),
    }
}

/// Offset of the first sub-entry in the interrupt-controller table's payload,
/// after the local controller address and the flags.
pub const MADT_ENTRIES_OFFSET: usize = 8;

/// Offset of the first sub-entry in the resource-affinity table's payload,
/// after its reserved fields.
pub const SRAT_ENTRIES_OFFSET: usize = 12;

/// The APIC id that an interrupt-controller sub-entry reports: an enabled
/// processor-local APIC (type 0, id in byte 3, enabled bit in the flags at
/// byte 4) or an enabled processor-local x2APIC (type 9, 32-bit id at byte 4,
/// flags at byte 8). Other types, and entries too short for their type, report
/// none.
pub open spec fn madt_entry_id(p: Seq<u8>, e: (usize, usize)) -> Option<u32> {
    let o = e.0 as int;
    let l = e.1 as int;
    if p[o] == 0 && l >= 8 && p[o + 4] % 2 == 1 {
        Some(p[o + 3] as u32)
    } else if p[o] == 9 && l >= 16 && p[o + 8] % 2 == 1 {
        Some(le32(p, o + 4) as u32)
    } else {
        None
    }
}

/// The APIC ids that the entries `es` report, each once, in the order of
/// their first report.
pub open spec fn madt_ids(p: Seq<u8>, es: Seq<(usize, usize)>) -> Seq<u32>
    decreases es.len(),
{
    if es.len() == 0 {
        Seq::empty()
    } else {
        let prev = madt_ids(p, es.drop_last());
        match madt_entry_id(p, es.last()) {
            Some(id) => if prev.contains(id) {
                prev
            } else {
                prev.push(id)
            },
            None => prev,
        }
    }
}

/// What parsing the interrupt-controller table at `a` yields.
pub open spec fn madt_result(mem: Seq<u8>, a: int) -> Result<Seq<u32>, AcpiError> {
    match table_entries(mem, a, SIG_APIC, MADT_ENTRIES_OFFSET as int) {
        Err(e) => Err(e),
        Ok((p, es)) => Ok(madt_ids(p, es)),
    }
}

/// Is `x` in `v`?
pub fn contains_u32(v: &Vec<u32>, x: u32) -> (r: bool)
    ensures
        r == v@.contains(x),
{
    let mut i: usize = 0;
    while i < v.len()
        invariant
            i <= v@.len(),
            forall|j: int| 0 <= j < i ==> v@[j] != x,
        decreases v.len() - i,
    {
        if v[i] == x {
            return true;
        }
        i += 1;
    }
    false
}

/// Is the low (enabled) bit of `b` set?
fn enabled(b: u8) -> (r: bool)
    ensures
        r == (b % 2 == 1),
{
    b % 2 == 1
}

/// Parses the interrupt-controller table at `addr` and returns the APIC ids of
/// its enabled processors, each once, in table order.
pub fn parse_madt(mem: &[u8], addr: PhysAddr) -> (r: Result<Vec<u32>, AcpiError>)
    ensures
        match r {
            Ok(v) => madt_result(mem@, addr.0 as int) == Ok::<Seq<u32>, AcpiError>(v@),
            Err(e) => madt_result(mem@, addr.0 as int) == Err::<Seq<u32>, AcpiError>(e),
        },
{
    let (p, es) = match read_table_entries(mem, addr, SIG_APIC, MADT_ENTRIES_OFFSET) {
        Ok(x) => x,
        Err(e) => return Err(e),
    };
    proof {
        lemma_entries_tile_payload(p@, MADT_ENTRIES_OFFSET as int);
    }
    let mut ids: Vec<u32> = Vec::new();
    let mut k: usize = 0;
    while k < es.len()
        invariant
            k <= es@.len(),
            entry_chain(p@, MADT_ENTRIES_OFFSET as int) == Some(es@),
            forall|i: int| 0 <= i < es@.len() ==> (#[trigger] es@[i]).1 >= 2 && es@[i].0 + es@[i].1 <= p@.len(),
            ids@ == madt_ids(p@, es@.take(k as int)),
        decreases es.len() - k,
    {
        let (o, l) = es[k];
        proof {
            assert(es@.take(k + 1).drop_last() =~= es@.take(k as int));
            assert(es@.take(k + 1).last() == (o, l));
        }
        let mut found: Option<u32> = None;
        if p[o] == 0 && l >= 8 && enabled(p[o + 4]) {
            found = Some(p[o + 3] as u32);
        } else if p[o] == 9 && l >= 16 && enabled(p[o + 8]) {
            found = read_phys_u32(p.as_slice(), PhysAddr(o as u64 + 4));
        }
        assert(found == madt_entry_id(p@, (o, l)));
        if let Some(id) = found {
            if !contains_u32(&ids, id) {
                ids.push(id);
            }
        }
        k += 1;
    }
    assert(es@.take(es@.len() as int) =~= es@);
    Ok(ids)
}

/// A range of physical memory and the NUMA domain it belongs to.
#[derive(Clone, Copy, Debug, PartialEq, Eq)]
pub struct MemoryAffinity {
    pub base: u64,
    pub length: u64,
    pub domain: u32,
}

/// The (APIC id, domain) pair that a resource-affinity sub-entry reports: an
/// enabled processor-local APIC affinity (type 0; domain in bytes 2 and 9 to
/// 11, id in byte 3, flags at byte 4) or an enabled x2APIC affinity (type 2;
/// domain at byte 4, id at byte 8, flags at byte 12).
pub open spec fn srat_cpu_entry(p: Seq<u8>, e: (usize, usize)) -> Option<(u32, u32)> {
    let o = e.0 as int;
    let l = e.1 as int;
    if p[o] == 0 && l >= 16 && p[o + 4] % 2 == 1 {
        Some(
            (
                p[o + 3] as u32,
                (p[o + 2] + 256 * p[o + 9] + 65536 * p[o + 10] + 16777216 * p[o + 11]) as u32,
            ),
        )
    } else if p[o] == 2 && l >= 24 && p[o + 12] % 2 == 1 {
        Some((le32(p, o + 8) as u32, le32(p, o + 4) as u32))
    } else {
        None
    }
}

/// The memory range that a resource-affinity sub-entry reports: an enabled
/// memory affinity (type 1; domain at byte 2, base at byte 8, length at byte
/// 16, flags at byte 28).
pub open spec fn srat_mem_entry(p: Seq<u8>, e: (usize, usize)) -> Option<MemoryAffinity> {
    let o = e.0 as int;
    let l = e.1 as int;
    if p[o] == 1 && l >= 40 && p[o + 28] % 2 == 1 {
        Some(
            MemoryAffinity {
                base: le64(p, o + 8) as u64,
                length: le64(p, o + 16) as u64,
                domain: le32(p, o + 2) as u32,
            },
        )
    } else {
        None
    }
}

/// The (APIC id, domain) pairs that the entries `es` report, in order.
pub open spec fn srat_cpus(p: Seq<u8>, es: Seq<(usize, usize)>) -> Seq<(u32, u32)>
    decreases es.len(),
{
    if es.len() == 0 {
        Seq::empty()
    } else {
        let prev = srat_cpus(p, es.drop_last());
        match srat_cpu_entry(p, es.last()) {
            Some(x) => prev.push(x),
            None => prev,
        }
    }
}

/// The memory ranges that the entries `es` report, in order.
pub open spec fn srat_mems(p: Seq<u8>, es: Seq<(usize, usize)>) -> Seq<MemoryAffinity>
    decreases es.len(),
{
    if es.len() == 0 {
        Seq::empty()
    } else {
        let prev = srat_mems(p, es.drop_last());
        match srat_mem_entry(p, es.last()) {
            Some(x) => prev.push(x),
            None => prev,
        }
    }
}

/// The mappings read from the resource-affinity table.
#[derive(Debug)]
pub struct SratInfo {
    /// (APIC id, NUMA domain) pairs, in table order.
    pub apic_domains: Vec<(u32, u32)>,
    /// Memory ranges and their NUMA domains, in table order.
    pub memory_domains: Vec<MemoryAffinity>,
}

/// What parsing the resource-affinity table at `a` yields.
pub open spec fn srat_result(mem: Seq<u8>, a: int) -> Result<
    (Seq<(u32, u32)>, Seq<MemoryAffinity>),
    AcpiError,
> {
    match table_entries(mem, a, SIG_SRAT, SRAT_ENTRIES_OFFSET as int) {
        Err(e) => Err(e),
        Ok((p, es)) => Ok((srat_cpus(p, es), srat_mems(p, es))),
    }
}

/// Parses the resource-affinity table at `addr` into its APIC-to-domain and
/// memory-range-to-domain mappings.
pub fn parse_srat(mem: &[u8], addr: PhysAddr) -> (r: Result<SratInfo, AcpiError>)
    ensures
        match r {
            Ok(info) => srat_result(mem@, addr.0 as int) == Ok::<
                (Seq<(u32, u32)>, Seq<MemoryAffinity>),
                AcpiError,
            >((info.apic_domains@, info.memory_domains@)),
            Err(e) => srat_result(mem@, addr.0 as int) == Err::<
                (Seq<(u32, u32)>, Seq<MemoryAffinity>),
                AcpiError,
            >(e),
        },
{
    let (p, es) = match read_table_entries(mem, addr, SIG_SRAT, SRAT_ENTRIES_OFFSET) {
        Ok(x) => x,
        Err(e) => return Err(e),
    };
    proof {
        lemma_entries_tile_payload(p@, SRAT_ENTRIES_OFFSET as int);
    }
    let ps = p.as_slice();
    let pn = p.len();
    let mut cpus: Vec<(u32, u32)> = Vec::new();
    let mut mems: Vec<MemoryAffinity> = Vec::new();
    let mut k: usize = 0;
    while k < es.len()
        invariant
            k <= es@.len(),
            ps@ == p@,
            pn == p@.len(),
            entry_chain(p@, SRAT_ENTRIES_OFFSET as int) == Some(es@),
            forall|i: int| 0 <= i < es@.len() ==> (#[trigger] es@[i]).1 >= 2 && es@[i].0 + es@[i].1 <= p@.len(),
            cpus@ == srat_cpus(p@, es@.take(k as int)),
            mems@ == srat_mems(p@, es@.take(k as int)),
        decreases es.len() - k,
    {
        let (o, l) = es[k];
        proof {
            assert(es@.take(k + 1).drop_last() =~= es@.take(k as int));
            assert(es@.take(k + 1).last() == (o, l));
        }
        assert(o + l <= pn);
        let t = p[o];
        if t == 0 && l >= 16 && enabled(p[o + 4]) {
            let domain = p[o + 2] as u32 + (p[o + 9] as u32) * 256 + (p[o + 10] as u32) * 65536
                + (p[o + 11] as u32) * 16777216;
            cpus.push((p[o + 3] as u32, domain));
        } else if t == 2 && l >= 24 && enabled(p[o + 12]) {
            let domain = read_phys_u32(ps, PhysAddr(o as u64 + 4)).unwrap();
            let id = read_phys_u32(ps, PhysAddr(o as u64 + 8)).unwrap();
            cpus.push((id, domain));
        } else if t == 1 && l >= 40 && enabled(p[o + 28]) {
            let domain = read_phys_u32(ps, PhysAddr(o as u64 + 2)).unwrap();
            let base = read_phys_u64(ps, PhysAddr(o as u64 + 8)).unwrap();
            let length = read_phys_u64(ps, PhysAddr(o as u64 + 16)).unwrap();
            mems.push(MemoryAffinity { base, length, domain });
        }
        k += 1;
    }
    assert(es@.take(es@.len() as int) =~= es@);
    Ok(SratInfo { apic_domains: cpus, memory_domains: mems })
}

/// The registry built once the tables the root table lists have been read:
/// the affinity table, if listed, is parsed after the interrupt-controller one.
pub open spec fn registry_after_madt(
    mem: Seq<u8>,
    t: RootTables,
    apics: Option<Seq<u32>>,
    bsp: u32,
) -> Result<TopologyView, AcpiError> {
    match t.srat {
        None => registry_result(apics, None, bsp),
        Some(a) => match srat_result(mem, a.0 as int) {
            Err(e) => Err(e),
            Ok(s) => registry_result(apics, Some(s), bsp),
        },
    }
}

/// What discovery yields on the image `mem` for the bootstrap core `bsp`:
/// root pointer, root table, interrupt-controller table, affinity table,
/// registry, each stage failing the whole when it fails.
pub open spec fn init_result(mem: Seq<u8>, bsp: u32) -> Result<TopologyView, AcpiError> {
    match rsdp_search(mem) {
        None => Err(AcpiError::RsdpNotFound),
        Some(d) => match walk_result(mem, d.rsdt_address as int) {
            Err(e) => Err(e),
            Ok(t) => match t.madt {
                None => registry_after_madt(mem, t, None, bsp),
                Some(a) => match madt_result(mem, a.0 as int) {
                    Err(e) => Err(e),
                    Ok(ids) => registry_after_madt(mem, t, Some(ids), bsp),
                },
            },
        },
    }
}

/// Discovers the machine's topology from the image of physical memory `mem`:
/// finds the root pointer, walks the root table, reads the interrupt-controller
/// and resource-affinity tables, and builds the core registry with the
/// bootstrap core `bsp_apic_id` Online and every other detected core Offline.
pub fn init(mem: &[u8], bsp_apic_id: u32) -> (r: Result<Topology, AcpiError>)
    ensures
        match r {
            Ok(t) => init_result(mem@, bsp_apic_id) == Ok::<TopologyView, AcpiError>(t@),
            Err(e) => init_result(mem@, bsp_apic_id) == Err::<TopologyView, AcpiError>(e),
        },
{
    let rsdp = match find_rsdp(mem) {
        Some(d) => d,
        None => return Err(AcpiError::RsdpNotFound),
    };
    let tables = match walk_rsdt(mem, PhysAddr(rsdp.rsdt_address as u64)) {
        Ok(t) => t,
        Err(e) => return Err(e),
    };
    let apics = match tables.madt {
        None => None,
        Some(a) => match parse_madt(mem, a) {
            Ok(ids) => Some(ids),
            Err(e) => return Err(e),
        },
    };
    let srat = match tables.srat {
        None => None,
        Some(a) => match parse_srat(mem, a) {
            Ok(s) => Some(s),
            Err(e) => return Err(e),
        },
    };
    build_topology(apics, srat, bsp_apic_id)
}

} // verus!
