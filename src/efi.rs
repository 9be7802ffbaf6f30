//! Firmware (UEFI) data: handles, status codes, memory types, the memory map's
//! descriptors and the free memory they describe, and the framing of text for
//! the firmware's console.
#![allow(non_camel_case_types)]
#![allow(non_snake_case)]
use vstd::prelude::*;
use crate::mm::{PhysAddr, le32, le64, read_phys_u32, read_phys_u64};

verus! {

/// An opaque firmware handle.
#[derive(Clone, Copy, Debug)]
pub struct EFI_HANDLE(pub usize);

/// A firmware status code; zero is success.
#[derive(Clone, Copy, Debug)]
pub struct EFI_STATUS(pub usize);

/// A key press: scan code and UCS-2 character.
#[derive(Clone, Copy, Debug)]
pub struct EFI_INPUT_KEY {
    pub ScanCode: u16,
    pub UnicodeChar: u16,
}

/// Memory types of the firmware's memory map.
#[derive(Clone, Copy, Debug, PartialEq, Eq, Structural)]
pub enum EFI_MEMORY_TYPE {
    EfiReservedMemoryType,
    EfiLoaderCode,
    EfiLoaderData,
    EfiBootServicesCode,
    EfiBootServicesData,
    EfiRuntimeServiceCode,
    EfiRuntimeServicesData,
    EfiConventionalMemory,
    EfiUnusableMemory,
    EfiACPIReclaimMemory,
    EfiACPIMemoryNVS,
    EfiMemoryMappedIO,
    EfiMemoryMappedIOPortSpace,
    EfiPalCode,
    EfiPersistentMemory,
    /// Any code from 15 on.
    EfiMaxMemoryType,
}

/// The memory type that numeric code `val` stands for.
pub open spec fn memory_type_of(val: u32) -> EFI_MEMORY_TYPE {
    match val {
        0 => EFI_MEMORY_TYPE::EfiReservedMemoryType,
        1 => EFI_MEMORY_TYPE::EfiLoaderCode,
        2 => EFI_MEMORY_TYPE::EfiLoaderData,
        3 => EFI_MEMORY_TYPE::EfiBootServicesCode,
        4 => EFI_MEMORY_TYPE::EfiBootServicesData,
        5 => EFI_MEMORY_TYPE::EfiRuntimeServiceCode,
        6 => EFI_MEMORY_TYPE::EfiRuntimeServicesData,
        7 => EFI_MEMORY_TYPE::EfiConventionalMemory,
        8 => EFI_MEMORY_TYPE::EfiUnusableMemory,
        9 => EFI_MEMORY_TYPE::EfiACPIReclaimMemory,
        10 => EFI_MEMORY_TYPE::EfiACPIMemoryNVS,
        11 => EFI_MEMORY_TYPE::EfiMemoryMappedIO,
        12 => EFI_MEMORY_TYPE::EfiMemoryMappedIOPortSpace,
        13 => EFI_MEMORY_TYPE::EfiPalCode,
        14 => EFI_MEMORY_TYPE::EfiPersistentMemory,
        _ => EFI_MEMORY_TYPE::EfiMaxMemoryType,
    }
}

impl From<u32> for EFI_MEMORY_TYPE {
    fn from(val: u32) -> (r: Self) {
        match val {
            0 => EFI_MEMORY_TYPE::EfiReservedMemoryType,
            1 => EFI_MEMORY_TYPE::EfiLoaderCode,
            2 => EFI_MEMORY_TYPE::EfiLoaderData,
            3 => EFI_MEMORY_TYPE::EfiBootServicesCode,
            4 => EFI_MEMORY_TYPE::EfiBootServicesData,
            5 => EFI_MEMORY_TYPE::EfiRuntimeServiceCode,
            6 => EFI_MEMORY_TYPE::EfiRuntimeServicesData,
            7 => EFI_MEMORY_TYPE::EfiConventionalMemory,
            8 => EFI_MEMORY_TYPE::EfiUnusableMemory,
            9 => EFI_MEMORY_TYPE::EfiACPIReclaimMemory,
            10 => EFI_MEMORY_TYPE::EfiACPIMemoryNVS,
            11 => EFI_MEMORY_TYPE::EfiMemoryMappedIO,
            12 => EFI_MEMORY_TYPE::EfiMemoryMappedIOPortSpace,
            13 => EFI_MEMORY_TYPE::EfiPalCode,
            14 => EFI_MEMORY_TYPE::EfiPersistentMemory,
            _ => EFI_MEMORY_TYPE::EfiMaxMemoryType,
        }
    }
}

impl vstd::std_specs::convert::FromSpecImpl<u32> for EFI_MEMORY_TYPE {
    open spec fn obeys_from_spec() -> bool {
        true
    }

    open spec fn from_spec(v: u32) -> Self {
        memory_type_of(v)
    }
}

/// Memory of these types is free for general use once boot services have
/// been exited.
pub open spec fn avail_after_boot(t: EFI_MEMORY_TYPE) -> bool {
    match t {
        EFI_MEMORY_TYPE::EfiBootServicesCode => true,
        EFI_MEMORY_TYPE::EfiBootServicesData => true,
        EFI_MEMORY_TYPE::EfiConventionalMemory => true,
        EFI_MEMORY_TYPE::EfiPersistentMemory => true,
        _ => false,
    }
}

impl EFI_MEMORY_TYPE {
    /// Is memory of this type available for general use after boot services
    /// have been exited? Boot-services code and data, conventional and
    /// persistent memory are; everything the firmware keeps at run time is not.
    pub fn avail_post_exit_boot_services(&self) -> (r: bool)
        ensures
            r == avail_after_boot(*self),
    {
        match self {
            EFI_MEMORY_TYPE::EfiBootServicesCode
            | EFI_MEMORY_TYPE::EfiBootServicesData
            | EFI_MEMORY_TYPE::EfiConventionalMemory
            | EFI_MEMORY_TYPE::EfiPersistentMemory => true,
            _ => false,
        }
    }
}

/// Size of a page of the memory map.
pub const PAGE_SIZE: u64 = 4096;

/// Bytes of a memory descriptor that are read.
pub const DESCRIPTOR_SIZE: usize = 40;

/// One entry of the firmware's memory map.
#[derive(Clone, Copy, Debug, PartialEq, Eq)]
pub struct EFI_MEMORY_DESCRIPTOR {
    pub Type: u32,
    pub PhysicalAddress: u64,
    pub VirtualAddress: u64,
    /// Number of 4 KiB pages in the region.
    pub NumberOfPages: u64,
    pub Attribute: u64,
}

/// The descriptor laid out at `off`.
pub open spec fn descriptor_at(buf: Seq<u8>, off: int) -> EFI_MEMORY_DESCRIPTOR {
    EFI_MEMORY_DESCRIPTOR {
        Type: le32(buf, off) as u32,
        PhysicalAddress: le64(buf, off + 8) as u64,
        VirtualAddress: le64(buf, off + 16) as u64,
        NumberOfPages: le64(buf, off + 24) as u64,
        Attribute: le64(buf, off + 32) as u64,
    }
}

/// The descriptors of a memory map of `map_size` bytes whose entries are
/// `desc_size` bytes apart, the first `k` of them.
pub open spec fn descriptors(buf: Seq<u8>, desc_size: int, k: nat) -> Seq<EFI_MEMORY_DESCRIPTOR> {
    Seq::new(k, |i: int| descriptor_at(buf, i * desc_size))
}

/// Number of descriptors of a map of `map_size` bytes: one at every multiple
/// of `desc_size` below `map_size`.
pub open spec fn descriptor_count(map_size: int, desc_size: int) -> nat {
    ((map_size + desc_size - 1) / desc_size) as nat
}

/// Reads the memory map held in the first `map_size` bytes of `buf`, with
/// entries `desc_size` bytes apart. `None` when an entry's stride is shorter
/// than a descriptor or an entry reaches past the buffer.
pub fn memory_map_entries(buf: &[u8], map_size: usize, desc_size: usize) -> (r: Option<
    Vec<EFI_MEMORY_DESCRIPTOR>,
>)
    ensures
        r is Some <==> (desc_size >= DESCRIPTOR_SIZE && (descriptor_count(
            map_size as int,
            desc_size as int,
        ) == 0 || (descriptor_count(map_size as int, desc_size as int) - 1) * desc_size
            + DESCRIPTOR_SIZE <= buf@.len())),
        r matches Some(v) ==> v@ == descriptors(
            buf@,
            desc_size as int,
            descriptor_count(map_size as int, desc_size as int),
        ),
{
    if desc_size < DESCRIPTOR_SIZE {
        return None;
    }
    let n = buf.len();
    let ghost count = descriptor_count(map_size as int, desc_size as int);
    let mut v: Vec<EFI_MEMORY_DESCRIPTOR> = Vec::new();
    let mut off: usize = 0;
    let mut k: usize = 0;
    assert(count * desc_size >= map_size && (count == 0 || (count - 1) * desc_size < map_size)) by (nonlinear_arith)
        requires
            count == (map_size as int + desc_size as int - 1) / desc_size as int,
            desc_size >= 40,
    ;
    while off < map_size
        invariant
            n == buf@.len(),
            desc_size >= DESCRIPTOR_SIZE,
            count == descriptor_count(map_size as int, desc_size as int),
            count * desc_size >= map_size,
            count == 0 || (count - 1) * desc_size < map_size,
            off == k * desc_size,
            k <= count,
            off < map_size ==> k < count,
            off >= map_size ==> k == count,
            k > 0 ==> (k - 1) * desc_size + DESCRIPTOR_SIZE <= n,
            v@ == descriptors(buf@, desc_size as int, k as nat),
        decreases map_size - off,
    {
        if off > n || n - off < DESCRIPTOR_SIZE {
            proof {
                assert(k + 1 <= count);
                assert((count - 1) * desc_size >= k * desc_size) by (nonlinear_arith)
                    requires
                        k + 1 <= count,
                        desc_size >= 0,
                ;
            }
            return None;
        }
        let o = off as u64;
        let d = EFI_MEMORY_DESCRIPTOR {
            Type: read_phys_u32(buf, PhysAddr(o)).unwrap(),
            PhysicalAddress: read_phys_u64(buf, PhysAddr(o + 8)).unwrap(),
            VirtualAddress: read_phys_u64(buf, PhysAddr(o + 16)).unwrap(),
            NumberOfPages: read_phys_u64(buf, PhysAddr(o + 24)).unwrap(),
            Attribute: read_phys_u64(buf, PhysAddr(o + 32)).unwrap(),
        };
        v.push(d);
        assert(v@ =~= descriptors(buf@, desc_size as int, (k + 1) as nat));
        assert(k <= off) by (nonlinear_arith)
            requires
                off == k * desc_size,
                desc_size >= 40,
        ;
        let ghost k0 = k;
        k += 1;
        assert(k * desc_size == off + desc_size) by (nonlinear_arith)
            requires
                off == k0 * desc_size,
                k == k0 + 1,
        ;
        if map_size - off <= desc_size {
            proof {
                assert(k * desc_size >= map_size) by (nonlinear_arith)
                    requires
                        k * desc_size == off + desc_size,
                        map_size - off <= desc_size,
                ;
                assert(k == count) by (nonlinear_arith)
                    requires
                        k * desc_size >= map_size,
                        (k - 1) * desc_size < map_size,
                        count * desc_size >= map_size,
                        count == 0 || (count - 1) * desc_size < map_size,
                        desc_size > 0,
                ;
            }
            return Some(v);
        }
        off = off + desc_size;
        proof {
            assert(off == k * desc_size);
            assert(k < count) by (nonlinear_arith)
                requires
                    k * desc_size < map_size,
                    count * desc_size >= map_size,
                    desc_size > 0,
            ;
        }
    }
    Some(v)
}

/// The bytes of memory, free after boot, that the descriptors describe.
pub open spec fn free_bytes(ds: Seq<EFI_MEMORY_DESCRIPTOR>) -> int
    decreases ds.len(),
{
    if ds.len() == 0 {
        0
    } else {
        free_bytes(ds.drop_last()) + if avail_after_boot(memory_type_of(ds.last().Type)) {
            ds.last().NumberOfPages * PAGE_SIZE
        } else {
            0
        }
    }
}

proof fn lemma_free_bytes_monotone(ds: Seq<EFI_MEMORY_DESCRIPTOR>, k: int)
    requires
        0 <= k <= ds.len(),
    ensures
        0 <= free_bytes(ds.take(k)) <= free_bytes(ds),
    decreases ds.len(),
{
    if k < ds.len() {
        assert(ds.drop_last().take(k) =~= ds.take(k));
        lemma_free_bytes_monotone(ds.drop_last(), k);
    } else {
        assert(ds.take(k) =~= ds);
        if ds.len() > 0 {
            lemma_free_bytes_monotone(ds.drop_last(), k - 1);
        }
    }
}

/// The number of bytes of memory available for general use after boot
/// services have been exited; `None` when it does not fit in 64 bits.
pub fn free_memory(ds: &Vec<EFI_MEMORY_DESCRIPTOR>) -> (r: Option<u64>)
    ensures
        r == (if free_bytes(ds@) <= u64::MAX {
            Some(free_bytes(ds@) as u64)
        } else {
            None::<u64>
        }),
{
    let mut total: u64 = 0;
    let mut k: usize = 0;
    while k < ds.len()
        invariant
            k <= ds@.len(),
            total == free_bytes(ds@.take(k as int)),
        decreases ds.len() - k,
    {
        let d = ds[k];
        proof {
            assert(ds@.take(k + 1).drop_last() =~= ds@.take(k as int));
            lemma_free_bytes_monotone(ds@, k + 1);
        }
        let t = EFI_MEMORY_TYPE::from(d.Type);
        if t.avail_post_exit_boot_services() {
            let bytes = match d.NumberOfPages.checked_mul(PAGE_SIZE) {
                Some(b) => b,
                None => {
                    proof {
                        assert(free_bytes(ds@.take(k + 1)) > u64::MAX);
                    }
                    return None;
                },
            };
            total = match total.checked_add(bytes) {
                Some(x) => x,
                None => return None,
            };
        }
        k += 1;
    }
    assert(ds@.take(ds@.len() as int) =~= ds@);
    Some(total)
}

/// Longest run of characters sent to the console in one call, before the
/// terminating zero; a line break may stretch a run by one.
pub const CONSOLE_CHUNK: usize = 30;

/// A character as the console gets it: a line feed is preceded by a carriage
/// return.
pub open spec fn crlf(c: u16) -> Seq<u16> {
    if c == 10 {
        seq![13u16, 10u16]
    } else {
        seq![c]
    }
}

/// Framing `units` for the console: the runs sent so far (each ended by a
/// zero) and the run still being filled. A run is sent as soon as it holds
/// `CONSOLE_CHUNK` characters or more.
pub open spec fn console_frames(units: Seq<u16>) -> (Seq<Seq<u16>>, Seq<u16>)
    decreases units.len(),
{
    if units.len() == 0 {
        (Seq::empty(), Seq::empty())
    } else {
        let (sent, buf) = console_frames(units.drop_last());
        let b = buf + crlf(units.last());
        if b.len() >= CONSOLE_CHUNK {
            (sent.push(b.push(0u16)), Seq::empty())
        } else {
            (sent, b)
        }
    }
}

/// All the zero-terminated runs that writing `units` to the console sends.
pub open spec fn console_chunks_of(units: Seq<u16>) -> Seq<Seq<u16>> {
    let (sent, buf) = console_frames(units);
    if buf.len() > 0 {
        sent.push(buf.push(0u16))
    } else {
        sent
    }
}

/// Frames UTF-16 text for the firmware console: each line feed gets a
/// carriage return before it, and the text is cut into zero-terminated runs
/// of at most `CONSOLE_CHUNK + 1` characters, as the console takes them.
pub fn console_chunks(units: &[u16]) -> (r: Vec<Vec<u16>>)
    ensures
        r@.len() == console_chunks_of(units@).len(),
        forall|i: int| 0 <= i < r@.len() ==> (#[trigger] r@[i])@ == console_chunks_of(units@)[i],
{
    let mut sent: Vec<Vec<u16>> = Vec::new();
    let mut buf: Vec<u16> = Vec::new();
    let mut k: usize = 0;
    while k < units.len()
        invariant
            k <= units@.len(),
            buf@ == console_frames(units@.take(k as int)).1,
            buf@.len() < CONSOLE_CHUNK,
            sent@.len() == console_frames(units@.take(k as int)).0.len(),
            forall|i: int|
                0 <= i < sent@.len() ==> (#[trigger] sent@[i])@ == console_frames(
                    units@.take(k as int),
                ).0[i],
        decreases units.len() - k,
    {
        let c = units[k];
        proof {
            assert(units@.take(k + 1).drop_last() =~= units@.take(k as int));
            assert(units@.take(k + 1).last() == c);
        }
        let ghost old_sent = sent@;
        if c == 10 {
            buf.push(13);
        }
        buf.push(c);
        proof {
            assert(buf@ =~= console_frames(units@.take(k as int)).1 + crlf(c));
        }
        if buf.len() >= CONSOLE_CHUNK {
            buf.push(0);
            sent.push(buf);
            buf = Vec::new();
            proof {
                assert forall|i: int| 0 <= i < sent@.len() implies (#[trigger] sent@[i])@
                    == console_frames(units@.take(k + 1)).0[i] by {
                    if i < old_sent.len() {
                        assert(sent@[i] == old_sent[i]);
                    }
                }
                assert(buf@ =~= console_frames(units@.take(k + 1)).1);
            }
        }
        k += 1;
    }
    assert(units@.take(units@.len() as int) =~= units@);
    if buf.len() > 0 {
        buf.push(0);
        let ghost old_sent = sent@;
        sent.push(buf);
        assert forall|i: int| 0 <= i < sent@.len() implies (#[trigger] sent@[i])@
            == console_chunks_of(units@)[i] by {
            if i < old_sent.len() {
                assert(sent@[i] == old_sent[i]);
            }
        }
    }
    sent
}

} // verus!
