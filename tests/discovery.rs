use lazarus::acpi::{
    find_rsdp, init, parse_header, parse_madt, parse_srat, scan_window, sub_entries, walk_rsdt,
    AcpiError, MemoryAffinity, RootTables,
};
use lazarus::mm::PhysAddr;
use lazarus::topology::{
    build_topology, CoreInfo, CoreState, LaunchAction, LaunchError, Launcher, Topology, MAX_CORES,
};

const IMAGE_SIZE: usize = 0x10_0000;
const EBDA: usize = 0x9FC0;
const RSDT_AT: usize = 0x1000;
const MADT_AT: usize = 0x2000;
const SRAT_AT: usize = 0x3000;

fn blank_image() -> Vec<u8> {
    let mut m = vec![0u8; IMAGE_SIZE];
    m[0x40E] = (EBDA & 0xFF) as u8;
    m[0x40F] = (EBDA >> 8) as u8;
    m
}

fn sum(bytes: &[u8]) -> u8 {
    bytes.iter().fold(0u8, |a, &b| a.wrapping_add(b))
}

fn put_u32(m: &mut [u8], at: usize, v: u32) {
    m[at..at + 4].copy_from_slice(&v.to_le_bytes());
}

fn put_u64(m: &mut [u8], at: usize, v: u64) {
    m[at..at + 8].copy_from_slice(&v.to_le_bytes());
}

/// Writes a version-1 root pointer at `at` pointing at `rsdt`.
fn put_rsdp(m: &mut [u8], at: usize, rsdt: u32) {
    m[at..at + 8].copy_from_slice(b"RSD PTR ");
    m[at + 8] = 0;
    m[at + 9..at + 15].copy_from_slice(b"LAZRUS");
    m[at + 15] = 0;
    put_u32(m, at + 16, rsdt);
    let s = sum(&m[at..at + 20]);
    m[at + 8] = 0u8.wrapping_sub(s);
}

/// Writes a table with signature `sig` and `payload` at `at`, checksum fixed.
fn put_table(m: &mut [u8], at: usize, sig: &[u8; 4], payload: &[u8]) {
    let len = 36 + payload.len();
    m[at..at + 4].copy_from_slice(sig);
    put_u32(m, at + 4, len as u32);
    m[at + 8] = 1;
    m[at + 9] = 0;
    m[at + 10..at + 16].copy_from_slice(b"LAZRUS");
    put_u64(m, at + 16, 0x1122_3344_5566_7788);
    put_u32(m, at + 24, 7);
    put_u32(m, at + 28, 0xABCD);
    put_u32(m, at + 32, 9);
    m[at + 36..at + len].copy_from_slice(payload);
    let s = sum(&m[at..at + len]);
    m[at + 9] = 0u8.wrapping_sub(s);
}

fn rsdt_payload(ptrs: &[u32]) -> Vec<u8> {
    let mut p = Vec::new();
    for &x in ptrs {
        p.extend_from_slice(&x.to_le_bytes());
    }
    p
}

fn madt_payload(ids: &[u8]) -> Vec<u8> {
    let mut p = vec![0u8; 8];
    put_u32(&mut p, 0, 0xFEE0_0000);
    for (i, &id) in ids.iter().enumerate() {
        p.extend_from_slice(&[0, 8, i as u8, id, 1, 0, 0, 0]);
    }
    p
}

fn srat_cpu_entry(apic: u8, domain: u32) -> Vec<u8> {
    let d = domain.to_le_bytes();
    vec![0, 16, d[0], apic, 1, 0, 0, 0, 0, d[1], d[2], d[3], 0, 0, 0, 0]
}

fn srat_mem_entry(base: u64, length: u64, domain: u32) -> Vec<u8> {
    let mut e = vec![0u8; 40];
    e[0] = 1;
    e[1] = 40;
    put_u32(&mut e, 2, domain);
    put_u64(&mut e, 8, base);
    put_u64(&mut e, 16, length);
    put_u32(&mut e, 28, 1);
    e
}

fn srat_payload(entries: &[Vec<u8>]) -> Vec<u8> {
    let mut p = vec![0u8; 12];
    p[0] = 1;
    for e in entries {
        p.extend_from_slice(e);
    }
    p
}

/// A machine with a root pointer in the EBDA and a root table listing the
/// given tables.
fn machine(tables: &[u32]) -> Vec<u8> {
    let mut m = blank_image();
    put_rsdp(&mut m, EBDA, RSDT_AT as u32);
    put_table(&mut m, RSDT_AT, b"RSDT", &rsdt_payload(tables));
    m
}

fn four_core_machine(with_srat: bool) -> Vec<u8> {
    let mut m = if with_srat {
        machine(&[MADT_AT as u32, SRAT_AT as u32])
    } else {
        machine(&[MADT_AT as u32])
    };
    put_table(&mut m, MADT_AT, b"APIC", &madt_payload(&[0, 1, 2, 3]));
    if with_srat {
        let entries = vec![
            srat_cpu_entry(0, 0),
            srat_cpu_entry(1, 0),
            srat_cpu_entry(2, 1),
            srat_cpu_entry(3, 1),
            srat_mem_entry(0, 0x8000_0000, 0),
            srat_mem_entry(0x8000_0000, 0x8000_0000, 1),
        ];
        put_table(&mut m, SRAT_AT, b"SRAT", &srat_payload(&entries));
    }
    m
}

#[test]
fn header_accepts_zero_sum() {
    let mut m = vec![0u8; 0x200];
    put_table(&mut m, 0x40, b"TEST", &[1, 2, 3, 4, 5]);
    let (h, payload, len) = parse_header(&m, PhysAddr(0x40)).unwrap();
    assert_eq!(h.signature, u32::from_le_bytes(*b"TEST"));
    assert_eq!(h.length, 41);
    assert_eq!(h.revision, 1);
    assert_eq!(h.oem_id, *b"LAZRUS");
    assert_eq!(h.oem_table_id, 0x1122_3344_5566_7788);
    assert_eq!(h.oem_revision, 7);
    assert_eq!(h.asl_compiler_id, 0xABCD);
    assert_eq!(h.asl_compiler_revision, 9);
    assert_eq!(payload, PhysAddr(0x40 + 36));
    assert_eq!(len, 5);
}

#[test]
fn header_rejects_every_single_byte_mutation() {
    let mut m = vec![0u8; 0x200];
    put_table(&mut m, 0x40, b"TEST", &[9, 8, 7, 6, 5, 4, 3]);
    let len = 43;
    for i in 0x40..0x40 + len {
        if (0x44..0x48).contains(&i) {
            continue;
        }
        for delta in [1u8, 0x80, 0xFF] {
            let mut bad = m.clone();
            bad[i] = bad[i].wrapping_add(delta);
            match parse_header(&bad, PhysAddr(0x40)) {
                Err(AcpiError::BadChecksum { .. }) => {}
                other => panic!("mutation at {:#x} not caught: {:?}", i, other),
            }
        }
    }
}

#[test]
fn header_nonzero_sum_reports_signature() {
    let mut m = vec![0u8; 0x100];
    put_table(&mut m, 0, b"FACP", &[1, 2]);
    m[37] ^= 0x10;
    assert_eq!(
        parse_header(&m, PhysAddr(0)),
        Err(AcpiError::BadChecksum { signature: u32::from_le_bytes(*b"FACP") })
    );
}

#[test]
fn header_length_underflow() {
    let mut m = vec![0u8; 0x100];
    put_table(&mut m, 0, b"FACP", &[]);
    put_u32(&mut m, 4, 35);
    assert_eq!(
        parse_header(&m, PhysAddr(0)),
        Err(AcpiError::LengthUnderflow { signature: u32::from_le_bytes(*b"FACP") })
    );
}

#[test]
fn header_past_end_of_image() {
    let mut m = vec![0u8; 0x100];
    put_table(&mut m, 0x80, b"FACP", &[0; 16]);
    assert_eq!(parse_header(&m, PhysAddr(0xF0)), Err(AcpiError::OutOfBounds));
    put_u32(&mut m, 0x84, 0x200);
    assert_eq!(parse_header(&m, PhysAddr(0x80)), Err(AcpiError::OutOfBounds));
}

#[test]
fn rsdp_scan_is_deterministic() {
    let m = four_core_machine(true);
    let first = find_rsdp(&m);
    let second = find_rsdp(&m);
    assert!(first.is_some());
    assert_eq!(first, second);
}

#[test]
fn rsdp_found_at_aligned_ebda_offset() {
    let mut m = blank_image();
    put_rsdp(&mut m, EBDA + 0x30, 0x1234_5678);
    let d = find_rsdp(&m).unwrap();
    assert_eq!(d.address, PhysAddr((EBDA + 0x30) as u64));
    assert_eq!(d.rsdt_address, 0x1234_5678);
    assert_eq!(d.oem_id, *b"LAZRUS");
    assert_eq!(d.revision, 0);
}

#[test]
fn rsdp_off_alignment_not_found() {
    let mut m = blank_image();
    put_rsdp(&mut m, EBDA + 0x38, 0x1234_5678);
    assert_eq!(find_rsdp(&m), None);
}

#[test]
fn rsdp_ebda_searched_before_bios_window() {
    let mut m = blank_image();
    put_rsdp(&mut m, 0xE0040, 0xAAAA);
    put_rsdp(&mut m, EBDA + 0x10, 0xBBBB);
    assert_eq!(find_rsdp(&m).unwrap().rsdt_address, 0xBBBB);
    let mut m2 = blank_image();
    put_rsdp(&mut m2, 0xE0040, 0xAAAA);
    put_rsdp(&mut m2, 0xF0000, 0xCCCC);
    let d = find_rsdp(&m2).unwrap();
    assert_eq!(d.address, PhysAddr(0xE0040));
    assert_eq!(d.rsdt_address, 0xAAAA);
}

#[test]
fn rsdp_bad_checksum_skipped() {
    let mut m = blank_image();
    put_rsdp(&mut m, EBDA, 0x1111);
    m[EBDA + 8] = m[EBDA + 8].wrapping_add(1);
    put_rsdp(&mut m, 0xE1000, 0x2222);
    assert_eq!(find_rsdp(&m).unwrap().rsdt_address, 0x2222);
}

#[test]
fn rsdp_extended_checksum_checked() {
    let mut m = blank_image();
    let at = 0xE2000;
    put_rsdp(&mut m, at, 0x3333);
    // Revision 2 with a correct first checksum but a bad extended one.
    m[at + 15] = 2;
    m[at + 8] = 0;
    let s = sum(&m[at..at + 20]);
    m[at + 8] = 0u8.wrapping_sub(s);
    put_u32(&mut m, at + 20, 36);
    m[at + 32] = 0x55;
    assert_eq!(find_rsdp(&m), None);
    // Fix the extended checksum.
    let s2 = sum(&m[at..at + 36]);
    m[at + 32] = m[at + 32].wrapping_sub(s2);
    let d = find_rsdp(&m).unwrap();
    assert_eq!(d.revision, 2);
    assert_eq!(d.rsdt_address, 0x3333);
}

#[test]
fn rsdp_candidate_past_window_end_not_examined() {
    let mut m = vec![0u8; 0x200];
    put_rsdp(&mut m, 0x100, 0x77);
    assert_eq!(scan_window(&m, 0x0, 0x11F), None);
    assert_eq!(scan_window(&m, 0x0, 0x123).unwrap().rsdt_address, 0x77);
    assert_eq!(scan_window(&m, 0x1, 0x1FF).unwrap().address, PhysAddr(0x100));
}

#[test]
fn rsdp_missing_everywhere() {
    let m = blank_image();
    assert_eq!(find_rsdp(&m), None);
    assert!(matches!(init(&m, 0), Err(AcpiError::RsdpNotFound)));
    assert_eq!(find_rsdp(&[0u8; 16]), None);
}

#[test]
fn rsdt_misaligned_payload_rejected() {
    let mut m = blank_image();
    put_table(&mut m, RSDT_AT, b"RSDT", &[0, 0x20, 0, 0, 0, 0x30]);
    assert_eq!(walk_rsdt(&m, PhysAddr(RSDT_AT as u64)), Err(AcpiError::RootTableMisaligned));
}

#[test]
fn rsdt_wrong_signature_rejected() {
    let mut m = blank_image();
    put_table(&mut m, RSDT_AT, b"XSDT", &rsdt_payload(&[0x2000]));
    assert_eq!(
        walk_rsdt(&m, PhysAddr(RSDT_AT as u64)),
        Err(AcpiError::BadSignature { signature: u32::from_le_bytes(*b"XSDT") })
    );
}

#[test]
fn rsdt_dispatch_by_signature() {
    let mut m = four_core_machine(true);
    put_table(&mut m, 0x4000, b"FACP", &[0; 8]);
    put_table(&mut m, RSDT_AT, b"RSDT", &rsdt_payload(&[0x4000, SRAT_AT as u32, MADT_AT as u32]));
    assert_eq!(
        walk_rsdt(&m, PhysAddr(RSDT_AT as u64)),
        Ok(RootTables { madt: Some(PhysAddr(MADT_AT as u64)), srat: Some(PhysAddr(SRAT_AT as u64)) })
    );
}

#[test]
fn rsdt_duplicate_madt_rejected() {
    let mut m = four_core_machine(false);
    put_table(&mut m, 0x5000, b"APIC", &madt_payload(&[4]));
    put_table(&mut m, RSDT_AT, b"RSDT", &rsdt_payload(&[MADT_AT as u32, 0x5000]));
    assert_eq!(walk_rsdt(&m, PhysAddr(RSDT_AT as u64)), Err(AcpiError::DuplicateMadt));
    assert!(matches!(init(&m, 0), Err(AcpiError::DuplicateMadt)));
}

#[test]
fn rsdt_duplicate_srat_rejected() {
    let mut m = four_core_machine(true);
    put_table(&mut m, RSDT_AT, b"RSDT", &rsdt_payload(&[SRAT_AT as u32, MADT_AT as u32, SRAT_AT as u32]));
    assert_eq!(walk_rsdt(&m, PhysAddr(RSDT_AT as u64)), Err(AcpiError::DuplicateSrat));
}

#[test]
fn rsdt_pointer_outside_image_rejected() {
    let mut m = blank_image();
    put_table(&mut m, RSDT_AT, b"RSDT", &rsdt_payload(&[0xFFFF_FFF0]));
    assert_eq!(walk_rsdt(&m, PhysAddr(RSDT_AT as u64)), Err(AcpiError::OutOfBounds));
}

#[test]
fn sub_entries_tile_payload_exactly() {
    let p = [0xAA, 0xBB, 0, 4, 1, 1, 7, 2, 9, 4, 0, 0];
    let v = sub_entries(&p, 2).unwrap();
    assert_eq!(v, vec![(2, 4), (6, 2), (8, 4)]);
    let total: usize = v.iter().map(|e| e.1).sum();
    assert_eq!(total, p.len() - 2);
    assert_eq!(sub_entries(&p, 12), Some(vec![]));
}

#[test]
fn sub_entries_overrun_rejected() {
    assert_eq!(sub_entries(&[0, 4, 1, 1, 0, 9, 1], 0), None);
    assert_eq!(sub_entries(&[0, 4, 1, 1, 5], 0), None);
    assert_eq!(sub_entries(&[0, 3, 1, 0], 5), None);
}

#[test]
fn sub_entries_zero_length_rejected() {
    assert_eq!(sub_entries(&[0, 0, 0, 0], 0), None);
    assert_eq!(sub_entries(&[0, 1, 0, 0], 0), None);
}

#[test]
fn madt_lists_enabled_processors() {
    let mut p = madt_payload(&[0, 1]);
    // A disabled processor, an I/O APIC (unknown here), an x2APIC and a
    // repeated id.
    p.extend_from_slice(&[0, 8, 2, 5, 0, 0, 0, 0]);
    p.extend_from_slice(&[1, 12, 0, 0, 0, 0, 0xC0, 0xFE, 0, 0, 0, 0]);
    p.extend_from_slice(&[9, 16, 0, 0, 0x00, 0x01, 0, 0, 1, 0, 0, 0, 0, 0, 0, 0]);
    p.extend_from_slice(&[0, 8, 3, 1, 1, 0, 0, 0]);
    let mut m = vec![0u8; 0x400];
    put_table(&mut m, 0x100, b"APIC", &p);
    assert_eq!(parse_madt(&m, PhysAddr(0x100)), Ok(vec![0, 1, 0x100]));
}

#[test]
fn madt_with_overrunning_entry_rejected() {
    let mut p = madt_payload(&[0, 1]);
    p.extend_from_slice(&[0, 12, 2, 2, 1, 0, 0, 0]);
    let mut m = vec![0u8; 0x400];
    put_table(&mut m, 0x100, b"APIC", &p);
    assert_eq!(
        parse_madt(&m, PhysAddr(0x100)),
        Err(AcpiError::MalformedTable { signature: u32::from_le_bytes(*b"APIC") })
    );
}

#[test]
fn madt_too_short_for_fixed_fields() {
    let mut m = vec![0u8; 0x400];
    put_table(&mut m, 0x100, b"APIC", &[0, 0, 0, 0]);
    assert_eq!(
        parse_madt(&m, PhysAddr(0x100)),
        Err(AcpiError::MalformedTable { signature: u32::from_le_bytes(*b"APIC") })
    );
}

#[test]
fn srat_maps_cores_and_memory() {
    let mut x2 = vec![0u8; 24];
    x2[0] = 2;
    x2[1] = 24;
    put_u32(&mut x2, 4, 3);
    put_u32(&mut x2, 8, 0x200);
    put_u32(&mut x2, 12, 1);
    let mut disabled = srat_cpu_entry(9, 9);
    disabled[4] = 0;
    let entries = vec![
        srat_cpu_entry(0, 0x0102_0304),
        disabled,
        srat_mem_entry(0x1000, 0x2000, 5),
        x2,
        vec![7, 6, 0, 0, 0, 0],
    ];
    let mut m = vec![0u8; 0x400];
    put_table(&mut m, 0x100, b"SRAT", &srat_payload(&entries));
    let info = parse_srat(&m, PhysAddr(0x100)).unwrap();
    assert_eq!(info.apic_domains, vec![(0, 0x0102_0304), (0x200, 3)]);
    assert_eq!(info.memory_domains, vec![MemoryAffinity { base: 0x1000, length: 0x2000, domain: 5 }]);
}

#[test]
fn srat_wrong_signature_rejected() {
    let mut m = vec![0u8; 0x400];
    put_table(&mut m, 0x100, b"APIC", &srat_payload(&[]));
    let sig = u32::from_le_bytes(*b"APIC");
    assert!(matches!(
        parse_srat(&m, PhysAddr(0x100)),
        Err(AcpiError::BadSignature { signature }) if signature == sig
    ));
}

#[test]
fn scenario_four_cores_two_domains() {
    let m = four_core_machine(true);
    let t = init(&m, 0).unwrap();
    assert_eq!(t.core_count, 4);
    assert_eq!(t.slots.len(), MAX_CORES);
    assert_eq!(t.apics, vec![0, 1, 2, 3]);
    assert_eq!(t.slots[0].state, CoreState::Online);
    for id in 1..4 {
        assert_eq!(t.slots[id].state, CoreState::Offline);
    }
    assert_eq!(t.slots[4].state, CoreState::Absent);
    assert_eq!(t.slots[0].domain, Some(0));
    assert_eq!(t.slots[1].domain, Some(0));
    assert_eq!(t.slots[2].domain, Some(1));
    assert_eq!(t.slots[3].domain, Some(1));
    assert_eq!(t.slots[4].domain, None);
    assert_eq!(t.memory_domains.len(), 2);
    assert_eq!(t.memory_domains[1], MemoryAffinity { base: 0x8000_0000, length: 0x8000_0000, domain: 1 });
}

fn run_with_responsive_cores(launcher: &mut Launcher) -> Vec<u32> {
    let mut started = Vec::new();
    for _ in 0..100 {
        match launcher.step() {
            LaunchAction::Start { apic_id } => {
                started.push(apic_id);
                // The target core observes its own slot Launched, then
                // marks itself Online.
                assert_eq!(launcher.state_of(apic_id), CoreState::Launched);
                assert_eq!(launcher.report_online(apic_id), Ok(()));
            }
            LaunchAction::Wait { apic_id } => panic!("core {} should have been online", apic_id),
            LaunchAction::Done => return started,
        }
    }
    panic!("launch did not finish");
}

#[test]
fn scenario_no_srat_domains_unknown_and_boot_all_cores() {
    let m = four_core_machine(false);
    let t = init(&m, 0).unwrap();
    assert_eq!(t.core_count, 4);
    assert!(t.slots.iter().all(|s| s.domain.is_none()));
    assert!(t.memory_domains.is_empty());
    let mut launcher = Launcher::new(t).unwrap();
    assert_eq!(run_with_responsive_cores(&mut launcher), vec![1, 2, 3]);
    for id in 0..4 {
        assert_eq!(launcher.state_of(id), CoreState::Online);
    }
    assert_eq!(launcher.state_of(4), CoreState::Absent);
    assert_eq!(launcher.state_of(5000), CoreState::Absent);
    assert_eq!(launcher.step(), LaunchAction::Done);
}

#[test]
fn launcher_waits_for_target_to_report_online() {
    let m = four_core_machine(true);
    let t = init(&m, 2).unwrap();
    let mut launcher = Launcher::new(t).unwrap();
    assert_eq!(launcher.step(), LaunchAction::Start { apic_id: 0 });
    // The next core is not started while core 0 has not reported in.
    for _ in 0..5 {
        assert_eq!(launcher.step(), LaunchAction::Wait { apic_id: 0 });
        assert_eq!(launcher.state_of(1), CoreState::Offline);
    }
    // A core that was not started cannot report in.
    assert_eq!(launcher.report_online(1), Err(LaunchError::NotLaunched));
    assert_eq!(launcher.report_online(2), Err(LaunchError::NotLaunched));
    assert_eq!(launcher.report_online(0), Ok(()));
    assert_eq!(launcher.report_online(0), Err(LaunchError::NotLaunched));
    assert_eq!(launcher.step(), LaunchAction::Start { apic_id: 1 });
    assert_eq!(launcher.state_of(0), CoreState::Online);
    assert_eq!(launcher.state_of(1), CoreState::Launched);
    assert_eq!(launcher.state_of(3), CoreState::Offline);
    assert_eq!(launcher.step(), LaunchAction::Wait { apic_id: 1 });
    assert_eq!(launcher.report_online(1), Ok(()));
    assert_eq!(launcher.step(), LaunchAction::Start { apic_id: 3 });
    assert_eq!(launcher.report_online(3), Ok(()));
    assert_eq!(launcher.step(), LaunchAction::Done);
    assert_eq!(launcher.topology().slots[2].domain, Some(1));
}

#[test]
fn launcher_refuses_malformed_registry() {
    let t = Topology { core_count: 1, slots: vec![], apics: vec![], memory_domains: vec![] };
    assert!(matches!(Launcher::new(t), Err(LaunchError::BadRegistry)));
    let mut t2 = build_topology(Some(vec![0, 1]), None, 0).unwrap();
    t2.slots[1].state = CoreState::Launched;
    assert!(matches!(Launcher::new(t2), Err(LaunchError::BadRegistry)));
}

#[test]
fn registry_without_madt_counts_one_core() {
    let t = build_topology(None, None, 3).unwrap();
    assert_eq!(t.core_count, 1);
    assert_eq!(t.slots[3].state, CoreState::Online);
    assert_eq!(t.slots.iter().filter(|s| s.state != CoreState::Absent).count(), 1);
    let mut launcher = Launcher::new(t).unwrap();
    assert_eq!(launcher.step(), LaunchAction::Done);
}

#[test]
fn registry_rejects_out_of_range_ids() {
    assert!(matches!(build_topology(Some(vec![0, 1024]), None, 0), Err(AcpiError::ApicIdOutOfRange)));
    assert!(matches!(build_topology(Some(vec![0]), None, 1024), Err(AcpiError::ApicIdOutOfRange)));
    let m = four_core_machine(false);
    assert!(matches!(init(&m, 5000), Err(AcpiError::ApicIdOutOfRange)));
}

#[test]
fn registry_last_affinity_wins() {
    let m = {
        let mut m = four_core_machine(true);
        let entries = vec![srat_cpu_entry(1, 4), srat_cpu_entry(1, 6)];
        put_table(&mut m, SRAT_AT, b"SRAT", &srat_payload(&entries));
        m
    };
    let t = init(&m, 0).unwrap();
    assert_eq!(t.slots[1].domain, Some(6));
    assert_eq!(t.slots[0].domain, None);
}

#[test]
fn init_propagates_table_errors() {
    let mut m = four_core_machine(true);
    m[SRAT_AT + 40] ^= 1;
    assert!(matches!(init(&m, 0), Err(AcpiError::BadChecksum { .. })));
    let mut m2 = four_core_machine(true);
    put_table(&mut m2, MADT_AT, b"APIC", &[0, 0, 0, 0, 0, 0, 0, 0, 0, 9]);
    assert!(matches!(init(&m2, 0), Err(AcpiError::MalformedTable { .. })));
}

#[test]
fn snapshot_lists_present_cores() {
    let m = four_core_machine(true);
    let t = init(&m, 0).unwrap();
    let snap = t.snapshot();
    assert_eq!(snap.len(), 4);
    assert_eq!(snap[0], CoreInfo { apic_id: 0, state: CoreState::Online, domain: Some(0) });
    assert_eq!(snap[3], CoreInfo { apic_id: 3, state: CoreState::Offline, domain: Some(1) });
    let t2 = build_topology(Some(vec![7, 2]), None, 5).unwrap();
    let ids: Vec<u32> = t2.snapshot().iter().map(|c| c.apic_id).collect();
    assert_eq!(ids, vec![2, 5, 7]);
}
