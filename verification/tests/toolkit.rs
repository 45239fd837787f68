use dynamic_analysis_kit::decode::{copy_units, decode_wide, first_null_position, u16_to_string};
use dynamic_analysis_kit::errors::ToolkitError;
use dynamic_analysis_kit::handle::HandleWrapper;
use dynamic_analysis_kit::modules::{
    process_modules_from_records, ModuleEntryWrapper, RawModuleEntry,
};
use dynamic_analysis_kit::process::{
    list_processes_from_records, resolve_process_id, str_eq, ProcessEntryWrapper, RawProcessEntry,
};
use dynamic_analysis_kit::region::{
    get_readable_pages_by_address, walk_step, MemoryMap, MemoryRegion, RegionState, WalkDecision,
    PAGE_EXECUTE_READ, PAGE_READONLY, PAGE_READWRITE, READABLE_PROTECTION_MASK,
};

fn wide(s: &str) -> Vec<u16> {
    s.encode_utf16().collect()
}

fn wide_buffer(s: &str, width: usize) -> Vec<u16> {
    let mut units = wide(s);
    while units.len() < width {
        units.push(0);
    }
    units
}

#[test]
fn first_null_position_finds_terminator() {
    assert_eq!(first_null_position(&[0x41, 0x42, 0, 0x43]), 2);
    assert_eq!(first_null_position(&[0, 0x41]), 0);
    assert_eq!(first_null_position(&[0x41, 0x42]), 2);
    assert_eq!(first_null_position(&[]), 0);
}

#[test]
fn copy_units_copies() {
    let units = vec![1u16, 2, 3];
    assert_eq!(copy_units(&units), units);
}

#[test]
fn decode_wide_plain_text() {
    let s = decode_wide(&wide("notepad.exe")).unwrap();
    assert_eq!(s, "notepad.exe");
}

#[test]
fn decode_wide_surrogate_pair() {
    // U+1F600 is encoded as the pair 0xD83D 0xDE00
    let s = decode_wide(&[0xD83D, 0xDE00]).unwrap();
    assert_eq!(s, "\u{1F600}");
}

#[test]
fn decode_wide_mixed_text() {
    let s = decode_wide(&[0x41, 0xD83D, 0xDE00, 0x42]).unwrap();
    assert_eq!(s, "A\u{1F600}B");
}

#[test]
fn decode_wide_unpaired_high_surrogate_fails() {
    assert_eq!(decode_wide(&[0x41, 0xD83D]), Err(ToolkitError::DecodeError));
    assert_eq!(
        decode_wide(&[0xD83D, 0x41]),
        Err(ToolkitError::DecodeError)
    );
}

#[test]
fn decode_wide_lone_low_surrogate_fails() {
    assert_eq!(decode_wide(&[0xDE00]), Err(ToolkitError::DecodeError));
}

#[test]
fn u16_to_string_stops_at_first_null() {
    let mut units = wide("chrome.exe");
    units.push(0);
    units.extend(wide("junk"));
    assert_eq!(u16_to_string(&units).unwrap(), "chrome.exe");
}

#[test]
fn u16_to_string_takes_whole_buffer_without_null() {
    assert_eq!(u16_to_string(&wide("svchost")).unwrap(), "svchost");
}

#[test]
fn u16_to_string_empty_cases() {
    assert_eq!(u16_to_string(&[]).unwrap(), "");
    assert_eq!(u16_to_string(&[0, 0x41]).unwrap(), "");
}

#[test]
fn u16_to_string_ignores_junk_after_null() {
    // an unpaired surrogate after the terminator does not fail decoding
    assert_eq!(u16_to_string(&[0x41, 0, 0xD800]).unwrap(), "A");
}

#[test]
fn u16_to_string_reports_invalid_name() {
    assert_eq!(
        u16_to_string(&[0xD800, 0x41, 0]),
        Err(ToolkitError::DecodeError)
    );
}

#[test]
fn str_eq_compares_exactly() {
    assert!(str_eq("msedge.exe", "msedge.exe"));
    assert!(!str_eq("msedge.exe", "msedge.exf"));
    assert!(!str_eq("msedge.exe", "msedge.ex"));
    assert!(!str_eq("Edge", "edge"));
    assert!(str_eq("", ""));
    assert!(str_eq("na\u{EF}ve \u{1F600}", "na\u{EF}ve \u{1F600}"));
}

#[test]
fn process_entry_decodes_name() {
    let entry = ProcessEntryWrapper::new(42, wide_buffer("notepad.exe", 260)).unwrap();
    assert_eq!(entry.process_id, 42);
    assert_eq!(entry.executable_name, "notepad.exe");
    assert_eq!(entry.raw_name.len(), 260);
    assert!(!entry.executable_name.contains('\0'));
}

#[test]
fn process_entry_rejects_invalid_buffer() {
    match ProcessEntryWrapper::new(7, vec![0xD800, 0x41]) {
        Err(e) => assert_eq!(e, ToolkitError::DecodeError),
        Ok(_) => panic!("expected a decode failure"),
    }
}

#[test]
fn list_processes_from_records_keeps_order() {
    let records = vec![
        RawProcessEntry {
            process_id: 4,
            name_units: wide_buffer("System", 16),
        },
        RawProcessEntry {
            process_id: 1234,
            name_units: wide_buffer("msedge.exe", 16),
        },
        RawProcessEntry {
            process_id: 99,
            name_units: wide_buffer("msedge.exe", 16),
        },
    ];
    let entries = list_processes_from_records(&records).unwrap();
    assert_eq!(entries.len(), 3);
    assert_eq!(entries[0].executable_name, "System");
    assert_eq!(entries[0].process_id, 4);
    assert_eq!(entries[1].executable_name, "msedge.exe");
    assert_eq!(entries[1].process_id, 1234);
    assert_eq!(entries[2].process_id, 99);
}

#[test]
fn list_processes_from_records_surfaces_decode_error() {
    let records = vec![
        RawProcessEntry {
            process_id: 4,
            name_units: wide_buffer("System", 16),
        },
        RawProcessEntry {
            process_id: 5,
            name_units: vec![0xDC00, 0],
        },
    ];
    assert_eq!(
        list_processes_from_records(&records).err(),
        Some(ToolkitError::DecodeError)
    );
}

#[test]
fn resolve_process_id_finds_first_match() {
    let records = vec![
        RawProcessEntry {
            process_id: 4,
            name_units: wide_buffer("System", 16),
        },
        RawProcessEntry {
            process_id: 1234,
            name_units: wide_buffer("msedge.exe", 16),
        },
        RawProcessEntry {
            process_id: 99,
            name_units: wide_buffer("msedge.exe", 16),
        },
    ];
    let entries = list_processes_from_records(&records).unwrap();
    assert_eq!(resolve_process_id(&entries, "msedge.exe"), Some(1234));
    assert_eq!(resolve_process_id(&entries, "System"), Some(4));
}

#[test]
fn resolve_process_id_none_without_match() {
    let records = vec![RawProcessEntry {
        process_id: 4,
        name_units: wide_buffer("System", 16),
    }];
    let entries = list_processes_from_records(&records).unwrap();
    assert_eq!(resolve_process_id(&entries, "absent.exe"), None);
    assert_eq!(resolve_process_id(&entries, "system"), None);
    let no_entries: Vec<ProcessEntryWrapper> = Vec::new();
    assert_eq!(resolve_process_id(&no_entries, "System"), None);
}

#[test]
fn handle_release_returns_raw_value_once() {
    let handle = HandleWrapper::new(0x1234);
    assert_eq!(handle.get(), 0x1234);
    assert_eq!(handle.get(), 0x1234);
    let raw = handle.release();
    assert_eq!(raw, 0x1234);
    // `release` consumed the wrapper: a second release does not compile,
    // so a double release is ruled out before the program ever runs.
}

#[test]
fn module_entry_decodes_name_and_keeps_base() {
    let entry = ModuleEntryWrapper::new(1234, 0x7FF6_0000, wide_buffer("telclient.dll", 256))
        .unwrap();
    assert_eq!(entry.process_id, 1234);
    assert_eq!(entry.base_address, 0x7FF6_0000);
    assert_eq!(entry.module_name, "telclient.dll");
}

#[test]
fn process_modules_from_records_keeps_order() {
    let records = vec![
        RawModuleEntry {
            process_id: 1234,
            base_address: 0x1000,
            name_units: wide_buffer("app.exe", 32),
        },
        RawModuleEntry {
            process_id: 1234,
            base_address: 0x2000,
            name_units: wide_buffer("telclient.dll", 32),
        },
    ];
    let modules = process_modules_from_records(&records).unwrap();
    assert_eq!(modules.len(), 2);
    assert_eq!(modules[0].module_name, "app.exe");
    assert_eq!(modules[1].module_name, "telclient.dll");
    assert_eq!(modules[1].base_address, 0x2000);
}

#[test]
fn process_modules_from_records_surfaces_decode_error() {
    let records = vec![RawModuleEntry {
        process_id: 1,
        base_address: 0x1000,
        name_units: vec![0xD800],
    }];
    assert_eq!(
        process_modules_from_records(&records).err(),
        Some(ToolkitError::DecodeError)
    );
}

fn region(base: usize, size: usize, state: RegionState, protect: u32) -> MemoryRegion {
    MemoryRegion {
        base,
        size,
        state,
        protect,
    }
}

const PAGE: usize = 4096;

#[test]
fn from_regions_accepts_ordered_maps() {
    let map = MemoryMap::from_regions(vec![
        region(0x1000, PAGE, RegionState::Committed, PAGE_READONLY),
        region(0x1000 + PAGE, PAGE, RegionState::Free, 0),
    ]);
    assert!(map.is_some());
}

#[test]
fn from_regions_rejects_overlap_and_empty_regions() {
    assert!(MemoryMap::from_regions(vec![
        region(0x1000, 2 * PAGE, RegionState::Committed, PAGE_READONLY),
        region(0x1000 + PAGE, PAGE, RegionState::Free, 0),
    ])
    .is_none());
    assert!(
        MemoryMap::from_regions(vec![region(0x1000, 0, RegionState::Free, 0)]).is_none()
    );
}

#[test]
fn query_reports_containing_region() {
    let map = MemoryMap::from_regions(vec![
        region(0x1000, PAGE, RegionState::Committed, PAGE_READWRITE),
        region(0x3000, PAGE, RegionState::Free, 0),
    ])
    .unwrap();
    assert_eq!(
        map.query(0x1800),
        Some(region(0x1000, PAGE, RegionState::Committed, PAGE_READWRITE))
    );
    assert_eq!(map.query(0x2000), None);
    assert_eq!(map.query(0x500), None);
}

#[test]
fn walk_step_decisions() {
    assert_eq!(walk_step(None), WalkDecision::Halt);
    assert_eq!(
        walk_step(Some(region(0x1000, PAGE, RegionState::Free, 0))),
        WalkDecision::Halt
    );
    assert_eq!(
        walk_step(Some(region(
            0x1000,
            PAGE,
            RegionState::Committed,
            PAGE_EXECUTE_READ
        ))),
        WalkDecision::Record { next: 0x2000 }
    );
    assert_eq!(
        walk_step(Some(region(0x1000, PAGE, RegionState::Reserved, 0))),
        WalkDecision::Skip { next: 0x2000 }
    );
    // committed but not readable under the mask: advanced past, not recorded
    assert_eq!(
        walk_step(Some(region(0x1000, PAGE, RegionState::Committed, 0x01))),
        WalkDecision::Skip { next: 0x2000 }
    );
    // the advance would wrap the address space
    assert_eq!(
        walk_step(Some(region(
            usize::MAX - PAGE + 1,
            2 * PAGE,
            RegionState::Committed,
            PAGE_READWRITE
        ))),
        WalkDecision::Fault
    );
}

#[test]
fn walk_collects_run_up_to_free_region() {
    // one module mapped at A over two committed execute-read pages,
    // immediately followed by a free region at A + 2 pages
    let a: usize = 0x10000;
    let map = MemoryMap::from_regions(vec![
        region(a, PAGE, RegionState::Committed, PAGE_EXECUTE_READ),
        region(a + PAGE, PAGE, RegionState::Committed, PAGE_EXECUTE_READ),
        region(a + 2 * PAGE, PAGE, RegionState::Free, 0),
    ])
    .unwrap();
    let (regions, fault) = get_readable_pages_by_address(&map, a);
    assert!(fault.is_none());
    assert_eq!(regions.len(), 2);
    assert_eq!(regions[0].base, a);
    assert_eq!(regions[0].size, PAGE);
    assert_eq!(regions[1].base, a + PAGE);
    assert_eq!(regions[1].base + regions[1].size, a + 2 * PAGE);
    // the whole span [a, a + 2 pages) is covered with no gap and no
    // overlap, and the free region is not reported
    assert_eq!(regions[0].base + regions[0].size, regions[1].base);
    assert!(regions.iter().all(|r| r.state != RegionState::Free));
    assert!(regions.iter().all(|r| r.base != a + 2 * PAGE));
}

#[test]
fn walk_from_inside_a_region_reports_its_whole_run() {
    let a: usize = 0x10000;
    let map = MemoryMap::from_regions(vec![
        region(a, PAGE, RegionState::Committed, PAGE_READONLY),
        region(a + PAGE, PAGE, RegionState::Free, 0),
    ])
    .unwrap();
    let (regions, fault) = get_readable_pages_by_address(&map, a + 0x123);
    assert!(fault.is_none());
    assert_eq!(regions.len(), 1);
    assert_eq!(regions[0].base, a);
}

#[test]
fn walk_on_unmapped_address_is_empty_not_an_error() {
    let map = MemoryMap::from_regions(vec![region(
        0x10000,
        PAGE,
        RegionState::Committed,
        PAGE_READWRITE,
    )])
    .unwrap();
    let (regions, fault) = get_readable_pages_by_address(&map, 0x500);
    assert!(regions.is_empty());
    assert!(fault.is_none());
    let empty = MemoryMap::from_regions(Vec::new()).unwrap();
    let (regions, fault) = get_readable_pages_by_address(&empty, 0x500);
    assert!(regions.is_empty());
    assert!(fault.is_none());
}

#[test]
fn walk_skips_unreadable_regions_but_advances() {
    let a: usize = 0x40000;
    let map = MemoryMap::from_regions(vec![
        region(a, PAGE, RegionState::Committed, PAGE_READWRITE),
        region(a + PAGE, PAGE, RegionState::Reserved, 0),
        region(a + 2 * PAGE, PAGE, RegionState::Committed, 0x01),
        region(a + 3 * PAGE, PAGE, RegionState::Committed, PAGE_READONLY),
        region(a + 4 * PAGE, PAGE, RegionState::Free, 0),
    ])
    .unwrap();
    let (regions, fault) = get_readable_pages_by_address(&map, a);
    assert!(fault.is_none());
    assert_eq!(regions.len(), 2);
    assert_eq!(regions[0].base, a);
    assert_eq!(regions[1].base, a + 3 * PAGE);
    assert!(regions
        .iter()
        .all(|r| r.state == RegionState::Committed
            && r.protect & READABLE_PROTECTION_MASK != 0));
}

#[test]
fn walk_stops_at_a_gap() {
    let a: usize = 0x40000;
    let map = MemoryMap::from_regions(vec![
        region(a, PAGE, RegionState::Committed, PAGE_READWRITE),
        region(a + 2 * PAGE, PAGE, RegionState::Committed, PAGE_READWRITE),
    ])
    .unwrap();
    let (regions, fault) = get_readable_pages_by_address(&map, a);
    assert!(fault.is_none());
    assert_eq!(regions.len(), 1);
    assert_eq!(regions[0].base, a);
}

#[test]
fn walk_reports_invariant_violation_on_address_wrap() {
    let base = usize::MAX - PAGE + 1;
    let map = MemoryMap::from_regions(vec![region(
        base,
        2 * PAGE,
        RegionState::Committed,
        PAGE_READWRITE,
    )])
    .unwrap();
    let (regions, fault) = get_readable_pages_by_address(&map, base);
    assert!(regions.is_empty());
    assert_eq!(fault, Some(ToolkitError::SystemInvariantViolation));
}
