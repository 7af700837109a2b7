use void_ship::error::{EMPTY_RANGE, INVALID_HEX, NOT_FOUND};
use void_ship::{
    scan_mappings, DiscoveredMappings, Error, Hardening, MemoryRegion, Mode, Step,
};

fn remove_after_reading(listing: &[u8]) -> Result<Hardening, Error> {
    Hardening::begin(Mode::Remove, &scan_mappings(listing)?)
}

fn replace_after_reading(listing: &[u8]) -> Result<Hardening, Error> {
    Hardening::begin(Mode::Replace, &scan_mappings(listing)?)
}

const BOTH: &[u8] = b"\
7ffc5a3c8000-7ffc5a3cc000 r--p 00000000 00:00 0                          [vvar]\n\
7ffc5a3cc000-7ffc5a3ce000 r-xp 00000000 00:00 0                          [vdso]\n";

const VDSO: MemoryRegion = MemoryRegion { base_address: 0x7ffc_5a3c_c000, size: 0x2000 };
const VVAR: MemoryRegion = MemoryRegion { base_address: 0x7ffc_5a3c_8000, size: 0x4000 };

fn not_found() -> Error {
    Error::InvalidFormat(NOT_FOUND.to_string())
}

fn steps_of(mut hardening: Hardening) -> Vec<Step> {
    let mut steps = Vec::new();
    while let Some(step) = hardening.next_step() {
        steps.push(step);
        let returned = match step {
            Step::Unmap(_) => 0,
            Step::Guard(region) => region.base_address,
        };
        hardening = hardening.advance(returned, 0).unwrap();
    }
    steps
}

fn failure_of(r: Result<Hardening, Error>) -> Error {
    match r {
        Ok(_) => panic!("calls were laid out"),
        Err(e) => e,
    }
}

#[test]
fn not_found_message() {
    assert_eq!(NOT_FOUND, "Could not find vdso or vvar mappings");
}

#[test]
fn removal_unmaps_vdso_then_vvar() {
    let hardening = remove_after_reading(BOTH).unwrap();
    assert_eq!(steps_of(hardening), vec![Step::Unmap(VDSO), Step::Unmap(VVAR)]);
}

#[test]
fn replacement_unmaps_both_then_guards_both() {
    let hardening = replace_after_reading(BOTH).unwrap();
    assert_eq!(
        steps_of(hardening),
        vec![Step::Unmap(VDSO), Step::Unmap(VVAR), Step::Guard(VDSO), Step::Guard(VVAR)]
    );
}

#[test]
fn missing_vvar_lays_out_no_call() {
    let listing = b"1000-2000 r-xp 0 00:00 0 [vdso]\n3000-4000 rw-p 0 00:00 0 [heap]\n";
    assert_eq!(failure_of(remove_after_reading(listing)), not_found());
    assert_eq!(failure_of(replace_after_reading(listing)), not_found());
}

#[test]
fn missing_vdso_lays_out_no_call() {
    let listing = b"1000-2000 r--p 0 00:00 0 [vvar]\n3000-4000 rw-p 0 00:00 0 [heap]\n";
    assert_eq!(failure_of(remove_after_reading(listing)), not_found());
    assert_eq!(failure_of(replace_after_reading(listing)), not_found());
}

#[test]
fn second_removal_finds_nothing() {
    let listing = b"\
55d0c0a00000-55d0c0a02000 r--p 00000000 08:01 1311 /usr/bin/cat\n\
7ffc5a1e0000-7ffc5a201000 rw-p 00000000 00:00 0 [stack]\n";
    assert_eq!(failure_of(remove_after_reading(listing)), not_found());
    assert_eq!(failure_of(replace_after_reading(listing)), not_found());
    assert_eq!(failure_of(remove_after_reading(b"")), not_found());
}

#[test]
fn unreadable_listing_lays_out_no_call() {
    let listing = b"1000-2000 [vvar]\n7ffle000-7fff0000 r-xp 0 00:00 0 [vdso]\n";
    assert_eq!(
        failure_of(remove_after_reading(listing)),
        Error::InvalidFormat(INVALID_HEX.to_string())
    );
    assert_eq!(
        failure_of(replace_after_reading(listing)),
        Error::InvalidFormat(INVALID_HEX.to_string())
    );
}

#[test]
fn empty_range_in_the_listing_lays_out_no_call() {
    let listing = b"1000-2000 [vvar]\n3000-3000 [vdso]\n";
    assert_eq!(
        failure_of(remove_after_reading(listing)),
        Error::InvalidFormat(EMPTY_RANGE.to_string())
    );
}

#[test]
fn begin_asks_for_both() {
    let none = DiscoveredMappings { vdso: None, vvar: None };
    let only_vdso = DiscoveredMappings { vdso: Some(VDSO), vvar: None };
    let only_vvar = DiscoveredMappings { vdso: None, vvar: Some(VVAR) };
    for mode in [Mode::Remove, Mode::Replace] {
        assert_eq!(failure_of(Hardening::begin(mode, &none)), not_found());
        assert_eq!(failure_of(Hardening::begin(mode, &only_vdso)), not_found());
        assert_eq!(failure_of(Hardening::begin(mode, &only_vvar)), not_found());
    }
}

#[test]
fn begin_refuses_an_empty_region() {
    let empty = MemoryRegion { base_address: 0x1000, size: 0 };
    let found = DiscoveredMappings { vdso: Some(empty), vvar: Some(VVAR) };
    assert_eq!(
        failure_of(Hardening::begin(Mode::Remove, &found)),
        Error::InvalidFormat(EMPTY_RANGE.to_string())
    );
    let found = DiscoveredMappings { vdso: Some(VDSO), vvar: Some(empty) };
    assert_eq!(
        failure_of(Hardening::begin(Mode::Replace, &found)),
        Error::InvalidFormat(EMPTY_RANGE.to_string())
    );
}

#[test]
fn begin_refuses_a_region_past_the_address_space() {
    let past = MemoryRegion { base_address: usize::MAX - 0xfff, size: 0x1001 };
    let found = DiscoveredMappings { vdso: Some(VDSO), vvar: Some(past) };
    assert_eq!(
        failure_of(Hardening::begin(Mode::Remove, &found)),
        Error::InvalidFormat(EMPTY_RANGE.to_string())
    );
}

#[test]
fn region_validity() {
    assert!(VDSO.is_valid());
    assert!(MemoryRegion { base_address: 0, size: 1 }.is_valid());
    assert!(MemoryRegion { base_address: 0, size: usize::MAX }.is_valid());
    assert!(MemoryRegion { base_address: usize::MAX - 1, size: 1 }.is_valid());
    assert!(!MemoryRegion { base_address: usize::MAX, size: 1 }.is_valid());
    assert!(!MemoryRegion { base_address: 1, size: usize::MAX }.is_valid());
    assert!(!MemoryRegion { base_address: 0x1000, size: 0 }.is_valid());
}

#[test]
fn begin_lays_out_what_was_found() {
    let found = DiscoveredMappings { vdso: Some(VDSO), vvar: Some(VVAR) };
    assert_eq!(
        steps_of(Hardening::begin(Mode::Remove, &found).unwrap()),
        vec![Step::Unmap(VDSO), Step::Unmap(VVAR)]
    );
    assert_eq!(
        steps_of(Hardening::begin(Mode::Replace, &found).unwrap()),
        vec![Step::Unmap(VDSO), Step::Unmap(VVAR), Step::Guard(VDSO), Step::Guard(VVAR)]
    );
}

#[test]
fn failed_first_unmap_ends_everything() {
    let hardening = remove_after_reading(BOTH).unwrap();
    assert_eq!(hardening.next_step(), Some(Step::Unmap(VDSO)));
    assert_eq!(failure_of(hardening.advance(usize::MAX, 22)), Error::IoError("munmap", 22));
}

#[test]
fn failed_second_unmap_ends_everything() {
    let hardening = replace_after_reading(BOTH).unwrap();
    let hardening = hardening.advance(0, 0).unwrap();
    assert_eq!(hardening.next_step(), Some(Step::Unmap(VVAR)));
    assert_eq!(failure_of(hardening.advance(usize::MAX, 12)), Error::IoError("munmap", 12));
}

#[test]
fn unmap_succeeds_only_on_zero() {
    let step = Step::Unmap(VDSO);
    assert_eq!(step.settle(0, 5), Ok(()));
    assert_eq!(step.settle(1, 5), Err(Error::IoError("munmap", 5)));
    assert_eq!(step.settle(VDSO.base_address, 5), Err(Error::IoError("munmap", 5)));
    assert_eq!(step.settle(usize::MAX, -1), Err(Error::IoError("munmap", -1)));
}

#[test]
fn guard_succeeds_only_at_the_region() {
    let step = Step::Guard(VDSO);
    assert_eq!(step.settle(VDSO.base_address, 5), Ok(()));
    assert_eq!(step.settle(usize::MAX, 12), Err(Error::IoError("mmap", 12)));
    assert_eq!(step.settle(0, 12), Err(Error::IoError("mmap", 12)));
    assert_eq!(step.settle(VVAR.base_address, 17), Err(Error::IoError("mmap", 17)));
}

#[test]
fn failed_guard_ends_everything() {
    let hardening = replace_after_reading(BOTH).unwrap();
    let hardening = hardening.advance(0, 0).unwrap();
    let hardening = hardening.advance(0, 0).unwrap();
    assert_eq!(hardening.next_step(), Some(Step::Guard(VDSO)));
    assert_eq!(failure_of(hardening.advance(usize::MAX, 17)), Error::IoError("mmap", 17));
}

#[test]
fn guard_placed_elsewhere_is_a_failure() {
    let hardening = replace_after_reading(BOTH).unwrap();
    let hardening = hardening.advance(0, 0).unwrap();
    let hardening = hardening.advance(0, 0).unwrap();
    let hardening = hardening.advance(VDSO.base_address, 0).unwrap();
    assert_eq!(hardening.next_step(), Some(Step::Guard(VVAR)));
    assert_eq!(
        failure_of(hardening.advance(VVAR.base_address + 0x1000, 0)),
        Error::IoError("mmap", 0)
    );
}

#[test]
fn report_with_no_call_left_changes_nothing() {
    let hardening = remove_after_reading(BOTH).unwrap();
    let hardening = hardening.advance(0, 0).unwrap();
    let hardening = hardening.advance(0, 0).unwrap();
    assert_eq!(hardening.next_step(), None);
    let hardening = hardening.advance(usize::MAX, 9).unwrap();
    assert_eq!(hardening.next_step(), None);
}

#[test]
fn asking_again_names_the_same_call() {
    let hardening = remove_after_reading(BOTH).unwrap();
    assert_eq!(hardening.next_step(), Some(Step::Unmap(VDSO)));
    assert_eq!(hardening.next_step(), Some(Step::Unmap(VDSO)));
}
