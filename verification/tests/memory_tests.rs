use deepcis_os::boot_info::{MemoryRegion, MemoryRegionKind};
use deepcis_os::error::ErrorKind;
use deepcis_os::memory::{gib, kib, mib, BitmapMemoryManager, FrameRange, BYTES_PER_FRAME};
use deepcis_os::memory_regions::MemoryRegions;

fn region(start: u64, end: u64, kind: MemoryRegionKind) -> MemoryRegion {
    MemoryRegion { start, end, kind }
}

const F: u64 = BYTES_PER_FRAME;

#[test]
fn units_are_powers_of_1024() {
    assert_eq!(kib(1), 1024);
    assert_eq!(kib(4), 4096);
    assert_eq!(mib(1), 1024 * 1024);
    assert_eq!(mib(3), 3 * 1024 * 1024);
    assert_eq!(gib(1), 1024 * 1024 * 1024);
    assert_eq!(gib(128), 128 * 1024 * 1024 * 1024);
    assert_eq!(BYTES_PER_FRAME, kib(4));
}

#[test]
fn new_manager_has_nothing_allocated_and_no_range() {
    let mut m = BitmapMemoryManager::new();
    assert!(!m.get_bit(0));
    assert!(!m.get_bit(100 * F));
    assert_eq!(m.allocate(1).unwrap_err().kind, ErrorKind::NoEnoughMemory);
    assert_eq!(m.allocate(0).unwrap(), FrameRange { start: 0, end: 0 });
}

#[test]
fn set_bit_then_get_bit() {
    let mut m = BitmapMemoryManager::new();
    m.set_bit(5 * F, true);
    assert!(m.get_bit(5 * F));
    assert!(!m.get_bit(4 * F));
    assert!(!m.get_bit(6 * F));
    m.set_bit(64 * F, true);
    assert!(m.get_bit(64 * F));
    assert!(m.get_bit(5 * F));
    m.set_bit(5 * F, false);
    assert!(!m.get_bit(5 * F));
    assert!(m.get_bit(64 * F));
}

fn manager_with_usable(start: u64, end: u64) -> BitmapMemoryManager {
    let mut m = BitmapMemoryManager::new();
    let regions = [region(start, end, MemoryRegionKind::Usable)];
    m.init(&regions).unwrap();
    m
}

#[test]
fn init_marks_gaps_and_unusable_regions() {
    let mut m = BitmapMemoryManager::new();
    let regions = [
        region(2 * F, 10 * F, MemoryRegionKind::Usable),
        region(10 * F, 12 * F, MemoryRegionKind::Bootloader),
        region(14 * F, 20 * F, MemoryRegionKind::Usable),
    ];
    m.init(&regions).unwrap();
    // the gap below the first region
    assert!(m.get_bit(0));
    assert!(m.get_bit(F));
    // usable memory stays free
    assert!(!m.get_bit(2 * F));
    assert!(!m.get_bit(9 * F));
    // the bootloader region and the gap after it
    for i in 10..14 {
        assert!(m.get_bit(i * F));
    }
    assert!(!m.get_bit(14 * F));
    assert!(!m.get_bit(19 * F));
    // the managed range ends at the end of the last usable region
    let r = m.allocate(6).unwrap();
    assert_eq!(r, FrameRange { start: 2 * F, end: 8 * F });
    let r = m.allocate(3).unwrap();
    assert_eq!(r, FrameRange { start: 14 * F, end: 17 * F });
    let r = m.allocate(3).unwrap();
    assert_eq!(r, FrameRange { start: 17 * F, end: 20 * F });
    assert_eq!(m.allocate(3).unwrap_err().kind, ErrorKind::NoEnoughMemory);
    let r = m.allocate(2).unwrap();
    assert_eq!(r, FrameRange { start: 8 * F, end: 10 * F });
}

#[test]
fn init_fails_on_unaligned_region_keeping_earlier_marks() {
    let mut m = BitmapMemoryManager::new();
    let regions = [
        region(0, 4 * F, MemoryRegionKind::UnknownBios(3)),
        region(4 * F + 1, 8 * F, MemoryRegionKind::Usable),
        region(8 * F, 9 * F, MemoryRegionKind::Bootloader),
    ];
    let e = m.init(&regions).unwrap_err();
    assert_eq!(e.kind, ErrorKind::AddressNotAligned);
    assert!(m.get_bit(0));
    assert!(m.get_bit(3 * F));
    assert!(!m.get_bit(8 * F));
    // the range was not taken over
    assert_eq!(m.allocate(1).unwrap_err().kind, ErrorKind::NoEnoughMemory);
}

#[test]
fn init_fails_on_unaligned_end() {
    let mut m = BitmapMemoryManager::new();
    let regions = [region(0, 4 * F + 8, MemoryRegionKind::Usable)];
    assert_eq!(m.init(&regions).unwrap_err().kind, ErrorKind::AddressNotAligned);
}

#[test]
fn allocate_takes_the_lowest_free_run() {
    let mut m = manager_with_usable(0, 32 * F);
    m.mark_allocated(FrameRange { start: 2 * F, end: 3 * F });
    m.mark_allocated(FrameRange { start: 6 * F, end: 7 * F });
    // frames 0..2 are too short for 3, 3..6 fits
    assert_eq!(m.allocate(3).unwrap(), FrameRange { start: 3 * F, end: 6 * F });
    assert_eq!(m.allocate(2).unwrap(), FrameRange { start: 0, end: 2 * F });
    assert_eq!(m.allocate(5).unwrap(), FrameRange { start: 7 * F, end: 12 * F });
    for i in 0..12 {
        assert!(m.get_bit(i * F));
    }
    assert!(!m.get_bit(12 * F));
}

#[test]
fn allocation_sequence_of_the_kernel() {
    let mut m = manager_with_usable(0x1000, 0x100000);
    let a = m.allocate(3).unwrap();
    let b = m.allocate(5).unwrap();
    let c = m.allocate(4).unwrap();
    let d = m.allocate(3).unwrap();
    assert_eq!(a, FrameRange { start: 0x1000, end: 0x4000 });
    assert_eq!(b, FrameRange { start: 0x4000, end: 0x9000 });
    assert_eq!(c, FrameRange { start: 0x9000, end: 0xd000 });
    assert_eq!(d, FrameRange { start: 0xd000, end: 0x10000 });
}

#[test]
fn allocate_fails_when_no_run_is_long_enough() {
    let mut m = manager_with_usable(0, 8 * F);
    m.mark_allocated(FrameRange { start: 4 * F, end: 5 * F });
    let e = m.allocate(5).unwrap_err();
    assert_eq!(e.kind, ErrorKind::NoEnoughMemory);
    // nothing changed
    assert!(!m.get_bit(0));
    assert!(m.get_bit(4 * F));
    assert_eq!(m.allocate(4).unwrap(), FrameRange { start: 0, end: 4 * F });
}

#[test]
fn free_undoes_allocate() {
    let mut m = manager_with_usable(0, 16 * F);
    m.set_bit(9 * F, true);
    let r = m.allocate(4).unwrap();
    for i in 0..4 {
        assert!(m.get_bit(i * F));
    }
    m.free(r);
    for i in 0..16 {
        assert_eq!(m.get_bit(i * F), i == 9);
    }
    assert_eq!(m.allocate(4).unwrap(), r);
}

#[test]
fn successive_allocations_are_disjoint() {
    let mut m = manager_with_usable(0, 64 * F);
    let r1 = m.allocate(7).unwrap();
    let r2 = m.allocate(9).unwrap();
    assert!(r1.end <= r2.start || r2.end <= r1.start);
}

#[test]
fn allocate_frame_gives_single_frames() {
    let mut m = manager_with_usable(3 * F, 5 * F);
    assert_eq!(m.allocate_frame(), Some(3 * F));
    assert_eq!(m.allocate_frame(), Some(4 * F));
    assert_eq!(m.allocate_frame(), None);
    m.free(FrameRange { start: 3 * F, end: 4 * F });
    assert_eq!(m.allocate_frame(), Some(3 * F));
}

#[test]
fn free_of_an_empty_or_reversed_range_changes_nothing() {
    let mut m = manager_with_usable(0, 4 * F);
    m.mark_allocated(FrameRange { start: 0, end: 4 * F });
    m.free(FrameRange { start: 3 * F, end: F });
    for i in 0..4 {
        assert!(m.get_bit(i * F));
    }
}

#[test]
fn memory_regions_merge_adjacent_runs_of_one_kind() {
    let regions = [
        region(0, 0x1000, MemoryRegionKind::Bootloader),
        region(0x1000, 0x5000, MemoryRegionKind::Usable),
        region(0x5000, 0x9000, MemoryRegionKind::Usable),
        region(0x9000, 0xa000, MemoryRegionKind::Usable),
        region(0xb000, 0xc000, MemoryRegionKind::Usable),
        region(0xc000, 0xd000, MemoryRegionKind::UnknownUefi(7)),
        region(0xd000, 0xe000, MemoryRegionKind::UnknownUefi(8)),
    ];
    let mut it = MemoryRegions::new(&regions);
    assert_eq!(it.next(), Some(region(0, 0x1000, MemoryRegionKind::Bootloader)));
    assert_eq!(it.next(), Some(region(0x1000, 0xa000, MemoryRegionKind::Usable)));
    assert_eq!(it.next(), Some(region(0xb000, 0xc000, MemoryRegionKind::Usable)));
    assert_eq!(it.next(), Some(region(0xc000, 0xd000, MemoryRegionKind::UnknownUefi(7))));
    assert_eq!(it.next(), Some(region(0xd000, 0xe000, MemoryRegionKind::UnknownUefi(8))));
    assert_eq!(it.next(), None);
    assert_eq!(it.next(), None);
}

#[test]
fn memory_regions_of_an_empty_map() {
    let regions: [MemoryRegion; 0] = [];
    let mut it = MemoryRegions::new(&regions);
    assert_eq!(it.next(), None);
}

#[test]
fn init_fails_on_unaligned_region_past_the_bitmap() {
    let mut m = BitmapMemoryManager::new();
    // A misaligned region far past the bitmap, and one after it that is
    // never read: the alignment fault is reported.
    let regions = [
        region(0, 4 * F, MemoryRegionKind::Bootloader),
        region(0x1_0000_0001, 0x2_0000_0000, MemoryRegionKind::Usable),
        region(0xf_0000_0000_0000, 0xf_0000_0000_1000, MemoryRegionKind::Usable),
    ];
    assert_eq!(m.init(&regions).unwrap_err().kind, ErrorKind::AddressNotAligned);
    assert!(m.get_bit(3 * F));
    assert!(!m.get_bit(4 * F));
}
