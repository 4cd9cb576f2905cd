use starry_modules::area::{MapArea, MemBackend, MemOp};
use starry_modules::flags::MappingFlags;
use starry_modules::memory_set::MemorySet;

const RW: usize = 0x3;
const R: usize = 0x1;

fn flags(bits: usize) -> MappingFlags {
    MappingFlags { bits }
}

/// (flags, frame) of the page at `vaddr`, if an area holds it.
fn page(ms: &MemorySet, vaddr: usize) -> Option<(usize, Option<usize>)> {
    for a in ms.areas.iter() {
        let end = a.vaddr + a.pages.len() * 0x1000;
        if a.vaddr <= vaddr && vaddr < end {
            return Some((a.flags.bits, a.pages[(vaddr - a.vaddr) / 0x1000]));
        }
    }
    None
}

fn spans(ms: &MemorySet) -> Vec<(usize, usize)> {
    let mut v: Vec<(usize, usize)> = ms.areas.iter().map(|a| (a.vaddr, a.vaddr + a.pages.len() * 0x1000)).collect();
    v.sort();
    v
}

#[test]
fn lazy_region_is_one_fault_mapping() {
    let mut ms = MemorySet::new_empty(0x1000);
    let ops = ms.new_region(0x1000, 0x2800, flags(RW), None, None);
    assert!(ops == vec![MemOp::MapFault { start: 0x1000, size: 0x3000 }]);
    assert_eq!(spans(&ms), vec![(0x1000, 0x4000)]);
    assert_eq!(page(&ms, 0x2000), Some((RW, None)));
    assert_eq!(page(&ms, 0x4000), None);
}

#[test]
fn allocated_region_maps_contiguous_frames() {
    let mut ms = MemorySet::new_empty(0x1000);
    let ops = ms.new_region(0x10000, 0x2000, flags(R), Some(0x8000_0000), None);
    assert!(ops == vec![MemOp::MapRegion { start: 0x10000, paddr: 0x8000_0000, size: 0x2000, flags: flags(R) }]);
    assert_eq!(page(&ms, 0x10000), Some((R, Some(0x8000_0000))));
    assert_eq!(page(&ms, 0x11fff), Some((R, Some(0x8000_1000))));
    assert_eq!(ms.max_va(), 0x12000);
}

#[test]
fn munmap_middle_splits_the_area() {
    let mut ms = MemorySet::new_empty(0x1000);
    ms.new_region(0x1000, 0x3000, flags(RW), Some(0x9000_0000), None);
    let ops = ms.munmap(0x2000, 0x1000);
    assert!(ops == vec![MemOp::Free { frame: 0x9000_1000 }, MemOp::Unmap { start: 0x2000, size: 0x1000 }]);
    assert_eq!(spans(&ms), vec![(0x1000, 0x2000), (0x3000, 0x4000)]);
    assert_eq!(page(&ms, 0x1000), Some((RW, Some(0x9000_0000))));
    assert_eq!(page(&ms, 0x2000), None);
    assert_eq!(page(&ms, 0x3000), Some((RW, Some(0x9000_2000))));
}

#[test]
fn munmap_rounds_size_up_and_drops_whole_areas() {
    let mut ms = MemorySet::new_empty(0x1000);
    ms.new_region(0x1000, 0x1000, flags(RW), None, None);
    ms.new_region(0x5000, 0x1000, flags(RW), None, None);
    let ops = ms.munmap(0x1000, 1);
    assert!(ops == vec![MemOp::Unmap { start: 0x1000, size: 0x1000 }]);
    assert_eq!(spans(&ms), vec![(0x5000, 0x6000)]);
}

#[test]
fn munmap_of_nothing_changes_nothing() {
    let mut ms = MemorySet::new_empty(0x1000);
    ms.new_region(0x1000, 0x1000, flags(RW), None, None);
    let ops = ms.munmap(0x8000, 0x2000);
    assert!(ops.is_empty());
    assert_eq!(spans(&ms), vec![(0x1000, 0x2000)]);
}

#[test]
fn mprotect_changes_only_the_range() {
    let mut ms = MemorySet::new_empty(0x1000);
    ms.new_region(0x1000, 0x3000, flags(RW), None, None);
    let ops = ms.mprotect(0x2000, 0x1000, flags(R));
    assert!(ops == vec![MemOp::FlushTlb, MemOp::Protect { start: 0x2000, size: 0x1000, flags: flags(R) }, MemOp::FlushTlb]);
    assert_eq!(spans(&ms), vec![(0x1000, 0x2000), (0x2000, 0x3000), (0x3000, 0x4000)]);
    assert_eq!(page(&ms, 0x1000), Some((RW, None)));
    assert_eq!(page(&ms, 0x2000), Some((R, None)));
    assert_eq!(page(&ms, 0x3000), Some((RW, None)));
}

#[test]
fn mprotect_whole_area_keeps_it_whole() {
    let mut ms = MemorySet::new_empty(0x1000);
    ms.new_region(0x1000, 0x2000, flags(RW), None, None);
    let ops = ms.mprotect(0x0, 0x10000, flags(R));
    assert!(ops == vec![MemOp::FlushTlb, MemOp::Protect { start: 0x1000, size: 0x2000, flags: flags(R) }, MemOp::FlushTlb]);
    assert_eq!(spans(&ms), vec![(0x1000, 0x3000)]);
    assert_eq!(page(&ms, 0x2000), Some((R, None)));
}

#[test]
fn find_free_area_skips_used_ranges() {
    let mut ms = MemorySet::new_empty(0x1000);
    ms.new_region(0x1000, 0x2000, flags(RW), None, None);
    ms.new_region(0x4000, 0x1000, flags(RW), None, None);
    assert_eq!(ms.find_free_area(0, 0x1000), Some(0x3000));
    assert_eq!(ms.find_free_area(0x1800, 0x1000), Some(0x3000));
    assert_eq!(ms.find_free_area(0x3000, 0x1000), Some(0x3000));
}

#[test]
fn find_free_area_starts_at_the_hint() {
    let mut ms = MemorySet::new_empty(0x1000);
    // Without segments the hint itself is free.
    assert_eq!(ms.find_free_area(0x5000, 0x1000), Some(0x5000));
    // Never below the lowest user address.
    assert_eq!(ms.find_free_area(0, 0x1000), Some(0x1000));
    ms.new_region(0x1000, 0x1000, flags(RW), None, None);
    ms.new_region(0x9000, 0x1000, flags(RW), None, None);
    // A segment below the hint does not pull the search down.
    assert_eq!(ms.find_free_area(0x5000, 0x1000), Some(0x5000));
    // A range that does not fit before the next segment goes after it.
    assert_eq!(ms.find_free_area(0x5000, 0x5000), Some(0xa000));
    // The space after the last segment counts.
    assert_eq!(ms.find_free_area(0, 0x8000), Some(0xa000));
    // A range that would run past the end of the address space is refused.
    assert_eq!(ms.find_free_area(usize::MAX - 0xfff, 0x2000), None);
}

#[test]
fn empty_range_changes_nothing() {
    let mut ms = MemorySet::new_empty(0x1000);
    ms.new_region(0x1000, 0x2000, flags(RW), Some(0x9000_0000), None);
    let ops = ms.split_for_area(0x1000, 0);
    assert!(ops.is_empty());
    assert_eq!(spans(&ms), vec![(0x1000, 0x3000)]);
    assert_eq!(page(&ms, 0x1000), Some((RW, Some(0x9000_0000))));
    let ops = ms.mprotect(0x2000, 0, flags(R));
    assert!(ops == vec![MemOp::FlushTlb, MemOp::FlushTlb]);
    assert_eq!(page(&ms, 0x2000), Some((RW, Some(0x9000_1000))));
    assert_eq!(spans(&ms), vec![(0x1000, 0x3000)]);
    let (at, ops) = ms.mmap(0x5000, 0, flags(R), true, None);
    assert_eq!(at, 0x5000);
    assert!(ops == vec![MemOp::MapFault { start: 0x5000, size: 0 }, MemOp::FlushTlb]);
    assert_eq!(spans(&ms), vec![(0x1000, 0x3000)]);
    // An empty range strictly inside an area cuts it in two, keeping every page.
    let ops = ms.munmap(0x2000, 0);
    assert!(ops == vec![MemOp::Unmap { start: 0x2000, size: 0 }]);
    assert_eq!(spans(&ms), vec![(0x1000, 0x2000), (0x2000, 0x3000)]);
    assert_eq!(page(&ms, 0x1000), Some((RW, Some(0x9000_0000))));
    assert_eq!(page(&ms, 0x2000), Some((RW, Some(0x9000_1000))));
    // At an area's start it changes nothing.
    let ops = ms.split_for_area(0x2000, 0);
    assert!(ops.is_empty());
    assert_eq!(spans(&ms), vec![(0x1000, 0x2000), (0x2000, 0x3000)]);
}

#[test]
fn mmap_anywhere_then_fixed() {
    let mut ms = MemorySet::new_empty(0x1000);
    ms.new_region(0x1000, 0x1000, flags(RW), None, None);
    let (none, no_ops) = ms.mmap(usize::MAX - 0xfff, 0x2000, flags(R), false, None);
    assert_eq!(none, -1);
    assert!(no_ops.is_empty());
    ms.new_region(0x10000, 0x1000, flags(RW), None, None);
    let (at, ops) = ms.mmap(0, 0x1800, flags(R), false, None);
    assert_eq!(at, 0x2000);
    assert!(ops == vec![MemOp::MapFault { start: 0x2000, size: 0x2000 }, MemOp::FlushTlb]);
    assert_eq!(page(&ms, 0x3000), Some((R, None)));
    let (at2, ops2) = ms.mmap(0x2000, 0x1000, flags(RW), true, None);
    assert_eq!(at2, 0x2000);
    assert!(
        ops2 == vec![
            MemOp::Unmap { start: 0x2000, size: 0x1000 },
            MemOp::MapFault { start: 0x2000, size: 0x1000 },
            MemOp::FlushTlb
        ]
    );
    assert_eq!(page(&ms, 0x2000), Some((RW, None)));
    assert_eq!(page(&ms, 0x3000), Some((R, None)));
}

#[test]
fn mmap_with_file_backend_keeps_positions() {
    let mut ms = MemorySet::new_empty(0x1000);
    let (at, _) = ms.mmap(0x20000, 0x3000, flags(R), true, Some(MemBackend::new(7, 0x100)));
    assert_eq!(at, 0x20000);
    ms.munmap(0x20000, 0x1000);
    let rest = ms.areas.iter().find(|a| a.vaddr == 0x21000).unwrap();
    let b = rest.backend.unwrap();
    assert_eq!(b.file, 7);
    assert_eq!(b.offset, 0x1100);
}

#[test]
fn page_fault_loads_one_page() {
    let mut ops: Vec<MemOp> = Vec::new();
    let mut area = MapArea::new_lazy(0x4000, 2, flags(RW), None, &mut ops);
    assert_eq!(area.page_fault_slot(0x5008, flags(R)), Some(1));
    assert_eq!(area.page_fault_slot(0x5008, flags(0x4)), None);
    area.install_page(1, 0xa000, &mut ops);
    assert_eq!(area.pages[1], Some(0xa000));
    assert_eq!(area.page_fault_slot(0x5008, flags(R)), None);
    assert!(ops[1] == MemOp::MapPage { vaddr: 0x5000, paddr: 0xa000, flags: flags(RW) });
}

#[test]
fn area_split_and_dealloc() {
    let mut ops: Vec<MemOp> = Vec::new();
    let mut area = MapArea::new_alloc(0x1000, 4, 0x7000_0000, flags(RW), None, &mut ops);
    let right = area.split(0x3000);
    assert_eq!(area.vaddr, 0x1000);
    assert_eq!(area.pages.len(), 2);
    assert_eq!(right.vaddr, 0x3000);
    assert_eq!(right.pages, vec![Some(0x7000_2000), Some(0x7000_3000)]);
    let mut ops2: Vec<MemOp> = Vec::new();
    area.dealloc(&mut ops2);
    assert!(
        ops2 == vec![
            MemOp::Unmap { start: 0x1000, size: 0x2000 },
            MemOp::Free { frame: 0x7000_0000 },
            MemOp::Free { frame: 0x7000_1000 }
        ]
    );
    assert!(area.pages.is_empty());
}

#[test]
fn area_range_predicates() {
    let mut ops: Vec<MemOp> = Vec::new();
    let area = MapArea::new_lazy(0x2000, 2, flags(R), None, &mut ops);
    assert!(area.overlap_with(0x3000, 0x5000));
    assert!(!area.overlap_with(0x4000, 0x5000));
    assert!(area.contained_in(0x1000, 0x4000));
    assert!(area.contains(0x2000, 0x3000));
    assert!(area.strict_contain(0x2800, 0x3000));
    assert!(!area.strict_contain(0x2000, 0x3000));
    assert!(!area.allocated());
}

use starry_modules::errors::AxError;
use starry_modules::memory_set::{lazy_range_pages, EntryQuery, SyncOp};

#[test]
fn page_fault_loads_into_the_right_area() {
    let mut ms = MemorySet::new_empty(0x1000);
    ms.new_region(0x1000, 0x1000, flags(R), None, None);
    ms.new_region(0x4000, 0x2000, flags(RW), None, None);
    assert_eq!(ms.find_area(0x5abc), Some(1));
    assert_eq!(ms.find_area(0x3000), None);
    assert_eq!(ms.page_fault_target(0x5abc, flags(0x2)), Ok((1, 1)));
    assert_eq!(ms.page_fault_target(0x1000, flags(0x2)), Err(AxError::BadAddress));
    let ops = ms.load_page(1, 1, 0xc000);
    assert!(ops == vec![MemOp::MapPage { vaddr: 0x5000, paddr: 0xc000, flags: flags(RW) }]);
    assert_eq!(page(&ms, 0x5000), Some((RW, Some(0xc000))));
    assert_eq!(ms.page_fault_target(0x5abc, flags(R)), Err(AxError::BadAddress));
}

#[test]
fn lazy_allocation_decisions() {
    let mut ms = MemorySet::new_empty(0x1000);
    ms.new_region(0x4000, 0x2000, flags(RW), None, None);
    assert_eq!(ms.lazy_alloc_target(0x9000, EntryQuery::Present), Err(AxError::InvalidInput));
    assert_eq!(ms.lazy_alloc_target(0x4000, EntryQuery::Invalid), Err(AxError::InvalidInput));
    assert_eq!(ms.lazy_alloc_target(0x4000, EntryQuery::Present), Ok(None));
    assert_eq!(ms.lazy_alloc_target(0x4008, EntryQuery::Absent { flags: MappingFlags::empty() }), Ok(Some((0, 0))));
    assert_eq!(ms.lazy_alloc_target(0x5008, EntryQuery::Absent { flags: flags(RW) }), Ok(Some((0, 1))));
    // An access the area does not allow, and a page already loaded.
    assert_eq!(ms.lazy_alloc_target(0x4008, EntryQuery::Absent { flags: flags(0x4) }), Err(AxError::BadAddress));
    ms.load_page(0, 0, 0xa000);
    assert_eq!(ms.lazy_alloc_target(0x4008, EntryQuery::Absent { flags: flags(R) }), Err(AxError::BadAddress));
    assert_eq!(lazy_range_pages(0x4010, 0x5ff0), Ok(vec![0x4000, 0x5000]));
    assert_eq!(lazy_range_pages(0x4010, 0x4020), Ok(vec![0x4000]));
    assert_eq!(lazy_range_pages(0x5000, 0x4000), Err(AxError::InvalidInput));
}

#[test]
fn msync_writes_back_loaded_file_pages() {
    let mut ms = MemorySet::new_empty(0x1000);
    ms.new_region(0x4000, 0x3000, flags(RW), None, Some(MemBackend::new(9, 0x2000)));
    ms.new_region(0x8000, 0x1000, flags(RW), Some(0xd000), None);
    ms.load_page(0, 0, 0xa000);
    ms.load_page(0, 2, 0xb000);
    let w = ms.msync(0x4000, 0x5000);
    assert_eq!(w, vec![SyncOp { frame: 0xa000, file: 9, pos: 0 }, SyncOp { frame: 0xb000, file: 9, pos: 0x2000 }]);
    assert_eq!(ms.msync(0x5000, 0x1000), vec![]);
}

#[test]
fn unmapping_everything() {
    let mut ms = MemorySet::new_empty(0x1000);
    ms.new_region(0x1000, 0x1000, flags(R), Some(0xe000), None);
    ms.new_region(0x4000, 0x1000, flags(R), None, None);
    let ops = ms.unmap_user_areas();
    assert!(
        ops == vec![
            MemOp::Unmap { start: 0x1000, size: 0x1000 },
            MemOp::Free { frame: 0xe000 },
            MemOp::Unmap { start: 0x4000, size: 0x1000 }
        ]
    );
    assert!(ms.areas.is_empty());
}

#[test]
fn cloning_copies_every_loaded_page() {
    let mut ms = MemorySet::new_empty(0x1000);
    ms.new_region(0x1000, 0x2000, flags(R), Some(0xe000), None);
    ms.new_region(0x4000, 0x3000, flags(RW), None, None);
    ms.load_page(1, 1, 0xa000);
    let op = ms.attach_shared_mem(3, 0x20000, 0x9000, 0x1000, flags(RW));
    assert!(op == MemOp::MapRegion { start: 0x9000, paddr: 0x20000, size: 0x1000, flags: flags(RW) });
    let (copy, ops) = ms.clone_areas(&vec![vec![0x30000], vec![0x40000]]);
    assert!(
        ops == vec![
            MemOp::CopyFromVirt { vaddr: 0x1000, paddr: 0x30000, size: 0x2000 },
            MemOp::MapRegion { start: 0x1000, paddr: 0x30000, size: 0x2000, flags: flags(R) },
            MemOp::MapFault { start: 0x4000, size: 0x1000 },
            MemOp::CopyFrame { from: 0xa000, to: 0x40000 },
            MemOp::MapPage { vaddr: 0x5000, paddr: 0x40000, flags: flags(RW) },
            MemOp::MapFault { start: 0x6000, size: 0x1000 },
            MemOp::MapRegion { start: 0x9000, paddr: 0x20000, size: 0x1000, flags: flags(RW) }
        ]
    );
    assert_eq!(page(&copy, 0x2000), Some((R, Some(0x31000))));
    assert_eq!(page(&copy, 0x5000), Some((RW, Some(0x40000))));
    assert_eq!(page(&copy, 0x6000), Some((RW, None)));
    assert_eq!(copy.attached.len(), 1);
    assert_eq!(copy.attached[0].shmid, 3);
}

#[test]
fn areas_are_walked_by_address() {
    let mut ms = MemorySet::new_empty(0x1000);
    ms.new_region(0x8000, 0x1000, flags(R), Some(0xa000), None);
    ms.new_region(0x1000, 0x1000, flags(R), Some(0xb000), None);
    assert_eq!(ms.areas[0].vaddr, 0x1000);
    assert_eq!(ms.areas[1].vaddr, 0x8000);
    let ops = ms.munmap(0, 0x10000);
    assert!(
        ops == vec![
            MemOp::Unmap { start: 0x1000, size: 0x1000 },
            MemOp::Free { frame: 0xb000 },
            MemOp::Unmap { start: 0x8000, size: 0x1000 },
            MemOp::Free { frame: 0xa000 }
        ]
    );
    assert_eq!(ms.max_va(), 0);
}

#[test]
fn empty_mprotect_changes_nothing() {
    let mut ms = MemorySet::new_empty(0x1000);
    ms.new_region(0x1000, 0x2000, flags(RW), None, None);
    let ops = ms.mprotect(0x4000, 0, flags(R));
    assert!(ops == vec![MemOp::FlushTlb, MemOp::FlushTlb]);
    assert_eq!(page(&ms, 0x1000), Some((RW, None)));
}

#[test]
fn munmap_undoes_mmap_on_a_free_range() {
    let mut ms = MemorySet::new_empty(0x1000);
    ms.new_region(0x1000, 0x1000, flags(R), Some(0xa000), None);
    let before = spans(&ms);
    ms.mmap(0x5000, 0x2000, flags(RW), true, None);
    assert_eq!(page(&ms, 0x6000), Some((RW, None)));
    ms.munmap(0x5000, 0x2000);
    assert_eq!(spans(&ms), before);
    assert_eq!(page(&ms, 0x1000), Some((R, Some(0xa000))));
    assert_eq!(page(&ms, 0x5000), None);
}

#[test]
fn file_position_of_a_page() {
    let mut ms = MemorySet::new_empty(0x1000);
    ms.new_region(0x4000, 0x3000, flags(RW), None, Some(MemBackend::new(9, 0x2000)));
    ms.new_region(0x8000, 0x1000, flags(RW), None, None);
    assert_eq!(ms.areas[0].file_position(0), Some((9, 0x2000)));
    assert_eq!(ms.areas[0].file_position(2), Some((9, 0x4000)));
    assert_eq!(ms.areas[1].file_position(0), None);
}
