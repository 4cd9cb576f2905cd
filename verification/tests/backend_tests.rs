use starry_modules::backend::{
    check_file_flags, cow_fault_start, cow_share_page, cow_unmap_page, evicted_vaddr, file_page_number,
    file_populate_plan, file_populate_step, offset_page, without_write, CowBackend, FileAccess, FileRange, FileStep, PageQuery, PopulateStep,
};
use starry_modules::errors::{AxError, LinuxError};
use starry_modules::flags::MappingFlags;
use starry_modules::frame_table::FrameInfoTable;

const R: MappingFlags = MappingFlags { bits: 1 };
const W: MappingFlags = MappingFlags { bits: 2 };
const RW: MappingFlags = MappingFlags { bits: 3 };

#[test]
fn shared_frame_is_copied_once() {
    let mut t = FrameInfoTable::new(0x8000_0000, 2);
    let b = CowBackend::new_alloc(0x1000, 0x1000);
    b.take_new_frame(&mut t, 0x8000_0000);
    let f = cow_share_page(&mut t, 0x8000_0000, RW);
    assert!(f == R);
    // first writer copies
    assert!(cow_fault_start(&mut t, 0x8000_0000));
    // the other is now the only holder and keeps the frame
    assert!(!cow_fault_start(&mut t, 0x8000_0000));
    assert!(cow_unmap_page(&mut t, 0x8000_0000));
}

#[test]
fn read_only_mappings_do_not_count_frames() {
    let mut t = FrameInfoTable::new(0, 1);
    let b = CowBackend::new_cow(0, 0x1000, None, true);
    b.take_new_frame(&mut t, 0);
    assert_eq!(t.dec_ref(0), 0);
}

#[test]
fn cow_populate_steps() {
    let b = CowBackend::new_alloc(0x1000, 0x1000);
    assert_eq!(b.populate_step(PageQuery::Mapped { paddr: 0x5000, flags: R }, W), Ok(PopulateStep::CowFault { paddr: 0x5000 }));
    assert_eq!(b.populate_step(PageQuery::Mapped { paddr: 0x5000, flags: R }, R), Ok(PopulateStep::Keep));
    assert_eq!(b.populate_step(PageQuery::Mapped { paddr: 0x5000, flags: RW }, W), Ok(PopulateStep::Keep));
    assert_eq!(b.populate_step(PageQuery::NotMapped, R), Ok(PopulateStep::AllocNew));
    assert_eq!(b.populate_step(PageQuery::Failed, R), Err(LinuxError::EFAULT));
}

#[test]
fn file_windows_of_new_frames() {
    let b = CowBackend::new_cow(0x1800, 0x1000, Some(FileRange { file: 3, start: 100, end: Some(5000) }), false);
    // the page below the unaligned start: the first 0x800 bytes stay zero
    assert_eq!(b.file_window(0x1000), Some((0x800, 100, 0x800)));
    // a later page reads from further in the file, up to the end of the range
    assert_eq!(b.file_window(0x2800), Some((0, 100 + 0x1000, 5000 - 100 - 0x1000)));
    // past the end of the range nothing is read
    assert_eq!(b.file_window(0x4800), Some((0, 100 + 0x3000, 0)));
    let anon = CowBackend::new_alloc(0x1000, 0x1000);
    assert_eq!(anon.file_window(0x1000), None);
    let unbounded = CowBackend::new_cow(0x1000, 0x1000, Some(FileRange { file: 1, start: 0, end: None }), true);
    assert_eq!(unbounded.file_window(0x1000), Some((0, 0, 0x1000)));
}

#[test]
fn file_mapping_rights() {
    assert_eq!(check_file_flags(RW, FileAccess { read: true, write: true }), Ok(()));
    assert_eq!(check_file_flags(RW, FileAccess { read: true, write: false }), Err(AxError::PermissionDenied));
    assert_eq!(check_file_flags(R, FileAccess { read: true, write: false }), Ok(()));
    assert_eq!(check_file_flags(MappingFlags::empty(), FileAccess { read: false, write: false }), Ok(()));
    assert_eq!(check_file_flags(R, FileAccess { read: false, write: true }), Err(AxError::PermissionDenied));
}

#[test]
fn file_page_numbers() {
    assert_eq!(offset_page(0x3fff), 3);
    assert_eq!(file_page_number(0x5000, 0x1000, 2, 1), 7);
    assert_eq!(evicted_vaddr(7, 2, 0x1000), Some(0x6000));
    assert_eq!(evicted_vaddr(1, 2, 0x1000), None);
}

#[test]
fn file_populate_steps() {
    assert!(file_populate_step(PageQuery::NotMapped, R, RW, false) == Ok(FileStep::MapCached { flags: R }));
    assert!(file_populate_step(PageQuery::NotMapped, R, RW, true) == Ok(FileStep::MapCached { flags: RW }));
    assert!(
        file_populate_step(PageQuery::Mapped { paddr: 0x9000, flags: R }, W, RW, false)
            == Ok(FileStep::Remap { paddr: 0x9000, flags: RW, mark_dirty: true })
    );
    assert!(file_populate_step(PageQuery::Mapped { paddr: 0x9000, flags: RW }, W, RW, false) == Ok(FileStep::Keep));
    assert!(file_populate_step(PageQuery::Failed, R, RW, false) == Err(AxError::BadAddress));
    assert!(without_write(MappingFlags { bits: 0x13 }) == MappingFlags { bits: 0x11 });
}

#[test]
fn file_populate_counts_mapped_pages() {
    let qs = vec![
        PageQuery::NotMapped,
        PageQuery::Mapped { paddr: 0x9000, flags: RW },
        PageQuery::Mapped { paddr: 0xa000, flags: R },
    ];
    let (steps, n, err) = file_populate_plan(&qs, W, RW, false);
    assert!(
        steps
            == vec![
                FileStep::MapCached { flags: R },
                FileStep::Keep,
                FileStep::Remap { paddr: 0xa000, flags: RW, mark_dirty: true },
            ]
    );
    assert_eq!(n, 2);
    assert!(err.is_none());
}

#[test]
fn file_populate_stops_at_a_failed_lookup() {
    let qs = vec![PageQuery::NotMapped, PageQuery::Failed, PageQuery::NotMapped];
    let (steps, n, err) = file_populate_plan(&qs, R, RW, true);
    assert!(steps == vec![FileStep::MapCached { flags: RW }]);
    assert_eq!(n, 1);
    assert_eq!(err, Some(AxError::BadAddress));
}

#[test]
fn cow_populate_counts_faults_and_new_pages() {
    let b = CowBackend::new_alloc(0x1000, 0x1000);
    let qs = vec![
        PageQuery::Mapped { paddr: 0x5000, flags: R },
        PageQuery::NotMapped,
        PageQuery::Mapped { paddr: 0x6000, flags: RW },
    ];
    let (steps, n, err) = b.populate_plan(&qs, W);
    assert_eq!(steps, vec![PopulateStep::CowFault { paddr: 0x5000 }, PopulateStep::AllocNew, PopulateStep::Keep]);
    assert_eq!(n, 2);
    assert_eq!(err, None);
    let (steps, n, err) = b.populate_plan(&vec![PageQuery::NotMapped, PageQuery::Failed], R);
    assert_eq!(steps, vec![PopulateStep::AllocNew]);
    assert_eq!(n, 1);
    assert_eq!(err, Some(LinuxError::EFAULT));
}
