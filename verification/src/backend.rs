use vstd::prelude::*;

use crate::errors::{AxError, LinuxError};
use crate::flags::{MappingFlags, PAGE_SIZE_4K};
use crate::frame_table::FrameInfoTable;

verus! {

/// What a page-table lookup of one page found.
#[derive(Clone, Copy, PartialEq, Eq, Structural)]
pub enum PageQuery {
    Mapped { paddr: usize, flags: MappingFlags },
    NotMapped,
    /// The lookup failed for another reason.
    Failed,
}

/// `flags` without the write permission.
pub fn without_write(flags: MappingFlags) -> (r: MappingFlags)
    ensures
        r.bits == flags.bits & !2usize,
{
    MappingFlags { bits: flags.bits & !2usize }
}

/// The part of a file that a copy-on-write mapping starts from: the file,
/// the position that the mapping's start corresponds to, and where the
/// readable part of the file ends, if anywhere.
#[derive(Clone, Copy, PartialEq, Eq, Structural)]
pub struct FileRange {
    pub file: usize,
    pub start: u64,
    pub end: Option<u64>,
}

/// A copy-on-write mapping (private mappings): frames are shared between
/// address spaces until one writes, and counted in the frame table.
#[derive(Clone, Copy, PartialEq, Eq, Structural)]
pub struct CowBackend {
    pub start: usize,
    pub page_size: usize,
    pub file: Option<FileRange>,
    pub read_only: bool,
}

/// What populating one page of a copy-on-write mapping does.
#[derive(Clone, Copy, Debug, PartialEq, Eq, Structural)]
pub enum PopulateStep {
    /// Nothing: the page is there and the access is allowed.
    Keep,
    /// A write to a shared page: resolve the copy-on-write fault on the
    /// frame at `paddr`.
    CowFault { paddr: usize },
    /// The page is not mapped: allocate and map a new frame.
    AllocNew,
}

/// A write access to a page that is mapped without write permission.
pub open spec fn write_fault(query: PageQuery, access: MappingFlags) -> bool {
    query matches PageQuery::Mapped { flags, .. } && access.has(MappingFlags { bits: 2 }) && !flags.has(
        MappingFlags { bits: 2 },
    )
}

/// What populating one page of a copy-on-write mapping does for an access
/// with `access` flags, when the lookup found `query`: a write fault is
/// resolved by copy-on-write, a page not mapped gets a new frame, a mapped
/// page stays, and a failed lookup is `EFAULT`.
pub open spec fn cow_step(query: PageQuery, access: MappingFlags) -> Result<PopulateStep, LinuxError> {
    match query {
        PageQuery::Mapped { paddr, flags } => if access.has(MappingFlags { bits: 2 }) && !flags.has(
            MappingFlags { bits: 2 },
        ) {
            Ok::<PopulateStep, LinuxError>(PopulateStep::CowFault { paddr })
        } else {
            Ok(PopulateStep::Keep)
        },
        PageQuery::NotMapped => Ok(PopulateStep::AllocNew),
        PageQuery::Failed => Err(LinuxError::EFAULT),
    }
}

/// How many of the steps fault or map a page: all but `Keep`.
pub open spec fn cow_work(s: Seq<PopulateStep>) -> nat
    decreases s.len(),
{
    if s.len() == 0 {
        0
    } else {
        cow_work(s.drop_last()) + if s.last() is Keep {
            0nat
        } else {
            1nat
        }
    }
}

/// No lookup before the `i`-th failed.
pub open spec fn none_failed_before(queries: Seq<PageQuery>, i: int) -> bool {
    forall|j: int| 0 <= j < i ==> cow_step(#[trigger] queries[j], MappingFlags { bits: 0 }) is Ok
}

/// The counts after a copy-on-write fault on frame `i`, and whether the
/// page must be copied: the faulting space drops its reference; when it
/// was the only one, it keeps the frame and takes its reference back.
pub open spec fn cow_fault_counts(c: Seq<u8>, i: int) -> (bool, Seq<u8>) {
    if c[i] == 1 {
        (false, c)
    } else {
        (true, c.update(i, (c[i] - 1) as u8))
    }
}

impl CowBackend {
    pub fn new_cow(start: usize, page_size: usize, file: Option<FileRange>, read_only: bool) -> (r: CowBackend)
        ensures
            r == (CowBackend { start, page_size, file, read_only }),
    {
        CowBackend { start, page_size, file, read_only }
    }

    /// Anonymous memory: a writable copy-on-write mapping without a file.
    pub fn new_alloc(start: usize, page_size: usize) -> (r: CowBackend)
        ensures
            r == (CowBackend { start, page_size, file: None, read_only: false }),
    {
        Self::new_cow(start, page_size, None, false)
    }

    /// Where the data of a new frame for the page at `vaddr` comes from:
    /// the offset in the frame to fill from (the gap below the mapping's
    /// start stays zero), the file position, and how many bytes to read,
    /// limited by the frame and by the end of the file range. `None`
    /// without a file.
    pub fn file_window(&self, vaddr: usize) -> (r: Option<(usize, u64, usize)>)
        requires
            self.page_size <= u64::MAX,
            (if self.start > vaddr { self.start - vaddr } else { 0 }) < self.page_size,
            self.file matches Some(f) ==> f.start + (if vaddr > self.start { vaddr - self.start } else { 0 })
                <= u64::MAX,
        ensures
            self.file is None ==> r is None,
            self.file matches Some(f) ==> ({
                let gap: int = if self.start > vaddr { self.start - vaddr } else { 0 };
                let pos: int = f.start + (if vaddr > self.start { vaddr - self.start } else { 0 });
                let left: int = match f.end {
                    Some(e) => if e > pos { e - pos } else { 0 },
                    None => u64::MAX as int,
                };
                let room: int = self.page_size - gap;
                r == Some((gap as usize, pos as u64, (if left < room { left } else { room }) as usize))
            }),
    {
        match self.file {
            None => None,
            Some(f) => {
                let gap = self.start.saturating_sub(vaddr);
                let pos = f.start + vaddr.saturating_sub(self.start) as u64;
                let left: u64 = match f.end {
                    Some(e) => e.saturating_sub(pos),
                    None => u64::MAX,
                };
                let room = (self.page_size - gap) as u64;
                let len = if left < room {
                    left
                } else {
                    room
                };
                Some((gap, pos, len as usize))
            },
        }
    }

    /// Takes the reference of a writable mapping to a newly allocated frame.
    pub fn take_new_frame(&self, table: &mut FrameInfoTable, frame: usize)
        requires
            old(table).covers(frame),
            old(table)@[old(table).index_of(frame)] < 255,
        ensures
            final(table).base() == old(table).base(),
            self.read_only ==> final(table)@ == old(table)@,
            !self.read_only ==> final(table)@ == old(table)@.update(
                old(table).index_of(frame),
                (old(table)@[old(table).index_of(frame)] + 1) as u8,
            ),
    {
        if !self.read_only {
            table.inc_ref(frame);
        }
    }

    /// What populating a page that the lookup found as `query` does, for an
    /// access with `access` flags. A write to a mapped page that is not
    /// writable is a copy-on-write fault; a page that is not mapped gets a
    /// new frame; a failed lookup is `EFAULT`.
    pub fn populate_step(&self, query: PageQuery, access: MappingFlags) -> (r: Result<PopulateStep, LinuxError>)
        requires
            write_fault(query, access) ==> !self.read_only,
        ensures
            r == cow_step(query, access),
    {
        match query {
            PageQuery::Mapped { paddr, flags } => {
                if access.contains(MappingFlags::WRITE()) && !flags.contains(MappingFlags::WRITE()) {
                    Ok(PopulateStep::CowFault { paddr })
                } else {
                    Ok(PopulateStep::Keep)
                }
            },
            PageQuery::NotMapped => Ok(PopulateStep::AllocNew),
            PageQuery::Failed => Err(LinuxError::EFAULT),
        }
    }

    /// Populating the pages of the mapping, whose lookups found `queries`
    /// in order: the step for each page up to the first failed lookup, how
    /// many pages those steps fault or map, and `EFAULT` if a lookup failed
    /// (the pages before it are populated all the same).
    pub fn populate_plan(&self, queries: &Vec<PageQuery>, access: MappingFlags) -> (r: (
        Vec<PopulateStep>,
        usize,
        Option<LinuxError>,
    ))
        requires
            forall|i: int|
                0 <= i < queries@.len() && none_failed_before(queries@, i) && write_fault(
                    #[trigger] queries@[i],
                    access,
                ) ==> !self.read_only,
        ensures
            r.0@.len() <= queries@.len(),
            forall|i: int|
                0 <= i < r.0@.len() ==> cow_step(queries@[i], access) == Ok::<PopulateStep, LinuxError>(
                    #[trigger] r.0@[i],
                ),
            r.0@.len() < queries@.len() ==> queries@[r.0@.len() as int] == PageQuery::Failed && r.2 == Some(
                LinuxError::EFAULT,
            ),
            r.0@.len() == queries@.len() ==> r.2 is None,
            r.1 == cow_work(r.0@),
    {
        let mut steps: Vec<PopulateStep> = Vec::new();
        let mut count: usize = 0;
        let mut i: usize = 0;
        while i < queries.len()
            invariant
                i <= queries@.len(),
                steps@.len() == i,
                forall|j: int|
                    0 <= j < i ==> cow_step(queries@[j], access) == Ok::<PopulateStep, LinuxError>(
                        #[trigger] steps@[j],
                    ),
                none_failed_before(queries@, i as int),
                count == cow_work(steps@),
                count <= i,
                forall|k: int|
                    0 <= k < queries@.len() && none_failed_before(queries@, k) && write_fault(
                        #[trigger] queries@[k],
                        access,
                    ) ==> !self.read_only,
            decreases queries@.len() - i,
        {
            let q = queries[i];
            if let PageQuery::Failed = q {
                return (steps, count, Some(LinuxError::EFAULT));
            }
            let step = match self.populate_step(q, access) {
                Ok(step) => step,
                Err(e) => {
                    return (steps, count, Some(e));
                },
            };
            let keep = match step {
                PopulateStep::Keep => true,
                _ => false,
            };
            let ghost before = steps@;
            steps.push(step);
            proof {
                assert(steps@.drop_last() =~= before);
                assert forall|j: int|
                    0 <= j < i + 1 implies cow_step(queries@[j], access) == Ok::<PopulateStep, LinuxError>(
                        #[trigger] steps@[j],
                    ) by {
                    if j < i {
                        assert(steps@[j] == before[j]);
                    }
                }
                assert forall|j: int| 0 <= j < i + 1 implies cow_step(#[trigger] queries@[j], MappingFlags { bits: 0 }) is Ok by {
                    if j < i {
                    } else {
                        assert(queries@[j] == q);
                    }
                }
            }
            if !keep {
                count = count + 1;
            }
            i = i + 1;
        }
        (steps, count, None)
    }
}

/// Starts resolving a copy-on-write fault on the frame at `paddr`: drops the
/// faulting space's reference and returns whether the page must be copied
/// to a new frame. When the space was the only one holding the frame, it
/// keeps it (its reference is taken back) and only the permission changes.
pub fn cow_fault_start(table: &mut FrameInfoTable, paddr: usize) -> (needs_copy: bool)
    requires
        old(table).covers(paddr),
        old(table)@[old(table).index_of(paddr)] > 0,
    ensures
        final(table).base() == old(table).base(),
        (needs_copy, final(table)@) == cow_fault_counts(old(table)@, old(table).index_of(paddr)),
{
    let c = table.dec_ref(paddr);
    if c == 1 {
        table.inc_ref(paddr);
        assert(table@ =~= old(table)@);
        false
    } else {
        true
    }
}

/// Drops a space's reference to the frame at `paddr` when its page is
/// unmapped; returns whether the frame is to be freed (it was the last).
pub fn cow_unmap_page(table: &mut FrameInfoTable, paddr: usize) -> (free: bool)
    requires
        old(table).covers(paddr),
    ensures
        final(table).base() == old(table).base(),
        free == (old(table)@[old(table).index_of(paddr)] == 1),
        final(table)@ == old(table)@.update(
            old(table).index_of(paddr),
            (if old(table)@[old(table).index_of(paddr)] == 0 {
                255
            } else {
                old(table)@[old(table).index_of(paddr)] - 1
            }) as u8,
        ),
{
    table.dec_ref(paddr) == 1
}

/// Shares the mapped frame at `paddr` with a new address space: one more
/// reference, and both spaces map it without write permission. Returns the
/// flags for both mappings.
pub fn cow_share_page(table: &mut FrameInfoTable, paddr: usize, flags: MappingFlags) -> (r: MappingFlags)
    requires
        old(table).covers(paddr),
        old(table)@[old(table).index_of(paddr)] < 255,
    ensures
        final(table).base() == old(table).base(),
        final(table)@ == old(table)@.update(
            old(table).index_of(paddr),
            (old(table)@[old(table).index_of(paddr)] + 1) as u8,
        ),
        r.bits == flags.bits & !2usize,
{
    table.inc_ref(paddr);
    without_write(flags)
}

/// A frame shared by two spaces is copied on the first write fault only:
/// after one space copies, the other is the last holder and keeps the
/// frame.
pub proof fn lemma_cow_second_fault_keeps(c: Seq<u8>, i: int)
    requires
        0 <= i < c.len(),
        c[i] == 2,
    ensures
        cow_fault_counts(c, i).0,
        cow_fault_counts(c, i).1[i] == 1,
        !cow_fault_counts(cow_fault_counts(c, i).1, i).0,
        cow_fault_counts(cow_fault_counts(c, i).1, i).1 == cow_fault_counts(c, i).1,
{
}

/// A fault never changes the count of another frame.
pub proof fn lemma_cow_fault_local(c: Seq<u8>, i: int, j: int)
    requires
        0 <= i < c.len(),
        0 <= j < c.len(),
        i != j,
    ensures
        cow_fault_counts(c, i).1[j] == c[j],
        cow_fault_counts(c, i).1.len() == c.len(),
{
}

/// Access rights of an open file.
#[derive(Clone, Copy, Debug, PartialEq, Eq, Structural)]
pub struct FileAccess {
    pub read: bool,
    pub write: bool,
}

/// A file mapping with `flags` needs the file opened for reading when the
/// mapping is readable, and for writing when it is writable.
pub fn check_file_flags(flags: MappingFlags, file: FileAccess) -> (r: Result<(), AxError>)
    ensures
        r is Ok <==> ((flags.has(MappingFlags { bits: 1 }) ==> file.read) && (flags.has(MappingFlags { bits: 2 })
            ==> file.write)),
        r is Err ==> r == Err::<(), AxError>(AxError::PermissionDenied),
{
    let need_read = flags.contains(MappingFlags::READ());
    let need_write = flags.contains(MappingFlags::WRITE());
    if (need_read && !file.read) || (need_write && !file.write) {
        return Err(AxError::PermissionDenied);
    }
    Ok(())
}

/// The page of the file where a mapping at `offset` bytes starts.
pub fn offset_page(offset: usize) -> (r: u32)
    ensures
        r == ((offset / 4096) as u32),
{
    (offset / PAGE_SIZE_4K) as u32
}

/// The file page of the `i`-th page of a range that starts at `range_start`
/// in a mapping at `map_start` whose first page is file page `first_page`.
pub fn file_page_number(range_start: usize, map_start: usize, first_page: u32, i: u32) -> (r: u32)
    requires
        map_start <= range_start,
        (range_start - map_start) / 4096 + first_page + i <= u32::MAX,
    ensures
        r == (range_start - map_start) / 4096 + first_page + i,
{
    ((range_start - map_start) / PAGE_SIZE_4K) as u32 + first_page + i
}

/// The address in a mapping at `map_start` of file page `pn`, when the
/// mapping shows it: file pages before `first_page` are not mapped.
pub fn evicted_vaddr(pn: u32, first_page: u32, map_start: usize) -> (r: Option<usize>)
    requires
        map_start + (u32::MAX as int) * 4096 <= usize::MAX,
    ensures
        pn < first_page ==> r is None,
        pn >= first_page ==> r == Some((map_start + (pn - first_page) * 4096) as usize),
{
    match pn.checked_sub(first_page) {
        None => None,
        Some(k) => Some(map_start + k as usize * PAGE_SIZE_4K),
    }
}

/// What populating one page of a file mapping does.
#[derive(Clone, Copy, PartialEq, Eq, Structural)]
pub enum FileStep {
    /// Nothing to do.
    Keep,
    /// A write to a page mapped without write permission: mark the cached
    /// page dirty (unless the file lives in memory) and map it writable.
    Remap { paddr: usize, flags: MappingFlags, mark_dirty: bool },
    /// Map the cached page with these flags; a file not in memory is mapped
    /// read-only first, so that its first write is seen.
    MapCached { flags: MappingFlags },
}

/// What populating a page of a file mapping with `flags` does for an access
/// with `access` flags, when the lookup found `query`: a write to a page
/// mapped without write permission remaps it (marking the cached page dirty
/// unless the file lives in memory); a page not mapped gets the cached page,
/// read-only first unless the file lives in memory; a failed lookup is a bad
/// address.
pub open spec fn file_step(query: PageQuery, access: MappingFlags, flags: MappingFlags, in_memory: bool) -> Result<
    FileStep,
    AxError,
> {
    match query {
        PageQuery::Mapped { paddr, flags: page_flags } => if access.has(MappingFlags { bits: 2 }) && !page_flags.has(
            MappingFlags { bits: 2 },
        ) {
            Ok::<FileStep, AxError>(FileStep::Remap { paddr, flags, mark_dirty: !in_memory })
        } else {
            Ok(FileStep::Keep)
        },
        PageQuery::NotMapped => Ok(
            FileStep::MapCached {
                flags: if in_memory {
                    flags
                } else {
                    MappingFlags { bits: flags.bits & !2usize }
                },
            },
        ),
        PageQuery::Failed => Err(AxError::BadAddress),
    }
}

/// How many of the steps map or remap a page: all but `Keep`.
pub open spec fn file_work(s: Seq<FileStep>) -> nat
    decreases s.len(),
{
    if s.len() == 0 {
        0
    } else {
        file_work(s.drop_last()) + if s.last() is Keep {
            0nat
        } else {
            1nat
        }
    }
}

/// One page of populating a file mapping: the step `file_step` gives.
pub fn file_populate_step(query: PageQuery, access: MappingFlags, flags: MappingFlags, in_memory: bool) -> (r:
    Result<FileStep, AxError>)
    ensures
        r == file_step(query, access, flags, in_memory),
{
    match query {
        PageQuery::Mapped { paddr, flags: page_flags } => {
            if access.contains(MappingFlags::WRITE()) && !page_flags.contains(MappingFlags::WRITE()) {
                Ok(FileStep::Remap { paddr, flags, mark_dirty: !in_memory })
            } else {
                Ok(FileStep::Keep)
            }
        },
        PageQuery::NotMapped => {
            let map_flags = if in_memory {
                flags
            } else {
                without_write(flags)
            };
            Ok(FileStep::MapCached { flags: map_flags })
        },
        PageQuery::Failed => Err(AxError::BadAddress),
    }
}


/// Populating the pages of a file mapping, whose lookups found `queries` in
/// order: the step for each page up to the first failed lookup, how many
/// pages those steps map or remap, and the error of the failed lookup, if
/// one failed (the pages before it are populated all the same).
pub fn file_populate_plan(queries: &Vec<PageQuery>, access: MappingFlags, flags: MappingFlags, in_memory: bool) -> (r: (
    Vec<FileStep>,
    usize,
    Option<AxError>,
))
    ensures
        r.0@.len() <= queries@.len(),
        forall|i: int|
            0 <= i < r.0@.len() ==> file_step(queries@[i], access, flags, in_memory)
                == Ok::<FileStep, AxError>(#[trigger] r.0@[i]),
        r.0@.len() < queries@.len() ==> queries@[r.0@.len() as int] is Failed && r.2 == Some(AxError::BadAddress),
        r.0@.len() == queries@.len() ==> r.2 is None,
        r.1 == file_work(r.0@),
{
    let mut steps: Vec<FileStep> = Vec::new();
    let mut count: usize = 0;
    let mut i: usize = 0;
    while i < queries.len()
        invariant
            i <= queries@.len(),
            steps@.len() == i,
            forall|j: int|
                0 <= j < i ==> file_step(queries@[j], access, flags, in_memory)
                    == Ok::<FileStep, AxError>(#[trigger] steps@[j]),
            count == file_work(steps@),
            count <= i,
        decreases queries@.len() - i,
    {
        match file_populate_step(queries[i], access, flags, in_memory) {
            Ok(step) => {
                let keep = match step {
                    FileStep::Keep => true,
                    _ => false,
                };
                let ghost before = steps@;
                steps.push(step);
                proof {
                    assert(steps@.drop_last() =~= before);
                    assert forall|j: int|
                        0 <= j < i + 1 implies file_step(queries@[j], access, flags, in_memory)
                            == Ok::<FileStep, AxError>(#[trigger] steps@[j]) by {
                        if j < i {
                            assert(steps@[j] == before[j]);
                        }
                    }
                }
                if !keep {
                    count = count + 1;
                }
            },
            Err(e) => {
                proof {
                    assert(queries@[i as int] is Failed);
                    assert(e == AxError::BadAddress);
                }
                return (steps, count, Some(e));
            },
        }
        i = i + 1;
    }
    (steps, count, None)
}

} // verus!
