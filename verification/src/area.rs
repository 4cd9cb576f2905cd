use vstd::prelude::*;

use crate::flags::{MappingFlags, PAGE_SIZE_4K};

verus! {

/// Page-table and frame work that an area operation leaves to its caller,
/// in the order in which it is to be done.
#[derive(PartialEq, Eq, Structural)]
pub enum MemOp {
    /// Install fault entries for `[start, start + size)`.
    MapFault { start: usize, size: usize },
    /// Map `[start, start + size)` to the physical range that starts at `paddr`.
    MapRegion { start: usize, paddr: usize, size: usize, flags: MappingFlags },
    /// Map the 4K page at `vaddr` to the frame at `paddr`, replacing what is there.
    MapPage { vaddr: usize, paddr: usize, flags: MappingFlags },
    /// Remove the mappings of `[start, start + size)`.
    Unmap { start: usize, size: usize },
    /// Give the mappings of `[start, start + size)` the flags `flags`.
    Protect { start: usize, size: usize, flags: MappingFlags },
    /// Give a physical frame back to the allocator.
    Free { frame: usize },
    /// Flush the whole TLB.
    FlushTlb,
    /// Copy `size` bytes seen at virtual address `vaddr` (in the current
    /// address space) into the physical memory at `paddr`.
    CopyFromVirt { vaddr: usize, paddr: usize, size: usize },
    /// Copy the 4K frame at `from` into the frame at `to`.
    CopyFrame { from: usize, to: usize },
}

/// The file that backs a lazily loaded area, with the position that
/// corresponds to the first page of the area.
#[derive(Clone, Copy, PartialEq, Eq, Structural)]
pub struct MemBackend {
    pub file: usize,
    pub offset: u64,
}

/// What the memory set knows about one virtual page.
pub struct PageInfo {
    pub flags: MappingFlags,
    /// The frame that holds the page, if it has been loaded.
    pub frame: Option<usize>,
    /// The file and position the page is loaded from, if any.
    pub file_pos: Option<(usize, u64)>,
}

impl MemBackend {
    pub fn new(file: usize, offset: u64) -> (r: MemBackend)
        ensures
            r.file == file,
            r.offset == offset,
    {
        MemBackend { file, offset }
    }

    /// A backend on the same file whose position is moved by `delta` bytes.
    pub fn clone_with_delta(&self, delta: i64) -> (r: MemBackend)
        requires
            0 <= self.offset + delta <= u64::MAX,
        ensures
            r.file == self.file,
            r.offset == self.offset + delta,
    {
        let off: i128 = self.offset as i128 + delta as i128;
        MemBackend { file: self.file, offset: off as u64 }
    }
}

/// `b` with its position moved by `delta` bytes.
pub open spec fn shifted(b: Option<MemBackend>, delta: int) -> Option<MemBackend> {
    match b {
        Some(m) => Some(MemBackend { file: m.file, offset: (m.offset + delta) as u64 }),
        None => None,
    }
}

/// The frame operations that free the loaded pages of `pages`, in order.
pub open spec fn free_ops(pages: Seq<Option<usize>>) -> Seq<MemOp>
    decreases pages.len(),
{
    if pages.len() == 0 {
        Seq::empty()
    } else {
        let rest = free_ops(pages.drop_last());
        match pages.last() {
            Some(f) => rest.push(MemOp::Free { frame: f }),
            None => rest,
        }
    }
}

/// The number of loaded pages in `pages`.
pub open spec fn loaded_count(pages: Seq<Option<usize>>) -> nat
    decreases pages.len(),
{
    if pages.len() == 0 {
        0
    } else {
        loaded_count(pages.drop_last()) + if pages.last() is Some { 1nat } else { 0nat }
    }
}

/// The pages of a copy of an area that is not fully loaded: the `j`-th
/// loaded page gets frame `frames[j]`, the others stay unloaded.
pub open spec fn cloned_pages(pages: Seq<Option<usize>>, frames: Seq<usize>) -> Seq<Option<usize>> {
    Seq::new(
        pages.len(),
        |k: int|
            if pages[k] is Some {
                Some(frames[loaded_count(pages.subrange(0, k)) as int])
            } else {
                None
            },
    )
}

/// The work of copying the first `n` pages of an area at `vaddr` that is
/// not fully loaded: a loaded page is copied to its new frame and mapped,
/// an unloaded one gets a fault entry.
pub open spec fn clone_ops(pages: Seq<Option<usize>>, frames: Seq<usize>, vaddr: int, flags: MappingFlags, n: int) -> Seq<
    MemOp,
>
    decreases n,
{
    if n <= 0 {
        Seq::empty()
    } else {
        let k = n - 1;
        let page_va = (vaddr + k * 4096) as usize;
        clone_ops(pages, frames, vaddr, flags, k) + match pages[k] {
            Some(f) => {
                let to = frames[loaded_count(pages.subrange(0, k)) as int];
                seq![MemOp::CopyFrame { from: f, to }, MemOp::MapPage { vaddr: page_va, paddr: to, flags }]
            },
            None => seq![MemOp::MapFault { start: page_va, size: 4096 }],
        }
    }
}

proof fn lemma_loaded_count_step(pages: Seq<Option<usize>>, k: int)
    requires
        0 <= k < pages.len(),
    ensures
        loaded_count(pages.subrange(0, k + 1)) == loaded_count(pages.subrange(0, k)) + if pages[k] is Some {
            1nat
        } else {
            0nat
        },
        loaded_count(pages.subrange(0, k)) <= k,
{
    assert(pages.subrange(0, k + 1).drop_last() =~= pages.subrange(0, k));
    lemma_loaded_count_le(pages.subrange(0, k));
}

proof fn lemma_loaded_prefix_le(pages: Seq<Option<usize>>, k: int)
    requires
        0 <= k <= pages.len(),
    ensures
        loaded_count(pages.subrange(0, k)) <= loaded_count(pages),
    decreases pages.len() - k,
{
    if k == pages.len() {
        assert(pages.subrange(0, k) =~= pages);
    } else {
        lemma_loaded_count_step(pages, k);
        lemma_loaded_prefix_le(pages, k + 1);
    }
}

proof fn lemma_loaded_count_le(pages: Seq<Option<usize>>)
    ensures
        loaded_count(pages) <= pages.len(),
    decreases pages.len(),
{
    if pages.len() > 0 {
        lemma_loaded_count_le(pages.drop_last());
    }
}

/// A continuous virtual area of user memory, one slot per 4K page.
pub struct MapArea {
    pub pages: Vec<Option<usize>>,
    pub vaddr: usize,
    pub flags: MappingFlags,
    pub backend: Option<MemBackend>,
}

impl MapArea {
    /// The area is page aligned and its end, and the file position of its
    /// last page, are representable.
    pub open spec fn wf(&self) -> bool {
        &&& self.vaddr % 4096 == 0
        &&& self.vaddr + self.pages@.len() * 4096 <= usize::MAX
        &&& (self.backend matches Some(b) ==> b.offset + self.pages@.len() * 4096 <= i64::MAX)
    }

    pub open spec fn start_vpn(&self) -> int {
        self.vaddr as int / 4096
    }

    pub open spec fn end_vpn(&self) -> int {
        self.start_vpn() + self.pages@.len()
    }

    pub open spec fn spec_end(&self) -> int {
        self.vaddr + self.pages@.len() * 4096
    }

    /// The area holds virtual page number `vpn`.
    pub open spec fn covers(&self, vpn: int) -> bool {
        self.start_vpn() <= vpn < self.end_vpn()
    }

    /// What the area says of virtual page number `vpn`.
    pub open spec fn info(&self, vpn: int) -> PageInfo {
        let k = vpn - self.start_vpn();
        PageInfo {
            flags: self.flags,
            frame: self.pages@[k],
            file_pos: match self.backend {
                Some(b) => Some((b.file, (b.offset + k * 4096) as u64)),
                None => None,
            },
        }
    }

    /// `self` is the part of `big` that starts at its page `k0`.
    pub open spec fn is_slice_of(&self, big: MapArea, k0: int) -> bool {
        &&& 0 <= k0
        &&& k0 + self.pages@.len() <= big.pages@.len()
        &&& self.flags == big.flags
        &&& self.vaddr == big.vaddr + k0 * 4096
        &&& self.pages@ == big.pages@.subrange(k0, k0 + self.pages@.len())
        &&& self.backend == shifted(big.backend, k0 * 4096)
    }

    pub fn size(&self) -> (r: usize)
        requires
            self.wf(),
        ensures
            r == self.pages@.len() * 4096,
    {
        self.pages.len() * PAGE_SIZE_4K
    }

    pub fn end_va(&self) -> (r: usize)
        requires
            self.wf(),
        ensures
            r == self.spec_end(),
    {
        self.vaddr + self.size()
    }

    /// Creates a lazily loaded area of `num_pages` pages at `start`.
    pub fn new_lazy(
        start: usize,
        num_pages: usize,
        flags: MappingFlags,
        backend: Option<MemBackend>,
        ops: &mut Vec<MemOp>,
    ) -> (r: MapArea)
        requires
            start % 4096 == 0,
            start + num_pages * 4096 <= usize::MAX,
            backend matches Some(b) ==> b.offset + num_pages * 4096 <= i64::MAX,
        ensures
            r.wf(),
            r.vaddr == start,
            r.flags == flags,
            r.backend == backend,
            r.pages@ == Seq::new(num_pages as nat, |i: int| None::<usize>),
            final(ops)@ == old(ops)@.push(MemOp::MapFault { start, size: (num_pages * 4096) as usize }),
    {
        let mut pages: Vec<Option<usize>> = Vec::with_capacity(num_pages);
        let mut i: usize = 0;
        while i < num_pages
            invariant
                i <= num_pages,
                pages@ == Seq::new(i as nat, |j: int| None::<usize>),
            decreases num_pages - i,
        {
            pages.push(None);
            i += 1;
        }
        ops.push(MemOp::MapFault { start, size: num_pages * PAGE_SIZE_4K });
        MapArea { pages, vaddr: start, flags, backend }
    }

    /// Creates an area of `num_pages` pages at `start` whose pages are the
    /// contiguous frames that begin at `frame_base`.
    pub fn new_alloc(
        start: usize,
        num_pages: usize,
        frame_base: usize,
        flags: MappingFlags,
        backend: Option<MemBackend>,
        ops: &mut Vec<MemOp>,
    ) -> (r: MapArea)
        requires
            start % 4096 == 0,
            start + num_pages * 4096 <= usize::MAX,
            frame_base + num_pages * 4096 <= usize::MAX,
            backend matches Some(b) ==> b.offset + num_pages * 4096 <= i64::MAX,
        ensures
            r.wf(),
            r.vaddr == start,
            r.flags == flags,
            r.backend == backend,
            r.pages@ == Seq::new(num_pages as nat, |i: int| Some((frame_base + i * 4096) as usize)),
            final(ops)@ == old(ops)@.push(
                MemOp::MapRegion { start, paddr: frame_base, size: (num_pages * 4096) as usize, flags },
            ),
    {
        let mut pages: Vec<Option<usize>> = Vec::with_capacity(num_pages);
        let mut i: usize = 0;
        while i < num_pages
            invariant
                i <= num_pages,
                frame_base + num_pages * 4096 <= usize::MAX,
                pages@ == Seq::new(i as nat, |j: int| Some((frame_base + j * 4096) as usize)),
            decreases num_pages - i,
        {
            pages.push(Some(frame_base + i * PAGE_SIZE_4K));
            i += 1;
        }
        ops.push(MemOp::MapRegion { start, paddr: frame_base, size: num_pages * PAGE_SIZE_4K, flags });
        MapArea { pages, vaddr: start, flags, backend }
    }

    /// Records the freeing of every loaded page of `pages`.
    fn push_free_ops(pages: &Vec<Option<usize>>, ops: &mut Vec<MemOp>)
        ensures
            final(ops)@ == old(ops)@ + free_ops(pages@),
    {
        let mut i: usize = 0;
        while i < pages.len()
            invariant
                i <= pages@.len(),
                ops@ == old(ops)@ + free_ops(pages@.subrange(0, i as int)),
            decreases pages@.len() - i,
        {
            assert(pages@.subrange(0, i + 1).drop_last() == pages@.subrange(0, i as int));
            match pages[i] {
                Some(f) => {
                    ops.push(MemOp::Free { frame: f });
                },
                None => {},
            }
            i += 1;
        }
        assert(pages@.subrange(0, pages@.len() as int) == pages@);
    }

    /// Unmaps the whole area and frees its loaded pages.
    pub fn dealloc(&mut self, ops: &mut Vec<MemOp>)
        requires
            old(self).wf(),
        ensures
            final(self).wf(),
            final(self).pages@.len() == 0,
            final(self).vaddr == old(self).vaddr,
            final(self).flags == old(self).flags,
            final(self).backend == old(self).backend,
            final(ops)@ == old(ops)@.push(
                MemOp::Unmap { start: old(self).vaddr, size: (old(self).pages@.len() * 4096) as usize },
            ) + free_ops(old(self).pages@),
    {
        ops.push(MemOp::Unmap { start: self.vaddr, size: self.size() });
        let mut removed: Vec<Option<usize>> = Vec::new();
        std::mem::swap(&mut removed, &mut self.pages);
        Self::push_free_ops(&removed, ops);
    }

    /// Where page `k` of the area is loaded from: its file and the position
    /// there, the area's file offset plus `k` pages; `None` without a file.
    pub fn file_position(&self, k: usize) -> (r: Option<(usize, u64)>)
        requires
            self.wf(),
            k < self.pages@.len(),
        ensures
            r == self.info(self.start_vpn() + k).file_pos,
    {
        match self.backend {
            Some(b) => Some((b.file, b.offset + (k as u64) * 4096)),
            None => None,
        }
    }

    /// Decides whether a fault at `addr` with access `flags` is one that
    /// loading a page fixes, and which page slot that is.
    pub fn page_fault_slot(&self, addr: usize, flags: MappingFlags) -> (r: Option<usize>)
        requires
            self.wf(),
            self.vaddr <= addr < self.spec_end(),
        ensures
            r == (if self.flags.has(flags) && self.pages@[(addr - self.vaddr) / 4096] is None {
                Some(((addr - self.vaddr) / 4096) as usize)
            } else {
                None
            }),
    {
        if !self.flags.contains(flags) {
            return None;
        }
        let page_index = (addr - self.vaddr) / PAGE_SIZE_4K;
        if page_index >= self.pages.len() {
            return None;
        }
        if self.pages[page_index].is_some() {
            return None;
        }
        Some(page_index)
    }

    /// Puts the freshly loaded frame `frame` in slot `index` and maps it.
    pub fn install_page(&mut self, index: usize, frame: usize, ops: &mut Vec<MemOp>)
        requires
            old(self).wf(),
            index < old(self).pages@.len(),
        ensures
            final(self).wf(),
            final(self).vaddr == old(self).vaddr,
            final(self).flags == old(self).flags,
            final(self).backend == old(self).backend,
            final(self).pages@ == old(self).pages@.update(index as int, Some(frame)),
            final(ops)@ == old(ops)@.push(
                MemOp::MapPage {
                    vaddr: (old(self).vaddr + index * 4096) as usize,
                    paddr: frame,
                    flags: old(self).flags,
                },
            ),
    {
        ops.push(
            MemOp::MapPage { vaddr: self.vaddr + index * PAGE_SIZE_4K, paddr: frame, flags: self.flags },
        );
        self.pages.set(index, Some(frame));
    }

    /// Unmaps and frees the pages below `new_start`, which becomes the start.
    pub fn shrink_left(&mut self, new_start: usize, ops: &mut Vec<MemOp>)
        requires
            old(self).wf(),
            new_start % 4096 == 0,
            old(self).vaddr <= new_start <= old(self).spec_end(),
        ensures
            final(self).wf(),
            final(self).is_slice_of(*old(self), (new_start - old(self).vaddr) / 4096),
            final(self).vaddr == new_start,
            final(self).spec_end() == old(self).spec_end(),
            final(ops)@ == old(ops)@ + free_ops(
                old(self).pages@.subrange(0, (new_start - old(self).vaddr) / 4096),
            ).push(MemOp::Unmap { start: old(self).vaddr, size: (new_start - old(self).vaddr) as usize }),
    {
        let delete_size = new_start - self.vaddr;
        let delete_pages = delete_size / PAGE_SIZE_4K;
        let backend = match &self.backend {
            Some(b) => Some(b.clone_with_delta(delete_size as i64)),
            None => None,
        };
        let mut removed = self.pages.split_off(delete_pages);
        std::mem::swap(&mut removed, &mut self.pages);
        Self::push_free_ops(&removed, ops);
        ops.push(MemOp::Unmap { start: self.vaddr, size: delete_size });
        self.backend = backend;
        self.vaddr = new_start;
    }

    /// Unmaps and frees the pages from `new_end` on, which becomes the end.
    pub fn shrink_right(&mut self, new_end: usize, ops: &mut Vec<MemOp>)
        requires
            old(self).wf(),
            new_end % 4096 == 0,
            old(self).vaddr <= new_end <= old(self).spec_end(),
        ensures
            final(self).wf(),
            final(self).is_slice_of(*old(self), 0),
            final(self).vaddr == old(self).vaddr,
            final(self).spec_end() == new_end,
            final(ops)@ == old(ops)@ + free_ops(
                old(self).pages@.subrange((new_end - old(self).vaddr) / 4096, old(self).pages@.len() as int),
            ).push(MemOp::Unmap { start: new_end, size: (old(self).spec_end() - new_end) as usize }),
    {
        let delete_size = self.end_va() - new_end;
        let delete_pages = delete_size / PAGE_SIZE_4K;
        let removed = self.pages.split_off(self.pages.len() - delete_pages);
        Self::push_free_ops(&removed, ops);
        ops.push(MemOp::Unmap { start: new_end, size: delete_size });
        proof {
            assert(self.pages@ == old(self).pages@.subrange(0, self.pages@.len() as int));
        }
    }

    /// Splits the area at `addr`; `self` keeps the left part.
    pub fn split(&mut self, addr: usize) -> (right: MapArea)
        requires
            old(self).wf(),
            addr % 4096 == 0,
            old(self).vaddr <= addr <= old(self).spec_end(),
        ensures
            final(self).wf(),
            right.wf(),
            final(self).is_slice_of(*old(self), 0),
            final(self).spec_end() == addr,
            right.is_slice_of(*old(self), (addr - old(self).vaddr) / 4096),
            right.vaddr == addr,
            right.spec_end() == old(self).spec_end(),
    {
        let delta = addr - self.vaddr;
        let k = delta / PAGE_SIZE_4K;
        let right_pages = self.pages.split_off(k);
        let backend = match &self.backend {
            Some(b) => Some(b.clone_with_delta(delta as i64)),
            None => None,
        };
        proof {
            assert(self.pages@ == old(self).pages@.subrange(0, self.pages@.len() as int));
        }
        MapArea { pages: right_pages, vaddr: addr, flags: self.flags, backend }
    }

    /// Splits the area into three at `start` and `end`; `self` keeps the left part.
    pub fn split3(&mut self, start: usize, end: usize) -> (r: (MapArea, MapArea))
        requires
            old(self).wf(),
            start % 4096 == 0,
            end % 4096 == 0,
            start < end,
            old(self).vaddr < start,
            end < old(self).spec_end(),
        ensures
            final(self).wf(),
            r.0.wf(),
            r.1.wf(),
            final(self).is_slice_of(*old(self), 0),
            final(self).spec_end() == start,
            r.0.is_slice_of(*old(self), (start - old(self).vaddr) / 4096),
            r.0.vaddr == start,
            r.0.spec_end() == end,
            r.1.is_slice_of(*old(self), (end - old(self).vaddr) / 4096),
            r.1.vaddr == end,
            r.1.spec_end() == old(self).spec_end(),
    {
        let ghost o = *self;
        let right = self.split(end);
        let ghost left = *self;
        let mid = self.split(start);
        proof {
            lemma_slice_trans(*self, left, o, 0, 0);
            lemma_slice_trans(mid, left, o, (start - o.vaddr) / 4096, 0);
        }
        (mid, right)
    }

    /// Unmaps and frees `[left_end, right_start)`; `self` keeps the part
    /// below `left_end` and the part from `right_start` on is returned.
    pub fn remove_mid(&mut self, left_end: usize, right_start: usize, ops: &mut Vec<MemOp>) -> (right:
        MapArea)
        requires
            old(self).wf(),
            left_end % 4096 == 0,
            right_start % 4096 == 0,
            old(self).vaddr <= left_end <= right_start <= old(self).spec_end(),
        ensures
            final(self).wf(),
            right.wf(),
            final(self).is_slice_of(*old(self), 0),
            final(self).spec_end() == left_end,
            right.is_slice_of(*old(self), (right_start - old(self).vaddr) / 4096),
            right.vaddr == right_start,
            right.spec_end() == old(self).spec_end(),
            final(ops)@ == old(ops)@ + free_ops(
                old(self).pages@.subrange(
                    (left_end - old(self).vaddr) / 4096,
                    (right_start - old(self).vaddr) / 4096,
                ),
            ).push(MemOp::Unmap { start: left_end, size: (right_start - left_end) as usize }),
    {
        let ghost o = *self;
        let right = self.split(right_start);
        let ghost mid_pages = self.pages@;
        let removed = self.pages.split_off((left_end - self.vaddr) / PAGE_SIZE_4K);
        Self::push_free_ops(&removed, ops);
        ops.push(MemOp::Unmap { start: left_end, size: right_start - left_end });
        proof {
            assert(removed@ == o.pages@.subrange(
                (left_end - o.vaddr) / 4096,
                (right_start - o.vaddr) / 4096,
            ));
            assert(self.pages@ == o.pages@.subrange(0, self.pages@.len() as int));
        }
        right
    }

    /// Sets the flags of the whole area.
    pub fn update_flags(&mut self, flags: MappingFlags, ops: &mut Vec<MemOp>)
        requires
            old(self).wf(),
        ensures
            final(self).wf(),
            final(self).flags == flags,
            final(self).vaddr == old(self).vaddr,
            final(self).pages@ == old(self).pages@,
            final(self).backend == old(self).backend,
            final(ops)@ == old(ops)@.push(
                MemOp::Protect { start: old(self).vaddr, size: (old(self).pages@.len() * 4096) as usize, flags },
            ),
    {
        self.flags = flags;
        ops.push(MemOp::Protect { start: self.vaddr, size: self.size(), flags });
    }

    /// A copy of the area for a new address space, whose page table gets
    /// the mappings. A fully loaded area is copied into the contiguous
    /// frames from `frames[0]`; otherwise each loaded page is copied into the
    /// next frame of `frames`, and each page not loaded gets a fault entry.
    pub fn clone_alloc(&self, frames: &Vec<usize>, ops: &mut Vec<MemOp>) -> (r: MapArea)
        requires
            self.wf(),
            (forall|i: int| 0 <= i < self.pages@.len() ==> self.pages@[i] is Some) ==> frames@.len() == 1
                && frames@[0] + self.pages@.len() * 4096 <= usize::MAX,
            !(forall|i: int| 0 <= i < self.pages@.len() ==> self.pages@[i] is Some) ==> frames@.len()
                == loaded_count(self.pages@),
        ensures
            r.wf(),
            r.vaddr == self.vaddr,
            r.flags == self.flags,
            r.backend == self.backend,
            (forall|i: int| 0 <= i < self.pages@.len() ==> self.pages@[i] is Some) ==> r.pages@ == Seq::new(
                self.pages@.len(),
                |i: int| Some((frames@[0] + i * 4096) as usize),
            ) && final(ops)@ == old(ops)@ + seq![
                MemOp::CopyFromVirt {
                    vaddr: self.vaddr,
                    paddr: frames@[0],
                    size: (self.pages@.len() * 4096) as usize,
                },
                MemOp::MapRegion {
                    start: self.vaddr,
                    paddr: frames@[0],
                    size: (self.pages@.len() * 4096) as usize,
                    flags: self.flags,
                },
            ],
            !(forall|i: int| 0 <= i < self.pages@.len() ==> self.pages@[i] is Some) ==> r.pages@ == cloned_pages(
                self.pages@,
                frames@,
            ) && final(ops)@ == old(ops)@ + clone_ops(
                self.pages@,
                frames@,
                self.vaddr as int,
                self.flags,
                self.pages@.len() as int,
            ),
    {
        let n = self.pages.len();
        if self.allocated() {
            let base = frames[0];
            ops.push(MemOp::CopyFromVirt { vaddr: self.vaddr, paddr: base, size: n * PAGE_SIZE_4K });
            let ghost mid = ops@;
            let r = MapArea::new_alloc(self.vaddr, n, base, self.flags, self.backend, ops);
            assert(ops@ =~= old(ops)@ + seq![
                MemOp::CopyFromVirt { vaddr: self.vaddr, paddr: base, size: (n * 4096) as usize },
                MemOp::MapRegion { start: self.vaddr, paddr: base, size: (n * 4096) as usize, flags: self.flags },
            ]);
            return r;
        }
        let ghost pages = self.pages@;
        let mut new_pages: Vec<Option<usize>> = Vec::with_capacity(n);
        let mut j: usize = 0;
        let mut k: usize = 0;
        while k < n
            invariant
                self.wf(),
                n == pages.len(),
                pages == self.pages@,
                frames@.len() == loaded_count(pages),
                0 <= k <= n,
                j == loaded_count(pages.subrange(0, k as int)),
                new_pages@.len() == k,
                forall|i: int| 0 <= i < k ==> #[trigger] new_pages@[i] == cloned_pages(pages, frames@)[i],
                ops@ == old(ops)@ + clone_ops(pages, frames@, self.vaddr as int, self.flags, k as int),
            decreases n - k,
        {
            proof {
                lemma_loaded_count_step(pages, k as int);
                lemma_loaded_prefix_le(pages, k as int + 1);
            }
            let page_va = self.vaddr + k * PAGE_SIZE_4K;
            let ghost before = ops@;
            match self.pages[k] {
                Some(f) => {
                    let to = frames[j];
                    ops.push(MemOp::CopyFrame { from: f, to });
                    ops.push(MemOp::MapPage { vaddr: page_va, paddr: to, flags: self.flags });
                    new_pages.push(Some(to));
                    j = j + 1;
                    proof {
                        assert(ops@ =~= before + seq![
                            MemOp::CopyFrame { from: f, to },
                            MemOp::MapPage { vaddr: page_va, paddr: to, flags: self.flags },
                        ]);
                    }
                },
                None => {
                    ops.push(MemOp::MapFault { start: page_va, size: PAGE_SIZE_4K });
                    new_pages.push(None);
                    proof {
                        assert(ops@ =~= before + seq![MemOp::MapFault { start: page_va, size: 4096 }]);
                    }
                },
            }
            proof {
                assert(ops@ =~= old(ops)@ + clone_ops(pages, frames@, self.vaddr as int, self.flags, k as int + 1));
            }
            k = k + 1;
        }
        proof {
            assert(new_pages@ =~= cloned_pages(pages, frames@));
        }
        MapArea { pages: new_pages, vaddr: self.vaddr, flags: self.flags, backend: self.backend }
    }

    /// Every page of the area is loaded.
    pub fn allocated(&self) -> (r: bool)
        ensures
            r == (forall|i: int| 0 <= i < self.pages@.len() ==> self.pages@[i] is Some),
    {
        let mut i: usize = 0;
        while i < self.pages.len()
            invariant
                i <= self.pages@.len(),
                forall|j: int| 0 <= j < i ==> self.pages@[j] is Some,
            decreases self.pages@.len() - i,
        {
            if self.pages[i].is_none() {
                return false;
            }
            i += 1;
        }
        true
    }

    /// `[start, end)` overlaps the area.
    pub fn overlap_with(&self, start: usize, end: usize) -> (r: bool)
        requires
            self.wf(),
        ensures
            r == (self.vaddr <= start < self.spec_end() || start <= self.vaddr < end),
    {
        self.vaddr <= start && start < self.end_va() || start <= self.vaddr && self.vaddr < end
    }

    /// The area lies within `[start, end)`.
    pub fn contained_in(&self, start: usize, end: usize) -> (r: bool)
        requires
            self.wf(),
        ensures
            r == (start <= self.vaddr && self.spec_end() <= end),
    {
        start <= self.vaddr && self.end_va() <= end
    }

    /// `[start, end)` lies within the area.
    pub fn contains(&self, start: usize, end: usize) -> (r: bool)
        requires
            self.wf(),
        ensures
            r == (self.vaddr <= start && end <= self.spec_end()),
    {
        self.vaddr <= start && end <= self.end_va()
    }

    /// `[start, end)` lies within the area and touches neither of its ends.
    pub fn strict_contain(&self, start: usize, end: usize) -> (r: bool)
        requires
            self.wf(),
        ensures
            r == (self.vaddr < start && end < self.spec_end()),
    {
        self.vaddr < start && end < self.end_va()
    }
}

/// A slice of a slice of an area is a slice of the area.
pub proof fn lemma_slice_trans(a: MapArea, b: MapArea, c: MapArea, ka: int, kb: int)
    requires
        c.wf(),
        a.is_slice_of(b, ka),
        b.is_slice_of(c, kb),
    ensures
        a.is_slice_of(c, ka + kb),
{
    assert(a.pages@ =~= c.pages@.subrange(ka + kb, ka + kb + a.pages@.len()));
}

/// A slice of an area says of each page it holds what the area says.
pub proof fn lemma_slice_info(small: MapArea, big: MapArea, k0: int, vpn: int)
    requires
        big.wf(),
        small.is_slice_of(big, k0),
        small.covers(vpn),
    ensures
        big.covers(vpn),
        small.info(vpn) == big.info(vpn),
{
    assert(small.start_vpn() == big.start_vpn() + k0);
    let k = vpn - small.start_vpn();
    assert(small.pages@[k] == big.pages@[k0 + k]);
}

} // verus!
