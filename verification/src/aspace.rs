use vstd::prelude::*;

use crate::errors::AxError;
use crate::flags::{MappingFlags, PAGE_SIZE_4K};

verus! {

pub open spec fn align_down(x: int) -> int {
    x - x % 4096
}

pub open spec fn align_up(x: int) -> int {
    if x % 4096 == 0 {
        x
    } else {
        x - x % 4096 + 4096
    }
}

/// A range `[start, end)` of virtual addresses.
#[derive(Clone, Copy, Debug, PartialEq, Eq, Structural)]
pub struct VirtAddrRange {
    pub start: usize,
    pub end: usize,
}

impl VirtAddrRange {
    pub fn from_start_size(start: usize, size: usize) -> (r: VirtAddrRange)
        requires
            start + size <= usize::MAX,
        ensures
            r == (VirtAddrRange { start, end: (start + size) as usize }),
    {
        VirtAddrRange { start, end: start + size }
    }

    pub fn size(&self) -> (r: usize)
        requires
            self.start <= self.end,
        ensures
            r == self.end - self.start,
    {
        self.end - self.start
    }

    pub fn contains(&self, addr: usize) -> (r: bool)
        ensures
            r == (self.start <= addr < self.end),
    {
        self.start <= addr && addr < self.end
    }

    pub fn contains_range(&self, other: VirtAddrRange) -> (r: bool)
        ensures
            r == (self.start <= other.start && other.end <= self.end),
    {
        self.start <= other.start && other.end <= self.end
    }

    pub fn overlaps(&self, other: VirtAddrRange) -> (r: bool)
        ensures
            r == (self.start < other.end && other.start < self.end),
    {
        self.start < other.end && other.start < self.end
    }
}

/// How a mapped region gets its frames.
#[derive(Clone, Copy, Debug, PartialEq, Eq, Structural)]
pub enum Backend {
    /// Physical address = virtual address - `pa_va_offset`.
    Linear { pa_va_offset: usize },
    /// Frames allocated on demand, or all at once when `populate`.
    Alloc { populate: bool },
}

impl Backend {
    /// A linear mapping backend.
    pub fn new_linear(pa_va_offset: usize) -> (r: Backend)
        ensures
            r == (Backend::Linear { pa_va_offset }),
    {
        Backend::Linear { pa_va_offset }
    }

    /// An allocation mapping backend.
    pub fn new_alloc(populate: bool) -> (r: Backend)
        ensures
            r == (Backend::Alloc { populate }),
    {
        Backend::Alloc { populate }
    }
}

/// Flags of a physical memory region.
#[derive(Clone, Copy, Debug, PartialEq, Eq, Structural)]
pub struct MemRegionFlags {
    pub bits: usize,
}

pub open spec fn has_bit(bits: usize, b: usize) -> bool {
    bits & b == b
}

/// The mapping flags for a physical region: each of read, write,
/// execute, device and uncached that the region has.
pub open spec fn map_flags_of(f: usize) -> usize {
    (if has_bit(f, 1) { 1usize } else { 0 }) | (if has_bit(f, 2) { 2usize } else { 0 }) | (if has_bit(
        f,
        4,
    ) {
        4usize
    } else {
        0
    }) | (if has_bit(f, 16) { 16usize } else { 0 }) | (if has_bit(f, 32) { 32usize } else { 0 })
}

/// The mapping flags that a memory region with flags `f` gets.
pub fn reg_flag_to_map_flag(f: MemRegionFlags) -> (r: MappingFlags)
    ensures
        r.bits == map_flags_of(f.bits),
{
    let b = f.bits;
    let r: usize = 0;
    let r = r | if b & 1 == 1 { 1 } else { 0 };
    let r = r | if b & 2 == 2 { 2 } else { 0 };
    let r = r | if b & 4 == 4 { 4 } else { 0 };
    let r = r | if b & 16 == 16 { 16 } else { 0 };
    let r = r | if b & 32 == 32 { 32 } else { 0 };
    assert(r == map_flags_of(b)) by (bit_vector)
        requires
            r == ((((0usize | (if b & 1 == 1 { 1usize } else { 0usize })) | (if b & 2 == 2 { 2usize } else { 0usize })) | (if b & 4 == 4 { 4usize } else { 0usize })) | (if b & 16 == 16 { 16usize } else { 0usize })) | (if b & 32 == 32 { 32usize } else { 0usize }),
    ;
    MappingFlags { bits: r }
}

/// One piece of a copy between a buffer and an address space: the part
/// of the buffer from `buf_offset`, `len` bytes long, lies in the page at
/// `page_vaddr`, from `page_offset` on.
#[derive(Clone, Copy, Debug, PartialEq, Eq, Structural)]
pub struct DataChunk {
    pub page_vaddr: usize,
    pub page_offset: usize,
    pub buf_offset: usize,
    pub len: usize,
}

/// The `k`-th piece of copying `size` bytes at `start`, page by page.
pub open spec fn chunk(start: int, size: int, k: int) -> DataChunk {
    let page = align_down(start) + k * 4096;
    let lo = if start > page { start } else { page };
    let hi = if start + size < page + 4096 { start + size } else { page + 4096 };
    DataChunk {
        page_vaddr: page as usize,
        page_offset: (lo - page) as usize,
        buf_offset: (lo - start) as usize,
        len: (hi - lo) as usize,
    }
}

/// How many pages a copy of `size` bytes at `start` touches.
pub open spec fn chunk_count(start: int, size: int) -> int {
    if size == 0 {
        0
    } else {
        (align_up(start + size) - align_down(start)) / 4096
    }
}

/// The virtual address space of a task: its range of addresses.
///
/// An address space's areas and its page table are kept by the
/// `memory_set` and `page_table_multiarch` crates, on which this library
/// does not depend; so it holds here the range, the checks made on it and
/// the planning of copies (`plan_chunks`), while mapping, unmapping,
/// protecting, finding free ranges, cloning and fault handling on those
/// areas stay with the caller. The user areas of `crate::memory_set` carry
/// the same operations, verified.
pub struct AddrSpace {
    pub va_range: VirtAddrRange,
}

impl AddrSpace {
    pub open spec fn wf(&self) -> bool {
        self.va_range.start <= self.va_range.end
    }

    pub fn new_empty(base: usize, size: usize) -> (r: AddrSpace)
        requires
            base + size <= usize::MAX,
        ensures
            r.wf(),
            r.va_range == (VirtAddrRange { start: base, end: (base + size) as usize }),
    {
        AddrSpace { va_range: VirtAddrRange::from_start_size(base, size) }
    }

    pub fn base(&self) -> (r: usize)
        ensures
            r == self.va_range.start,
    {
        self.va_range.start
    }

    pub fn end(&self) -> (r: usize)
        ensures
            r == self.va_range.end,
    {
        self.va_range.end
    }

    pub fn size(&self) -> (r: usize)
        requires
            self.wf(),
        ensures
            r == self.va_range.end - self.va_range.start,
    {
        self.va_range.size()
    }

    /// The space holds `[start, start + size)`.
    pub fn contains_range(&self, start: usize, size: usize) -> (r: bool)
        requires
            start + size <= usize::MAX,
        ensures
            r == (self.va_range.start <= start && start + size <= self.va_range.end),
    {
        self.va_range.contains_range(VirtAddrRange::from_start_size(start, size))
    }

    /// What mapping, unmapping and protecting require: the range
    /// lies in the space and is page aligned.
    pub fn check_region(&self, start: usize, size: usize) -> (r: Result<(), AxError>)
        requires
            start + size <= usize::MAX,
        ensures
            r is Ok <==> (self.va_range.start <= start && start + size <= self.va_range.end && start % 4096
                == 0 && size % 4096 == 0),
            r is Err ==> r == Err::<(), AxError>(AxError::InvalidInput),
    {
        if !self.contains_range(start, size) {
            return Err(AxError::InvalidInput);
        }
        if start % PAGE_SIZE_4K != 0 || size % PAGE_SIZE_4K != 0 {
            return Err(AxError::InvalidInput);
        }
        Ok(())
    }

    /// The backend of a linear mapping of `[start_vaddr, start_vaddr + size)`
    /// to the physical range from `start_paddr`, after the tests that
    /// `map_linear` makes.
    pub fn linear_backend(&self, start_vaddr: usize, start_paddr: usize, size: usize) -> (r: Result<
        Backend,
        AxError,
    >)
        requires
            start_vaddr + size <= usize::MAX,
            start_paddr <= start_vaddr,
        ensures
            r is Ok <==> (self.va_range.start <= start_vaddr && start_vaddr + size <= self.va_range.end
                && start_vaddr % 4096 == 0 && start_paddr % 4096 == 0 && size % 4096 == 0),
            r is Ok ==> r == Ok::<Backend, AxError>(Backend::Linear { pa_va_offset: (start_vaddr - start_paddr) as usize }),
            r is Err ==> r == Err::<Backend, AxError>(AxError::InvalidInput),
    {
        if !self.contains_range(start_vaddr, size) {
            return Err(AxError::InvalidInput);
        }
        if start_vaddr % PAGE_SIZE_4K != 0 || start_paddr % PAGE_SIZE_4K != 0 || size % PAGE_SIZE_4K != 0 {
            return Err(AxError::InvalidInput);
        }
        Ok(Backend::new_linear(start_vaddr - start_paddr))
    }

    /// What `copy_mappings_from` requires: the two spaces do not overlap.
    pub fn check_copy_from(&self, other: &AddrSpace) -> (r: Result<(), AxError>)
        ensures
            r is Ok <==> !(self.va_range.start < other.va_range.end && other.va_range.start
                < self.va_range.end),
            r is Err ==> r == Err::<(), AxError>(AxError::InvalidInput),
    {
        if self.va_range.overlaps(other.va_range) {
            Err(AxError::InvalidInput)
        } else {
            Ok(())
        }
    }

    /// The pieces, page by page, of reading or writing `size` bytes at
    /// `start`; an error when the range is not in the space.
    pub fn data_chunks(&self, start: usize, size: usize) -> (r: Result<Vec<DataChunk>, AxError>)
        requires
            start + size + 4096 <= usize::MAX,
        ensures
            !(self.va_range.start <= start && start + size <= self.va_range.end) ==> r == Err::<
                Vec<DataChunk>,
                AxError,
            >(AxError::InvalidInput),
            (self.va_range.start <= start && start + size <= self.va_range.end) ==> (r matches Ok(v)
                && v@.len() == chunk_count(start as int, size as int) && forall|k: int|
                0 <= k < v@.len() ==> #[trigger] v@[k] == chunk(start as int, size as int, k)),
    {
        if !self.contains_range(start, size) {
            return Err(AxError::InvalidInput);
        }
        Ok(plan_chunks(start, size))
    }
}

/// The pieces of copying `size` bytes at `start`, page by page.
pub fn plan_chunks(start: usize, size: usize) -> (r: Vec<DataChunk>)
    requires
        start + size + 4096 <= usize::MAX,
    ensures
        r@.len() == chunk_count(start as int, size as int),
        forall|k: int| 0 <= k < r@.len() ==> #[trigger] r@[k] == chunk(start as int, size as int, k),
{
    let mut out: Vec<DataChunk> = Vec::new();
    if size == 0 {
        return out;
    }
    let end = start + size;
    let first = start - start % PAGE_SIZE_4K;
    let last = if end % PAGE_SIZE_4K == 0 {
        end
    } else {
        end - end % PAGE_SIZE_4K + PAGE_SIZE_4K
    };
    let mut cnt: usize = 0;
    let mut vaddr = first;
    let ghost mut k: int = 0;
    while vaddr < last
        invariant
            0 < size,
            first == align_down(start as int),
            last == align_up(end as int),
            end == start + size,
            start + size + 4096 <= usize::MAX,
            first <= vaddr <= last,
            vaddr == first + k * 4096,
            0 <= k,
            out@.len() == k,
            cnt == (if k == 0 {
                0
            } else if vaddr - start < size {
                vaddr - start
            } else {
                size as int
            }),
            first % 4096 == 0,
            last % 4096 == 0,
            start - 4096 < first <= start,
            end <= last < end + 4096,
            forall|j: int| 0 <= j < k ==> #[trigger] out@[j] == chunk(start as int, size as int, j),
        decreases last - vaddr,
    {
        proof {
            assert(vaddr % 4096 == 0) by {
                vstd::arithmetic::div_mod::lemma_mod_multiples_vanish(k, first as int, 4096);
            }
            if k > 0 {
                assert(vaddr > start);
                assert(vaddr < end);
            }
        }
        let mut copy_size = if size - cnt < PAGE_SIZE_4K {
            size - cnt
        } else {
            PAGE_SIZE_4K
        };
        if vaddr == first && start % PAGE_SIZE_4K != 0 {
            let align_offset = start % PAGE_SIZE_4K;
            if PAGE_SIZE_4K - align_offset < copy_size {
                copy_size = PAGE_SIZE_4K - align_offset;
            }
        }
        let page_offset: usize = if vaddr == first {
            start % PAGE_SIZE_4K
        } else {
            0
        };
        let c = DataChunk { page_vaddr: vaddr, page_offset, buf_offset: cnt, len: copy_size };
        assert(c == chunk(start as int, size as int, k));
        out.push(c);
        cnt = cnt + copy_size;
        vaddr = vaddr + PAGE_SIZE_4K;
        proof {
            k = k + 1;
        }
    }
    proof {
        assert(vaddr == last);
        assert(k == (last - first) / 4096);
    }
    out
}

/// The pieces of a copy follow one another through the buffer and cover
/// all of it.
pub proof fn lemma_chunks_tile(start: int, size: int)
    requires
        0 <= start,
        0 < size,
        start + size + 4096 <= usize::MAX,
    ensures
        chunk(start, size, 0).buf_offset == 0,
        forall|k: int|
            0 <= k < chunk_count(start, size) - 1 ==> #[trigger] chunk(start, size, k + 1).buf_offset == chunk(
                start,
                size,
                k,
            ).buf_offset + chunk(start, size, k).len,
        chunk(start, size, chunk_count(start, size) - 1).buf_offset + chunk(
            start,
            size,
            chunk_count(start, size) - 1,
        ).len == size,
{
    let end = start + size;
    let first = align_down(start);
    let last = align_up(end);
    let n = chunk_count(start, size);
    assert(first % 4096 == 0 && last % 4096 == 0) by {
        vstd::arithmetic::div_mod::lemma_sub_mod_noop(start, start % 4096, 4096);
        vstd::arithmetic::div_mod::lemma_mod_twice(start, 4096);
        vstd::arithmetic::div_mod::lemma_sub_mod_noop(end, end % 4096, 4096);
        vstd::arithmetic::div_mod::lemma_mod_twice(end, 4096);
        vstd::arithmetic::div_mod::lemma_add_mod_noop(end - end % 4096, 4096, 4096);
    }
    assert((last - first) % 4096 == 0) by {
        vstd::arithmetic::div_mod::lemma_sub_mod_noop(last, first, 4096);
    }
    assert(n * 4096 == last - first) by {
        vstd::arithmetic::div_mod::lemma_fundamental_div_mod(last - first, 4096);
    }
    assert(first <= start < first + 4096);
    assert(end <= last < end + 4096);
    assert(n >= 1);
    assert forall|k: int|
        0 <= k < chunk_count(start, size) - 1 implies #[trigger] chunk(start, size, k + 1).buf_offset
            == chunk(start, size, k).buf_offset + chunk(start, size, k).len by {
        let p1 = first + (k + 1) * 4096;
        assert(p1 % 4096 == 0) by {
            vstd::arithmetic::div_mod::lemma_mod_multiples_vanish(k + 1, first, 4096);
        }
        assert(p1 <= last - 4096);
        assert(p1 < end);
        assert(p1 > start);
    }
    let pl = first + (n - 1) * 4096;
    assert(pl == last - 4096);
    assert(pl < end) by {
        assert(last - 4096 < end);
    }
}

/// The range mapped for a physical region `[paddr, paddr + size)`: from
/// the page that holds its start to the page end after its end.
pub open spec fn region_span(paddr: int, size: int) -> (int, int) {
    (align_down(paddr), align_up(paddr + size) - align_down(paddr))
}

/// The aligned start and size of the mapping for a physical region.
pub fn aligned_region(paddr: usize, size: usize) -> (r: (usize, usize))
    requires
        paddr + size + 4096 <= usize::MAX,
    ensures
        r.0 == region_span(paddr as int, size as int).0,
        r.1 == region_span(paddr as int, size as int).1,
{
    let start = paddr - paddr % PAGE_SIZE_4K;
    let e = paddr + size;
    let end = if e % PAGE_SIZE_4K == 0 {
        e
    } else {
        e - e % PAGE_SIZE_4K + PAGE_SIZE_4K
    };
    (start, end - start)
}

} // verus!
