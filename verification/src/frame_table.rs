use vstd::prelude::*;

verus! {

/// Frames are 4K pages.
pub const FRAME_SHIFT: usize = 12;

/// Reference counts of the physical frames of a memory region.
pub struct FrameInfoTable {
    base: usize,
    ref_counts: Vec<u8>,
}

impl FrameInfoTable {
    /// The physical address of the first frame.
    pub closed spec fn base(&self) -> usize {
        self.base
    }

    /// The reference count of each frame.
    pub closed spec fn view(&self) -> Seq<u8> {
        self.ref_counts@
    }

    /// The index of the frame that holds `paddr`.
    pub open spec fn index_of(&self, paddr: usize) -> int {
        (paddr - self.base()) as int / 4096
    }

    /// `paddr` lies in a frame of the table.
    pub open spec fn covers(&self, paddr: usize) -> bool {
        paddr >= self.base() && self.index_of(paddr) < self@.len()
    }

    /// A table of `frame_num` frames from `phys_base`, all with count 0.
    pub fn new(phys_base: usize, frame_num: usize) -> (r: FrameInfoTable)
        ensures
            r.base() == phys_base,
            r@ == Seq::new(frame_num as nat, |i: int| 0u8),
    {
        let mut ref_counts: Vec<u8> = Vec::with_capacity(frame_num);
        let mut i: usize = 0;
        while i < frame_num
            invariant
                i <= frame_num,
                ref_counts@ == Seq::new(i as nat, |j: int| 0u8),
            decreases frame_num - i,
        {
            ref_counts.push(0);
            i += 1;
            proof {
                assert(ref_counts@ =~= Seq::new(i as nat, |j: int| 0u8));
            }
        }
        FrameInfoTable { base: phys_base, ref_counts }
    }

    fn info_index(&self, paddr: usize) -> (r: usize)
        requires
            self.covers(paddr),
        ensures
            r == self.index_of(paddr),
    {
        let d = paddr - self.base;
        assert(d >> 12usize == d / 4096) by (bit_vector);
        d >> FRAME_SHIFT
    }

    /// Adds a reference to the frame at `paddr` (aligned; for a huge page,
    /// its start).
    pub fn inc_ref(&mut self, paddr: usize)
        requires
            old(self).covers(paddr),
            old(self)@[old(self).index_of(paddr)] < 255,
        ensures
            final(self).base() == old(self).base(),
            final(self)@ == old(self)@.update(
                old(self).index_of(paddr),
                (old(self)@[old(self).index_of(paddr)] + 1) as u8,
            ),
    {
        let i = self.info_index(paddr);
        let c = self.ref_counts[i];
        self.ref_counts.set(i, c + 1);
    }

    /// Drops a reference to the frame at `paddr` and returns the count it
    /// had; a count of 0 wraps round to 255.
    pub fn dec_ref(&mut self, paddr: usize) -> (r: usize)
        requires
            old(self).covers(paddr),
        ensures
            r == old(self)@[old(self).index_of(paddr)],
            final(self).base() == old(self).base(),
            final(self)@ == old(self)@.update(
                old(self).index_of(paddr),
                (if old(self)@[old(self).index_of(paddr)] == 0 {
                    255
                } else {
                    old(self)@[old(self).index_of(paddr)] - 1
                }) as u8,
            ),
    {
        let i = self.info_index(paddr);
        let c = self.ref_counts[i];
        let n: u8 = if c == 0 {
            255
        } else {
            c - 1
        };
        self.ref_counts.set(i, n);
        c as usize
    }
}

/// Taking a reference and dropping it leaves the counts as they were.
pub proof fn lemma_inc_dec(counts: Seq<u8>, i: int)
    requires
        0 <= i < counts.len(),
        counts[i] < 255,
    ensures
        ({
            let up = counts.update(i, (counts[i] + 1) as u8);
            up.update(i, (if up[i] == 0 { 255 } else { up[i] - 1 }) as u8) == counts
        }),
{
    let up = counts.update(i, (counts[i] + 1) as u8);
    assert(up.update(i, (if up[i] == 0 { 255 } else { up[i] - 1 }) as u8) =~= counts);
}

} // verus!
