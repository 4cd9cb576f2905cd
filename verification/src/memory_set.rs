use vstd::prelude::*;

use crate::area::{clone_ops, cloned_pages, free_ops, lemma_slice_info, loaded_count, MapArea, MemBackend, MemOp, PageInfo};
use crate::errors::AxError;
use crate::flags::{MappingFlags, PAGE_SIZE_4K};

verus! {

/// The page `vpn` as the last area of `s` that holds it describes it.
pub open spec fn page_of(s: Seq<MapArea>, vpn: int) -> Option<PageInfo>
    decreases s.len(),
{
    if s.len() == 0 {
        None
    } else if s.last().covers(vpn) {
        Some(s.last().info(vpn))
    } else {
        page_of(s.drop_last(), vpn)
    }
}

/// No two areas of `s` hold the same page.
pub open spec fn disjoint(s: Seq<MapArea>) -> bool {
    forall|i: int, j: int, vpn: int|
        0 <= i < s.len() && 0 <= j < s.len() && i != j && #[trigger] s[i].covers(vpn) ==> !(
        #[trigger] s[j].covers(vpn))
}

/// The areas of `s` come in increasing order of address, each ending
/// before the next begins.
pub open spec fn laid_out(s: Seq<MapArea>) -> bool {
    forall|i: int, j: int|
        #![trigger s[i], s[j]]
        0 <= i < j < s.len() ==> s[i].spec_end() <= s[j].vaddr && s[i].vaddr < s[j].vaddr
}

/// Area `p` lies within area `a` and starts at its start or inside it.
pub open spec fn within(p: MapArea, a: MapArea) -> bool {
    &&& a.vaddr <= p.vaddr
    &&& p.spec_end() <= a.spec_end()
    &&& (p.vaddr == a.vaddr || p.vaddr < a.spec_end())
}

/// Whether an operation on `[start, end)` reaches page `vpn` of area `a`:
/// exactly the pages inside the range.
pub open spec fn hit(a: MapArea, start: int, end: int, vpn: int) -> bool {
    start / 4096 <= vpn < end / 4096
}

/// What page `vpn` of area `a` becomes when `[start, end)` is unmapped
/// (`op` is `None`) or given the flags `f` (`op` is `Some(f)`).
pub open spec fn changed(a: MapArea, start: int, end: int, op: Option<MappingFlags>, vpn: int) -> Option<
    PageInfo,
> {
    if hit(a, start, end, vpn) {
        match op {
            None => None,
            Some(f) => Some(PageInfo { flags: f, ..a.info(vpn) }),
        }
    } else {
        Some(a.info(vpn))
    }
}

/// Page `vpn` of the areas `s` after the operation `op` on `[start, end)`.
pub open spec fn page_after(
    s: Seq<MapArea>,
    start: int,
    end: int,
    op: Option<MappingFlags>,
    vpn: int,
) -> Option<PageInfo>
    decreases s.len(),
{
    if s.len() == 0 {
        None
    } else if s.last().covers(vpn) {
        changed(s.last(), start, end, op, vpn)
    } else {
        page_after(s.drop_last(), start, end, op, vpn)
    }
}

/// `pieces` are what area `a` becomes under `op` on `[start, end)`.
pub open spec fn pieces_of(
    pieces: Seq<MapArea>,
    a: MapArea,
    start: int,
    end: int,
    op: Option<MappingFlags>,
) -> bool {
    &&& forall|k: int| 0 <= k < pieces.len() ==> (#[trigger] pieces[k]).wf()
    &&& forall|k: int, vpn: int|
        0 <= k < pieces.len() && #[trigger] pieces[k].covers(vpn) ==> a.covers(vpn) && Some(
            pieces[k].info(vpn),
        ) == changed(a, start, end, op, vpn)
    &&& forall|vpn: int|
        a.covers(vpn) && (#[trigger] changed(a, start, end, op, vpn)) is Some ==> exists|k: int|
            0 <= k < pieces.len() && #[trigger] pieces[k].covers(vpn)
}

/// The area overlaps `[start, end)` in the sense of `MapArea::overlap_with`.
pub open spec fn overlaps(a: MapArea, start: int, end: int) -> bool {
    a.vaddr <= start < a.spec_end() || start <= a.vaddr < end
}

/// The page-table and frame work of unmapping `[start, end)` from area `a`.
pub open spec fn area_cut_ops(a: MapArea, start: int, end: int) -> Seq<MemOp> {
    let ks = (start - a.vaddr) / 4096;
    let ke = (end - a.vaddr) / 4096;
    if !overlaps(a, start, end) {
        Seq::empty()
    } else if start <= a.vaddr && a.spec_end() <= end {
        seq![MemOp::Unmap { start: a.vaddr, size: (a.pages@.len() * 4096) as usize }] + free_ops(
            a.pages@,
        )
    } else if a.vaddr < start && end < a.spec_end() {
        free_ops(a.pages@.subrange(ks, ke)).push(
            MemOp::Unmap { start: start as usize, size: (end - start) as usize },
        )
    } else if start <= a.vaddr && a.vaddr < end {
        free_ops(a.pages@.subrange(0, ke)).push(
            MemOp::Unmap { start: a.vaddr, size: (end - a.vaddr) as usize },
        )
    } else {
        free_ops(a.pages@.subrange(ks, a.pages@.len() as int)).push(
            MemOp::Unmap { start: start as usize, size: (a.spec_end() - start) as usize },
        )
    }
}

/// The page-table work of giving `[start, end)` of area `a` the flags `f`.
pub open spec fn area_protect_ops(a: MapArea, start: int, end: int, f: MappingFlags) -> Seq<MemOp> {
    if !overlaps(a, start, end) {
        Seq::empty()
    } else if start <= a.vaddr && a.spec_end() <= end {
        seq![MemOp::Protect { start: a.vaddr, size: (a.pages@.len() * 4096) as usize, flags: f }]
    } else if a.vaddr < start && end < a.spec_end() {
        seq![MemOp::Protect { start: start as usize, size: (end - start) as usize, flags: f }]
    } else if start <= a.vaddr && a.vaddr < end {
        seq![MemOp::Protect { start: a.vaddr, size: (end - a.vaddr) as usize, flags: f }]
    } else {
        seq![MemOp::Protect { start: start as usize, size: (a.spec_end() - start) as usize, flags: f }]
    }
}

/// The work of operation `op` on `[start, end)` for area `a`.
pub open spec fn area_ops(a: MapArea, start: int, end: int, op: Option<MappingFlags>) -> Seq<MemOp> {
    match op {
        None => area_cut_ops(a, start, end),
        Some(f) => area_protect_ops(a, start, end, f),
    }
}

/// The work of operation `op` on `[start, end)` for each area of `s`, in order.
pub open spec fn ops_after(s: Seq<MapArea>, start: int, end: int, op: Option<MappingFlags>) -> Seq<
    MemOp,
>
    decreases s.len(),
{
    if s.len() == 0 {
        Seq::empty()
    } else {
        ops_after(s.drop_last(), start, end, op) + area_ops(s.last(), start, end, op)
    }
}

proof fn lemma_page_of_none(s: Seq<MapArea>, vpn: int)
    requires
        forall|j: int| 0 <= j < s.len() ==> !#[trigger] s[j].covers(vpn),
    ensures
        page_of(s, vpn) is None,
    decreases s.len(),
{
    if s.len() > 0 {
        assert(!s[s.len() - 1].covers(vpn));
        lemma_page_of_none(s.drop_last(), vpn);
    }
}

proof fn lemma_page_after_none(s: Seq<MapArea>, start: int, end: int, op: Option<MappingFlags>, vpn: int)
    requires
        forall|j: int| 0 <= j < s.len() ==> !#[trigger] s[j].covers(vpn),
    ensures
        page_after(s, start, end, op, vpn) is None,
    decreases s.len(),
{
    if s.len() > 0 {
        assert(!s[s.len() - 1].covers(vpn));
        lemma_page_after_none(s.drop_last(), start, end, op, vpn);
    }
}

/// Appending areas that all say `x` of page `vpn`, at least one of which
/// holds it, makes the page `x`; appending areas none of which holds it
/// leaves the page as it was.
proof fn lemma_page_of_append(s: Seq<MapArea>, t: Seq<MapArea>, vpn: int, x: Option<PageInfo>)
    requires
        forall|k: int| 0 <= k < t.len() && #[trigger] t[k].covers(vpn) ==> Some(t[k].info(vpn)) == x,
    ensures
        (exists|k: int| 0 <= k < t.len() && #[trigger] t[k].covers(vpn)) ==> page_of(s + t, vpn) == x,
        (forall|k: int| 0 <= k < t.len() ==> !#[trigger] t[k].covers(vpn)) ==> page_of(s + t, vpn)
            == page_of(s, vpn),
    decreases t.len(),
{
    if t.len() == 0 {
        assert(s + t =~= s);
    } else {
        let t2 = t.drop_last();
        assert((s + t).drop_last() =~= s + t2);
        assert((s + t).last() == t.last());
        lemma_page_of_append(s, t2, vpn, x);
        if t.last().covers(vpn) {
        } else {
            if exists|k: int| 0 <= k < t.len() && #[trigger] t[k].covers(vpn) {
                let k = choose|k: int| 0 <= k < t.len() && #[trigger] t[k].covers(vpn);
                assert(k < t.len() - 1);
                assert(t2[k] == t[k]);
            }
            assert forall|k: int| 0 <= k < t2.len() && #[trigger] t2[k].covers(vpn) implies Some(
                t2[k].info(vpn),
            ) == x by {
                assert(t2[k] == t[k]);
            }
        }
    }
}

/// An operation reaches exactly the pages in the range.
proof fn lemma_page_after_range(s: Seq<MapArea>, start: int, end: int, op: Option<MappingFlags>, vpn: int)
    requires
        start <= end,
    ensures
        page_after(s, start, end, op, vpn) == (if start / 4096 <= vpn < end / 4096 {
            match op {
                None => None,
                Some(f) => match page_of(s, vpn) {
                    Some(p) => Some(PageInfo { flags: f, ..p }),
                    None => None,
                },
            }
        } else {
            page_of(s, vpn)
        }),
    decreases s.len(),
{
    if s.len() > 0 {
        lemma_page_after_range(s.drop_last(), start, end, op, vpn);
    }
}

/// One step of an operation over the areas: the pieces of the next area
/// join the areas built so far.
proof fn lemma_step(
    built: Seq<MapArea>,
    pieces: Seq<MapArea>,
    processed: Seq<MapArea>,
    a: MapArea,
    start: int,
    end: int,
    op: Option<MappingFlags>,
)
    requires
        forall|vpn: int| page_of(built, vpn) == page_after(processed, start, end, op, vpn),
        forall|j: int, vpn: int|
            0 <= j < processed.len() && #[trigger] processed[j].covers(vpn) ==> !a.covers(vpn),
        pieces_of(pieces, a, start, end, op),
    ensures
        forall|vpn: int|
            page_of(built + pieces, vpn) == page_after(processed.push(a), start, end, op, vpn),
{
    assert forall|vpn: int|
        page_of(built + pieces, vpn) == page_after(processed.push(a), start, end, op, vpn) by {
        let p2 = processed.push(a);
        assert(p2.drop_last() =~= processed);
        assert(p2.last() == a);
        let x = changed(a, start, end, op, vpn);
        lemma_page_of_append(built, pieces, vpn, x);
        if a.covers(vpn) {
            if x is Some {
            } else {
                assert forall|k: int| 0 <= k < pieces.len() implies !(#[trigger] pieces[k]).covers(
                    vpn,
                ) by {}
                assert forall|j: int| 0 <= j < processed.len() implies !(
                #[trigger] processed[j]).covers(vpn) by {}
                lemma_page_after_none(processed, start, end, op, vpn);
            }
        } else {
            assert forall|k: int| 0 <= k < pieces.len() implies !(#[trigger] pieces[k]).covers(
                vpn,
            ) by {}
        }
    }
}

/// `x` comes after `y` in the order of (start, end) pairs.
pub open spec fn seg_gt(x: (usize, usize), y: (usize, usize)) -> bool {
    x.0 > y.0 || (x.0 == y.0 && x.1 > y.1)
}

/// Where `x` goes in `r`: before the first element that comes after it.
pub open spec fn insert_pos(r: Seq<(usize, usize)>, x: (usize, usize)) -> int
    decreases r.len(),
{
    if r.len() == 0 {
        0
    } else if seg_gt(r[0], x) {
        0
    } else {
        1 + insert_pos(r.drop_first(), x)
    }
}

/// `s` sorted by (start, end).
pub open spec fn sort_segs(s: Seq<(usize, usize)>) -> Seq<(usize, usize)>
    decreases s.len(),
{
    if s.len() == 0 {
        s
    } else {
        let r = sort_segs(s.drop_last());
        r.insert(insert_pos(r, s.last()), s.last())
    }
}

/// The first gap of at least `size` bytes from `last_end` on: before the
/// next segment, or after the last one while the range still fits in the
/// address space. Each segment passed moves `last_end` up to its end.
pub open spec fn first_fit(segs: Seq<(usize, usize)>, last_end: int, size: int) -> Option<int>
    decreases segs.len(),
{
    if segs.len() == 0 {
        if last_end + size <= usize::MAX {
            Some(last_end)
        } else {
            None
        }
    } else if last_end + size <= segs[0].0 {
        Some(last_end)
    } else {
        first_fit(
            segs.drop_first(),
            if segs[0].1 > last_end { segs[0].1 as int } else { last_end },
            size,
        )
    }
}

proof fn lemma_insert_pos_skip(r: Seq<(usize, usize)>, x: (usize, usize), p: int)
    requires
        0 <= p <= r.len(),
        forall|q: int| 0 <= q < p ==> !seg_gt(#[trigger] r[q], x),
    ensures
        insert_pos(r, x) == p + insert_pos(r.subrange(p, r.len() as int), x),
    decreases p,
{
    if p > 0 {
        assert(!seg_gt(r[0], x));
        let r1 = r.drop_first();
        assert forall|q: int| 0 <= q < p - 1 implies !seg_gt(#[trigger] r1[q], x) by {
            assert(r1[q] == r[q + 1]);
        }
        lemma_insert_pos_skip(r1, x, p - 1);
        assert(r1.subrange(p - 1, r1.len() as int) =~= r.subrange(p, r.len() as int));
    } else {
        assert(r.subrange(0, r.len() as int) =~= r);
    }
}

proof fn lemma_insert_pos_props(r: Seq<(usize, usize)>, x: (usize, usize))
    ensures
        0 <= insert_pos(r, x) <= r.len(),
        forall|q: int| 0 <= q < insert_pos(r, x) ==> !seg_gt(#[trigger] r[q], x),
        insert_pos(r, x) < r.len() ==> seg_gt(r[insert_pos(r, x)], x),
    decreases r.len(),
{
    if r.len() > 0 && !seg_gt(r[0], x) {
        let r1 = r.drop_first();
        lemma_insert_pos_props(r1, x);
        assert forall|q: int| 0 <= q < insert_pos(r, x) implies !seg_gt(#[trigger] r[q], x) by {
            if q > 0 {
                assert(r[q] == r1[q - 1]);
            }
        }
    }
}

/// Sorting keeps the elements and puts them in (start, end) order.
proof fn lemma_sort_segs(s: Seq<(usize, usize)>)
    ensures
        sort_segs(s).len() == s.len(),
        forall|x: (usize, usize)|
            #![trigger sort_segs(s).contains(x)]
            #![trigger s.contains(x)]
            sort_segs(s).contains(x) <==> s.contains(x),
        forall|i: int, j: int|
            0 <= i < j < s.len() ==> !seg_gt(#[trigger] sort_segs(s)[i], #[trigger] sort_segs(s)[j]),
    decreases s.len(),
{
    if s.len() > 0 {
        let s1 = s.drop_last();
        let x = s.last();
        lemma_sort_segs(s1);
        let r = sort_segs(s1);
        lemma_insert_pos_props(r, x);
        let p = insert_pos(r, x);
        let t = r.insert(p, x);
        assert(t == sort_segs(s));
        assert forall|y: (usize, usize)| t.contains(y) <==> s.contains(y) by {
            if t.contains(y) {
                let k = choose|k: int| 0 <= k < t.len() && t[k] == y;
                if k < p {
                    assert(r[k] == y);
                    assert(r.contains(y));
                    let m = choose|m: int| 0 <= m < s1.len() && s1[m] == y;
                    assert(s1[m] == s[m]);
                    assert(s[m] == y);
                } else if k == p {
                    assert(s[s.len() - 1] == y);
                } else {
                    assert(r[k - 1] == y);
                    assert(r.contains(y));
                    let m = choose|m: int| 0 <= m < s1.len() && s1[m] == y;
                    assert(s1[m] == s[m]);
                    assert(s[m] == y);
                }
            }
            if s.contains(y) {
                let m = choose|m: int| 0 <= m < s.len() && s[m] == y;
                if m == s.len() - 1 {
                    assert(t[p] == y);
                } else {
                    assert(s1[m] == y);
                    assert(s1.contains(y));
                    assert(r.contains(y));
                    let k = choose|k: int| 0 <= k < r.len() && r[k] == y;
                    if k < p {
                        assert(t[k] == y);
                    } else {
                        assert(t[k + 1] == y);
                    }
                }
            }
        }
        assert forall|i: int, j: int| 0 <= i < j < s.len() implies !seg_gt(
            #[trigger] t[i],
            #[trigger] t[j],
        ) by {
            if j < p {
                assert(t[i] == r[i] && t[j] == r[j]);
            } else if j == p {
                assert(t[i] == r[i]);
            } else if i < p {
                assert(t[i] == r[i] && t[j] == r[j - 1]);
                if p < r.len() {
                    assert(!seg_gt(r[p], r[j - 1]) || p == j - 1);
                }
            } else if i == p {
                assert(t[j] == r[j - 1]);
                assert(!seg_gt(r[p], r[j - 1]) || p == j - 1);
            } else {
                assert(t[i] == r[i - 1] && t[j] == r[j - 1]);
            }
        }
    }
}

/// Among segments in order of their starts, a gap that `first_fit` finds
/// starts at or above `le`, fits in the address space and overlaps none of
/// them.
proof fn lemma_first_fit_free(t: Seq<(usize, usize)>, le: int, size: int)
    requires
        0 <= size,
        forall|i: int, j: int| 0 <= i < j < t.len() ==> (#[trigger] t[i]).0 <= (#[trigger] t[j]).0,
    ensures
        first_fit(t, le, size) matches Some(a) ==> {
            &&& le <= a
            &&& a + size <= usize::MAX
            &&& (a == le || exists|k: int| 0 <= k < t.len() && a == (#[trigger] t[k]).1)
            &&& forall|i: int| 0 <= i < t.len() ==> (#[trigger] t[i]).1 <= a || a + size <= t[i].0
        },
    decreases t.len(),
{
    if t.len() > 0 {
        if le + size <= t[0].0 {
            assert forall|i: int| 0 <= i < t.len() implies (#[trigger] t[i]).1 <= le || le + size <= t[i].0 by {
                if i > 0 {
                    assert(t[0].0 <= t[i].0);
                }
            }
        } else {
            let t1 = t.drop_first();
            let le1 = if t[0].1 > le { t[0].1 as int } else { le };
            assert forall|i: int, j: int| 0 <= i < j < t1.len() implies (#[trigger] t1[i]).0 <= (#[trigger] t1[j]).0 by {
                assert(t1[i] == t[i + 1] && t1[j] == t[j + 1]);
            }
            lemma_first_fit_free(t1, le1, size);
            if let Some(a) = first_fit(t, le, size) {
                assert(first_fit(t1, le1, size) == Some(a));
                assert(a == le || exists|k: int| 0 <= k < t.len() && a == (#[trigger] t[k]).1) by {
                    if a != le1 {
                        let k = choose|k: int| 0 <= k < t1.len() && a == (#[trigger] t1[k]).1;
                        assert(t[k + 1] == t1[k]);
                    } else if a != le {
                        assert(a == t[0].1);
                    }
                }
                assert forall|i: int| 0 <= i < t.len() implies (#[trigger] t[i]).1 <= a || a + size <= t[i].0 by {
                    if i > 0 {
                        assert(t[i] == t1[i - 1]);
                    }
                }
            }
        }
    }
}

/// The range that `find_free_area` picks for a lowest start `last_end`
/// starts at or above `last_end`, fits in the address space, and overlaps
/// none of the segments, whatever they are.
pub proof fn lemma_free_area_is_free(segs: Seq<(usize, usize)>, last_end: int, size: int)
    requires
        0 <= size,
    ensures
        first_fit(sort_segs(segs), last_end, size) matches Some(a) ==> forall|i: int|
            0 <= i < segs.len() ==> (#[trigger] segs[i]).1 <= a || a + size <= segs[i].0,
        first_fit(sort_segs(segs), last_end, size) matches Some(a) ==> last_end <= a && a + size
            <= usize::MAX && (a == last_end || exists|k: int| 0 <= k < segs.len() && a == (#[trigger] segs[k]).1),
{
    lemma_sort_segs(segs);
    let t = sort_segs(segs);
    assert forall|i: int, j: int| 0 <= i < j < t.len() implies (#[trigger] t[i]).0 <= (#[trigger] t[j]).0 by {
        assert(!seg_gt(t[i], t[j]));
    }
    lemma_first_fit_free(t, last_end, size);
    if let Some(a) = first_fit(t, last_end, size) {
        assert forall|i: int| 0 <= i < segs.len() implies (#[trigger] segs[i]).1 <= a || a + size <= segs[i].0 by {
            assert(segs.contains(segs[i]));
            assert(t.contains(segs[i]));
            let k = choose|k: int| 0 <= k < t.len() && t[k] == segs[i];
            assert(t[k].1 <= a || a + size <= t[k].0);
        }
        if a != last_end {
            let k2 = choose|k: int| 0 <= k < t.len() && a == (#[trigger] t[k]).1;
            assert(t.contains(t[k2]));
            assert(segs.contains(t[k2]));
        }
    }
}

/// Sorts `segs` by (start, end).
fn sorted_segments(segs: &Vec<(usize, usize)>) -> (r: Vec<(usize, usize)>)
    ensures
        r@ == sort_segs(segs@),
{
    let mut r: Vec<(usize, usize)> = Vec::new();
    let mut i: usize = 0;
    while i < segs.len()
        invariant
            i <= segs@.len(),
            r@ == sort_segs(segs@.subrange(0, i as int)),
        decreases segs@.len() - i,
    {
        let x = segs[i];
        let mut p: usize = 0;
        while p < r.len() && !(r[p].0 > x.0 || (r[p].0 == x.0 && r[p].1 > x.1))
            invariant
                p <= r@.len(),
                forall|q: int| 0 <= q < p ==> !seg_gt(#[trigger] r@[q], x),
            decreases r@.len() - p,
        {
            p += 1;
        }
        proof {
            lemma_insert_pos_skip(r@, x, p as int);
            let sub = segs@.subrange(0, i + 1);
            assert(sub.drop_last() =~= segs@.subrange(0, i as int));
            assert(sub.last() == x);
        }
        r.insert(p, x);
        i += 1;
    }
    proof {
        assert(segs@.subrange(0, segs@.len() as int) =~= segs@);
    }
    r
}

/// Page `vpn` of a new region at `vaddr`.
pub open spec fn region_page(
    vaddr: int,
    flags: MappingFlags,
    frames: Option<usize>,
    backend: Option<MemBackend>,
    vpn: int,
) -> PageInfo {
    PageInfo {
        flags,
        frame: match frames {
            Some(b) => Some((b + (vpn - vaddr / 4096) * 4096) as usize),
            None => None,
        },
        file_pos: match backend {
            Some(m) => Some((m.file, (m.offset + (vpn - vaddr / 4096) * 4096) as u64)),
            None => None,
        },
    }
}

/// The page-table work of adding a region of `size` bytes at `vaddr`.
pub open spec fn region_op(vaddr: usize, size: usize, flags: MappingFlags, frames: Option<usize>) -> MemOp {
    match frames {
        Some(b) => MemOp::MapRegion { start: vaddr, paddr: b, size, flags },
        None => MemOp::MapFault { start: vaddr, size },
    }
}

/// `at` lies strictly inside area `a`.
pub open spec fn inside(a: MapArea, at: int) -> bool {
    a.vaddr < at < a.spec_end()
}

/// `t` is `s` with its area `j` cut in two at `at`: the part before `at`
/// and the part from `at` on, each keeping its pages, in place of it.
pub open spec fn cut_in_two(s: Seq<MapArea>, t: Seq<MapArea>, j: int, at: int) -> bool {
    &&& 0 <= j < s.len()
    &&& t.len() == s.len() + 1
    &&& t[j].is_slice_of(s[j], 0)
    &&& t[j].spec_end() == at
    &&& t[j + 1].is_slice_of(s[j], (at - s[j].vaddr) / 4096)
    &&& t[j + 1].vaddr == at
    &&& t[j + 1].spec_end() == s[j].spec_end()
    &&& forall|k: int| 0 <= k < j ==> t[k] == s[k]
    &&& forall|k: int| j < k < s.len() ==> #[trigger] t[k + 1] == s[k]
}

/// Cutting area `j` of well-formed areas `s` in two at `at`, strictly
/// inside it, keeps the areas well formed and every page as it was.
proof fn lemma_cut_in_two(s: Seq<MapArea>, t: Seq<MapArea>, j: int, at: int, left: MapArea, right: MapArea)
    requires
        forall|k: int| 0 <= k < s.len() ==> (#[trigger] s[k]).wf() && s[k].pages@.len() > 0,
        disjoint(s),
        laid_out(s),
        0 <= j < s.len(),
        inside(s[j], at),
        left.wf(),
        right.wf(),
        left.is_slice_of(s[j], 0),
        left.spec_end() == at,
        right.is_slice_of(s[j], (at - s[j].vaddr) / 4096),
        right.vaddr == at,
        right.spec_end() == s[j].spec_end(),
        t == s.update(j, left).insert(j + 1, right),
    ensures
        forall|k: int| 0 <= k < t.len() ==> (#[trigger] t[k]).wf() && t[k].pages@.len() > 0,
        disjoint(t),
        laid_out(t),
        forall|vpn: int| #[trigger] page_of(t, vpn) == page_of(s, vpn),
        cut_in_two(s, t, j, at),
{
    let a = s[j];
    assert(t[j] == left && t[j + 1] == right);
    assert forall|k: int| 0 <= k < j implies t[k] == s[k] by {}
    assert forall|k: int| j < k < s.len() implies #[trigger] t[k + 1] == s[k] by {}
    assert(cut_in_two(s, t, j, at));
    assert forall|k: int| 0 <= k < t.len() implies (#[trigger] t[k]).wf() && t[k].pages@.len() > 0 by {
        if k > j + 1 {
            assert(t[k] == s[k - 1]);
        }
    }
    assert forall|x: int, y: int|
        #![trigger t[x], t[y]]
        0 <= x < y < t.len() implies t[x].spec_end() <= t[y].vaddr && t[x].vaddr < t[y].vaddr by {
        let sx = if x <= j { x } else { x - 1 };
        let sy = if y <= j { y } else { y - 1 };
        if x != j && x != j + 1 && y != j && y != j + 1 {
            assert(t[x] == s[sx] && t[y] == s[sy]);
        } else if x == j && y == j + 1 {
        } else if y == j || y == j + 1 {
            assert(t[x] == s[x]);
            assert(s[x].spec_end() <= a.vaddr);
        } else {
            assert(t[y] == s[y - 1]);
            assert(a.spec_end() <= s[y - 1].vaddr);
        }
    }
    assert forall|x: int, y: int, vpn: int|
        0 <= x < t.len() && 0 <= y < t.len() && x != y && #[trigger] t[x].covers(vpn) implies !(
        #[trigger] t[y].covers(vpn)) by {
        let (p, q) = if x < y { (x, y) } else { (y, x) };
        assert(t[p].spec_end() <= t[q].vaddr);
        assert(t[p].wf());
    }
    assert forall|vpn: int| #[trigger] page_of(t, vpn) == page_of(s, vpn) by {
        if exists|k: int| 0 <= k < s.len() && #[trigger] s[k].covers(vpn) {
            let k = choose|k: int| 0 <= k < s.len() && #[trigger] s[k].covers(vpn);
            lemma_page_of_covered(s, k, vpn);
            if k < j {
                assert(t[k] == s[k]);
                lemma_page_of_covered(t, k, vpn);
            } else if k > j {
                assert(t[k + 1] == s[k]);
                lemma_page_of_covered(t, k + 1, vpn);
            } else if left.covers(vpn) {
                lemma_slice_info(left, a, 0, vpn);
                lemma_page_of_covered(t, j, vpn);
            } else {
                assert(right.covers(vpn));
                lemma_slice_info(right, a, (at - a.vaddr) / 4096, vpn);
                lemma_page_of_covered(t, j + 1, vpn);
            }
        } else {
            assert forall|k: int| 0 <= k < t.len() implies !#[trigger] t[k].covers(vpn) by {
                if k < j {
                    assert(t[k] == s[k]);
                } else if k > j + 1 {
                    assert(t[k] == s[k - 1]);
                } else if k == j {
                    if left.covers(vpn) {
                        lemma_slice_info(left, a, 0, vpn);
                    }
                } else {
                    if right.covers(vpn) {
                        lemma_slice_info(right, a, (at - a.vaddr) / 4096, vpn);
                    }
                }
            }
            lemma_page_of_none(t, vpn);
            lemma_page_of_none(s, vpn);
        }
    }
}

/// A shared-memory segment attached to the address space.
pub struct AttachedMem {
    pub start: usize,
    /// The physical start of the segment's frames.
    pub paddr: usize,
    pub size: usize,
    pub flags: MappingFlags,
    pub shmid: i32,
}

/// The user areas of an address space.
pub struct MemorySet {
    pub areas: Vec<MapArea>,
    pub attached: Vec<AttachedMem>,
    /// The lowest address handed out by `find_free_area`.
    pub user_memory_start: usize,
}

impl MemorySet {
    pub open spec fn wf(&self) -> bool {
        &&& forall|i: int| 0 <= i < self.areas@.len() ==> (#[trigger] self.areas@[i]).wf()
        &&& forall|i: int| 0 <= i < self.areas@.len() ==> (#[trigger] self.areas@[i]).pages@.len() > 0
        &&& disjoint(self.areas@)
        &&& laid_out(self.areas@)
        &&& forall|i: int|
            0 <= i < self.attached@.len() ==> #[trigger] self.attached@[i].start + self.attached@[i].size
                <= usize::MAX
    }

    /// The (start, end) ranges of the areas, then of the attached segments.
    pub open spec fn segments(&self) -> Seq<(usize, usize)> {
        self.areas@.map_values(|a: MapArea| (a.vaddr, a.spec_end() as usize)) + self.attached@.map_values(
            |m: AttachedMem| (m.start, (m.start + m.size) as usize),
        )
    }

    /// Where `find_free_area` puts a range of `size` bytes for `hint`.
    pub open spec fn free_area(&self, hint: int, size: int) -> Option<int> {
        first_fit(
            sort_segs(self.segments()),
            if hint >= self.user_memory_start { hint } else { self.user_memory_start as int },
            size,
        )
    }

    /// An empty memory set whose free-area search starts at `user_memory_start`.
    pub fn new_empty(user_memory_start: usize) -> (r: MemorySet)
        ensures
            r.wf(),
            r.areas@.len() == 0,
            r.attached@.len() == 0,
            r.user_memory_start == user_memory_start,
    {
        MemorySet { areas: Vec::new(), attached: Vec::new(), user_memory_start }
    }

    /// The end of the area with the highest start, or 0 without areas.
    pub fn max_va(&self) -> (r: usize)
        requires
            self.wf(),
        ensures
            self.areas@.len() == 0 ==> r == 0,
            self.areas@.len() > 0 ==> exists|i: int|
                0 <= i < self.areas@.len() && r == self.areas@[i].spec_end() && forall|j: int|
                    0 <= j < self.areas@.len() ==> #[trigger] self.areas@[j].vaddr <= self.areas@[i].vaddr,
    {
        if self.areas.len() == 0 {
            return 0;
        }
        let mut best: usize = 0;
        let mut i: usize = 1;
        while i < self.areas.len()
            invariant
                1 <= i <= self.areas@.len(),
                best < i,
                forall|j: int| 0 <= j < i ==> #[trigger] self.areas@[j].vaddr <= self.areas@[best as int].vaddr,
            decreases self.areas@.len() - i,
        {
            if self.areas[i].vaddr > self.areas[best].vaddr {
                best = i;
            }
            i += 1;
        }
        assert(self.areas@[best as int].wf());
        self.areas[best].end_va()
    }

    /// Adds a region of `size` bytes (rounded up to pages) at `vaddr`.
    ///
    /// With `frames`, the region is backed by the contiguous frames that
    /// start there, which hold its data; without, it is loaded lazily.
    #[verifier::rlimit(40)]
    pub fn new_region(
        &mut self,
        vaddr: usize,
        size: usize,
        flags: MappingFlags,
        frames: Option<usize>,
        backend: Option<MemBackend>,
    ) -> (ops: Vec<MemOp>)
        requires
            old(self).wf(),
            vaddr % 4096 == 0,
            0 < size <= usize::MAX - 4095,
            vaddr + (size + 4095) / 4096 * 4096 <= usize::MAX,
            frames matches Some(b) ==> b + (size + 4095) / 4096 * 4096 <= usize::MAX,
            backend matches Some(b) ==> b.offset + (size + 4095) / 4096 * 4096 <= i64::MAX,
            forall|j: int|
                0 <= j < old(self).areas@.len() ==> (#[trigger] old(self).areas@[j].spec_end() <= vaddr
                    || old(self).areas@[j].vaddr >= vaddr + (size + 4095) / 4096 * 4096)
                    && old(self).areas@[j].vaddr != vaddr,
        ensures
            final(self).wf(),
            final(self).areas@.len() == old(self).areas@.len() + 1,
            exists|idx: int|
                0 <= idx <= old(self).areas@.len() && final(self).areas@ == old(self).areas@.insert(
                    idx,
                    final(self).areas@[idx],
                ) && final(self).areas@[idx].vaddr == vaddr && final(self).areas@[idx].flags == flags
                    && final(self).areas@[idx].backend == backend && final(self).areas@[idx].pages@.len() == (size
                    + 4095) / 4096,
            forall|vpn: int|
                #[trigger] final(self).page(vpn) == (if vaddr / 4096 <= vpn < vaddr / 4096 + (size + 4095) / 4096 {
                    Some(region_page(vaddr as int, flags, frames, backend, vpn))
                } else {
                    old(self).page(vpn)
                }),
            ops@ == seq![region_op(vaddr, ((size + 4095) / 4096 * 4096) as usize, flags, frames)],
            final(self).attached@ == old(self).attached@,
            final(self).user_memory_start == old(self).user_memory_start,
    {
        let num_pages = (size + (PAGE_SIZE_4K - 1)) / PAGE_SIZE_4K;
        let mut ops: Vec<MemOp> = Vec::new();
        let area = match frames {
            Some(base) => MapArea::new_alloc(vaddr, num_pages, base, flags, backend, &mut ops),
            None => MapArea::new_lazy(vaddr, num_pages, flags, backend, &mut ops),
        };
        let mut idx: usize = 0;
        while idx < self.areas.len() && self.areas[idx].vaddr < vaddr
            invariant
                self.wf(),
                idx <= self.areas@.len(),
                forall|j: int| 0 <= j < idx ==> (#[trigger] self.areas@[j]).vaddr < vaddr,
            decreases self.areas@.len() - idx,
        {
            idx += 1;
        }
        let ghost before = self.areas@;
        let ghost na = area;
        let ghost end = vaddr + (size + 4095) / 4096 * 4096;
        proof {
            assert(na.spec_end() == end);
            assert forall|j: int| idx <= j < before.len() implies (#[trigger] before[j]).vaddr >= end by {
                assert(before[idx as int].vaddr >= vaddr);
                if j > idx {
                    assert(before[idx as int].vaddr < before[j].vaddr);
                }
                assert(before[j].wf());
            }
            assert forall|j: int| 0 <= j < idx implies (#[trigger] before[j]).spec_end() <= vaddr by {
                assert(before[j].wf());
            }
        }
        self.areas.insert(idx, area);
        proof {
            let t = self.areas@;
            assert(t == before.insert(idx as int, na));
            assert forall|k: int| 0 <= k < t.len() implies (#[trigger] t[k]).wf() && t[k].pages@.len() > 0 by {
                if k < idx {
                    assert(t[k] == before[k]);
                } else if k > idx {
                    assert(t[k] == before[k - 1]);
                }
            }
            assert forall|x: int, y: int|
                #![trigger t[x], t[y]]
                0 <= x < y < t.len() implies t[x].spec_end() <= t[y].vaddr && t[x].vaddr < t[y].vaddr by {
                if y < idx {
                    assert(t[x] == before[x] && t[y] == before[y]);
                } else if x > idx {
                    assert(t[x] == before[x - 1] && t[y] == before[y - 1]);
                } else if x == idx {
                    assert(t[y] == before[y - 1]);
                } else if y == idx {
                    assert(t[x] == before[x]);
                } else {
                    assert(t[x] == before[x] && t[y] == before[y - 1]);
                    assert(before[x].spec_end() <= vaddr);
                }
            }
            assert forall|x: int, y: int, vpn: int|
                0 <= x < t.len() && 0 <= y < t.len() && x != y && #[trigger] t[x].covers(vpn) implies !(
                #[trigger] t[y].covers(vpn)) by {
                let (p, q) = if x < y { (x, y) } else { (y, x) };
                assert(t[p].spec_end() <= t[q].vaddr);
                assert(t[p].wf());
            }
            assert forall|vpn: int|
                #[trigger] self.page(vpn) == (if vaddr / 4096 <= vpn < vaddr / 4096 + (size + 4095) / 4096 {
                    Some(region_page(vaddr as int, flags, frames, backend, vpn))
                } else {
                    old(self).page(vpn)
                }) by {
                lemma_page_of_insert(before, idx as int, na, vpn);
            }
            assert(ops@ =~= seq![region_op(vaddr, ((size + 4095) / 4096 * 4096) as usize, flags, frames)]);
            assert(t[idx as int] == na);
        }
        ops
    }

    /// Finds a free range of `size` bytes, searching upwards from `hint`
    /// (but not below `user_memory_start`): the first gap before a segment
    /// that holds it, else the space after the last segment, if the range
    /// fits in the address space there. Returns its start.
    pub fn find_free_area(&self, hint: usize, size: usize) -> (r: Option<usize>)
        requires
            self.wf(),
        ensures
            r == (match self.free_area(hint as int, size as int) {
                Some(a) => Some(a as usize),
                None => None,
            }),
            r matches Some(a) ==> a >= hint && a >= self.user_memory_start && a + size <= usize::MAX,
            r matches Some(a) ==> forall|i: int|
                0 <= i < self.segments().len() ==> (#[trigger] self.segments()[i]).1 <= a || a + size
                    <= self.segments()[i].0,
    {
        let mut segs: Vec<(usize, usize)> = Vec::new();
        let mut i: usize = 0;
        while i < self.areas.len()
            invariant
                self.wf(),
                i <= self.areas@.len(),
                segs@ == self.areas@.subrange(0, i as int).map_values(
                    |a: MapArea| (a.vaddr, a.spec_end() as usize),
                ),
            decreases self.areas@.len() - i,
        {
            assert(self.areas@[i as int].wf());
            segs.push((self.areas[i].vaddr, self.areas[i].end_va()));
            proof {
                assert(self.areas@.subrange(0, i + 1).map_values(
                    |a: MapArea| (a.vaddr, a.spec_end() as usize),
                ) =~= segs@);
            }
            i += 1;
        }
        let mut k: usize = 0;
        while k < self.attached.len()
            invariant
                self.wf(),
                k <= self.attached@.len(),
                segs@ == self.areas@.map_values(|a: MapArea| (a.vaddr, a.spec_end() as usize))
                    + self.attached@.subrange(0, k as int).map_values(
                    |m: AttachedMem| (m.start, (m.start + m.size) as usize),
                ),
            decreases self.attached@.len() - k,
        {
            let m = &self.attached[k];
            assert(self.attached@[k as int].start + self.attached@[k as int].size <= usize::MAX);
            segs.push((m.start, m.start + m.size));
            proof {
                assert(self.attached@.subrange(0, k + 1).map_values(
                    |m: AttachedMem| (m.start, (m.start + m.size) as usize),
                ) =~= self.attached@.subrange(0, k as int).map_values(
                    |m: AttachedMem| (m.start, (m.start + m.size) as usize),
                ).push((m.start, (m.start + m.size) as usize)));
            }
            k += 1;
        }
        proof {
            assert(self.areas@.subrange(0, self.areas@.len() as int) =~= self.areas@);
            assert(self.attached@.subrange(0, self.attached@.len() as int) =~= self.attached@);
            assert(segs@ =~= self.segments());
        }
        let sorted = sorted_segments(&segs);
        let mut last_end: usize = if hint >= self.user_memory_start {
            hint
        } else {
            self.user_memory_start
        };
        let ghost l0 = last_end as int;
        let mut j: usize = 0;
        assert(sorted@.subrange(0, sorted@.len() as int) =~= sorted@);
        while j < sorted.len()
            invariant
                j <= sorted@.len(),
                sorted@ == sort_segs(self.segments()),
                l0 == (if hint >= self.user_memory_start { hint as int } else { self.user_memory_start as int }),
                first_fit(sorted@, l0, size as int) == first_fit(
                    sorted@.subrange(j as int, sorted@.len() as int),
                    last_end as int,
                    size as int,
                ),
            decreases sorted@.len() - j,
        {
            let (st, en) = sorted[j];
            proof {
                let sub = sorted@.subrange(j as int, sorted@.len() as int);
                assert(sub[0] == sorted@[j as int]);
                assert(sub.drop_first() =~= sorted@.subrange(j + 1, sorted@.len() as int));
            }
            if last_end <= st && size <= st - last_end {
                proof {
                    let sub = sorted@.subrange(j as int, sorted@.len() as int);
                    assert(first_fit(sub, last_end as int, size as int) == Some(last_end as int));
                    assert(first_fit(sort_segs(self.segments()), l0, size as int) == Some(last_end as int));
                    lemma_free_area_is_free(self.segments(), l0, size as int);
                }
                return Some(last_end);
            }
            if en > last_end {
                last_end = en;
            }
            j += 1;
        }
        proof {
            let sub = sorted@.subrange(j as int, sorted@.len() as int);
            assert(sub.len() == 0);
            lemma_free_area_is_free(self.segments(), l0, size as int);
        }
        if size <= usize::MAX - last_end {
            Some(last_end)
        } else {
            None
        }
    }

    /// What the memory set holds at virtual page number `vpn`.
    pub open spec fn page(&self, vpn: int) -> Option<PageInfo> {
        page_of(self.areas@, vpn)
    }

    /// Cuts `[start, end)` out of `area`, returning what is left of it.
    fn cut_area(area: MapArea, start: usize, end: usize, ops: &mut Vec<MemOp>) -> (pieces: Vec<
        MapArea,
    >)
        requires
            area.wf(),
            area.pages@.len() > 0,
            start % 4096 == 0,
            end % 4096 == 0,
            start < end,
        ensures
            pieces_of(pieces@, area, start as int, end as int, None),
            forall|k: int| 0 <= k < pieces@.len() ==> (#[trigger] pieces@[k]).pages@.len() > 0,
            disjoint(pieces@),
            laid_out(pieces@),
            forall|k: int| 0 <= k < pieces@.len() ==> within(#[trigger] pieces@[k], area),
            forall|k: int|
                0 <= k < pieces@.len() ==> (#[trigger] pieces@[k].spec_end() <= start
                    || pieces@[k].vaddr >= end) && pieces@[k].vaddr != start,
            final(ops)@ == old(ops)@ + area_cut_ops(area, start as int, end as int),
    {
        let ghost a = area;
        let mut area = area;
        let mut pieces: Vec<MapArea> = Vec::new();
        if !area.overlap_with(start, end) {
            pieces.push(area);
            proof {
                assert forall|vpn: int| a.covers(vpn) implies !hit(a, start as int, end as int, vpn) by {}
                assert forall|vpn: int| a.covers(vpn) && (#[trigger] changed(a, start as int, end as int, None, vpn)) is Some
                    implies exists|k: int| 0 <= k < pieces@.len() && #[trigger] pieces@[k].covers(vpn) by {
                    assert(pieces@[0].covers(vpn));
                }
            }
        } else if area.contained_in(start, end) {
            area.dealloc(ops);
            proof {
                assert(seq![MemOp::Unmap { start: a.vaddr, size: (a.pages@.len() * 4096) as usize }]
                    + free_ops(a.pages@) =~= seq![].push(MemOp::Unmap { start: a.vaddr, size: (a.pages@.len() * 4096) as usize }) + free_ops(a.pages@));
                assert(old(ops)@.push(MemOp::Unmap { start: a.vaddr, size: (a.pages@.len() * 4096) as usize }) + free_ops(a.pages@)
                    =~= old(ops)@ + area_cut_ops(a, start as int, end as int));
            }
        } else if area.strict_contain(start, end) {
            let right = area.remove_mid(start, end, ops);
            let ghost left = area;
            pieces.push(area);
            pieces.push(right);
            proof {
                assert forall|k: int, vpn: int|
                    0 <= k < pieces@.len() && #[trigger] pieces@[k].covers(vpn) implies a.covers(vpn)
                        && Some(pieces@[k].info(vpn)) == changed(a, start as int, end as int, None, vpn) by {
                    if k == 0 {
                        lemma_slice_info(left, a, 0, vpn);
                    } else {
                        lemma_slice_info(right, a, (end - a.vaddr) / 4096, vpn);
                    }
                }
                assert forall|vpn: int| a.covers(vpn) && (#[trigger] changed(a, start as int, end as int, None, vpn)) is Some
                    implies exists|k: int| 0 <= k < pieces@.len() && #[trigger] pieces@[k].covers(vpn) by {
                    if vpn < start / 4096 {
                        assert(pieces@[0].covers(vpn));
                    } else {
                        assert(pieces@[1].covers(vpn));
                    }
                }
            }
        } else if start <= area.vaddr && area.vaddr < end {
            area.shrink_left(end, ops);
            pieces.push(area);
            proof {
                assert forall|k: int, vpn: int|
                    0 <= k < pieces@.len() && #[trigger] pieces@[k].covers(vpn) implies a.covers(vpn)
                        && Some(pieces@[k].info(vpn)) == changed(a, start as int, end as int, None, vpn) by {
                    lemma_slice_info(pieces@[0], a, (end - a.vaddr) / 4096, vpn);
                }
                assert forall|vpn: int| a.covers(vpn) && (#[trigger] changed(a, start as int, end as int, None, vpn)) is Some
                    implies exists|k: int| 0 <= k < pieces@.len() && #[trigger] pieces@[k].covers(vpn) by {
                    assert(pieces@[0].covers(vpn));
                }
            }
        } else {
            area.shrink_right(start, ops);
            pieces.push(area);
            proof {
                assert forall|k: int, vpn: int|
                    0 <= k < pieces@.len() && #[trigger] pieces@[k].covers(vpn) implies a.covers(vpn)
                        && Some(pieces@[k].info(vpn)) == changed(a, start as int, end as int, None, vpn) by {
                    lemma_slice_info(pieces@[0], a, 0, vpn);
                }
                assert forall|vpn: int| a.covers(vpn) && (#[trigger] changed(a, start as int, end as int, None, vpn)) is Some
                    implies exists|k: int| 0 <= k < pieces@.len() && #[trigger] pieces@[k].covers(vpn) by {
                    assert(pieces@[0].covers(vpn));
                }
            }
        }
        pieces
    }

    /// Gives `[start, end)` of `area` the flags `flags`, splitting it where
    /// the range ends inside it.
    fn protect_area(
        area: MapArea,
        start: usize,
        end: usize,
        flags: MappingFlags,
        ops: &mut Vec<MemOp>,
    ) -> (pieces: Vec<MapArea>)
        requires
            area.wf(),
            area.pages@.len() > 0,
            start % 4096 == 0,
            end % 4096 == 0,
            start < end,
        ensures
            pieces_of(pieces@, area, start as int, end as int, Some(flags)),
            forall|k: int| 0 <= k < pieces@.len() ==> (#[trigger] pieces@[k]).pages@.len() > 0,
            disjoint(pieces@),
            laid_out(pieces@),
            forall|k: int| 0 <= k < pieces@.len() ==> within(#[trigger] pieces@[k], area),
            final(ops)@ == old(ops)@ + area_protect_ops(area, start as int, end as int, flags),
    {
        let ghost a = area;
        let ghost op = Some(flags);
        let mut area = area;
        let mut pieces: Vec<MapArea> = Vec::new();
        if !area.overlap_with(start, end) {
            pieces.push(area);
            proof {
                assert forall|vpn: int| a.covers(vpn) && (#[trigger] changed(a, start as int, end as int, op, vpn)) is Some
                    implies exists|k: int| 0 <= k < pieces@.len() && #[trigger] pieces@[k].covers(vpn) by {
                    assert(pieces@[0].covers(vpn));
                }
            }
        } else if area.contained_in(start, end) {
            area.update_flags(flags, ops);
            pieces.push(area);
            proof {
                assert forall|vpn: int| a.covers(vpn) && (#[trigger] changed(a, start as int, end as int, op, vpn)) is Some
                    implies exists|k: int| 0 <= k < pieces@.len() && #[trigger] pieces@[k].covers(vpn) by {
                    assert(pieces@[0].covers(vpn));
                }
            }
        } else if area.strict_contain(start, end) {
            let (mut mid, right) = area.split3(start, end);
            mid.update_flags(flags, ops);
            let ghost left = area;
            let ghost midv = mid;
            pieces.push(area);
            pieces.push(mid);
            pieces.push(right);
            proof {
                assert(start < end);
                assert(pieces@[0].spec_end() == start && pieces@[0].vaddr == a.vaddr);
                assert(pieces@[1].vaddr == start && pieces@[1].spec_end() == end);
                assert(pieces@[2].vaddr == end && pieces@[2].spec_end() == a.spec_end());
                assert(laid_out(pieces@));
                assert forall|k: int, vpn: int|
                    0 <= k < pieces@.len() && #[trigger] pieces@[k].covers(vpn) implies a.covers(vpn)
                        && Some(pieces@[k].info(vpn)) == changed(a, start as int, end as int, op, vpn) by {
                    if k == 1 {
                        let m0 = MapArea { flags: a.flags, ..midv };
                        assert(m0.is_slice_of(a, (start - a.vaddr) / 4096));
                        lemma_slice_info(m0, a, (start - a.vaddr) / 4096, vpn);
                    } else if k == 2 {
                        lemma_slice_info(right, a, (end - a.vaddr) / 4096, vpn);
                    } else {
                        lemma_slice_info(left, a, 0, vpn);
                    }
                }
                assert forall|vpn: int| a.covers(vpn) && (#[trigger] changed(a, start as int, end as int, op, vpn)) is Some
                    implies exists|k: int| 0 <= k < pieces@.len() && #[trigger] pieces@[k].covers(vpn) by {
                    if vpn < start / 4096 {
                        assert(pieces@[0].covers(vpn));
                    } else if vpn < end / 4096 {
                        assert(pieces@[1].covers(vpn));
                    } else {
                        assert(pieces@[2].covers(vpn));
                    }
                }
            }
        } else if start <= area.vaddr && area.vaddr < end {
            let right = area.split(end);
            area.update_flags(flags, ops);
            let ghost leftv = area;
            pieces.push(area);
            pieces.push(right);
            proof {
                assert(pieces@[0].spec_end() == end && pieces@[0].vaddr == a.vaddr);
                assert(pieces@[1].vaddr == end && pieces@[1].spec_end() == a.spec_end());
                assert(laid_out(pieces@));
                assert forall|k: int, vpn: int|
                    0 <= k < pieces@.len() && #[trigger] pieces@[k].covers(vpn) implies a.covers(vpn)
                        && Some(pieces@[k].info(vpn)) == changed(a, start as int, end as int, op, vpn) by {
                    if k == 1 {
                        lemma_slice_info(right, a, (end - a.vaddr) / 4096, vpn);
                    } else {
                        let l0 = MapArea { flags: a.flags, ..leftv };
                        assert(l0.is_slice_of(a, 0));
                        lemma_slice_info(l0, a, 0, vpn);
                    }
                }
                assert forall|vpn: int| a.covers(vpn) && (#[trigger] changed(a, start as int, end as int, op, vpn)) is Some
                    implies exists|k: int| 0 <= k < pieces@.len() && #[trigger] pieces@[k].covers(vpn) by {
                    if vpn < end / 4096 {
                        assert(pieces@[0].covers(vpn));
                    } else {
                        assert(pieces@[1].covers(vpn));
                    }
                }
            }
        } else {
            let mut right = area.split(start);
            right.update_flags(flags, ops);
            let ghost rightv = right;
            pieces.push(area);
            pieces.push(right);
            proof {
                assert(pieces@[0].spec_end() == start && pieces@[0].vaddr == a.vaddr);
                assert(pieces@[1].vaddr == start && pieces@[1].spec_end() == a.spec_end());
                assert(a.vaddr < start);
                assert(laid_out(pieces@));
                assert forall|k: int, vpn: int|
                    0 <= k < pieces@.len() && #[trigger] pieces@[k].covers(vpn) implies a.covers(vpn)
                        && Some(pieces@[k].info(vpn)) == changed(a, start as int, end as int, op, vpn) by {
                    if k == 1 {
                        let r0 = MapArea { flags: a.flags, ..rightv };
                        assert(r0.is_slice_of(a, (start - a.vaddr) / 4096));
                        lemma_slice_info(r0, a, (start - a.vaddr) / 4096, vpn);
                    } else {
                        lemma_slice_info(pieces@[0], a, 0, vpn);
                    }
                }
                assert forall|vpn: int| a.covers(vpn) && (#[trigger] changed(a, start as int, end as int, op, vpn)) is Some
                    implies exists|k: int| 0 <= k < pieces@.len() && #[trigger] pieces@[k].covers(vpn) by {
                    if vpn < start / 4096 {
                        assert(pieces@[0].covers(vpn));
                    } else {
                        assert(pieces@[1].covers(vpn));
                    }
                }
            }
        }
        pieces
    }

    /// Applies `op` to `[start, end)` of every area.
    fn apply(&mut self, start: usize, end: usize, op: Option<MappingFlags>, ops: &mut Vec<MemOp>)
        requires
            old(self).wf(),
            start % 4096 == 0,
            end % 4096 == 0,
            start < end,
        ensures
            final(self).wf(),
            forall|vpn: int|
                #[trigger] final(self).page(vpn) == page_after(
                    old(self).areas@,
                    start as int,
                    end as int,
                    op,
                    vpn,
                ),
            final(ops)@ == old(ops)@ + ops_after(old(self).areas@, start as int, end as int, op),
            op is None ==> forall|j: int|
                0 <= j < final(self).areas@.len() ==> (#[trigger] final(self).areas@[j].spec_end() <= start
                    || final(self).areas@[j].vaddr >= end) && final(self).areas@[j].vaddr != start,
            final(self).attached@ == old(self).attached@,
            final(self).user_memory_start == old(self).user_memory_start,
    {
        let mut rest: Vec<MapArea> = Vec::new();
        std::mem::swap(&mut rest, &mut self.areas);
        let ghost orig = rest@;
        let ghost mut i: int = 0;
        while rest.len() > 0
            invariant
                0 <= i <= orig.len(),
                rest@ == orig.subrange(i, orig.len() as int),
                forall|j: int| 0 <= j < orig.len() ==> (#[trigger] orig[j]).wf(),
                forall|j: int| 0 <= j < orig.len() ==> (#[trigger] orig[j]).pages@.len() > 0,
                forall|j: int| 0 <= j < self.areas@.len() ==> (#[trigger] self.areas@[j]).pages@.len() > 0,
                disjoint(orig),
                laid_out(orig),
                laid_out(self.areas@),
                i < orig.len() ==> forall|j: int|
                    0 <= j < self.areas@.len() ==> (#[trigger] self.areas@[j]).spec_end() <= orig[i].vaddr
                        && self.areas@[j].vaddr < orig[i].vaddr,
                start % 4096 == 0,
                end % 4096 == 0,
                start < end,
                self.attached@ == old(self).attached@,
                self.user_memory_start == old(self).user_memory_start,
                forall|j: int| 0 <= j < self.areas@.len() ==> (#[trigger] self.areas@[j]).wf(),
                disjoint(self.areas@),
                forall|j: int, vpn: int|
                    0 <= j < self.areas@.len() && #[trigger] self.areas@[j].covers(vpn) ==> exists|
                        m: int,
                    | 0 <= m < i && #[trigger] orig[m].covers(vpn),
                forall|vpn: int|
                    page_of(self.areas@, vpn) == page_after(
                        orig.subrange(0, i),
                        start as int,
                        end as int,
                        op,
                        vpn,
                    ),
                ops@ == old(ops)@ + ops_after(orig.subrange(0, i), start as int, end as int, op),
                op is None ==> forall|j: int|
                    0 <= j < self.areas@.len() ==> (#[trigger] self.areas@[j].spec_end() <= start
                        || self.areas@[j].vaddr >= end) && self.areas@[j].vaddr != start,
            decreases rest@.len(),
        {
            let area = rest.remove(0);
            assert(area == orig[i]);
            let ghost built = self.areas@;
            let ghost ops0 = ops@;
            let mut pieces = match op {
                None => Self::cut_area(area, start, end, ops),
                Some(f) => Self::protect_area(area, start, end, f, ops),
            };
            proof {
                let processed = orig.subrange(0, i);
                assert forall|j: int, vpn: int|
                    0 <= j < processed.len() && #[trigger] processed[j].covers(vpn) implies !area.covers(
                    vpn,
                ) by {
                    assert(processed[j] == orig[j]);
                }
                lemma_step(built, pieces@, processed, area, start as int, end as int, op);
                assert(orig.subrange(0, i + 1) =~= processed.push(area));
                assert(orig.subrange(0, i + 1).drop_last() =~= processed);
                assert(ops@ == old(ops)@ + ops_after(orig.subrange(0, i + 1), start as int, end as int, op));
            }
            let ghost pieces_v = pieces@;
            self.areas.append(&mut pieces);
            proof {
                assert(self.areas@ =~= built + pieces_v);
                assert forall|x: int, y: int|
                    #![trigger self.areas@[x], self.areas@[y]]
                    0 <= x < y < self.areas@.len() implies self.areas@[x].spec_end() <= self.areas@[y].vaddr
                        && self.areas@[x].vaddr < self.areas@[y].vaddr by {
                    if y < built.len() {
                        assert(self.areas@[x] == built[x]);
                        assert(self.areas@[y] == built[y]);
                    } else if x >= built.len() {
                        assert(self.areas@[x] == pieces_v[x - built.len()]);
                        assert(self.areas@[y] == pieces_v[y - built.len()]);
                    } else {
                        assert(self.areas@[x] == built[x]);
                        assert(self.areas@[y] == pieces_v[y - built.len()]);
                        assert(within(pieces_v[y - built.len()], area));
                        assert(built[x].spec_end() <= area.vaddr);
                    }
                }
                if i + 1 < orig.len() {
                    assert(orig[i].spec_end() <= orig[i + 1].vaddr && orig[i].vaddr < orig[i + 1].vaddr);
                    assert forall|j: int|
                        0 <= j < self.areas@.len() implies (#[trigger] self.areas@[j]).spec_end() <= orig[i + 1].vaddr
                            && self.areas@[j].vaddr < orig[i + 1].vaddr by {
                        if j < built.len() {
                            assert(self.areas@[j] == built[j]);
                        } else {
                            assert(self.areas@[j] == pieces_v[j - built.len()]);
                            assert(within(pieces_v[j - built.len()], area));
                        }
                    }
                }
                assert forall|j: int, vpn: int|
                    0 <= j < self.areas@.len() && #[trigger] self.areas@[j].covers(vpn) implies exists|
                        m: int,
                    | 0 <= m < i + 1 && #[trigger] orig[m].covers(vpn) by {
                    if j < built.len() {
                        assert(self.areas@[j] == built[j]);
                        let m = choose|m: int| 0 <= m < i && #[trigger] orig[m].covers(vpn);
                        assert(orig[m].covers(vpn));
                    } else {
                        assert(self.areas@[j] == pieces_v[j - built.len()]);
                        assert(orig[i].covers(vpn));
                    }
                }
                assert forall|a: int, b: int, vpn: int|
                    0 <= a < self.areas@.len() && 0 <= b < self.areas@.len() && a != b
                        && #[trigger] self.areas@[a].covers(vpn) implies !(
                    #[trigger] self.areas@[b].covers(vpn)) by {
                    if a < built.len() && b < built.len() {
                        assert(self.areas@[a] == built[a]);
                        assert(self.areas@[b] == built[b]);
                    } else if a >= built.len() && b >= built.len() {
                        assert(self.areas@[a] == pieces_v[a - built.len()]);
                        assert(self.areas@[b] == pieces_v[b - built.len()]);
                    } else {
                        let (x, y) = if a < built.len() { (a, b) } else { (b, a) };
                        if self.areas@[a].covers(vpn) && self.areas@[b].covers(vpn) {
                            assert(self.areas@[x] == built[x]);
                            assert(self.areas@[y] == pieces_v[y - built.len()]);
                            assert(built[x].covers(vpn));
                            let m = choose|m: int| 0 <= m < i && #[trigger] orig[m].covers(vpn);
                            assert(orig[i].covers(vpn));
                            assert(orig[m].covers(vpn));
                        }
                    }
                }
                assert(op is None ==> forall|j: int|
                    0 <= j < self.areas@.len() ==> (#[trigger] self.areas@[j].spec_end() <= start
                        || self.areas@[j].vaddr >= end) && self.areas@[j].vaddr != start) by {
                    if op is None {
                        assert forall|j: int| 0 <= j < self.areas@.len() implies (#[trigger] self.areas@[j].spec_end() <= start
                            || self.areas@[j].vaddr >= end) && self.areas@[j].vaddr != start by {
                            if j < built.len() {
                                assert(self.areas@[j] == built[j]);
                            } else {
                                assert(self.areas@[j] == pieces_v[j - built.len()]);
                            }
                        }
                    }
                }
                i = i + 1;
            }
        }
        proof {
            assert(orig.subrange(0, i) =~= orig);
        }
    }

    /// Cuts in two the area that `at` lies strictly inside, if any; no page
    /// changes.
    fn split_at(&mut self, at: usize) -> (ops: Vec<MemOp>)
        requires
            old(self).wf(),
            at % 4096 == 0,
        ensures
            final(self).wf(),
            forall|vpn: int| #[trigger] final(self).page(vpn) == old(self).page(vpn),
            (forall|j: int| 0 <= j < old(self).areas@.len() ==> !inside(#[trigger] old(self).areas@[j], at as int))
                ==> final(self).areas@ == old(self).areas@ && ops@.len() == 0,
            forall|j: int|
                0 <= j < old(self).areas@.len() && inside(#[trigger] old(self).areas@[j], at as int) ==> cut_in_two(
                    old(self).areas@,
                    final(self).areas@,
                    j,
                    at as int,
                ) && ops@ == seq![MemOp::Unmap { start: at, size: 0 }],
            final(self).attached@ == old(self).attached@,
            final(self).user_memory_start == old(self).user_memory_start,
    {
        let mut ops: Vec<MemOp> = Vec::new();
        let ghost s = self.areas@;
        match self.find_area(at) {
            None => {
                ops
            },
            Some(j) => {
                if self.areas[j].vaddr == at {
                    proof {
                        assert forall|k: int| 0 <= k < s.len() implies !inside(#[trigger] s[k], at as int) by {
                            if inside(s[k], at as int) {
                                assert(s[k].wf());
                                assert(s[j as int].wf());
                                assert(s[k].covers(at as int / 4096));
                                assert(s[j as int].covers(at as int / 4096));
                            }
                        }
                    }
                    return ops;
                }
                let mut left = self.areas.remove(j);
                let right = left.split(at);
                self.areas.insert(j, left);
                let n = self.areas.len();
                assert(j < n);
                self.areas.insert(j + 1, right);
                ops.push(MemOp::Unmap { start: at, size: 0 });
                proof {
                    let t = self.areas@;
                    let a = s[j as int];
                    assert(a.wf());
                    assert(t =~= s.update(j as int, left).insert(j + 1, right));
                    lemma_cut_in_two(s, t, j as int, at as int, left, right);
                    assert forall|k: int| 0 <= k < s.len() && inside(#[trigger] s[k], at as int) implies k == j by {
                        if k != j {
                            assert(s[k].wf());
                            assert(s[k].covers(at as int / 4096));
                            assert(a.covers(at as int / 4096));
                        }
                    }
                    assert(ops@ =~= seq![MemOp::Unmap { start: at, size: 0 }]);
                }
                ops
            },
        }
    }

    /// Unmaps `[start, start + size)`: areas inside it are dropped, areas
    /// that reach into it are shrunk or split, and their pages there freed.
    /// An empty range unmaps no page; it only cuts in two an area that
    /// `start` lies strictly inside. Flush the TLB after this.
    pub fn split_for_area(&mut self, start: usize, size: usize) -> (ops: Vec<MemOp>)
        requires
            old(self).wf(),
            start % 4096 == 0,
            size % 4096 == 0,
            start + size <= usize::MAX,
        ensures
            final(self).wf(),
            forall|vpn: int|
                #[trigger] final(self).page(vpn) == (if start / 4096 <= vpn < (start + size) / 4096 {
                    None
                } else {
                    old(self).page(vpn)
                }),
            size > 0 ==> forall|j: int|
                0 <= j < final(self).areas@.len() ==> (#[trigger] final(self).areas@[j].spec_end() <= start
                    || final(self).areas@[j].vaddr >= start + size) && final(self).areas@[j].vaddr != start,
            size > 0 ==> ops@ == ops_after(old(self).areas@, start as int, start + size, None),
            size == 0 && (forall|j: int| 0 <= j < old(self).areas@.len() ==> !inside(#[trigger] old(self).areas@[j], start as int))
                ==> final(self).areas@ == old(self).areas@ && ops@.len() == 0,
            size == 0 ==> forall|j: int|
                0 <= j < old(self).areas@.len() && inside(#[trigger] old(self).areas@[j], start as int) ==> cut_in_two(
                    old(self).areas@,
                    final(self).areas@,
                    j,
                    start as int,
                ) && ops@ == seq![MemOp::Unmap { start, size: 0 }],
            final(self).attached@ == old(self).attached@,
            final(self).user_memory_start == old(self).user_memory_start,
    {
        if size == 0 {
            return self.split_at(start);
        }
        let mut ops: Vec<MemOp> = Vec::new();
        self.apply(start, start + size, None, &mut ops);
        assert(ops@ =~= ops_after(old(self).areas@, start as int, start + size, None));
        proof {
            assert forall|vpn: int|
                #[trigger] self.page(vpn) == (if start / 4096 <= vpn < (start + size) / 4096 {
                    None
                } else {
                    old(self).page(vpn)
                }) by {
                lemma_page_after_range(old(self).areas@, start as int, start + size, None, vpn);
            }
        }
        ops
    }

    /// Gives `[start, start + size)` the flags `flags`, splitting the areas
    /// that reach into it; an empty range changes nothing. The TLB is
    /// flushed before and after.
    pub fn mprotect(&mut self, start: usize, size: usize, flags: MappingFlags) -> (ops: Vec<MemOp>)
        requires
            old(self).wf(),
            start % 4096 == 0,
            size % 4096 == 0,
            start + size <= usize::MAX,
        ensures
            final(self).wf(),
            forall|vpn: int|
                #[trigger] final(self).page(vpn) == (if start / 4096 <= vpn < (start + size) / 4096 {
                    match old(self).page(vpn) {
                        Some(p) => Some(PageInfo { flags, ..p }),
                        None => None,
                    }
                } else {
                    old(self).page(vpn)
                }),
            size > 0 ==> ops@ == seq![MemOp::FlushTlb] + ops_after(
                old(self).areas@,
                start as int,
                start + size,
                Some(flags),
            ).push(MemOp::FlushTlb),
            size == 0 ==> final(self).areas@ == old(self).areas@ && ops@ == seq![MemOp::FlushTlb, MemOp::FlushTlb],
            final(self).attached@ == old(self).attached@,
            final(self).user_memory_start == old(self).user_memory_start,
    {
        let mut ops: Vec<MemOp> = Vec::new();
        ops.push(MemOp::FlushTlb);
        if size > 0 {
            self.apply(start, start + size, Some(flags), &mut ops);
            proof {
                assert forall|vpn: int|
                    #[trigger] self.page(vpn) == (if start / 4096 <= vpn < (start + size) / 4096 {
                        match old(self).page(vpn) {
                            Some(p) => Some(PageInfo { flags, ..p }),
                            None => None,
                        }
                    } else {
                        old(self).page(vpn)
                    }) by {
                    lemma_page_after_range(old(self).areas@, start as int, start + size, Some(flags), vpn);
                }
            }
        }
        ops.push(MemOp::FlushTlb);
        proof {
            if size == 0 {
                assert(ops@ =~= seq![MemOp::FlushTlb, MemOp::FlushTlb]);
            }
        }
        ops
    }

    /// Maps `size` bytes (a whole number of pages) lazily at `start`,
    /// unmapping what was there.
    fn mmap_fixed(
        &mut self,
        start: usize,
        size: usize,
        flags: MappingFlags,
        backend: Option<MemBackend>,
    ) -> (ops: Vec<MemOp>)
        requires
            old(self).wf(),
            start % 4096 == 0,
            size % 4096 == 0,
            0 < size <= usize::MAX - 4095,
            start + size <= usize::MAX,
            backend matches Some(b) ==> b.offset + size <= i64::MAX,
        ensures
            final(self).wf(),
            final(self).attached@ == old(self).attached@,
            final(self).user_memory_start == old(self).user_memory_start,
            forall|vpn: int|
                #[trigger] final(self).page(vpn) == (if start / 4096 <= vpn < (start + size) / 4096 {
                    Some(region_page(start as int, flags, None, backend, vpn))
                } else {
                    old(self).page(vpn)
                }),
            ops@ == ops_after(old(self).areas@, start as int, start + size, None) + seq![
                MemOp::MapFault { start, size },
                MemOp::FlushTlb,
            ],
    {
        let mut ops = self.split_for_area(start, size);
        let ghost mid = *self;
        let ghost ops1 = ops@;
        assert((size + 4095) / 4096 * 4096 == size);
        let mut more = self.new_region(start, size, flags, None, backend);
        ops.append(&mut more);
        ops.push(MemOp::FlushTlb);
        proof {
            assert forall|vpn: int|
                #[trigger] self.page(vpn) == (if start / 4096 <= vpn < (start + size) / 4096 {
                    Some(region_page(start as int, flags, None, backend, vpn))
                } else {
                    old(self).page(vpn)
                }) by {
                assert(mid.page(vpn) == (if start / 4096 <= vpn < (start + size) / 4096 {
                    None
                } else {
                    old(self).page(vpn)
                }));
            }
            assert(ops@ =~= ops1 + seq![MemOp::MapFault { start, size }, MemOp::FlushTlb]);
        }
        ops
    }

    /// Maps `size` bytes (a whole number of pages) lazily at the first free
    /// range from `hint` on. Returns its start, or `None`.
    #[verifier::rlimit(40)]
    fn mmap_anywhere(
        &mut self,
        hint: usize,
        size: usize,
        flags: MappingFlags,
        backend: Option<MemBackend>,
    ) -> (r: (Option<usize>, Vec<MemOp>))
        requires
            old(self).wf(),
            hint % 4096 == 0,
            size % 4096 == 0,
            0 < size <= usize::MAX - 4095,
            backend matches Some(b) ==> b.offset + size <= i64::MAX,
            old(self).user_memory_start % 4096 == 0,
            forall|i: int|
                0 <= i < old(self).attached@.len() ==> (#[trigger] old(self).attached@[i].start
                    + old(self).attached@[i].size) % 4096 == 0,
        ensures
            final(self).wf(),
            final(self).attached@ == old(self).attached@,
            final(self).user_memory_start == old(self).user_memory_start,
            r.0 == (match old(self).free_area(hint as int, size as int) {
                Some(a) => Some(a as usize),
                None => None,
            }),
            old(self).free_area(hint as int, size as int) matches Some(a) ==> 0 <= a <= usize::MAX,
            r.0 matches Some(a) ==> forall|vpn: int|
                #[trigger] final(self).page(vpn) == (if a / 4096 <= vpn < (a + size) / 4096 {
                    Some(region_page(a as int, flags, None, backend, vpn))
                } else {
                    old(self).page(vpn)
                }),
            r.0 matches Some(a) ==> r.1@ == seq![MemOp::MapFault { start: a, size }, MemOp::FlushTlb],
            r.0 is None ==> final(self).areas@ == old(self).areas@ && r.1@.len() == 0,
    {
        match self.find_free_area(hint, size) {
            Some(a) => {
                proof {
                    let segs = old(self).segments();
                    let l0 = if hint >= self.user_memory_start { hint as int } else { self.user_memory_start as int };
                    lemma_free_area_is_free(segs, l0, size as int);
                    assert((size + 4095) / 4096 * 4096 == size);
                    assert forall|j: int|
                        0 <= j < self.areas@.len() implies (#[trigger] self.areas@[j].spec_end() <= a
                            || self.areas@[j].vaddr >= a + (size + 4095) / 4096 * 4096)
                            && self.areas@[j].vaddr != a by {
                        assert(segs[j] == (self.areas@[j].vaddr, self.areas@[j].spec_end() as usize));
                        assert(self.areas@[j].wf());
                    }
                    assert(a % 4096 == 0) by {
                        if a != l0 {
                            let k = choose|k: int| 0 <= k < segs.len() && a == (#[trigger] segs[k]).1;
                            if k < self.areas@.len() {
                                assert(segs[k] == (self.areas@[k].vaddr, self.areas@[k].spec_end() as usize));
                                assert(self.areas@[k].wf());
                            } else {
                                let m = k - self.areas@.len();
                                assert(segs[k] == (self.attached@[m].start, (self.attached@[m].start
                                    + self.attached@[m].size) as usize));
                            }
                        }
                    }
                }
                let mut ops = self.new_region(a, size, flags, None, backend);
                ops.push(MemOp::FlushTlb);
                proof {
                    assert(ops@ =~= seq![MemOp::MapFault { start: a, size }, MemOp::FlushTlb]);
                }
                (Some(a), ops)
            },
            None => {
                proof {
                    let l0 = if hint >= self.user_memory_start { hint as int } else { self.user_memory_start as int };
                    lemma_free_area_is_free(old(self).segments(), l0, size as int);
                }
                (None, Vec::new())
            },
        }
    }

    /// Maps `size` bytes (rounded up to pages) lazily, at `start` when
    /// `fixed` (unmapping what was there), else at the first free range
    /// from `start` on. Returns the start, or -1 when no range is free.
    /// A size of 0 maps no page and adds no area.
    pub fn mmap(
        &mut self,
        start: usize,
        size: usize,
        flags: MappingFlags,
        fixed: bool,
        backend: Option<MemBackend>,
    ) -> (r: (isize, Vec<MemOp>))
        requires
            old(self).wf(),
            start % 4096 == 0,
            size <= usize::MAX - 4095,
            backend matches Some(b) ==> b.offset + (size + 4095) / 4096 * 4096 <= i64::MAX,
            fixed ==> start + (size + 4095) / 4096 * 4096 <= usize::MAX,
            !fixed ==> old(self).user_memory_start % 4096 == 0,
            !fixed ==> forall|i: int|
                0 <= i < old(self).attached@.len() ==> (#[trigger] old(self).attached@[i].start
                    + old(self).attached@[i].size) % 4096 == 0,
        ensures
            final(self).wf(),
            final(self).attached@ == old(self).attached@,
            final(self).user_memory_start == old(self).user_memory_start,
            ({
                let sz = (size + 4095) / 4096 * 4096;
                let at = if fixed {
                    Some(start as int)
                } else {
                    old(self).free_area(start as int, sz)
                };
                match at {
                    Some(a) => {
                        &&& r.0 == (a as usize) as isize
                        &&& forall|vpn: int|
                            #[trigger] final(self).page(vpn) == (if a / 4096 <= vpn < (a + sz) / 4096 {
                                Some(region_page(a, flags, None, backend, vpn))
                            } else {
                                old(self).page(vpn)
                            })
                        &&& r.1@ == (if fixed && sz > 0 {
                            ops_after(old(self).areas@, start as int, start + sz, None)
                        } else {
                            Seq::empty()
                        }) + seq![MemOp::MapFault { start: a as usize, size: sz as usize }, MemOp::FlushTlb]
                    },
                    None => {
                        &&& r.0 == -1
                        &&& final(self).areas@ == old(self).areas@
                        &&& r.1@.len() == 0
                    },
                }
            }),
            size == 0 ==> final(self).areas@ == old(self).areas@,
    {
        let size = (size + (PAGE_SIZE_4K - 1)) / PAGE_SIZE_4K * PAGE_SIZE_4K;
        if size == 0 {
            let at = if fixed {
                Some(start)
            } else {
                self.find_free_area(start, 0)
            };
            return match at {
                Some(a) => {
                    let mut ops: Vec<MemOp> = Vec::new();
                    ops.push(MemOp::MapFault { start: a, size: 0 });
                    ops.push(MemOp::FlushTlb);
                    proof {
                        assert(Seq::<MemOp>::empty() + ops@ =~= ops@);
                    }
                    (a as isize, ops)
                },
                None => (-1, Vec::new()),
            };
        }
        if fixed {
            let ops = self.mmap_fixed(start, size, flags, backend);
            (start as isize, ops)
        } else {
            let (at, ops) = self.mmap_anywhere(start, size, flags, backend);
            match at {
                Some(a) => {
                    assert(Seq::<MemOp>::empty() + ops@ =~= ops@);
                    (a as isize, ops)
                },
                None => (-1, ops),
            }
        }
    }

    /// Unmaps `[start, start + size)` (size rounded up to pages); a size of
    /// 0 unmaps no page and only cuts in two an area that `start` lies
    /// strictly inside.
    pub fn munmap(&mut self, start: usize, size: usize) -> (ops: Vec<MemOp>)
        requires
            old(self).wf(),
            start % 4096 == 0,
            size <= usize::MAX - 4095,
            start + (size + 4095) / 4096 * 4096 <= usize::MAX,
        ensures
            final(self).wf(),
            forall|vpn: int|
                #[trigger] final(self).page(vpn) == (if start / 4096 <= vpn < (start + (size + 4095) / 4096
                    * 4096) / 4096 {
                    None
                } else {
                    old(self).page(vpn)
                }),
            size > 0 ==> ops@ == ops_after(old(self).areas@, start as int, start + (size + 4095) / 4096 * 4096, None),
            size == 0 && (forall|j: int| 0 <= j < old(self).areas@.len() ==> !inside(#[trigger] old(self).areas@[j], start as int))
                ==> final(self).areas@ == old(self).areas@ && ops@.len() == 0,
            size == 0 ==> forall|j: int|
                0 <= j < old(self).areas@.len() && inside(#[trigger] old(self).areas@[j], start as int) ==> cut_in_two(
                    old(self).areas@,
                    final(self).areas@,
                    j,
                    start as int,
                ) && ops@ == seq![MemOp::Unmap { start, size: 0 }],
            final(self).attached@ == old(self).attached@,
            final(self).user_memory_start == old(self).user_memory_start,
    {
        let size = (size + (PAGE_SIZE_4K - 1)) / PAGE_SIZE_4K * PAGE_SIZE_4K;
        self.split_for_area(start, size)
    }
}

/// What the page table holds for the page of a lazily loaded address.
#[derive(Clone, Copy, PartialEq, Eq, Structural)]
pub enum EntryQuery {
    /// A present translation.
    Present,
    /// An entry without a translation, with its flags.
    Absent { flags: MappingFlags },
    /// No entry can be had for the address.
    Invalid,
}

/// A loaded page to write back to the file of its area.
#[derive(Clone, Copy, Debug, PartialEq, Eq, Structural)]
pub struct SyncOp {
    pub frame: usize,
    pub file: usize,
    /// The position in the file: the page's index in its area, in bytes.
    pub pos: u64,
}

/// The write-backs of the first `n` pages of area `a` that lie in `[start, end)`.
pub open spec fn area_sync_ops(a: MapArea, start: int, end: int, n: int) -> Seq<SyncOp>
    decreases n,
{
    if n <= 0 {
        Seq::empty()
    } else {
        let k = n - 1;
        let va = a.vaddr + k * 4096;
        area_sync_ops(a, start, end, k) + if start <= va < end && a.pages@[k] is Some && a.backend is Some {
            seq![SyncOp { frame: a.pages@[k]->0, file: a.backend->0.file, pos: (k * 4096) as u64 }]
        } else {
            Seq::empty()
        }
    }
}

/// The write-backs of `msync` on `[start, end)` for the areas `s`, in order.
pub open spec fn sync_ops(s: Seq<MapArea>, start: int, end: int) -> Seq<SyncOp>
    decreases s.len(),
{
    if s.len() == 0 {
        Seq::empty()
    } else {
        sync_ops(s.drop_last(), start, end) + area_sync_ops(s.last(), start, end, s.last().pages@.len() as int)
    }
}

/// The write-back of page `k` of area `a`.
pub open spec fn write_back(a: MapArea, k: int) -> SyncOp {
    SyncOp { frame: a.pages@[k]->0, file: a.backend->0.file, pos: (k * 4096) as u64 }
}

/// Page `k` of area `a` is loaded, from a file, and lies in `[start, end)`.
pub open spec fn synced_page(a: MapArea, k: int, start: int, end: int) -> bool {
    &&& 0 <= k < a.pages@.len()
    &&& a.backend is Some
    &&& a.pages@[k] is Some
    &&& start <= a.vaddr + k * 4096 < end
}

proof fn lemma_contains_concat(p: Seq<SyncOp>, q: Seq<SyncOp>, x: SyncOp)
    ensures
        (p + q).contains(x) <==> p.contains(x) || q.contains(x),
{
    if (p + q).contains(x) {
        let i = choose|i: int| 0 <= i < (p + q).len() && (p + q)[i] == x;
        if i < p.len() {
            assert(p[i] == x);
        } else {
            assert(q[i - p.len()] == x);
        }
    }
    if p.contains(x) {
        let i = choose|i: int| 0 <= i < p.len() && p[i] == x;
        assert((p + q)[i] == x);
    }
    if q.contains(x) {
        let i = choose|i: int| 0 <= i < q.len() && q[i] == x;
        assert((p + q)[p.len() + i] == x);
    }
}

proof fn lemma_area_sync_members(a: MapArea, start: int, end: int, n: int)
    requires
        0 <= n <= a.pages@.len(),
    ensures
        forall|k: int| 0 <= k < n && synced_page(a, k, start, end) ==> area_sync_ops(a, start, end, n).contains(
            #[trigger] write_back(a, k),
        ),
        forall|x: SyncOp|
            area_sync_ops(a, start, end, n).contains(x) ==> exists|k: int|
                0 <= k < n && synced_page(a, k, start, end) && x == #[trigger] write_back(a, k),
    decreases n,
{
    if n > 0 {
        let k0 = n - 1;
        lemma_area_sync_members(a, start, end, k0);
        let p = area_sync_ops(a, start, end, k0);
        let va = a.vaddr + k0 * 4096;
        let q = if start <= va < end && a.pages@[k0] is Some && a.backend is Some {
            seq![SyncOp { frame: a.pages@[k0]->0, file: a.backend->0.file, pos: (k0 * 4096) as u64 }]
        } else {
            Seq::empty()
        };
        assert(area_sync_ops(a, start, end, n) == p + q);
        assert forall|k: int| 0 <= k < n && synced_page(a, k, start, end) implies area_sync_ops(a, start, end, n).contains(
            #[trigger] write_back(a, k),
        ) by {
            lemma_contains_concat(p, q, write_back(a, k));
            if k == k0 {
                assert(q[0] == write_back(a, k));
            }
        }
        assert forall|x: SyncOp| area_sync_ops(a, start, end, n).contains(x) implies exists|k: int|
            0 <= k < n && synced_page(a, k, start, end) && x == #[trigger] write_back(a, k) by {
            lemma_contains_concat(p, q, x);
            if !p.contains(x) {
                assert(q.contains(x));
                assert(q[0] == x);
                assert(x == write_back(a, k0));
            }
        }
    }
}

/// `msync` writes back exactly the loaded pages of file-backed areas that
/// lie in the range: each such page `k` of an area, from its frame to its
/// file at position `k` pages, and nothing else.
pub proof fn lemma_msync_writes_back(s: Seq<MapArea>, start: int, end: int)
    ensures
        forall|i: int, k: int|
            0 <= i < s.len() && synced_page(s[i], k, start, end) ==> sync_ops(s, start, end).contains(
                #[trigger] write_back(s[i], k),
            ),
        forall|x: SyncOp|
            sync_ops(s, start, end).contains(x) ==> exists|i: int, k: int|
                0 <= i < s.len() && synced_page(s[i], k, start, end) && x == #[trigger] write_back(s[i], k),
    decreases s.len(),
{
    if s.len() > 0 {
        let s0 = s.drop_last();
        let a = s.last();
        lemma_msync_writes_back(s0, start, end);
        lemma_area_sync_members(a, start, end, a.pages@.len() as int);
        let p = sync_ops(s0, start, end);
        let q = area_sync_ops(a, start, end, a.pages@.len() as int);
        assert(sync_ops(s, start, end) == p + q);
        assert forall|i: int, k: int|
            0 <= i < s.len() && synced_page(s[i], k, start, end) implies sync_ops(s, start, end).contains(
            #[trigger] write_back(s[i], k),
        ) by {
            lemma_contains_concat(p, q, write_back(s[i], k));
            if i < s.len() - 1 {
                assert(s0[i] == s[i]);
            }
        }
        assert forall|x: SyncOp| sync_ops(s, start, end).contains(x) implies exists|i: int, k: int|
            0 <= i < s.len() && synced_page(s[i], k, start, end) && x == #[trigger] write_back(s[i], k) by {
            lemma_contains_concat(p, q, x);
            if p.contains(x) {
                let (i, k) = choose|i: int, k: int|
                    0 <= i < s0.len() && synced_page(s0[i], k, start, end) && x == #[trigger] write_back(s0[i], k);
                assert(s[i] == s0[i]);
            } else {
                let k = choose|k: int| 0 <= k < a.pages@.len() && synced_page(a, k, start, end) && x == #[trigger] write_back(a, k);
                assert(s[s.len() - 1] == a);
            }
        }
    }
}

/// The work of unmapping all the areas `s`, in order.
pub open spec fn dealloc_ops(s: Seq<MapArea>) -> Seq<MemOp>
    decreases s.len(),
{
    if s.len() == 0 {
        Seq::empty()
    } else {
        dealloc_ops(s.drop_last()) + seq![MemOp::Unmap { start: s.last().vaddr, size: (s.last().pages@.len() * 4096) as usize }]
            + free_ops(s.last().pages@)
    }
}

/// A page held by area `i` of disjoint areas is what that area says.
proof fn lemma_page_of_covered(s: Seq<MapArea>, i: int, vpn: int)
    requires
        0 <= i < s.len(),
        disjoint(s),
        s[i].covers(vpn),
    ensures
        page_of(s, vpn) == Some(s[i].info(vpn)),
    decreases s.len(),
{
    if i < s.len() - 1 {
        assert(!s.last().covers(vpn));
        assert forall|a: int, c: int, v: int|
            0 <= a < s.drop_last().len() && 0 <= c < s.drop_last().len() && a != c
                && #[trigger] s.drop_last()[a].covers(v) implies !(#[trigger] s.drop_last()[c].covers(v)) by {
            assert(s.drop_last()[a] == s[a]);
            assert(s.drop_last()[c] == s[c]);
        }
        assert(s.drop_last()[i] == s[i]);
        lemma_page_of_covered(s.drop_last(), i, vpn);
    }
}

/// Inserting area `a` among disjoint areas that it does not meet adds its
/// pages and leaves the others as they were.
proof fn lemma_page_of_insert(s: Seq<MapArea>, idx: int, a: MapArea, vpn: int)
    requires
        0 <= idx <= s.len(),
        disjoint(s.insert(idx, a)),
    ensures
        page_of(s.insert(idx, a), vpn) == if a.covers(vpn) {
            Some(a.info(vpn))
        } else {
            page_of(s, vpn)
        },
{
    let t = s.insert(idx, a);
    assert(t[idx] == a);
    assert forall|x: int, y: int, v: int|
        0 <= x < s.len() && 0 <= y < s.len() && x != y && #[trigger] s[x].covers(v) implies !(#[trigger] s[y].covers(v)) by {
        let x2 = if x < idx { x } else { x + 1 };
        let y2 = if y < idx { y } else { y + 1 };
        assert(t[x2] == s[x]);
        assert(t[y2] == s[y]);
    }
    if a.covers(vpn) {
        lemma_page_of_covered(t, idx, vpn);
    } else if exists|m: int| 0 <= m < s.len() && #[trigger] s[m].covers(vpn) {
        let m = choose|m: int| 0 <= m < s.len() && #[trigger] s[m].covers(vpn);
        let m2 = if m < idx { m } else { m + 1 };
        assert(t[m2] == s[m]);
        lemma_page_of_covered(t, m2, vpn);
        lemma_page_of_covered(s, m, vpn);
    } else {
        lemma_page_of_none(s, vpn);
        assert forall|j: int| 0 <= j < t.len() implies !#[trigger] t[j].covers(vpn) by {
            if j < idx {
                assert(t[j] == s[j]);
            } else if j > idx {
                assert(t[j] == s[j - 1]);
            }
        }
        lemma_page_of_none(t, vpn);
    }
}

/// The pages of `s` where area `i` is replaced by `b`, which holds the same
/// pages, are what `b` says on them and what `s` said elsewhere.
proof fn lemma_page_of_update(s: Seq<MapArea>, i: int, b: MapArea, vpn: int)
    requires
        0 <= i < s.len(),
        disjoint(s),
        b.vaddr == s[i].vaddr,
        b.pages@.len() == s[i].pages@.len(),
    ensures
        page_of(s.update(i, b), vpn) == if s[i].covers(vpn) {
            Some(b.info(vpn))
        } else {
            page_of(s, vpn)
        },
    decreases s.len(),
{
    let t = s.update(i, b);
    if i == s.len() - 1 {
        assert(t.drop_last() =~= s.drop_last());
    } else {
        assert(t.last() == s.last());
        assert(t.drop_last() =~= s.drop_last().update(i, b));
        if s.last().covers(vpn) {
            assert(!s[i].covers(vpn));
        } else {
            assert forall|a: int, c: int, v: int|
                0 <= a < s.drop_last().len() && 0 <= c < s.drop_last().len() && a != c
                    && #[trigger] s.drop_last()[a].covers(v) implies !(#[trigger] s.drop_last()[c].covers(v)) by {
                assert(s.drop_last()[a] == s[a]);
                assert(s.drop_last()[c] == s[c]);
            }
            lemma_page_of_update(s.drop_last(), i, b, vpn);
        }
    }
}

impl MemorySet {
    /// The area that holds `addr`, if any.
    pub fn find_area(&self, addr: usize) -> (r: Option<usize>)
        requires
            self.wf(),
        ensures
            r matches Some(i) ==> i < self.areas@.len() && self.areas@[i as int].vaddr <= addr
                < self.areas@[i as int].spec_end(),
            r is None ==> forall|i: int|
                0 <= i < self.areas@.len() ==> !(#[trigger] self.areas@[i].vaddr <= addr < self.areas@[i].spec_end()),
    {
        let mut i: usize = 0;
        while i < self.areas.len()
            invariant
                self.wf(),
                i <= self.areas@.len(),
                forall|j: int| 0 <= j < i ==> !(#[trigger] self.areas@[j].vaddr <= addr < self.areas@[j].spec_end()),
            decreases self.areas@.len() - i,
        {
            assert(self.areas@[i as int].wf());
            if self.areas[i].vaddr <= addr && addr < self.areas[i].end_va() {
                return Some(i);
            }
            i += 1;
        }
        None
    }

    /// Where a page fault at `addr` with access `flags` loads a page: the
    /// area and its page slot. `BadAddress` when the access is not allowed
    /// or the page is already loaded.
    pub fn page_fault_target(&self, addr: usize, flags: MappingFlags) -> (r: Result<(usize, usize), AxError>)
        requires
            self.wf(),
            exists|i: int| 0 <= i < self.areas@.len() && #[trigger] self.areas@[i].vaddr <= addr < self.areas@[i].spec_end(),
        ensures
            r matches Ok((i, k)) ==> i < self.areas@.len() && self.areas@[i as int].vaddr <= addr
                < self.areas@[i as int].spec_end() && self.areas@[i as int].flags.has(flags) && k == (addr
                - self.areas@[i as int].vaddr) / 4096 && self.areas@[i as int].pages@[k as int] is None,
            r is Err ==> r == Err::<(usize, usize), AxError>(AxError::BadAddress) && forall|i: int|
                0 <= i < self.areas@.len() && #[trigger] self.areas@[i].vaddr <= addr < self.areas@[i].spec_end()
                    ==> !(self.areas@[i].flags.has(flags) && self.areas@[i].pages@[(addr - self.areas@[i].vaddr)
                    / 4096] is None),
    {
        match self.find_area(addr) {
            Some(i) => {
                assert(self.areas@[i as int].wf());
                match self.areas[i].page_fault_slot(addr, flags) {
                    Some(k) => Ok((i, k)),
                    None => {
                        proof {
                            assert forall|j: int|
                                0 <= j < self.areas@.len() && #[trigger] self.areas@[j].vaddr <= addr
                                    < self.areas@[j].spec_end() implies !(self.areas@[j].flags.has(flags)
                                && self.areas@[j].pages@[(addr - self.areas@[j].vaddr) / 4096] is None) by {
                                if j != i {
                                    let vpn = addr as int / 4096;
                                    assert(self.areas@[j].covers(vpn));
                                    assert(self.areas@[i as int].covers(vpn));
                                }
                            }
                        }
                        Err(AxError::BadAddress)
                    },
                }
            },
            None => {
                assert(false);
                Err(AxError::BadAddress)
            },
        }
    }

    /// Puts the newly loaded frame `frame` in slot `k` of area `i` and maps it.
    pub fn load_page(&mut self, i: usize, k: usize, frame: usize) -> (ops: Vec<MemOp>)
        requires
            old(self).wf(),
            i < old(self).areas@.len(),
            k < old(self).areas@[i as int].pages@.len(),
        ensures
            final(self).wf(),
            final(self).attached@ == old(self).attached@,
            final(self).user_memory_start == old(self).user_memory_start,
            final(self).areas@.len() == old(self).areas@.len(),
            forall|vpn: int|
                #[trigger] final(self).page(vpn) == if vpn == old(self).areas@[i as int].start_vpn() + k {
                    Some(PageInfo { frame: Some(frame), ..old(self).areas@[i as int].info(vpn) })
                } else {
                    old(self).page(vpn)
                },
            ops@ == seq![
                MemOp::MapPage {
                    vaddr: (old(self).areas@[i as int].vaddr + k * 4096) as usize,
                    paddr: frame,
                    flags: old(self).areas@[i as int].flags,
                },
            ],
    {
        let mut ops: Vec<MemOp> = Vec::new();
        let mut area = self.areas.remove(i);
        let ghost before = old(self).areas@;
        area.install_page(k, frame, &mut ops);
        let ghost b = area;
        self.areas.insert(i, area);
        proof {
            assert(self.areas@ =~= before.update(i as int, b));
            assert(before[i as int].wf());
            assert forall|vpn: int| #[trigger] self.page(vpn) == if vpn == before[i as int].start_vpn() + k {
                Some(PageInfo { frame: Some(frame), ..before[i as int].info(vpn) })
            } else {
                old(self).page(vpn)
            } by {
                lemma_page_of_update(before, i as int, b, vpn);
                if before[i as int].covers(vpn) {
                    lemma_page_of_covered(before, i as int, vpn);
                }
            }
            assert forall|a: int, c: int, vpn: int|
                0 <= a < self.areas@.len() && 0 <= c < self.areas@.len() && a != c
                    && #[trigger] self.areas@[a].covers(vpn) implies !(#[trigger] self.areas@[c].covers(vpn)) by {
                assert(before[a].covers(vpn));
                if before[c].covers(vpn) {
                    assert(false);
                }
            }
            assert(ops@ =~= seq![
                MemOp::MapPage {
                    vaddr: (before[i as int].vaddr + k * 4096) as usize,
                    paddr: frame,
                    flags: before[i as int].flags,
                },
            ]);
        }
        ops
    }

    /// Where loading the page at `addr` on demand puts a frame, given what the
    /// page table holds there: `Ok(None)` when it is already present;
    /// `InvalidInput` when no area holds `addr` or the page table has no
    /// entry; `BadAddress` when the area does not take the entry's access
    /// or the page is loaded.
    pub fn lazy_alloc_target(&self, addr: usize, entry: EntryQuery) -> (r: Result<Option<(usize, usize)>, AxError>)
        requires
            self.wf(),
        ensures
            (forall|i: int|
                0 <= i < self.areas@.len() ==> !(#[trigger] self.areas@[i].vaddr <= addr < self.areas@[i].spec_end()))
                ==> r == Err::<Option<(usize, usize)>, AxError>(AxError::InvalidInput),
            (exists|i: int| 0 <= i < self.areas@.len() && #[trigger] self.areas@[i].vaddr <= addr < self.areas@[i].spec_end())
                ==> match entry {
                EntryQuery::Invalid => r == Err::<Option<(usize, usize)>, AxError>(AxError::InvalidInput),
                EntryQuery::Present => r == Ok::<Option<(usize, usize)>, AxError>(None),
                EntryQuery::Absent { flags } => match r {
                    Ok(Some((i, k))) => i < self.areas@.len() && self.areas@[i as int].vaddr <= addr
                        < self.areas@[i as int].spec_end() && self.areas@[i as int].flags.has(flags) && k == (addr
                        - self.areas@[i as int].vaddr) / 4096 && self.areas@[i as int].pages@[k as int] is None,
                    Ok(None) => false,
                    Err(e) => e == AxError::BadAddress && forall|i: int|
                        0 <= i < self.areas@.len() && #[trigger] self.areas@[i].vaddr <= addr < self.areas@[i].spec_end()
                            ==> !(self.areas@[i].flags.has(flags) && self.areas@[i].pages@[(addr
                            - self.areas@[i].vaddr) / 4096] is None),
                },
            },
    {
        match self.find_area(addr) {
            None => Err(AxError::InvalidInput),
            Some(_) => match entry {
                EntryQuery::Invalid => Err(AxError::InvalidInput),
                EntryQuery::Present => Ok(None),
                EntryQuery::Absent { flags } => match self.page_fault_target(addr, flags) {
                    Ok(t) => Ok(Some(t)),
                    Err(e) => Err(e),
                },
            },
        }
    }

    /// The write-backs of `msync` on `[start, start + size)`: the loaded pages
    /// there of the areas that have a file, at their position in the area.
    pub fn msync(&self, start: usize, size: usize) -> (r: Vec<SyncOp>)
        requires
            self.wf(),
            start + size <= usize::MAX,
        ensures
            r@ == sync_ops(self.areas@, start as int, start + size),
    {
        let end = start + size;
        let mut out: Vec<SyncOp> = Vec::new();
        let mut i: usize = 0;
        while i < self.areas.len()
            invariant
                self.wf(),
                end == start + size,
                i <= self.areas@.len(),
                out@ == sync_ops(self.areas@.subrange(0, i as int), start as int, end as int),
            decreases self.areas@.len() - i,
        {
            let area = &self.areas[i];
            assert(area.wf());
            let ghost out0 = out@;
            let mut k: usize = 0;
            while k < area.pages.len()
                invariant
                    area.wf(),
                    k <= area.pages@.len(),
                    out@ == out0 + area_sync_ops(*area, start as int, end as int, k as int),
                decreases area.pages@.len() - k,
            {
                let va = area.vaddr + k * PAGE_SIZE_4K;
                let ghost before = out@;
                if start <= va && va < end {
                    match (area.pages[k], area.backend) {
                        (Some(f), Some(b)) => {
                            out.push(SyncOp { frame: f, file: b.file, pos: (k * PAGE_SIZE_4K) as u64 });
                        },
                        _ => {},
                    }
                }
                proof {
                    assert(out@ =~= out0 + area_sync_ops(*area, start as int, end as int, k as int + 1));
                }
                k += 1;
            }
            proof {
                let s = self.areas@.subrange(0, i as int + 1);
                assert(s.drop_last() =~= self.areas@.subrange(0, i as int));
                assert(s.last() == *area);
            }
            i += 1;
        }
        proof {
            assert(self.areas@.subrange(0, self.areas@.len() as int) =~= self.areas@);
        }
        out
    }

    /// Unmaps every area and frees its loaded pages; no area is left.
    pub fn unmap_user_areas(&mut self) -> (ops: Vec<MemOp>)
        requires
            old(self).wf(),
        ensures
            final(self).wf(),
            final(self).areas@.len() == 0,
            final(self).attached@ == old(self).attached@,
            final(self).user_memory_start == old(self).user_memory_start,
            ops@ == dealloc_ops(old(self).areas@),
    {
        let mut ops: Vec<MemOp> = Vec::new();
        let mut areas: Vec<MapArea> = Vec::new();
        std::mem::swap(&mut areas, &mut self.areas);
        let ghost all = areas@;
        let ghost mut i: int = 0;
        while areas.len() > 0
            invariant
                0 <= i <= all.len(),
                areas@ == all.subrange(i, all.len() as int),
                forall|j: int| 0 <= j < all.len() ==> (#[trigger] all[j]).wf(),
                ops@ == dealloc_ops(all.subrange(0, i)),
            decreases areas@.len(),
        {
            let mut a = areas.remove(0);
            proof {
                assert(a == all[i]);
                assert(all.subrange(0, i + 1).drop_last() =~= all.subrange(0, i));
            }
            a.dealloc(&mut ops);
            proof {
                i = i + 1;
                assert(areas@ =~= all.subrange(i, all.len() as int));
            }
        }
        proof {
            assert(all.subrange(0, all.len() as int) =~= all);
        }
        ops
    }
}

/// Every page of `a` is loaded.
pub open spec fn fully_loaded(a: MapArea) -> bool {
    forall|i: int| 0 <= i < a.pages@.len() ==> a.pages@[i] is Some
}

/// The frames `f` fit the copy of area `a`: one contiguous run for a fully
/// loaded area, else one frame per loaded page.
pub open spec fn clone_frames_fit(a: MapArea, f: Seq<usize>) -> bool {
    if fully_loaded(a) {
        f.len() == 1 && f[0] + a.pages@.len() * 4096 <= usize::MAX
    } else {
        f.len() == loaded_count(a.pages@)
    }
}

/// The pages of the copy of area `a` made with the frames `f`.
pub open spec fn clone_pages(a: MapArea, f: Seq<usize>) -> Seq<Option<usize>> {
    if fully_loaded(a) {
        Seq::new(a.pages@.len(), |i: int| Some((f[0] + i * 4096) as usize))
    } else {
        cloned_pages(a.pages@, f)
    }
}

/// The work of copying area `a` with the frames `f`.
pub open spec fn area_clone_ops(a: MapArea, f: Seq<usize>) -> Seq<MemOp> {
    if fully_loaded(a) {
        seq![
            MemOp::CopyFromVirt { vaddr: a.vaddr, paddr: f[0], size: (a.pages@.len() * 4096) as usize },
            MemOp::MapRegion { start: a.vaddr, paddr: f[0], size: (a.pages@.len() * 4096) as usize, flags: a.flags },
        ]
    } else {
        clone_ops(a.pages@, f, a.vaddr as int, a.flags, a.pages@.len() as int)
    }
}

/// The work of copying the areas `s`, area `i` with the frames `fr[i]`, in order.
pub open spec fn set_clone_ops(s: Seq<MapArea>, fr: Seq<Seq<usize>>) -> Seq<MemOp>
    decreases s.len(),
{
    if s.len() == 0 {
        Seq::empty()
    } else {
        set_clone_ops(s.drop_last(), fr) + area_clone_ops(s.last(), fr[s.len() - 1])
    }
}

/// The mappings of the attached segments `m`, in order.
pub open spec fn attach_ops(m: Seq<AttachedMem>) -> Seq<MemOp> {
    m.map_values(|x: AttachedMem| MemOp::MapRegion { start: x.start, paddr: x.paddr, size: x.size, flags: x.flags })
}

impl MemorySet {
    /// Attaches the shared segment `shmid` of `size` bytes at physical
    /// address `paddr` at `start`, with `flags`.
    pub fn attach_shared_mem(&mut self, shmid: i32, paddr: usize, start: usize, size: usize, flags: MappingFlags) -> (op: MemOp)
        requires
            old(self).wf(),
            start + size <= usize::MAX,
        ensures
            final(self).wf(),
            final(self).areas@ == old(self).areas@,
            final(self).user_memory_start == old(self).user_memory_start,
            final(self).attached@ == old(self).attached@.push(AttachedMem { start, paddr, size, flags, shmid }),
            op == (MemOp::MapRegion { start, paddr, size, flags }),
    {
        self.attached.push(AttachedMem { start, paddr, size, flags, shmid });
        MemOp::MapRegion { start, paddr, size, flags }
    }

    /// A copy of the memory set for a new address space: each area copied as
    /// `MapArea::clone_alloc` does, area `i` into the frames `frames[i]`,
    /// then the attached segments mapped again.
    pub fn clone_areas(&self, frames: &Vec<Vec<usize>>) -> (r: (MemorySet, Vec<MemOp>))
        requires
            self.wf(),
            frames@.len() == self.areas@.len(),
            forall|i: int| 0 <= i < self.areas@.len() ==> clone_frames_fit(#[trigger] self.areas@[i], frames@[i]@),
        ensures
            r.0.wf(),
            r.0.user_memory_start == self.user_memory_start,
            r.0.attached@ == self.attached@,
            r.0.areas@.len() == self.areas@.len(),
            forall|i: int|
                0 <= i < self.areas@.len() ==> {
                    let a = #[trigger] r.0.areas@[i];
                    &&& a.vaddr == self.areas@[i].vaddr
                    &&& a.flags == self.areas@[i].flags
                    &&& a.backend == self.areas@[i].backend
                    &&& a.pages@ == clone_pages(self.areas@[i], frames@[i]@)
                },
            r.1@ == set_clone_ops(self.areas@, frames@.map_values(|v: Vec<usize>| v@)) + attach_ops(self.attached@),
    {
        let ghost fr = frames@.map_values(|v: Vec<usize>| v@);
        let mut ops: Vec<MemOp> = Vec::new();
        let mut areas: Vec<MapArea> = Vec::new();
        let mut i: usize = 0;
        while i < self.areas.len()
            invariant
                self.wf(),
                frames@.len() == self.areas@.len(),
                fr == frames@.map_values(|v: Vec<usize>| v@),
                forall|j: int| 0 <= j < self.areas@.len() ==> clone_frames_fit(#[trigger] self.areas@[j], frames@[j]@),
                i <= self.areas@.len(),
                areas@.len() == i,
                forall|j: int|
                    0 <= j < i ==> {
                        let a = #[trigger] areas@[j];
                        &&& a.wf()
                        &&& a.vaddr == self.areas@[j].vaddr
                        &&& a.flags == self.areas@[j].flags
                        &&& a.backend == self.areas@[j].backend
                        &&& a.pages@ == clone_pages(self.areas@[j], frames@[j]@)
                    },
                ops@ == set_clone_ops(self.areas@.subrange(0, i as int), fr),
            decreases self.areas@.len() - i,
        {
            let a = &self.areas[i];
            assert(a.wf());
            assert(clone_frames_fit(*a, frames@[i as int]@));
            let ghost before = ops@;
            let c = a.clone_alloc(&frames[i], &mut ops);
            areas.push(c);
            proof {
                let s = self.areas@.subrange(0, i as int + 1);
                assert(s.drop_last() =~= self.areas@.subrange(0, i as int));
                assert(s.last() == *a);
                assert(fr[i as int] == frames@[i as int]@);
                assert(c.pages@ == clone_pages(*a, frames@[i as int]@));
                assert(ops@ == before + area_clone_ops(*a, frames@[i as int]@));
            }
            i += 1;
        }
        let ghost area_ops = ops@;
        let mut k: usize = 0;
        while k < self.attached.len()
            invariant
                k <= self.attached@.len(),
                ops@ == area_ops + attach_ops(self.attached@.subrange(0, k as int)),
            decreases self.attached@.len() - k,
        {
            let m = &self.attached[k];
            ops.push(MemOp::MapRegion { start: m.start, paddr: m.paddr, size: m.size, flags: m.flags });
            proof {
                assert(attach_ops(self.attached@.subrange(0, k as int + 1)) =~= attach_ops(
                    self.attached@.subrange(0, k as int),
                ).push(MemOp::MapRegion { start: m.start, paddr: m.paddr, size: m.size, flags: m.flags }));
            }
            k += 1;
        }
        let mut attached: Vec<AttachedMem> = Vec::new();
        let mut k: usize = 0;
        while k < self.attached.len()
            invariant
                k <= self.attached@.len(),
                attached@ == self.attached@.subrange(0, k as int),
            decreases self.attached@.len() - k,
        {
            let m = &self.attached[k];
            attached.push(AttachedMem { start: m.start, paddr: m.paddr, size: m.size, flags: m.flags, shmid: m.shmid });
            proof {
                assert(attached@ =~= self.attached@.subrange(0, k as int + 1));
            }
            k += 1;
        }
        proof {
            assert(self.areas@.subrange(0, self.areas@.len() as int) =~= self.areas@);
            assert(self.attached@.subrange(0, self.attached@.len() as int) =~= self.attached@);
            assert(attached@ =~= self.attached@);
            assert forall|a: int, c: int, vpn: int|
                0 <= a < areas@.len() && 0 <= c < areas@.len() && a != c && #[trigger] areas@[a].covers(vpn)
                    implies !(#[trigger] areas@[c].covers(vpn)) by {
                let aa = areas@[a];
                let cc = areas@[c];
                assert(aa.pages@ == clone_pages(self.areas@[a], frames@[a]@));
                assert(cc.pages@ == clone_pages(self.areas@[c], frames@[c]@));
                assert(clone_pages(self.areas@[a], frames@[a]@).len() == self.areas@[a].pages@.len());
                assert(clone_pages(self.areas@[c], frames@[c]@).len() == self.areas@[c].pages@.len());
                assert(self.areas@[a].covers(vpn));
                assert(!self.areas@[c].covers(vpn));
            }
        }
        (MemorySet { areas, attached, user_memory_start: self.user_memory_start }, ops)
    }
}

/// The pages that loading `[start, end]` on demand touches, one address per
/// page from the page of `start` to the page of `end`, both included;
/// `InvalidInput` when `start > end`.
pub fn lazy_range_pages(start: usize, end: usize) -> (r: Result<Vec<usize>, AxError>)
    ensures
        start > end ==> r == Err::<Vec<usize>, AxError>(AxError::InvalidInput),
        start <= end ==> (r matches Ok(v) && v@.len() == (end - end % 4096 - (start - start % 4096)) / 4096 + 1
            && forall|i: int| 0 <= i < v@.len() ==> #[trigger] v@[i] == start - start % 4096 + i * 4096),
{
    if start > end {
        return Err(AxError::InvalidInput);
    }
    let s = start - start % PAGE_SIZE_4K;
    let e = end - end % PAGE_SIZE_4K;
    let mut v: Vec<usize> = Vec::new();
    let mut a = s;
    proof {
        assert(s % 4096 == 0 && e % 4096 == 0) by {
            vstd::arithmetic::div_mod::lemma_sub_mod_noop(start as int, (start % 4096) as int, 4096);
            vstd::arithmetic::div_mod::lemma_mod_twice(start as int, 4096);
            vstd::arithmetic::div_mod::lemma_sub_mod_noop(end as int, (end % 4096) as int, 4096);
            vstd::arithmetic::div_mod::lemma_mod_twice(end as int, 4096);
        }
        assert((e - s) % 4096 == 0) by {
            vstd::arithmetic::div_mod::lemma_sub_mod_noop(e as int, s as int, 4096);
        }
    }
    loop
        invariant_except_break
            v@.len() == (a - s) / 4096,
        invariant
            s <= a <= e,
            s % 4096 == 0,
            e % 4096 == 0,
            (e - s) % 4096 == 0,
            (a - s) % 4096 == 0,
            forall|i: int| 0 <= i < v@.len() ==> #[trigger] v@[i] == s + i * 4096,
        ensures
            v@.len() == (e - s) / 4096 + 1,
            forall|i: int| 0 <= i < v@.len() ==> #[trigger] v@[i] == s + i * 4096,
        decreases e - a,
    {
        v.push(a);
        if a == e {
            break;
        }
        proof {
            assert(a + 4096 <= e) by {
                vstd::arithmetic::div_mod::lemma_sub_mod_noop(e as int, a as int, 4096);
            }
        }
        a = a + PAGE_SIZE_4K;
    }
    Ok(v)
}

/// Unmapping a range that was just mapped where nothing was leaves every
/// page as it was before the mapping: `s1` holds what `mmap` leaves of `s0`
/// on the pages `[first, first + n)`, and `s2` what `munmap` of the same
/// range leaves of `s1`.
pub proof fn lemma_munmap_undoes_mmap(
    s0: MemorySet,
    s1: MemorySet,
    s2: MemorySet,
    first: int,
    n: int,
    flags: MappingFlags,
    backend: Option<MemBackend>,
)
    requires
        forall|vpn: int| first <= vpn < first + n ==> (#[trigger] s0.page(vpn)) is None,
        forall|vpn: int|
            #[trigger] s1.page(vpn) == if first <= vpn < first + n {
                Some(region_page(first * 4096, flags, None, backend, vpn))
            } else {
                s0.page(vpn)
            },
        forall|vpn: int|
            #[trigger] s2.page(vpn) == if first <= vpn < first + n {
                None
            } else {
                s1.page(vpn)
            },
    ensures
        forall|vpn: int| #[trigger] s2.page(vpn) == s0.page(vpn),
{
    assert forall|vpn: int| #[trigger] s2.page(vpn) == s0.page(vpn) by {
        assert(s1.page(vpn) == s1.page(vpn));
        if first <= vpn < first + n {
            assert(s0.page(vpn) is None);
        }
    }
}

} // verus!
