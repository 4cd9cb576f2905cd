use vstd::prelude::*;

use std::collections::VecDeque;

verus! {

/// An inter-processor event sent from CPU `src_cpu_id`, with the callback
/// the target CPU runs for it.
pub struct IPIEvent<C> {
    pub src_cpu_id: usize,
    pub callback: C,
}

/// The events waiting on one CPU, handled in the order they came.
pub struct IPIEventQueue<C> {
    events: VecDeque<IPIEvent<C>>,
}

impl<C> IPIEventQueue<C> {
    /// The waiting events as (source CPU, callback), oldest first.
    pub closed spec fn view(&self) -> Seq<(usize, C)> {
        self.events@.map_values(|e: IPIEvent<C>| (e.src_cpu_id, e.callback))
    }

    /// An empty queue.
    pub fn new() -> (r: IPIEventQueue<C>)
        ensures
            r@ == Seq::<(usize, C)>::empty(),
    {
        let r = IPIEventQueue { events: VecDeque::new() };
        assert(r@ =~= Seq::<(usize, C)>::empty());
        r
    }

    /// Whether no event waits.
    pub fn is_empty(&self) -> (r: bool)
        ensures
            r == (self@.len() == 0),
    {
        self.events.len() == 0
    }

    /// Adds an event from `src_cpu_id` at the end of the queue.
    pub fn push(&mut self, src_cpu_id: usize, callback: C)
        ensures
            final(self)@ == old(self)@.push((src_cpu_id, callback)),
    {
        self.events.push_back(IPIEvent { src_cpu_id, callback });
        assert(self@ =~= old(self)@.push((src_cpu_id, callback)));
    }

    /// Takes the oldest event, if any.
    pub fn pop_one(&mut self) -> (r: Option<(usize, C)>)
        ensures
            old(self)@.len() == 0 ==> r is None && final(self)@ == old(self)@,
            old(self)@.len() > 0 ==> r == Some(old(self)@[0]) && final(self)@ == old(self)@.drop_first(),
    {
        match self.events.pop_front() {
            Some(e) => {
                assert(self@ =~= old(self)@.drop_first());
                Some((e.src_cpu_id, e.callback))
            },
            None => None,
        }
    }
}

impl<C> Default for IPIEventQueue<C> {
    fn default() -> (r: IPIEventQueue<C>)
        ensures
            r@ == Seq::<(usize, C)>::empty(),
    {
        Self::new()
    }
}

/// Events leave the queue in the order they were pushed: pushing an event
/// leaves the oldest waiting event in front, and taking the front off
/// before or after the push gives the same queue.
pub proof fn lemma_fifo<C>(q: Seq<(usize, C)>, x: (usize, C))
    requires
        q.len() > 0,
    ensures
        q.push(x)[0] == q[0],
        q.push(x).drop_first() == q.drop_first().push(x),
{
    assert(q.push(x).drop_first() =~= q.drop_first().push(x));
}

/// The CPUs other than `current`, of the `cpu_num` CPUs, in increasing
/// order: the targets of an event sent to every other CPU.
pub fn other_cpus(current: usize, cpu_num: usize) -> (r: Vec<usize>)
    ensures
        forall|i: int, j: int| 0 <= i < j < r@.len() ==> r@[i] < r@[j],
        forall|i: int| 0 <= i < r@.len() ==> r@[i] < cpu_num && r@[i] != current,
        forall|c: usize| c < cpu_num && c != current ==> r@.contains(c),
{
    let mut r: Vec<usize> = Vec::new();
    let mut c: usize = 0;
    while c < cpu_num
        invariant
            c <= cpu_num,
            forall|i: int, j: int| 0 <= i < j < r@.len() ==> r@[i] < r@[j],
            forall|i: int| 0 <= i < r@.len() ==> r@[i] < c && r@[i] != current,
            forall|d: usize| d < c && d != current ==> r@.contains(d),
        decreases cpu_num - c,
    {
        if c != current {
            let ghost before = r@;
            r.push(c);
            proof {
                assert forall|d: usize| d < c + 1 && d != current implies r@.contains(d) by {
                    if d < c {
                        assert(before.contains(d));
                        let k = choose|k: int| 0 <= k < before.len() && before[k] == d;
                        assert(r@[k] == d);
                    } else {
                        assert(r@[r@.len() - 1] == d);
                    }
                }
            }
        }
        c += 1;
    }
    r
}

} // verus!
