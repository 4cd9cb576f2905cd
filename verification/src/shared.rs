use vstd::prelude::*;

use crate::flags::PAGE_SIZE_4K;

verus! {

/// Ownership and permissions of a shared memory segment.
#[derive(Clone, Copy, Debug, PartialEq, Eq, Structural)]
pub struct SharedMemPermInfo {
    pub key: i32,
    pub uid: u32,
    pub gid: u32,
    pub cuid: u32,
    pub cgid: u32,
    pub mode: u16,
}

/// The bookkeeping of a shared memory segment.
#[derive(Clone, Copy, Debug, PartialEq, Eq, Structural)]
pub struct SharedMemInfo {
    pub perm: SharedMemPermInfo,
    pub size: usize,
    pub a_time: usize,
    pub d_time: usize,
    pub c_time: usize,
    pub c_pid: u64,
    pub l_pid: u64,
}

impl SharedMemInfo {
    /// The record of a segment that process `pid` of user `uid` and group
    /// `gid` creates at time `c_time` (seconds): the creator owns it, and
    /// it has not been attached or detached yet.
    pub fn new(key: i32, size: usize, pid: u64, uid: u32, gid: u32, mode: u16, c_time: usize) -> (r:
        SharedMemInfo)
        ensures
            r.perm == (SharedMemPermInfo { key, uid, gid, cuid: uid, cgid: gid, mode }),
            r.size == size,
            r.a_time == 0,
            r.d_time == 0,
            r.c_time == c_time,
            r.c_pid == pid,
            r.l_pid == 0,
    {
        SharedMemInfo {
            perm: SharedMemPermInfo { key, uid, gid, cuid: uid, cgid: gid, mode },
            size,
            a_time: 0,
            d_time: 0,
            c_time,
            c_pid: pid,
            l_pid: 0,
        }
    }
}

/// The number of 4K pages that hold `size` bytes.
pub fn shm_page_count(size: usize) -> (r: usize)
    requires
        size + 4096 <= usize::MAX,
    ensures
        r == (size + 4095) / 4096,
        r * 4096 >= size,
        size > 0 ==> (r - 1) * 4096 < size,
{
    let r = (size + PAGE_SIZE_4K - 1) / PAGE_SIZE_4K;
    assert(r * 4096 >= size && (size > 0 ==> (r - 1) * 4096 < size)) by (nonlinear_arith)
        requires
            r == (size + 4095) / 4096,
    ;
    r
}

} // verus!
