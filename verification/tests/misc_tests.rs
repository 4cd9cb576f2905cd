use starry_modules::dns::{query_result_error, start_query_error, QueryResultError, StartQueryError};
use starry_modules::state::State;
use starry_modules::vsock::stream_connect_error;
use starry_modules::aspace::{aligned_region, plan_chunks, reg_flag_to_map_flag, AddrSpace, Backend, DataChunk, MemRegionFlags, VirtAddrRange};
use starry_modules::errors::AxError;
use starry_modules::flags::MappingFlags;
use starry_modules::frame_table::FrameInfoTable;
use starry_modules::ipi::IPIEventQueue;
use starry_modules::shared::{shm_page_count, SharedMemInfo, SharedMemPermInfo};
use starry_modules::text::{parse_unsigned_exec, push_dec, push_hex, push_padded, split_bytes};
use starry_modules::vsock::{map_dev_err, receive_action, send_step, DevError, PollControl, PollFrequencyController, ReceiveAction, SendStep};

#[test]
fn frame_counts_go_up_and_down() {
    let mut t = FrameInfoTable::new(0x8000_0000, 4);
    t.inc_ref(0x8000_1000);
    t.inc_ref(0x8000_1000);
    assert_eq!(t.dec_ref(0x8000_1000), 2);
    assert_eq!(t.dec_ref(0x8000_1000), 1);
    assert_eq!(t.dec_ref(0x8000_3000), 0);
    assert_eq!(t.dec_ref(0x8000_3000), 255);
}

#[test]
fn ipi_queue_is_first_in_first_out() {
    let mut q: IPIEventQueue<&str> = IPIEventQueue::new();
    assert!(q.is_empty());
    q.push(1, "a");
    q.push(2, "b");
    assert!(!q.is_empty());
    assert_eq!(q.pop_one(), Some((1, "a")));
    assert_eq!(q.pop_one(), Some((2, "b")));
    assert_eq!(q.pop_one(), None);
    assert!(q.is_empty());
}

#[test]
fn poll_interval_grows_with_idleness() {
    let mut c = PollFrequencyController::new();
    assert_eq!(c.current_interval(), 100);
    for _ in 0..4 {
        c.on_idle();
    }
    assert_eq!(c.stats(), (4, 500));
    for _ in 0..7 {
        c.on_idle();
    }
    assert_eq!(c.current_interval(), 2_000);
    for _ in 0..10 {
        c.on_idle();
    }
    assert_eq!(c.stats(), (21, 10_000));
    c.on_event();
    assert_eq!(c.stats(), (0, 100));
    let mut w = PollFrequencyController { consecutive_idle: u64::MAX };
    w.on_idle();
    assert_eq!(w.consecutive_idle, 0);
}

#[test]
fn poll_task_spawns_once() {
    let mut p = PollControl::new();
    assert!(p.start());
    assert!(!p.start());
    assert!(p.stop());
    assert!(!p.task_should_exit());
    assert!(p.stop());
    assert!(!p.stop());
    assert_eq!(p.ref_count, 0);
    assert!(p.task_should_exit());
    assert!(!p.task_running);
    assert!(p.start());
}

#[test]
fn vsock_receive_decisions() {
    assert_eq!(receive_action(false, 10, 4096), ReceiveAction::Drop);
    assert_eq!(receive_action(true, 0, 4096), ReceiveAction::Defer);
    assert_eq!(receive_action(true, 100, 4096), ReceiveAction::Read(100));
    assert_eq!(receive_action(true, 10_000, 4096), ReceiveAction::Read(4096));
}

#[test]
fn vsock_errors_and_retries() {
    assert_eq!(map_dev_err(DevError::Again), AxError::WouldBlock);
    assert_eq!(map_dev_err(DevError::Io), AxError::Io);
    assert_eq!(map_dev_err(DevError::NoMemory), AxError::BadState);
    assert_eq!(send_step(0, Ok(5)), SendStep::Sent(5));
    assert_eq!(send_step(0, Err(DevError::Again)), SendStep::Retry);
    assert_eq!(send_step(8, Err(DevError::Again)), SendStep::Retry);
    assert_eq!(send_step(9, Err(DevError::Again)), SendStep::Failed(AxError::WouldBlock));
    assert_eq!(send_step(3, Err(DevError::InvalidParam)), SendStep::Failed(AxError::InvalidInput));
}

#[test]
fn shared_memory_record() {
    let info = SharedMemInfo::new(7, 8192, 42, 1000, 100, 0o600, 1234);
    assert_eq!(
        info.perm,
        SharedMemPermInfo { key: 7, uid: 1000, gid: 100, cuid: 1000, cgid: 100, mode: 0o600 }
    );
    assert_eq!((info.size, info.a_time, info.d_time, info.c_time), (8192, 0, 0, 1234));
    assert_eq!((info.c_pid, info.l_pid), (42, 0));
    assert_eq!(shm_page_count(1), 1);
    assert_eq!(shm_page_count(4096), 1);
    assert_eq!(shm_page_count(4097), 2);
    assert_eq!(shm_page_count(0), 0);
}

#[test]
fn chunks_of_an_unaligned_copy() {
    let c = plan_chunks(0x1ff0, 0x30);
    assert_eq!(
        c,
        vec![
            DataChunk { page_vaddr: 0x1000, page_offset: 0xff0, buf_offset: 0, len: 0x10 },
            DataChunk { page_vaddr: 0x2000, page_offset: 0, buf_offset: 0x10, len: 0x20 },
        ]
    );
    let d = plan_chunks(0x3000, 0x2000);
    assert_eq!(d.len(), 2);
    assert_eq!(d[1], DataChunk { page_vaddr: 0x4000, page_offset: 0, buf_offset: 0x1000, len: 0x1000 });
    assert!(plan_chunks(0x3010, 0).is_empty());
    let e = plan_chunks(0x5004, 8);
    assert_eq!(e, vec![DataChunk { page_vaddr: 0x5000, page_offset: 4, buf_offset: 0, len: 8 }]);
}

#[test]
fn address_space_checks() {
    let s = AddrSpace::new_empty(0x1000, 0x10000);
    assert_eq!((s.base(), s.end(), s.size()), (0x1000, 0x11000, 0x10000));
    assert!(s.contains_range(0x1000, 0x10000));
    assert!(!s.contains_range(0x1000, 0x10001));
    assert_eq!(s.check_region(0x2000, 0x1000), Ok(()));
    assert_eq!(s.check_region(0x2001, 0x1000), Err(AxError::InvalidInput));
    assert_eq!(s.check_region(0x10000, 0x2000), Err(AxError::InvalidInput));
    assert_eq!(s.linear_backend(0x2000, 0x1000, 0x1000), Ok(Backend::Linear { pa_va_offset: 0x1000 }));
    assert_eq!(s.linear_backend(0x2000, 0x1800, 0x1000), Err(AxError::InvalidInput));
    assert_eq!(s.data_chunks(0x20000, 4), Err(AxError::InvalidInput));
    assert_eq!(s.data_chunks(0x1ffe, 4).unwrap().len(), 2);
    let other = AddrSpace::new_empty(0x11000, 0x1000);
    assert_eq!(s.check_copy_from(&other), Ok(()));
    let overlapping = AddrSpace::new_empty(0x10000, 0x4000);
    assert_eq!(s.check_copy_from(&overlapping), Err(AxError::InvalidInput));
}

#[test]
fn ranges_and_backends() {
    let r = VirtAddrRange::from_start_size(0x1000, 0x2000);
    assert_eq!(r, VirtAddrRange { start: 0x1000, end: 0x3000 });
    assert_eq!(r.size(), 0x2000);
    assert!(r.contains(0x2fff) && !r.contains(0x3000));
    assert!(r.overlaps(VirtAddrRange { start: 0x2000, end: 0x4000 }));
    assert!(!r.overlaps(VirtAddrRange { start: 0x3000, end: 0x4000 }));
    assert_eq!(Backend::new_linear(5), Backend::Linear { pa_va_offset: 5 });
    assert_eq!(Backend::new_alloc(true), Backend::Alloc { populate: true });
    assert_eq!(aligned_region(0x1234, 0x10), (0x1000, 0x1000));
    assert_eq!(aligned_region(0x1ff0, 0x20), (0x1000, 0x2000));
}

#[test]
fn region_flags_to_mapping_flags() {
    // read | write | device | reserved
    let f = reg_flag_to_map_flag(MemRegionFlags { bits: 0x1 | 0x2 | 0x10 | 0x40 });
    assert!(f == MappingFlags { bits: 0x1 | 0x2 | 0x10 });
    let g = reg_flag_to_map_flag(MemRegionFlags { bits: 0x4 | 0x20 });
    assert!(g.contains(MappingFlags::EXECUTE()) && g.contains(MappingFlags::UNCACHED()));
    assert!(!g.contains(MappingFlags::READ()));
    assert!(MappingFlags::READ().union(MappingFlags::WRITE()) == MappingFlags { bits: 0x3 });
}

#[test]
fn decimal_and_hex_text() {
    let mut v: Vec<u8> = Vec::new();
    push_dec(0, &mut v);
    push_dec(1234567890, &mut v);
    assert_eq!(v, b"01234567890".to_vec());
    let mut h: Vec<u8> = Vec::new();
    push_hex(0xdb8, &mut h);
    assert_eq!(h, b"db8".to_vec());
    let mut p: Vec<u8> = Vec::new();
    push_padded(&b"42".to_vec(), 6, b'0', &mut p);
    push_padded(&b"1234567".to_vec(), 3, b' ', &mut p);
    assert_eq!(p, b"0000421234567".to_vec());
}

#[test]
fn unsigned_parsing() {
    assert_eq!(parse_unsigned_exec(b"255", 255), Some(255));
    assert_eq!(parse_unsigned_exec(b"256", 255), None);
    assert_eq!(parse_unsigned_exec(b"+7", 255), Some(7));
    assert_eq!(parse_unsigned_exec(b"+", 255), None);
    assert_eq!(parse_unsigned_exec(b"", 255), None);
    assert_eq!(parse_unsigned_exec(b"0007", 255), Some(7));
    assert_eq!(parse_unsigned_exec(b"1a", 255), None);
    assert_eq!(parse_unsigned_exec(b"99999999999999999999999", 65535), None);
}

#[test]
fn splitting_bytes() {
    assert_eq!(split_bytes(b"a.b..c", b'.'), vec![b"a".to_vec(), b"b".to_vec(), vec![], b"c".to_vec()]);
    assert_eq!(split_bytes(b"", b'.'), vec![Vec::<u8>::new()]);
}

#[test]
fn rx_token_hands_over_the_packet() {
    let data = [1u8, 2, 3];
    let t = starry_modules::device::RxToken(&data);
    assert_eq!(t.consume(|b| b.len() + b[2] as usize), 6);
}

#[test]
fn other_cpus_skip_the_current_one() {
    assert_eq!(starry_modules::ipi::other_cpus(1, 4), vec![0, 2, 3]);
    assert_eq!(starry_modules::ipi::other_cpus(5, 3), vec![0, 1, 2]);
    assert!(starry_modules::ipi::other_cpus(0, 1).is_empty());
}

#[test]
fn dns_and_vsock_errors() {
    assert_eq!(start_query_error(StartQueryError::NoFreeSlot), AxError::ResourceBusy);
    assert_eq!(start_query_error(StartQueryError::NameTooLong), AxError::InvalidInput);
    assert_eq!(query_result_error(QueryResultError::Pending), AxError::WouldBlock);
    assert_eq!(query_result_error(QueryResultError::Failed), AxError::ConnectionRefused);
    assert_eq!(stream_connect_error(State::Listening), AxError::InvalidInput);
    assert_eq!(stream_connect_error(State::Connecting), AxError::InProgress);
    assert_eq!(stream_connect_error(State::Connected), AxError::AlreadyConnected);
}
