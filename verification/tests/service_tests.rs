use starry_modules::echo::{echo_action, echo_reply, reverse_lines, EchoAction};
use starry_modules::errors::{AxError, LinuxError};
use starry_modules::tcp::{pbuf_recv_round, pbuf_take};
use starry_modules::udp::{udp_send_finish, UdpSendFailure};

#[test]
fn lines_are_reversed_in_place() {
    assert_eq!(reverse_lines(b"hello\nworld"), b"olleh\ndlrow".to_vec());
    assert_eq!(reverse_lines(b"abc\n"), b"cba\n".to_vec());
    assert_eq!(reverse_lines(b"\n\nxy"), b"\n\nyx".to_vec());
    assert_eq!(reverse_lines(b""), Vec::<u8>::new());
}

#[test]
fn echo_rounds() {
    assert_eq!(echo_action(false, false, false), EchoAction::Listen);
    assert_eq!(echo_action(true, true, true), EchoAction::Echo);
    assert_eq!(echo_action(true, false, true), EchoAction::Close);
    assert_eq!(echo_action(true, false, false), EchoAction::Idle);
    assert_eq!(echo_reply(b"ab", true), Some(b"ba".to_vec()));
    assert_eq!(echo_reply(b"ab", false), None);
    assert_eq!(echo_reply(b"", true), None);
}

#[test]
fn udp_send_results() {
    assert_eq!(udp_send_finish(12, Ok(())), Ok(12));
    assert_eq!(udp_send_finish(12, Err(UdpSendFailure::BufferFull)), Err(LinuxError::EAGAIN));
    assert_eq!(udp_send_finish(12, Err(UdpSendFailure::Unaddressable)), Err(LinuxError::ECONNREFUSED));
}

#[test]
fn packet_buffer_receive() {
    // Room for all that is left: the buffer is freed.
    assert_eq!(pbuf_take(100, 100, 40, 1000), Ok((60, None)));
    // Less room: the rest goes back at the new offset.
    assert_eq!(pbuf_take(100, 100, 40, 10), Ok((10, Some(50))));
    // A chained buffer is not supported.
    assert_eq!(pbuf_take(100, 150, 0, 10), Err(AxError::OperationNotSupported));
    assert_eq!(pbuf_recv_round(true, 0, false), Some(Ok(0)));
    assert_eq!(pbuf_recv_round(false, 7, true), Some(Ok(7)));
    assert_eq!(pbuf_recv_round(false, 0, true), Some(Err(AxError::WouldBlock)));
    assert_eq!(pbuf_recv_round(false, 0, false), None);
}
