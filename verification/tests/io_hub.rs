use ipmb::io_hub::{
    after_read, after_wait, dispatch, identifier_to_socket_addr, look_up_error,
    mach_msgh_bits_set, pipe_path, register_error, wait_millis, Readiness, Refusal,
    LISTEN_BACKLOG, PIPE_BUFFER_SIZE, SOCKET_BUFFER_SIZE, SOCKET_PATH_LEN,
};
use ipmb::Error;
use ipmb::time::TimeSpan;

#[test]
fn readiness_is_told_by_the_token() {
    let locals = vec![7, 8, 9, 8];
    assert_eq!(dispatch(3, 3, Some(4), &locals), Readiness::Waker);
    assert_eq!(dispatch(4, 3, Some(4), &locals), Readiness::Listener);
    assert_eq!(dispatch(7, 3, Some(4), &locals), Readiness::Local(0));
    assert_eq!(dispatch(8, 3, Some(4), &locals), Readiness::Local(1));
    assert_eq!(dispatch(9, 3, Some(4), &locals), Readiness::Local(2));
    assert_eq!(dispatch(10, 3, Some(4), &locals), Readiness::Unknown);
    assert_eq!(dispatch(4, 3, None, &locals), Readiness::Unknown);
    assert_eq!(dispatch(4, 3, None, &vec![4]), Readiness::Local(0));
    // The waker comes first, then the listener.
    assert_eq!(dispatch(7, 7, Some(7), &locals), Readiness::Waker);
    assert_eq!(dispatch(7, 3, Some(7), &locals), Readiness::Listener);
    assert_eq!(dispatch(1, 3, Some(4), &vec![]), Readiness::Unknown);
}

#[test]
fn timeouts_are_counted_in_milliseconds() {
    assert_eq!(wait_millis(None), -1);
    assert_eq!(wait_millis(Some(TimeSpan::zero())), 0);
    assert_eq!(wait_millis(Some(TimeSpan::from_millis(200))), 200);
    assert_eq!(wait_millis(Some(TimeSpan::from_secs(2))), 2000);
    assert_eq!(wait_millis(Some(TimeSpan::new(0, 999_999).unwrap())), 0);
    assert_eq!(wait_millis(Some(TimeSpan::new(0, 1_000_000).unwrap())), 1);
    assert_eq!(wait_millis(Some(TimeSpan::from_millis(i32::MAX as u64))), i32::MAX);
    assert_eq!(wait_millis(Some(TimeSpan::from_millis(i32::MAX as u64 + 1))), i32::MAX);
    assert_eq!(wait_millis(Some(TimeSpan::from_secs(u64::MAX))), i32::MAX);
}

#[test]
fn a_bus_is_found_in_the_abstract_namespace() {
    let path = identifier_to_socket_addr(b"com.x").unwrap();
    assert_eq!(path.len(), SOCKET_PATH_LEN);
    assert_eq!(path.len(), 108);
    assert_eq!(&path[..6], b"\0com.x");
    assert!(path[6..].iter().all(|b| *b == 0));
    let empty = identifier_to_socket_addr(b"").unwrap();
    assert_eq!(empty, vec![0; 108]);
}

#[test]
fn a_long_identifier_is_cut() {
    let long: Vec<u8> = (0..200).map(|i| b'a' + (i % 26) as u8).collect();
    let path = identifier_to_socket_addr(&long).unwrap();
    assert_eq!(path.len(), 108);
    assert_eq!(path[0], 0);
    assert_eq!(&path[1..107], &long[..106]);
    assert_eq!(path[107], 0);
    let full = identifier_to_socket_addr(&long[..106]).unwrap();
    assert_eq!(full, path);
}

#[test]
fn an_identifier_with_a_zero_byte_has_no_address() {
    assert!(identifier_to_socket_addr(b"com\0x").is_none());
    assert!(identifier_to_socket_addr(b"\0").is_none());
    let mut long = vec![b'a'; 150];
    long[140] = 0;
    assert!(identifier_to_socket_addr(&long).is_none());
}

#[test]
fn a_bus_is_found_under_a_pipe_name() {
    assert_eq!(pipe_path("com.x"), r"\\.\pipe\com.x");
    assert_eq!(pipe_path(""), r"\\.\pipe\");
}

#[test]
fn mach_header_bits_are_packed() {
    assert_eq!(mach_msgh_bits_set(0, 0, 0, 0), 0);
    assert_eq!(mach_msgh_bits_set(19, 0, 0, 0x8000_0000), 0x8000_0013);
    assert_eq!(mach_msgh_bits_set(0x12, 0x34, 0x56, 0), 0x0056_3412);
    assert_eq!(mach_msgh_bits_set(0xff, 0xff, 0xff, 0xff00_0000), u32::MAX);
    assert_eq!(mach_msgh_bits_set(1, 0, 0, 2), 3);
}

#[test]
fn buffers_are_sized() {
    assert_eq!(SOCKET_BUFFER_SIZE, 65_536);
    assert_eq!(PIPE_BUFFER_SIZE, 4_194_304);
    assert_eq!(LISTEN_BACKLOG, 32);
}

#[test]
fn an_empty_wait_is_a_timeout() {
    assert!(matches!(after_wait(0), Err(Error::Timeout)));
    assert!(after_wait(1).is_ok());
    assert!(after_wait(usize::MAX).is_ok());
}

#[test]
fn a_transport_whose_read_failed_leaves_the_list() {
    let mut locals = vec!["a", "b", "c", "d"];
    let read: Result<u8, Error> = Ok(5);
    assert!(matches!(after_read(&mut locals, 1, read), Ok(5)));
    assert_eq!(locals, vec!["a", "b", "c", "d"]);
    let read: Result<u8, Error> = Err(Error::Disconnect);
    assert!(matches!(after_read(&mut locals, 1, read), Err(Error::Disconnect)));
    assert_eq!(locals, vec!["a", "d", "c"]);
    let read: Result<u8, Error> = Err(Error::VersionMismatch(ipmb::Version::new(0, 0, 0)));
    assert!(matches!(after_read(&mut locals, 2, read), Err(Error::VersionMismatch(_))));
    assert_eq!(locals, vec!["a", "d"]);
    let read: Result<u8, Error> = Err(Error::Disconnect);
    assert!(matches!(after_read(&mut locals, 2, read), Err(Error::Disconnect)));
    assert_eq!(locals, vec!["a", "d"]);
}

#[test]
fn refusals_are_told_as_the_rendezvous_means_them() {
    assert!(matches!(look_up_error(Refusal::ConnectionRefused), Error::IdentifierNotInUse));
    assert!(matches!(look_up_error(Refusal::NotFound), Error::IdentifierNotInUse));
    assert!(matches!(look_up_error(Refusal::PermissionDenied), Error::PermissionDenied));
    assert!(matches!(look_up_error(Refusal::AddrInUse), Error::Unknown));
    assert!(matches!(look_up_error(Refusal::Other), Error::Unknown));
    assert!(matches!(register_error(Refusal::AddrInUse), Error::IdentifierInUse));
    assert!(matches!(register_error(Refusal::PermissionDenied), Error::PermissionDenied));
    assert!(matches!(register_error(Refusal::NotFound), Error::Unknown));
    assert!(matches!(register_error(Refusal::ConnectionRefused), Error::Unknown));
    assert!(matches!(register_error(Refusal::Other), Error::Unknown));
}
