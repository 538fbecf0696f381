use easyfibers::builder::Builder;
use easyfibers::duration::Duration;
use easyfibers::error::{Error, ErrorKind};
use easyfibers::ids::{fiber_id, split_id};

#[test]
fn builder_defaults() {
    let b = Builder::new();
    assert_eq!(b.get_tick_duration(), Duration::from_millis(100));
    assert_eq!(b.get_num_slots(), 4096);
    assert_eq!(b.get_initial_capacity(), 128);
    assert_eq!(b.get_max_capacity(), 4_194_304);
    assert_eq!(b.get_channel_capacity(), 128);
    // num_slots * tick_duration
    assert_eq!(b.get_max_timeout(), Duration::from_millis(409_600));
}

#[test]
fn builder_settings() {
    let b = Builder::new()
        .tick_duration(Duration::from_millis(250))
        .num_slots(8)
        .initial_capacity(500)
        .max_capacity(1000)
        .channel_capacity(16);
    assert_eq!(b.get_tick_duration(), Duration::from_millis(250));
    assert_eq!(b.get_num_slots(), 8);
    assert_eq!(b.get_initial_capacity(), 500);
    assert_eq!(b.get_max_capacity(), 1000);
    assert_eq!(b.get_channel_capacity(), 16);
    assert_eq!(b.get_max_timeout(), Duration::from_millis(2000));
    let b = b.max_timeout(Duration::from_millis(7));
    assert_eq!(b.get_max_timeout(), Duration::from_millis(7));
}

#[test]
fn initial_capacity_is_at_least_the_channel_capacity() {
    let b = Builder::new().initial_capacity(4).channel_capacity(64);
    assert_eq!(b.get_initial_capacity(), 64);
}

#[test]
fn durations() {
    let d = Duration::from_millis(1234);
    assert_eq!(d.secs, 1);
    assert_eq!(d.nanos, 234_000_000);
    assert_eq!(d.as_nanos(), 1_234_000_000);
    assert_eq!(d.as_millis(), 1234);
    assert_eq!(Duration::from_nanos(1_999_999_999).as_millis(), 1999);
}

#[test]
fn ids_name_their_runner_and_slot() {
    assert_eq!(fiber_id(0, 7), 7);
    assert_eq!(fiber_id(3, 7), 7 + (3u64 << 40));
    assert_eq!(split_id(fiber_id(19, 0xffff_ffff)), (19, 0xffff_ffff));
    assert_ne!(fiber_id(1, 2), fiber_id(2, 1));
}

#[test]
fn errors_have_a_kind_and_a_message() {
    let all = [
        (Error::SocketClosed, ErrorKind::NotConnected, "socket closed"),
        (Error::ReadTimeout, ErrorKind::TimedOut, "read timeout"),
        (Error::WriteTimeout, ErrorKind::TimedOut, "write timeout"),
        (Error::InvalidSocket, ErrorKind::InvalidInput, "invalid socket"),
        (Error::NoSocket, ErrorKind::InvalidInput, "no socket"),
        (Error::ListenRead, ErrorKind::InvalidInput, "can not read on listen socket"),
        (Error::ListenWrite, ErrorKind::InvalidInput, "can not write on listen socket"),
        (Error::ListenFlush, ErrorKind::InvalidInput, "can not flush on listen socket"),
        (Error::NotListening, ErrorKind::InvalidInput, "can not accept on non listen socket"),
        (Error::TlsFailure, ErrorKind::Other, "tls failure"),
        (Error::EmptyDomain, ErrorKind::Other, "empty domain"),
        (Error::NoSpace, ErrorKind::Other, "no space"),
        (Error::PollerExists, ErrorKind::NotConnected, "poller exists"),
    ];
    for (e, kind, message) in all.iter() {
        assert_eq!(e.kind(), *kind);
        assert_eq!(e.message(), *message);
    }
}
