use quichat_client::dispatch::{Dispatcher, StreamKind};
use quichat_client::frame::encode_frame;

#[test]
fn interleaved_streams_do_not_mix() {
    let mut d = Dispatcher::new();
    assert!(d.open_stream(1));
    assert!(d.open_stream(2));
    let a = encode_frame(b"from one");
    let b = encode_frame(b"from two");
    assert!(d.receive(1, &a[..5]).unwrap().is_empty());
    assert!(d.receive(2, &b[..12]).unwrap().is_empty());
    assert_eq!(d.receive(1, &a[5..]).unwrap(), vec![b"from one".to_vec()]);
    assert_eq!(d.receive(2, &b[12..]).unwrap(), vec![b"from two".to_vec()]);
}

#[test]
fn unknown_stream_is_refused() {
    let mut d = Dispatcher::new();
    assert!(d.is_idle());
    assert_eq!(d.receive(4, &encode_frame(b"x")), None);
    assert!(d.open_stream(4));
    assert!(!d.open_stream(4));
    assert!(!d.is_idle());
}

#[test]
fn ended_stream_is_forgotten() {
    let mut d = Dispatcher::new();
    assert!(d.open_stream(9));
    assert!(d.receive(9, &[0, 0]).unwrap().is_empty());
    assert!(d.end_stream(9));
    assert!(!d.end_stream(9));
    assert_eq!(d.receive(9, &[0, 0, 0, 0, 0, 0]), None);
    assert!(d.is_idle());
}

#[test]
fn closed_session_accepts_no_stream() {
    let mut d = Dispatcher::new();
    assert!(d.open_stream(1));
    assert!(!d.session_closed());
    d.close();
    assert!(d.session_closed());
    assert!(d.is_idle());
    assert!(!d.open_stream(2));
    assert_eq!(d.receive(1, &encode_frame(b"late")), None);
}

#[test]
fn ping_frame_on_bidirectional_stream() {
    let ping = rmp_serde::to_vec(&"Ping").unwrap();
    let mut d = Dispatcher::new();
    assert!(d.open_stream(0));
    let frames = d.receive(0, &encode_frame(&ping)).unwrap();
    assert_eq!(frames.len(), 1);
    let name: String = rmp_serde::from_slice(&frames[0]).unwrap();
    assert_eq!(name, "Ping");
}

#[test]
fn session_closes_when_both_accepts_fail() {
    let mut d = Dispatcher::new();
    assert!(d.accepting(StreamKind::Bidirectional));
    assert!(d.accepting(StreamKind::Unidirectional));
    assert!(d.open_stream(3));
    assert!(!d.accept_failed(StreamKind::Unidirectional));
    assert!(!d.accepting(StreamKind::Unidirectional));
    assert!(d.accepting(StreamKind::Bidirectional));
    assert!(!d.session_closed());
    assert!(d.receive(3, &[0]).is_some());
    assert!(d.accept_failed(StreamKind::Bidirectional));
    assert!(d.session_closed());
    assert!(d.is_idle());
    assert!(!d.open_stream(4));
}
