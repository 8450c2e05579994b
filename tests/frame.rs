use quichat_client::frame::{encode_frame, FrameReader, HEADER_LEN};

#[test]
fn header_is_big_endian_length() {
    let f = encode_frame(&[7u8; 0x0102]);
    assert_eq!(f.len(), HEADER_LEN + 0x0102);
    assert_eq!(&f[..8], &[0, 0, 0, 0, 0, 0, 0x01, 0x02]);
    assert_eq!(encode_frame(&[9, 8, 7]), vec![0, 0, 0, 0, 0, 0, 0, 3, 9, 8, 7]);
}

#[test]
fn empty_payload_frame() {
    let f = encode_frame(&[]);
    assert_eq!(f, vec![0u8; 8]);
    let mut r = FrameReader::new();
    assert_eq!(r.feed(&f), vec![Vec::<u8>::new()]);
    assert_eq!(r.pending_len(), 0);
}

#[test]
fn one_frame_in_one_read() {
    let p = b"hello, channel".to_vec();
    let mut r = FrameReader::new();
    assert_eq!(r.feed(&encode_frame(&p)), vec![p]);
    assert_eq!(r.pending_len(), 0);
}

#[test]
fn one_frame_byte_by_byte() {
    let p: Vec<u8> = (0..200u32).map(|i| (i * 7) as u8).collect();
    let f = encode_frame(&p);
    let mut r = FrameReader::new();
    let mut out = Vec::new();
    for b in &f {
        out.extend(r.feed(std::slice::from_ref(b)));
    }
    assert_eq!(out, vec![p]);
    assert_eq!(r.pending_len(), 0);
}

#[test]
fn one_frame_split_inside_header_and_payload() {
    let p = b"split payload".to_vec();
    let f = encode_frame(&p);
    let mut r = FrameReader::new();
    assert!(r.feed(&f[..3]).is_empty());
    assert!(r.feed(&f[3..10]).is_empty());
    assert_eq!(r.pending_len(), 10);
    assert_eq!(r.feed(&f[10..]), vec![p]);
}

#[test]
fn two_frames_in_one_read() {
    let mut bytes = encode_frame(b"first");
    bytes.extend(encode_frame(b"second"));
    let mut r = FrameReader::new();
    assert_eq!(r.feed(&bytes), vec![b"first".to_vec(), b"second".to_vec()]);
    assert_eq!(r.pending_len(), 0);
}

#[test]
fn frame_and_a_half_keeps_the_rest() {
    let mut bytes = encode_frame(b"whole");
    let next = encode_frame(b"later");
    bytes.extend(&next[..9]);
    let mut r = FrameReader::new();
    assert_eq!(r.feed(&bytes), vec![b"whole".to_vec()]);
    assert_eq!(r.pending_len(), 9);
    assert_eq!(r.feed(&next[9..]), vec![b"later".to_vec()]);
}

#[test]
fn declared_length_beyond_available_waits() {
    let f = encode_frame(&[1u8; 40]);
    let mut r = FrameReader::new();
    assert!(r.feed(&f[..f.len() - 1]).is_empty());
    assert_eq!(r.pending_len(), f.len() - 1);
    assert_eq!(r.feed(&f[f.len() - 1..]), vec![vec![1u8; 40]]);
}

#[test]
fn huge_declared_length_is_not_decoded() {
    let mut r = FrameReader::new();
    let header = [0xffu8; 8];
    assert!(r.feed(&header).is_empty());
    assert!(r.feed(&[1, 2, 3]).is_empty());
    assert_eq!(r.pending_len(), 11);
}
