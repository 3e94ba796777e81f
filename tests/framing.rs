use guess_game::framing::{encode_frame, FrameError, FrameReader};

#[test]
fn frame_round_trip() {
    let bytes = encode_frame(&[7, 8, 9]).unwrap();
    assert_eq!(bytes, vec![3, 0, 7, 8, 9]);
    let mut r = FrameReader::new();
    r.push_bytes(&bytes);
    assert_eq!(r.next_frame(), Ok(Some(vec![7, 8, 9])));
    assert_eq!(r.next_frame(), Ok(None));
}

#[test]
fn partial_frames_wait_for_more() {
    let mut r = FrameReader::new();
    r.push_bytes(&[2]);
    assert_eq!(r.next_frame(), Ok(None));
    r.push_bytes(&[0, 1]);
    assert_eq!(r.next_frame(), Ok(None));
    r.push_bytes(&[2, 1, 0]);
    assert_eq!(r.next_frame(), Ok(Some(vec![1, 2])));
    r.push_bytes(&[5]);
    assert_eq!(r.next_frame(), Ok(Some(vec![5])));
}

#[test]
fn empty_frame() {
    let mut r = FrameReader::new();
    r.push_bytes(&encode_frame(&[]).unwrap());
    assert_eq!(r.next_frame(), Ok(Some(vec![])));
}

#[test]
fn largest_frame_is_accepted() {
    let payload = vec![0xAB; 1024];
    let bytes = encode_frame(&payload).unwrap();
    assert_eq!(&bytes[..2], &[0x00, 0x04]);
    let mut r = FrameReader::new();
    r.push_bytes(&bytes);
    assert_eq!(r.next_frame(), Ok(Some(payload)));
}

#[test]
fn oversized_frame_is_refused() {
    assert_eq!(encode_frame(&vec![0; 1025]), Err(FrameError::TooLong));
    let mut r = FrameReader::new();
    // declares 1025 bytes
    r.push_bytes(&[0x01, 0x04, 1, 2, 3]);
    assert_eq!(r.next_frame(), Err(FrameError::TooLong));
    assert_eq!(r.next_frame(), Err(FrameError::TooLong));
}
