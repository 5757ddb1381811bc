use packet_radio::codec::{read_padded, AgwFrame, FrameDecoder, HEADER_LEN};

#[test]
fn round_trips_a_connect_frame() {
    let frame = AgwFrame::new(0, 'C', "MYCALL-1", "N0CALL-2", b"hello".to_vec());
    let bytes = frame.encode();
    assert_eq!(bytes.len(), HEADER_LEN + 5);
    let (decoded, consumed) = AgwFrame::decode(&bytes).expect("decodes");
    assert_eq!(consumed, bytes.len());
    assert_eq!(decoded.port, 0);
    assert_eq!(decoded.kind(), 'C');
    assert_eq!(decoded.call_from, "MYCALL-1");
    assert_eq!(decoded.call_to, "N0CALL-2");
    assert_eq!(decoded.data, b"hello");
}

#[test]
fn connect_via_encodes_digi_count_and_padded_calls() {
    let digis = vec!["WIDE1-1".to_string(), "WIDE2-1".to_string()];
    let frame = AgwFrame::connect_via(0, "MYCALL-1", "N0CALL-2", &digis);
    assert_eq!(frame.kind(), 'v');
    assert_eq!(frame.data[0], 2);
    assert_eq!(read_padded(&frame.data[1..11]), "WIDE1-1");
    assert_eq!(read_padded(&frame.data[11..21]), "WIDE2-1");
    assert_eq!(frame.data.len(), 21);
}

#[test]
fn unproto_via_appends_info_after_digi_path() {
    let digis = vec!["WIDE1-1".to_string()];
    let frame = AgwFrame::unproto_via(0, "MYCALL-1", "BEACON", &digis, b"hello".to_vec());
    assert_eq!(frame.kind(), 'V');
    assert_eq!(frame.data[0], 1);
    assert_eq!(read_padded(&frame.data[1..11]), "WIDE1-1");
    assert_eq!(&frame.data[11..], b"hello");
}

#[test]
fn login_frame_has_two_255_byte_fields() {
    let frame = AgwFrame::login("KI5ABC", "s3cr3t");
    assert_eq!(frame.data.len(), 510);
    assert!(frame.data[0..6].starts_with(b"KI5ABC"));
    assert!(frame.data[255..261].starts_with(b"s3cr3t"));
}

#[test]
fn decoder_handles_partial_and_multiple_frames() {
    let f1 = AgwFrame::new(0, 'G', "", "", vec![]).encode();
    let f2 = AgwFrame::new(0, 'm', "", "", vec![1, 2, 3]).encode();
    let mut decoder = FrameDecoder::default();
    decoder.feed(&f1[..HEADER_LEN - 1]);
    assert!(decoder.next_frame().is_none());
    decoder.feed(&f1[HEADER_LEN - 1..]);
    decoder.feed(&f2);
    let a = decoder.next_frame().expect("first frame");
    assert_eq!(a.kind(), 'G');
    let b = decoder.next_frame().expect("second frame");
    assert_eq!(b.kind(), 'm');
    assert_eq!(b.data, vec![1, 2, 3]);
    assert!(decoder.next_frame().is_none());
}

#[test]
fn a_copy_encodes_alike() {
    let frame = AgwFrame::new(1, 'D', "MYCALL-1", "N0CALL-2", b"data".to_vec());
    assert_eq!(frame.clone().encode(), frame.encode());
}
