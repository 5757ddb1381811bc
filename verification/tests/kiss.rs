use packet_radio::kiss::{encode_data_frame, KissDecoder, FEND, FESC};

#[test]
fn round_trips_a_data_frame() {
    let encoded = encode_data_frame(0, b"hello");
    assert_eq!(encoded, [&[FEND, 0x00][..], b"hello", &[FEND]].concat());

    let mut decoder = KissDecoder::new();
    let frames = decoder.feed(&encoded);
    assert_eq!(frames, vec![(0x00, b"hello".to_vec())]);
}

#[test]
fn escapes_fend_and_fesc_bytes_in_payload() {
    let payload = vec![0x01, FEND, 0x02, FESC, 0x03];
    let encoded = encode_data_frame(0, &payload);

    let mut decoder = KissDecoder::new();
    let frames = decoder.feed(&encoded);
    assert_eq!(frames, vec![(0x00, payload)]);
}

#[test]
fn ignores_repeated_fend_separators() {
    let mut decoder = KissDecoder::new();
    let frames = decoder.feed(&[FEND, FEND, FEND, 0x00, b'h', b'i', FEND]);
    assert_eq!(frames, vec![(0x00, b"hi".to_vec())]);
}

#[test]
fn handles_split_reads() {
    let encoded = encode_data_frame(0, b"split");
    let mut decoder = KissDecoder::new();
    let mut frames = decoder.feed(&encoded[..3]);
    assert!(frames.is_empty());
    frames = decoder.feed(&encoded[3..]);
    assert_eq!(frames, vec![(0x00, b"split".to_vec())]);
}
