use kv_store::frame::{decode_frame, decode_header, encode_frame, COMPRESSION_LIMIT, LEN_LEN};
use kv_store::KvError;

fn is_compressed(data: &[u8]) -> bool {
    data[0] >> 7 == 1
}

#[test]
fn small_payload_is_framed_raw_and_reads_back() {
    let payload = b"hello frame".to_vec();
    let frame = encode_frame(&payload).unwrap();
    assert_eq!(&frame[..LEN_LEN], &[0, 0, 0, 11]);
    assert_eq!(&frame[LEN_LEN..], &payload[..]);
    assert!(!is_compressed(&frame));
    assert_eq!(decode_frame(&mut frame.clone()).unwrap(), payload);
}

#[test]
fn payload_at_limit_is_not_compressed() {
    let payload = vec![7u8; COMPRESSION_LIMIT];
    let frame = encode_frame(&payload).unwrap();
    assert!(!is_compressed(&frame));
    assert_eq!(frame.len(), LEN_LEN + COMPRESSION_LIMIT);
    assert_eq!(decode_frame(&mut frame.clone()).unwrap(), payload);
}

#[test]
fn payload_over_limit_is_compressed_and_reads_back() {
    let payload = vec![0u8; COMPRESSION_LIMIT + 1];
    let frame = encode_frame(&payload).unwrap();
    assert!(is_compressed(&frame));
    let (len, compressed) = decode_header(u32::from_be_bytes([frame[0], frame[1], frame[2], frame[3]]) as usize);
    assert!(compressed);
    assert_eq!(len, frame.len() - LEN_LEN);
    assert!(len < payload.len());
    assert_ne!(&frame[LEN_LEN..], &payload[..]);
    assert_eq!(decode_frame(&mut frame.clone()).unwrap(), payload);
}

#[test]
fn empty_payload_round_trips() {
    let frame = encode_frame(&[]).unwrap();
    assert_eq!(frame, vec![0, 0, 0, 0]);
    assert_eq!(decode_frame(&mut frame.clone()).unwrap(), Vec::<u8>::new());
}

#[test]
fn decode_header_splits_flag_and_length() {
    assert_eq!(decode_header(0x8000_0010), (16, true));
    assert_eq!(decode_header(0x10), (16, false));
    assert_eq!(decode_header(0x7fff_ffff), (0x7fff_ffff, false));
    assert_eq!(decode_header(0x8000_0000), (0, true));
}

#[test]
fn truncated_frames_are_io_errors() {
    assert!(matches!(decode_frame(&mut vec![0, 0]), Err(KvError::IoError)));
    assert!(matches!(decode_frame(&mut vec![0, 0, 0, 5, 1, 2]), Err(KvError::IoError)));
}

#[test]
fn frame_with_trailing_bytes_reads_only_its_payload() {
    let mut buf = vec![0, 0, 0, 2, 9, 8, 7, 6];
    assert_eq!(decode_frame(&mut buf).unwrap(), vec![9, 8]);
    assert_eq!(buf, vec![7, 6]);
}

#[test]
fn corrupt_compressed_payload_is_an_io_error() {
    let mut buf = vec![0x80, 0, 0, 3, 1, 2, 3];
    assert!(matches!(decode_frame(&mut buf), Err(KvError::IoError)));
    assert_eq!(buf, vec![0x80, 0, 0, 3, 1, 2, 3]);
}

#[test]
fn two_frames_in_one_buffer_read_one_after_the_other() {
    let small = b"first".to_vec();
    let large = vec![1u8; COMPRESSION_LIMIT + 100];
    let mut buf = encode_frame(&small).unwrap();
    buf.extend(encode_frame(&large).unwrap());
    assert_eq!(decode_frame(&mut buf).unwrap(), small);
    assert_eq!(decode_frame(&mut buf).unwrap(), large);
    assert!(buf.is_empty());
    assert!(matches!(decode_frame(&mut buf), Err(KvError::IoError)));
}
