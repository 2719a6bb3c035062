use clustered::networking::{read_buf, was_connection_severed, write_buf, ByteStream};
use std::io::ErrorKind;

#[test]
fn empty_payload_round_trips() {
    let mut stream = ByteStream::new();
    write_buf(&mut stream, &[]);
    assert_eq!(stream.len(), 8);
    let back = read_buf(&mut stream).unwrap();
    assert_eq!(back, Vec::<u8>::new());
    assert_eq!(stream.len(), 0);
}

#[test]
fn one_mebibyte_round_trips() {
    let mut payload = Vec::with_capacity(1 << 20);
    for i in 0..(1usize << 20) {
        payload.push((i % 251) as u8);
    }
    let mut stream = ByteStream::new();
    write_buf(&mut stream, &payload);
    assert_eq!(stream.len(), (1 << 20) + 8);
    let back = read_buf(&mut stream).unwrap();
    assert_eq!(back, payload);
    assert_eq!(stream.len(), 0);
}

#[test]
fn frame_is_length_then_payload() {
    let mut stream = ByteStream::new();
    write_buf(&mut stream, &[0xaa, 0xbb, 0xcc]);
    assert_eq!(stream.drain(), vec![0, 0, 0, 0, 0, 0, 0, 3, 0xaa, 0xbb, 0xcc]);
}

#[test]
fn frames_are_read_in_the_order_written() {
    let mut stream = ByteStream::new();
    write_buf(&mut stream, b"first");
    write_buf(&mut stream, b"");
    write_buf(&mut stream, b"third");
    assert_eq!(read_buf(&mut stream).unwrap(), b"first".to_vec());
    assert_eq!(read_buf(&mut stream).unwrap(), Vec::<u8>::new());
    assert_eq!(read_buf(&mut stream).unwrap(), b"third".to_vec());
    assert_eq!(read_buf(&mut stream), Err(ErrorKind::UnexpectedEof));
}

#[test]
fn short_header_is_unexpected_eof() {
    let mut stream = ByteStream::from_bytes(&[0, 0, 0, 0, 0, 0, 0]);
    assert_eq!(read_buf(&mut stream), Err(ErrorKind::UnexpectedEof));
    assert_eq!(stream.len(), 0);
}

#[test]
fn short_payload_is_unexpected_eof() {
    let mut stream = ByteStream::from_bytes(&[0, 0, 0, 0, 0, 0, 0, 4, 1, 2, 3]);
    assert_eq!(read_buf(&mut stream), Err(ErrorKind::UnexpectedEof));
    assert_eq!(stream.len(), 0);
}

#[test]
fn huge_announced_length_is_unexpected_eof() {
    let mut stream = ByteStream::from_bytes(&[0xff; 12]);
    assert_eq!(read_buf(&mut stream), Err(ErrorKind::UnexpectedEof));
}

#[test]
fn integers_are_written_big_endian() {
    let mut stream = ByteStream::new();
    stream.write_u8(0x2a);
    stream.write_u16(8008);
    stream.write_u32(0x7f00_0001);
    stream.write_u64(0x0102_0304_0506_0708);
    stream.write_u128(0x0011_2233_4455_6677_8899_aabb_ccdd_eeff);
    assert_eq!(
        stream.drain(),
        vec![
            0x2a, 0x1f, 0x48, 0x7f, 0x00, 0x00, 0x01, 0x01, 0x02, 0x03, 0x04, 0x05, 0x06, 0x07,
            0x08, 0x00, 0x11, 0x22, 0x33, 0x44, 0x55, 0x66, 0x77, 0x88, 0x99, 0xaa, 0xbb, 0xcc,
            0xdd, 0xee, 0xff,
        ]
    );
}

#[test]
fn integers_are_read_big_endian() {
    let mut stream = ByteStream::from_bytes(&[
        0x2a, 0x1f, 0x48, 0x7f, 0x00, 0x00, 0x01, 0x01, 0x02, 0x03, 0x04, 0x05, 0x06, 0x07, 0x08,
        0x00, 0x11, 0x22, 0x33, 0x44, 0x55, 0x66, 0x77, 0x88, 0x99, 0xaa, 0xbb, 0xcc, 0xdd, 0xee,
        0xff, 0x99,
    ]);
    assert_eq!(stream.read_u8(), Ok(0x2a));
    assert_eq!(stream.read_u16(), Ok(8008));
    assert_eq!(stream.read_u32(), Ok(0x7f00_0001));
    assert_eq!(stream.read_u64(), Ok(0x0102_0304_0506_0708));
    assert_eq!(stream.read_u128(), Ok(0x0011_2233_4455_6677_8899_aabb_ccdd_eeff));
    assert_eq!(stream.len(), 1);
    assert_eq!(stream.read_u16(), Err(ErrorKind::UnexpectedEof));
    assert_eq!(stream.len(), 0);
}

#[test]
fn integers_round_trip_at_their_limits() {
    let mut stream = ByteStream::new();
    stream.write_u8(u8::MAX);
    stream.write_u16(u16::MAX);
    stream.write_u32(u32::MAX);
    stream.write_u64(u64::MAX);
    stream.write_u128(u128::MAX);
    stream.write_u128(0);
    assert_eq!(stream.read_u8(), Ok(u8::MAX));
    assert_eq!(stream.read_u16(), Ok(u16::MAX));
    assert_eq!(stream.read_u32(), Ok(u32::MAX));
    assert_eq!(stream.read_u64(), Ok(u64::MAX));
    assert_eq!(stream.read_u128(), Ok(u128::MAX));
    assert_eq!(stream.read_u128(), Ok(0));
}

#[test]
fn read_exact_takes_from_the_front() {
    let mut stream = ByteStream::from_bytes(&[1, 2, 3, 4, 5]);
    assert_eq!(stream.read_exact(2), Ok(vec![1, 2]));
    assert_eq!(stream.read_exact(0), Ok(vec![]));
    assert_eq!(stream.len(), 3);
    assert_eq!(stream.read_exact(4), Err(ErrorKind::UnexpectedEof));
    assert_eq!(stream.len(), 0);
}

#[test]
fn write_all_appends() {
    let mut stream = ByteStream::from_bytes(&[1]);
    stream.write_all(&[2, 3]);
    stream.write_all(&[]);
    assert_eq!(stream.drain(), vec![1, 2, 3]);
    assert_eq!(stream.len(), 0);
}

#[test]
fn severed_kinds_are_exactly_five() {
    assert!(was_connection_severed(ErrorKind::NotConnected));
    assert!(was_connection_severed(ErrorKind::BrokenPipe));
    assert!(was_connection_severed(ErrorKind::ConnectionAborted));
    assert!(was_connection_severed(ErrorKind::ConnectionReset));
    assert!(was_connection_severed(ErrorKind::UnexpectedEof));
    let others = [
        ErrorKind::NotFound,
        ErrorKind::PermissionDenied,
        ErrorKind::ConnectionRefused,
        ErrorKind::AddrInUse,
        ErrorKind::AddrNotAvailable,
        ErrorKind::AlreadyExists,
        ErrorKind::WouldBlock,
        ErrorKind::InvalidInput,
        ErrorKind::InvalidData,
        ErrorKind::TimedOut,
        ErrorKind::WriteZero,
        ErrorKind::Interrupted,
        ErrorKind::Unsupported,
        ErrorKind::OutOfMemory,
        ErrorKind::Other,
    ];
    for kind in others {
        assert!(!was_connection_severed(kind));
    }
}

#[test]
fn frame_needs_counts_the_missing_bytes() {
    let mut stream = ByteStream::new();
    assert_eq!(stream.frame_needs(), 8);
    assert_eq!(stream.peek_frame_len(), None);
    stream.write_all(&[0, 0, 0]);
    assert_eq!(stream.frame_needs(), 5);
    stream.write_all(&[0, 0, 0, 0, 3]);
    assert_eq!(stream.frame_needs(), 3);
    assert_eq!(stream.peek_frame_len(), None);
    stream.write_all(&[7]);
    assert_eq!(stream.frame_needs(), 2);
    stream.write_all(&[8, 9]);
    assert_eq!(stream.frame_needs(), 0);
    assert_eq!(stream.peek_frame_len(), Some(3));
    stream.write_all(&[1, 2, 3]);
    assert_eq!(stream.frame_needs(), 0);
    assert_eq!(stream.len(), 14);
    assert_eq!(read_buf(&mut stream), Ok(vec![7, 8, 9]));
    assert_eq!(stream.frame_needs(), 5);
}

#[test]
fn frame_needs_follows_the_announced_length() {
    let stream = ByteStream::from_bytes(&[0xff; 8]);
    assert_eq!(stream.frame_needs(), u64::MAX);
    let stream = ByteStream::from_bytes(&[0xff, 0xff, 0xff, 0xff, 0xff, 0xff, 0xff, 0xff, 1]);
    assert_eq!(stream.frame_needs(), u64::MAX - 1);
    let stream = ByteStream::from_bytes(&[0; 8]);
    assert_eq!(stream.frame_needs(), 0);
    assert_eq!(stream.peek_frame_len(), Some(0));
}

#[test]
fn peek_leaves_the_stream_alone() {
    let stream = ByteStream::from_bytes(&[4, 5, 6]);
    assert_eq!(stream.peek(0), Some(4));
    assert_eq!(stream.peek(2), Some(6));
    assert_eq!(stream.peek(3), None);
    assert_eq!(stream.len(), 3);
}
