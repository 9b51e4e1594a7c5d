use dns_codec::DnsError;
use dns_codec::buffer::DnsBuffer;

#[test]
fn new_buffer_is_zeroed() {
    let b = DnsBuffer::new();
    assert_eq!(b.pos, 0);
    assert_eq!(b.buf.len(), 512);
    assert!(b.buf.iter().all(|&x| x == 0));
}

#[test]
fn read_and_write_advance_cursor() {
    let mut b = DnsBuffer::new();
    b.write(0xAB).unwrap();
    b.write(0xCD).unwrap();
    assert_eq!(b.pos, 2);
    b.seek(0).unwrap();
    assert_eq!(b.read().unwrap(), 0xAB);
    assert_eq!(b.read().unwrap(), 0xCD);
    assert_eq!(b.pos, 2);
}

#[test]
fn access_at_last_position_succeeds() {
    let mut b = DnsBuffer::new();
    b.seek(511).unwrap();
    b.write(0x7F).unwrap();
    assert_eq!(b.pos, 512);
    b.seek(511).unwrap();
    assert_eq!(b.read().unwrap(), 0x7F);
    assert_eq!(b.get(511).unwrap(), 0x7F);
}

#[test]
fn access_at_bound_fails() {
    let mut b = DnsBuffer::new();
    b.seek(512).unwrap();
    assert_eq!(b.read().unwrap_err(), DnsError::BufferBounds);
    assert_eq!(b.write(1).unwrap_err(), DnsError::BufferBounds);
    assert_eq!(b.get(512).unwrap_err(), DnsError::BufferBounds);
}

#[test]
fn u16_round_trips_big_endian() {
    let mut b = DnsBuffer::new();
    b.write_u16(0x1234).unwrap();
    assert_eq!(b.buf[0], 0x12);
    assert_eq!(b.buf[1], 0x34);
    b.seek(0).unwrap();
    assert_eq!(b.read_u16().unwrap(), 0x1234);
}

#[test]
fn u32_round_trips_big_endian() {
    let mut b = DnsBuffer::new();
    b.write_u32(0xDEADBEEF).unwrap();
    assert_eq!(&b.buf[0..4], &[0xDE, 0xAD, 0xBE, 0xEF]);
    b.seek(0).unwrap();
    assert_eq!(b.read_u32().unwrap(), 0xDEADBEEF);
}

#[test]
fn multi_byte_ops_fail_cleanly_near_bound() {
    let mut b = DnsBuffer::new();
    b.seek(511).unwrap();
    assert_eq!(b.write_u16(1).unwrap_err(), DnsError::BufferBounds);
    assert_eq!(b.pos, 511, "a failed write must not move the cursor");
    assert_eq!(b.read_u16().unwrap_err(), DnsError::BufferBounds);
    b.seek(509).unwrap();
    assert_eq!(b.read_u32().unwrap_err(), DnsError::BufferBounds);
    assert_eq!(b.write_u32(1).unwrap_err(), DnsError::BufferBounds);
}

#[test]
fn get_range_copies_without_moving_cursor() {
    let mut b = DnsBuffer::new();
    b.write(1).unwrap();
    b.write(2).unwrap();
    b.write(3).unwrap();
    let r = b.get_range(0, 3).unwrap();
    assert_eq!(r, vec![1, 2, 3]);
    assert_eq!(b.pos, 3);
}

#[test]
fn get_range_fails_when_reaching_bound() {
    let b = DnsBuffer::new();
    assert!(b.get_range(500, 11).is_ok());
    assert_eq!(b.get_range(500, 12).unwrap_err(), DnsError::BufferBounds);
}

#[test]
fn step_moves_cursor_forward() {
    let mut b = DnsBuffer::new();
    b.step(7).unwrap();
    b.step(3).unwrap();
    assert_eq!(b.pos, 10);
}
