use dns_codec::DnsError;
use dns_codec::buffer::DnsBuffer;
use dns_codec::name::NameTable;
use dns_codec::name::write_name;

#[test]
fn google_com_encodes_uncompressed() {
    let mut b = DnsBuffer::new();
    let mut t = NameTable::new();
    write_name(&mut b, &b"google.com".to_vec(), &mut t).unwrap();
    assert_eq!(
        &b.buf[0..12],
        &[0x06, 0x67, 0x6F, 0x6F, 0x67, 0x6C, 0x65, 0x03, 0x63, 0x6F, 0x6D, 0x00]
    );
    assert_eq!(b.pos, 12);
}

#[test]
fn plain_name_round_trips() {
    let mut b = DnsBuffer::new();
    let mut t = NameTable::new();
    write_name(&mut b, &b"google.com".to_vec(), &mut t).unwrap();
    b.seek(0).unwrap();
    assert_eq!(b.get_domain().unwrap(), b"google.com".to_vec());
    assert_eq!(b.pos, 12, "the cursor must rest just past the terminator");
}

#[test]
fn decode_lowercases_labels() {
    let mut b = DnsBuffer::new();
    let mut t = NameTable::new();
    write_name(&mut b, &b"GoOgle.CoM".to_vec(), &mut t).unwrap();
    b.seek(0).unwrap();
    assert_eq!(b.get_domain().unwrap(), b"google.com".to_vec());
}

#[test]
fn empty_name_is_a_lone_terminator() {
    let mut b = DnsBuffer::new();
    let mut t = NameTable::new();
    write_name(&mut b, &Vec::new(), &mut t).unwrap();
    assert_eq!(b.pos, 1);
    assert_eq!(b.buf[0], 0);
    b.seek(0).unwrap();
    assert_eq!(b.get_domain().unwrap(), Vec::<u8>::new());
}

#[test]
fn label_longer_than_63_bytes_is_refused() {
    let mut b = DnsBuffer::new();
    let mut t = NameTable::new();
    let long = vec![b'a'; 64];
    assert_eq!(
        write_name(&mut b, &long, &mut t).unwrap_err(),
        DnsError::LabelTooLong
    );
    let ok = vec![b'a'; 63];
    assert!(write_name(&mut b, &ok, &mut t).is_ok());
}

#[test]
fn second_name_compresses_to_a_backreference() {
    // After "a.example.com", the suffix "example.com" stands at offset 2, so
    // "b.example.com" becomes the label "b" and a pointer to that offset.
    let mut b = DnsBuffer::new();
    let mut t = NameTable::new();
    write_name(&mut b, &b"a.example.com".to_vec(), &mut t).unwrap();
    assert_eq!(b.pos, 15);
    write_name(&mut b, &b"b.example.com".to_vec(), &mut t).unwrap();
    assert_eq!(&b.buf[15..19], &[0x01, 0x62, 0xC0, 0x02]);
    b.seek(15).unwrap();
    assert_eq!(b.get_domain().unwrap(), b"b.example.com".to_vec());
    assert_eq!(b.pos, 19);
}

#[test]
fn an_exact_repeat_becomes_a_bare_pointer() {
    let mut b = DnsBuffer::new();
    let mut t = NameTable::new();
    write_name(&mut b, &b"host.example".to_vec(), &mut t).unwrap();
    let start = b.pos;
    write_name(&mut b, &b"host.example".to_vec(), &mut t).unwrap();
    assert_eq!(&b.buf[start..start + 2], &[0xC0, 0x00]);
    b.seek(start).unwrap();
    assert_eq!(b.get_domain().unwrap(), b"host.example".to_vec());
}

#[test]
fn suffix_match_respects_label_boundaries() {
    // "oo.example.com" is not a suffix of "foo.example.com" on a label
    // boundary; only "example.com" is, so the prefix label "foo" is written
    // literally.
    let mut b = DnsBuffer::new();
    let mut t = NameTable::new();
    write_name(&mut b, &b"oo.example.com".to_vec(), &mut t).unwrap();
    let start = b.pos;
    write_name(&mut b, &b"foo.example.com".to_vec(), &mut t).unwrap();
    // "example.com" begins at offset 3 inside the first name.
    assert_eq!(&b.buf[start..start + 6], &[0x03, 0x66, 0x6F, 0x6F, 0xC0, 0x03]);
    b.seek(start).unwrap();
    assert_eq!(b.get_domain().unwrap(), b"foo.example.com".to_vec());
}

/// Lays a chain of pointers two bytes apart starting at `at`, each jumping
/// to the next, with a one-label name at the end.
fn lay_pointer_chain(b: &mut DnsBuffer, pointers: usize) -> usize {
    let base = 10usize;
    for i in 0..pointers {
        let here = base + 10 * i;
        let target = base + 10 * (i + 1);
        b.buf[here] = 0xC0;
        b.buf[here + 1] = target as u8;
    }
    let name_at = base + 10 * pointers;
    b.buf[name_at] = 1;
    b.buf[name_at + 1] = b'x';
    b.buf[name_at + 2] = 0;
    base
}

#[test]
fn five_pointer_jumps_succeed() {
    let mut b = DnsBuffer::new();
    let base = lay_pointer_chain(&mut b, 5);
    b.seek(base).unwrap();
    assert_eq!(b.get_domain().unwrap(), b"x".to_vec());
    assert_eq!(b.pos, base + 2, "the cursor rests just past the first pointer");
}

#[test]
fn six_pointer_jumps_fail() {
    let mut b = DnsBuffer::new();
    let base = lay_pointer_chain(&mut b, 6);
    b.seek(base).unwrap();
    assert_eq!(
        b.get_domain().unwrap_err(),
        DnsError::CompressionLoopExceeded
    );
}

#[test]
fn a_pointer_loop_fails_rather_than_hanging() {
    let mut b = DnsBuffer::new();
    b.buf[20] = 0xC0;
    b.buf[21] = 20;
    b.seek(20).unwrap();
    assert_eq!(
        b.get_domain().unwrap_err(),
        DnsError::CompressionLoopExceeded
    );
}

#[test]
fn a_name_running_past_the_bound_fails() {
    let mut b = DnsBuffer::new();
    b.seek(510).unwrap();
    b.buf[510] = 5;
    b.seek(510).unwrap();
    assert_eq!(b.get_domain().unwrap_err(), DnsError::BufferBounds);
}
