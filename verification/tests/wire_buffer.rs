use dns_server::error::DnsError;
use dns_server::smart_buffer::SmartBuffer;

fn name_bytes(labels: &[&str]) -> Vec<u8> {
    let mut out = Vec::new();
    for label in labels {
        out.push(label.len() as u8);
        out.extend_from_slice(label.as_bytes());
    }
    out.push(0);
    out
}

#[test]
fn read_u16_is_big_endian() {
    let mut buf = SmartBuffer::new(vec![0x12, 0x34, 0x56]);
    assert_eq!(buf.read_u16(), Ok(0x1234));
    assert_eq!(buf.position(), 2);
    assert_eq!(buf.read_u16(), Err(DnsError::BufferOverflow));
    // The failed read has taken the byte that was left.
    assert_eq!(buf.position(), 3);
}

#[test]
fn read_u32_is_big_endian() {
    let mut buf = SmartBuffer::new(vec![0xDE, 0xAD, 0xBE, 0xEF, 0x01]);
    assert_eq!(buf.read_u32(), Ok(0xDEADBEEF));
    assert_eq!(buf.position(), 4);
    assert_eq!(buf.read_u32(), Err(DnsError::BufferOverflow));
    assert_eq!(buf.position(), 5);
}

#[test]
fn read_slice_takes_bytes_up_to_the_end() {
    let mut buf = SmartBuffer::new(vec![1, 2, 3, 4, 5]);
    assert_eq!(buf.read_slice(2), Ok(vec![1, 2]));
    assert_eq!(buf.read_slice(4), Err(DnsError::BufferOverflow));
    assert_eq!(buf.position(), 2);
    assert_eq!(buf.read_slice(3), Ok(vec![3, 4, 5]));
    assert_eq!(buf.position(), 5);
    assert_eq!(buf.read_slice(0), Ok(vec![]));
    assert_eq!(buf.read_slice(usize::MAX), Err(DnsError::BufferOverflow));
}

#[test]
fn writes_advance_and_fail_at_the_end() {
    let mut buf = SmartBuffer::new(vec![0u8; 8]);
    assert_eq!(buf.write_u8(0xAA), Ok(()));
    assert_eq!(buf.write_u16(0x1234), Ok(()));
    assert_eq!(buf.write_u32(0x01020304), Ok(()));
    assert_eq!(buf.position(), 7);
    // One byte is left: the first byte of the number goes in, the second does not.
    assert_eq!(buf.write_u16(0xBEEF), Err(DnsError::BufferOverflow));
    assert_eq!(buf.position(), 8);
    assert_eq!(buf.write_u8(1), Err(DnsError::BufferOverflow));
    assert_eq!(buf.into_inner(), vec![0xAA, 0x12, 0x34, 0x01, 0x02, 0x03, 0x04, 0xBE]);
}

#[test]
fn write_slice_writes_what_fits() {
    let mut buf = SmartBuffer::new(vec![9u8; 4]);
    assert_eq!(buf.write_slice(&[1, 2]), Ok(()));
    assert_eq!(buf.write_slice(&[3, 4, 5]), Err(DnsError::BufferOverflow));
    assert_eq!(buf.into_inner(), vec![1, 2, 3, 4]);
}

#[test]
fn write_qname_writes_labels_and_a_zero() {
    let mut buf = SmartBuffer::new(vec![0xFFu8; 16]);
    assert_eq!(buf.write_qname("example.com"), Ok(()));
    assert_eq!(buf.position(), 13);
    let bytes = buf.into_inner();
    assert_eq!(&bytes[..13], name_bytes(&["example", "com"]).as_slice());
    assert_eq!(&bytes[13..], &[0xFF, 0xFF, 0xFF]);
}

#[test]
fn write_qname_of_the_empty_name_writes_one_zero() {
    let mut buf = SmartBuffer::new(vec![0xFFu8; 4]);
    assert_eq!(buf.write_qname(""), Ok(()));
    assert_eq!(buf.position(), 1);
    assert_eq!(buf.into_inner(), vec![0, 0xFF, 0xFF, 0xFF]);
    let mut full = SmartBuffer::new(vec![]);
    assert_eq!(full.write_qname(""), Err(DnsError::BufferOverflow));
}

#[test]
fn empty_name_written_then_read_is_empty() {
    let mut buf = SmartBuffer::new(vec![0xFFu8; 1]);
    assert_eq!(buf.write_qname(""), Ok(()));
    let mut again = SmartBuffer::new(buf.into_inner());
    assert_eq!(again.read_qname(), Ok(String::new()));
    assert_eq!(again.position(), 1);
}

#[test]
fn write_qname_refuses_a_label_of_64_bytes() {
    let long = "a".repeat(64);
    let name = format!("ok.{long}.com");
    let mut buf = SmartBuffer::new(vec![0u8; 128]);
    assert_eq!(buf.write_qname(&name), Err(DnsError::LabelTooLong));
    // The label before the long one has been written.
    assert_eq!(buf.position(), 3);
    assert_eq!(&buf.into_inner()[..3], &[2, b'o', b'k']);
}

#[test]
fn write_qname_takes_a_label_of_63_bytes() {
    let label = "b".repeat(63);
    let mut buf = SmartBuffer::new(vec![0u8; 128]);
    assert_eq!(buf.write_qname(&label), Ok(()));
    assert_eq!(buf.position(), 65);
}

#[test]
fn write_qname_overflow_comes_before_a_long_label() {
    let long = "a".repeat(64);
    let name = format!("abc.{long}");
    let mut buf = SmartBuffer::new(vec![0u8; 2]);
    assert_eq!(buf.write_qname(&name), Err(DnsError::BufferOverflow));
}

#[test]
fn read_qname_joins_labels_with_dots() {
    let mut bytes = name_bytes(&["www", "example", "com"]);
    bytes.extend_from_slice(&[0, 1]);
    let mut buf = SmartBuffer::new(bytes);
    assert_eq!(buf.read_qname(), Ok("www.example.com".to_string()));
    assert_eq!(buf.position(), 17);
}

#[test]
fn read_qname_lowercases() {
    let mut bytes = name_bytes(&["Example", "COM"]);
    bytes.push(0);
    let mut buf = SmartBuffer::new(bytes);
    assert_eq!(buf.read_qname(), Ok("example.com".to_string()));
}

#[test]
fn read_qname_replaces_invalid_utf8() {
    let mut buf = SmartBuffer::new(vec![2, 0xFF, b'A', 0, 0]);
    assert_eq!(buf.read_qname(), Ok("\u{FFFD}a".to_string()));
}

#[test]
fn read_qname_of_the_root_is_empty() {
    let mut buf = SmartBuffer::new(vec![0, 7]);
    assert_eq!(buf.read_qname(), Ok(String::new()));
    assert_eq!(buf.position(), 1);
}

#[test]
fn read_qname_name_may_end_with_the_buffer() {
    let mut buf = SmartBuffer::new(vec![0x01, b'a', 0x00]);
    assert_eq!(buf.read_qname(), Ok("a".to_string()));
    assert_eq!(buf.position(), 3);
    let mut longer = SmartBuffer::new(name_bytes(&["www", "example", "com"]));
    assert_eq!(longer.read_qname(), Ok("www.example.com".to_string()));
    assert_eq!(longer.position(), 17);
    let mut root = SmartBuffer::new(vec![0]);
    assert_eq!(root.read_qname(), Ok(String::new()));
    assert_eq!(root.position(), 1);
}

#[test]
fn read_qname_without_a_closing_zero_overflows() {
    // The label takes the last two bytes of the buffer, and nothing closes the name.
    let mut buf = SmartBuffer::new(vec![2, b'a', b'b']);
    assert_eq!(buf.read_qname(), Err(DnsError::BufferOverflow));
    assert_eq!(buf.position(), 0);
}

#[test]
fn read_qname_follows_a_pointer() {
    // offset 0: "example.com", offset 13: a filler byte, offset 14: "www" + pointer to 0
    let mut bytes = name_bytes(&["example", "com"]);
    bytes.push(0xEE);
    bytes.extend_from_slice(&[3, b'w', b'w', b'w', 0xC0, 0x00]);
    bytes.extend_from_slice(&[0xAB, 0xCD]);
    let mut buf = SmartBuffer::new(bytes);
    assert_eq!(buf.read_qname(), Ok("example.com".to_string()));
    assert_eq!(buf.read_slice(1), Ok(vec![0xEE]));
    assert_eq!(buf.read_qname(), Ok("www.example.com".to_string()));
    // The cursor stands behind the pointer.
    assert_eq!(buf.position(), 20);
    assert_eq!(buf.read_u16(), Ok(0xABCD));
}

#[test]
fn read_qname_pointer_uses_fourteen_bits() {
    let mut bytes = vec![0u8; 0x0130];
    bytes[0] = 0xC1;
    bytes[1] = 0x23;
    bytes[0x0123] = 1;
    bytes[0x0124] = b'Z';
    bytes[0x0125] = 0;
    let mut buf = SmartBuffer::new(bytes);
    assert_eq!(buf.read_qname(), Ok("z".to_string()));
    assert_eq!(buf.position(), 2);
}

#[test]
fn read_qname_self_pointer_is_a_loop() {
    let mut buf = SmartBuffer::new(vec![0xC0, 0x00, 0, 0]);
    assert_eq!(buf.read_qname(), Err(DnsError::NameLoop));
    assert_eq!(buf.position(), 2);
    let mut short = SmartBuffer::new(vec![0xC0, 0x00]);
    assert_eq!(short.read_qname(), Err(DnsError::NameLoop));
    assert_eq!(short.position(), 2);
}

#[test]
fn read_qname_follows_ten_pointers_and_no_more() {
    // A chain of pointers: the one at 2*k points to 2*(k+1); the name lies behind the chain.
    fn chain(pointers: usize) -> Vec<u8> {
        let mut bytes = Vec::new();
        for k in 0..pointers {
            bytes.push(0xC0);
            bytes.push((2 * (k + 1)) as u8);
        }
        bytes.extend_from_slice(&[1, b'x', 0, 0]);
        bytes
    }
    let mut ten = SmartBuffer::new(chain(10));
    assert_eq!(ten.read_qname(), Ok("x".to_string()));
    assert_eq!(ten.position(), 2);
    let mut eleven = SmartBuffer::new(chain(11));
    assert_eq!(eleven.read_qname(), Err(DnsError::NameLoop));
}

#[test]
fn read_qname_pointer_may_end_with_the_buffer() {
    let mut buf = SmartBuffer::new(vec![1, b'a', 0, 0xC0, 0x00]);
    assert_eq!(buf.read_slice(3), Ok(vec![1, b'a', 0]));
    assert_eq!(buf.read_qname(), Ok("a".to_string()));
    assert_eq!(buf.position(), 5);
}

#[test]
fn read_qname_pointer_needs_its_second_byte() {
    let mut buf = SmartBuffer::new(vec![1, b'a', 0, 0xC0]);
    assert_eq!(buf.read_slice(3), Ok(vec![1, b'a', 0]));
    assert_eq!(buf.read_qname(), Err(DnsError::BufferOverflow));
    assert_eq!(buf.position(), 3);
}

#[test]
fn read_qname_refuses_reserved_length_bits() {
    let mut bytes = vec![0x40];
    bytes.extend_from_slice(&[b'a'; 80]);
    let mut buf = SmartBuffer::new(bytes.clone());
    assert_eq!(buf.read_qname(), Err(DnsError::BufferOverflow));
    bytes[0] = 0x80;
    let mut buf = SmartBuffer::new(bytes);
    assert_eq!(buf.read_qname(), Err(DnsError::BufferOverflow));
}

#[test]
fn read_qname_past_the_end_overflows() {
    let mut buf = SmartBuffer::new(vec![5, b'a', b'b']);
    assert_eq!(buf.read_qname(), Err(DnsError::BufferOverflow));
    let mut empty = SmartBuffer::new(vec![]);
    assert_eq!(empty.read_qname(), Err(DnsError::BufferOverflow));
}

#[test]
fn name_written_then_read_comes_back_lowercased() {
    let mut buf = SmartBuffer::new(vec![0u8; 64]);
    assert_eq!(buf.write_qname("Mail.Example.ORG"), Ok(()));
    let mut again = SmartBuffer::new(buf.into_inner());
    assert_eq!(again.read_qname(), Ok("mail.example.org".to_string()));
    assert_eq!(again.position(), 18);
}

#[test]
fn error_messages() {
    assert_eq!(DnsError::BufferOverflow.message(), "buffer overflow");
    assert_eq!(DnsError::NameLoop.message(), "possibly loop in the question");
    assert_eq!(DnsError::LabelTooLong.message(), "length of label is greater than 63 bytes");
    assert_eq!(DnsError::UnknownResultCode.message(), "unsupported result code");
    assert_eq!(DnsError::BrokenBindFile.message(), "broken bind file");
}
