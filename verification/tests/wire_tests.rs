use fanwatch::wire::{read_header, RawEventRecord, HEADER_LEN, METADATA_VERSION};

fn sample() -> RawEventRecord {
    RawEventRecord {
        total_length: 24,
        version: 3,
        reserved: 0,
        header_length: 24,
        mask: 0x0000_0000_0000_000a,
        subject_fd: 7,
        pid: 4242,
    }
}

#[test]
fn header_takes_twenty_four_bytes() {
    assert_eq!(HEADER_LEN, 24);
    assert_eq!(METADATA_VERSION, 3);
}

#[test]
fn header_is_read_field_by_field() {
    let bytes: Vec<u8> = vec![
        0x18, 0x00, 0x00, 0x00, // total_length = 24
        0x03, // version
        0x00, // reserved
        0x18, 0x00, // header_length = 24
        0x0a, 0x00, 0x00, 0x00, 0x00, 0x00, 0x00, 0x00, // mask = 0xa
        0x07, 0x00, 0x00, 0x00, // subject_fd = 7
        0x92, 0x10, 0x00, 0x00, // pid = 4242
    ];
    assert_eq!(read_header(&bytes, 0), Some(sample()));
}

#[test]
fn header_fields_are_little_endian() {
    let bytes: Vec<u8> = vec![
        0x01, 0x02, 0x03, 0x04, 0x05, 0x06, 0x07, 0x08, 0x11, 0x12, 0x13, 0x14, 0x15, 0x16, 0x17,
        0x18, 0x21, 0x22, 0x23, 0x24, 0x31, 0x32, 0x33, 0x34,
    ];
    let header = read_header(&bytes, 0).unwrap();
    assert_eq!(header.total_length, 0x0403_0201);
    assert_eq!(header.version, 0x05);
    assert_eq!(header.reserved, 0x06);
    assert_eq!(header.header_length, 0x0807);
    assert_eq!(header.mask, 0x1817_1615_1413_1211);
    assert_eq!(header.subject_fd, 0x2423_2221);
    assert_eq!(header.pid, 0x3433_3231);
}

#[test]
fn negative_fields_are_twos_complement() {
    let mut bytes = vec![0u8; 24];
    bytes[16..20].copy_from_slice(&[0xff, 0xff, 0xff, 0xff]);
    bytes[20..24].copy_from_slice(&[0x00, 0x00, 0x00, 0x80]);
    let header = read_header(&bytes, 0).unwrap();
    assert_eq!(header.subject_fd, -1);
    assert_eq!(header.pid, i32::MIN);
}

#[test]
fn largest_values_are_read() {
    let bytes = vec![0xffu8; 24];
    let header = read_header(&bytes, 0).unwrap();
    assert_eq!(header.total_length, u32::MAX);
    assert_eq!(header.version, u8::MAX);
    assert_eq!(header.header_length, u16::MAX);
    assert_eq!(header.mask, u64::MAX);
    assert_eq!(header.subject_fd, -1);
    assert_eq!(header.pid, -1);
}

#[test]
fn header_is_read_at_an_offset() {
    let mut bytes = vec![0xeeu8; 5];
    bytes.extend_from_slice(&sample().to_bytes());
    bytes.push(0xee);
    assert_eq!(read_header(&bytes, 5), Some(sample()));
}

#[test]
fn short_input_gives_no_header() {
    let bytes = sample().to_bytes();
    assert_eq!(read_header(&bytes[..23], 0), None);
    assert_eq!(read_header(&bytes, 1), None);
    assert_eq!(read_header(&bytes, 24), None);
    assert_eq!(read_header(&bytes, 25), None);
    assert_eq!(read_header(&bytes, usize::MAX), None);
    assert_eq!(read_header(&[], 0), None);
}

#[test]
fn header_is_written_field_by_field() {
    let bytes = sample().to_bytes();
    assert_eq!(
        bytes,
        vec![
            0x18, 0x00, 0x00, 0x00, 0x03, 0x00, 0x18, 0x00, 0x0a, 0x00, 0x00, 0x00, 0x00, 0x00,
            0x00, 0x00, 0x07, 0x00, 0x00, 0x00, 0x92, 0x10, 0x00, 0x00,
        ]
    );
}

#[test]
fn written_bytes_match_the_platform_encoding() {
    let record = RawEventRecord {
        total_length: 0x0403_0201,
        version: 9,
        reserved: 8,
        header_length: 0x0605,
        mask: 0x8877_6655_4433_2211,
        subject_fd: -2,
        pid: -123_456,
    };
    let mut expected: Vec<u8> = Vec::new();
    expected.extend_from_slice(&record.total_length.to_le_bytes());
    expected.push(record.version);
    expected.push(record.reserved);
    expected.extend_from_slice(&record.header_length.to_le_bytes());
    expected.extend_from_slice(&record.mask.to_le_bytes());
    expected.extend_from_slice(&record.subject_fd.to_le_bytes());
    expected.extend_from_slice(&record.pid.to_le_bytes());
    assert_eq!(record.to_bytes(), expected);
}

#[test]
fn writing_then_reading_gives_the_header_back() {
    let records = [
        sample(),
        RawEventRecord {
            total_length: u32::MAX,
            version: u8::MAX,
            reserved: u8::MAX,
            header_length: u16::MAX,
            mask: u64::MAX,
            subject_fd: i32::MIN,
            pid: i32::MAX,
        },
        RawEventRecord {
            total_length: 0,
            version: 0,
            reserved: 0,
            header_length: 0,
            mask: 0,
            subject_fd: 0,
            pid: 0,
        },
        RawEventRecord {
            total_length: 0x8000_0000,
            version: 3,
            reserved: 1,
            header_length: 0x8000,
            mask: 0x8000_0000_0000_0000,
            subject_fd: -1,
            pid: i32::MIN,
        },
    ];
    for record in records {
        let bytes = record.to_bytes();
        assert_eq!(bytes.len(), HEADER_LEN);
        assert_eq!(read_header(&bytes, 0), Some(record));
    }
}

#[test]
fn reading_twice_gives_the_same_header() {
    let bytes = sample().to_bytes();
    assert_eq!(read_header(&bytes, 0), read_header(&bytes, 0));
    let mut moved = vec![0u8; 40];
    moved.extend_from_slice(&bytes);
    assert_eq!(read_header(&moved, 40), read_header(&bytes, 0));
}
