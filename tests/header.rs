use vpk::header::{
    decode_header, MalformedHeader, VPKDirectoryEntry, DIRECTORY_ARCHIVE_INDEX, ENTRY_TERMINATOR,
    HEADER_SIZE,
};

fn sample_header() -> VPKDirectoryEntry {
    VPKDirectoryEntry {
        crc32: 0xDEADBEEF,
        preload_length: 3,
        archive_index: 0,
        archive_offset: 100,
        file_length: 7,
        suffix: ENTRY_TERMINATOR,
    }
}

fn sample_bytes() -> Vec<u8> {
    vec![
        0xEF, 0xBE, 0xAD, 0xDE, // crc32
        3, 0, // preload_length
        0, 0, // archive_index
        100, 0, 0, 0, // archive_offset
        7, 0, 0, 0, // file_length
        0xFF, 0xFF, // terminator
    ]
}

#[test]
fn decode_known_record() {
    assert_eq!(decode_header(&sample_bytes()), Ok(sample_header()));
}

#[test]
fn encode_known_record() {
    assert_eq!(sample_header().encode(), sample_bytes());
    assert_eq!(sample_header().encode().len(), HEADER_SIZE);
}

#[test]
fn decode_encode_round_trip() {
    let headers = [
        sample_header(),
        VPKDirectoryEntry {
            crc32: 0,
            preload_length: 0,
            archive_index: DIRECTORY_ARCHIVE_INDEX,
            archive_offset: 0,
            file_length: 0,
            suffix: ENTRY_TERMINATOR,
        },
        VPKDirectoryEntry {
            crc32: u32::MAX,
            preload_length: u16::MAX,
            archive_index: 0x1234,
            archive_offset: 0x0102_0304,
            file_length: u32::MAX,
            suffix: ENTRY_TERMINATOR,
        },
    ];
    for h in headers {
        assert_eq!(decode_header(&h.encode()), Ok(h));
    }
}

#[test]
fn short_input_is_truncated() {
    let full = sample_bytes();
    for n in 0..HEADER_SIZE {
        assert_eq!(decode_header(&full[..n]), Err(MalformedHeader::Truncated));
    }
    for n in 0..16 {
        let mut cursor: usize = 0;
        let r = VPKDirectoryEntry::read_from(&full[..n], &mut cursor);
        assert_eq!(r, Err(MalformedHeader::Truncated));
        assert_eq!(cursor, 0);
    }
}

#[test]
fn truncated_from_an_offset() {
    let mut bytes = vec![9u8; 5];
    bytes.extend_from_slice(&sample_bytes()[..10]);
    let mut cursor: usize = 5;
    assert_eq!(
        VPKDirectoryEntry::read_from(&bytes, &mut cursor),
        Err(MalformedHeader::Truncated)
    );
    let mut far: usize = usize::MAX;
    assert_eq!(
        VPKDirectoryEntry::read_from(&bytes, &mut far),
        Err(MalformedHeader::Truncated)
    );
}

#[test]
fn zero_terminator_is_malformed() {
    let mut bytes = sample_bytes();
    bytes[16] = 0;
    bytes[17] = 0;
    assert_eq!(decode_header(&bytes), Err(MalformedHeader::BadTerminator(0)));
}

#[test]
fn cursor_moves_past_each_record() {
    let mut bytes = vec![0xAAu8; 2];
    bytes.extend_from_slice(&sample_bytes());
    let second = VPKDirectoryEntry { crc32: 1, archive_index: 2, ..sample_header() };
    bytes.extend_from_slice(&second.encode());
    bytes.extend_from_slice(&[1, 2, 3]);
    let mut cursor: usize = 2;
    assert_eq!(VPKDirectoryEntry::read_from(&bytes, &mut cursor), Ok(sample_header()));
    assert_eq!(cursor, 2 + HEADER_SIZE);
    assert_eq!(VPKDirectoryEntry::read_from(&bytes, &mut cursor), Ok(second));
    assert_eq!(cursor, 2 + 2 * HEADER_SIZE);
    assert_eq!(
        VPKDirectoryEntry::read_from(&bytes, &mut cursor),
        Err(MalformedHeader::Truncated)
    );
    assert_eq!(cursor, 2 + 2 * HEADER_SIZE);
}

#[test]
fn bad_terminator_leaves_cursor() {
    let mut bytes = sample_bytes();
    bytes[17] = 0x12;
    let mut cursor: usize = 0;
    assert_eq!(
        VPKDirectoryEntry::read_from(&bytes, &mut cursor),
        Err(MalformedHeader::BadTerminator(0x12FF))
    );
    assert_eq!(cursor, 0);
}

#[test]
fn header_queries() {
    let h = sample_header();
    assert_eq!(h.total_length(), 10);
    assert!(!h.in_directory_file());
    let d = VPKDirectoryEntry { archive_index: DIRECTORY_ARCHIVE_INDEX, ..h };
    assert!(d.in_directory_file());
    let big = VPKDirectoryEntry { preload_length: u16::MAX, file_length: u32::MAX, ..h };
    assert_eq!(big.total_length(), u16::MAX as u64 + u32::MAX as u64);
}
