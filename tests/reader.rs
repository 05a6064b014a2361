use std::path::PathBuf;
use std::sync::Arc;
use vpk::entry::{ReadError, VPKEntry};
use vpk::header::{decode_header, VPKDirectoryEntry, ENTRY_TERMINATOR};
use vpk::reader::{ReadPhase, ReaderState};

fn header(preload_length: u16, archive_offset: u32, file_length: u32) -> VPKDirectoryEntry {
    VPKDirectoryEntry {
        crc32: 0,
        preload_length,
        archive_index: 0,
        archive_offset,
        file_length,
        suffix: ENTRY_TERMINATOR,
    }
}

fn path() -> Option<Arc<PathBuf>> {
    Some(Arc::new(PathBuf::from("pak01_000.vpk")))
}

/// An archive of `len` bytes, the byte at `i` being `i % 251`.
fn blob(len: usize) -> Vec<u8> {
    (0..len).map(|i| (i % 251) as u8).collect()
}

#[test]
fn empty_entry_reads_nothing() {
    let e = VPKEntry::new(header(0, 0, 0), &[], None);
    assert_eq!(e.read_all_from(&[]), Ok(vec![]));
    assert_eq!(e.read_all_from(&blob(50)), Ok(vec![]));
    let e = VPKEntry::new(header(0, 10, 20), &[], None);
    assert_eq!(e.read_all_from(&[]), Ok(vec![]));
}

#[test]
fn chunked_reads_match_one_read() {
    let preload = [11u8, 12, 13, 14, 15];
    let e = VPKEntry::new(header(5, 20, 10), &preload, path());
    let archive = blob(40);

    let mut whole = ReaderState::new(&e);
    let all = whole.read_from_blob(&e.preload_data, &archive, 15).unwrap();
    assert!(whole.is_done());

    let mut st = ReaderState::new(&e);
    let mut joined = Vec::new();
    let mut sizes = Vec::new();
    while !st.is_done() {
        let chunk = st.read_from_blob(&e.preload_data, &archive, 3).unwrap();
        sizes.push(chunk.len());
        joined.extend_from_slice(&chunk);
    }
    assert_eq!(sizes, vec![3, 3, 3, 3, 3]);
    assert_eq!(joined, all);
    let mut expected = preload.to_vec();
    expected.extend_from_slice(&archive[20..30]);
    assert_eq!(all, expected);
    assert_eq!(e.read_all_from(&archive), Ok(expected));
}

#[test]
fn short_archive_is_truncated() {
    let e = VPKEntry::new(header(2, 100, 10), &[1, 2], path());
    assert_eq!(e.read_all_from(&blob(109)), Err(ReadError::TruncatedArchive));
    assert_eq!(e.read_all_from(&blob(50)), Err(ReadError::TruncatedArchive));
    assert_eq!(e.read_all_from(&[]), Err(ReadError::TruncatedArchive));
    assert!(e.read_all_from(&blob(110)).is_ok());
}

#[test]
fn truncation_comes_after_the_bytes_there_are() {
    let e = VPKEntry::new(header(2, 4, 10), &[1, 2], path());
    let archive = blob(8);
    let mut st = ReaderState::new(&e);
    assert_eq!(st.read_from_blob(&e.preload_data, &archive, 100), Ok(vec![1, 2, 4, 5, 6, 7]));
    assert_eq!(
        st.read_from_blob(&e.preload_data, &archive, 100),
        Err(ReadError::TruncatedArchive)
    );
}

#[test]
fn scenario_preload_then_archive() {
    let mut bytes = vec![0xEF, 0xBE, 0xAD, 0xDE, 3, 0, 0, 0, 100, 0, 0, 0, 7, 0, 0, 0, 0xFF, 0xFF];
    bytes.extend_from_slice(&[1, 2, 3]);
    let h = decode_header(&bytes).unwrap();
    assert_eq!(h.crc32, 0xDEADBEEF);
    let e = VPKEntry::new(h, &bytes[18..21], path());
    let mut archive = vec![0u8; 100];
    archive.extend_from_slice(&[4, 5, 6, 7, 8, 9, 10]);
    assert_eq!(e.read_all_from(&archive), Ok(vec![1, 2, 3, 4, 5, 6, 7, 8, 9, 10]));
}

#[test]
fn phases_follow_the_entry() {
    let only_preload = VPKEntry::new(header(3, 0, 7), &[1, 2, 3], None);
    assert_eq!(ReaderState::new(&only_preload).phase(), ReadPhase::PreloadOnly);
    let zero_window = VPKEntry::new(header(3, 0, 0), &[1, 2, 3], path());
    assert_eq!(ReaderState::new(&zero_window).phase(), ReadPhase::PreloadOnly);
    let both = VPKEntry::new(header(3, 0, 7), &[1, 2, 3], path());
    assert_eq!(ReaderState::new(&both).phase(), ReadPhase::PreloadThenArchive);
    let only_archive = VPKEntry::new(header(0, 0, 7), &[], path());
    assert_eq!(ReaderState::new(&only_archive).phase(), ReadPhase::ArchiveOnly);
}

#[test]
fn preload_only_ignores_the_file_length() {
    let e = VPKEntry::new(header(3, 0, 7), &[1, 2, 3], None);
    assert_eq!(e.read_all_from(&[]), Ok(vec![1, 2, 3]));
}

#[test]
fn archive_only_reads_the_window() {
    let e = VPKEntry::new(header(0, 3, 4), &[], path());
    assert_eq!(e.read_all_from(&blob(10)), Ok(vec![3, 4, 5, 6]));
}

#[test]
fn large_window_in_many_chunks() {
    let e = VPKEntry::new(header(1, 7, 20000), &[42], path());
    let archive = blob(20007);
    let mut expected = vec![42u8];
    expected.extend_from_slice(&archive[7..20007]);
    assert_eq!(e.read_all_from(&archive), Ok(expected));
}

#[test]
fn step_by_step_session() {
    let e = VPKEntry::new(header(4, 0, 6), &[1, 2, 3, 4], path());
    let mut st = ReaderState::new(&e);
    assert!(!st.in_archive_phase());
    let first = st.take_preload(&e.preload_data, 3);
    assert_eq!(first, vec![1, 2, 3]);
    assert_eq!(st.archive_request(0), 0);
    assert_eq!(st.archive_delivered(3, 0, 0), Ok(3));

    let second = st.take_preload(&e.preload_data, 5);
    assert_eq!(second, vec![4]);
    assert!(st.in_archive_phase());
    let ask = st.archive_request(4);
    assert_eq!(ask, 4);
    assert_eq!(st.archive_delivered(1, ask, 2), Ok(3));

    assert!(st.take_preload(&e.preload_data, 10).is_empty());
    let ask = st.archive_request(10);
    assert_eq!(ask, 4);
    assert_eq!(st.archive_delivered(0, ask, 0), Err(ReadError::TruncatedArchive));
    assert_eq!(st.archive_delivered(0, ask, 4), Ok(4));
    assert!(st.is_done());
    assert_eq!(st.archive_request(10), 0);
}

#[test]
fn new_entry_copies_preload() {
    let h = header(2, 0, 0);
    let e = VPKEntry::new(h, &[7, 8], None);
    assert_eq!(e.preload_data, vec![7, 8]);
    assert_eq!(e.dir_entry, h);
    assert!(e.archive_path.is_none());
}
