use std::path::PathBuf;
use std::sync::Arc;
use vstd::prelude::*;

use crate::header::VPKDirectoryEntry;
use crate::reader::{lemma_step, ReaderState, ReaderView};

verus! {

/// Room that each read of [`VPKEntry::read_all_from`] has.
pub const READ_CHUNK: usize = 8192;

/// Declares `std::path::PathBuf`, so that an entry can hold the path of its
/// archive. Nothing is assumed of its contents: paths are only carried.
#[verifier::external_type_specification]
#[verifier::external_body]
pub struct ExPathBuf(PathBuf);

/// An entry in the VPK.
#[derive(Debug)]
pub struct VPKEntry {
    /// [`VPKDirectoryEntry`].
    pub dir_entry: VPKDirectoryEntry,
    /// Path to the archive to read the entry's remaining bytes from.
    ///
    /// Is `Some` when data for the entry must be read from that file (after
    /// [`Self::preload_data`]); is `None` when [`Self::preload_data`] is all
    /// of it.
    pub archive_path: Option<Arc<PathBuf>>,
    /// Preloaded data of the entry, read before the archive.
    pub preload_data: Vec<u8>,
}

/// Why reading an entry failed.
#[derive(Debug, Clone, Copy, PartialEq, Eq, Structural)]
pub enum ReadError {
    /// The archive ended before the entry's window of it did.
    TruncatedArchive,
}

impl VPKEntry {
    /// The preloaded data has the length that the header gives.
    pub open spec fn wf(&self) -> bool {
        self.preload_data@.len() == self.dir_entry.preload_length
    }

    /// Number of bytes of the entry that come from the archive.
    pub open spec fn window_len(&self) -> nat {
        if self.archive_path is Some {
            self.dir_entry.file_length as nat
        } else {
            0
        }
    }

    /// Number of bytes of the whole entry.
    pub open spec fn total_len(&self) -> nat {
        self.preload_data@.len() + self.window_len()
    }

    /// Whether an archive whose bytes are `blob` holds the entry's window.
    pub open spec fn archive_fits(&self, blob: Seq<u8>) -> bool {
        self.window_len() == 0 || self.dir_entry.archive_offset + self.window_len() <= blob.len()
    }

    /// The entry's bytes, where the archive's bytes are `blob` and hold the
    /// window: the preloaded data, then the window.
    pub open spec fn content(&self, blob: Seq<u8>) -> Seq<u8> {
        if self.window_len() == 0 {
            self.preload_data@
        } else {
            self.preload_data@ + blob.subrange(
                self.dir_entry.archive_offset as int,
                self.dir_entry.archive_offset + self.window_len(),
            )
        }
    }

    /// Makes an entry from its header, the preloaded bytes that follow the
    /// header in the directory index, and the archive that holds the rest,
    /// if any. The bytes are copied.
    pub fn new(dir_entry: VPKDirectoryEntry, preload: &[u8], archive_path: Option<Arc<PathBuf>>) -> (r: VPKEntry)
        requires
            preload@.len() == dir_entry.preload_length,
        ensures
            r.dir_entry == dir_entry,
            r.preload_data@ == preload@,
            r.archive_path == archive_path,
            r.wf(),
    {
        VPKEntry { dir_entry, archive_path, preload_data: vstd::slice::slice_to_vec(preload) }
    }

    /// Reads the whole entry, where the archive's bytes are `blob`: the
    /// preloaded data then the window, or the truncation error where the
    /// archive ends inside the window.
    pub fn read_all_from(&self, blob: &[u8]) -> (r: Result<Vec<u8>, ReadError>)
        ensures
            self.archive_fits(blob@) ==> (r matches Ok(v) && v@ == self.content(blob@)),
            !self.archive_fits(blob@) ==> r == Err::<Vec<u8>, ReadError>(ReadError::TruncatedArchive),
    {
        let preload = self.preload_data.as_slice();
        let mut st = ReaderState::new(self);
        let mut out: Vec<u8> = Vec::new();
        proof {
            assert(out@ =~= st@.produced_bytes(preload@, blob@));
        }
        while !st.is_done()
            invariant
                st@.wf(),
                st@.preload_len == preload@.len(),
                preload@ == self.preload_data@,
                st@.window_len == self.window_len(),
                st@.archive_offset == self.dir_entry.archive_offset,
                out@ == st@.produced_bytes(preload@, blob@),
                st@.window_read > 0 ==> st@.archive_offset + st@.window_read <= blob@.len(),
            decreases st@.total() - st@.produced(),
        {
            proof {
                lemma_step(st@, preload@, blob@, READ_CHUNK as nat);
            }
            match st.read_from_blob(preload, blob, READ_CHUNK) {
                Ok(chunk) => {
                    let mut chunk = chunk;
                    out.append(&mut chunk);
                },
                Err(e) => {
                    return Err(e);
                },
            }
        }
        proof {
            assert(preload@.subrange(0, st@.preload_read as int) =~= preload@);
            assert(out@ =~= self.content(blob@));
        }
        Ok(out)
    }
}

/// An entry with no preloaded data and no archive is empty: reading it whole
/// succeeds, whatever the archive holds, and gives no bytes.
pub proof fn lemma_empty_entry(entry: &VPKEntry, blob: Seq<u8>)
    requires
        entry.preload_data@.len() == 0,
        entry.archive_path is None,
    ensures
        entry.archive_fits(blob),
        entry.content(blob) == Seq::<u8>::empty(),
{
    assert(entry.preload_data@ =~= Seq::<u8>::empty());
}

} // verus!
