use vstd::math::min;
use vstd::prelude::*;

use crate::entry::{ReadError, VPKEntry};

verus! {

/// Where the reads of an entry are served from, chosen when the reader is
/// made.
#[derive(Debug, Clone, Copy, PartialEq, Eq, Structural)]
pub enum ReadPhase {
    /// Only the preloaded data is read.
    PreloadOnly,
    /// The preloaded data is read first, then the archive window.
    PreloadThenArchive,
    /// Only the archive window is read.
    ArchiveOnly,
}

/// The position of a reader in an entry.
pub struct ReaderView {
    /// Number of preloaded bytes of the entry.
    pub preload_len: nat,
    /// Number of preloaded bytes handed out.
    pub preload_read: nat,
    /// Offset of the window in the archive.
    pub archive_offset: nat,
    /// Number of bytes of the window.
    pub window_len: nat,
    /// Number of bytes of the window handed out.
    pub window_read: nat,
}

impl ReaderView {
    /// Counts stay within their bounds and the window is only read once the
    /// preloaded data is used up.
    pub open spec fn wf(self) -> bool {
        &&& self.preload_read <= self.preload_len <= usize::MAX
        &&& self.window_read <= self.window_len <= u32::MAX
        &&& self.archive_offset <= u32::MAX
        &&& self.window_read > 0 ==> self.preload_read == self.preload_len
    }

    /// Number of bytes handed out so far.
    pub open spec fn produced(self) -> nat {
        self.preload_read + self.window_read
    }

    /// Number of bytes of the entry.
    pub open spec fn total(self) -> nat {
        self.preload_len + self.window_len
    }

    /// Where the reads come from.
    pub open spec fn phase(self) -> ReadPhase {
        if self.window_len == 0 {
            ReadPhase::PreloadOnly
        } else if self.preload_len == 0 {
            ReadPhase::ArchiveOnly
        } else {
            ReadPhase::PreloadThenArchive
        }
    }

    /// Number of preloaded bytes that a read with room for `space` bytes takes.
    pub open spec fn preload_take(self, space: nat) -> nat {
        min(space as int, self.preload_len - self.preload_read) as nat
    }

    /// Number of bytes to ask of the archive, with room for `space` bytes
    /// left: none while preloaded bytes remain.
    pub open spec fn archive_ask(self, space: nat) -> nat {
        if self.preload_read < self.preload_len {
            0
        } else {
            min(space as int, self.window_len - self.window_read) as nat
        }
    }

    /// Whether a read that took `from_preload` preloaded bytes, asked the
    /// archive for `requested` and got `got` found the archive ended early.
    pub open spec fn truncated(from_preload: nat, requested: nat, got: nat) -> bool {
        requested > 0 && got == 0 && from_preload == 0
    }

    /// Number of bytes that an archive of `blob_len` bytes still has for the
    /// window.
    pub open spec fn archive_available(self, blob_len: nat) -> nat {
        if self.archive_offset + self.window_read < blob_len {
            (blob_len - self.archive_offset - self.window_read) as nat
        } else {
            0
        }
    }

    /// A reader at the start of `entry`.
    pub open spec fn start_of(entry: &VPKEntry) -> ReaderView {
        ReaderView {
            preload_len: entry.preload_data@.len(),
            preload_read: 0,
            archive_offset: entry.dir_entry.archive_offset as nat,
            window_len: entry.window_len(),
            window_read: 0,
        }
    }

    /// The bytes handed out so far, where the archive's bytes are `blob`.
    pub open spec fn produced_bytes(self, preload: Seq<u8>, blob: Seq<u8>) -> Seq<u8> {
        preload.subrange(0, self.preload_read as int) + if self.window_read == 0 {
            Seq::empty()
        } else {
            blob.subrange(self.archive_offset as int, (self.archive_offset + self.window_read) as int)
        }
    }

    /// The bytes that reads with room for `chunk` bytes each hand out, one
    /// after the other, until the entry is used up or a read fails.
    pub open spec fn read_in_chunks(self, preload: Seq<u8>, blob: Seq<u8>, chunk: nat) -> Result<Seq<u8>, ReadError>
        decreases self.total() - self.produced(),
    {
        if self.produced() >= self.total() || chunk == 0 {
            Ok(Seq::empty())
        } else {
            let (next, r) = self.step(preload, blob, chunk);
            match r {
                Err(e) => Err(e),
                Ok(b) => if self.produced() < next.produced() <= next.total() == self.total() {
                    match next.read_in_chunks(preload, blob, chunk) {
                        Ok(rest) => Ok(b + rest),
                        Err(e) => Err(e),
                    }
                } else {
                    Ok(b)
                },
            }
        }
    }

    /// What one read with room for `space` bytes does, where the archive's
    /// bytes are `blob`: the next state, and the bytes handed out or the
    /// truncation error.
    pub open spec fn step(self, preload: Seq<u8>, blob: Seq<u8>, space: nat) -> (ReaderView, Result<Seq<u8>, ReadError>) {
        let k = self.preload_take(space);
        let v1 = ReaderView { preload_read: self.preload_read + k, ..self };
        let req = v1.archive_ask((space - k) as nat);
        let got = min(req as int, v1.archive_available(blob.len()) as int) as nat;
        if Self::truncated(k, req, got) {
            (self, Err(ReadError::TruncatedArchive))
        } else {
            let start = self.archive_offset + self.window_read;
            (
                ReaderView { window_read: self.window_read + got, ..v1 },
                Ok(
                    preload.subrange(self.preload_read as int, (self.preload_read + k) as int)
                        + if got == 0 {
                        Seq::empty()
                    } else {
                        blob.subrange(start as int, (start + got) as int)
                    },
                ),
            )
        }
    }
}

/// A read that is owed bytes either hands out some, extending what was
/// handed out before, or fails only where the archive ends inside the window.
pub proof fn lemma_step(v: ReaderView, preload: Seq<u8>, blob: Seq<u8>, space: nat)
    requires
        v.wf(),
        preload.len() == v.preload_len,
        space > 0,
        v.produced() < v.total(),
        v.window_read > 0 ==> v.archive_offset + v.window_read <= blob.len(),
    ensures
        v.step(preload, blob, space).0.wf(),
        v.step(preload, blob, space).0.total() == v.total(),
        v.step(preload, blob, space).0.preload_len == v.preload_len,
        v.step(preload, blob, space).0.window_len == v.window_len,
        v.step(preload, blob, space).0.archive_offset == v.archive_offset,
        match v.step(preload, blob, space).1 {
            Ok(b) => {
                let n = v.step(preload, blob, space).0;
                &&& n.produced() > v.produced()
                &&& n.produced_bytes(preload, blob) == v.produced_bytes(preload, blob) + b
                &&& n.window_read > 0 ==> n.archive_offset + n.window_read <= blob.len()
            },
            Err(e) => v.window_read < v.window_len && blob.len() <= v.archive_offset + v.window_read,
        },
{
    let (n, r) = v.step(preload, blob, space);
    let k = v.preload_take(space);
    match r {
        Ok(b) => {
            let pr = v.preload_read as int;
            assert(preload.subrange(0, pr + k) =~= preload.subrange(0, pr) + preload.subrange(pr, pr + k));
            let off = v.archive_offset as int;
            let wr = v.window_read as int;
            let got = n.window_read - v.window_read;
            if got > 0 && wr > 0 {
                assert(blob.subrange(off, off + wr + got) =~= blob.subrange(off, off + wr) + blob.subrange(off + wr, off + wr + got));
            }
            assert(n.produced_bytes(preload, blob) =~= v.produced_bytes(preload, blob) + b);
        },
        Err(_) => {},
    }
}

/// A reader over an archive that holds the window hands out, chunk after
/// chunk, the rest of the entry's bytes.
pub proof fn lemma_read_in_chunks_rest(v: ReaderView, preload: Seq<u8>, blob: Seq<u8>, chunk: nat, content: Seq<u8>)
    requires
        v.wf(),
        preload.len() == v.preload_len,
        chunk > 0,
        v.window_len == 0 || v.archive_offset + v.window_len <= blob.len(),
        v.window_read > 0 ==> v.archive_offset + v.window_read <= blob.len(),
        content == preload + if v.window_len == 0 {
            Seq::empty()
        } else {
            blob.subrange(v.archive_offset as int, (v.archive_offset + v.window_len) as int)
        },
    ensures
        match v.read_in_chunks(preload, blob, chunk) {
            Ok(rest) => v.produced_bytes(preload, blob) + rest == content,
            Err(_) => false,
        },
    decreases v.total() - v.produced(),
{
    if v.produced() >= v.total() {
        assert(preload.subrange(0, v.preload_read as int) =~= preload);
        assert(v.produced_bytes(preload, blob) =~= content);
        assert(v.produced_bytes(preload, blob) + Seq::<u8>::empty() =~= content);
    } else {
        lemma_step(v, preload, blob, chunk);
        let n = v.step(preload, blob, chunk).0;
        let r = v.step(preload, blob, chunk).1;
        if let Ok(b) = r {
            lemma_read_in_chunks_rest(n, preload, blob, chunk, content);
            let rest = n.read_in_chunks(preload, blob, chunk)->Ok_0;
            assert(v.read_in_chunks(preload, blob, chunk) == Ok::<Seq<u8>, ReadError>(b + rest));
            assert(v.produced_bytes(preload, blob) + (b + rest) =~= n.produced_bytes(preload, blob) + rest);
        }
    }
}

/// Reading an entry whose archive holds its window, in chunks of any size,
/// gives the same bytes as reading it in one call with room for all of them:
/// the entry's content.
pub proof fn lemma_chunked_reads_agree(entry: &VPKEntry, blob: Seq<u8>, chunk: nat)
    requires
        entry.archive_fits(blob),
        entry.preload_data@.len() <= usize::MAX,
        chunk > 0,
    ensures
        ReaderView::start_of(entry).read_in_chunks(entry.preload_data@, blob, chunk) == Ok::<Seq<u8>, ReadError>(entry.content(blob)),
        ReaderView::start_of(entry).step(entry.preload_data@, blob, entry.total_len()).1 == Ok::<Seq<u8>, ReadError>(entry.content(blob)),
{
    let v = ReaderView::start_of(entry);
    let p = entry.preload_data@;
    assert(v.produced_bytes(p, blob) =~= Seq::<u8>::empty());
    lemma_read_in_chunks_rest(v, p, blob, chunk, entry.content(blob));
    let rest = v.read_in_chunks(p, blob, chunk).unwrap();
    assert(Seq::<u8>::empty() + rest =~= rest);
    if v.total() > 0 {
        lemma_step(v, p, blob, v.total());
        let (n, r) = v.step(p, blob, v.total());
        let b = r.unwrap();
        assert(n.produced() == n.total());
        assert(p.subrange(0, n.preload_read as int) =~= p);
        assert(Seq::<u8>::empty() + b =~= b);
    } else {
        assert(p =~= Seq::<u8>::empty());
    }
}

/// Appends `src[start..end]` to `out`.
fn append_range(out: &mut Vec<u8>, src: &[u8], start: usize, end: usize)
    requires
        start <= end <= src@.len(),
    ensures
        final(out)@ == old(out)@ + src@.subrange(start as int, end as int),
{
    let mut i: usize = start;
    while i < end
        invariant
            start <= i <= end <= src@.len(),
            out@ == old(out)@ + src@.subrange(start as int, i as int),
        decreases end - i,
    {
        out.push(src[i]);
        i = i + 1;
        assert(out@ =~= old(out)@ + src@.subrange(start as int, i as int));
    }
}

/// The state of one read session over an entry: how much of the preloaded
/// data and of the archive window has been handed out. Both only grow, the
/// window only once the preloaded data is used up.
pub struct ReaderState {
    preload_len: usize,
    preload_read: usize,
    archive_offset: u64,
    window_len: u64,
    window_read: u64,
}

impl View for ReaderState {
    type V = ReaderView;

    closed spec fn view(&self) -> ReaderView {
        ReaderView {
            preload_len: self.preload_len as nat,
            preload_read: self.preload_read as nat,
            archive_offset: self.archive_offset as nat,
            window_len: self.window_len as nat,
            window_read: self.window_read as nat,
        }
    }
}

impl ReaderState {
    /// A reader at the start of `entry`.
    pub fn new(entry: &VPKEntry) -> (r: ReaderState)
        ensures
            r@.wf(),
            r@.preload_len == entry.preload_data@.len(),
            r@.window_len == entry.window_len(),
            r@.archive_offset == entry.dir_entry.archive_offset,
            r@ == ReaderView::start_of(entry),
    {
        let window_len: u64 = match entry.archive_path {
            Some(_) => entry.dir_entry.file_length as u64,
            None => 0,
        };
        ReaderState {
            preload_len: entry.preload_data.len(),
            preload_read: 0,
            archive_offset: entry.dir_entry.archive_offset as u64,
            window_len,
            window_read: 0,
        }
    }

    /// Where this reader's bytes come from.
    pub fn phase(&self) -> (r: ReadPhase)
        ensures
            r == self@.phase(),
    {
        if self.window_len == 0 {
            ReadPhase::PreloadOnly
        } else if self.preload_len == 0 {
            ReadPhase::ArchiveOnly
        } else {
            ReadPhase::PreloadThenArchive
        }
    }

    /// Whether every byte of the entry has been handed out.
    pub fn is_done(&self) -> (r: bool)
        requires
            self@.wf(),
        ensures
            r == (self@.produced() == self@.total()),
    {
        self.preload_read == self.preload_len && self.window_read == self.window_len
    }

    /// Whether the reader has moved on to the archive window, for good.
    pub fn in_archive_phase(&self) -> (r: bool)
        ensures
            r == (self@.preload_read == self@.preload_len && self@.window_len > 0),
    {
        self.preload_read == self.preload_len && self.window_len > 0
    }

    /// Hands out as many preloaded bytes as fit in `space`.
    pub fn take_preload(&mut self, preload: &[u8], space: usize) -> (r: Vec<u8>)
        requires
            old(self)@.wf(),
            preload@.len() == old(self)@.preload_len,
        ensures
            final(self)@.wf(),
            r@ == preload@.subrange(
                old(self)@.preload_read as int,
                (old(self)@.preload_read + old(self)@.preload_take(space as nat)) as int,
            ),
            final(self)@ == (ReaderView {
                preload_read: old(self)@.preload_read + old(self)@.preload_take(space as nat),
                ..old(self)@
            }),
    {
        let rest = self.preload_len - self.preload_read;
        let k = if space < rest { space } else { rest };
        let start = self.preload_read;
        let end = start + k;
        let mut out: Vec<u8> = Vec::new();
        append_range(&mut out, preload, start, end);
        assert(out@ =~= preload@.subrange(start as int, end as int));
        self.preload_read = end;
        out
    }

    /// Number of bytes to ask of the archive in a read with room for `space`
    /// bytes left.
    pub fn archive_request(&self, space: usize) -> (r: usize)
        requires
            self@.wf(),
        ensures
            r == self@.archive_ask(space as nat),
    {
        if self.preload_read < self.preload_len {
            0
        } else {
            let rest = self.window_len - self.window_read;
            if (space as u64) < rest {
                space
            } else {
                rest as usize
            }
        }
    }

    /// Records that a read took `from_preload` preloaded bytes, then asked the
    /// archive for `requested` bytes and got `got`. Gives the number of bytes
    /// the read handed out, or the truncation error where it handed out none
    /// though the archive owed some; then nothing is recorded.
    pub fn archive_delivered(&mut self, from_preload: usize, requested: usize, got: usize) -> (r: Result<usize, ReadError>)
        requires
            old(self)@.wf(),
            got <= requested,
            requested > 0 ==> old(self)@.preload_read == old(self)@.preload_len,
            old(self)@.window_read + requested <= old(self)@.window_len,
            from_preload + requested <= usize::MAX,
        ensures
            final(self)@.wf(),
            ReaderView::truncated(from_preload as nat, requested as nat, got as nat) ==> r == Err::<usize, ReadError>(ReadError::TruncatedArchive)
                && final(self)@ == old(self)@,
            !ReaderView::truncated(from_preload as nat, requested as nat, got as nat) ==> r == Ok::<usize, ReadError>((from_preload + got) as usize)
                && final(self)@ == (ReaderView { window_read: (old(self)@.window_read + got) as nat, ..old(self)@ }),
    {
        if requested > 0 && got == 0 && from_preload == 0 {
            return Err(ReadError::TruncatedArchive);
        }
        self.window_read = self.window_read + got as u64;
        Ok(from_preload + got)
    }

    /// One read with room for `space` bytes, where the archive's bytes are
    /// `blob`: preloaded bytes first, then, if room is left, the window.
    pub fn read_from_blob(&mut self, preload: &[u8], blob: &[u8], space: usize) -> (r: Result<Vec<u8>, ReadError>)
        requires
            old(self)@.wf(),
            preload@.len() == old(self)@.preload_len,
        ensures
            final(self)@.wf(),
            final(self)@ == old(self)@.step(preload@, blob@, space as nat).0,
            match r {
                Ok(v) => old(self)@.step(preload@, blob@, space as nat).1 == Ok::<Seq<u8>, ReadError>(v@),
                Err(e) => old(self)@.step(preload@, blob@, space as nat).1 == Err::<Seq<u8>, ReadError>(e),
            },
    {
        let mut out = self.take_preload(preload, space);
        let k = out.len();
        let req = self.archive_request(space - k);
        let start: u64 = self.archive_offset + self.window_read;
        let avail: usize = if start < blob.len() as u64 {
            blob.len() - start as usize
        } else {
            0
        };
        let got = if req < avail {
            req
        } else {
            avail
        };
        if got > 0 {
            append_range(&mut out, blob, start as usize, start as usize + got);
        } else {
            assert(out@ + Seq::<u8>::empty() =~= out@);
        }
        match self.archive_delivered(k, req, got) {
            Ok(_) => Ok(out),
            Err(e) => Err(e),
        }
    }
}

} // verus!
