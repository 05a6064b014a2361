use vstd::prelude::*;

verus! {

/// Size in bytes of an encoded [`VPKDirectoryEntry`].
pub const HEADER_SIZE: usize = 18;

/// Value that closes every encoded header.
pub const ENTRY_TERMINATOR: u16 = 0xffff;

/// Value of `archive_index` that says the remaining bytes lie in the directory
/// index file itself rather than in a numbered archive blob.
pub const DIRECTORY_ARCHIVE_INDEX: u16 = 0x7fff;

/// [`crate::entry::VPKEntry`] header: where an entry's bytes live.
#[derive(Debug, Clone, Copy, PartialEq, Eq, Structural)]
pub struct VPKDirectoryEntry {
    /// 32 bit CRC of the entry's content.
    pub crc32: u32,
    /// Number of bytes preloaded in the directory index.
    pub preload_length: u16,
    /// Index of the archive that holds the remaining bytes.
    pub archive_index: u16,
    /// Offset of the entry's remaining bytes in that archive.
    pub archive_offset: u32,
    /// Number of bytes in the archive; the preloaded bytes are not counted,
    /// so the whole entry is `preload_length + file_length` bytes long.
    pub file_length: u32,
    /// Terminator of the record, [`ENTRY_TERMINATOR`] in a well-formed one.
    pub suffix: u16,
}

/// Why a header could not be decoded.
#[derive(Debug, Clone, Copy, PartialEq, Eq, Structural)]
pub enum MalformedHeader {
    /// Fewer than [`HEADER_SIZE`] bytes were left in the source.
    Truncated,
    /// The terminator held this value instead of [`ENTRY_TERMINATOR`].
    BadTerminator(u16),
}

/// Little-endian value of two bytes.
pub open spec fn le_u16(b0: u8, b1: u8) -> int {
    b0 + 256 * b1
}

/// Little-endian value of four bytes.
pub open spec fn le_u32(b0: u8, b1: u8, b2: u8, b3: u8) -> int {
    b0 + 256 * b1 + 65536 * b2 + 16777216 * b3
}

/// Little-endian bytes of a `u16`.
pub open spec fn u16_bytes(x: u16) -> Seq<u8> {
    seq![(x % 256) as u8, (x / 256) as u8]
}

/// Little-endian bytes of a `u32`.
pub open spec fn u32_bytes(x: u32) -> Seq<u8> {
    seq![(x % 256) as u8, ((x / 256) % 256) as u8, ((x / 65536) % 256) as u8, (x / 16777216) as u8]
}

/// Reads the little-endian `u16` at `p`.
fn read_u16_le(b: &[u8], p: usize) -> (r: u16)
    requires
        p + 2 <= b@.len(),
    ensures
        r as int == le_u16(b@[p as int], b@[p + 1]),
{
    (b[p] as u16) + (b[p + 1] as u16) * 256
}

/// Reads the little-endian `u32` at `p`.
fn read_u32_le(b: &[u8], p: usize) -> (r: u32)
    requires
        p + 4 <= b@.len(),
    ensures
        r as int == le_u32(b@[p as int], b@[p + 1], b@[p + 2], b@[p + 3]),
{
    (b[p] as u32) + (b[p + 1] as u32) * 256 + (b[p + 2] as u32) * 65536 + (b[p + 3] as u32) * 16777216
}

/// Appends the little-endian bytes of `x`.
fn push_u16_le(out: &mut Vec<u8>, x: u16)
    ensures
        final(out)@ == old(out)@ + u16_bytes(x),
{
    out.push((x % 256) as u8);
    out.push((x / 256) as u8);
    assert(final(out)@ =~= old(out)@ + u16_bytes(x));
}

/// Appends the little-endian bytes of `x`.
fn push_u32_le(out: &mut Vec<u8>, x: u32)
    ensures
        final(out)@ == old(out)@ + u32_bytes(x),
{
    out.push((x % 256) as u8);
    out.push(((x / 256) % 256) as u8);
    out.push(((x / 65536) % 256) as u8);
    out.push((x / 16777216) as u8);
    assert(final(out)@ =~= old(out)@ + u32_bytes(x));
}

/// The bytes of a `u16` read back give the `u16`.
pub proof fn lemma_u16_bytes(x: u16)
    ensures
        le_u16(u16_bytes(x)[0], u16_bytes(x)[1]) == x,
{
    let b0 = (x % 256) as u8;
    let b1 = (x / 256) as u8;
    assert(b0 == x % 256 && b1 == x / 256);
}

/// The bytes of a `u32` read back give the `u32`.
pub proof fn lemma_u32_bytes(x: u32)
    ensures
        le_u32(u32_bytes(x)[0], u32_bytes(x)[1], u32_bytes(x)[2], u32_bytes(x)[3]) == x,
{
    let xi = x as int;
    let b = u32_bytes(x);
    assert(b[0] == xi % 256 && b[1] == (xi / 256) % 256 && b[2] == (xi / 65536) % 256 && b[3]
        == xi / 16777216);
    assert(xi % 256 + 256 * ((xi / 256) % 256) + 65536 * ((xi / 65536) % 256) + 16777216 * (xi
        / 16777216) == xi) by (nonlinear_arith)
        requires
            0 <= xi < 0x1_0000_0000,
    ;
}

impl VPKDirectoryEntry {
    /// The bytes that encode this header, fields in order.
    pub open spec fn spec_encode(self) -> Seq<u8> {
        u32_bytes(self.crc32) + u16_bytes(self.preload_length) + u16_bytes(self.archive_index)
            + u32_bytes(self.archive_offset) + u32_bytes(self.file_length) + u16_bytes(self.suffix)
    }

    /// The header whose fields the record of `b` at `p` holds.
    pub open spec fn spec_fields_at(b: Seq<u8>, p: int) -> VPKDirectoryEntry {
        VPKDirectoryEntry {
            crc32: le_u32(b[p], b[p + 1], b[p + 2], b[p + 3]) as u32,
            preload_length: le_u16(b[p + 4], b[p + 5]) as u16,
            archive_index: le_u16(b[p + 6], b[p + 7]) as u16,
            archive_offset: le_u32(b[p + 8], b[p + 9], b[p + 10], b[p + 11]) as u32,
            file_length: le_u32(b[p + 12], b[p + 13], b[p + 14], b[p + 15]) as u32,
            suffix: le_u16(b[p + 16], b[p + 17]) as u16,
        }
    }

    /// What decoding the record of `b` at `p` gives.
    pub open spec fn spec_decode_at(b: Seq<u8>, p: int) -> Result<VPKDirectoryEntry, MalformedHeader> {
        if p < 0 || b.len() < p + HEADER_SIZE {
            Err(MalformedHeader::Truncated)
        } else if Self::spec_fields_at(b, p).suffix != ENTRY_TERMINATOR {
            Err(MalformedHeader::BadTerminator(Self::spec_fields_at(b, p).suffix))
        } else {
            Ok(Self::spec_fields_at(b, p))
        }
    }

    /// Decodes the record that starts at `*cursor`, and on success moves the
    /// cursor past it; on failure the cursor stays where it was.
    pub fn read_from(bytes: &[u8], cursor: &mut usize) -> (r: Result<VPKDirectoryEntry, MalformedHeader>)
        ensures
            r == Self::spec_decode_at(bytes@, *old(cursor) as int),
            r is Ok ==> *final(cursor) == *old(cursor) + HEADER_SIZE,
            r is Err ==> *final(cursor) == *old(cursor),
    {
        let p = *cursor;
        if bytes.len() < HEADER_SIZE || p > bytes.len() - HEADER_SIZE {
            return Err(MalformedHeader::Truncated);
        }
        let h = VPKDirectoryEntry {
            crc32: read_u32_le(bytes, p),
            preload_length: read_u16_le(bytes, p + 4),
            archive_index: read_u16_le(bytes, p + 6),
            archive_offset: read_u32_le(bytes, p + 8),
            file_length: read_u32_le(bytes, p + 12),
            suffix: read_u16_le(bytes, p + 16),
        };
        if h.suffix != ENTRY_TERMINATOR {
            return Err(MalformedHeader::BadTerminator(h.suffix));
        }
        *cursor = p + HEADER_SIZE;
        Ok(h)
    }

    /// The encoded record of this header.
    pub fn encode(&self) -> (r: Vec<u8>)
        ensures
            r@ == self.spec_encode(),
            r@.len() == HEADER_SIZE,
    {
        let mut out: Vec<u8> = Vec::new();
        push_u32_le(&mut out, self.crc32);
        push_u16_le(&mut out, self.preload_length);
        push_u16_le(&mut out, self.archive_index);
        push_u32_le(&mut out, self.archive_offset);
        push_u32_le(&mut out, self.file_length);
        push_u16_le(&mut out, self.suffix);
        out
    }

    /// Whether the remaining bytes of the entry lie in the directory index
    /// file itself.
    pub fn in_directory_file(&self) -> (r: bool)
        ensures
            r == (self.archive_index == DIRECTORY_ARCHIVE_INDEX),
    {
        self.archive_index == DIRECTORY_ARCHIVE_INDEX
    }

    /// Number of bytes of the whole entry, preloaded and archived.
    pub fn total_length(&self) -> (r: u64)
        ensures
            r == self.preload_length + self.file_length,
    {
        self.preload_length as u64 + self.file_length as u64
    }
}

/// Decodes the header record at the start of `bytes`.
pub fn decode_header(bytes: &[u8]) -> (r: Result<VPKDirectoryEntry, MalformedHeader>)
    ensures
        r == VPKDirectoryEntry::spec_decode_at(bytes@, 0),
{
    let mut cursor: usize = 0;
    VPKDirectoryEntry::read_from(bytes, &mut cursor)
}

/// Decoding the encoding of a header whose terminator is the expected one
/// gives that header back.
pub proof fn lemma_decode_encode(h: VPKDirectoryEntry)
    requires
        h.suffix == ENTRY_TERMINATOR,
    ensures
        VPKDirectoryEntry::spec_decode_at(h.spec_encode(), 0) == Ok::<VPKDirectoryEntry, MalformedHeader>(h),
{
    let b = h.spec_encode();
    lemma_u32_bytes(h.crc32);
    lemma_u16_bytes(h.preload_length);
    lemma_u16_bytes(h.archive_index);
    lemma_u32_bytes(h.archive_offset);
    lemma_u32_bytes(h.file_length);
    lemma_u16_bytes(h.suffix);
    assert(b.len() == HEADER_SIZE);
    assert(VPKDirectoryEntry::spec_fields_at(b, 0) == h);
}

/// Fewer bytes than a record holds, from any position, always give the
/// truncation error.
pub proof fn lemma_short_input_truncated(b: Seq<u8>, p: int)
    requires
        0 <= p,
        b.len() < p + HEADER_SIZE,
    ensures
        VPKDirectoryEntry::spec_decode_at(b, p) == Err::<VPKDirectoryEntry, MalformedHeader>(MalformedHeader::Truncated),
{
}

} // verus!
