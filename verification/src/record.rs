//! Bounds-checked walking of the raw audit buffer: one decoded record
//! header at a time, with a mandatory length check before any advancement.
//!
//! A record begins with a fixed 56-byte header; the emitting provider's name
//! is the null-terminated wide string immediately after it. A record whose
//! declared length is zero, or whose extent leaves the chunk, is malformed:
//! its length is never used to compute the next offset, and the whole chunk
//! is abandoned.
use vstd::prelude::*;
use crate::bytes::{le16_at, le32_at, read_le16, read_le32};
use crate::strings::{find_nul, units_between, utf16_lossy_of, find_wide_nul, read_units,
    decode_utf16_lossy};

verus! {

/// Size in bytes of a record's fixed header.
pub const HEADER_LEN: usize = 56;

/// Byte offset, within a record, of its generation timestamp.
pub const TIME_OFFSET: usize = 12;

/// Byte offset, within a record, of its string count.
pub const NUM_STRINGS_OFFSET: usize = 26;

/// Byte offset, within a record, of the offset of its string table.
pub const STRING_TABLE_OFFSET: usize = 36;

/// A record's declared total length, header and payload included.
pub open spec fn rec_len_at(c: Seq<u8>, off: int) -> u32 {
    le32_at(c, off)
}

/// A record's generation time, in seconds since the epoch.
pub open spec fn rec_time_at(c: Seq<u8>, off: int) -> u32 {
    le32_at(c, off + TIME_OFFSET)
}

/// The number of strings in a record's embedded string table.
pub open spec fn rec_num_strings_at(c: Seq<u8>, off: int) -> u16 {
    le16_at(c, off + NUM_STRINGS_OFFSET)
}

/// Byte offset, from the record's start, of its first string.
pub open spec fn rec_string_offset_at(c: Seq<u8>, off: int) -> u32 {
    le32_at(c, off + STRING_TABLE_OFFSET)
}

/// The code units of the provider name of the record at `off`.
pub open spec fn provider_units_at(c: Seq<u8>, off: int) -> Seq<u16> {
    units_between(
        c,
        off + HEADER_LEN,
        find_nul(c, off + HEADER_LEN, off + rec_len_at(c, off))->Some_0,
    )
}

/// The record at `off` is malformed: its header does not fit, its declared
/// length is zero, its extent leaves the chunk, or its provider name has no
/// terminator inside the extent.
pub open spec fn cursor_malformed(c: Seq<u8>, off: int) -> bool {
    ||| off + HEADER_LEN > c.len()
    ||| rec_len_at(c, off) == 0
    ||| off + rec_len_at(c, off) > c.len()
    ||| find_nul(c, off + HEADER_LEN, off + rec_len_at(c, off)) is None
}

/// One decoded record header.
pub struct RecordHeader {
    /// Declared total record length in bytes; always positive.
    pub length: u32,
    /// Generation time, in seconds since the epoch.
    pub timestamp: u32,
    /// Number of strings in the embedded string table.
    pub num_strings: u16,
    /// Byte offset, from the record's start, of the string table.
    pub string_offset: u32,
    /// Name of the subsystem that emitted the record.
    pub provider: String,
}

/// One step of the cursor.
pub enum CursorStep {
    /// A decoded header and the offset of the record that follows it.
    Record(RecordHeader, usize),
    /// The record at the offset cannot be trusted; the chunk is abandoned.
    Malformed,
    /// The offset lies at or past the end of the chunk.
    EndOfChunk,
}

/// Decodes the record header at `offset` and computes the offset of the
/// next record, validating every bound before it is used.
pub fn next_record(chunk: &Vec<u8>, offset: usize) -> (s: CursorStep)
    ensures
        s is EndOfChunk <==> offset >= chunk@.len(),
        s is Malformed <==> offset < chunk@.len() && cursor_malformed(chunk@, offset as int),
        s matches CursorStep::Record(h, next) ==> {
            &&& offset < chunk@.len()
            &&& !cursor_malformed(chunk@, offset as int)
            &&& h.length == rec_len_at(chunk@, offset as int)
            &&& h.length > 0
            &&& h.timestamp == rec_time_at(chunk@, offset as int)
            &&& h.num_strings == rec_num_strings_at(chunk@, offset as int)
            &&& h.string_offset == rec_string_offset_at(chunk@, offset as int)
            &&& h.provider@ == utf16_lossy_of(provider_units_at(chunk@, offset as int))
            &&& next == offset + h.length
            &&& next <= chunk@.len()
            &&& next > offset
        },
{
    let n: usize = chunk.len();
    if offset >= n {
        return CursorStep::EndOfChunk;
    }
    if n - offset < HEADER_LEN {
        return CursorStep::Malformed;
    }
    let length = read_le32(chunk, offset);
    if length == 0 || length as usize > n - offset {
        return CursorStep::Malformed;
    }
    let rec_end = offset + length as usize;
    let timestamp = read_le32(chunk, offset + TIME_OFFSET);
    let num_strings = read_le16(chunk, offset + NUM_STRINGS_OFFSET);
    let string_offset = read_le32(chunk, offset + STRING_TABLE_OFFSET);
    match find_wide_nul(chunk, offset + HEADER_LEN, rec_end) {
        None => CursorStep::Malformed,
        Some(nul) => {
            proof {
                crate::strings::lemma_find_nul_props(
                    chunk@,
                    offset + HEADER_LEN,
                    rec_end as int,
                );
            }
            let units = read_units(chunk, offset + HEADER_LEN, nul);
            let provider = decode_utf16_lossy(&units);
            let header = RecordHeader {
                length,
                timestamp,
                num_strings,
                string_offset,
                provider,
            };
            CursorStep::Record(header, rec_end)
        },
    }
}

/// Offset monotonicity: whenever the cursor yields a record, the offset it
/// hands back strictly exceeds the one it was given, by exactly the record's
/// declared length, and a declared length of zero is always malformed; a
/// walk over any chunk therefore advances strictly and cannot loop.
pub proof fn lemma_cursor_monotonic(c: Seq<u8>, off: int)
    requires
        0 <= off < c.len(),
    ensures
        !cursor_malformed(c, off) ==> off + rec_len_at(c, off) > off,
        rec_len_at(c, off) == 0 ==> cursor_malformed(c, off),
{
}

} // verus!
