//! The strfile index header and offset table.
//!
//! An index file starts with a fixed 24-byte header: five big-endian unsigned
//! 32-bit fields (version, record count, longest and shortest record length,
//! flags), one delimiter byte, and three reserved padding bytes.  It is
//! followed by `count` big-endian unsigned 32-bit byte offsets into the
//! companion data file, in on-disk order.

use vstd::prelude::*;
use vstd::slice::slice_subrange;

verus! {

/// The value of four bytes read as one big-endian unsigned 32-bit integer.
pub open spec fn be_u32_of(b: Seq<u8>) -> u32
    recommends
        b.len() == 4,
{
    (b[0] * 0x1000000 + b[1] * 0x10000 + b[2] * 0x100 + b[3]) as u32
}

/// Relies on `byteorder::BigEndian::read_u32`: the first four bytes of the
/// slice read as a big-endian unsigned 32-bit integer; panics on a shorter
/// slice, which the precondition rules out.
#[verifier::external_body]
fn read_be_u32(b: &[u8]) -> (r: u32)
    requires
        b@.len() == 4,
    ensures
        r == be_u32_of(b@),
{
    <byteorder::BigEndian as byteorder::ByteOrder>::read_u32(b)
}

/// The error of a failed operation: `Io` when a file could not be opened or
/// read, `Format` when the bytes at hand do not form what was declared (a
/// truncated header or offset table, or record text that is not valid UTF-8).
#[derive(Clone, Copy, Debug, PartialEq, Eq, Structural)]
pub enum StrfileError {
    Io,
    Format,
}

/// The recognized bits of the header's flag field.
#[derive(Clone, Copy, Debug)]
pub enum Flags {
    /// Offsets were stored in randomized order.
    Random,
    /// Records are ordered alphabetically.
    Ordered,
    /// Record text is obfuscated with ROT13.
    Rotated,
    /// Records may contain comment lines resembling the delimiter.
    HasComments,
}

impl Flags {
    /// The bit mask the flag occupies in the header's flag field.
    pub open spec fn spec_mask(self) -> u32 {
        match self {
            Flags::Random => 1,
            Flags::Ordered => 2,
            Flags::Rotated => 4,
            Flags::HasComments => 8,
        }
    }

    /// The bit mask the flag occupies in the header's flag field.
    pub fn mask(self) -> (r: u32)
        ensures
            r == self.spec_mask(),
    {
        match self {
            Flags::Random => 1,
            Flags::Ordered => 2,
            Flags::Rotated => 4,
            Flags::HasComments => 8,
        }
    }
}

/// The parsed index header: the fixed fields and the offset table.
///
/// A well-formed value holds exactly `number_of_strings` offsets, one per
/// record, in on-disk order.  Nothing further is promised of the offsets
/// themselves: the caller must supply a data file consistent with them.
#[derive(Debug)]
pub struct Strfile {
    /// Version of the header.
    pub version: u32,
    /// Number of records stored in the companion data file.
    pub number_of_strings: u32,
    /// Declared length of the longest record; informational only.
    pub longest_length: u32,
    /// Declared length of the shortest record; informational only.
    pub shortest_length: u32,
    /// Bit field of [`Flags`].
    pub flags: u32,
    /// Delimiter byte separating records in the data file.
    pub delim: u8,
    /// Byte offsets to the beginnings of the records.
    pub offsets: Vec<u32>,
}

/// The record count a header's bytes declare.
pub open spec fn header_count(data: Seq<u8>) -> u32
    recommends
        data.len() >= 8,
{
    be_u32_of(data.subrange(4, 8))
}

/// True when the bytes hold a complete header and offset table: at least the
/// 24 fixed bytes, and four more for each declared record.
pub open spec fn parse_ok(data: Seq<u8>) -> bool {
    data.len() >= 24 && data.len() >= 24 + 4 * (header_count(data) as int)
}

/// The `i`th offset stored in the index bytes.
pub open spec fn spec_offset(data: Seq<u8>, i: int) -> u32 {
    be_u32_of(data.subrange(24 + 4 * i, 28 + 4 * i))
}

impl Strfile {
    /// A well-formed header holds exactly one offset per declared record.
    pub open spec fn wf(&self) -> bool {
        self.offsets@.len() == self.number_of_strings
    }

    /// True when the given flag's bit is set in the header's flag field.
    pub open spec fn spec_flag_set(&self, f: Flags) -> bool {
        self.flags & f.spec_mask() != 0
    }

    /// Check if a flag is set.
    ///
    /// A flag counts as set when the bitwise AND of the flag field with the
    /// flag's mask is nonzero.  (Some legacy readers compared that AND to 1,
    /// a test that can only ever detect the lowest bit; the nonzero test is
    /// used here so that all four flags are honored.)
    pub fn is_flag_set(&self, mask: Flags) -> (r: bool)
        ensures
            r == self.spec_flag_set(mask),
    {
        self.flags & mask.mask() != 0
    }

    /// Decode an index file's bytes into a header.
    ///
    /// Succeeds exactly when the bytes hold the complete fixed header and the
    /// whole declared offset table; a shorter input yields a format error.
    /// No other validation is performed: unknown flag bits are ignored, and
    /// the offsets are taken as stored, unchecked.
    pub fn parse(data: &[u8]) -> (r: Result<Strfile, StrfileError>)
        ensures
            match r {
                Ok(h) => parse_ok(data@) && h.wf() && h.version == be_u32_of(
                    data@.subrange(0, 4),
                ) && h.number_of_strings == header_count(data@) && h.longest_length == be_u32_of(
                    data@.subrange(8, 12),
                ) && h.shortest_length == be_u32_of(data@.subrange(12, 16)) && h.flags == be_u32_of(
                    data@.subrange(16, 20),
                ) && h.delim == data@[20] && h.offsets@.len() == header_count(data@) && (forall|
                    i: int,
                |
                    0 <= i < h.offsets@.len() ==> h.offsets@[i] == spec_offset(data@, i)),
                Err(e) => !parse_ok(data@) && e == StrfileError::Format,
            },
    {
        if data.len() < 24 {
            return Err(StrfileError::Format);
        }
        let version = read_be_u32(slice_subrange(data, 0, 4));
        let count = read_be_u32(slice_subrange(data, 4, 8));
        let longest_length = read_be_u32(slice_subrange(data, 8, 12));
        let shortest_length = read_be_u32(slice_subrange(data, 12, 16));
        let flags = read_be_u32(slice_subrange(data, 16, 20));
        let delim = data[20];

        let needed: u64 = 24u64 + 4u64 * (count as u64);
        if (data.len() as u64) < needed {
            return Err(StrfileError::Format);
        }

        let count_usize: usize = count as usize;
        let dlen: usize = data.len();
        let mut offsets: Vec<u32> = Vec::new();
        let mut i: usize = 0;
        while i < count_usize
            invariant
                i <= count_usize,
                count == header_count(data@),
                count_usize == count as usize,
                dlen == data@.len(),
                dlen >= 24 + 4 * (count as int),
                offsets@.len() == i,
                forall|j: int| 0 <= j < i ==> offsets@[j] == spec_offset(data@, j),
            decreases count_usize - i,
        {
            proof {
                assert(24 + 4 * (i as int) + 4 <= dlen as int);
            }
            let base: usize = 24 + 4 * i;
            let off = read_be_u32(slice_subrange(data, base, base + 4));
            offsets.push(off);
            i = i + 1;
        }

        Ok(
            Strfile {
                version,
                number_of_strings: count,
                longest_length,
                shortest_length,
                flags,
                delim,
                offsets,
            },
        )
    }
}

} // verus!
