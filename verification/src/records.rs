//! Extraction of delimited records from a data file's bytes.
//!
//! A record starts at a stored byte offset and runs line by line (a line ends
//! at a newline byte) until either a boundary line — a line consisting of
//! exactly the delimiter byte followed by newline — or the end of the data.
//! The boundary line itself is not part of the record; embedded newlines are
//! preserved.

use vstd::prelude::*;
use vstd::utf8::decode_utf8;
use vstd::utf8::valid_utf8;
use crate::header::Flags;
use crate::header::Strfile;
use crate::header::StrfileError;
use crate::rot::rot13_bytes;
use crate::rot::rot13_vec;

verus! {

/// The position just past the line that starts at `pos`: one past the first
/// newline byte at or after `pos`, or the end of the data when no newline
/// follows.
pub open spec fn line_end(data: Seq<u8>, pos: int) -> int
    decreases data.len() - pos,
{
    if pos >= data.len() {
        data.len() as int
    } else if data[pos] == 10 {
        pos + 1
    } else {
        line_end(data, pos + 1)
    }
}

/// A line reaches past its start and at most to the end of the data.
pub proof fn lemma_line_end(data: Seq<u8>, pos: int)
    requires
        0 <= pos < data.len(),
    ensures
        pos < line_end(data, pos) <= data.len(),
    decreases data.len() - pos,
{
    if data[pos] != 10 {
        if pos + 1 < data.len() {
            lemma_line_end(data, pos + 1);
        } else {
            assert(line_end(data, pos + 1) == data.len());
        }
    }
}

/// The bytes of the record that starts at `pos`: the concatenation of the
/// lines from `pos` up to the first boundary line or the end of the data,
/// the boundary line excluded.
pub open spec fn record_at(data: Seq<u8>, pos: int, delim: u8) -> Seq<u8>
    decreases data.len() - pos,
        when pos >= 0
    via record_at_decreases
{
    if pos >= data.len() {
        Seq::empty()
    } else {
        let end = line_end(data, pos);
        let line = data.subrange(pos, end);
        if line == seq![delim, 10u8] {
            Seq::empty()
        } else {
            line + record_at(data, end, delim)
        }
    }
}

#[via_fn]
proof fn record_at_decreases(data: Seq<u8>, pos: int, delim: u8) {
    if 0 <= pos < data.len() {
        lemma_line_end(data, pos);
    }
}

/// The position where the record starting at `pos` ends: the start of the
/// first boundary line reachable from `pos` by whole lines, or the end of
/// the data when no boundary line follows.
pub open spec fn record_end(data: Seq<u8>, pos: int, delim: u8) -> int
    decreases data.len() - pos,
        when pos >= 0
    via record_end_decreases
{
    if pos >= data.len() {
        data.len() as int
    } else {
        let end = line_end(data, pos);
        if data.subrange(pos, end) == seq![delim, 10u8] {
            pos
        } else {
            record_end(data, end, delim)
        }
    }
}

#[via_fn]
proof fn record_end_decreases(data: Seq<u8>, pos: int, delim: u8) {
    if 0 <= pos < data.len() {
        lemma_line_end(data, pos);
    }
}

/// A record's end lies between its start and the end of the data.
pub proof fn lemma_record_end_bounds(data: Seq<u8>, pos: int, delim: u8)
    requires
        0 <= pos <= data.len(),
    ensures
        pos <= record_end(data, pos, delim) <= data.len(),
    decreases data.len() - pos,
{
    if pos < data.len() {
        lemma_line_end(data, pos);
        let end = line_end(data, pos);
        if data.subrange(pos, end) != seq![delim, 10u8] {
            lemma_record_end_bounds(data, end, delim);
        }
    }
}

/// A record is exactly the bytes between its start and its boundary: the
/// record that starts at `pos` equals the byte span from `pos` up to the
/// start of the first boundary line that follows, or up to the end of the
/// data when the record is terminated by the end of the data instead.
pub proof fn lemma_record_at_is_span(data: Seq<u8>, pos: int, delim: u8)
    requires
        0 <= pos <= data.len(),
    ensures
        record_at(data, pos, delim) == data.subrange(pos, record_end(data, pos, delim)),
    decreases data.len() - pos,
{
    if pos >= data.len() {
        assert(data.subrange(pos, pos) =~= Seq::<u8>::empty());
    } else {
        lemma_line_end(data, pos);
        let end = line_end(data, pos);
        if data.subrange(pos, end) == seq![delim, 10u8] {
            assert(data.subrange(pos, pos) =~= Seq::<u8>::empty());
        } else {
            lemma_record_at_is_span(data, end, delim);
            lemma_record_end_bounds(data, end, delim);
            let e = record_end(data, end, delim);
            assert(data.subrange(pos, end) + data.subrange(end, e) =~= data.subrange(pos, e));
        }
    }
}

/// The position just past the line that starts at `pos`.
fn find_line_end(data: &[u8], pos: usize) -> (le: usize)
    requires
        pos < data@.len(),
    ensures
        le == line_end(data@, pos as int),
        pos < le <= data@.len(),
{
    let mut i: usize = pos;
    while i < data.len() && data[i] != 10
        invariant
            pos <= i <= data@.len(),
            line_end(data@, pos as int) == line_end(data@, i as int),
        decreases data@.len() - i,
    {
        i = i + 1;
    }
    proof {
        lemma_line_end(data@, pos as int);
    }
    if i < data.len() {
        i + 1
    } else {
        i
    }
}

/// Extract the record that starts at byte `offset` of the data: all lines up
/// to the first boundary line (exactly `delim` followed by newline) or the
/// end of the data, boundary excluded, embedded newlines preserved.  An
/// offset at or past the end of the data yields an empty record.
pub fn extract_record(data: &[u8], offset: u32, delim: u8) -> (r: Vec<u8>)
    ensures
        r@ == record_at(data@, offset as int, delim),
{
    let mut acc: Vec<u8> = Vec::new();
    if (offset as u64) >= (data.len() as u64) {
        return acc;
    }
    let mut pos: usize = offset as usize;
    while pos < data.len()
        invariant
            pos <= data@.len(),
            record_at(data@, offset as int, delim) == acc@ + record_at(
                data@,
                pos as int,
                delim,
            ),
        decreases data@.len() - pos,
    {
        let le = find_line_end(data, pos);
        if le - pos == 2 && data[pos] == delim && data[pos + 1] == 10 {
            proof {
                assert(data@.subrange(pos as int, le as int) =~= seq![delim, 10u8]);
                assert(record_at(data@, pos as int, delim) =~= Seq::<u8>::empty());
                assert(acc@ + Seq::<u8>::empty() =~= acc@);
            }
            return acc;
        }
        let ghost acc0 = acc@;
        let ghost line = data@.subrange(pos as int, le as int);
        proof {
            if line == seq![delim, 10u8] {
                assert(line.len() == 2);
                assert(line[0] == delim);
                assert(line[1] == 10u8);
                assert(data@[pos as int] == delim);
                assert(data@[pos as int + 1] == 10u8);
                assert(false);
            }
            assert(record_at(data@, pos as int, delim) == line + record_at(
                data@,
                le as int,
                delim,
            ));
        }
        let mut k: usize = pos;
        while k < le
            invariant
                pos <= k <= le <= data@.len(),
                acc@ == acc0 + data@.subrange(pos as int, k as int),
            decreases le - k,
        {
            let x = data[k];
            acc.push(x);
            proof {
                assert(acc@ =~= acc0 + data@.subrange(pos as int, k as int + 1));
            }
            k = k + 1;
        }
        proof {
            assert(acc@ == acc0 + line);
            assert(acc0 + line + record_at(data@, le as int, delim) =~= acc0 + (line + record_at(
                data@,
                le as int,
                delim,
            )));
        }
        pos = le;
    }
    proof {
        assert(record_at(data@, pos as int, delim) =~= Seq::<u8>::empty());
        assert(acc@ + Seq::<u8>::empty() =~= acc@);
    }
    acc
}

/// Relies on `String::from_utf8`: succeeds exactly when the bytes are valid
/// UTF-8, and then yields the text those bytes encode.
#[verifier::external_body]
fn bytes_to_string(b: Vec<u8>) -> (r: Option<String>)
    ensures
        match r {
            Some(s) => valid_utf8(b@) && s@ == decode_utf8(b@),
            None => !valid_utf8(b@),
        },
{
    match String::from_utf8(b) {
        Ok(s) => Some(s),
        Err(_) => None,
    }
}

impl Strfile {
    /// The bytes of the `i`th record as they are returned: the record at the
    /// `i`th stored offset, rotated when the header's rotated flag is set.
    pub open spec fn spec_quote_bytes(&self, data: Seq<u8>, i: int) -> Seq<u8> {
        let raw = record_at(data, self.offsets@[i] as int, self.delim);
        if self.spec_flag_set(Flags::Rotated) {
            rot13_bytes(raw)
        } else {
            raw
        }
    }

    /// Extract every record of the data file's bytes, one per stored offset,
    /// in stored order.
    ///
    /// Each entry holds the lines from its offset up to the first boundary
    /// line or the end of the data; when the rotated flag is set the ROT13
    /// transform is applied to the whole record.  Succeeds exactly when every
    /// returned record is valid UTF-8; otherwise the whole call fails with a
    /// format error and no partial sequence is surfaced.
    pub fn read_quotes(&self, data: &[u8]) -> (r: Result<Vec<String>, StrfileError>)
        ensures
            match r {
                Ok(qs) => qs@.len() == self.offsets@.len() && (self.wf()
                    ==> qs@.len() == self.number_of_strings) && (forall|i: int|
                    0 <= i < qs@.len() ==> valid_utf8(#[trigger] self.spec_quote_bytes(data@, i))
                        && qs@[i]@ == decode_utf8(self.spec_quote_bytes(data@, i))),
                Err(e) => e == StrfileError::Format && (exists|i: int|
                    0 <= i < self.offsets@.len() && !valid_utf8(
                        #[trigger] self.spec_quote_bytes(data@, i),
                    )),
            },
    {
        let rotated = self.is_flag_set(Flags::Rotated);
        let mut quotes: Vec<String> = Vec::new();
        let mut idx: usize = 0;
        let n = self.offsets.len();
        while idx < n
            invariant
                idx <= n,
                n == self.offsets@.len(),
                quotes@.len() == idx,
                rotated == self.spec_flag_set(Flags::Rotated),
                forall|i: int|
                    0 <= i < idx ==> valid_utf8(#[trigger] self.spec_quote_bytes(data@, i))
                        && quotes@[i]@ == decode_utf8(self.spec_quote_bytes(data@, i)),
            decreases n - idx,
        {
            let off = self.offsets[idx];
            let raw = extract_record(data, off, self.delim);
            let txt = if rotated {
                rot13_vec(raw.as_slice())
            } else {
                raw
            };
            let ghost t = txt@;
            proof {
                assert(t == self.spec_quote_bytes(data@, idx as int));
            }
            match bytes_to_string(txt) {
                Some(s) => {
                    quotes.push(s);
                    idx = idx + 1;
                },
                None => {
                    proof {
                        assert(!valid_utf8(self.spec_quote_bytes(data@, idx as int)));
                    }
                    return Err(StrfileError::Format);
                },
            }
        }
        Ok(quotes)
    }
}

} // verus!
