//! Reader for the "strfile" index format: a binary index file giving random
//! access into a companion flat-text database of delimited records.
//!
//! The crate decodes the fixed binary header and offset table of an index
//! file, extracts individual delimited records from the companion data file's
//! bytes, and can undo the ROT13 letter-substitution obfuscation that some
//! databases apply to their records.  All functions work on in-memory bytes;
//! callers read the files themselves and hand the contents over.

pub mod header;
pub mod records;
pub mod rot;

pub use header::Flags;
pub use header::Strfile;
pub use header::StrfileError;
pub use records::extract_record;
pub use rot::rot13;
pub use rot::rot13_vec;
