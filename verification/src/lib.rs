//! Repair of delimiter-mangled CSV data.
//!
//! Input files use uncommon single-byte control characters as field and
//! record delimiters. The library rewrites such data into ordinary quoted
//! CSV: every field is wrapped in double quotes, embedded quote characters
//! are backslash-escaped, field separators become `","` and record
//! terminators become `"\n"`. The work is chunked so that files far larger
//! than memory can be processed; [`stream::Transcoder`] carries the
//! bookkeeping from one chunk to the next while the caller performs the
//! actual reads and writes.

pub mod batch;
pub mod laws;
pub mod model;
pub mod options;
pub mod stream;

use vstd::prelude::*;

verus! {

/// The literal double-quote byte emitted around every field.
pub const QUOTE: u8 = 0x22;

/// The backslash byte, both the escape we emit and the escape we pass through.
pub const BACKSLASH: u8 = 0x5C;

/// The newline emitted between output records.
pub const NEWLINE: u8 = 0x0A;

/// The comma emitted between output fields.
pub const COMMA: u8 = 0x2C;

/// Default field separator in the broken input.
pub const DEFAULT_SEP: u8 = 0x1E;

/// Default record terminator in the broken input.
pub const DEFAULT_EOL: u8 = 0x1D;

} // verus!
