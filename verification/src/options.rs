//! Configuration of the two delimiter bytes.

use crate::{DEFAULT_EOL, DEFAULT_SEP};
use vstd::prelude::*;

verus! {

/// The two configured delimiter bytes of the broken input.
#[derive(Debug)]
pub struct TmpOptions {
    /// Field separator byte.
    pub sep: u8,
    /// Record terminator byte.
    pub eol: u8,
}

impl Default for TmpOptions {
    /// The standard control bytes, for callers that configure nothing.
    fn default() -> (r: TmpOptions)
        ensures
            r.sep == DEFAULT_SEP,
            r.eol == DEFAULT_EOL,
    {
        TmpOptions { sep: DEFAULT_SEP, eol: DEFAULT_EOL }
    }
}

/// A configured delimiter that is not a single byte.
#[derive(Debug, PartialEq, Eq)]
pub struct ConfigError {
    /// How many bytes the rejected value had.
    pub len: usize,
}

/// Resolves an optional delimiter to exactly one byte.
///
/// An absent or empty value silently falls back to `default`; a single
/// byte is taken as given; anything longer is a configuration error,
/// reported with the offending length before any data is touched.
pub fn unwrap_byte(input: Option<&[u8]>, default: u8) -> (r: Result<u8, ConfigError>)
    ensures
        match input {
            None => r == Ok::<u8, ConfigError>(default),
            Some(cs) => {
                if cs@.len() == 0 {
                    r == Ok::<u8, ConfigError>(default)
                } else if cs@.len() == 1 {
                    r == Ok::<u8, ConfigError>(cs@[0])
                } else {
                    r matches Err(e) && e.len == cs@.len()
                }
            },
        },
{
    match input {
        None => Ok(default),
        Some(cs) => {
            let n = cs.len();
            if n == 0 {
                Ok(default)
            } else if n == 1 {
                Ok(*vstd::slice::slice_index_get(cs, 0))
            } else {
                Err(ConfigError { len: n })
            }
        },
    }
}

} // verus!
