//! Names of the command-line options, and how an option that switches a
//! feature on or off is read.

use vstd::prelude::*;

verus! {

/// Name of the column width option (`--cols`).
pub const ARG_COL: &'static str = "cols";

/// Name of the truncation length option (`--len`).
pub const ARG_LEN: &'static str = "len";

/// Name of the numeric base option (`--format`).
pub const ARG_FMT: &'static str = "format";

/// Name of the input file argument.
pub const ARG_INP: &'static str = "INPUTFILE";

/// Name of the colour option (`--color`).
pub const ARG_CLR: &'static str = "color";

/// Name of the array output option (`--array`).
pub const ARG_ARR: &'static str = "array";

/// Name of the wave length option (`--func`).
pub const ARG_FNC: &'static str = "func";

/// Name of the wave decimal places option (`--places`).
pub const ARG_PLC: &'static str = "places";

/// Name of the base prefix option (`--prefix`).
pub const ARG_PFX: &'static str = "prefix";

/// Whether an on/off feature is on: an explicit `1` turns it on and any
/// other value off; without one the default holds. For colour, the default
/// is that no `NO_COLOR` is set and the output is a terminal; for the base
/// prefix it is on.
pub fn flag_enabled(flag: Option<u8>, default: bool) -> (r: bool)
    ensures
        r == match flag {
            Some(v) => v == 1,
            None => default,
        },
{
    match flag {
        Some(v) => v == 1,
        None => default,
    }
}

} // verus!
