//! Whether messages are shown.
use vstd::prelude::*;

verus! {

/// Whether messages are held back.
#[derive(Clone, Copy, PartialEq, Eq, Structural, Debug)]
pub struct QuietMode {
    pub quiet: bool,
}

/// Holds messages back, or no longer.
pub fn set_quiet(mode: &mut QuietMode, quiet: bool)
    ensures
        final(mode).quiet == quiet,
{
    mode.quiet = quiet;
}

/// Whether messages are held back.
pub fn is_quiet(mode: &QuietMode) -> (r: bool)
    ensures
        r == mode.quiet,
{
    mode.quiet
}

/// The message, if it is shown.
pub fn print_info<'a>(mode: &QuietMode, message: &'a str) -> (r: Option<&'a str>)
    ensures
        mode.quiet ==> r is None,
        !mode.quiet ==> (r matches Some(m) && m@ == message@),
{
    if mode.quiet {
        None
    } else {
        Some(message)
    }
}

/// The warning, if it is shown.
pub fn print_warn<'a>(mode: &QuietMode, message: &'a str) -> (r: Option<&'a str>)
    ensures
        mode.quiet ==> r is None,
        !mode.quiet ==> (r matches Some(m) && m@ == message@),
{
    if mode.quiet {
        None
    } else {
        Some(message)
    }
}

} // verus!
