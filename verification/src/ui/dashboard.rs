//! The decisions of the live dashboard.
use vstd::prelude::*;

verus! {

/// A key press ends the dashboard: `q`, or `c` with Control held.
pub fn is_quit_key(key: char, control: bool) -> (r: bool)
    ensures
        r == (key == 'q' || (key == 'c' && control)),
{
    key == 'q' || (key == 'c' && control)
}

} // verus!
