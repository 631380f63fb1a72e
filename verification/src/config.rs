//! The settings the plugin's config file may carry, checked before a run uses them.

use vstd::prelude::*;

use crate::ui::column::{DEFAULT_MEASURE, MAX_MEASURE, MIN_MEASURE};

verus! {

/// A measure the picker cannot honor, as the config file gave it.
#[derive(Debug, Clone, Copy, PartialEq, Eq, Structural)]
pub struct OutOfRange {
    pub columns: u16,
}

/// The reading measure a run uses: the default when the file names none, the file's own
/// when it is in range, and an error otherwise — silently painting the wrong width would be
/// worse than saying so.
pub fn measure(columns: Option<u16>) -> (r: Result<u16, OutOfRange>)
    ensures
        match columns {
            None => r == Ok::<u16, OutOfRange>(DEFAULT_MEASURE),
            Some(c) => if MIN_MEASURE <= c <= MAX_MEASURE {
                r == Ok::<u16, OutOfRange>(c)
            } else {
                r == Err::<u16, OutOfRange>(OutOfRange { columns: c })
            },
        },
{
    match columns {
        None => Ok(DEFAULT_MEASURE),
        Some(c) => {
            if MIN_MEASURE <= c && c <= MAX_MEASURE {
                Ok(c)
            } else {
                Err(OutOfRange { columns: c })
            }
        },
    }
}

} // verus!
