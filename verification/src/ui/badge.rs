//! Badges: the looks that a short label can have.

use vstd::prelude::*;

verus! {

/// The look of a badge.
#[derive(Clone, Copy, Debug, PartialEq, Eq, Structural)]
pub enum Badge {
    Plain,
    Secondary,
    Outline,
    Destructive,
    Success,
}

} // verus!
