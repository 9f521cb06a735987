//! The rule the flyleaf tree is drawn under here: read, never written.

use vstd::prelude::*;

use crate::text::{display_name, shown_name};

verus! {

/// Every key shown and none of them editable.
///
/// The tree widget edits: a text field writes what it shows back into the
/// document the moment it is touched. A policy marking every path protected
/// is how the widget is asked for the reading half of itself. There is no
/// path through this application that writes a container, and no save.
pub struct ReadOnly;

impl ReadOnly {
    /// Whether the key at `path` is shown and not edited: every path, without
    /// looking at it.
    pub fn protected(&self, path: &[String]) -> (b: bool)
        ensures
            b,
    {
        true
    }

    /// Whether nothing may be added under `path`: every path, for the reason
    /// every path is protected.
    pub fn sealed(&self, path: &[String]) -> (b: bool)
        ensures
            b,
    {
        true
    }

    /// How a protected string reads: escaped as a member name is, so a
    /// direction override in a value cannot reorder the line it sits on.
    pub fn display_protected(&self, value: &str) -> (shown: String)
        ensures
            shown@ == shown_name(value@),
    {
        display_name(value)
    }
}

} // verus!
