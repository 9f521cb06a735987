//! The sentences the library writes, in the language in force.
//!
//! Each field is a message template with `{name}` placeholders, as the
//! language catalogue answers for it. A message with two forms is held as
//! both, the singular and the plural, and the count picks between them: one
//! is singular and every other count is plural, which is the only plural rule
//! the catalogues here understand. [`Messages::english`] is what every field
//! reads when no catalogue is in force.

use vstd::prelude::*;
use vstd::string::*;

verus! {

/// The templates of every sentence the library composes.
#[derive(Clone, Debug)]
pub struct Messages {
    /// `{n} byte`: a size under a kibibyte, for one byte.
    pub byte_one: String,
    /// `{n} bytes`: a size under a kibibyte, for any other count.
    pub byte_other: String,
    /// `{size} {unit} ({n} bytes)`: a scaled size with the exact count beside it.
    pub size_scaled: String,
    /// `{n} row`: the row count, for one row.
    pub row_one: String,
    /// `{n} rows`: the row count, for any other count.
    pub row_other: String,
    /// `{rows} so far…`: the row count while the scan is still going.
    pub so_far: String,
    /// `stopped at {most}; narrow the query or add a limit`.
    pub stopped: String,
    /// `{n} skipped`, for one file.
    pub skipped_one: String,
    /// `{n} skipped`, for any other count.
    pub skipped_other: String,
    /// `{n} comparison across types`, for one.
    pub across_one: String,
    /// `{n} comparisons across types`, for any other count.
    pub across_other: String,
    /// `skipped {path}: {reason}`: one file the scan could not use.
    pub skipped_line: String,
    /// `{column}: {found} in {rows}, {against} in the query; not matched`.
    pub mismatch_line: String,
    /// `{path} is not a folder.`: a folder that cannot be bound.
    pub not_a_folder: String,
}

/// One of two forms, by the count: the first for exactly one.
pub open spec fn plural(one: Seq<char>, other: Seq<char>, n: nat) -> Seq<char> {
    if n == 1 { one } else { other }
}

impl Messages {
    /// Whether every template is the English it is written in.
    pub open spec fn is_english(&self) -> bool {
        &&& self.byte_one@ == "{n} byte"@
        &&& self.byte_other@ == "{n} bytes"@
        &&& self.size_scaled@ == "{size} {unit} ({n} bytes)"@
        &&& self.row_one@ == "{n} row"@
        &&& self.row_other@ == "{n} rows"@
        &&& self.so_far@ == "{rows} so far…"@
        &&& self.stopped@ == "stopped at {most}; narrow the query or add a limit"@
        &&& self.skipped_one@ == "{n} skipped"@
        &&& self.skipped_other@ == "{n} skipped"@
        &&& self.across_one@ == "{n} comparison across types"@
        &&& self.across_other@ == "{n} comparisons across types"@
        &&& self.skipped_line@ == "skipped {path}: {reason}"@
        &&& self.mismatch_line@ == "{column}: {found} in {rows}, {against} in the query; not matched"@
        &&& self.not_a_folder@ == "{path} is not a folder."@
    }

    /// The messages as they read with no catalogue in force.
    pub fn english() -> (m: Messages)
        ensures
            m.is_english(),
    {
        Messages {
            byte_one: String::from_str("{n} byte"),
            byte_other: String::from_str("{n} bytes"),
            size_scaled: String::from_str("{size} {unit} ({n} bytes)"),
            row_one: String::from_str("{n} row"),
            row_other: String::from_str("{n} rows"),
            so_far: String::from_str("{rows} so far…"),
            stopped: String::from_str("stopped at {most}; narrow the query or add a limit"),
            skipped_one: String::from_str("{n} skipped"),
            skipped_other: String::from_str("{n} skipped"),
            across_one: String::from_str("{n} comparison across types"),
            across_other: String::from_str("{n} comparisons across types"),
            skipped_line: String::from_str("skipped {path}: {reason}"),
            mismatch_line: String::from_str(
                "{column}: {found} in {rows}, {against} in the query; not matched",
            ),
            not_a_folder: String::from_str("{path} is not a folder."),
        }
    }
}

} // verus!
