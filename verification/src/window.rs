//! What the window holds between frames, and what a folder or a query does to it.
//!
//! The window is bound to a folder, which supplies `from`, so a query typed in
//! the box can leave it out; `recursive` says whether the scan descends. Each
//! step here takes what happened and answers the state the window is left in,
//! and the query to start where there is one. Starting it, and looking at the
//! disk, are the caller's.

use std::path::PathBuf;

use slipql::ast::{Projection, Query, Select, Source};
use vstd::prelude::*;
use vstd::string::*;

use crate::detail::Detail;
use crate::messages::Messages;
use crate::query::{texts, Run};
use crate::text::{fill, filled, pairs_view};

verus! {

/// A parsed query, carried through unread to the scan that runs it.
#[verifier::external_type_specification]
#[verifier::external_body]
pub struct ExQuery(Query);

/// What the query engine makes of `text` as a query typed in a window bound
/// to a folder: why it refuses it, in the words it says it with, or, where it
/// parses, whether it writes its own `from` and if so whether that `from`
/// says `recursive`; the column names it fixes (`None` for `select *`); and
/// its `limit`. A folder is always bound when a query is parsed here, so the
/// text may leave out `from`; which folder it is changes none of this.
pub uninterp spec fn parse_of(text: Seq<char>) -> Result<
    (Option<bool>, Option<Seq<Seq<char>>>, Option<usize>),
    Seq<char>,
>;

/// Why `text` is refused as a query, or `None` where it parses.
pub open spec fn query_refusal(text: Seq<char>) -> Option<Seq<char>> {
    match parse_of(text) {
        Ok(_) => None,
        Err(why) => Some(why),
    }
}

/// A parsed query, with what the window and the run read of it: where it
/// scans, whether it descends, the columns it fixes and its limit, each as
/// the query holds it.
pub struct Bound {
    /// The query, for the scan that runs it.
    pub query: Query,
    /// The directory its `from` names.
    pub root: PathBuf,
    /// Whether its scan descends into subdirectories.
    pub recursive: bool,
    /// The column names it fixes; `None` for `select *`.
    pub columns: Option<Vec<String>>,
    /// At most this many rows.
    pub limit: Option<usize>,
}

/// Whether `b` is `text` parsed in a window bound to `folder` with the
/// `recursive` tick box as given: the columns and limit the text says, and
/// the bound folder and tick box as its source wherever the text writes no
/// `from` of its own; where it does, that `from` decides whether it descends.
pub open spec fn bound_to(b: Bound, text: Seq<char>, folder: PathBuf, recursive: bool) -> bool {
    match parse_of(text) {
        Err(_) => false,
        Ok(p) => {
            &&& match b.columns {
                Some(c) => p.1 == Some(texts(c@)),
                None => p.1 is None,
            }
            &&& b.limit == p.2
            &&& match p.0 {
                None => b.root == folder && b.recursive == recursive,
                Some(written) => b.recursive == written,
            }
        },
    }
}

/// A query, with `folder` supplying `from` where the text leaves it out.
///
/// Calls `slipql::parse_with` with `folder` and `recursive` as the default
/// source, turns a refusal into its text, and reads back the source, column
/// names and limit of the query it built. The source shows the parse to
/// depend on the text alone, apart from the default source, which it copies
/// in whole where the text writes no `from`. The contract names what the
/// parse makes of the text and ties the query's source to `folder` and
/// `recursive`; of the rest of the query, its filter, it says nothing.
#[verifier::external_body]
fn parse_query(text: &str, folder: &PathBuf, recursive: bool) -> (parsed: Result<Bound, String>)
    ensures
        match parsed {
            Ok(b) => bound_to(b, text@, *folder, recursive),
            Err(why) => parse_of(text@) == Err::<(Option<bool>, Option<Seq<Seq<char>>>, Option<usize>), Seq<char>>(why@),
        },
{
    let source = Source { root: folder.clone(), recursive };
    let query = slipql::parse_with(text, Some(&source)).map_err(|e| e.to_string())?;
    let columns = match &query.select {
        Select::All => None,
        Select::Columns(projections) => Some(projections.iter().map(Projection::column).collect()),
    };
    let (root, recursive, limit) = (query.from.root.clone(), query.from.recursive, query.limit);
    Ok(Bound { query, root, recursive, columns, limit })
}

/// The window's state.
pub struct Window {
    /// The directory every query is bound to, once one has been chosen.
    pub folder: Option<PathBuf>,
    /// Whether the scan descends into subdirectories.
    pub recursive: bool,
    /// What is in the query box.
    pub query: String,
    /// The running or finished query, and its rows.
    pub run: Option<Run>,
    /// Why the last query or folder was refused, where one was.
    pub refused: Option<String>,
    /// The selected row's container, and what it opened to.
    pub selected: Option<Detail>,
    /// What the last attempt to hand a content file over said.
    pub said: Option<String>,
}

/// Whether `post` is `pre` with the parse of its query text applied: a
/// refusal said and the run cleared, or nothing refused and the run kept.
pub open spec fn after_parse(pre: Window, post: Window) -> bool {
    &&& post.folder == pre.folder
    &&& post.recursive == pre.recursive
    &&& post.query == pre.query
    &&& post.selected == pre.selected
    &&& post.said is None
    &&& match query_refusal(pre.query@) {
        Some(why) => post.refused is Some && post.refused->0@ == why && post.run is None,
        None => post.refused is None && post.run == pre.run,
    }
}

impl Window {
    /// A window with no folder, and `select *` in the box: the columns of
    /// `select *` are the union of what the containers say, which is the
    /// quickest way to learn what there is to query.
    pub fn new() -> (w: Window)
        ensures
            w.folder is None,
            !w.recursive,
            w.query@ == "select *"@,
            w.run is None,
            w.refused is None,
            w.selected is None,
            w.said is None,
    {
        Window {
            folder: None,
            recursive: false,
            query: String::from_str("select *"),
            run: None,
            refused: None,
            selected: None,
            said: None,
        }
    }

    /// Parse what is in the box, against the bound folder.
    ///
    /// With no folder, nothing happens. Otherwise what was said about the
    /// last hand-over is cleared, and the text either is refused, which is
    /// said and clears the run, or parses, and the query comes back to be
    /// started. Replacing the run is what stops a scan already going.
    pub fn run_query(&mut self) -> (to_start: Option<Bound>)
        ensures
            old(self).folder is None ==> *final(self) == *old(self) && to_start is None,
            old(self).folder is Some ==> after_parse(*old(self), *final(self)),
            old(self).folder is Some ==> (to_start is Some <==> query_refusal(old(self).query@) is None),
            match (old(self).folder, to_start) {
                (Some(folder), Some(b)) => bound_to(b, old(self).query@, folder, old(self).recursive),
                _ => true,
            },
    {
        let parsed = match &self.folder {
            None => return None,
            Some(folder) => parse_query(self.query.as_str(), folder, self.recursive),
        };
        self.said = None;
        self.parsed(parsed)
    }

    /// What a parse of the box leaves: a refusal is said and clears the run;
    /// a query clears the refusal and comes back to be started.
    pub fn parsed(&mut self, parsed: Result<Bound, String>) -> (to_start: Option<Bound>)
        ensures
            final(self).folder == old(self).folder,
            final(self).recursive == old(self).recursive,
            final(self).query == old(self).query,
            final(self).selected == old(self).selected,
            final(self).said == old(self).said,
            match parsed {
                Err(why) => final(self).refused == Some(why) && final(self).run is None && to_start is None,
                Ok(query) => final(self).refused is None && final(self).run == old(self).run && to_start
                    == Some(query),
            },
    {
        match parsed {
            Err(why) => {
                self.refused = Some(why);
                self.run = None;
                None
            },
            Ok(query) => {
                self.refused = None;
                Some(query)
            },
        }
    }

    /// What starting a parsed query gave: a run, which replaces the one
    /// before it and clears the selection, or why the scan could not start,
    /// which is said and clears the run.
    pub fn started(&mut self, started: Result<Run, String>)
        ensures
            final(self).folder == old(self).folder,
            final(self).recursive == old(self).recursive,
            final(self).query == old(self).query,
            final(self).said == old(self).said,
            match started {
                Ok(run) => final(self).run == Some(run) && final(self).selected is None && final(self).refused
                    == old(self).refused,
                Err(why) => final(self).run is None && final(self).refused == Some(why) && final(self).selected
                    == old(self).selected,
            },
    {
        match started {
            Ok(run) => {
                self.run = Some(run);
                self.selected = None;
            },
            Err(why) => {
                self.refused = Some(why);
                self.run = None;
            },
        }
    }

    /// Bind the window to a folder and parse the box against it.
    ///
    /// `shown` is the folder as a person reads it, and `is_dir` whether it is
    /// a directory. A path that is not one is refused here, in the same place
    /// every other refusal is said, and nothing else changes. A directory is
    /// bound, the selection cleared, and the box parsed as
    /// [`run_query`](Self::run_query) does.
    pub fn bind(&mut self, folder: PathBuf, shown: &str, is_dir: bool, messages: &Messages) -> (to_start:
        Option<Bound>)
        ensures
            !is_dir ==> ({
                &&& final(self).folder == old(self).folder
                &&& final(self).recursive == old(self).recursive
                &&& final(self).query == old(self).query
                &&& final(self).run == old(self).run
                &&& final(self).selected == old(self).selected
                &&& final(self).said == old(self).said
                &&& final(self).refused is Some
                &&& final(self).refused->0@ == filled(messages.not_a_folder@, seq![("path"@, shown@)])
                &&& to_start is None
            }),
            is_dir ==> ({
                &&& final(self).folder == Some(folder)
                &&& final(self).selected is None
                &&& final(self).recursive == old(self).recursive
                &&& final(self).query == old(self).query
                &&& final(self).said is None
                &&& match query_refusal(old(self).query@) {
                    Some(why) => final(self).refused is Some && final(self).refused->0@ == why
                        && final(self).run is None && to_start is None,
                    None => final(self).refused is None && final(self).run == old(self).run && to_start is Some,
                }
                &&& match to_start {
                    Some(b) => bound_to(b, old(self).query@, folder, old(self).recursive),
                    None => true,
                }
            }),
    {
        if !is_dir {
            let mut values: Vec<(String, String)> = Vec::new();
            values.push((String::from_str("path"), String::from_str(shown)));
            assert(pairs_view(values@) =~= seq![("path"@, shown@)]);
            self.refused = Some(fill(messages.not_a_folder.as_str(), &values));
            return None;
        }
        self.folder = Some(folder);
        self.selected = None;
        self.run_query()
    }

    /// A row was chosen and its container opened: it becomes the selection,
    /// and what was said about the last hand-over is cleared.
    pub fn select(&mut self, detail: Detail)
        ensures
            final(self).selected == Some(detail),
            final(self).said is None,
            final(self).folder == old(self).folder,
            final(self).recursive == old(self).recursive,
            final(self).query == old(self).query,
            final(self).run == old(self).run,
            final(self).refused == old(self).refused,
    {
        self.said = None;
        self.selected = Some(detail);
    }
}

} // verus!

verus! {

/// What the table area shows.
#[derive(Debug, Clone, Copy, PartialEq, Eq, Structural)]
pub enum Shown {
    /// No query has run: an invitation to choose a folder and run one.
    NoRun,
    /// No columns and no rows yet, and the scan is still going.
    Scanning,
    /// No columns and no rows, and the scan is over.
    NothingMatched,
    /// The rows, under their columns.
    Table,
}

impl Window {
    /// What the table area shows: the rows where there are columns or rows
    /// to draw, and otherwise a sentence saying why there are none.
    pub fn shown(&self) -> (s: Shown)
        ensures
            s == (match self.run {
                None => Shown::NoRun,
                Some(r) => if r@.columns.len() == 0 && r@.rows.len() == 0 {
                    if r@.running { Shown::Scanning } else { Shown::NothingMatched }
                } else {
                    Shown::Table
                },
            }),
    {
        match &self.run {
            None => Shown::NoRun,
            Some(run) => {
                if run.columns().len() == 0 && run.rows().len() == 0 {
                    if run.is_running() { Shown::Scanning } else { Shown::NothingMatched }
                } else {
                    Shown::Table
                }
            },
        }
    }
}

} // verus!
