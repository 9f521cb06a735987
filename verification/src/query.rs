//! A query's rows, and what the scan noticed on the way.
//!
//! The scan runs somewhere else and sends what it finds as [`Message`]s.
//! [`Run`] is the window's side of it: what has arrived, the columns to draw,
//! and the line under the table that says how many rows there are and what
//! else there is to know about them.

use vstd::prelude::*;
use vstd::string::*;

use crate::messages::{plural, Messages};
use crate::text::{decimal, decimal_text, fill, filled, lemma_filled_plain, lemma_filled_step, pairs_view, value_for};

verus! {

/// The most rows one run keeps.
///
/// A scan is one click away from a directory nobody meant to ask about, so
/// there is a ceiling, and reaching it stops the scan rather than filling
/// memory with an answer nobody asked for. The status line says when it was
/// reached, because a truncated answer that does not say so is a wrong answer.
pub const MOST_ROWS: usize = 5000;

/// One cell of a row, as the table draws it.
#[derive(Clone, Debug)]
pub struct Cell {
    /// The column name.
    pub column: String,
    /// The value as text, or `None` where the row has no such key.
    pub value: Option<String>,
}

/// One result row.
#[derive(Clone, Debug)]
pub struct Row {
    /// The container's path relative to the `from` root.
    pub path: String,
    /// The projected cells, in column order.
    pub cells: Vec<Cell>,
}

/// What a finished run has to say besides its rows.
#[derive(Debug, Clone)]
pub struct Notices {
    /// One line per file the scan could not use.
    pub skipped: Vec<String>,
    /// One line per comparison that crossed type classes.
    pub mismatches: Vec<String>,
    /// Whether the scan stopped at [`MOST_ROWS`] rather than at the end.
    pub truncated: bool,
}

/// Notices with nothing in them: nothing skipped, nothing mismatched, not truncated.
pub open spec fn says_nothing(n: Notices) -> bool {
    &&& n.skipped@.len() == 0
    &&& n.mismatches@.len() == 0
    &&& !n.truncated
}

impl Default for Notices {
    fn default() -> (n: Notices)
        ensures
            says_nothing(n),
    {
        Notices { skipped: Vec::new(), mismatches: Vec::new(), truncated: false }
    }
}

impl Notices {
    /// Whether there is anything to report.
    pub fn is_empty(&self) -> (b: bool)
        ensures
            b == says_nothing(*self),
    {
        self.skipped.len() == 0 && self.mismatches.len() == 0 && !self.truncated
    }

    /// How many lines there are to read.
    ///
    /// Not the inverse of [`is_empty`](Self::is_empty): a truncated run has
    /// nothing to read and something to say.
    pub fn lines(&self) -> (n: usize)
        requires
            self.skipped@.len() + self.mismatches@.len() <= usize::MAX,
        ensures
            n == self.skipped@.len() + self.mismatches@.len(),
    {
        self.skipped.len() + self.mismatches.len()
    }
}

/// A file or directory the scan could not use.
#[derive(Clone, Debug)]
pub struct SkippedFile {
    /// The path, relative to the `from` root, as a person reads it.
    pub path: String,
    /// Why, in lowercase, with no trailing period.
    pub reason: String,
}

/// Comparisons that crossed type classes at one path.
#[derive(Clone, Debug)]
pub struct Mismatch {
    /// The path compared, as the query spells it.
    pub column: String,
    /// The kind found in the flyleaf.
    pub found: String,
    /// The kind of the literal it was compared with.
    pub against: String,
    /// How many rows did it.
    pub count: usize,
}

/// The sentence for one skipped file.
pub open spec fn skipped_sentence(m: Messages, s: SkippedFile) -> Seq<char> {
    filled(m.skipped_line@, seq![("path"@, s.path@), ("reason"@, s.reason@)])
}

/// A count of rows, in words.
pub open spec fn rows_sentence(m: Messages, n: nat) -> Seq<char> {
    filled(plural(m.row_one@, m.row_other@, n), seq![("n"@, decimal(n))])
}

/// The sentence for one kind of comparison across types.
pub open spec fn mismatch_sentence(m: Messages, x: Mismatch) -> Seq<char> {
    filled(
        m.mismatch_line@,
        seq![
            ("column"@, x.column@),
            ("found"@, x.found@),
            ("rows"@, rows_sentence(m, x.count as nat)),
            ("against"@, x.against@),
        ],
    )
}

/// Whether `n` says, line for line, what the scan noticed, and `truncated`.
pub open spec fn notices_say(
    m: Messages,
    n: Notices,
    skipped: Seq<SkippedFile>,
    mismatches: Seq<Mismatch>,
    truncated: bool,
) -> bool {
    &&& n.skipped@.len() == skipped.len()
    &&& forall|i: int| 0 <= i < skipped.len() ==> #[trigger] n.skipped@[i]@ == skipped_sentence(m, skipped[i])
    &&& n.mismatches@.len() == mismatches.len()
    &&& forall|i: int|
        0 <= i < mismatches.len() ==> #[trigger] n.mismatches@[i]@ == mismatch_sentence(m, mismatches[i])
    &&& n.truncated == truncated
}

/// A count of rows, in words.
fn rows_text(m: &Messages, n: u64) -> (s: String)
    ensures
        s@ == rows_sentence(*m, n as nat),
{
    let mut values: Vec<(String, String)> = Vec::new();
    values.push((String::from_str("n"), decimal_text(n)));
    assert(pairs_view(values@) =~= seq![("n"@, decimal(n as nat))]);
    let template = if n == 1 { m.row_one.as_str() } else { m.row_other.as_str() };
    fill(template, &values)
}

/// What a run noticed, in English.
pub fn notices_of(skipped: &Vec<SkippedFile>, mismatches: &Vec<Mismatch>, truncated: bool) -> (n: Notices)
    ensures
        forall|m: Messages| m.is_english() ==> notices_say(m, n, skipped@, mismatches@, truncated),
{
    let english = Messages::english();
    notices_of_in(&english, skipped, mismatches, truncated)
}

/// What a run noticed, one sentence per skipped file and one per kind of
/// comparison across types, in the language `messages` is written in.
pub fn notices_of_in(
    messages: &Messages,
    skipped: &Vec<SkippedFile>,
    mismatches: &Vec<Mismatch>,
    truncated: bool,
) -> (n: Notices)
    ensures
        notices_say(*messages, n, skipped@, mismatches@, truncated),
{
    let mut skipped_lines: Vec<String> = Vec::new();
    let mut i: usize = 0;
    while i < skipped.len()
        invariant
            i <= skipped@.len(),
            skipped_lines@.len() == i,
            forall|j: int| 0 <= j < i ==> #[trigger] skipped_lines@[j]@ == skipped_sentence(*messages, skipped@[j]),
        decreases skipped@.len() - i,
    {
        let s = &skipped[i];
        let mut values: Vec<(String, String)> = Vec::new();
        values.push((String::from_str("path"), s.path.clone()));
        values.push((String::from_str("reason"), s.reason.clone()));
        assert(pairs_view(values@) =~= seq![("path"@, s.path@), ("reason"@, s.reason@)]);
        skipped_lines.push(fill(messages.skipped_line.as_str(), &values));
        i = i + 1;
    }
    let mut mismatch_lines: Vec<String> = Vec::new();
    let mut j: usize = 0;
    while j < mismatches.len()
        invariant
            j <= mismatches@.len(),
            mismatch_lines@.len() == j,
            forall|k: int|
                0 <= k < j ==> #[trigger] mismatch_lines@[k]@ == mismatch_sentence(*messages, mismatches@[k]),
        decreases mismatches@.len() - j,
    {
        let x = &mismatches[j];
        let rows = rows_text(messages, x.count as u64);
        let mut values: Vec<(String, String)> = Vec::new();
        values.push((String::from_str("column"), x.column.clone()));
        values.push((String::from_str("found"), x.found.clone()));
        values.push((String::from_str("rows"), rows));
        values.push((String::from_str("against"), x.against.clone()));
        assert(pairs_view(values@) =~= seq![
            ("column"@, x.column@),
            ("found"@, x.found@),
            ("rows"@, rows_sentence(*messages, x.count as nat)),
            ("against"@, x.against@),
        ]);
        mismatch_lines.push(fill(messages.mismatch_line.as_str(), &values));
        j = j + 1;
    }
    Notices { skipped: skipped_lines, mismatches: mismatch_lines, truncated }
}

/// Whether this many rows have reached the ceiling.
///
/// `>=` and not `==`: rows are counted in whole batches and a count can step
/// past the ceiling rather than land on it.
pub fn over_ceiling(rows: usize) -> (b: bool)
    ensures
        b == (rows >= MOST_ROWS),
{
    rows >= MOST_ROWS
}

/// The text one cell shows: the first cell named `column`, its value where it
/// has one, and nothing where it has none or the row has no such column.
pub open spec fn cell_text(cells: Seq<Cell>, column: Seq<char>) -> Seq<char>
    decreases cells.len(),
{
    if cells.len() == 0 {
        seq![]
    } else if cells[0].column@ == column {
        match cells[0].value {
            Some(v) => v@,
            None => seq![],
        }
    } else {
        cell_text(cells.drop_first(), column)
    }
}

/// One cell, as the table draws it.
///
/// A column a row does not have is blank rather than absent, because flyleaf
/// keys are ad hoc by design and a query that projects one is asking whether
/// it is there.
pub fn cell(row: &Row, column: &str) -> (text: String)
    ensures
        text@ == cell_text(row.cells@, column@),
{
    let wanted = String::from_str(column);
    assert(row.cells@.skip(0) =~= row.cells@);
    let mut i: usize = 0;
    while i < row.cells.len()
        invariant
            i <= row.cells@.len(),
            wanted@ == column@,
            cell_text(row.cells@, column@) == cell_text(row.cells@.skip(i as int), column@),
        decreases row.cells@.len() - i,
    {
        assert(row.cells@.skip(i as int).drop_first() =~= row.cells@.skip(i + 1));
        if row.cells[i].column == wanted {
            return match &row.cells[i].value {
                Some(v) => v.clone(),
                None => String::new(),
            };
        }
        i = i + 1;
    }
    String::new()
}


/// Strings as the characters they hold.
pub open spec fn texts(v: Seq<String>) -> Seq<Seq<char>> {
    v.map_values(|s: String| s@)
}

/// The column names of a row's cells, in order.
pub open spec fn row_columns(row: Row) -> Seq<Seq<char>> {
    row.cells@.map_values(|c: Cell| c.column@)
}

/// Every column name of every row, in row order and cell order, repeats kept.
pub open spec fn all_columns(rows: Seq<Row>) -> Seq<Seq<char>>
    decreases rows.len(),
{
    if rows.len() == 0 {
        seq![]
    } else {
        all_columns(rows.drop_last()) + row_columns(rows.last())
    }
}

/// Each name once, in the order first seen.
pub open spec fn first_seen(names: Seq<Seq<char>>) -> Seq<Seq<char>>
    decreases names.len(),
{
    if names.len() == 0 {
        seq![]
    } else {
        let before = first_seen(names.drop_last());
        if before.contains(names.last()) {
            before
        } else {
            before.push(names.last())
        }
    }
}

/// The columns `select *` produces: every column any row has, in the order
/// first seen.
pub open spec fn union_of(rows: Seq<Row>) -> Seq<Seq<char>> {
    first_seen(all_columns(rows))
}

/// Whether `name` is among `columns`.
fn has_column(columns: &Vec<String>, name: &String) -> (b: bool)
    ensures
        b == texts(columns@).contains(name@),
{
    let mut i: usize = 0;
    while i < columns.len()
        invariant
            i <= columns@.len(),
            forall|j: int| 0 <= j < i ==> columns@[j]@ != name@,
        decreases columns@.len() - i,
    {
        if columns[i] == *name {
            assert(texts(columns@)[i as int] == name@);
            return true;
        }
        i = i + 1;
    }
    assert forall|j: int| 0 <= j < texts(columns@).len() implies texts(columns@)[j] != name@ by {
        assert(columns@[j]@ != name@);
    }
    false
}

/// The columns `select *` produces, which are every column any row has, in
/// the order first seen.
///
/// The obvious wrong implementation takes the first row's columns, and looks
/// right until a row carries a key the first one did not.
pub fn column_union(rows: &Vec<Row>) -> (columns: Vec<String>)
    ensures
        texts(columns@) == union_of(rows@),
{
    let mut columns: Vec<String> = Vec::new();
    let mut i: usize = 0;
    assert(rows@.take(0) =~= Seq::<Row>::empty());
    while i < rows.len()
        invariant
            i <= rows@.len(),
            texts(columns@) == union_of(rows@.take(i as int)),
        decreases rows@.len() - i,
    {
        let row = &rows[i];
        let ghost before = all_columns(rows@.take(i as int));
        let mut j: usize = 0;
        assert(row_columns(*row).take(0) =~= Seq::<Seq<char>>::empty());
        assert(before + row_columns(*row).take(0) =~= before);
        while j < row.cells.len()
            invariant
                i < rows@.len(),
                *row == rows@[i as int],
                j <= row.cells@.len(),
                before == all_columns(rows@.take(i as int)),
                texts(columns@) == first_seen(before + row_columns(*row).take(j as int)),
            decreases row.cells@.len() - j,
        {
            let name = &row.cells[j].column;
            let ghost seen = before + row_columns(*row).take(j as int);
            assert((before + row_columns(*row).take(j + 1)).drop_last() =~= seen);
            assert((before + row_columns(*row).take(j + 1)).last() == name@);
            if !has_column(&columns, name) {
                columns.push(name.clone());
                assert(texts(columns@) =~= first_seen(seen).push(name@));
            }
            j = j + 1;
        }
        assert(row_columns(*row).take(j as int) =~= row_columns(*row));
        assert(rows@.take(i + 1).drop_last() =~= rows@.take(i as int));
        assert(rows@.take(i + 1).last() == *row);
        i = i + 1;
    }
    assert(rows@.take(rows@.len() as int) =~= rows@);
    columns
}


/// What the scan sends back.
pub enum Message {
    /// Rows, in scan order.
    Rows(Vec<Row>),
    /// The scan is over, and this is what it noticed on the way.
    Done(Notices),
}

/// What one [`drain`](Run::drain) changed.
#[derive(Debug, Clone, Copy, PartialEq, Eq, Structural)]
pub enum Update {
    /// Nothing arrived. The window draws what it drew last frame.
    Nothing,
    /// Rows arrived, or the column set grew.
    Rows,
    /// The scan finished.
    Finished,
}

/// A query that is running, or has finished, as the window holds it.
///
/// [`Run::drain`] is handed whatever the scan has sent since the last frame
/// and answers what changed, so the window never waits on a scan.
pub struct Run {
    /// The rows so far, in scan order.
    rows: Vec<Row>,
    /// The column names, where the query fixes them. `select *` does not: its
    /// columns are the union over the rows, recomputed as rows arrive.
    fixed_columns: Option<Vec<String>>,
    /// The columns as they stand, which is the fixed set or the union so far.
    columns: Vec<String>,
    /// Whether the scan is still going.
    running: bool,
    /// What the scan noticed, once it is over.
    notices: Option<Notices>,
}

/// A run as the contracts speak of it.
pub struct RunView {
    /// The rows so far, in scan order.
    pub rows: Seq<Row>,
    /// The columns the query fixes, where it fixes them.
    pub fixed_columns: Option<Seq<Seq<char>>>,
    /// The columns to draw.
    pub columns: Seq<Seq<char>>,
    /// Whether the scan is still going.
    pub running: bool,
    /// What the scan noticed, once it is over.
    pub notices: Option<Notices>,
}

impl View for Run {
    type V = RunView;

    closed spec fn view(&self) -> RunView {
        RunView {
            rows: self.rows@,
            fixed_columns: match self.fixed_columns {
                Some(f) => Some(texts(f@)),
                None => None,
            },
            columns: texts(self.columns@),
            running: self.running,
            notices: self.notices,
        }
    }
}

/// The rows a sequence of messages carries, in order.
pub open spec fn rows_in(messages: Seq<Message>) -> Seq<Row>
    decreases messages.len(),
{
    if messages.len() == 0 {
        seq![]
    } else {
        rows_in(messages.drop_last()) + match messages.last() {
            Message::Rows(batch) => batch@,
            Message::Done(_) => seq![],
        }
    }
}

/// Where the first `Done` is among `messages`, or their count where there is none.
pub open spec fn first_done(messages: Seq<Message>) -> nat
    decreases messages.len(),
{
    if messages.len() == 0 {
        0
    } else {
        let before = first_done(messages.drop_last());
        if before < messages.len() - 1 {
            before
        } else if messages.last() is Done {
            (messages.len() - 1) as nat
        } else {
            messages.len()
        }
    }
}

proof fn lemma_first_done(messages: Seq<Message>)
    ensures
        first_done(messages) <= messages.len(),
        forall|i: int| 0 <= i < first_done(messages) ==> #[trigger] messages[i] is Rows,
        first_done(messages) < messages.len() ==> messages[first_done(messages) as int] is Done,
    decreases messages.len(),
{
    if messages.len() > 0 {
        let init = messages.drop_last();
        lemma_first_done(init);
        assert forall|i: int| 0 <= i < first_done(messages) implies #[trigger] messages[i] is Rows by {
            if i < init.len() {
                assert(messages[i] == init[i]);
            }
        }
    }
}

/// Whether a drain of `arrived` took `pre` to `post` and answered `update`.
///
/// Messages are taken in order up to and including the first `Done`. The
/// rows they carry are appended. A `Done` finishes the run with its notices;
/// a scan that went away without one (`gone`) finishes it with what it had
/// noticed, which is nothing. Otherwise the run goes on, and the update is
/// `Rows` where anything arrived. The columns of `select *` are the union
/// over the rows whenever anything changed; fixed columns never change.
pub open spec fn drained(
    pre: RunView,
    arrived: Seq<Message>,
    gone: bool,
    post: RunView,
    update: Update,
) -> bool {
    if !pre.running {
        post == pre && update == Update::Nothing
    } else {
        let t = first_done(arrived);
        &&& post.rows == pre.rows + rows_in(arrived.take(t as int))
        &&& post.fixed_columns == pre.fixed_columns
        &&& if t < arrived.len() {
            &&& post.notices == Some(arrived[t as int]->Done_0)
            &&& !post.running
            &&& update == Update::Finished
        } else if gone {
            &&& post.notices is Some
            &&& says_nothing(post.notices->0)
            &&& !post.running
            &&& update == Update::Finished
        } else {
            &&& post.notices == pre.notices
            &&& post.running
            &&& update == (if arrived.len() > 0 { Update::Rows } else { Update::Nothing })
        }
        &&& post.columns == (if update != Update::Nothing && pre.fixed_columns is None {
            union_of(post.rows)
        } else {
            pre.columns
        })
    }
}

impl Run {
    /// A run that has just started: no rows, and the columns the query fixes,
    /// or none yet for `select *`.
    pub fn new(fixed_columns: Option<Vec<String>>) -> (run: Run)
        ensures
            run@.rows.len() == 0,
            run@.fixed_columns == (match fixed_columns {
                Some(f) => Some(texts(f@)),
                None => None::<Seq<Seq<char>>>,
            }),
            run@.columns == (match fixed_columns {
                Some(f) => texts(f@),
                None => Seq::<Seq<char>>::empty(),
            }),
            run@.running,
            run@.notices is None,
            settled(run@),
    {
        let columns = match &fixed_columns {
            Some(f) => {
                let c = f.clone();
                assert(texts(c@) =~= texts(f@)) by {
                    assert forall|i: int| 0 <= i < c@.len() implies c@[i]@ == f@[i]@ by {
                        assert(cloned::<String>(f[i], c[i]));
                    }
                }
                c
            },
            None => Vec::new(),
        };
        proof {
            if fixed_columns is None {
                assert(texts(columns@) =~= Seq::<Seq<char>>::empty());
                assert(all_columns(Seq::<Row>::empty()) =~= Seq::<Seq<char>>::empty());
            }
        }
        Run { rows: Vec::new(), fixed_columns, columns, running: true, notices: None }
    }

    /// Take what the scan has sent since the last frame.
    ///
    /// `arrived` is what the channel held, in the order it was sent, and
    /// `gone` whether the channel was found closed behind it: the scan ended
    /// without saying so, and the rows already in hand are still rows.
    pub fn drain(&mut self, arrived: Vec<Message>, gone: bool) -> (update: Update)
        ensures
            drained(old(self)@, arrived@, gone, final(self)@, update),
    {
        if !self.running {
            return Update::Nothing;
        }
        let ghost pre = self@;
        let ghost all = arrived@;
        let had_any = arrived.len() > 0;
        proof {
            lemma_first_done(all);
        }
        let mut rest = arrived;
        let mut finished = false;
        let ghost mut k: int = 0;
        assert(all.take(0) =~= Seq::<Message>::empty());
        assert(all.skip(0) =~= all);
        while !finished && rest.len() > 0
            invariant
                0 <= k <= all.len(),
                rest@ == all.skip(k),
                finished ==> k == first_done(all) + 1 && first_done(all) < all.len(),
                !finished ==> k <= first_done(all),
                first_done(all) <= all.len(),
                forall|i: int| 0 <= i < first_done(all) ==> #[trigger] all[i] is Rows,
                first_done(all) < all.len() ==> all[first_done(all) as int] is Done,
                self.rows@ == pre.rows + rows_in(all.take(if finished { k - 1 } else { k })),
                self.fixed_columns == old(self).fixed_columns,
                self.columns == old(self).columns,
                finished ==> !self.running && self.notices == Some(all[k - 1]->Done_0),
                !finished ==> self.running && self.notices == pre.notices,
            decreases rest@.len(),
        {
            let message = rest.remove(0);
            assert(message == all[k]);
            assert(rest@ =~= all.skip(k + 1));
            match message {
                Message::Rows(mut batch) => {
                    assert(all.take(k + 1).drop_last() =~= all.take(k));
                    self.rows.append(&mut batch);
                },
                Message::Done(notices) => {
                    self.notices = Some(notices);
                    self.running = false;
                    finished = true;
                },
            }
            proof {
                k = k + 1;
            }
        }
        let update = if finished {
            Update::Finished
        } else if gone {
            self.notices = Some(Notices::default());
            self.running = false;
            Update::Finished
        } else if had_any {
            Update::Rows
        } else {
            Update::Nothing
        };
        if update != Update::Nothing && self.fixed_columns.is_none() {
            self.columns = column_union(&self.rows);
        }
        update
    }

    /// Whether the scan is still going.
    pub fn is_running(&self) -> (b: bool)
        ensures
            b == self@.running,
    {
        self.running
    }

    /// The rows so far, in scan order.
    pub fn rows(&self) -> (rows: &[Row])
        ensures
            rows@ == self@.rows,
    {
        self.rows.as_slice()
    }

    /// The columns to draw, which for `select *` grows as rows arrive.
    pub fn columns(&self) -> (columns: &[String])
        ensures
            texts(columns@) == self@.columns,
    {
        self.columns.as_slice()
    }

    /// What the scan noticed, once it is over.
    pub fn notices(&self) -> (n: Option<&Notices>)
        ensures
            n == (match self@.notices {
                Some(x) => Some(&x),
                None => None::<&Notices>,
            }),
    {
        self.notices.as_ref()
    }

    /// The count under the table, in English.
    pub fn status(&self) -> (line: String)
        ensures
            forall|m: Messages| m.is_english() ==> line@ == status_of(m, self@),
    {
        let english = Messages::english();
        self.status_in(&english)
    }

    /// The count under the table: how many rows, and what else there is to
    /// know about them, in the language `messages` is written in.
    pub fn status_in(&self, messages: &Messages) -> (line: String)
        ensures
            line@ == status_of(*messages, self@),
    {
        let rows = rows_text(messages, self.rows.len() as u64);
        if self.running {
            let mut values: Vec<(String, String)> = Vec::new();
            values.push((String::from_str("rows"), rows));
            assert(pairs_view(values@) =~= seq![("rows"@, rows_sentence(*messages, self@.rows.len()))]);
            return fill(messages.so_far.as_str(), &values);
        }
        match &self.notices {
            None => rows,
            Some(notices) => {
                let mut line = rows;
                proof {
                    reveal_strlit(" · ");
                }
                if notices.truncated {
                    let mut values: Vec<(String, String)> = Vec::new();
                    values.push((String::from_str("most"), decimal_text(MOST_ROWS as u64)));
                    assert(pairs_view(values@) =~= seq![("most"@, decimal(MOST_ROWS as nat))]);
                    let part = fill(messages.stopped.as_str(), &values);
                    line.append(" · ");
                    line.append(part.as_str());
                }
                let ghost after_stopped = line@;
                let skipped = notices.skipped.len();
                if skipped > 0 {
                    let mut values: Vec<(String, String)> = Vec::new();
                    values.push((String::from_str("n"), decimal_text(skipped as u64)));
                    assert(pairs_view(values@) =~= seq![("n"@, decimal(skipped as nat))]);
                    let template = if skipped == 1 {
                        messages.skipped_one.as_str()
                    } else {
                        messages.skipped_other.as_str()
                    };
                    let part = fill(template, &values);
                    line.append(" · ");
                    line.append(part.as_str());
                }
                let ghost after_skipped = line@;
                let across = notices.mismatches.len();
                if across > 0 {
                    let mut values: Vec<(String, String)> = Vec::new();
                    values.push((String::from_str("n"), decimal_text(across as u64)));
                    assert(pairs_view(values@) =~= seq![("n"@, decimal(across as nat))]);
                    let template = if across == 1 {
                        messages.across_one.as_str()
                    } else {
                        messages.across_other.as_str()
                    };
                    let part = fill(template, &values);
                    line.append(" · ");
                    line.append(part.as_str());
                }
                assert(line@ =~= status_of(*messages, self@));
                line
            },
        }
    }
}

/// One more part of a status line, after the separator.
pub open spec fn then(part: Seq<char>) -> Seq<char> {
    " · "@ + part
}

/// A count in words, from a pair of templates.
pub open spec fn counted(one: Seq<char>, other: Seq<char>, n: nat) -> Seq<char> {
    filled(plural(one, other, n), seq![("n"@, decimal(n))])
}

/// The count under the table.
///
/// While the scan runs, the rows so far. Once it is over, the rows, then
/// whether the ceiling stopped it, how many files were skipped and how many
/// kinds of comparison crossed types, each where there is any, joined by
/// ` · `.
pub open spec fn status_of(m: Messages, r: RunView) -> Seq<char> {
    let rows = rows_sentence(m, r.rows.len());
    if r.running {
        filled(m.so_far@, seq![("rows"@, rows)])
    } else {
        match r.notices {
            None => rows,
            Some(n) => rows
                + (if n.truncated {
                    then(filled(m.stopped@, seq![("most"@, decimal(MOST_ROWS as nat))]))
                } else {
                    seq![]
                })
                + (if n.skipped@.len() > 0 {
                    then(counted(m.skipped_one@, m.skipped_other@, n.skipped@.len()))
                } else {
                    seq![]
                })
                + (if n.mismatches@.len() > 0 {
                    then(counted(m.across_one@, m.across_other@, n.mismatches@.len()))
                } else {
                    seq![]
                }),
        }
    }
}

} // verus!

verus! {

/// A truncated run always has something to say, though it may have nothing
/// to read: a wrong answer never reaches somebody without a word about it.
pub proof fn truncated_notices_are_never_empty(n: Notices)
    requires
        n.truncated,
    ensures
        !says_nothing(n),
{
}

/// Notices say nothing exactly when they have no line to read and the run
/// was not cut short.
pub proof fn empty_notices_have_no_lines_and_no_ceiling(n: Notices)
    ensures
        says_nothing(n) <==> (n.skipped@.len() + n.mismatches@.len() == 0 && !n.truncated),
{
}

/// A column that no cell of the row has is blank, not absent and not an error.
pub proof fn a_column_the_row_does_not_have_is_blank(cells: Seq<Cell>, column: Seq<char>)
    requires
        forall|i: int| 0 <= i < cells.len() ==> (#[trigger] cells[i]).column@ != column,
    ensures
        cell_text(cells, column) == Seq::<char>::empty(),
    decreases cells.len(),
{
    if cells.len() > 0 {
        assert(cells[0].column@ != column);
        assert forall|i: int| 0 <= i < cells.drop_first().len() implies (#[trigger] cells.drop_first()[i]).column@
            != column by {
            assert(cells.drop_first()[i] == cells[i + 1]);
        }
        a_column_the_row_does_not_have_is_blank(cells.drop_first(), column);
    }
}

/// A name is among those first seen exactly when it is among all of them,
/// and none is there twice.
pub proof fn lemma_first_seen(names: Seq<Seq<char>>)
    ensures
        forall|x: Seq<char>| first_seen(names).contains(x) <==> names.contains(x),
        forall|i: int, j: int|
            0 <= i < j < first_seen(names).len() ==> first_seen(names)[i] != first_seen(names)[j],
    decreases names.len(),
{
    if names.len() > 0 {
        let init = names.drop_last();
        lemma_first_seen(init);
        let before = first_seen(init);
        let last = names.last();
        assert(names =~= init.push(last));
        assert forall|x: Seq<char>| first_seen(names).contains(x) <==> names.contains(x) by {
            lemma_push_contains(init, last, x);
            if before.contains(last) {
                assert(first_seen(names) == before);
            } else {
                assert(first_seen(names) == before.push(last));
                lemma_push_contains(before, last, x);
            }
        }
        if !before.contains(last) {
            let fs = before.push(last);
            assert forall|i: int, j: int| 0 <= i < j < fs.len() implies fs[i] != fs[j] by {
                if j == fs.len() - 1 {
                    assert(fs[j] == last);
                    assert(fs[i] == before[i]);
                } else {
                    assert(fs[i] == before[i] && fs[j] == before[j]);
                }
            }
        }
    }
}

proof fn lemma_push_contains(s: Seq<Seq<char>>, y: Seq<char>, x: Seq<char>)
    ensures
        s.push(y).contains(x) <==> (s.contains(x) || x == y),
{
    if s.contains(x) {
        let k = choose|k: int| 0 <= k < s.len() && s[k] == x;
        assert(s.push(y)[k] == x);
    }
    if x == y {
        assert(s.push(y)[s.len() as int] == x);
    }
    if s.push(y).contains(x) {
        let k = choose|k: int| 0 <= k < s.push(y).len() && s.push(y)[k] == x;
        if k < s.len() {
            assert(s[k] == x);
        }
    }
}

/// The columns of `select *` are every column any row has, each once: a row
/// carrying a key the others do not still puts it in the header.
pub proof fn every_column_is_in_the_union_once(rows: Seq<Row>)
    ensures
        forall|x: Seq<char>| union_of(rows).contains(x) <==> all_columns(rows).contains(x),
        forall|i: int, j: int| 0 <= i < j < union_of(rows).len() ==> union_of(rows)[i] != union_of(rows)[j],
        forall|r: int, c: int|
            0 <= r < rows.len() && 0 <= c < rows[r].cells@.len() ==> union_of(rows).contains(
                #[trigger] rows[r].cells@[c].column@,
            ),
{
    lemma_first_seen(all_columns(rows));
    assert forall|r: int, c: int|
        0 <= r < rows.len() && 0 <= c < rows[r].cells@.len() implies union_of(rows).contains(
            #[trigger] rows[r].cells@[c].column@,
        ) by {
        lemma_all_columns_has(rows, r, c);
    }
}

proof fn lemma_all_columns_has(rows: Seq<Row>, r: int, c: int)
    requires
        0 <= r < rows.len(),
        0 <= c < rows[r].cells@.len(),
    ensures
        all_columns(rows).contains(rows[r].cells@[c].column@),
    decreases rows.len(),
{
    let init = rows.drop_last();
    let x = rows[r].cells@[c].column@;
    if r == rows.len() - 1 {
        let here = row_columns(rows.last());
        assert(here[c] == x);
        assert((all_columns(init) + here)[all_columns(init).len() + c] == x);
    } else {
        assert(init[r] == rows[r]);
        lemma_all_columns_has(init, r, c);
        let k = choose|k: int| 0 <= k < all_columns(init).len() && all_columns(init)[k] == x;
        assert((all_columns(init) + row_columns(rows.last()))[k] == x);
    }
}

/// What a drain keeps.
///
/// Rows are only ever appended, in the order they were sent. A finished run
/// drains to nothing and stays as it is. A drain that answers `Finished`
/// leaves the run stopped with its notices in hand, one that answers
/// `Nothing` changes nothing, and the columns a query fixes never change.
pub proof fn what_a_drain_keeps(
    pre: RunView,
    arrived: Seq<Message>,
    gone: bool,
    post: RunView,
    update: Update,
)
    requires
        drained(pre, arrived, gone, post, update),
    ensures
        post.rows.len() >= pre.rows.len(),
        post.rows.take(pre.rows.len() as int) == pre.rows,
        !pre.running ==> post == pre && update == Update::Nothing,
        update == Update::Finished ==> !post.running && post.notices is Some,
        update == Update::Nothing ==> post.rows == pre.rows && post.columns == pre.columns,
        post.fixed_columns == pre.fixed_columns,
        pre.fixed_columns is Some ==> post.columns == pre.columns,
        post.running ==> pre.running,
{
    if pre.running {
        let t = first_done(arrived);
        lemma_first_done(arrived);
        assert(post.rows.take(pre.rows.len() as int) =~= pre.rows);
        if update == Update::Nothing {
            assert(arrived.take(t as int) =~= Seq::<Message>::empty());
            assert(post.rows =~= pre.rows);
        }
    } else {
        assert(post.rows.take(pre.rows.len() as int) =~= pre.rows);
    }
}

/// The columns of `select *` are always the union over the rows in hand:
/// a run that starts with none keeps them so through every drain.
pub proof fn select_star_columns_stay_the_union(
    pre: RunView,
    arrived: Seq<Message>,
    gone: bool,
    post: RunView,
    update: Update,
)
    requires
        drained(pre, arrived, gone, post, update),
        pre.fixed_columns is None,
        pre.columns == union_of(pre.rows),
    ensures
        post.columns == union_of(post.rows),
{
    what_a_drain_keeps(pre, arrived, gone, post, update);
}

/// Once the scan is over, the line under the table begins with the row count.
pub proof fn a_finished_status_begins_with_the_count(m: Messages, r: RunView)
    requires
        !r.running,
    ensures
        status_of(m, r).len() >= rows_sentence(m, r.rows.len()).len(),
        status_of(m, r).take(rows_sentence(m, r.rows.len()).len() as int) == rows_sentence(m, r.rows.len()),
{
    let rows = rows_sentence(m, r.rows.len());
    assert(status_of(m, r).take(rows.len() as int) =~= rows);
}

} // verus!

verus! {

/// Whether `piece` stands somewhere in `line`, in one stretch.
pub open spec fn mentions(line: Seq<char>, piece: Seq<char>) -> bool {
    exists|i: int| 0 <= i && i + piece.len() <= line.len() && #[trigger] line.subrange(i, i + piece.len()) == piece
}

proof fn lemma_mentions_in_sum(a: Seq<char>, piece: Seq<char>, b: Seq<char>)
    ensures
        mentions(a + piece + b, piece),
{
    let line = a + piece + b;
    assert(line.subrange(a.len() as int, a.len() + piece.len() as int) =~= piece);
}

/// Once the scan is over, nothing it noticed is swallowed: a run the ceiling
/// cut short says where it stopped, and skipped files and comparisons across
/// types are counted on the line under the table.
pub proof fn a_finished_status_says_what_was_noticed(m: Messages, r: RunView, n: Notices)
    requires
        !r.running,
        r.notices == Some(n),
    ensures
        n.truncated ==> mentions(
            status_of(m, r),
            then(filled(m.stopped@, seq![("most"@, decimal(MOST_ROWS as nat))])),
        ),
        n.skipped@.len() > 0 ==> mentions(
            status_of(m, r),
            then(counted(m.skipped_one@, m.skipped_other@, n.skipped@.len())),
        ),
        n.mismatches@.len() > 0 ==> mentions(
            status_of(m, r),
            then(counted(m.across_one@, m.across_other@, n.mismatches@.len())),
        ),
{
    let rows = rows_sentence(m, r.rows.len());
    let stopped = if n.truncated {
        then(filled(m.stopped@, seq![("most"@, decimal(MOST_ROWS as nat))]))
    } else {
        seq![]
    };
    let skipped = if n.skipped@.len() > 0 {
        then(counted(m.skipped_one@, m.skipped_other@, n.skipped@.len()))
    } else {
        seq![]
    };
    let across = if n.mismatches@.len() > 0 {
        then(counted(m.across_one@, m.across_other@, n.mismatches@.len()))
    } else {
        seq![]
    };
    assert(status_of(m, r) == rows + stopped + skipped + across);
    lemma_mentions_in_sum(rows, stopped, skipped + across);
    assert(rows + stopped + skipped + across =~= rows + stopped + (skipped + across));
    lemma_mentions_in_sum(rows + stopped, skipped, across);
    lemma_mentions_in_sum(rows + stopped + skipped, across, seq![]);
    assert(rows + stopped + skipped + across =~= rows + stopped + skipped + across + Seq::<char>::empty());
}

} // verus!

verus! {

/// What a run keeps at every frame: it is running exactly while it has no
/// notices, the columns a query fixes are the columns drawn, and the columns
/// of `select *` are the union over the rows in hand.
pub open spec fn settled(v: RunView) -> bool {
    &&& v.running <==> v.notices is None
    &&& match v.fixed_columns {
        Some(f) => v.columns == f,
        None => v.columns == union_of(v.rows),
    }
}

/// A drain of a settled run leaves it settled, with its fixed columns as
/// they were, and a run that has stopped never starts again.
pub proof fn a_drain_keeps_a_run_settled(
    pre: RunView,
    arrived: Seq<Message>,
    gone: bool,
    post: RunView,
    update: Update,
)
    requires
        settled(pre),
        drained(pre, arrived, gone, post, update),
    ensures
        settled(post),
        post.fixed_columns == pre.fixed_columns,
        !pre.running ==> post == pre,
        update == Update::Finished ==> pre.running && !post.running,
{
    what_a_drain_keeps(pre, arrived, gone, post, update);
}

proof fn lemma_drains_upto(
    runs: Seq<RunView>,
    arrivals: Seq<Seq<Message>>,
    gones: Seq<bool>,
    updates: Seq<Update>,
    k: int,
)
    requires
        runs.len() == arrivals.len() + 1,
        gones.len() == arrivals.len(),
        updates.len() == arrivals.len(),
        settled(runs[0]),
        forall|i: int|
            0 <= i < arrivals.len() ==> drained(
                #[trigger] runs[i],
                arrivals[i],
                gones[i],
                runs[i + 1],
                updates[i],
            ),
        0 <= k < runs.len(),
    ensures
        settled(runs[k]),
        runs[k].fixed_columns == runs[0].fixed_columns,
    decreases k,
{
    if k > 0 {
        lemma_drains_upto(runs, arrivals, gones, updates, k - 1);
        assert(drained(runs[k - 1], arrivals[k - 1], gones[k - 1], runs[k], updates[k - 1]));
        a_drain_keeps_a_run_settled(runs[k - 1], arrivals[k - 1], gones[k - 1], runs[k], updates[k - 1]);
    }
}

proof fn lemma_stopped_stays(
    runs: Seq<RunView>,
    arrivals: Seq<Seq<Message>>,
    gones: Seq<bool>,
    updates: Seq<Update>,
    i: int,
    j: int,
)
    requires
        runs.len() == arrivals.len() + 1,
        gones.len() == arrivals.len(),
        updates.len() == arrivals.len(),
        forall|n: int|
            0 <= n < arrivals.len() ==> drained(
                #[trigger] runs[n],
                arrivals[n],
                gones[n],
                runs[n + 1],
                updates[n],
            ),
        0 <= i <= j < runs.len(),
        !runs[i].running,
    ensures
        runs[j] == runs[i],
        j < arrivals.len() ==> updates[j] == Update::Nothing,
    decreases j - i,
{
    if j > i {
        lemma_stopped_stays(runs, arrivals, gones, updates, i, j - 1);
        assert(drained(runs[j - 1], arrivals[j - 1], gones[j - 1], runs[j], updates[j - 1]));
    }
    if j < arrivals.len() {
        assert(drained(runs[j], arrivals[j], gones[j], runs[j + 1], updates[j]));
    }
}

/// Over every drain of a run, from one that is settled, as [`Run::new`]
/// makes it: the run stays settled, its fixed columns never change, a run
/// that has stopped stays exactly as it is, and at most one drain answers
/// `Finished`, every drain after it answering `Nothing`.
pub proof fn a_run_over_every_drain(
    runs: Seq<RunView>,
    arrivals: Seq<Seq<Message>>,
    gones: Seq<bool>,
    updates: Seq<Update>,
)
    requires
        runs.len() == arrivals.len() + 1,
        gones.len() == arrivals.len(),
        updates.len() == arrivals.len(),
        settled(runs[0]),
        forall|i: int|
            0 <= i < arrivals.len() ==> drained(
                #[trigger] runs[i],
                arrivals[i],
                gones[i],
                runs[i + 1],
                updates[i],
            ),
    ensures
        forall|i: int| 0 <= i < runs.len() ==> settled(#[trigger] runs[i]),
        forall|i: int| 0 <= i < runs.len() ==> (#[trigger] runs[i]).fixed_columns == runs[0].fixed_columns,
        forall|i: int, j: int| 0 <= i <= j < runs.len() && !runs[i].running ==> #[trigger] runs[j] == #[trigger] runs[i],
        forall|i: int, j: int|
            0 <= i < j < updates.len() && #[trigger] updates[i] == Update::Finished ==> #[trigger] updates[j]
                == Update::Nothing,
{
    assert forall|i: int| 0 <= i < runs.len() implies settled(#[trigger] runs[i]) && runs[i].fixed_columns
        == runs[0].fixed_columns by {
        lemma_drains_upto(runs, arrivals, gones, updates, i);
    }
    assert forall|i: int, j: int| 0 <= i <= j < runs.len() && !runs[i].running implies #[trigger] runs[j]
        == #[trigger] runs[i] by {
        lemma_stopped_stays(runs, arrivals, gones, updates, i, j);
    }
    assert forall|i: int, j: int|
        0 <= i < j < updates.len() && #[trigger] updates[i] == Update::Finished implies #[trigger] updates[j]
            == Update::Nothing by {
        lemma_drains_upto(runs, arrivals, gones, updates, i);
        assert(drained(runs[i], arrivals[i], gones[i], runs[i + 1], updates[i]));
        a_drain_keeps_a_run_settled(runs[i], arrivals[i], gones[i], runs[i + 1], updates[i]);
        lemma_stopped_stays(runs, arrivals, gones, updates, i + 1, j);
    }
}

} // verus!

verus! {

/// Whether every batch of rows among `arrived` holds at least one row, as
/// every batch a [`Feed`](crate::feed::Feed) sends does.
pub open spec fn no_empty_batch(arrived: Seq<Message>) -> bool {
    forall|i: int| 0 <= i < arrived.len() && (#[trigger] arrived[i]) is Rows ==> arrived[i]->Rows_0@.len() > 0
}

/// A drain that answers `Rows`, of batches none of which is empty, leaves
/// the run still going with more rows than it had.
pub proof fn a_rows_answer_means_more_rows(
    pre: RunView,
    arrived: Seq<Message>,
    gone: bool,
    post: RunView,
    update: Update,
)
    requires
        drained(pre, arrived, gone, post, update),
        no_empty_batch(arrived),
        update == Update::Rows,
    ensures
        post.running,
        post.rows.len() > pre.rows.len(),
{
    lemma_first_done(arrived);
    let t = first_done(arrived);
    assert(t == arrived.len());
    assert(arrived.take(t as int) =~= arrived);
    let last = arrived.last();
    assert(arrived[arrived.len() - 1] is Rows);
    assert(rows_in(arrived) == rows_in(arrived.drop_last()) + last->Rows_0@);
}

} // verus!

verus! {

/// A `{n}` placeholder and then words with no placeholder in them, filled
/// with a count: the count in figures, then the words.
proof fn lemma_count_in_words(template: Seq<char>, word: Seq<char>, n: nat)
    requires
        template == seq!['{', 'n', '}'] + word,
        !word.contains('{'),
    ensures
        filled(template, seq![("n"@, decimal(n))]) == decimal(n) + word,
{
    reveal_strlit("n");
    let values = seq![("n"@, decimal(n))];
    let empty = Seq::<char>::empty();
    assert(template =~= empty + seq!['{'] + "n"@ + seq!['}'] + word);
    assert(!"n"@.contains('}'));
    assert(!empty.contains('{'));
    lemma_filled_step(empty, "n"@, word, values);
    lemma_filled_plain(word, values);
    assert(value_for("n"@, values) == decimal(n));
    assert(filled(template, values) =~= decimal(n) + word);
}

/// In English a count of rows is the number in figures and then "row" for
/// exactly one, "rows" for every other count, none among them.
pub proof fn an_english_row_count_reads_n_rows(m: Messages, n: nat)
    requires
        m.is_english(),
    ensures
        rows_sentence(m, n) == decimal(n) + (if n == 1 { " row"@ } else { " rows"@ }),
{
    reveal_strlit("{n} row");
    reveal_strlit("{n} rows");
    reveal_strlit(" row");
    reveal_strlit(" rows");
    let word = if n == 1 { " row"@ } else { " rows"@ };
    assert(plural(m.row_one@, m.row_other@, n) =~= seq!['{', 'n', '}'] + word);
    assert(!word.contains('{'));
    lemma_count_in_words(plural(m.row_one@, m.row_other@, n), word, n);
}

/// While the scan is going, the English line under the table is every row
/// in hand so far, counted, and nothing else.
pub proof fn a_running_status_counts_every_row_so_far(m: Messages, r: RunView)
    requires
        m.is_english(),
        r.running,
    ensures
        status_of(m, r) == decimal(r.rows.len()) + (if r.rows.len() == 1 { " row"@ } else { " rows"@ })
            + " so far…"@,
{
    an_english_row_count_reads_n_rows(m, r.rows.len());
    reveal_strlit("{rows} so far…");
    reveal_strlit("rows");
    reveal_strlit(" so far…");
    let rows = rows_sentence(m, r.rows.len());
    let values = seq![("rows"@, rows)];
    let empty = Seq::<char>::empty();
    let rest = " so far…"@;
    assert(m.so_far@ =~= empty + seq!['{'] + "rows"@ + seq!['}'] + rest);
    assert(!empty.contains('{'));
    assert(!"rows"@.contains('}'));
    assert(!rest.contains('{'));
    lemma_filled_step(empty, "rows"@, rest, values);
    lemma_filled_plain(rest, values);
    assert(value_for("rows"@, values) == rows);
    assert(status_of(m, r) =~= rows + rest);
}

/// The ceiling in figures.
proof fn lemma_most_rows_in_figures()
    ensures
        decimal(MOST_ROWS as nat) == "5000"@,
{
    reveal_strlit("5000");
    assert(decimal(5) =~= seq!['5']);
    assert(decimal(50) =~= seq!['5', '0']);
    assert(decimal(500) =~= seq!['5', '0', '0']);
    assert(decimal(5000) =~= seq!['5', '0', '0', '0']);
}

/// The English ceiling sentence, after its separator.
proof fn lemma_english_stopped(m: Messages)
    requires
        m.is_english(),
    ensures
        then(filled(m.stopped@, seq![("most"@, decimal(MOST_ROWS as nat))]))
            == " · stopped at 5000; narrow the query or add a limit"@,
{
    reveal_strlit(" · ");
    reveal_strlit(" · stopped at 5000; narrow the query or add a limit");
    reveal_strlit("stopped at {most}; narrow the query or add a limit");
    reveal_strlit("stopped at ");
    reveal_strlit("most");
    reveal_strlit("; narrow the query or add a limit");
    reveal_strlit("5000");
    lemma_most_rows_in_figures();
    let most = seq![("most"@, decimal(MOST_ROWS as nat))];
    let head = "stopped at "@;
    let tail = "; narrow the query or add a limit"@;
    assert(m.stopped@ =~= head + seq!['{'] + "most"@ + seq!['}'] + tail);
    assert(!head.contains('{'));
    assert(!"most"@.contains('}'));
    assert(!tail.contains('{'));
    lemma_filled_step(head, "most"@, tail, most);
    lemma_filled_plain(tail, most);
    assert(value_for("most"@, most) == decimal(MOST_ROWS as nat));
    assert(then(filled(m.stopped@, most)) =~= " · stopped at 5000; narrow the query or add a limit"@);
}

/// The English count of skipped files, after its separator.
proof fn lemma_english_skipped_count(m: Messages, k: nat)
    requires
        m.is_english(),
    ensures
        then(counted(m.skipped_one@, m.skipped_other@, k)) == " · "@ + decimal(k) + " skipped"@,
{
    reveal_strlit("{n} skipped");
    reveal_strlit(" skipped");
    let word = " skipped"@;
    assert(plural(m.skipped_one@, m.skipped_other@, k) =~= seq!['{', 'n', '}'] + word);
    assert(!word.contains('{'));
    lemma_count_in_words(plural(m.skipped_one@, m.skipped_other@, k), word, k);
    assert(then(counted(m.skipped_one@, m.skipped_other@, k)) =~= " · "@ + decimal(k) + word);
}

/// The English count of kinds of comparison across types, after its separator.
proof fn lemma_english_across_count(m: Messages, a: nat)
    requires
        m.is_english(),
    ensures
        then(counted(m.across_one@, m.across_other@, a)) == " · "@ + decimal(a) + (if a == 1 {
            " comparison across types"@
        } else {
            " comparisons across types"@
        }),
{
    reveal_strlit("{n} comparison across types");
    reveal_strlit("{n} comparisons across types");
    reveal_strlit(" comparison across types");
    reveal_strlit(" comparisons across types");
    let word = if a == 1 { " comparison across types"@ } else { " comparisons across types"@ };
    assert(plural(m.across_one@, m.across_other@, a) =~= seq!['{', 'n', '}'] + word);
    assert(!word.contains('{'));
    lemma_count_in_words(plural(m.across_one@, m.across_other@, a), word, a);
    assert(then(counted(m.across_one@, m.across_other@, a)) =~= " · "@ + decimal(a) + word);
}

/// Once the scan is over, the English line under the table is the row
/// count, then the ceiling sentence if and only if the run was cut short,
/// then how many files were skipped if any were, then how many kinds of
/// comparison crossed types if any did, each after a ` · `, and nothing else.
pub proof fn an_english_finished_status_says_only_what_happened(m: Messages, r: RunView, n: Notices)
    requires
        m.is_english(),
        !r.running,
        r.notices == Some(n),
    ensures
        status_of(m, r) == decimal(r.rows.len()) + (if r.rows.len() == 1 { " row"@ } else { " rows"@ }) + (if n.truncated {
            " · stopped at 5000; narrow the query or add a limit"@
        } else {
            seq![]
        }) + (if n.skipped@.len() > 0 {
            " · "@ + decimal(n.skipped@.len()) + " skipped"@
        } else {
            seq![]
        }) + (if n.mismatches@.len() > 0 {
            " · "@ + decimal(n.mismatches@.len()) + (if n.mismatches@.len() == 1 {
                " comparison across types"@
            } else {
                " comparisons across types"@
            })
        } else {
            seq![]
        }),
{
    an_english_row_count_reads_n_rows(m, r.rows.len());
    lemma_english_stopped(m);
    lemma_english_skipped_count(m, n.skipped@.len());
    lemma_english_across_count(m, n.mismatches@.len());
}

/// In English a skipped file's line is `skipped`, its path, a colon, and why.
proof fn lemma_english_skipped_line(m: Messages, s: SkippedFile)
    requires
        m.is_english(),
    ensures
        skipped_sentence(m, s) == "skipped "@ + s.path@ + ": "@ + s.reason@,
{
    reveal_strlit("skipped {path}: {reason}");
    reveal_strlit("skipped ");
    reveal_strlit(": ");
    reveal_strlit("path");
    reveal_strlit("reason");
    let values = seq![("path"@, s.path@), ("reason"@, s.reason@)];
    let empty = Seq::<char>::empty();
    let second = ": "@ + seq!['{'] + "reason"@ + seq!['}'] + empty;
    assert(m.skipped_line@ =~= "skipped "@ + seq!['{'] + "path"@ + seq!['}'] + second);
    assert(!"skipped "@.contains('{'));
    assert(!": "@.contains('{'));
    assert(!empty.contains('{'));
    assert(!"path"@.contains('}'));
    assert(!"reason"@.contains('}'));
    lemma_filled_step("skipped "@, "path"@, second, values);
    lemma_filled_step(": "@, "reason"@, empty, values);
    lemma_filled_plain(empty, values);
    assert(value_for("path"@, values) == s.path@);
    assert("path"@[0] != "reason"@[0]);
    assert("path"@ != "reason"@);
    assert(values.drop_first() =~= seq![("reason"@, s.reason@)]);
    assert(value_for("reason"@, values.drop_first()) == s.reason@);
    assert(value_for("reason"@, values) == value_for("reason"@, values.drop_first()));
    assert(skipped_sentence(m, s) =~= "skipped "@ + s.path@ + ": "@ + s.reason@);
}

/// Each name of a comparison's line finds its own value.
proof fn lemma_mismatch_values(column: Seq<char>, found: Seq<char>, rows: Seq<char>, against: Seq<char>)
    ensures
        ({
            let values = seq![("column"@, column), ("found"@, found), ("rows"@, rows), ("against"@, against)];
            &&& value_for("column"@, values) == column
            &&& value_for("found"@, values) == found
            &&& value_for("rows"@, values) == rows
            &&& value_for("against"@, values) == against
        }),
{
    reveal_strlit("column");
    reveal_strlit("found");
    reveal_strlit("rows");
    reveal_strlit("against");
    let values = seq![("column"@, column), ("found"@, found), ("rows"@, rows), ("against"@, against)];
    let v1 = values.drop_first();
    let v2 = v1.drop_first();
    let v3 = v2.drop_first();
    assert(v1 =~= seq![("found"@, found), ("rows"@, rows), ("against"@, against)]);
    assert(v2 =~= seq![("rows"@, rows), ("against"@, against)]);
    assert(v3 =~= seq![("against"@, against)]);
    assert("column"@[0] != "found"@[0]);
    assert("column"@[0] != "rows"@[0]);
    assert("column"@[0] != "against"@[0]);
    assert("found"@[0] != "rows"@[0]);
    assert("found"@[0] != "against"@[0]);
    assert("rows"@[0] != "against"@[0]);
    assert("column"@ != "found"@);
    assert("column"@ != "rows"@);
    assert("column"@ != "against"@);
    assert("found"@ != "rows"@);
    assert("found"@ != "against"@);
    assert("rows"@ != "against"@);
    assert(value_for("column"@, values) == column);
    assert(value_for("found"@, v1) == found);
    assert(value_for("found"@, values) == value_for("found"@, v1));
    assert(value_for("rows"@, v2) == rows);
    assert(value_for("rows"@, v1) == value_for("rows"@, v2));
    assert(value_for("rows"@, values) == value_for("rows"@, v1));
    assert(value_for("against"@, v3) == against);
    assert(value_for("against"@, v2) == value_for("against"@, v3));
    assert(value_for("against"@, v1) == value_for("against"@, v2));
    assert(value_for("against"@, values) == value_for("against"@, v1));
}

/// In English a comparison across types reads as the path, what was found
/// there and in how many rows, counted in full, and what it was compared with.
proof fn lemma_english_mismatch_line(m: Messages, x: Mismatch)
    requires
        m.is_english(),
    ensures
        mismatch_sentence(m, x) == x.column@ + ": "@ + x.found@ + " in "@ + decimal(x.count as nat) + (if x.count
            == 1 {
            " row"@
        } else {
            " rows"@
        }) + ", "@ + x.against@ + " in the query; not matched"@,
{
    an_english_row_count_reads_n_rows(m, x.count as nat);
    let rows = rows_sentence(m, x.count as nat);
    let values = seq![("column"@, x.column@), ("found"@, x.found@), ("rows"@, rows), ("against"@, x.against@)];
    lemma_english_mismatch_template(m, values);
    lemma_mismatch_values(x.column@, x.found@, rows, x.against@);
}

/// The English template of a comparison's line, filled.
proof fn lemma_english_mismatch_template(m: Messages, values: Seq<(Seq<char>, Seq<char>)>)
    requires
        m.is_english(),
    ensures
        filled(m.mismatch_line@, values) == value_for("column"@, values) + ": "@ + value_for("found"@, values)
            + " in "@ + value_for("rows"@, values) + ", "@ + value_for("against"@, values)
            + " in the query; not matched"@,
{
    reveal_strlit("{column}: {found} in {rows}, {against} in the query; not matched");
    reveal_strlit(": ");
    reveal_strlit(" in ");
    reveal_strlit(", ");
    reveal_strlit(" in the query; not matched");
    reveal_strlit("column");
    reveal_strlit("found");
    reveal_strlit("rows");
    reveal_strlit("against");
    let empty = Seq::<char>::empty();
    let last = " in the query; not matched"@;
    let p4 = ", "@ + seq!['{'] + "against"@ + seq!['}'] + last;
    let p3 = " in "@ + seq!['{'] + "rows"@ + seq!['}'] + p4;
    let p2 = ": "@ + seq!['{'] + "found"@ + seq!['}'] + p3;
    assert(m.mismatch_line@ =~= empty + seq!['{'] + "column"@ + seq!['}'] + p2);
    assert(!empty.contains('{'));
    assert(!": "@.contains('{'));
    assert(!" in "@.contains('{'));
    assert(!", "@.contains('{'));
    assert(!last.contains('{'));
    assert(!"column"@.contains('}'));
    assert(!"found"@.contains('}'));
    assert(!"rows"@.contains('}'));
    assert(!"against"@.contains('}'));
    lemma_filled_step(empty, "column"@, p2, values);
    lemma_filled_step(": "@, "found"@, p3, values);
    lemma_filled_step(" in "@, "rows"@, p4, values);
    lemma_filled_step(", "@, "against"@, last, values);
    lemma_filled_plain(last, values);
    assert(filled(m.mismatch_line@, values) =~= value_for("column"@, values) + ": "@ + value_for("found"@, values)
        + " in "@ + value_for("rows"@, values) + ", "@ + value_for("against"@, values) + last);
}

/// Notices written in English read, line for line: each skipped file as
/// `skipped`, its path and why; each kind of comparison across types as its
/// path, what was found and in how many rows, counted in full, and what it
/// was compared with; and they are cut short exactly when the scan was.
pub proof fn english_notices_read_line_for_line(
    m: Messages,
    n: Notices,
    skipped: Seq<SkippedFile>,
    mismatches: Seq<Mismatch>,
    truncated: bool,
)
    requires
        m.is_english(),
        notices_say(m, n, skipped, mismatches, truncated),
    ensures
        n.skipped@.len() == skipped.len(),
        forall|i: int|
            0 <= i < skipped.len() ==> (#[trigger] n.skipped@[i])@ == "skipped "@ + skipped[i].path@ + ": "@
                + skipped[i].reason@,
        n.mismatches@.len() == mismatches.len(),
        forall|i: int|
            0 <= i < mismatches.len() ==> (#[trigger] n.mismatches@[i])@ == mismatches[i].column@ + ": "@
                + mismatches[i].found@ + " in "@ + decimal(mismatches[i].count as nat) + (if mismatches[i].count
                == 1 {
                " row"@
            } else {
                " rows"@
            }) + ", "@ + mismatches[i].against@ + " in the query; not matched"@,
        n.truncated == truncated,
{
    assert forall|i: int| 0 <= i < skipped.len() implies (#[trigger] n.skipped@[i])@ == "skipped "@
        + skipped[i].path@ + ": "@ + skipped[i].reason@ by {
        lemma_english_skipped_line(m, skipped[i]);
    }
    assert forall|i: int| 0 <= i < mismatches.len() implies (#[trigger] n.mismatches@[i])@
        == mismatches[i].column@ + ": "@ + mismatches[i].found@ + " in "@ + decimal(mismatches[i].count as nat)
        + (if mismatches[i].count == 1 {
        " row"@
    } else {
        " rows"@
    }) + ", "@ + mismatches[i].against@ + " in the query; not matched"@ by {
        lemma_english_mismatch_line(m, mismatches[i]);
    }
}

} // verus!

verus! {

/// A cell shows the value of the first cell of the row named `column`, the
/// whole of it and nothing else, and nothing where that cell has no value.
pub proof fn a_cell_shows_the_first_value_named_so_whole(cells: Seq<Cell>, column: Seq<char>, i: int)
    requires
        0 <= i < cells.len(),
        cells[i].column@ == column,
        forall|j: int| 0 <= j < i ==> (#[trigger] cells[j]).column@ != column,
    ensures
        cell_text(cells, column) == (match cells[i].value {
            Some(v) => v@,
            None => Seq::<char>::empty(),
        }),
    decreases i,
{
    if i > 0 {
        assert(cells[0].column@ != column);
        let rest = cells.drop_first();
        assert(rest[i - 1] == cells[i]);
        assert forall|j: int| 0 <= j < i - 1 implies (#[trigger] rest[j]).column@ != column by {
            assert(rest[j] == cells[j + 1]);
        }
        a_cell_shows_the_first_value_named_so_whole(rest, column, i - 1);
    }
}

/// Whether `x` is among `names` before the first `y`, and `y` is there.
pub open spec fn met_before(names: Seq<Seq<char>>, x: Seq<char>, y: Seq<char>) -> bool {
    exists|b: int|
        #![trigger names[b]]
        0 <= b < names.len() && names[b] == y && !names.take(b).contains(y) && names.take(b).contains(x)
}

/// Of two names first seen, the earlier was already among the names by the
/// place where the later first appears.
proof fn lemma_first_seen_order_at(names: Seq<Seq<char>>, i: int, j: int)
    requires
        0 <= i < j < first_seen(names).len(),
    ensures
        met_before(names, first_seen(names)[i], first_seen(names)[j]),
    decreases names.len(),
{
    let init = names.drop_last();
    let last = names.last();
    lemma_first_seen(init);
    let before = first_seen(init);
    if j < before.len() {
        assert(first_seen(names)[i] == before[i] && first_seen(names)[j] == before[j]);
        lemma_first_seen_order_at(init, i, j);
        let b = choose|b: int|
            #![trigger init[b]]
            0 <= b < init.len() && init[b] == before[j] && !init.take(b).contains(before[j]) && init.take(
                b,
            ).contains(before[i]);
        assert(names.take(b) =~= init.take(b));
        assert(names[b] == init[b]);
    } else {
        assert(!before.contains(last));
        assert(first_seen(names) == before.push(last));
        assert(first_seen(names)[j] == last);
        assert(first_seen(names)[i] == before[i]);
        let b = names.len() - 1;
        assert(names.take(b) =~= init);
        assert(before.contains(before[i]));
        assert(init.contains(before[i]));
        assert(names[b] == last);
    }
}

/// The columns of `select *` are in the order first met, row by row and
/// cell by cell: of any two, the earlier was already among the rows' column
/// names by the place where the later first appears. With every column
/// there once and no other (see [`every_column_is_in_the_union_once`]),
/// this fixes the header.
pub proof fn the_union_is_in_the_order_first_seen(rows: Seq<Row>)
    ensures
        forall|i: int, j: int|
            #![trigger union_of(rows)[i], union_of(rows)[j]]
            0 <= i < j < union_of(rows).len() ==> met_before(all_columns(rows), union_of(rows)[i], union_of(rows)[j]),
{
    assert forall|i: int, j: int|
        #![trigger union_of(rows)[i], union_of(rows)[j]]
        0 <= i < j < union_of(rows).len() implies met_before(
            all_columns(rows),
            union_of(rows)[i],
            union_of(rows)[j],
        ) by {
        lemma_first_seen_order_at(all_columns(rows), i, j);
    }
}

/// The names first seen among some names stay first, in their order, when
/// more names follow.
proof fn lemma_first_seen_extends(names: Seq<Seq<char>>, more: Seq<Seq<char>>)
    ensures
        first_seen(names).len() <= first_seen(names + more).len(),
        first_seen(names + more).take(first_seen(names).len() as int) == first_seen(names),
    decreases more.len(),
{
    if more.len() == 0 {
        assert(names + more =~= names);
        assert(first_seen(names).take(first_seen(names).len() as int) =~= first_seen(names));
    } else {
        let init = more.drop_last();
        lemma_first_seen_extends(names, init);
        assert((names + more).drop_last() =~= names + init);
        let prev = first_seen(names + init);
        let k = first_seen(names).len() as int;
        if !prev.contains((names + more).last()) {
            assert(prev.push((names + more).last()).take(k) =~= prev.take(k));
        }
    }
}

/// A drain never moves a column of `select *`: the columns before more
/// rows arrived are the first columns after, in the same order, and only
/// new names are added behind them.
pub proof fn the_union_only_grows_at_the_end(rows: Seq<Row>, more: Seq<Row>)
    ensures
        union_of(rows).len() <= union_of(rows + more).len(),
        union_of(rows + more).take(union_of(rows).len() as int) == union_of(rows),
{
    lemma_all_columns_append(rows, more);
    lemma_first_seen_extends(all_columns(rows), all_columns(more));
}

proof fn lemma_all_columns_append(rows: Seq<Row>, more: Seq<Row>)
    ensures
        all_columns(rows + more) == all_columns(rows) + all_columns(more),
    decreases more.len(),
{
    if more.len() == 0 {
        assert(rows + more =~= rows);
        assert(all_columns(more) =~= Seq::<Seq<char>>::empty());
        assert(all_columns(rows) + all_columns(more) =~= all_columns(rows));
    } else {
        let init = more.drop_last();
        lemma_all_columns_append(rows, init);
        assert((rows + more).drop_last() =~= rows + init);
        assert((rows + more).last() == more.last());
        assert(all_columns(rows) + all_columns(init) + row_columns(more.last()) =~= all_columns(rows) + (
        all_columns(init) + row_columns(more.last())));
    }
}

} // verus!
