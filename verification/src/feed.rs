//! The scanning side of a run: rows held until a batch is worth sending, and
//! the count that stops the scan at the ceiling.
//!
//! Rows arrive one at a time from the scan and cross to the window in batches,
//! because a repaint per row is a repaint per file opened. A batch goes when
//! it is full, or when a row arrives after the last batch has waited long
//! enough, so that a slow scan still shows its first row when it finds it.

use vstd::prelude::*;

use crate::query::{drained, first_done, over_ceiling, rows_in, Message, Notices, Row, RunView, Update, MOST_ROWS};

verus! {

/// How many rows travel in one message.
pub const BATCH: usize = 64;

/// Rows held back, the count already sent, and whether the ceiling was reached.
pub struct Feed<T> {
    batch: Vec<T>,
    sent: usize,
    truncated: bool,
}

/// A feed as the contracts speak of it.
pub struct FeedView<T> {
    /// The rows taken and not yet sent, in scan order.
    pub batch: Seq<T>,
    /// How many rows have been sent.
    pub sent: nat,
    /// Whether the ceiling stopped the scan.
    pub truncated: bool,
}

impl<T> View for Feed<T> {
    type V = FeedView<T>;

    closed spec fn view(&self) -> FeedView<T> {
        FeedView { batch: self.batch@, sent: self.sent as nat, truncated: self.truncated }
    }
}

/// What every feed keeps: the rows taken, sent and held together, never more
/// than [`MOST_ROWS`], a batch held back never full, and the run truncated
/// exactly when the ceiling is reached.
pub open spec fn within_ceiling<T>(f: FeedView<T>) -> bool {
    &&& f.sent + f.batch.len() <= MOST_ROWS
    &&& f.batch.len() < BATCH
    &&& f.truncated == (f.sent + f.batch.len() == MOST_ROWS)
}

/// Whether taking `row`, with the last batch having `waited` long enough,
/// took `pre` to `post` and sent `out`.
pub open spec fn took<T>(pre: FeedView<T>, row: T, waited: bool, post: FeedView<T>, out: Option<Seq<T>>) -> bool {
    let held = pre.batch.push(row);
    &&& if held.len() >= BATCH || waited {
        &&& out == Some(held)
        &&& post.batch.len() == 0
        &&& post.sent == pre.sent + held.len()
    } else {
        &&& out is None
        &&& post.batch == held
        &&& post.sent == pre.sent
    }
    &&& post.truncated == (post.sent + post.batch.len() >= MOST_ROWS)
}

impl<T> Feed<T> {
    /// A feed that has taken nothing.
    pub fn new() -> (f: Feed<T>)
        ensures
            f@.batch.len() == 0,
            f@.sent == 0,
            !f@.truncated,
            within_ceiling(f@),
    {
        Feed { batch: Vec::new(), sent: 0, truncated: false }
    }

    /// Take one row from the scan.
    ///
    /// Answers the batch to send, where one is due, and whether the scan
    /// stops here: the rows taken are counted against the ceiling, sent and
    /// waiting both, so the ceiling is the number of rows the window will
    /// hold. A feed that has stopped takes nothing more.
    pub fn take(&mut self, row: T, waited: bool) -> (step: (Option<Vec<T>>, bool))
        requires
            within_ceiling(old(self)@),
            !old(self)@.truncated,
        ensures
            within_ceiling(final(self)@),
            took(old(self)@, row, waited, final(self)@, match step.0 {
                Some(b) => Some(b@),
                None => None::<Seq<T>>,
            }),
            step.1 == final(self)@.truncated,
    {
        self.batch.push(row);
        let mut out: Option<Vec<T>> = None;
        if self.batch.len() >= BATCH || waited {
            let mut full: Vec<T> = Vec::new();
            std::mem::swap(&mut full, &mut self.batch);
            self.sent = self.sent + full.len();
            out = Some(full);
        }
        if over_ceiling(self.sent + self.batch.len()) {
            self.truncated = true;
        }
        (out, self.truncated)
    }

    /// The rows still held, where there are any, and whether the ceiling
    /// stopped the scan.
    pub fn finish(self) -> (end: (Option<Vec<T>>, bool))
        ensures
            match end.0 {
                Some(b) => b@ == self@.batch && b@.len() > 0,
                None => self@.batch.len() == 0,
            },
            end.1 == self@.truncated,
    {
        let truncated = self.truncated;
        if self.batch.len() == 0 {
            (None, truncated)
        } else {
            (Some(self.batch), truncated)
        }
    }
}

} // verus!

verus! {

/// No row is lost, repeated or moved: the rows sent so far, then the rows
/// held, are every row taken, in scan order, and the count of rows sent is
/// the feed's own.
pub proof fn every_row_taken_is_sent_or_held<T>(
    pre: FeedView<T>,
    row: T,
    waited: bool,
    post: FeedView<T>,
    out: Option<Seq<T>>,
    sent_rows: Seq<T>,
    taken: Seq<T>,
)
    requires
        took(pre, row, waited, post, out),
        sent_rows + pre.batch == taken,
        sent_rows.len() == pre.sent,
    ensures
        ({
            let now_sent = match out {
                Some(b) => sent_rows + b,
                None => sent_rows,
            };
            &&& now_sent + post.batch == taken.push(row)
            &&& now_sent.len() == post.sent
        }),
{
    match out {
        Some(b) => {
            assert(sent_rows + b + post.batch =~= taken.push(row));
        },
        None => {
            assert(sent_rows + post.batch =~= taken.push(row));
        },
    }
}

} // verus!

verus! {

/// Every row the batches carry, in the order they were sent.
pub open spec fn sent_rows<T>(outs: Seq<Option<Seq<T>>>) -> Seq<T>
    decreases outs.len(),
{
    if outs.len() == 0 {
        seq![]
    } else {
        sent_rows(outs.drop_last()) + match outs.last() {
            Some(b) => b,
            None => seq![],
        }
    }
}

/// A scan fed to a feed row by row, from an empty one, for as long as the
/// feed has not stopped: after `k` rows, what was sent and then what is held
/// is exactly the first `k` rows, never more than [`MOST_ROWS`] of them, and
/// the feed has stopped exactly when there are [`MOST_ROWS`]. So a scan of
/// `N` rows leaves the window the first `min(N, MOST_ROWS)` of them, in
/// order, and says it was cut short exactly when `N` reached the ceiling.
pub proof fn a_scan_fed_row_by_row<T>(
    feeds: Seq<FeedView<T>>,
    rows: Seq<T>,
    waits: Seq<bool>,
    outs: Seq<Option<Seq<T>>>,
)
    requires
        feeds.len() == outs.len() + 1,
        rows.len() == outs.len(),
        waits.len() == outs.len(),
        feeds[0].batch.len() == 0,
        feeds[0].sent == 0,
        !feeds[0].truncated,
        forall|i: int|
            0 <= i < outs.len() ==> !(#[trigger] feeds[i]).truncated && took(
                feeds[i],
                rows[i],
                waits[i],
                feeds[i + 1],
                outs[i],
            ),
    ensures
        sent_rows(outs) + feeds.last().batch == rows,
        sent_rows(outs).len() == feeds.last().sent,
        within_ceiling(feeds.last()),
        rows.len() <= MOST_ROWS,
        feeds.last().truncated <==> rows.len() == MOST_ROWS,
    decreases outs.len(),
{
    let k = outs.len() as int;
    if k == 0 {
        assert(sent_rows(outs) =~= Seq::<T>::empty());
        assert(rows =~= Seq::<T>::empty());
        assert(feeds.last() == feeds[0]);
    } else {
        let fs = feeds.drop_last();
        assert forall|i: int|
            0 <= i < outs.drop_last().len() implies !(#[trigger] fs[i]).truncated && took(
                fs[i],
                rows.drop_last()[i],
                waits.drop_last()[i],
                fs[i + 1],
                outs.drop_last()[i],
            ) by {
            assert(fs[i] == feeds[i] && fs[i + 1] == feeds[i + 1]);
            assert(!feeds[i].truncated && took(feeds[i], rows[i], waits[i], feeds[i + 1], outs[i]));
        }
        a_scan_fed_row_by_row(fs, rows.drop_last(), waits.drop_last(), outs.drop_last());
        let pre = feeds[k - 1];
        assert(fs.last() == pre);
        assert(!feeds[k - 1].truncated && took(feeds[k - 1], rows[k - 1], waits[k - 1], feeds[k], outs[k - 1]));
        every_row_taken_is_sent_or_held(
            pre,
            rows[k - 1],
            waits[k - 1],
            feeds[k],
            outs[k - 1],
            sent_rows(outs.drop_last()),
            rows.drop_last(),
        );
        assert(rows.drop_last().push(rows[k - 1]) =~= rows);
        assert(feeds.last() == feeds[k]);
        match outs[k - 1] {
            Some(b) => {
                assert(sent_rows(outs) == sent_rows(outs.drop_last()) + b);
            },
            None => {
                assert(sent_rows(outs) =~= sent_rows(outs.drop_last()));
            },
        }
    }
}

} // verus!

verus! {

/// Every message that arrived over a run's frames, in the order it arrived.
pub open spec fn all_arrived(arrivals: Seq<Seq<Message>>) -> Seq<Message>
    decreases arrivals.len(),
{
    if arrivals.len() == 0 {
        seq![]
    } else {
        all_arrived(arrivals.drop_last()) + arrivals.last()
    }
}

proof fn lemma_rows_in_append(a: Seq<Message>, b: Seq<Message>)
    ensures
        rows_in(a + b) == rows_in(a) + rows_in(b),
    decreases b.len(),
{
    if b.len() == 0 {
        assert(a + b =~= a);
        assert(rows_in(a) + rows_in(b) =~= rows_in(a));
    } else {
        let init = b.drop_last();
        lemma_rows_in_append(a, init);
        assert((a + b).drop_last() =~= a + init);
        assert((a + b).last() == b.last());
        let tail = match b.last() {
            Message::Rows(batch) => batch@,
            Message::Done(_) => Seq::<Row>::empty(),
        };
        assert(rows_in(a + b) == rows_in(a + init) + tail);
        assert(rows_in(b) == rows_in(init) + tail);
        assert(rows_in(a) + rows_in(init) + tail =~= rows_in(a) + (rows_in(init) + tail));
    }
}

proof fn lemma_no_done(s: Seq<Message>)
    requires
        forall|i: int| 0 <= i < s.len() ==> #[trigger] s[i] is Rows,
    ensures
        first_done(s) == s.len(),
    decreases s.len(),
{
    if s.len() > 0 {
        let init = s.drop_last();
        assert forall|i: int| 0 <= i < init.len() implies #[trigger] init[i] is Rows by {
            assert(init[i] == s[i]);
        }
        lemma_no_done(init);
        assert(s.last() == s[s.len() - 1]);
    }
}

proof fn lemma_done_last(s: Seq<Message>)
    requires
        s.len() > 0,
        forall|i: int| 0 <= i < s.len() - 1 ==> #[trigger] s[i] is Rows,
        s.last() is Done,
    ensures
        first_done(s) == s.len() - 1,
{
    let init = s.drop_last();
    assert forall|i: int| 0 <= i < init.len() implies #[trigger] init[i] is Rows by {
        assert(init[i] == s[i]);
    }
    lemma_no_done(init);
}

proof fn lemma_arrived_prefix(arrivals: Seq<Seq<Message>>, k: int)
    requires
        0 <= k <= arrivals.len(),
    ensures
        all_arrived(arrivals.take(k)).len() <= all_arrived(arrivals).len(),
        all_arrived(arrivals).take(all_arrived(arrivals.take(k)).len() as int) == all_arrived(arrivals.take(k)),
    decreases arrivals.len(),
{
    let whole = all_arrived(arrivals);
    if k == arrivals.len() {
        assert(arrivals.take(k) =~= arrivals);
        assert(whole.take(whole.len() as int) =~= whole);
    } else {
        let init = arrivals.drop_last();
        lemma_arrived_prefix(init, k);
        assert(init.take(k) =~= arrivals.take(k));
        let part = all_arrived(arrivals.take(k));
        assert(whole == all_arrived(init) + arrivals.last());
        assert(whole.take(part.len() as int) =~= all_arrived(init).take(part.len() as int));
    }
}

proof fn lemma_arrived_step(arrivals: Seq<Seq<Message>>, k: int)
    requires
        0 <= k < arrivals.len(),
    ensures
        all_arrived(arrivals.take(k + 1)) == all_arrived(arrivals.take(k)) + arrivals[k],
{
    assert(arrivals.take(k + 1).drop_last() =~= arrivals.take(k));
    assert(arrivals.take(k + 1).last() == arrivals[k]);
}

/// Whether `runs` are what the window holds over the frames of one run, each
/// the one before it drained of what arrived that frame, the scan never
/// having gone away without saying it was done.
pub open spec fn frames(runs: Seq<RunView>, arrivals: Seq<Seq<Message>>, updates: Seq<Update>) -> bool {
    &&& runs.len() == arrivals.len() + 1
    &&& updates.len() == arrivals.len()
    &&& forall|i: int|
        0 <= i < arrivals.len() ==> drained(#[trigger] runs[i], arrivals[i], false, runs[i + 1], updates[i])
}

proof fn lemma_frames_upto(
    sent: Seq<Message>,
    n: Notices,
    runs: Seq<RunView>,
    arrivals: Seq<Seq<Message>>,
    updates: Seq<Update>,
    k: int,
)
    requires
        frames(runs, arrivals, updates),
        runs[0].rows.len() == 0,
        runs[0].running,
        forall|i: int| 0 <= i < sent.len() ==> #[trigger] sent[i] is Rows,
        all_arrived(arrivals) == sent.push(Message::Done(n)),
        0 <= k <= arrivals.len(),
    ensures
        ({
            let got = all_arrived(arrivals.take(k));
            &&& got.len() <= sent.len() ==> runs[k].running && runs[k].rows == rows_in(got)
            &&& got.len() > sent.len() ==> !runs[k].running && runs[k].rows == rows_in(sent) && runs[k].notices
                == Some(n)
        }),
    decreases k,
{
    let whole = sent.push(Message::Done(n));
    if k == 0 {
        assert(arrivals.take(0) =~= Seq::<Seq<Message>>::empty());
        assert(rows_in(Seq::<Message>::empty()) =~= Seq::<Row>::empty());
    } else {
        let j = k - 1;
        lemma_frames_upto(sent, n, runs, arrivals, updates, j);
        lemma_arrived_step(arrivals, j);
        lemma_arrived_prefix(arrivals, j);
        lemma_arrived_prefix(arrivals, k);
        let before = all_arrived(arrivals.take(j));
        let after = all_arrived(arrivals.take(k));
        let here = arrivals[j];
        assert(drained(runs[j], here, false, runs[k], updates[j]));
        assert(after == before + here);
        assert(after.len() <= whole.len());
        assert forall|i: int| 0 <= i < here.len() implies #[trigger] here[i] == whole[before.len() + i] by {
            assert(after[before.len() + i] == here[i]);
            assert(whole.take(after.len() as int)[before.len() + i] == whole[before.len() + i]);
        }
        if before.len() <= sent.len() {
            if after.len() <= sent.len() {
                assert forall|i: int| 0 <= i < here.len() implies #[trigger] here[i] is Rows by {
                    assert(here[i] == whole[before.len() + i]);
                    assert(whole[before.len() + i] == sent[before.len() + i]);
                }
                lemma_no_done(here);
                assert(here.take(here.len() as int) =~= here);
                lemma_rows_in_append(before, here);
            } else {
                let t = here.len() - 1;
                assert(after.len() == sent.len() + 1);
                assert forall|i: int| 0 <= i < here.len() - 1 implies #[trigger] here[i] is Rows by {
                    assert(here[i] == whole[before.len() + i]);
                    assert(whole[before.len() + i] == sent[before.len() + i]);
                }
                assert(here.last() == whole[sent.len() as int]);
                lemma_done_last(here);
                assert(before + here.take(t) =~= sent) by {
                    assert forall|i: int| 0 <= i < sent.len() implies (before + here.take(t))[i] == sent[i] by {
                        assert(whole.take(after.len() as int)[i] == whole[i]);
                        assert(after[i] == whole[i]);
                        assert(whole[i] == sent[i]);
                    }
                }
                lemma_rows_in_append(before, here.take(t));
                assert(here[t] == whole[sent.len() as int]);
            }
        } else {
            assert(before.len() == whole.len());
            assert(here.len() == 0);
        }
    }
}

/// A scan drained to the end: the window is left the first
/// `min(N, MOST_ROWS)` rows of a scan of `N`, in scan order, and the
/// notices the scan sent, which say it was cut short exactly when `N`
/// reached [`MOST_ROWS`].
///
/// The scanning side takes the scan's rows one at a time into a feed, from
/// an empty one, until the scan runs out or the feed says stop. What crosses
/// to the window is every batch the feed gave out and then what it still
/// held, in that order, and last `Done` with notices that carry the feed's
/// `truncated`. The window starts empty and running, and drains whatever has
/// arrived at each frame, however the messages fall into frames, the scan
/// not having gone away without saying it was done.
pub proof fn a_scan_drained_to_the_end(
    scan: Seq<Row>,
    feeds: Seq<FeedView<Row>>,
    waits: Seq<bool>,
    outs: Seq<Option<Seq<Row>>>,
    sent: Seq<Message>,
    n: Notices,
    runs: Seq<RunView>,
    arrivals: Seq<Seq<Message>>,
    updates: Seq<Update>,
)
    requires
        feeds.len() == outs.len() + 1,
        waits.len() == outs.len(),
        outs.len() <= scan.len(),
        feeds[0].batch.len() == 0,
        feeds[0].sent == 0,
        !feeds[0].truncated,
        forall|i: int|
            0 <= i < outs.len() ==> !(#[trigger] feeds[i]).truncated && took(
                feeds[i],
                scan[i],
                waits[i],
                feeds[i + 1],
                outs[i],
            ),
        outs.len() == scan.len() || feeds.last().truncated,
        forall|i: int| 0 <= i < sent.len() ==> #[trigger] sent[i] is Rows,
        rows_in(sent) == sent_rows(outs) + feeds.last().batch,
        n.truncated == feeds.last().truncated,
        all_arrived(arrivals) == sent.push(Message::Done(n)),
        frames(runs, arrivals, updates),
        runs[0].rows.len() == 0,
        runs[0].running,
    ensures
        !runs.last().running,
        runs.last().rows == scan.take(if scan.len() < MOST_ROWS { scan.len() as int } else { MOST_ROWS as int }),
        runs.last().notices == Some(n),
        n.truncated <==> scan.len() >= MOST_ROWS,
{
    let k = outs.len() as int;
    let taken = scan.take(k);
    assert forall|i: int|
        0 <= i < outs.len() implies !(#[trigger] feeds[i]).truncated && took(
            feeds[i],
            taken[i],
            waits[i],
            feeds[i + 1],
            outs[i],
        ) by {
        assert(taken[i] == scan[i]);
    }
    a_scan_fed_row_by_row(feeds, taken, waits, outs);
    lemma_frames_upto(sent, n, runs, arrivals, updates, arrivals.len() as int);
    assert(arrivals.take(arrivals.len() as int) =~= arrivals);
    assert(runs.last() == runs[arrivals.len() as int]);
    if k < scan.len() {
        assert(feeds.last().truncated);
    }
}

} // verus!
