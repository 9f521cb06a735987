use filebase::feed::{Feed, BATCH};
use filebase::query::{notices_of, Message, Row, MOST_ROWS};
use filebase::Run;

#[test]
fn a_full_batch_is_sent_and_a_partial_one_waits() {
    let mut feed = Feed::new();
    for i in 0..BATCH - 1 {
        let (out, stop) = feed.take(i, false);
        assert!(out.is_none());
        assert!(!stop);
    }
    let (out, stop) = feed.take(BATCH - 1, false);
    assert_eq!(out, Some((0..BATCH).collect::<Vec<_>>()));
    assert!(!stop);
    let (out, _) = feed.take(1000, false);
    assert!(out.is_none());
    assert_eq!(feed.finish(), (Some(vec![1000]), false));
}

#[test]
fn a_batch_that_waited_goes_with_the_next_row() {
    let mut feed = Feed::new();
    assert_eq!(feed.take("a", false), (None, false));
    assert_eq!(feed.take("b", true), (Some(vec!["a", "b"]), false));
    assert_eq!(feed.finish(), (None, false));
}

#[test]
fn the_ceiling_stops_the_feed_at_exactly_most_rows() {
    let mut feed = Feed::new();
    let mut sent = Vec::new();
    let mut taken = 0;
    loop {
        let (out, stop) = feed.take(taken, taken % 7 == 3);
        taken += 1;
        if let Some(batch) = out {
            sent.extend(batch);
        }
        if stop {
            break;
        }
        assert!(taken < MOST_ROWS + 1);
    }
    assert_eq!(taken, MOST_ROWS);
    let (rest, truncated) = feed.finish();
    assert!(truncated);
    sent.extend(rest.unwrap_or_default());
    assert_eq!(sent, (0..MOST_ROWS).collect::<Vec<_>>());
}

fn scanned(i: usize) -> Row {
    Row { path: format!("{i}.slpc"), cells: Vec::new() }
}

/// Feed `n` rows to a feed the way the scanning thread does, send what it
/// gives out, and drain it into a run a few messages a frame.
fn scan_and_drain(n: usize) -> Run {
    let mut feed = Feed::new();
    let mut sent = Vec::new();
    for i in 0..n {
        let (out, stop) = feed.take(scanned(i), i % 5 == 0);
        if let Some(batch) = out {
            sent.push(Message::Rows(batch));
        }
        if stop {
            break;
        }
    }
    let (rest, truncated) = feed.finish();
    if let Some(batch) = rest {
        sent.push(Message::Rows(batch));
    }
    sent.push(Message::Done(notices_of(&Vec::new(), &Vec::new(), truncated)));
    let mut run = Run::new(None);
    let mut frame = Vec::new();
    for message in sent {
        frame.push(message);
        if frame.len() == 3 {
            run.drain(std::mem::take(&mut frame), false);
        }
    }
    run.drain(frame, false);
    run
}

#[test]
fn a_scan_drained_to_the_end_keeps_the_first_rows_up_to_the_ceiling() {
    for n in [0, 1, BATCH, 130, MOST_ROWS - 1, MOST_ROWS, MOST_ROWS + 37] {
        let run = scan_and_drain(n);
        assert!(!run.is_running());
        let kept = n.min(MOST_ROWS);
        let paths: Vec<&str> = run.rows().iter().map(|r| r.path.as_str()).collect();
        let expected: Vec<String> = (0..kept).map(|i| format!("{i}.slpc")).collect();
        assert_eq!(paths, expected.iter().map(String::as_str).collect::<Vec<_>>());
        assert_eq!(run.notices().unwrap().truncated, n >= MOST_ROWS);
    }
}
