use filebase::messages::Messages;
use filebase::query::{
    cell, column_union, notices_of, notices_of_in, over_ceiling, Cell, Message, Mismatch, Notices,
    Row, SkippedFile, MOST_ROWS,
};
use filebase::{Run, Update};

fn row(cells: &[(&str, Option<&str>)]) -> Row {
    Row {
        path: "a.slpc".to_owned(),
        cells: cells
            .iter()
            .map(|(column, value)| Cell {
                column: (*column).to_owned(),
                value: value.map(|v| v.to_owned()),
            })
            .collect(),
    }
}

fn at(path: &str, cells: &[(&str, Option<&str>)]) -> Row {
    Row {
        path: path.to_owned(),
        ..row(cells)
    }
}

#[test]
fn the_ceiling_stops_a_count_that_overshoots_it() {
    assert!(over_ceiling(MOST_ROWS + 5));
    assert!(over_ceiling(MOST_ROWS));
    assert!(!over_ceiling(MOST_ROWS - 1));
}

#[test]
fn a_column_the_row_does_not_have_is_blank() {
    let r = row(&[("title", Some("MSA")), ("owner", None)]);
    assert_eq!(cell(&r, "title"), "MSA");
    assert_eq!(cell(&r, "owner"), "");
    assert_eq!(cell(&r, "never projected"), "");
}

#[test]
fn a_truncated_run_is_not_an_empty_set_of_notices() {
    let quiet = Notices::default();
    assert!(quiet.is_empty());
    let cut = Notices {
        truncated: true,
        ..Notices::default()
    };
    assert!(!cut.is_empty());
    assert_eq!(cut.lines(), 0);
}

#[test]
fn notices_count_their_lines() {
    let n = Notices {
        skipped: vec!["a".to_owned(), "b".to_owned()],
        mismatches: vec!["c".to_owned()],
        truncated: false,
    };
    assert!(!n.is_empty());
    assert_eq!(n.lines(), 3);
}

#[test]
fn select_star_takes_the_union_over_the_rows_in_first_seen_order() {
    let rows = vec![
        row(&[("@path", Some("a")), ("title", Some("MSA"))]),
        row(&[("@path", Some("b")), ("governance.owner", Some("Kim")), ("title", None)]),
        row(&[("tags", Some("[\"legal\"]")), ("@path", Some("c"))]),
    ];
    assert_eq!(
        column_union(&rows),
        vec!["@path", "title", "governance.owner", "tags"]
    );
    assert!(column_union(&Vec::new()).is_empty());
}

fn notices_seen() -> Notices {
    notices_of(
        &vec![SkippedFile {
            path: "2026/broken.slpc".to_owned(),
            reason: "not a container".to_owned(),
        }],
        &vec![Mismatch {
            column: "pages".to_owned(),
            found: "string".to_owned(),
            against: "integer".to_owned(),
            count: 1,
        }],
        false,
    )
}

#[test]
fn what_the_scan_noticed_reads_as_sentences() {
    let n = notices_seen();
    assert_eq!(n.skipped, vec!["skipped 2026/broken.slpc: not a container"]);
    assert_eq!(
        n.mismatches,
        vec!["pages: string in 1 row, integer in the query; not matched"]
    );
    assert!(!n.truncated);
    let many = notices_of(
        &vec![],
        &vec![Mismatch {
            column: "when".to_owned(),
            found: "local date".to_owned(),
            against: "string".to_owned(),
            count: 7,
        }],
        true,
    );
    assert_eq!(
        many.mismatches,
        vec!["when: local date in 7 rows, string in the query; not matched"]
    );
    assert!(many.truncated);
}

#[test]
fn a_name_that_spells_a_placeholder_is_not_filled_again() {
    let n = notices_of(
        &vec![SkippedFile {
            path: "{reason}.slpc".to_owned(),
            reason: "unreadable".to_owned(),
        }],
        &vec![],
        false,
    );
    assert_eq!(n.skipped, vec!["skipped {reason}.slpc: unreadable"]);
}

#[test]
fn notices_in_another_language_use_its_templates() {
    let mut m = Messages::english();
    m.skipped_line = "übersprungen {path}: {reason}".to_owned();
    m.row_one = "{n} Zeile".to_owned();
    m.mismatch_line = "{column}: {found} in {rows} gegen {against} {unknown}".to_owned();
    let n = notices_of_in(
        &m,
        &vec![SkippedFile {
            path: "x.slpc".to_owned(),
            reason: "kaputt".to_owned(),
        }],
        &vec![Mismatch {
            column: "pages".to_owned(),
            found: "string".to_owned(),
            against: "integer".to_owned(),
            count: 1,
        }],
        false,
    );
    assert_eq!(n.skipped, vec!["übersprungen x.slpc: kaputt"]);
    assert_eq!(n.mismatches, vec!["pages: string in 1 Zeile gegen integer {unknown}"]);
}

#[test]
fn a_run_that_finishes_says_what_it_noticed() {
    let mut run = Run::new(Some(vec!["@path".to_owned()]));
    assert!(run.is_running());
    assert_eq!(run.status(), "0 rows so far…");
    let update = run.drain(
        vec![Message::Rows(vec![
            at("a.slpc", &[("@path", Some("a.slpc"))]),
            at("b.slpc", &[("@path", Some("b.slpc"))]),
        ])],
        false,
    );
    assert_eq!(update, Update::Rows);
    assert_eq!(run.status(), "2 rows so far…");
    assert_eq!(run.drain(vec![], false), Update::Nothing);
    let update = run.drain(vec![Message::Done(notices_seen())], false);
    assert_eq!(update, Update::Finished);
    assert!(!run.is_running());
    assert_eq!(run.status(), "2 rows · 1 skipped · 1 comparison across types");
    assert_eq!(run.columns(), ["@path".to_owned()]);
    assert_eq!(run.notices().map(|n| n.lines()), Some(2));
    // Finished is final: nothing more is taken.
    assert_eq!(
        run.drain(vec![Message::Rows(vec![at("c.slpc", &[])])], true),
        Update::Nothing
    );
    assert_eq!(run.rows().len(), 2);
}

#[test]
fn a_limit_is_not_a_ceiling() {
    let mut run = Run::new(Some(vec!["@path".to_owned()]));
    let update = run.drain(
        vec![
            Message::Rows(vec![at("a.slpc", &[]), at("b.slpc", &[])]),
            Message::Done(Notices::default()),
        ],
        false,
    );
    assert_eq!(update, Update::Finished);
    assert!(!run.notices().unwrap().truncated);
    assert!(run.status().starts_with("2 rows"), "{}", run.status());
    assert_eq!(run.status(), "2 rows");
}

#[test]
fn a_truncated_run_says_where_it_stopped() {
    let mut run = Run::new(None);
    let cut = Notices {
        truncated: true,
        ..Notices::default()
    };
    run.drain(vec![Message::Rows(vec![at("a.slpc", &[])]), Message::Done(cut)], false);
    assert_eq!(
        run.status(),
        "1 row · stopped at 5000; narrow the query or add a limit"
    );
}

#[test]
fn select_star_columns_grow_as_rows_arrive() {
    let mut run = Run::new(None);
    assert!(run.columns().is_empty());
    run.drain(
        vec![Message::Rows(vec![row(&[("@path", Some("a")), ("title", Some("MSA"))])])],
        false,
    );
    assert_eq!(run.columns(), ["@path".to_owned(), "title".to_owned()]);
    run.drain(
        vec![
            Message::Rows(vec![row(&[("@path", Some("b")), ("tags", Some("[]"))])]),
            Message::Rows(vec![row(&[("governance.owner", Some("Lee"))])]),
        ],
        false,
    );
    assert_eq!(
        run.columns(),
        ["@path".to_owned(), "title".to_owned(), "tags".to_owned(), "governance.owner".to_owned()]
    );
    assert_eq!(run.rows().len(), 3);
}

#[test]
fn a_scan_that_went_away_finishes_with_what_it_had() {
    let mut run = Run::new(None);
    let update = run.drain(vec![Message::Rows(vec![at("a.slpc", &[])])], true);
    assert_eq!(update, Update::Finished);
    assert!(!run.is_running());
    assert_eq!(run.rows().len(), 1);
    assert!(run.notices().unwrap().is_empty());
    assert_eq!(run.status(), "1 row");
}

#[test]
fn messages_after_done_are_not_taken() {
    let mut run = Run::new(None);
    let update = run.drain(
        vec![
            Message::Rows(vec![at("a.slpc", &[])]),
            Message::Done(Notices::default()),
            Message::Rows(vec![at("b.slpc", &[])]),
        ],
        false,
    );
    assert_eq!(update, Update::Finished);
    assert_eq!(run.rows().len(), 1);
    assert_eq!(run.rows()[0].path, "a.slpc");
}
