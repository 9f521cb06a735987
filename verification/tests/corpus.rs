//! The engine over a real directory of real containers: pack them, scan them
//! the way the window's worker does, drain the run the way a frame does, and
//! open what a click would open.

use std::io::Write;
use std::path::{Path, PathBuf};

use filebase::detail::{Contents, Detail, Outcome};
use filebase::feed::Feed;
use filebase::query::{self, notices_of, Cell, Message, Mismatch, Row, SkippedFile};
use filebase::{Run, Update};

/// A file named exactly `name` in `dir`, left in place when the handle drops.
fn made(dir: &Path, name: &str) -> tempfile::NamedTempFile {
    tempfile::Builder::new()
        .prefix(name)
        .rand_bytes(0)
        .keep(true)
        .tempfile_in(dir)
        .unwrap()
}

/// The directory `name` in `dir`, made where it is not there yet.
fn subdir(dir: &Path, name: &str) -> PathBuf {
    let path = dir.join(name);
    if path.is_dir() {
        return path;
    }
    tempfile::Builder::new()
        .prefix(name)
        .rand_bytes(0)
        .keep(true)
        .tempdir_in(dir)
        .unwrap()
        .keep()
}

/// Pack one container under `dir`, with `metadata` as its flyleaf.
fn pack(dir: &Path, name: &str, metadata: &str) {
    let doc: slpc::toml_edit::DocumentMut = metadata.parse().unwrap();
    let content = format!("the bytes of {name}");
    let out = made(dir, &format!("{name}.slpc"));
    slpc::pack_reader(name, content.as_bytes(), doc, out).unwrap();
}

/// A tree with something of every shape the window has to survive.
fn corpus() -> tempfile::TempDir {
    let root = tempfile::tempdir().unwrap();
    let dir = root.path();
    pack(
        dir,
        "msa.pdf",
        r#"title = "Master services agreement"
status = "draft"
pages = 42
tags = ["legal", "draft"]
[governance]
owner = "Kim"
"#,
    );
    let year = subdir(dir, "2026");
    let quarter = subdir(&year, "q3");
    pack(
        &year,
        "renewal.docx",
        r#"title = "Renewal, 2026"
status = "draft"
pages = 6
[governance]
owner = "Lee"
"#,
    );
    pack(
        &quarter,
        "q3.xlsx",
        r#"title = "Q3 report"
status = "signed"
pages = 12
"#,
    );
    pack(
        &quarter,
        "notes.txt",
        r#"title = "Field notes"
status = "draft"
pages = "many"
"#,
    );
    made(&year, "broken.slpc").write_all(b"not a container").unwrap();
    made(&year, "README.md").write_all(b"plain").unwrap();
    root
}

fn row_of(row: slipql::Row) -> Row {
    Row {
        path: row.path,
        cells: row
            .cells
            .into_iter()
            .map(|cell| Cell {
                column: cell.column,
                value: cell.value.map(|value| value.to_string()),
            })
            .collect(),
    }
}

fn noticed(tally: &slipql::Tally) -> (Vec<SkippedFile>, Vec<Mismatch>) {
    let skipped = tally
        .skipped()
        .iter()
        .map(|s| SkippedFile {
            path: s.path.display().to_string(),
            reason: s.reason.clone(),
        })
        .collect();
    let mismatches = tally
        .mismatches()
        .into_iter()
        .map(|(path, found, against, count)| Mismatch {
            column: path.to_string(),
            found: found.to_string(),
            against: against.to_string(),
            count,
        })
        .collect();
    (skipped, mismatches)
}

/// Run a query to the end: the worker's loop, every message it sends, and
/// one drain of them all.
fn run_to_end(folder: &Path, recursive: bool, text: &str) -> Run {
    let source = slipql::ast::Source {
        root: folder.to_path_buf(),
        recursive,
    };
    let query = slipql::parse_with(text, Some(&source)).unwrap();
    let mut results = slipql::execute(&query).unwrap();
    let mut run = Run::new(results.columns());
    let mut feed = Feed::new();
    let mut sent = Vec::new();
    for row in results.by_ref() {
        let (out, stop) = feed.take(row_of(row), false);
        if let Some(batch) = out {
            sent.push(Message::Rows(batch));
        }
        if stop {
            break;
        }
    }
    let (rest, truncated) = feed.finish();
    if let Some(batch) = rest {
        sent.push(Message::Rows(batch));
    }
    let (skipped, mismatches) = noticed(&results.into_tally());
    sent.push(Message::Done(notices_of(&skipped, &mismatches, truncated)));
    assert_eq!(run.drain(sent, false), Update::Finished);
    run
}

fn open(root: &Path, relative: &str) -> Detail {
    let path = root.join(relative);
    let opened = match slpc::Container::open(&path) {
        Ok(c) => Ok(Contents::of(
            c.flyleaf().clone(),
            c.content_name(),
            c.content_size().ok(),
            c.check_content_readable().err().map(|why| why.to_string()),
        )),
        Err(e) => Err(e.to_string()),
    };
    Detail::open(path, relative, opened)
}

fn cells(run: &Run, column: &str) -> Vec<String> {
    run.rows().iter().map(|row| query::cell(row, column)).collect()
}

#[test]
fn a_bound_folder_does_not_descend_unless_asked() {
    let root = corpus();
    let shallow = run_to_end(root.path(), false, "select @path, title");
    assert_eq!(cells(&shallow, "@path"), vec!["msa.pdf.slpc"]);
    let deep = run_to_end(root.path(), true, "select @path, title");
    let mut paths = cells(&deep, "@path");
    paths.sort();
    assert_eq!(
        paths,
        vec![
            "2026/q3/notes.txt.slpc",
            "2026/q3/q3.xlsx.slpc",
            "2026/renewal.docx.slpc",
            "msa.pdf.slpc",
        ]
    );
}

#[test]
fn a_filter_reaches_the_scan() {
    let root = corpus();
    let run = run_to_end(root.path(), true, r#"select @path, title where status = "draft""#);
    let mut titles = cells(&run, "title");
    titles.sort();
    assert_eq!(
        titles,
        vec!["Field notes", "Master services agreement", "Renewal, 2026"]
    );
    let run = run_to_end(
        root.path(),
        true,
        r#"select title, governance.owner where status = "draft""#,
    );
    let owners = cells(&run, "governance.owner");
    assert_eq!(owners.len(), 3);
    assert_eq!(owners.iter().filter(|o| o.is_empty()).count(), 1, "{owners:?}");
}

#[test]
fn select_star_takes_the_union_over_the_rows() {
    let root = corpus();
    let run = run_to_end(root.path(), true, "select *");
    let columns = run.columns();
    assert!(columns.contains(&"@path".to_owned()), "{columns:?}");
    assert!(columns.contains(&"governance.owner".to_owned()), "{columns:?}");
    assert!(columns.contains(&"tags".to_owned()), "{columns:?}");
}

#[test]
fn the_union_is_the_one_the_query_engine_computes() {
    let root = corpus();
    let source = slipql::ast::Source {
        root: root.path().to_path_buf(),
        recursive: true,
    };
    let query = slipql::parse_with("select *", Some(&source)).unwrap();
    let rows: Vec<slipql::Row> = slipql::execute(&query).unwrap().collect();
    let expected = slipql::render::column_union(&rows);
    let ours: Vec<Row> = rows.into_iter().map(row_of).collect();
    assert_eq!(query::column_union(&ours), expected);
}

#[test]
fn what_the_scan_could_not_use_is_reported() {
    let root = corpus();
    let run = run_to_end(root.path(), true, "select @path");
    let notices = run.notices().expect("a finished run has notices");
    assert_eq!(notices.skipped.len(), 1, "{:?}", notices.skipped);
    assert!(notices.skipped[0].contains("broken.slpc"), "{:?}", notices.skipped);
    assert!(
        !notices.skipped.iter().any(|line| line.contains("README")),
        "{:?}",
        notices.skipped
    );
    assert!(!notices.truncated);
    assert!(run.status().contains("1 skipped"), "{}", run.status());
}

#[test]
fn a_comparison_across_types_is_counted_and_said() {
    let root = corpus();
    let run = run_to_end(root.path(), true, "select @path, title where pages > 10");
    let mut titles = cells(&run, "title");
    titles.sort();
    assert_eq!(titles, vec!["Master services agreement", "Q3 report"]);
    let notices = run.notices().unwrap();
    assert_eq!(notices.mismatches.len(), 1, "{:?}", notices.mismatches);
    let line = &notices.mismatches[0];
    assert!(line.contains("pages"), "{line}");
    assert!(line.contains("string"), "{line}");
    assert!(line.contains("integer"), "{line}");
    assert!(
        run.status().contains("1 comparison across types"),
        "{}",
        run.status()
    );
}

#[test]
fn a_selected_row_opens_the_container_the_row_names() {
    let root = corpus();
    let run = run_to_end(root.path(), true, r#"select @path where title = "Q3 report""#);
    assert_eq!(run.rows().len(), 1);
    let relative = run.rows()[0].path.clone();
    assert_eq!(relative, "2026/q3/q3.xlsx.slpc");
    let detail = open(root.path(), &relative);
    let Outcome::Read(contents) = &detail.outcome else {
        panic!("the container the scan just read should open");
    };
    assert_eq!(contents.content.name, "q3.xlsx");
    assert!(contents.content.can_be_opened());
    assert_eq!(
        contents.flyleaf["title"].as_str(),
        Some("Q3 report"),
        "the pane shows the container's own metadata"
    );
}

#[test]
fn a_container_that_will_not_open_is_a_sentence_and_not_a_panic() {
    let root = corpus();
    let detail = open(root.path(), "2026/broken.slpc");
    match &detail.outcome {
        Outcome::Unreadable(why) => assert!(!why.is_empty()),
        Outcome::Read(_) => panic!("fifteen bytes of text are not a container"),
    }
    assert!(detail.content().is_none());
    let gone = open(root.path(), "nothing/here.slpc");
    assert!(matches!(gone.outcome, Outcome::Unreadable(_)));
}

#[test]
fn a_limit_stops_the_scan() {
    let root = corpus();
    let run = run_to_end(root.path(), true, "select @path limit 2");
    assert_eq!(run.rows().len(), 2);
    assert!(!run.notices().unwrap().truncated, "a limit is not a ceiling");
    assert!(run.status().starts_with("2 rows"), "{}", run.status());
}
