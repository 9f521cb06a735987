use std::path::PathBuf;

use filebase::detail::Detail;
use filebase::query::{Message, Notices};
use filebase::window::Shown;
use filebase::{Messages, Run, Window};

fn some_detail() -> Detail {
    Detail::open(PathBuf::from("/x/a.slpc"), "a.slpc", Err("gone".to_owned()))
}

#[test]
fn a_new_window_has_select_star_in_the_box() {
    let w = Window::new();
    assert_eq!(w.query, "select *");
    assert!(w.folder.is_none() && w.run.is_none() && w.refused.is_none());
    assert!(!w.recursive);
}

#[test]
fn a_path_that_is_not_a_folder_is_refused_in_words() {
    let mut w = Window::new();
    let to_start = w.bind(
        PathBuf::from("/no/such/place"),
        "/no/such/place",
        false,
        &Messages::english(),
    );
    assert!(to_start.is_none());
    assert_eq!(w.refused.as_deref(), Some("/no/such/place is not a folder."));
    assert!(w.folder.is_none());
}

#[test]
fn without_a_folder_the_box_does_nothing() {
    let mut w = Window::new();
    w.said = Some("earlier".to_owned());
    assert!(w.run_query().is_none());
    assert_eq!(w.said.as_deref(), Some("earlier"));
    assert!(w.refused.is_none());
}

#[test]
fn a_bound_folder_supplies_from() {
    let dir = tempfile::tempdir().unwrap();
    let mut w = Window::new();
    w.said = Some("earlier".to_owned());
    w.selected = Some(some_detail());
    let to_start = w.bind(dir.path().to_path_buf(), "dir", true, &Messages::english());
    assert!(to_start.is_some());
    assert!(w.refused.is_none());
    assert!(w.said.is_none());
    assert!(w.selected.is_none());
    assert_eq!(w.folder.as_deref(), Some(dir.path()));
}

#[test]
fn a_query_that_does_not_parse_is_refused_and_clears_the_run() {
    let dir = tempfile::tempdir().unwrap();
    let mut w = Window::new();
    w.folder = Some(dir.path().to_path_buf());
    w.run = Some(Run::new(None));
    w.query = "selec *".to_owned();
    assert!(w.run_query().is_none());
    let why = w.refused.clone().expect("a refusal is said");
    assert!(why.starts_with("parse error at offset"), "{why}");
    assert_ne!(why, w.query);
    assert!(w.run.is_none());
}

#[test]
fn a_parsed_query_keeps_the_run_until_it_starts() {
    let dir = tempfile::tempdir().unwrap();
    let mut w = Window::new();
    w.folder = Some(dir.path().to_path_buf());
    w.refused = Some("before".to_owned());
    w.run = Some(Run::new(None));
    w.query = "select @path where pages > 10 limit 2".to_owned();
    assert!(w.run_query().is_some());
    assert!(w.refused.is_none());
    assert!(w.run.is_some());
}

#[test]
fn a_started_run_replaces_the_last_and_clears_the_selection() {
    let mut w = Window::new();
    w.selected = Some(some_detail());
    w.started(Ok(Run::new(Some(vec!["@path".to_owned()]))));
    assert!(w.selected.is_none());
    assert_eq!(w.run.as_ref().map(|r| r.columns().len()), Some(1));
    w.started(Err("cannot scan /x: gone".to_owned()));
    assert!(w.run.is_none());
    assert_eq!(w.refused.as_deref(), Some("cannot scan /x: gone"));
}

#[test]
fn choosing_a_row_selects_it_and_clears_what_was_said() {
    let mut w = Window::new();
    w.said = Some("Nothing opened it".to_owned());
    w.select(some_detail());
    assert!(w.said.is_none());
    assert_eq!(w.selected.as_ref().map(|d| d.relative.as_str()), Some("a.slpc"));
}

#[test]
fn the_bound_folder_and_the_tick_box_reach_the_query() {
    let dir = tempfile::tempdir().unwrap();
    let mut w = Window::new();
    w.folder = Some(dir.path().to_path_buf());
    w.recursive = true;
    w.query = "select @path, title where status = \"draft\" limit 3".to_owned();
    let bound = w.run_query().expect("the text parses");
    assert_eq!(bound.root, dir.path());
    assert!(bound.recursive);
    assert_eq!(bound.query.from.root, dir.path());
    assert!(bound.query.from.recursive);
    assert_eq!(bound.columns, Some(vec!["@path".to_owned(), "title".to_owned()]));
    assert_eq!(bound.limit, Some(3));

    w.recursive = false;
    w.query = "select *".to_owned();
    let bound = w.run_query().expect("the text parses");
    assert!(!bound.recursive);
    assert_eq!(bound.columns, None);
    assert_eq!(bound.limit, None);
}

#[test]
fn a_from_written_in_the_box_wins_over_the_folder() {
    let dir = tempfile::tempdir().unwrap();
    let mut w = Window::new();
    w.folder = Some(dir.path().to_path_buf());
    w.query = "select @path from \"/elsewhere\" recursive".to_owned();
    let bound = w.run_query().expect("the text parses");
    assert_eq!(bound.root, PathBuf::from("/elsewhere"));
    assert!(bound.recursive);
}

#[test]
fn the_table_area_says_why_it_is_empty() {
    let mut w = Window::new();
    assert_eq!(w.shown(), Shown::NoRun);
    w.run = Some(Run::new(None));
    assert_eq!(w.shown(), Shown::Scanning);
    w.run.as_mut().unwrap().drain(vec![Message::Done(Notices::default())], false);
    assert_eq!(w.shown(), Shown::NothingMatched);
    w.run = Some(Run::new(Some(vec!["@path".to_owned()])));
    assert_eq!(w.shown(), Shown::Table);
}
