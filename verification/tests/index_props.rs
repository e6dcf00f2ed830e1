use op::actions::{format_remote_uri, fuz_find_output};
use op::error::Error;
use op::projects::{CompoundProject, Projects, RootScan, ScanEntry};
use op::select_ui::{select_project, selector_step, SelectorEvent, SelectorOutcome};
use op::utils::catch_empty_project_list;

fn entry(path: &str, depth: usize) -> ScanEntry {
    ScanEntry { path: path.to_string(), depth }
}

fn scan(root: &str, ignore: &str, entries: Vec<ScanEntry>) -> RootScan {
    RootScan { root: root.to_string(), ignore_dir: ignore.to_string(), entries }
}

fn build(scans: Vec<RootScan>, includes: Vec<String>) -> (Projects, Vec<String>) {
    Projects::new(scans, includes, Vec::new(), false).unwrap()
}

#[test]
fn two_roots_sort_case_insensitively() {
    // Two roots, each one category with one project: a two-entry index,
    // sorted case-insensitively by leaf name.
    let s1 = scan(
        "/r1",
        "deploys",
        vec![entry("/r1", 0), entry("/r1/lang", 1), entry("/r1/lang/Zeta", 2)],
    );
    let s2 = scan("/r2", "deploys", vec![entry("/r2/lang/alpha", 2)]);
    let (p, warnings) = build(vec![s1, s2], Vec::new());
    assert!(warnings.is_empty());
    assert_eq!(p.filtered_items, vec!["alpha", "zeta"]);
    assert_eq!(p.dir_items.len(), 2);
    assert_eq!(p.dir_items[0].path, "/r2/lang/alpha");
    assert_eq!(p.dir_items[1].path, "/r1/lang/Zeta");
    assert_eq!(p.selected_idx, 0);
    assert_eq!(p.buffer_rows, 10);
}

#[test]
fn only_depth_two_entries_outside_ignore_are_kept() {
    let s = scan(
        "/r",
        "deploys",
        vec![
            entry("/r", 0),
            entry("/r/lang", 1),
            entry("/r/lang/keep", 2),
            entry("/r/deploys/skip", 2),
            entry("/r/deploys", 1),
        ],
    );
    let (p, _) = build(vec![s], Vec::new());
    assert_eq!(p.filtered_items, vec!["keep"]);
}

#[test]
fn ignore_compares_whole_components() {
    // A category that merely begins with the ignore name is kept.
    let s = scan(
        "/r",
        "dep",
        vec![entry("/r/dep/skip", 2), entry("/r/depot/keep", 2)],
    );
    let (p, _) = build(vec![s], Vec::new());
    assert_eq!(p.filtered_items, vec!["keep"]);
}

#[test]
fn duplicate_include_warns_but_stays() {
    let s = scan("/r", "deploys", vec![entry("/r/lang/proj", 2)]);
    let (p, warnings) = build(vec![s], vec!["/r/lang/proj".to_string()]);
    // The duplicate draws a warning yet is pushed anyway.
    assert_eq!(warnings, vec!["/r/lang/proj"]);
    assert_eq!(p.dir_items.len(), 2);
    assert_eq!(p.filtered_items, vec!["proj", "proj"]);
}

#[test]
fn include_paths_are_appended_and_sorted() {
    let s = scan("/r", "deploys", vec![entry("/r/lang/mango", 2)]);
    let (p, warnings) = build(vec![s], vec!["/elsewhere/Apple".to_string()]);
    assert!(warnings.is_empty());
    assert_eq!(p.filtered_items, vec!["apple", "mango"]);
    assert_eq!(p.dir_items[0].path, "/elsewhere/Apple");
}

#[test]
fn equal_names_keep_insertion_order() {
    // Ties sort by scan order: the sort is stable.
    let s = scan(
        "/r",
        "deploys",
        vec![entry("/r/a/same", 2), entry("/r/b/same", 2), entry("/r/c/abba", 2)],
    );
    let (p, _) = build(vec![s], Vec::new());
    assert_eq!(p.filtered_items, vec!["abba", "same", "same"]);
    assert_eq!(p.dir_items[1].path, "/r/a/same");
    assert_eq!(p.dir_items[2].path, "/r/b/same");
}

#[test]
fn matching_project_compares_components() {
    let s = scan(
        "/r",
        "deploys",
        vec![entry("/r/lang/Zeta", 2), entry("/r/lang/beta", 2)],
    );
    let (p, _) = build(vec![s], Vec::new());
    assert_eq!(p.matching_project("Zeta").unwrap().path, "/r/lang/Zeta");
    assert_eq!(p.matching_project("lang/beta").unwrap().path, "/r/lang/beta");
    // A mere suffix of a component is no match.
    assert!(p.matching_project("eta").is_none());
    assert!(p.matching_project("gamma").is_none());
}

#[test]
fn filter_ranks_by_score_descending() {
    let s = scan(
        "/r",
        "deploys",
        vec![
            entry("/r/lang/project", 2),
            entry("/r/lang/pxrxjx", 2),
            entry("/r/lang/other", 2),
        ],
    );
    let (p, _) = build(vec![s], Vec::new());
    let ranked = p.filter_project_list("prj");
    // Only the two matches are kept, best first, and the score sequence is
    // non-increasing.
    assert_eq!(ranked.len(), 2);
    assert_eq!(ranked[0].0, "project");
    assert_eq!(ranked[1].0, "pxrxjx");
    assert!(ranked.iter().all(|t| t.1 .0));
    for w in ranked.windows(2) {
        assert!(w[0].1 .1 >= w[1].1 .1);
    }

    // An empty filter keeps everything.
    let all = p.filter_project_list("");
    assert_eq!(all.len(), 3);
}

#[test]
fn equal_scores_keep_list_order() {
    // Under an empty filter every name of the same length scores the same;
    // the ranking is stable, so ties stay in list order.
    let s = scan(
        "/r",
        "deploys",
        vec![entry("/r/a/two", 2), entry("/r/a/one", 2), entry("/r/a/six", 2)],
    );
    let (p, _) = build(vec![s], Vec::new());
    assert_eq!(p.filtered_items, vec!["one", "six", "two"]);
    let ranked = p.filter_project_list("");
    let names: Vec<&str> = ranked.iter().map(|t| t.0.as_str()).collect();
    assert_eq!(names, vec!["one", "six", "two"]);
    assert!(ranked.iter().all(|t| t.1 .1 == -3));
}

#[test]
fn compound_projects_are_filtered_too() {
    let s = scan("/r", "deploys", vec![entry("/r/lang/other", 2)]);
    let compounds = vec![CompoundProject {
        name: "Duo".to_string(),
        first: "alpha".to_string(),
        second: "beta".to_string(),
    }];
    let (p, _) = Projects::new(vec![s], Vec::new(), compounds, false).unwrap();
    let ranked = p.filter_project_list("duo");
    assert_eq!(ranked.len(), 1);
    // The compound name is matched in its lowercase form.
    assert_eq!(ranked[0].0, "duo");
}

#[test]
fn fuz_find_joins_matches_with_line_feeds() {
    let s = scan(
        "/r",
        "deploys",
        vec![entry("/r/lang/project", 2), entry("/r/lang/pxrxjx", 2)],
    );
    let (p, _) = build(vec![s], Vec::new());
    assert_eq!(fuz_find_output(&p, "prj"), "project\npxrxjx");
    assert_eq!(fuz_find_output(&p, "zzz"), "");
}

#[test]
fn selector_steps_filter_and_move() {
    let s = scan(
        "/r",
        "deploys",
        vec![entry("/r/lang/project", 2), entry("/r/lang/alpha", 2)],
    );
    let (mut p, _) = Projects::new(vec![s], Vec::new(), Vec::new(), true).unwrap();
    let mut filter = String::new();

    assert_eq!(p.filtered_items, vec!["alpha", "project"]);

    // Typing narrows the list and resets the cursor.
    let out = selector_step(&mut p, &mut filter, SelectorEvent::ArrowDown);
    assert_eq!(out, SelectorOutcome::Moved);
    assert_eq!(p.selected_idx, 1);
    let out = selector_step(&mut p, &mut filter, SelectorEvent::Char('p'));
    assert_eq!(out, SelectorOutcome::Refiltered);
    assert_eq!(filter, "p");
    assert_eq!(p.selected_idx, 0);
    assert_eq!(p.filtered_items, vec!["project", "alpha"]);

    let out = selector_step(&mut p, &mut filter, SelectorEvent::Char('r'));
    assert_eq!(out, SelectorOutcome::Refiltered);
    assert_eq!(p.filtered_items, vec!["project"]);

    // Backspace widens it again.
    let out = selector_step(&mut p, &mut filter, SelectorEvent::Backspace);
    assert_eq!(out, SelectorOutcome::Refiltered);
    assert_eq!(filter, "p");
    assert_eq!(p.filtered_items, vec!["project", "alpha"]);

    // The delete-word character clears the filter.
    let out = selector_step(&mut p, &mut filter, SelectorEvent::Char('\u{007f}'));
    assert_eq!(out, SelectorOutcome::Refiltered);
    assert_eq!(filter, "");
    assert_eq!(p.filtered_items, vec!["alpha", "project"]);

    // J and K move instead of filtering.
    let out = selector_step(&mut p, &mut filter, SelectorEvent::Char('J'));
    assert_eq!(out, SelectorOutcome::Moved);
    assert_eq!(p.selected_idx, 1);
    let out = selector_step(&mut p, &mut filter, SelectorEvent::Char('K'));
    assert_eq!(out, SelectorOutcome::Moved);
    assert_eq!(p.selected_idx, 0);

    // Enter selects the entry under the cursor.
    let out = selector_step(&mut p, &mut filter, SelectorEvent::Enter);
    assert_eq!(out, SelectorOutcome::Selected);
    assert_eq!(select_project(&p).unwrap(), "alpha");

    let out = selector_step(&mut p, &mut filter, SelectorEvent::Escape);
    assert_eq!(out, SelectorOutcome::Quit);
}

#[test]
fn empty_list_checks() {
    let (p, _) = build(Vec::new(), Vec::new());
    assert!(matches!(select_project(&p), Err(Error::NoProjectsFound)));
    assert!(matches!(p.catch_empty_project_list(), Err(Error::NoProjectsFound)));
    assert!(catch_empty_project_list(&Vec::new()).is_err());

    let s = scan("/r", "deploys", vec![entry("/r/lang/one", 2)]);
    let (p, _) = build(vec![s], Vec::new());
    assert!(catch_empty_project_list(&p.dir_items).is_ok());
    let p = p.catch_empty_project_list().unwrap();
    assert_eq!(select_project(&p).unwrap(), "one");
}

#[test]
fn error_messages() {
    assert_eq!(Error::NoArgProvided.message(), "No argument provided");
    assert_eq!(
        Error::NoProjectsFound.message(),
        "No Project(s) found. Check README for more details"
    );
    assert_eq!(
        Error::InvalidArgs.message(),
        "Invalid argument(s) provided. Try running command with --help flag"
    );
    assert_eq!(Error::UnSupportedOS.message(), "Current OS is unsupported");
    assert_eq!(Error::Any("boom".to_string()).message(), "boom");
}

#[test]
fn remote_uri_formatting() {
    assert_eq!(
        format_remote_uri("git@github.com:someone/repo.git"),
        "https://github.com/someone/repo"
    );
    // An https remote keeps its colon-turned-slash: the rewrite targets SSH
    // remotes.
    assert_eq!(
        format_remote_uri("https://github.com/someone/repo.git"),
        "https///github.com/someone/repo"
    );
}
