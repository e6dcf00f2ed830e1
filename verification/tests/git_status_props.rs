use op::git_status::{
    git_status_from_output, parse_git_status_output, parse_i32_or_zero_exec, status_tags, Branch,
};

#[test]
fn parses_ahead_and_behind() {
    let b = parse_git_status_output("## main...remotes/origin/main [ahead 1, behind 2]", 0)
        .unwrap();
    assert!(b.local_clean_worktree);
    assert_eq!(b.ahead_of_remote, 1);
    assert_eq!(b.behind_of_remote, 2);
}

#[test]
fn parses_header_without_trailer() {
    let b = parse_git_status_output("## main...origin/main", 3).unwrap();
    assert!(!b.local_clean_worktree);
    assert_eq!(b.ahead_of_remote, 0);
    assert_eq!(b.behind_of_remote, 0);
}

#[test]
fn ahead_only_trailer_fills_both_counts() {
    // The token scan assigns a closed number to the behind count as well
    // when only an ahead figure is present.
    let b = parse_git_status_output("## main...origin/main [ahead 3]", 0).unwrap();
    assert_eq!(b.ahead_of_remote, 3);
    assert_eq!(b.behind_of_remote, 3);
}

#[test]
fn behind_only_trailer() {
    let b = parse_git_status_output("## main...origin/main [behind 2]", 0).unwrap();
    assert_eq!(b.ahead_of_remote, 0);
    assert_eq!(b.behind_of_remote, 2);
}

#[test]
fn no_commits_and_malformed_headers_are_skipped() {
    assert!(parse_git_status_output("## No commits yet on main", 0).is_none());
    assert!(parse_git_status_output("##", 0).is_none());
    assert!(parse_git_status_output("", 0).is_none());
}

#[test]
fn unparsable_numbers_default_to_zero() {
    let b = parse_git_status_output("## m...o [ahead x, behind 2]", 0).unwrap();
    assert_eq!(b.ahead_of_remote, 0);
    assert_eq!(b.behind_of_remote, 2);

    // A number past the i32 range also falls back to zero.
    let huge: Vec<char> = "99999999999".chars().collect();
    assert_eq!(parse_i32_or_zero_exec(&huge), 0);
    let ok: Vec<char> = "-17".chars().collect();
    assert_eq!(parse_i32_or_zero_exec(&ok), -17);
    let empty: Vec<char> = Vec::new();
    assert_eq!(parse_i32_or_zero_exec(&empty), 0);
}

#[test]
fn whole_output_parse() {
    // A failing exit code yields nothing.
    let path = "repo".to_string();
    assert!(git_status_from_output(&path, "## main...o/m", 1).is_none());
    assert!(git_status_from_output(&path, "", 0).is_none());

    // One change line beyond the header makes the worktree dirty.
    let g = git_status_from_output(&path, "## main...o/m\n M file.txt\n", 0).unwrap();
    assert_eq!(g.path, "repo");
    assert!(!g.branch.local_clean_worktree);

    // A header alone is clean.
    let g = git_status_from_output(&path, "## main...o/m\n", 0).unwrap();
    assert!(g.branch.local_clean_worktree);
}

#[test]
fn report_filter_surfaces_dirty_and_out_of_sync() {
    // Three repositories: clean and in sync, dirty, and both ahead and
    // behind. The report surfaces exactly the last two, whatever order the
    // scan produced them in.
    let outputs = [
        ("r1", "## main...o/m\n", "clean"),
        ("r2", "## main...o/m\n M file\n", "dirty"),
        ("r3", "## main...o/m [ahead 2, behind 1]\n", "diverged"),
    ];
    let orders: [[usize; 3]; 3] = [[0, 1, 2], [2, 1, 0], [1, 2, 0]];
    for order in orders {
        let mut surfaced: Vec<(String, Vec<&'static str>)> = Vec::new();
        for idx in order {
            let (name, text, _) = outputs[idx];
            let path = name.to_string();
            let proj = git_status_from_output(&path, text, 0).unwrap();
            let tags = status_tags(&proj.branch);
            if !tags.is_empty() {
                surfaced.push((proj.path.clone(), tags));
            }
        }
        assert_eq!(surfaced.len(), 2);
        let r2 = surfaced.iter().find(|(p, _)| p == "r2").unwrap();
        assert_eq!(r2.1, vec!["DIRTY"]);
        let r3 = surfaced.iter().find(|(p, _)| p == "r3").unwrap();
        assert_eq!(r3.1, vec!["NOT IN SYNC"]);
    }
}

#[test]
fn ahead_only_is_not_surfaced() {
    // Only a repository both ahead and behind counts as out of sync; with
    // the ahead-only trailer quirk both counts fill, so use the explicit
    // form.
    let b = Branch { local_clean_worktree: true, ahead_of_remote: 2, behind_of_remote: 0 };
    assert!(status_tags(&b).is_empty());
    let b = Branch { local_clean_worktree: true, ahead_of_remote: 0, behind_of_remote: 2 };
    assert!(status_tags(&b).is_empty());
    let b = Branch { local_clean_worktree: false, ahead_of_remote: 2, behind_of_remote: 1 };
    assert_eq!(status_tags(&b), vec!["NOT IN SYNC", "DIRTY"]);
}
