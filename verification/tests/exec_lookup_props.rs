use op::exec_lookup::{executable_in_list, split_path_entries, strip_exe_name};

#[test]
fn splits_path_value_dropping_empty_segments() {
    assert_eq!(
        split_path_entries("/usr/bin:/bin::/opt", ':'),
        vec!["/usr/bin", "/bin", "/opt"]
    );
    assert_eq!(split_path_entries("", ':'), Vec::<String>::new());
    assert_eq!(split_path_entries("::", ':'), Vec::<String>::new());
    assert_eq!(split_path_entries("single", ':'), vec!["single"]);
    assert_eq!(split_path_entries("a;b", ';'), vec!["a", "b"]);
    assert_eq!(split_path_entries(":tail", ':'), vec!["tail"]);
    assert_eq!(split_path_entries("head:", ':'), vec!["head"]);
}

#[test]
fn strips_the_exe_suffix_at_its_first_occurrence() {
    assert_eq!(strip_exe_name("git.exe").unwrap(), "git");
    assert_eq!(strip_exe_name("a.exe.exe").unwrap(), "a");
    assert_eq!(strip_exe_name(".exe").unwrap(), "");
    assert!(strip_exe_name("git").is_none());
    assert!(strip_exe_name("git.EXE").is_none());
    assert!(strip_exe_name("exe").is_none());
}

#[test]
fn membership_in_the_collected_list() {
    let list: Vec<String> = ["nvim", "git", "wezterm"].iter().map(|s| s.to_string()).collect();
    assert!(executable_in_list(&"git".to_string(), &list));
    assert!(!executable_in_list(&"emacs".to_string(), &list));
    assert!(!executable_in_list(&"git".to_string(), &Vec::new()));
}
