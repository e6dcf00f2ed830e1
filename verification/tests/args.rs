use op::actions::{
    process_arg_command, ArgAction, CreateLayout, GitStatusAction, ListAction, MainHelpAction,
    OpAction,
};

fn args_of(parts: &[&str]) -> Vec<String> {
    parts.iter().map(|p| p.to_string()).collect()
}

#[test]
fn test_process_main_help_action() {
    // main action
    let args = args_of(&["--help"]);
    let act = process_arg_command(&args, false).unwrap();
    let exp = ArgAction::MainHelp(MainHelpAction);
    assert_eq!(act, exp);
}

#[test]
fn test_process_list_action() {
    // --list
    let args = args_of(&["--list"]);
    let act = process_arg_command(&args, false).unwrap();
    let exp = ArgAction::ListAllProjects(ListAction::default());
    assert_eq!(act, exp);

    // --list --help
    let args = args_of(&["--list", "--help"]);
    let act = process_arg_command(&args, false).unwrap();
    let list_args = ListAction { help: true };
    let exp = ArgAction::ListAllProjects(list_args);
    assert_eq!(act, exp);

    // --list --help <something more>
    let args = args_of(&["--list", "--help", "x"]);
    if process_arg_command(&args, false).is_ok() {
        panic!()
    }
}

#[test]
fn test_process_create_layout_action() {
    // --create
    let args = args_of(&["--create"]);
    let act = process_arg_command(&args, false).unwrap();
    let exp = ArgAction::CreateLayout(CreateLayout::new());
    assert_eq!(act, exp);

    // --create --help
    let args = args_of(&["--create"]);
    let act = process_arg_command(&args, false).unwrap();
    let exp = ArgAction::CreateLayout(CreateLayout::new());
    assert_eq!(act, exp);

    // --create --help <something more>
    let args = args_of(&["--list", "--help", "y"]);
    if process_arg_command(&args, false).is_ok() {
        panic!()
    }
}

#[test]
fn test_process_open_action() {
    // project
    let args = args_of(&["project"]);
    let act = process_arg_command(&args, false).unwrap();
    let op_args = OpAction {
        proj_name: "project".to_owned(),
        print_path: false,
        print_uri: false,
        help: false,
    };
    let _exp = ArgAction::OpenProject(op_args);
    assert_eq!(act, _exp);

    // project --help
    let args = args_of(&["project", "--help"]);
    let act = process_arg_command(&args, false).unwrap();
    let op_args = OpAction {
        proj_name: "project".to_owned(),
        print_path: false,
        print_uri: false,
        help: true,
    };
    let exp = ArgAction::OpenProject(op_args);
    assert_eq!(act, exp);

    // project --help <something more>
    let args = args_of(&["project", "--help", "x"]);
    if process_arg_command(&args, false).is_ok() {
        panic!()
    }
}

#[test]
fn test_process_open_action_flags() {
    // project --print
    let args = args_of(&["project", "--print"]);
    let act = process_arg_command(&args, false).unwrap();
    let op_args = OpAction {
        proj_name: "project".to_owned(),
        print_path: true,
        print_uri: false,
        help: false,
    };
    let exp = ArgAction::OpenProject(op_args);
    assert_eq!(act, exp);

    // project --uri
    let args = args_of(&["project", "--uri"]);
    let act = process_arg_command(&args, false).unwrap();
    let op_args = OpAction {
        proj_name: "project".to_owned(),
        print_path: false,
        print_uri: true,
        help: false,
    };
    let exp = ArgAction::OpenProject(op_args);
    assert_eq!(act, exp);

    // project --print --help
    let args = args_of(&["project", "--print", "--help"]);
    let act = process_arg_command(&args, false).unwrap();
    let op_args = OpAction {
        proj_name: "project".to_owned(),
        print_path: true,
        print_uri: false,
        help: true,
    };
    let exp = ArgAction::OpenProject(op_args);
    assert_eq!(act, exp);

    // project --help --print
    let args = args_of(&["project", "--help", "--print"]);
    if process_arg_command(&args, false).is_ok() {
        panic!()
    }

    // project --print --uri
    let args = args_of(&["project", "--print", "--uri"]);
    if process_arg_command(&args, false).is_ok() {
        panic!()
    }

    // project --uri --print
    let args = args_of(&["project", "--uri", "--print"]);
    if process_arg_command(&args, false).is_ok() {
        panic!()
    }
}

#[test]
fn test_git_status_action() {
    // --git-status
    let args = args_of(&["--git-status"]);
    let act = process_arg_command(&args, false).unwrap();
    let git_status_action = GitStatusAction { help: false };
    let exp = ArgAction::GetGitStatus(git_status_action);
    assert_eq!(act, exp);

    // -g
    let args = args_of(&["-g"]);
    let act = process_arg_command(&args, false).unwrap();
    let git_status_action = GitStatusAction { help: false };
    let exp = ArgAction::GetGitStatus(git_status_action);
    assert_eq!(act, exp);

    // --git-status --help
    let args = args_of(&["--git-status", "--help"]);
    let act = process_arg_command(&args, false).unwrap();
    let pop_args = GitStatusAction { help: true };
    let exp = ArgAction::GetGitStatus(pop_args);
    assert_eq!(act, exp);
}

#[test]
fn test_process_no_arg() {
    let args: Vec<String> = Vec::new();
    assert!(matches!(
        process_arg_command(&args, false),
        Err(op::error::Error::NoArgProvided)
    ));

    let args = args_of(&["--list", "extra"]);
    assert!(matches!(
        process_arg_command(&args, false),
        Err(op::error::Error::InvalidArgs)
    ));
}

#[test]
fn test_process_fuz_action() {
    // --fuz alone gives an empty filter
    let args = args_of(&["--fuz"]);
    let act = process_arg_command(&args, false).unwrap();
    match act {
        ArgAction::FuzFind(f) => {
            assert!(!f.help);
            assert_eq!(f.filter_string, "");
        }
        _ => panic!(),
    }

    // --fuz --help
    let args = args_of(&["--fuz", "--help"]);
    let act = process_arg_command(&args, false).unwrap();
    match act {
        ArgAction::FuzFind(f) => assert!(f.help),
        _ => panic!(),
    }

    // --fuz with a plain argument is rejected: only the help flag may follow
    let args = args_of(&["--fuz", "abc"]);
    assert!(process_arg_command(&args, false).is_err());
}
