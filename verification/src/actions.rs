//! The actions a command line selects, and the dispatcher that reads the
//! argument list into one of them.

use vstd::prelude::*;
use crate::error::Error;
use crate::projects::{str_views, Projects};
use crate::strutil::replace_seq;
use crate::strutil::replace_str;
use crate::utils::{
    check_valid_flag, is_help_flag, spec_long_form, spec_short_form, HelpTrait, ShortFlag,
};

verus! {

/// Prints the top-level usage summary.
#[derive(Debug)]
pub struct MainHelpAction;

/// Prints every indexed project.
#[derive(Debug)]
pub struct ListAction {
    pub help: bool,
}

impl Default for ListAction {
    fn default() -> (r: Self)
        ensures
            !r.help,
    {
        ListAction { help: false }
    }
}

/// Creates the projects-root layout: one directory per language.
#[derive(Debug)]
pub struct CreateLayout {
    pub lang_types: Vec<String>,
    pub help: bool,
}

/// The language directories the layout actions create.
pub open spec fn default_lang_views() -> Seq<Seq<char>> {
    seq!["python"@, "javascript"@, "rust"@, "go"@, "plain_txt"@]
}

/// Builds the default language list.
fn default_lang_types() -> (r: Vec<String>)
    ensures
        str_views(r@) == default_lang_views(),
{
    let mut v: Vec<String> = Vec::new();
    v.push(String::from_str("python"));
    v.push(String::from_str("javascript"));
    v.push(String::from_str("rust"));
    v.push(String::from_str("go"));
    v.push(String::from_str("plain_txt"));
    proof {
        assert(str_views(v@) =~= default_lang_views());
    }
    v
}

impl CreateLayout {
    /// The action with the default language directories.
    pub fn new() -> (r: Self)
        ensures
            str_views(r.lang_types@) == default_lang_views(),
            !r.help,
    {
        CreateLayout { lang_types: default_lang_types(), help: false }
    }
}

/// Creates the per-language directories below an existing projects root.
#[derive(Debug)]
pub struct CreateLanguageDirs {
    pub lang_types: Vec<String>,
    pub help: bool,
}

impl CreateLanguageDirs {
    /// The action with the default language directories.
    pub fn new() -> (r: Self)
        ensures
            str_views(r.lang_types@) == default_lang_views(),
            !r.help,
    {
        CreateLanguageDirs { lang_types: default_lang_types(), help: false }
    }
}

/// Creates the whole project layout in the home directory.
#[derive(Debug)]
pub struct CreateProjLayoutAction {
    pub lang_types: Vec<String>,
    pub help: bool,
}

impl CreateProjLayoutAction {
    /// The action with the default language directories.
    pub fn new() -> (r: Self)
        ensures
            str_views(r.lang_types@) == default_lang_views(),
            !r.help,
    {
        CreateProjLayoutAction { lang_types: default_lang_types(), help: false }
    }
}

/// Opens a project in the editor, or prints its path or remote URI.
#[derive(Debug)]
pub struct OpAction {
    pub proj_name: String,
    pub print_path: bool,
    pub print_uri: bool,
    pub help: bool,
}

/// Appends a path to the configuration's include list.
#[derive(Debug)]
pub struct IncludeAction {
    pub path: String,
    pub help: bool,
}

/// Reports every repository with uncommitted or out-of-sync state.
#[derive(Debug)]
pub struct GitStatusAction {
    pub help: bool,
}

impl Default for GitStatusAction {
    fn default() -> (r: Self)
        ensures
            !r.help,
    {
        GitStatusAction { help: false }
    }
}

/// Prints the projects matching a filter string, ranked.
#[derive(Debug)]
pub struct FuzFindAction {
    pub help: bool,
    pub filter_string: String,
}

impl Default for FuzFindAction {
    fn default() -> (r: Self)
        ensures
            !r.help,
            r.filter_string@.len() == 0,
    {
        FuzFindAction { help: false, filter_string: String::new() }
    }
}

impl HelpTrait for MainHelpAction {
    fn help_text(&self) -> String {
        String::from_str(
            "\n\nTry to use one of the below commands \n\nop --list|-l                  : Prints all available projects to stdout\nop --create|-c                : Creates Projects->language layout in home directory\nop <project_name>             : Opens project directly in neovim\nop <project_name> --print|-p  : Prints project path to stdout\nop --add|-a <path>            : Adds a path to `.opinclude`\nop --git-status|-g            : Shows uncommitted and non-sync status of all projects. Ignores git uninitiated or clean",
        )
    }
}

impl HelpTrait for ListAction {
    fn help_text(&self) -> String {
        String::from_str("op --list|-l : Prints all available projects to stdout")
    }
}

impl HelpTrait for CreateLayout {
    fn help_text(&self) -> String {
        String::from_str(
            "op --create|-c : Creates Projects->language layout in home directory\n\n- Dirs for languages [python, javascript, rust, go, plain_txt] will be created",
        )
    }
}

impl HelpTrait for OpAction {
    fn help_text(&self) -> String {
        String::from_str(
            "Try to use one of the below commands \n\nop <project_name>            : Opens project directly in neovim\nop <project_name> --print|-p : Prints project path to stdout\nop <project_name> --uri|-u   : Prints remote uri path to stdout",
        )
    }
}

impl HelpTrait for IncludeAction {
    fn help_text(&self) -> String {
        String::from_str("op --add|-a <path>            : Adds a path to `.opinclude`")
    }
}

impl HelpTrait for GitStatusAction {
    fn help_text(&self) -> String {
        String::from_str(
            "op --git-status|-g            : Shows uncommitted and non-sync status of all projects. Ignores git uninitiated or clean",
        )
    }
}

impl HelpTrait for FuzFindAction {
    fn help_text(&self) -> String {
        String::from_str(
            "op --fuz|-f <string_str>          : Fuzzy finds and prints projects containing string_str to stdout",
        )
    }
}

/// The action one invocation performs.
#[derive(Debug)]
pub enum ArgAction {
    MainHelp(MainHelpAction),
    ListAllProjects(ListAction),
    CreateLayout(CreateLayout),
    OpenProject(OpAction),
    AddToOpConfig(IncludeAction),
    GetGitStatus(GitStatusAction),
    FuzFind(FuzFindAction),
}

/// Compares two string vectors element by element.
fn vec_string_eq(a: &Vec<String>, b: &Vec<String>) -> (r: bool)
    ensures
        r == (str_views(a@) == str_views(b@)),
{
    if a.len() != b.len() {
        proof {
            assert(str_views(a@).len() != str_views(b@).len());
        }
        return false;
    }
    let n = a.len();
    let mut i: usize = 0;
    while i < n
        invariant
            i <= n,
            n == a@.len() == b@.len(),
            forall|j: int| 0 <= j < i ==> a@[j]@ == b@[j]@,
        decreases n - i,
    {
        if !(a[i] == b[i]) {
            proof {
                assert(str_views(a@)[i as int] != str_views(b@)[i as int]);
            }
            return false;
        }
        i = i + 1;
    }
    proof {
        assert(str_views(a@) =~= str_views(b@));
    }
    true
}

impl PartialEq for ArgAction {
    /// Two actions are equal when they are the same variant with the same
    /// observable fields.
    fn eq(&self, other: &Self) -> (r: bool) {
        match (self, other) {
            (ArgAction::MainHelp(_), ArgAction::MainHelp(_)) => true,
            (ArgAction::ListAllProjects(a), ArgAction::ListAllProjects(b)) => a.help == b.help,
            (ArgAction::CreateLayout(a), ArgAction::CreateLayout(b)) => a.help == b.help
                && vec_string_eq(&a.lang_types, &b.lang_types),
            (ArgAction::OpenProject(a), ArgAction::OpenProject(b)) => a.proj_name == b.proj_name
                && a.print_path == b.print_path && a.print_uri == b.print_uri && a.help == b.help,
            (ArgAction::AddToOpConfig(a), ArgAction::AddToOpConfig(b)) => a.path == b.path
                && a.help == b.help,
            (ArgAction::GetGitStatus(a), ArgAction::GetGitStatus(b)) => a.help == b.help,
            (ArgAction::FuzFind(a), ArgAction::FuzFind(b)) => a.help == b.help && a.filter_string
                == b.filter_string,
            _ => false,
        }
    }
}

impl vstd::std_specs::cmp::PartialEqSpecImpl for ArgAction {
    open spec fn obeys_eq_spec() -> bool {
        true
    }

    open spec fn eq_spec(&self, other: &Self) -> bool {
        match (self, other) {
            (ArgAction::MainHelp(_), ArgAction::MainHelp(_)) => true,
            (ArgAction::ListAllProjects(a), ArgAction::ListAllProjects(b)) => a.help == b.help,
            (ArgAction::CreateLayout(a), ArgAction::CreateLayout(b)) => a.help == b.help
                && str_views(a.lang_types@) == str_views(b.lang_types@),
            (ArgAction::OpenProject(a), ArgAction::OpenProject(b)) => a.proj_name@ == b.proj_name@
                && a.print_path == b.print_path && a.print_uri == b.print_uri && a.help == b.help,
            (ArgAction::AddToOpConfig(a), ArgAction::AddToOpConfig(b)) => a.path@ == b.path@
                && a.help == b.help,
            (ArgAction::GetGitStatus(a), ArgAction::GetGitStatus(b)) => a.help == b.help,
            (ArgAction::FuzFind(a), ArgAction::FuzFind(b)) => a.help == b.help && a.filter_string@
                == b.filter_string@,
            _ => false,
        }
    }
}

/// The mathematical content of an [`ArgAction`].
pub ghost enum ArgActionView {
    MainHelp,
    List { help: bool },
    Create { langs: Seq<Seq<char>>, help: bool },
    Open { name: Seq<char>, print_path: bool, print_uri: bool, help: bool },
    Add { path: Seq<char>, help: bool },
    GitStatus { help: bool },
    FuzFind { filter: Seq<char>, help: bool },
}

/// The view of an action.
pub open spec fn action_view(a: ArgAction) -> ArgActionView {
    match a {
        ArgAction::MainHelp(_) => ArgActionView::MainHelp,
        ArgAction::ListAllProjects(x) => ArgActionView::List { help: x.help },
        ArgAction::CreateLayout(x) => ArgActionView::Create {
            langs: str_views(x.lang_types@),
            help: x.help,
        },
        ArgAction::OpenProject(x) => ArgActionView::Open {
            name: x.proj_name@,
            print_path: x.print_path,
            print_uri: x.print_uri,
            help: x.help,
        },
        ArgAction::AddToOpConfig(x) => ArgActionView::Add { path: x.path@, help: x.help },
        ArgAction::GetGitStatus(x) => ArgActionView::GitStatus { help: x.help },
        ArgAction::FuzFind(x) => ArgActionView::FuzFind {
            filter: x.filter_string@,
            help: x.help,
        },
    }
}

/// Whether `a` is the flag: a dash and the letter `c`, or the long form.
pub open spec fn flag_eq(a: Seq<char>, c: char, long: Seq<char>) -> bool {
    a == seq!['-', c] || a == long
}

/// What a trailing optional help flag yields: absent, exactly `--help` or
/// `-h`, or an invalid argument list.
pub open spec fn spec_tail_help(args: Seq<Seq<char>>) -> Result<bool, Error> {
    if args.len() == 1 {
        Ok(false)
    } else if is_help_flag(args[1]) && args.len() == 2 {
        Ok(true)
    } else {
        Err(Error::InvalidArgs)
    }
}

/// The action an argument list selects. The first argument picks the
/// command; most commands allow one trailing help flag and nothing after it;
/// anything unrecognised opens the named project, with optional `--print` or
/// `--uri` before the trailing help flag. An `--add` needs a second argument
/// that, after the help check, must name an existing path
/// (`add_path_exists`).
pub open spec fn spec_process_args(args: Seq<Seq<char>>, add_path_exists: bool) -> Result<
    ArgActionView,
    Error,
> {
    if args.len() == 0 {
        Err(Error::NoArgProvided)
    } else {
        let a0 = args[0];
        if is_help_flag(a0) {
            Ok(ArgActionView::MainHelp)
        } else if flag_eq(a0, 'l', "--list"@) {
            match spec_tail_help(args) {
                Ok(h) => Ok(ArgActionView::List { help: h }),
                Err(e) => Err(e),
            }
        } else if flag_eq(a0, 'c', "--create"@) {
            match spec_tail_help(args) {
                Ok(h) => Ok(ArgActionView::Create { langs: default_lang_views(), help: h }),
                Err(e) => Err(e),
            }
        } else if flag_eq(a0, 'a', "--add"@) {
            if args.len() == 1 {
                Err(Error::InvalidArgs)
            } else if !(is_help_flag(args[1]) && args.len() == 2) {
                Err(Error::InvalidArgs)
            } else if add_path_exists {
                Ok(ArgActionView::Add { path: args[1], help: true })
            } else {
                Err(Error::NoProjectsFound)
            }
        } else if flag_eq(a0, 'g', "--git-status"@) {
            match spec_tail_help(args) {
                Ok(h) => Ok(ArgActionView::GitStatus { help: h }),
                Err(e) => Err(e),
            }
        } else if flag_eq(a0, 'f', "--fuz"@) {
            if args.len() == 1 {
                Ok(ArgActionView::FuzFind { filter: Seq::empty(), help: false })
            } else if is_help_flag(args[1]) && args.len() == 2 {
                Ok(ArgActionView::FuzFind { filter: args[1], help: true })
            } else {
                Err(Error::InvalidArgs)
            }
        } else {
            let pp = args.len() >= 2 && flag_eq(args[1], 'p', "--print"@);
            let pu = args.len() >= 2 && !pp && flag_eq(args[1], 'u', "--uri"@);
            let idx: int = if pp || pu {
                2
            } else {
                1
            };
            if args.len() <= idx {
                Ok(ArgActionView::Open { name: a0, print_path: pp, print_uri: pu, help: false })
            } else if is_help_flag(args[idx]) && args.len() == idx + 1 {
                Ok(ArgActionView::Open { name: a0, print_path: pp, print_uri: pu, help: true })
            } else {
                Err(Error::InvalidArgs)
            }
        }
    }
}

/// Whether `arg` is the given flag; never fails for a non-empty flag name.
fn flag_matches(arg: &String, flag_name: &str, short: ShortFlag) -> (r: bool)
    requires
        flag_name@.len() > 0,
    ensures
        r == (arg@ == spec_short_form(flag_name@, short) || arg@ == spec_long_form(flag_name@)),
{
    match check_valid_flag(arg, flag_name, short) {
        Ok(b) => b,
        Err(_) => {
            proof {
                assert(false);
            }
            false
        },
    }
}

/// Whether `arg` is the help flag.
fn is_help_arg(arg: &String) -> (r: bool)
    ensures
        r == is_help_flag(arg@),
{
    proof {
        reveal_strlit("help");
        reveal_strlit("--help");
        reveal_strlit("--");
        assert(spec_long_form("help"@) =~= "--help"@);
        assert(spec_short_form("help"@, ShortFlag::Infer) =~= seq!['-', 'h']);
    }
    flag_matches(arg, "help", ShortFlag::Infer)
}

/// Reads the argument list (everything after the program name) into the
/// action it selects. `add_path_exists` answers, for the `--add` command,
/// whether the path named by the second argument exists; the caller checks
/// the file system and passes the answer in.
pub fn process_arg_command(args: &Vec<String>, add_path_exists: bool) -> (r: Result<
    ArgAction,
    Error,
>)
    ensures
        (match r {
            Ok(a) => spec_process_args(str_views(args@), add_path_exists) == Ok::<
                ArgActionView,
                Error,
            >(action_view(a)),
            Err(e) => spec_process_args(str_views(args@), add_path_exists) == Err::<
                ArgActionView,
                Error,
            >(e),
        }),
{
    let ghost vs = str_views(args@);
    if args.len() == 0 {
        return Err(Error::NoArgProvided);
    }
    let arg = &args[0];
    proof {
        assert(vs[0] == args@[0]@);
    }

    if is_help_arg(arg) {
        return Ok(ArgAction::MainHelp(MainHelpAction));
    }

    proof {
        reveal_strlit("list");
        reveal_strlit("--list");
        reveal_strlit("--");
        assert(spec_long_form("list"@) =~= "--list"@);
        assert(spec_short_form("list"@, ShortFlag::Infer) =~= seq!['-', 'l']);
    }
    if flag_matches(arg, "list", ShortFlag::Infer) {
        let help = match tail_help(args) {
            Ok(h) => h,
            Err(e) => {
                return Err(e);
            },
        };
        return Ok(ArgAction::ListAllProjects(ListAction { help }));
    }

    proof {
        reveal_strlit("create");
        reveal_strlit("--create");
        assert(spec_long_form("create"@) =~= "--create"@);
        assert(spec_short_form("create"@, ShortFlag::Infer) =~= seq!['-', 'c']);
    }
    if flag_matches(arg, "create", ShortFlag::Infer) {
        let help = match tail_help(args) {
            Ok(h) => h,
            Err(e) => {
                return Err(e);
            },
        };
        let mut create_args = CreateLayout::new();
        create_args.help = help;
        return Ok(ArgAction::CreateLayout(create_args));
    }

    proof {
        reveal_strlit("add");
        reveal_strlit("--add");
        assert(spec_long_form("add"@) =~= "--add"@);
        assert(spec_short_form("add"@, ShortFlag::Infer) =~= seq!['-', 'a']);
    }
    if flag_matches(arg, "add", ShortFlag::Infer) {
        if args.len() == 1 {
            return Err(Error::InvalidArgs);
        }
        proof {
            assert(vs[1] == args@[1]@);
        }
        if !(is_help_arg(&args[1]) && args.len() == 2) {
            return Err(Error::InvalidArgs);
        }
        if add_path_exists {
            return Ok(ArgAction::AddToOpConfig(IncludeAction { path: args[1].clone(), help: true }));
        }
        return Err(Error::NoProjectsFound);
    }

    proof {
        reveal_strlit("git-status");
        reveal_strlit("--git-status");
        assert(spec_long_form("git-status"@) =~= "--git-status"@);
        assert(spec_short_form("git-status"@, ShortFlag::Value('g')) =~= seq!['-', 'g']);
    }
    if flag_matches(arg, "git-status", ShortFlag::Value('g')) {
        let help = match tail_help(args) {
            Ok(h) => h,
            Err(e) => {
                return Err(e);
            },
        };
        return Ok(ArgAction::GetGitStatus(GitStatusAction { help }));
    }

    proof {
        reveal_strlit("fuz");
        reveal_strlit("--fuz");
        assert(spec_long_form("fuz"@) =~= "--fuz"@);
        assert(spec_short_form("fuz"@, ShortFlag::Infer) =~= seq!['-', 'f']);
    }
    if flag_matches(arg, "fuz", ShortFlag::Infer) {
        if args.len() == 1 {
            return Ok(ArgAction::FuzFind(FuzFindAction {
                filter_string: String::new(),
                help: false,
            }));
        }
        proof {
            assert(vs[1] == args@[1]@);
        }
        if is_help_arg(&args[1]) && args.len() == 2 {
            return Ok(ArgAction::FuzFind(FuzFindAction {
                filter_string: args[1].clone(),
                help: true,
            }));
        }
        return Err(Error::InvalidArgs);
    }

    // Anything else opens the named project.
    let mut op_args = OpAction {
        proj_name: arg.clone(),
        print_path: false,
        print_uri: false,
        help: false,
    };
    let mut idx: usize = 1;
    if args.len() >= 2 {
        proof {
            assert(vs[1] == args@[1]@);
            reveal_strlit("print");
            reveal_strlit("--print");
            reveal_strlit("uri");
            reveal_strlit("--uri");
            assert(spec_long_form("print"@) =~= "--print"@);
            assert(spec_short_form("print"@, ShortFlag::Infer) =~= seq!['-', 'p']);
            assert(spec_long_form("uri"@) =~= "--uri"@);
            assert(spec_short_form("uri"@, ShortFlag::Infer) =~= seq!['-', 'u']);
        }
        if flag_matches(&args[1], "print", ShortFlag::Infer) {
            op_args.print_path = true;
            idx = 2;
        } else if flag_matches(&args[1], "uri", ShortFlag::Infer) {
            op_args.print_uri = true;
            idx = 2;
        }
    }
    if args.len() <= idx {
        return Ok(ArgAction::OpenProject(op_args));
    }
    proof {
        assert(vs[idx as int] == args@[idx as int]@);
    }
    if is_help_arg(&args[idx]) && args.len() == idx + 1 {
        op_args.help = true;
        return Ok(ArgAction::OpenProject(op_args));
    }
    Err(Error::InvalidArgs)
}

/// Reads an optional trailing help flag: nothing more, exactly the help
/// flag, or an invalid argument list.
fn tail_help(args: &Vec<String>) -> (r: Result<bool, Error>)
    requires
        args@.len() >= 1,
    ensures
        (match r {
            Ok(h) => spec_tail_help(str_views(args@)) == Ok::<bool, Error>(h),
            Err(e) => spec_tail_help(str_views(args@)) == Err::<bool, Error>(e),
        }),
{
    if args.len() == 1 {
        return Ok(false);
    }
    proof {
        assert(str_views(args@)[1] == args@[1]@);
    }
    if is_help_arg(&args[1]) && args.len() == 2 {
        return Ok(true);
    }
    Err(Error::InvalidArgs)
}

/// The first `k` names joined by line feeds, with no trailing line feed
/// after the last of all `names`.
pub open spec fn join_prefix(names: Seq<Seq<char>>, k: int) -> Seq<char>
    decreases k,
{
    if k <= 0 {
        Seq::empty()
    } else {
        join_prefix(names, k - 1) + names[k - 1] + (if k - 1 < names.len() - 1 {
            "\n"@
        } else {
            Seq::<char>::empty()
        })
    }
}

/// The one-shot find: every display name matching the filter string, ranked
/// by score and joined by line feeds.
pub fn fuz_find_output(projects: &Projects, filter_string: &str) -> (r: String)
    requires
        projects.wf(),
    ensures
        ({
            let ms = crate::projects::sort_desc(
                crate::projects::matches_of(
                    filter_string@,
                    crate::projects::names_of(crate::projects::entry_views(projects.dir_items@)),
                ) + crate::projects::compound_matches(
                    filter_string@,
                    projects.compound_projects@,
                ),
            );
            r@ == join_prefix(crate::projects::match_names(ms), ms.len() as int)
        }),
{
    let list = projects.filter_project_list(filter_string);
    let ghost names = crate::projects::match_names(crate::projects::match_views(list@));
    let mut output = String::new();
    let n = list.len();
    let mut i: usize = 0;
    while i < n
        invariant
            i <= n,
            n == list@.len(),
            names == crate::projects::match_names(crate::projects::match_views(list@)),
            names.len() == n,
            output@ == join_prefix(names, i as int),
        decreases n - i,
    {
        let ghost out0 = output@;
        output.append(list[i].0.as_str());
        if i < n - 1 {
            output.append("\n");
        }
        i = i + 1;
        proof {
            assert(crate::projects::match_views(list@)[i - 1] == crate::projects::match_view(
                list@[i - 1],
            ));
            assert(names[i - 1] == list@[i - 1].0@);
            assert(output@ =~= join_prefix(names, i as int));
        }
    }
    output
}

/// Rewrites a version-control remote (such as an SSH remote) as a browsable
/// URI: every colon becomes a slash, the SSH user prefix becomes a scheme,
/// and the repository suffix is dropped.
pub fn format_remote_uri(raw: &str) -> (r: String)
    ensures
        r@ == replace_seq(
            replace_seq(replace_seq(raw@, ":"@, "/"@), "git@"@, "https://"@),
            ".git"@,
            ""@,
        ),
{
    let step1 = replace_str(raw, ":", "/");
    let step2 = replace_str(step1.as_str(), "git@", "https://");
    replace_str(step2.as_str(), ".git", "")
}

} // verus!
