//! Command-line flag recognition and the shared empty-index check.

use vstd::prelude::*;
use vstd::string::StrSliceExecFns;
use crate::error::Error;
use crate::projects::ProjectEntry;

verus! {

/// How a flag's one-letter form is chosen: inferred from the flag name's
/// first letter, or given outright.
#[derive(Debug, Clone, Copy)]
pub enum ShortFlag {
    Infer,
    Value(char),
}

impl Default for ShortFlag {
    /// The default is to infer the short form.
    fn default() -> (r: Self)
        ensures
            r is Infer,
    {
        ShortFlag::Infer
    }
}

/// The one-letter form an argument must equal: a dash and the chosen letter.
pub open spec fn spec_short_form(flag_name: Seq<char>, short_name: ShortFlag) -> Seq<char> {
    match short_name {
        ShortFlag::Infer => seq!['-', flag_name[0]],
        ShortFlag::Value(c) => seq!['-', c],
    }
}

/// The long form an argument must equal: two dashes and the flag name.
pub open spec fn spec_long_form(flag_name: Seq<char>) -> Seq<char> {
    "--"@ + flag_name
}

/// Whether `arg` is the given flag, in its one-letter or long form. Fails
/// only when the one-letter form is to be inferred from an empty flag name.
pub fn check_valid_flag(arg: &String, flag_name: &str, short_name: ShortFlag) -> (r: Result<
    bool,
    Error,
>)
    ensures
        (match r {
            Ok(b) => (short_name is Infer ==> flag_name@.len() > 0) && b == (arg@
                == spec_short_form(flag_name@, short_name) || arg@ == spec_long_form(flag_name@)),
            Err(e) => short_name is Infer && flag_name@.len() == 0 && e is InvalidArgs,
        }),
{
    let short_notation: char = match short_name {
        ShortFlag::Infer => {
            if flag_name.unicode_len() == 0 {
                return Err(Error::InvalidArgs);
            }
            flag_name.get_char(0)
        },
        ShortFlag::Value(arg_name) => arg_name,
    };
    let ghost short = spec_short_form(flag_name@, short_name);
    proof {
        reveal_strlit("--");
        assert(short.len() == 2 && short[0] == '-' && short[1] == short_notation);
        assert(spec_long_form(flag_name@).len() == flag_name@.len() + 2);
        assert(spec_long_form(flag_name@)[0] == '-');
        assert(spec_long_form(flag_name@)[1] == '-');
    }
    let n = arg.as_str().unicode_len();
    let mut is_short = false;
    if n == 2 {
        is_short = arg.as_str().get_char(0) == '-' && arg.as_str().get_char(1) == short_notation;
        proof {
            if is_short {
                assert(arg@ =~= short);
            }
        }
    }
    let fn_len = flag_name.unicode_len();
    let ghost long = spec_long_form(flag_name@);
    let mut is_long = false;
    if n >= 2 && fn_len == n - 2 {
        if arg.as_str().get_char(0) == '-' && arg.as_str().get_char(1) == '-' {
            let mut i: usize = 0;
            let mut same = true;
            while i < fn_len
                invariant
                    i <= fn_len,
                    fn_len == flag_name@.len(),
                    n == arg@.len() == fn_len + 2,
                    same ==> (forall|j: int| 0 <= j < i ==> arg@[2 + j] == flag_name@[j]),
                    !same ==> arg@ != long,
                    long == spec_long_form(flag_name@),
                    arg@[0] == '-' && arg@[1] == '-',
                decreases fn_len - i,
            {
                if arg.as_str().get_char(2 + i) != flag_name.get_char(i) {
                    proof {
                        reveal_strlit("--");
                        assert(long[2 + i as int] == flag_name@[i as int]);
                    }
                    same = false;
                }
                i = i + 1;
            }
            is_long = same;
            proof {
                reveal_strlit("--");
                if same {
                    assert(arg@ =~= long);
                }
            }
        }
    }
    proof {
        if arg@ == short {
            assert(arg@.len() == 2);
        }
        if arg@ == long {
            assert(arg@.len() == flag_name@.len() + 2);
            assert(arg@[0] == '-' && arg@[1] == '-');
        }
    }
    Ok(is_short || is_long)
}

/// Whether an argument is the help flag, `-h` or `--help`.
pub open spec fn is_help_flag(a: Seq<char>) -> bool {
    a == seq!['-', 'h'] || a == "--help"@
}

/// Recognises the help flag and demands that nothing follows it: anything
/// else is an invalid argument.
pub fn check_help_flag(arg: &String, rest: &Vec<String>) -> (r: Result<bool, Error>)
    ensures
        (match r {
            Ok(b) => b && is_help_flag(arg@) && rest@.len() == 0,
            Err(e) => e is InvalidArgs && !(is_help_flag(arg@) && rest@.len() == 0),
        }),
{
    proof {
        reveal_strlit("help");
        reveal_strlit("--help");
        reveal_strlit("--");
        assert(spec_long_form("help"@) =~= "--help"@);
        assert(spec_short_form("help"@, ShortFlag::Infer) =~= seq!['-', 'h']);
    }
    let help_flag = match check_valid_flag(arg, "help", ShortFlag::Infer) {
        Ok(b) => b,
        Err(e) => {
            return Err(e);
        },
    };
    if help_flag {
        if rest.len() > 0 {
            return Err(Error::InvalidArgs);
        }
        return Ok(true);
    }
    Err(Error::InvalidArgs)
}

/// Fails with `NoProjectsFound` when the index came out empty: callers check
/// this before indexing into the list.
pub fn catch_empty_project_list(all_projs: &Vec<ProjectEntry>) -> (r: Result<(), Error>)
    ensures
        (match r {
            Ok(()) => all_projs@.len() > 0,
            Err(e) => all_projs@.len() == 0 && e is NoProjectsFound,
        }),
{
    if all_projs.is_empty() {
        Err(Error::NoProjectsFound)
    } else {
        Ok(())
    }
}

/// A user-facing description of how an action is invoked.
pub trait HelpTrait {
    /// One or more lines describing the action's flags and effect.
    fn help_text(&self) -> String;
}

} // verus!
