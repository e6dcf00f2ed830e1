//! Locating executables on the search path: splitting the path variable's
//! value into directories, reading an executable's name from a Windows file
//! name, and checking a name against the collected list. Reading the
//! variable and the directories themselves is the caller's part.

use vstd::prelude::*;
use vstd::string::StrSliceExecFns;
use crate::git_status::{find_first, lemma_find_first_props};
use crate::projects::{str_eq, str_views};
use crate::strutil::{starts_with, starts_with_at};

verus! {

/// The non-empty segments of `s` between occurrences of `sep`, in order.
pub open spec fn split_nonempty(s: Seq<char>, sep: char) -> Seq<Seq<char>>
    decreases s.len(),
{
    if s.len() == 0 {
        Seq::empty()
    } else {
        let i = find_first(s, sep);
        if i < 0 || i >= s.len() {
            seq![s]
        } else {
            let head = s.take(i);
            let rest = split_nonempty(s.skip(i + 1), sep);
            if head.len() == 0 {
                rest
            } else {
                seq![head] + rest
            }
        }
    }
}

/// Splits a path variable's value at the separator, dropping empty
/// segments: the directories a search-path walk visits, in order.
pub fn split_path_entries(path_value: &str, separator: char) -> (r: Vec<String>)
    ensures
        str_views(r@) == split_nonempty(path_value@, separator),
{
    let ghost s = path_value@;
    let n = path_value.unicode_len();
    let mut out: Vec<String> = Vec::new();
    let mut i: usize = 0;
    proof {
        assert(s.skip(0) =~= s);
        assert(str_views(out@) + split_nonempty(s.skip(0), separator) =~= split_nonempty(
            s,
            separator,
        ));
    }
    while i < n
        invariant
            i <= n,
            n == s.len(),
            path_value@ == s,
            str_views(out@) + split_nonempty(s.skip(i as int), separator) == split_nonempty(
                s,
                separator,
            ),
        decreases n - i,
    {
        let ghost i0 = i as int;
        let ghost rest = s.skip(i0);
        let mut j: usize = i;
        loop
            invariant
                i <= j <= n,
                n == s.len(),
                path_value@ == s,
                forall|k: int| i <= k < j ==> s[k] != separator,
            ensures
                i <= j <= n,
                forall|k: int| i <= k < j ==> s[k] != separator,
                j < n ==> s[j as int] == separator,
            decreases n - j,
        {
            if j >= n {
                break ;
            }
            if path_value.get_char(j) == separator {
                break ;
            }
            j = j + 1;
        }
        let ghost j0 = j as int;
        proof {
            lemma_find_first_props(rest, separator);
            let f = find_first(rest, separator);
            if j0 < n {
                assert(rest[j0 - i0] == separator);
                if f < 0 {
                    assert(false);
                }
                if f < j0 - i0 {
                    assert(rest[f] == s[i0 + f]);
                    assert(false);
                }
                if f > j0 - i0 {
                    assert(rest[j0 - i0] != separator);
                    assert(false);
                }
            } else {
                if f >= 0 {
                    assert(rest[f] == s[i0 + f]);
                    assert(false);
                }
            }
        }
        let ghost out0 = str_views(out@);
        if j > i {
            let seg = path_value.substring_char(i, j);
            out.push(seg.to_owned());
            proof {
                assert(str_views(out@) =~= out0.push(s.subrange(i0, j0)));
            }
        }
        proof {
            assert(rest.take(j0 - i0) =~= s.subrange(i0, j0));
        }
        if j < n {
            i = j + 1;
            proof {
                assert(rest.skip(j0 - i0 + 1) =~= s.skip(i as int));
                let head = rest.take(j0 - i0);
                if head.len() > 0 {
                    assert(split_nonempty(rest, separator) == seq![head] + split_nonempty(
                        s.skip(i as int),
                        separator,
                    ));
                    assert(str_views(out@) + split_nonempty(s.skip(i as int), separator)
                        =~= out0 + split_nonempty(rest, separator));
                } else {
                    assert(split_nonempty(rest, separator) == split_nonempty(
                        s.skip(i as int),
                        separator,
                    ));
                    assert(str_views(out@) + split_nonempty(s.skip(i as int), separator)
                        =~= out0 + split_nonempty(rest, separator));
                }
            }
        } else {
            i = n;
            proof {
                assert(s.skip(n as int) =~= Seq::<char>::empty());
                assert(rest.len() > 0);
                assert(split_nonempty(rest, separator) == seq![rest]);
                assert(rest.take(j0 - i0) =~= rest);
                assert(str_views(out@) + split_nonempty(s.skip(i as int), separator) =~= out0
                    + split_nonempty(rest, separator));
            }
        }
    }
    proof {
        assert(s.skip(n as int) =~= Seq::<char>::empty());
        assert(str_views(out@) =~= str_views(out@) + split_nonempty(s.skip(n as int), separator));
    }
    out
}

/// Whether `s` ends with `suf`.
pub open spec fn ends_with(s: Seq<char>, suf: Seq<char>) -> bool {
    suf.len() <= s.len() && s.skip(s.len() - suf.len()) == suf
}

/// Whether the executable name occurs in the collected list.
pub fn executable_in_list(exec_name: &String, all_executables: &Vec<String>) -> (r: bool)
    ensures
        r == str_views(all_executables@).contains(exec_name@),
{
    let n = all_executables.len();
    let mut i: usize = 0;
    while i < n
        invariant
            i <= n,
            n == all_executables@.len(),
            forall|j: int| 0 <= j < i ==> str_views(all_executables@)[j] != exec_name@,
        decreases n - i,
    {
        proof {
            assert(str_views(all_executables@)[i as int] == all_executables@[i as int]@);
        }
        if str_eq(all_executables[i].as_str(), exec_name.as_str()) {
            proof {
                assert(str_views(all_executables@)[i as int] == exec_name@);
            }
            return true;
        }
        i = i + 1;
    }
    false
}

/// The executable name a Windows directory entry contributes: for a file
/// name ending in `.exe`, everything before the first `.exe`; any other
/// file is no executable.
pub fn strip_exe_name(file_name: &str) -> (r: Option<String>)
    ensures
        (match r {
            Some(name) => ends_with(file_name@, ".exe"@) && (exists|k: int|
                0 <= k <= file_name@.len() - 4 && name@ == file_name@.take(k) && starts_with(
                    #[trigger] file_name@.skip(k),
                    ".exe"@,
                ) && (forall|j: int| 0 <= j < k ==> !starts_with(file_name@.skip(j), ".exe"@))),
            None => !ends_with(file_name@, ".exe"@),
        }),
{
    let n = file_name.unicode_len();
    proof {
        reveal_strlit(".exe");
    }
    if n < 4 {
        proof {
            assert(!ends_with(file_name@, ".exe"@));
        }
        return None;
    }
    if !starts_with_at(file_name, n - 4, ".exe") {
        proof {
            if ends_with(file_name@, ".exe"@) {
                assert(file_name@.skip(n - 4).subrange(0, 4) =~= file_name@.skip(n - 4));
                assert(starts_with(file_name@.skip(n - 4), ".exe"@));
            }
        }
        return None;
    }
    proof {
        assert(file_name@.skip(n - 4).subrange(0, 4) =~= file_name@.skip(n - 4));
        assert(ends_with(file_name@, ".exe"@));
    }
    let mut k: usize = 0;
    loop
        invariant
            k <= n - 4,
            n >= 4,
            n == file_name@.len(),
            starts_with(file_name@.skip(n - 4), ".exe"@),
            ".exe"@.len() == 4,
            forall|j: int| 0 <= j < k ==> !starts_with(file_name@.skip(j), ".exe"@),
        ensures
            k <= n - 4,
            n == file_name@.len(),
            starts_with(file_name@.skip(k as int), ".exe"@),
            forall|j: int| 0 <= j < k ==> !starts_with(file_name@.skip(j), ".exe"@),
        decreases n - k,
    {
        if k >= n - 4 {
            break ;
        }
        if starts_with_at(file_name, k, ".exe") {
            break ;
        }
        k = k + 1;
    }
    let name = file_name.substring_char(0, k).to_owned();
    proof {
        assert(name@ == file_name@.take(k as int));
        assert(0 <= k as int <= file_name@.len() - 4 && name@ == file_name@.take(k as int)
            && starts_with(file_name@.skip(k as int), ".exe"@) && (forall|j: int|
            0 <= j < k ==> !starts_with(file_name@.skip(j), ".exe"@)));
    }
    Some(name)
}

} // verus!
