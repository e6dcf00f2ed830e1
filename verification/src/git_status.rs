//! Parsing of the version-control client's textual branch status, and the
//! decision which repositories the status report surfaces.
//!
//! The first line of a short branch status has the shape
//! `## <branch>...<upstream> [ahead N, behind M]`, where the bracketed
//! trailer is optional; every further line is one changed file.

use vstd::prelude::*;
use crate::strutil::{eq_chars, starts_with, str_to_chars};

verus! {

/// A repository's branch state, as read from one status query.
#[derive(Debug, Clone)]
pub struct Branch {
    /// No uncommitted change in the worktree.
    pub local_clean_worktree: bool,
    /// Commits ahead of the upstream branch.
    pub ahead_of_remote: i32,
    /// Commits behind the upstream branch.
    pub behind_of_remote: i32,
}

/// A repository path with its parsed branch state.
#[derive(Debug, Clone)]
pub struct GitProject {
    pub path: String,
    pub branch: Branch,
}

/// Whether `c` is a decimal digit.
pub open spec fn is_digit(c: char) -> bool {
    ('0' as u32) <= (c as u32) && (c as u32) <= ('9' as u32)
}

/// The digit's value.
pub open spec fn digit_val(c: char) -> int {
    (c as u32) - ('0' as u32)
}

/// Whether every character of `s` is a decimal digit.
pub open spec fn all_digits(s: Seq<char>) -> bool {
    forall|i: int| 0 <= i < s.len() ==> is_digit(s[i])
}

/// The value of a digit string, most significant first.
pub open spec fn digits_val(s: Seq<char>) -> int
    decreases s.len(),
{
    if s.len() == 0 {
        0
    } else {
        digits_val(s.drop_last()) * 10 + digit_val(s.last())
    }
}

/// What `str::parse::<i32>()` followed by `unwrap_or_default` yields: the
/// signed decimal value when the whole string is an optional sign and digits
/// and the value fits an `i32`, and zero otherwise.
pub open spec fn parse_i32_or_zero(s: Seq<char>) -> int {
    let neg = s.len() > 0 && s[0] == '-';
    let ds = if s.len() > 0 && (s[0] == '-' || s[0] == '+') {
        s.skip(1)
    } else {
        s
    };
    if ds.len() == 0 || !all_digits(ds) {
        0
    } else if neg {
        if digits_val(ds) <= 0x8000_0000 {
            -digits_val(ds)
        } else {
            0
        }
    } else {
        if digits_val(ds) <= 0x7fff_ffff {
            digits_val(ds)
        } else {
            0
        }
    }
}

proof fn lemma_digits_val_nonneg(s: Seq<char>)
    requires
        all_digits(s),
    ensures
        digits_val(s) >= 0,
    decreases s.len(),
{
    if s.len() > 0 {
        lemma_digits_val_nonneg(s.drop_last());
    }
}

/// The value of the signed decimal string, clamped to zero when malformed or
/// out of range, as `str::parse::<i32>().unwrap_or_default()` computes it.
pub fn parse_i32_or_zero_exec(s: &Vec<char>) -> (r: i32)
    ensures
        r as int == parse_i32_or_zero(s@),
{
    let n = s.len();
    let mut i: usize = 0;
    let mut neg = false;
    if n > 0 && (s[0] == '-' || s[0] == '+') {
        neg = s[0] == '-';
        i = 1;
    }
    let ghost ds = if s@.len() > 0 && (s@[0] == '-' || s@[0] == '+') {
        s@.skip(1)
    } else {
        s@
    };
    proof {
        assert(ds =~= s@.skip(i as int));
    }
    if i == n {
        return 0;
    }
    let mut v: i64 = 0;
    let mut too_big = false;
    let start = i;
    while i < n
        invariant
            start <= i <= n,
            n == s@.len(),
            start < n,
            ds == s@.skip(start as int),
            ds == (if s@.len() > 0 && (s@[0] == '-' || s@[0] == '+') {
                s@.skip(1)
            } else {
                s@
            }),
            neg == (s@.len() > 0 && s@[0] == '-'),
            ds.len() == n - start,
            all_digits(ds.take((i - start) as int)),
            !too_big ==> 0 <= v == digits_val(ds.take((i - start) as int)),
            too_big ==> digits_val(ds.take((i - start) as int)) > 0x8000_0000,
            too_big ==> all_digits(ds.take((i - start) as int)) ==> digits_val(ds.take((i
                - start) as int)) > 0x8000_0000,
            !too_big ==> v <= 0x8000_0000,
        decreases n - i,
    {
        let c = s[i];
        if !((c as u32) >= 48 && (c as u32) <= 57) {
            proof {
                assert(ds[(i - start) as int] == s@[i as int]);
                assert(!is_digit(ds[(i - start) as int]));
                assert(!all_digits(ds));
            }
            return 0;
        }
        let d: i64 = ((c as u32) - 48) as i64;
        let ghost prefix = ds.take((i - start) as int);
        let ghost prefix1 = ds.take((i + 1 - start) as int);
        proof {
            assert(prefix1.drop_last() =~= prefix);
            assert(prefix1.last() == ds[(i - start) as int]);
            assert(all_digits(prefix1));
            lemma_digits_val_nonneg(prefix1);
        }
        if too_big {
            proof {
                lemma_digits_val_nonneg(prefix);
                assert(digits_val(prefix1) >= digits_val(prefix) * 10);
                assert(digits_val(prefix) * 10 >= digits_val(prefix)) by (nonlinear_arith)
                    requires
                        digits_val(prefix) >= 0,
                ;
            }
        } else {
            let nv = v * 10 + d;
            if nv > 0x8000_0000 {
                too_big = true;
            } else {
                v = nv;
            }
        }
        i = i + 1;
    }
    proof {
        assert(ds.take((n - start) as int) =~= ds);
    }
    if too_big {
        return 0;
    }
    if neg {
        proof {
            assert(s@[0] == '-');
        }
        if v <= 0x8000_0000 {
            (-v) as i32
        } else {
            0
        }
    } else {
        if v <= 0x7fff_ffff {
            v as i32
        } else {
            0
        }
    }
}

/// The token scan's state over the bracketed status trailer.
pub ghost struct GitScan {
    pub buf: Seq<char>,
    pub is_ahead: bool,
    pub ahead: int,
    pub behind: int,
}

/// The scan's state before the trailer: counting the `ahead` number, both
/// counts zero.
pub open spec fn git_scan_init() -> GitScan {
    GitScan { buf: Seq::empty(), is_ahead: true, ahead: 0, behind: 0 }
}

/// One step of the trailer scan: brackets are skipped, `]` and `,` close a
/// number token, a space closes a word token (the word `behind` switches
/// which count a number feeds), and any other character extends the token.
pub open spec fn git_scan_step(st: GitScan, c: char) -> GitScan {
    if c == '[' {
        st
    } else if c == ']' || c == ',' {
        GitScan {
            buf: Seq::empty(),
            is_ahead: st.is_ahead,
            ahead: if st.is_ahead {
                parse_i32_or_zero(st.buf)
            } else {
                st.ahead
            },
            behind: parse_i32_or_zero(st.buf),
        }
    } else if c == ' ' {
        GitScan {
            buf: Seq::empty(),
            is_ahead: if st.buf == "behind"@ {
                false
            } else {
                st.is_ahead
            },
            ahead: st.ahead,
            behind: st.behind,
        }
    } else {
        GitScan { buf: st.buf.push(c), is_ahead: st.is_ahead, ahead: st.ahead, behind: st.behind }
    }
}

/// The trailer scan over the remaining characters `s`.
pub open spec fn git_scan_run(st: GitScan, s: Seq<char>) -> GitScan
    decreases s.len(),
{
    if s.len() == 0 {
        st
    } else {
        git_scan_run(git_scan_step(st, s[0]), s.skip(1))
    }
}

/// The index of the first occurrence of `ch` in `s`, or a negative value when
/// it does not occur.
pub open spec fn find_first(s: Seq<char>, ch: char) -> int
    decreases s.len(),
{
    if s.len() == 0 {
        -1
    } else if s[0] == ch {
        0
    } else {
        let r = find_first(s.skip(1), ch);
        if r < 0 {
            -1
        } else {
            1 + r
        }
    }
}

pub proof fn lemma_find_first_props(s: Seq<char>, ch: char)
    ensures
        find_first(s, ch) >= 0 ==> find_first(s, ch) < s.len() && s[find_first(s, ch)] == ch
            && (forall|j: int| 0 <= j < find_first(s, ch) ==> s[j] != ch),
        find_first(s, ch) < 0 ==> (forall|j: int| 0 <= j < s.len() ==> s[j] != ch),
    decreases s.len(),
{
    if s.len() > 0 && s[0] != ch {
        lemma_find_first_props(s.skip(1), ch);
        let r = find_first(s.skip(1), ch);
        if r >= 0 {
            assert(s[1 + r] == s.skip(1)[r]);
            assert forall|j: int| 0 <= j < 1 + r implies s[j] != ch by {
                if j > 0 {
                    assert(s.skip(1)[j - 1] != ch);
                }
            }
        } else {
            assert forall|j: int| 0 <= j < s.len() implies s[j] != ch by {
                if j > 0 {
                    assert(s.skip(1)[j - 1] != ch);
                }
            }
        }
    }
}

/// The first occurrence of `ch` in the vector, scanning left to right.
pub fn find_char(v: &Vec<char>, ch: char) -> (r: Option<usize>)
    ensures
        (match r {
            Some(i) => find_first(v@, ch) == i,
            None => find_first(v@, ch) < 0,
        }),
{
    let n = v.len();
    let mut i: usize = 0;
    proof {
        lemma_find_first_props(v@, ch);
    }
    while i < n
        invariant
            i <= n,
            n == v@.len(),
            forall|j: int| 0 <= j < i ==> v@[j] != ch,
            find_first(v@, ch) >= 0 ==> find_first(v@, ch) < n && v@[find_first(v@, ch)] == ch
                && (forall|j: int| 0 <= j < find_first(v@, ch) ==> v@[j] != ch),
            find_first(v@, ch) < 0 ==> (forall|j: int| 0 <= j < n ==> v@[j] != ch),
        decreases n - i,
    {
        if v[i] == ch {
            return Some(i);
        }
        i = i + 1;
    }
    None
}

/// The characters of `v` from `from` on.
pub fn vec_suffix(v: &Vec<char>, from: usize) -> (r: Vec<char>)
    requires
        from <= v@.len(),
    ensures
        r@ == v@.skip(from as int),
{
    let n = v.len();
    let mut r: Vec<char> = Vec::new();
    let mut i: usize = from;
    while i < n
        invariant
            from <= i <= n,
            n == v@.len(),
            r@ == v@.subrange(from as int, i as int),
        decreases n - i,
    {
        let c = v[i];
        r.push(c);
        i = i + 1;
        proof {
            assert(r@ =~= v@.subrange(from as int, i as int));
        }
    }
    proof {
        assert(v@.subrange(from as int, n as int) =~= v@.skip(from as int));
    }
    r
}

/// Whether the vector begins with the prefix.
pub fn vec_starts_with(v: &Vec<char>, p: &Vec<char>) -> (r: bool)
    ensures
        r == starts_with(v@, p@),
{
    let pn = p.len();
    if pn > v.len() {
        proof {
            assert(!starts_with(v@, p@));
        }
        return false;
    }
    let mut i: usize = 0;
    while i < pn
        invariant
            i <= pn <= v@.len(),
            pn == p@.len(),
            forall|j: int| 0 <= j < i ==> v@[j] == p@[j],
        decreases pn - i,
    {
        if v[i] != p[i] {
            proof {
                assert(v@.subrange(0, pn as int)[i as int] != p@[i as int]);
            }
            return false;
        }
        i = i + 1;
    }
    proof {
        assert(v@.subrange(0, pn as int) =~= p@);
    }
    true
}

/// The parsed branch state the status header and change count yield.
pub ghost struct BranchSpec {
    pub clean: bool,
    pub ahead: int,
    pub behind: int,
}

/// What parsing a status header line with `count` further change lines
/// yields: nothing without a space-separated header or for a repository with
/// no commits yet; otherwise the ahead and behind counts read from the
/// bracketed trailer (zero when absent) and a clean flag from the count.
pub open spec fn spec_parse_git_status(line: Seq<char>, count: nat) -> Option<BranchSpec> {
    let i = find_first(line, ' ');
    if i < 0 {
        None
    } else {
        let details = line.skip(i + 1);
        if starts_with(details, "No commits"@) {
            None
        } else {
            let j = find_first(details, ' ');
            if j < 0 {
                Some(BranchSpec { clean: count == 0, ahead: 0, behind: 0 })
            } else {
                let st = git_scan_run(git_scan_init(), details.skip(j + 1));
                Some(BranchSpec { clean: count == 0, ahead: st.ahead, behind: st.behind })
            }
        }
    }
}

/// Parses the first line of a short branch status, given how many change
/// lines followed it.
fn parse_git_status_chars(line: &Vec<char>, count: usize) -> (r: Option<Branch>)
    ensures
        (match spec_parse_git_status(line@, count as nat) {
            None => r is None,
            Some(bs) => (match r {
                Some(b) => b.local_clean_worktree == bs.clean && b.ahead_of_remote as int
                    == bs.ahead && b.behind_of_remote as int == bs.behind,
                None => false,
            }),
        }),
{
    let first_space = find_char(line, ' ');
    let i = match first_space {
        Some(i) => i,
        None => {
            return None;
        },
    };
    let line_len = line.len();
    proof {
        lemma_find_first_props(line@, ' ');
        assert(i < line_len);
    }
    let details = vec_suffix(line, i + 1);
    let no_commits = str_to_chars("No commits");
    if vec_starts_with(&details, &no_commits) {
        return None;
    }
    let local_clean_worktree = count == 0;
    let mut ahead_of_remote: i32 = 0;
    let mut behind_of_remote: i32 = 0;

    let second_space = find_char(&details, ' ');
    if let Some(j) = second_space {
        let details_len = details.len();
        proof {
            lemma_find_first_props(details@, ' ');
            assert(j < details_len);
        }
        let status = vec_suffix(&details, j + 1);
        let ghost sseq = status@;
        let behind_word = str_to_chars("behind");
        let mut buf: Vec<char> = Vec::new();
        let mut is_ahead = true;
        let n = status.len();
        let mut k: usize = 0;
        proof {
            assert(sseq.skip(0) =~= sseq);
        }
        while k < n
            invariant
                k <= n,
                n == sseq.len(),
                status@ == sseq,
                behind_word@ == "behind"@,
                git_scan_run(git_scan_init(), sseq) == git_scan_run(
                    (GitScan {
                        buf: buf@,
                        is_ahead: is_ahead,
                        ahead: ahead_of_remote as int,
                        behind: behind_of_remote as int,
                    }),
                    sseq.skip(k as int),
                ),
            decreases n - k,
        {
            let ghost st0 = GitScan {
                buf: buf@,
                is_ahead: is_ahead,
                ahead: ahead_of_remote as int,
                behind: behind_of_remote as int,
            };
            let c = status[k];
            if c == '[' {
            } else if c == ']' || c == ',' {
                if is_ahead {
                    ahead_of_remote = parse_i32_or_zero_exec(&buf);
                }
                behind_of_remote = parse_i32_or_zero_exec(&buf);
                buf = Vec::new();
            } else if c == ' ' {
                if eq_chars(&buf, &behind_word) {
                    is_ahead = false;
                }
                buf = Vec::new();
            } else {
                buf.push(c);
            }
            k = k + 1;
            proof {
                let st1 = GitScan {
                    buf: buf@,
                    is_ahead: is_ahead,
                    ahead: ahead_of_remote as int,
                    behind: behind_of_remote as int,
                };
                assert(st1 == git_scan_step(st0, sseq[k - 1]));
                assert(sseq.skip(k - 1)[0] == sseq[k - 1]);
                assert(sseq.skip(k - 1).skip(1) =~= sseq.skip(k as int));
                assert(git_scan_run(st0, sseq.skip(k - 1)) == git_scan_run(st1, sseq.skip(k as int)));
            }
        }
        proof {
            assert(sseq.skip(n as int) =~= Seq::<char>::empty());
        }
    }

    Some(Branch { local_clean_worktree, ahead_of_remote, behind_of_remote })
}

/// Parses the first output line of the version-control client's short branch
/// status, given how many further output lines there were.
pub fn parse_git_status_output(status_line: &str, count: usize) -> (r: Option<Branch>)
    ensures
        (match spec_parse_git_status(status_line@, count as nat) {
            None => r is None,
            Some(bs) => (match r {
                Some(b) => b.local_clean_worktree == bs.clean && b.ahead_of_remote as int
                    == bs.ahead && b.behind_of_remote as int == bs.behind,
                None => false,
            }),
        }),
{
    let chars = str_to_chars(status_line);
    parse_git_status_chars(&chars, count)
}

/// How many occurrences of `ch` the sequence holds.
pub open spec fn count_char(s: Seq<char>, ch: char) -> int
    decreases s.len(),
{
    if s.len() == 0 {
        0
    } else {
        (if s[0] == ch {
            1int
        } else {
            0int
        }) + count_char(s.skip(1), ch)
    }
}

/// How many lines `str::lines` yields for `s`: one per line feed, plus a
/// final line when the text does not end in one.
pub open spec fn count_lines(s: Seq<char>) -> int {
    if s.len() == 0 {
        0
    } else if s.last() == '\n' {
        count_char(s, '\n')
    } else {
        count_char(s, '\n') + 1
    }
}

proof fn lemma_count_char_nonneg(s: Seq<char>, ch: char)
    ensures
        count_char(s, ch) >= 0,
    decreases s.len(),
{
    if s.len() > 0 {
        lemma_count_char_nonneg(s.skip(1), ch);
    }
}

/// Counts the occurrences of `ch` in the vector.
fn count_char_exec(v: &Vec<char>, ch: char) -> (r: usize)
    ensures
        r as int == count_char(v@, ch),
{
    let n = v.len();
    let mut i: usize = 0;
    let mut r: usize = 0;
    proof {
        assert(v@.skip(0) =~= v@);
        lemma_count_char_nonneg(v@, ch);
    }
    while i < n
        invariant
            i <= n,
            n == v@.len(),
            r as int + count_char(v@.skip(i as int), ch) == count_char(v@, ch),
            r <= i,
            count_char(v@.skip(i as int), ch) >= 0,
        decreases n - i,
    {
        proof {
            assert(v@.skip(i as int)[0] == v@[i as int]);
            assert(v@.skip(i as int).skip(1) =~= v@.skip(i + 1));
            lemma_count_char_nonneg(v@.skip(i + 1), ch);
        }
        if v[i] == ch {
            r = r + 1;
        }
        i = i + 1;
    }
    proof {
        assert(v@.skip(n as int) =~= Seq::<char>::empty());
    }
    r
}

/// The first status line and the count of further lines, as `str::lines`
/// splits the captured output: the header is the text up to the first line
/// feed, with a carriage return before that line feed stripped.
pub open spec fn spec_first_line_and_rest(s: Seq<char>) -> (Seq<char>, int) {
    let i = find_first(s, '\n');
    if i < 0 {
        (s, 0)
    } else {
        let first = s.take(i);
        let stripped = if first.len() > 0 && first.last() == '\r' {
            first.drop_last()
        } else {
            first
        };
        (stripped, count_lines(s.skip(i + 1)))
    }
}

/// What the whole captured status output yields: nothing on a failing exit
/// code or empty output, else the header parse over the remaining-line count.
pub open spec fn spec_git_status_from_output(output: Seq<char>, exit_code: int) -> Option<
    BranchSpec,
> {
    if exit_code != 0 || output.len() == 0 {
        None
    } else {
        let (line, rest) = spec_first_line_and_rest(output);
        spec_parse_git_status(line, rest as nat)
    }
}

/// Turns one repository's captured status output and exit code into its
/// parsed state; the caller runs the status query itself.
pub fn git_status_from_output(path: &String, output: &str, exit_code: i32) -> (r: Option<
    GitProject,
>)
    ensures
        (match spec_git_status_from_output(output@, exit_code as int) {
            None => r is None,
            Some(bs) => (match r {
                Some(g) => g.path@ == path@ && g.branch.local_clean_worktree == bs.clean
                    && g.branch.ahead_of_remote as int == bs.ahead
                    && g.branch.behind_of_remote as int == bs.behind,
                None => false,
            }),
        }),
{
    if exit_code != 0 {
        return None;
    }
    let chars = str_to_chars(output);
    if chars.len() == 0 {
        return None;
    }
    let nl = find_char(&chars, '\n');
    let mut line: Vec<char>;
    let mut rest_count: usize = 0;
    match nl {
        None => {
            line = chars;
        },
        Some(i) => {
            proof {
                lemma_find_first_props(chars@, '\n');
            }
            line = vec_prefix(&chars, i);
            if line.len() > 0 && line[line.len() - 1] == '\r' {
                let ghost before = line@;
                line.pop();
                proof {
                    assert(line@ =~= before.drop_last());
                }
            }
            let rest = vec_suffix(&chars, i + 1);
            let nls = count_char_exec(&rest, '\n');
            if rest.len() == 0 {
                rest_count = 0;
            } else if rest[rest.len() - 1] == '\n' {
                rest_count = nls;
            } else {
                proof {
                    lemma_count_char_le_len(rest@, '\n');
                }
                rest_count = nls + 1;
            }
        },
    }
    let branch = parse_git_status_chars(&line, rest_count);
    match branch {
        Some(b) => Some(GitProject { path: path.clone(), branch: b }),
        None => None,
    }
}

proof fn lemma_count_char_le_len(s: Seq<char>, ch: char)
    ensures
        count_char(s, ch) <= s.len(),
    decreases s.len(),
{
    if s.len() > 0 {
        lemma_count_char_le_len(s.skip(1), ch);
    }
}

/// The characters of `v` before `upto`.
pub fn vec_prefix(v: &Vec<char>, upto: usize) -> (r: Vec<char>)
    requires
        upto <= v@.len(),
    ensures
        r@ == v@.take(upto as int),
{
    let mut r: Vec<char> = Vec::new();
    let mut i: usize = 0;
    while i < upto
        invariant
            i <= upto <= v@.len(),
            r@ == v@.subrange(0, i as int),
        decreases upto - i,
    {
        let c = v[i];
        r.push(c);
        i = i + 1;
        proof {
            assert(r@ =~= v@.subrange(0, i as int));
        }
    }
    r
}

/// The tags under which the status report surfaces a repository: out of sync
/// when it is both ahead of and behind its upstream, and dirty when the
/// worktree has uncommitted changes; a repository with neither tag is not
/// shown.
pub fn status_tags(branch: &Branch) -> (r: Vec<&'static str>)
    ensures
        r@.map_values(|t: &str| t@) == spec_status_tags(
            branch.local_clean_worktree,
            branch.ahead_of_remote as int,
            branch.behind_of_remote as int,
        ),
{
    let mut r: Vec<&'static str> = Vec::new();
    if branch.ahead_of_remote != 0 && branch.behind_of_remote != 0 {
        r.push("NOT IN SYNC");
    }
    if !branch.local_clean_worktree {
        r.push("DIRTY");
    }
    proof {
        assert(r@.map_values(|t: &str| t@) =~= spec_status_tags(
            branch.local_clean_worktree,
            branch.ahead_of_remote as int,
            branch.behind_of_remote as int,
        ));
    }
    r
}

/// The report tags for a branch state: `NOT IN SYNC` only when both counts
/// are nonzero, then `DIRTY` for an unclean worktree.
pub open spec fn spec_status_tags(clean: bool, ahead: int, behind: int) -> Seq<Seq<char>> {
    let base: Seq<Seq<char>> = if ahead != 0 && behind != 0 {
        seq!["NOT IN SYNC"@]
    } else {
        Seq::empty()
    };
    if !clean {
        base.push("DIRTY"@)
    } else {
        base
    }
}

} // verus!
