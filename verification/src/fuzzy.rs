//! The fuzzy-ranking match engine: a case-insensitive subsequence matcher
//! with positional bonuses and penalties. The walk keeps one tentative
//! ("pending") occurrence per pattern character and commits it only when a
//! better or equal occurrence forces a decision, so the score prefers
//! adjacent, separator-led and camel-case-aligned matches.
//!
//! The scoring walk is specified by [`step`] and [`run_from`], and the match
//! flag is proved equal to plain case-insensitive subsequence containment
//! ([`ci_subseq`]).

use vstd::prelude::*;
use crate::strutil::{
    char_to_lower, char_to_upper, eq_chars, is_single, lower_char_of, str_to_chars, upper_char_of,
};

verus! {

/// Bonus for a match right after a separator.
pub const SEPARATOR_BONUS: i64 = 10;

/// Bonus for a match adjacent to the previous match.
pub const ADJ_BONUS: i64 = 5;

/// Bonus for a match on a lowercase-to-uppercase boundary.
pub const CAMEL_CASE_BONUS: i64 = 10;

/// Penalty for a candidate character no occurrence consumes.
pub const UNMATCHED_PENALTY: i64 = -1;

/// Penalty per leading character before the first match.
pub const LEAD_PENALTY: i64 = -3;

/// Cap on the accumulated leading penalty.
pub const MAX_LEAD_PENALTY: i64 = -9;

/// The longest candidate the scorer accepts; keeps the accumulated score
/// within `i64` for any walk.
pub const MAX_SCORED_LEN: u64 = 0x0400_0000_0000_0000;

/// Case-insensitive character equality, by the lowercase mapping.
pub open spec fn ci_eq(a: char, b: char) -> bool {
    lower_char_of(a) == lower_char_of(b)
}

/// A cased character that is its own lowercase form.
pub open spec fn is_lower_like(c: char) -> bool {
    seq![c] == lower_char_of(c) && lower_char_of(c) != upper_char_of(c)
}

/// A cased character that is its own uppercase form.
pub open spec fn is_upper_like(c: char) -> bool {
    seq![c] == upper_char_of(c) && lower_char_of(c) != upper_char_of(c)
}

/// A separator character: underscore or space.
pub open spec fn is_sep(c: char) -> bool {
    c == '_' || c == ' '
}

/// A tentative occurrence of the current pattern character, not yet added to
/// the score.
pub ghost struct Pending {
    pub ch: char,
    pub score: int,
}

/// The scoring walk's state between candidate characters.
pub ghost struct ScoreState {
    /// How many pattern characters have been consumed.
    pub p_idx: int,
    /// The committed score so far.
    pub score: int,
    /// Whether the previous candidate character qualified as an occurrence.
    pub prev_match: bool,
    /// Whether the previous candidate character was lowercase.
    pub prev_lower: bool,
    /// Whether the previous candidate character was a separator.
    pub prev_sep: bool,
    /// The pending occurrence, if any.
    pub best: Option<Pending>,
}

/// The walk's state before any candidate character: nothing consumed, and the
/// start of the string counts as a separator boundary.
pub open spec fn init_state() -> ScoreState {
    ScoreState {
        p_idx: 0,
        score: 0,
        prev_match: false,
        prev_lower: false,
        prev_sep: true,
        best: None,
    }
}

/// The pending occurrence's score, zero when none is pending.
pub open spec fn best_score(st: ScoreState) -> int {
    match st.best {
        Some(pnd) => pnd.score,
        None => 0,
    }
}

/// Whether the pending occurrence equals `pc` case-insensitively.
pub open spec fn best_is_ci(st: ScoreState, pc: char) -> bool {
    match st.best {
        Some(pnd) => ci_eq(pc, pnd.ch),
        None => false,
    }
}

/// The leading penalty for a first match at position `i`: three per skipped
/// character, capped at nine.
pub open spec fn lead_pen(i: int) -> int {
    if i < 3 {
        -3 * i
    } else {
        -9
    }
}

/// One step of the scoring walk over candidate character `c` at position
/// `s_idx`.
pub open spec fn step(p: Seq<char>, st: ScoreState, c: char, s_idx: int) -> ScoreState {
    let next_match = 0 <= st.p_idx < p.len() && ci_eq(p[st.p_idx], c);
    let rematch = 0 <= st.p_idx < p.len() && best_is_ci(st, p[st.p_idx]);
    let commit = (next_match || rematch) && st.best is Some;
    let score0 = if commit {
        st.score + best_score(st)
    } else {
        st.score
    };
    let best0: Option<Pending> = if commit {
        None
    } else {
        st.best
    };
    let bscore0: int = if commit {
        0
    } else {
        best_score(st)
    };
    if next_match || rematch {
        let score1 = if st.p_idx == 0 {
            score0 + lead_pen(s_idx)
        } else {
            score0
        };
        let new_score = (if st.prev_match {
            5int
        } else {
            0int
        }) + (if st.prev_sep {
            10int
        } else {
            0int
        }) + (if st.prev_lower && is_upper_like(c) {
            10int
        } else {
            0int
        });
        let p_idx1 = if next_match {
            st.p_idx + 1
        } else {
            st.p_idx
        };
        if new_score > bscore0 {
            ScoreState {
                p_idx: p_idx1,
                score: if best0 is Some {
                    score1 - 1
                } else {
                    score1
                },
                prev_match: true,
                prev_lower: is_lower_like(c),
                prev_sep: is_sep(c),
                best: Some(Pending { ch: c, score: new_score }),
            }
        } else {
            ScoreState {
                p_idx: p_idx1,
                score: score1,
                prev_match: true,
                prev_lower: is_lower_like(c),
                prev_sep: is_sep(c),
                best: best0,
            }
        }
    } else {
        ScoreState {
            p_idx: st.p_idx,
            score: st.score - 1,
            prev_match: false,
            prev_lower: is_lower_like(c),
            prev_sep: is_sep(c),
            best: st.best,
        }
    }
}

/// The scoring walk over the remaining candidate characters `c`, starting in
/// state `st` at position `s_idx`.
pub open spec fn run_from(p: Seq<char>, st: ScoreState, c: Seq<char>, s_idx: int) -> ScoreState
    decreases c.len(),
{
    if c.len() == 0 {
        st
    } else {
        run_from(p, step(p, st, c[0], s_idx), c.skip(1), s_idx + 1)
    }
}

/// The walk's state after the whole candidate.
pub open spec fn final_state(p: Seq<char>, c: Seq<char>) -> ScoreState {
    run_from(p, init_state(), c, 0)
}

/// The score of pattern `p` against candidate `c`: the committed score plus
/// the still-pending occurrence, if one remains at the end.
pub open spec fn fuzzy_score(p: Seq<char>, c: Seq<char>) -> int {
    let st = final_state(p, c);
    st.score + best_score(st)
}

/// Whether every pattern character was consumed.
pub open spec fn fuzzy_is_match(p: Seq<char>, c: Seq<char>) -> bool {
    final_state(p, c).p_idx == p.len()
}

/// Case-insensitive subsequence containment: every character of `p` appears
/// in `c`, in order, compared by lowercase mapping.
pub open spec fn ci_subseq(p: Seq<char>, c: Seq<char>) -> bool
    decreases c.len(),
{
    if p.len() == 0 {
        true
    } else if c.len() == 0 {
        false
    } else {
        (ci_eq(p[0], c[0]) && ci_subseq(p.skip(1), c.skip(1))) || ci_subseq(p, c.skip(1))
    }
}

/// Dropping the first pattern character preserves containment.
proof fn lemma_subseq_drop_first(p: Seq<char>, c: Seq<char>)
    requires
        p.len() > 0,
        ci_subseq(p, c),
    ensures
        ci_subseq(p.skip(1), c),
    decreases c.len(),
{
    if c.len() > 0 {
        if ci_eq(p[0], c[0]) && ci_subseq(p.skip(1), c.skip(1)) {
            if p.skip(1).len() > 0 {
                assert(ci_subseq(p.skip(1), c));
            }
        } else {
            lemma_subseq_drop_first(p, c.skip(1));
        }
    }
}

/// When the first characters agree case-insensitively, consuming them does
/// not change containment.
proof fn lemma_subseq_skip_match(p: Seq<char>, c: Seq<char>)
    requires
        p.len() > 0,
        c.len() > 0,
        ci_eq(p[0], c[0]),
    ensures
        ci_subseq(p, c) == ci_subseq(p.skip(1), c.skip(1)),
{
    if ci_subseq(p, c) && !(ci_eq(p[0], c[0]) && ci_subseq(p.skip(1), c.skip(1))) {
        lemma_subseq_drop_first(p, c.skip(1));
    }
}

/// The pattern suffix a greedy left-to-right walk leaves unconsumed.
pub open spec fn greedy_rem(p: Seq<char>, c: Seq<char>) -> Seq<char>
    decreases c.len(),
{
    if c.len() == 0 || p.len() == 0 {
        p
    } else if ci_eq(p[0], c[0]) {
        greedy_rem(p.skip(1), c.skip(1))
    } else {
        greedy_rem(p, c.skip(1))
    }
}

proof fn lemma_greedy_rem_len(p: Seq<char>, c: Seq<char>)
    ensures
        0 <= greedy_rem(p, c).len() <= p.len(),
    decreases c.len(),
{
    if c.len() != 0 && p.len() != 0 {
        if ci_eq(p[0], c[0]) {
            lemma_greedy_rem_len(p.skip(1), c.skip(1));
        } else {
            lemma_greedy_rem_len(p, c.skip(1));
        }
    }
}

/// The greedy walk consumes the whole pattern exactly when the pattern is a
/// case-insensitive subsequence of the candidate.
proof fn lemma_greedy_iff_subseq(p: Seq<char>, c: Seq<char>)
    ensures
        (greedy_rem(p, c).len() == 0) == ci_subseq(p, c),
    decreases c.len(),
{
    if p.len() == 0 {
    } else if c.len() == 0 {
    } else if ci_eq(p[0], c[0]) {
        lemma_greedy_iff_subseq(p.skip(1), c.skip(1));
        lemma_subseq_skip_match(p, c);
    } else {
        lemma_greedy_iff_subseq(p, c.skip(1));
    }
}

/// The walk's pattern cursor advances exactly as the greedy walk does.
proof fn lemma_run_p_idx(p: Seq<char>, st: ScoreState, c: Seq<char>, s_idx: int)
    requires
        0 <= st.p_idx <= p.len(),
    ensures
        run_from(p, st, c, s_idx).p_idx == p.len() - greedy_rem(p.skip(st.p_idx), c).len(),
    decreases c.len(),
{
    lemma_greedy_rem_len(p.skip(st.p_idx), c);
    if c.len() == 0 {
    } else {
        let st1 = step(p, st, c[0], s_idx);
        let q = p.skip(st.p_idx);
        if 0 <= st.p_idx < p.len() && ci_eq(p[st.p_idx], c[0]) {
            assert(q[0] == p[st.p_idx]);
            assert(q.skip(1) =~= p.skip(st.p_idx + 1));
            assert(st1.p_idx == st.p_idx + 1);
            lemma_run_p_idx(p, st1, c.skip(1), s_idx + 1);
        } else {
            assert(st1.p_idx == st.p_idx);
            if st.p_idx == p.len() {
                assert(q.len() == 0);
                assert(greedy_rem(q, c) == q);
                assert(greedy_rem(q, c.skip(1)) == q);
            } else {
                assert(q[0] == p[st.p_idx]);
                assert(!ci_eq(q[0], c[0]));
                assert(greedy_rem(q, c) == greedy_rem(q, c.skip(1)));
            }
            lemma_run_p_idx(p, st1, c.skip(1), s_idx + 1);
        }
    }
}

/// The match flag of the scoring walk agrees with plain case-insensitive
/// subsequence containment: the bonuses and pending occurrences never change
/// which pattern characters are consumed.
pub proof fn lemma_fuzzy_match_iff_subseq(p: Seq<char>, c: Seq<char>)
    ensures
        fuzzy_is_match(p, c) == ci_subseq(p, c),
{
    assert(p.skip(0) =~= p);
    lemma_run_p_idx(p, init_state(), c, 0);
    lemma_greedy_iff_subseq(p, c);
    lemma_greedy_rem_len(p, c);
}

/// With an empty pattern nothing is ever consumed or pended: every candidate
/// character takes the unmatched penalty.
proof fn lemma_run_empty_pattern(st: ScoreState, c: Seq<char>, s_idx: int)
    requires
        st.best is None,
    ensures
        run_from(Seq::<char>::empty(), st, c, s_idx).p_idx == st.p_idx,
        run_from(Seq::<char>::empty(), st, c, s_idx).score == st.score - c.len(),
        run_from(Seq::<char>::empty(), st, c, s_idx).best is None,
    decreases c.len(),
{
    if c.len() > 0 {
        let st1 = step(Seq::<char>::empty(), st, c[0], s_idx);
        lemma_run_empty_pattern(st1, c.skip(1), s_idx + 1);
    }
}

/// An empty pattern matches vacuously, with a score of minus the candidate's
/// length.
pub proof fn lemma_empty_pattern(c: Seq<char>)
    ensures
        fuzzy_is_match(Seq::<char>::empty(), c),
        fuzzy_score(Seq::<char>::empty(), c) == -(c.len() as int),
{
    lemma_run_empty_pattern(init_state(), c, 0);
}

/// Bounds kept by the walk: the cursor never passes the pattern or the
/// position, the score stays linear in the position, and a pending score is
/// one of the bounded bonus sums.
pub open spec fn state_ok(p: Seq<char>, st: ScoreState, i: int) -> bool {
    &&& 0 <= st.p_idx <= p.len()
    &&& st.p_idx <= i
    &&& -10 * i <= st.score <= 25 * i
    &&& 0 <= best_score(st) <= 25
}

proof fn lemma_step_ok(p: Seq<char>, st: ScoreState, c: char, i: int)
    requires
        state_ok(p, st, i),
        0 <= i,
    ensures
        state_ok(p, step(p, st, c, i), i + 1),
{
}

/// The exec state variables, abstracted as one walk state.
pub open spec fn abs_state(
    p_idx: int,
    score: int,
    prev_match: bool,
    prev_lower: bool,
    prev_sep: bool,
    best_letter: Option<char>,
    best_letter_score: int,
) -> ScoreState {
    ScoreState {
        p_idx,
        score,
        prev_match,
        prev_lower,
        prev_sep,
        best: match best_letter {
            Some(ch) => Some(Pending { ch, score: best_letter_score }),
            None => None,
        },
    }
}

/// Scores `pattern` against `candidate`, case-insensitively.
///
/// The first component says whether the whole pattern was consumed — exactly
/// when the pattern is a case-insensitive subsequence of the candidate — and
/// the second is the accumulated score (meaningful to callers only on a
/// match). An empty pattern matches everything, scoring minus the candidate's
/// length.
pub fn scored_fuzzy_search(pattern: &str, candidate: &str) -> (r: (bool, i64))
    requires
        candidate@.len() <= MAX_SCORED_LEN,
    ensures
        r.0 == fuzzy_is_match(pattern@, candidate@),
        r.1 == fuzzy_score(pattern@, candidate@),
        r.0 == ci_subseq(pattern@, candidate@),
        pattern@.len() == 0 ==> r.0 && r.1 == -(candidate@.len() as int),
{
    let ghost p = pattern@;
    let ghost c = candidate@;
    let p_chars = str_to_chars(pattern);
    let s_chars = str_to_chars(candidate);
    let p_len = p_chars.len();
    let s_len = s_chars.len();

    let mut p_idx: usize = 0;
    let mut s_idx: usize = 0;
    let mut prev_match = false;
    let mut prev_lower = false;
    let mut prev_sep = true;
    let mut best_letter: Option<char> = None;
    let mut best_letter_score: i64 = 0;
    let mut score: i64 = 0;

    proof {
        assert(c.skip(0) =~= c);
    }
    while s_idx < s_len
        invariant
            s_idx <= s_len,
            s_len == c.len(),
            p_len == p.len(),
            p_chars@ == p,
            s_chars@ == c,
            c.len() <= MAX_SCORED_LEN,
            p_idx <= p_len,
            best_letter is None ==> best_letter_score == 0,
            state_ok(
                p,
                abs_state(
                    p_idx as int,
                    score as int,
                    prev_match,
                    prev_lower,
                    prev_sep,
                    best_letter,
                    best_letter_score as int,
                ),
                s_idx as int,
            ),
            run_from(p, init_state(), c, 0) == run_from(
                p,
                abs_state(
                    p_idx as int,
                    score as int,
                    prev_match,
                    prev_lower,
                    prev_sep,
                    best_letter,
                    best_letter_score as int,
                ),
                c.skip(s_idx as int),
                s_idx as int,
            ),
        decreases s_len - s_idx,
    {
        let ghost st0 = abs_state(
            p_idx as int,
            score as int,
            prev_match,
            prev_lower,
            prev_sep,
            best_letter,
            best_letter_score as int,
        );
        let ghost i0 = s_idx as int;

        let s_char = s_chars[s_idx];
        let s_lower = char_to_lower(s_char);
        let s_upper = char_to_upper(s_char);

        let mut next_match = false;
        if p_idx < p_len {
            let p_lower = char_to_lower(p_chars[p_idx]);
            next_match = eq_chars(&p_lower, &s_lower);
        }
        let mut rematch = false;
        if p_idx < p_len {
            if let Some(b) = best_letter {
                let b_lower = char_to_lower(b);
                let p_lower = char_to_lower(p_chars[p_idx]);
                rematch = eq_chars(&p_lower, &b_lower);
            }
        }

        let lower_is_self = is_single(&s_lower, s_char);
        let upper_is_self = is_single(&s_upper, s_char);
        let lower_ne_upper = !eq_chars(&s_lower, &s_upper);

        if (next_match || rematch) && best_letter.is_some() {
            score = score + best_letter_score;
            best_letter = None;
            best_letter_score = 0;
        }

        if next_match || rematch {
            if p_idx == 0 {
                let lead: i64 = if s_idx >= 3 {
                    MAX_LEAD_PENALTY
                } else {
                    LEAD_PENALTY * (s_idx as i64)
                };
                score = score + lead;
            }
            let mut new_score: i64 = 0;
            if prev_match {
                new_score = new_score + ADJ_BONUS;
            }
            if prev_sep {
                new_score = new_score + SEPARATOR_BONUS;
            }
            if prev_lower && upper_is_self && lower_ne_upper {
                new_score = new_score + CAMEL_CASE_BONUS;
            }
            if next_match {
                p_idx = p_idx + 1;
            }
            if new_score > best_letter_score {
                if best_letter.is_some() {
                    score = score + UNMATCHED_PENALTY;
                }
                best_letter = Some(s_char);
                best_letter_score = new_score;
            }
            prev_match = true;
        } else {
            score = score + UNMATCHED_PENALTY;
            prev_match = false;
        }

        prev_lower = lower_is_self && lower_ne_upper;
        prev_sep = s_char == '_' || s_char == ' ';

        s_idx = s_idx + 1;

        proof {
            let st1 = abs_state(
                p_idx as int,
                score as int,
                prev_match,
                prev_lower,
                prev_sep,
                best_letter,
                best_letter_score as int,
            );
            assert(st1 == step(p, st0, c[i0], i0));
            lemma_step_ok(p, st0, c[i0], i0);
            assert(c.skip(i0)[0] == c[i0]);
            assert(c.skip(i0).skip(1) =~= c.skip(i0 + 1));
            assert(run_from(p, st0, c.skip(i0), i0) == run_from(p, st1, c.skip(i0 + 1), i0 + 1));
        }
    }

    proof {
        assert(c.skip(s_len as int) =~= Seq::<char>::empty());
        lemma_fuzzy_match_iff_subseq(p, c);
        if p.len() == 0 {
            assert(p =~= Seq::<char>::empty());
            lemma_empty_pattern(c);
        }
    }

    if best_letter.is_some() {
        score = score + best_letter_score;
    }

    (p_idx == p_len, score)
}

} // verus!
