//! Character and string helpers: the trusted case-mapping wrappers around
//! std's Unicode case conversions, conversions between `&str` and `Vec<char>`,
//! lexicographic comparison, and substring replacement.

use vstd::prelude::*;
use vstd::string::StrSliceExecFns;

verus! {

/// What `char::to_lowercase` yields for a character: a function of the
/// character alone.
pub uninterp spec fn lower_char_of(c: char) -> Seq<char>;

/// What `char::to_uppercase` yields for a character: a function of the
/// character alone.
pub uninterp spec fn upper_char_of(c: char) -> Seq<char>;

/// What `str::to_lowercase` yields for a string: a function of its characters
/// alone.
pub uninterp spec fn lower_of(s: Seq<char>) -> Seq<char>;

/// Relies on char::to_lowercase: yields the lowercase mapping of the
/// character, one or more characters (the character itself when it has no
/// lowercase form), determined by the character alone.
#[verifier::external_body]
pub fn char_to_lower(c: char) -> (r: Vec<char>)
    ensures
        r@ == lower_char_of(c),
        r@.len() >= 1,
{
    c.to_lowercase().collect()
}

/// Relies on char::to_uppercase: yields the uppercase mapping of the
/// character, one or more characters (the character itself when it has no
/// uppercase form), determined by the character alone.
#[verifier::external_body]
pub fn char_to_upper(c: char) -> (r: Vec<char>)
    ensures
        r@ == upper_char_of(c),
        r@.len() >= 1,
{
    c.to_uppercase().collect()
}

/// Relies on str::to_lowercase: yields the lowercase mapping of the whole
/// string, determined by its characters alone; an empty string stays empty.
#[verifier::external_body]
pub fn str_to_lower(s: &str) -> (r: String)
    ensures
        r@ == lower_of(s@),
        s@.len() == 0 ==> r@.len() == 0,
{
    s.to_lowercase()
}

/// Relies on String::push: appends the one character to the string.
#[verifier::external_body]
pub fn push_char(s: &mut String, c: char)
    ensures
        final(s)@ == old(s)@.push(c),
{
    s.push(c);
}

/// Relies on String::pop: removes and returns the last character, if any.
#[verifier::external_body]
pub fn pop_char(s: &mut String) -> (r: Option<char>)
    ensures
        old(s)@.len() == 0 ==> final(s)@ == old(s)@ && r is None,
        old(s)@.len() > 0 ==> final(s)@ == old(s)@.drop_last() && r == Some(old(s)@.last()),
{
    s.pop()
}

/// Relies on String::clear: empties the string.
#[verifier::external_body]
pub fn clear_string(s: &mut String)
    ensures
        final(s)@ == Seq::<char>::empty(),
{
    s.clear();
}

/// The characters of a string slice, in order.
pub fn str_to_chars(s: &str) -> (r: Vec<char>)
    ensures
        r@ == s@,
{
    let n = s.unicode_len();
    let mut r: Vec<char> = Vec::new();
    let mut i: usize = 0;
    while i < n
        invariant
            i <= n,
            n == s@.len(),
            r@ == s@.take(i as int),
        decreases n - i,
    {
        let c = s.get_char(i);
        r.push(c);
        i = i + 1;
        proof {
            assert(r@ =~= s@.take(i as int));
        }
    }
    proof {
        assert(r@ =~= s@);
    }
    r
}

/// Element-wise equality of two character vectors.
pub fn eq_chars(a: &Vec<char>, b: &Vec<char>) -> (r: bool)
    ensures
        r == (a@ == b@),
{
    if a.len() != b.len() {
        proof {
            assert(a@ != b@);
        }
        return false;
    }
    let n = a.len();
    let mut i: usize = 0;
    while i < n
        invariant
            i <= n,
            n == a@.len() == b@.len(),
            forall|j: int| 0 <= j < i ==> a@[j] == b@[j],
        decreases n - i,
    {
        if a[i] != b[i] {
            return false;
        }
        i = i + 1;
    }
    proof {
        assert(a@ =~= b@);
    }
    true
}

/// Whether the vector holds exactly the one character `c`.
pub fn is_single(v: &Vec<char>, c: char) -> (r: bool)
    ensures
        r == (v@ == seq![c]),
{
    proof {
        assert(seq![c].len() == 1);
    }
    if v.len() == 1 {
        let r = v[0] == c;
        proof {
            if r {
                assert(v@ =~= seq![c]);
            } else {
                assert(v@[0] != seq![c][0]);
            }
        }
        r
    } else {
        false
    }
}

/// Lexicographic order on character sequences by code point, the order in
/// which `str::cmp` ranks strings.
pub open spec fn lex_le(a: Seq<char>, b: Seq<char>) -> bool
    decreases a.len(),
{
    if a.len() == 0 {
        true
    } else if b.len() == 0 {
        false
    } else if a[0] != b[0] {
        (a[0] as u32) < (b[0] as u32)
    } else {
        lex_le(a.skip(1), b.skip(1))
    }
}

/// `lex_le` is total: any two sequences compare one way or the other.
pub proof fn lemma_lex_le_total(a: Seq<char>, b: Seq<char>)
    ensures
        lex_le(a, b) || lex_le(b, a),
    decreases a.len(),
{
    if a.len() != 0 && b.len() != 0 {
        if a[0] == b[0] {
            lemma_lex_le_total(a.skip(1), b.skip(1));
        } else if a[0] as u32 == b[0] as u32 {
            vstd::utf8::char_u32_cast(a[0], a[0] as u32);
            vstd::utf8::char_u32_cast(b[0], b[0] as u32);
            assert(false);
        }
    }
}

/// `lex_le` is transitive.
pub proof fn lemma_lex_le_trans(a: Seq<char>, b: Seq<char>, c: Seq<char>)
    requires
        lex_le(a, b),
        lex_le(b, c),
    ensures
        lex_le(a, c),
    decreases a.len(),
{
    if a.len() != 0 && b.len() != 0 && c.len() != 0 {
        if a[0] == b[0] && b[0] == c[0] {
            lemma_lex_le_trans(a.skip(1), b.skip(1), c.skip(1));
        }
    }
}

/// Lexicographic comparison of two strings, by code point.
pub fn str_lex_le(a: &str, b: &str) -> (r: bool)
    ensures
        r == lex_le(a@, b@),
{
    let an = a.unicode_len();
    let bn = b.unicode_len();
    let mut i: usize = 0;
    proof {
        assert(a@.skip(0) =~= a@);
        assert(b@.skip(0) =~= b@);
    }
    loop
        invariant
            i <= an,
            i <= bn,
            an == a@.len(),
            bn == b@.len(),
            forall|j: int| 0 <= j < i ==> a@[j] == b@[j],
            lex_le(a@, b@) == lex_le(a@.skip(i as int), b@.skip(i as int)),
        decreases an - i,
    {
        if i >= an {
            return true;
        }
        if i >= bn {
            return false;
        }
        let ac = a.get_char(i);
        let bc = b.get_char(i);
        if ac != bc {
            return (ac as u32) < (bc as u32);
        }
        proof {
            assert(a@.skip(i as int).skip(1) =~= a@.skip(i + 1));
            assert(b@.skip(i as int).skip(1) =~= b@.skip(i + 1));
        }
        i = i + 1;
    }
}

/// Whether `s` begins with `p`.
pub open spec fn starts_with(s: Seq<char>, p: Seq<char>) -> bool {
    p.len() <= s.len() && s.subrange(0, p.len() as int) == p
}

/// Every non-overlapping occurrence of `pat` in `s` replaced by `rep`,
/// scanning left to right, as `str::replace` does; an empty pattern leaves
/// the string unchanged.
pub open spec fn replace_seq(s: Seq<char>, pat: Seq<char>, rep: Seq<char>) -> Seq<char>
    decreases s.len(),
{
    if pat.len() == 0 || s.len() < pat.len() {
        s
    } else if starts_with(s, pat) {
        rep + replace_seq(s.skip(pat.len() as int), pat, rep)
    } else {
        seq![s[0]] + replace_seq(s.skip(1), pat, rep)
    }
}

/// Whether `s`, from position `i` on, begins with `pat`.
pub fn starts_with_at(s: &str, i: usize, pat: &str) -> (r: bool)
    requires
        i <= s@.len(),
    ensures
        r == starts_with(s@.skip(i as int), pat@),
{
    let n = s.unicode_len();
    let pn = pat.unicode_len();
    if pn > n - i {
        proof {
            assert(!starts_with(s@.skip(i as int), pat@));
        }
        return false;
    }
    let mut k: usize = 0;
    while k < pn
        invariant
            k <= pn,
            i + pn <= n,
            n == s@.len(),
            pn == pat@.len(),
            forall|j: int| 0 <= j < k ==> s@[i + j] == pat@[j],
        decreases pn - k,
    {
        if s.get_char(i + k) != pat.get_char(k) {
            proof {
                assert(s@.skip(i as int).subrange(0, pn as int)[k as int] != pat@[k as int]);
            }
            return false;
        }
        k = k + 1;
    }
    proof {
        assert(s@.skip(i as int).subrange(0, pn as int) =~= pat@);
    }
    true
}

/// Replaces every non-overlapping occurrence of `pat` in `s` by `rep`,
/// scanning left to right.
pub fn replace_str(s: &str, pat: &str, rep: &str) -> (r: String)
    ensures
        r@ == replace_seq(s@, pat@, rep@),
{
    let n = s.unicode_len();
    let pn = pat.unicode_len();
    let mut out = String::new();
    if pn == 0 {
        out.append(s);
        return out;
    }
    let mut i: usize = 0;
    proof {
        assert(s@.skip(0) =~= s@);
    }
    while i < n
        invariant
            i <= n,
            n == s@.len(),
            pn == pat@.len(),
            pn > 0,
            replace_seq(s@, pat@, rep@) == out@ + replace_seq(s@.skip(i as int), pat@, rep@),
        decreases n - i,
    {
        let ghost rest = s@.skip(i as int);
        if starts_with_at(s, i, pat) {
            out.append(rep);
            i = i + pn;
            proof {
                assert(rest.skip(pn as int) =~= s@.skip(i as int));
            }
        } else {
            let piece = s.substring_char(i, i + 1);
            out.append(piece);
            i = i + 1;
            proof {
                assert(rest.skip(1) =~= s@.skip(i as int));
                assert(seq![rest[0]] =~= s@.subrange(i - 1, i as int));
                if rest.len() >= pn {
                    assert(replace_seq(rest, pat@, rep@) == seq![rest[0]] + replace_seq(
                        rest.skip(1),
                        pat@,
                        rep@,
                    ));
                }
            }
        }
    }
    proof {
        assert(s@.skip(n as int) =~= Seq::<char>::empty());
    }
    out
}

/// Whether the string slice begins with the given prefix.
pub fn str_starts_with(s: &str, p: &str) -> (r: bool)
    ensures
        r == starts_with(s@, p@),
{
    let sn = s.unicode_len();
    let pn = p.unicode_len();
    if pn > sn {
        proof {
            assert(!starts_with(s@, p@));
        }
        return false;
    }
    let mut i: usize = 0;
    while i < pn
        invariant
            i <= pn <= sn,
            sn == s@.len(),
            pn == p@.len(),
            forall|j: int| 0 <= j < i ==> s@[j] == p@[j],
        decreases pn - i,
    {
        if s.get_char(i) != p.get_char(i) {
            proof {
                assert(s@.subrange(0, pn as int)[i as int] != p@[i as int]);
            }
            return false;
        }
        i = i + 1;
    }
    proof {
        assert(s@.subrange(0, pn as int) =~= p@);
    }
    true
}

} // verus!
