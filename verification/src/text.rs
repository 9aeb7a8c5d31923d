//! String predicates used by the leaf filter operators: substring,
//! prefix and suffix tests, lexicographic comparison, case folding and
//! regular-expression matching.
//!
//! The substring, prefix, suffix and comparison operations are verified
//! against specifications over `Seq<char>`. Case folding and regular
//! expressions are delegated to `str::to_lowercase` and to the `regex`
//! crate through trusted wrappers.

use vstd::prelude::*;
use vstd::string::StrSliceExecFns;

verus! {

/// `p` occurs in `s` as a contiguous substring.
pub open spec fn spec_contains(s: Seq<char>, p: Seq<char>) -> bool {
    exists|i: int| 0 <= i && i + p.len() <= s.len() && #[trigger] s.subrange(i, i + p.len()) == p
}

/// `p` is a prefix of `s`.
pub open spec fn spec_starts_with(s: Seq<char>, p: Seq<char>) -> bool {
    p.len() <= s.len() && s.subrange(0, p.len() as int) == p
}

/// `p` is a suffix of `s`.
pub open spec fn spec_ends_with(s: Seq<char>, p: Seq<char>) -> bool {
    p.len() <= s.len() && s.subrange(s.len() - p.len(), s.len() as int) == p
}

/// The characters of `s` at positions `i..i + p.len()` are exactly `p`.
spec fn matches_at(s: Seq<char>, p: Seq<char>, i: int) -> bool {
    forall|k: int| 0 <= k < p.len() ==> s[i + k] == p[k]
}

proof fn lemma_matches_at_subrange(s: Seq<char>, p: Seq<char>, i: int)
    requires
        0 <= i,
        i + p.len() <= s.len(),
    ensures
        matches_at(s, p, i) <==> s.subrange(i, i + p.len()) == p,
{
    if matches_at(s, p, i) {
        assert(s.subrange(i, i + p.len()) =~= p);
    }
    if s.subrange(i, i + p.len()) == p {
        assert forall|k: int| 0 <= k < p.len() implies s[i + k] == p[k] by {
            assert(p[k] == s.subrange(i, i + p.len())[k]);
        }
    }
}

/// Whether the characters of `s` starting at `i` spell out `p`.
fn matches_at_exec(s: &str, p: &str, i: usize) -> (r: bool)
    requires
        i + p@.len() <= s@.len(),
    ensures
        r == matches_at(s@, p@, i as int),
{
    let s_len = s.unicode_len();
    let p_len = p.unicode_len();
    let mut k: usize = 0;
    while k < p_len
        invariant
            0 <= k <= p_len,
            p_len == p@.len(),
            s_len == s@.len(),
            i + p@.len() <= s@.len(),
            forall|j: int| 0 <= j < k ==> s@[i + j] == p@[j],
        decreases p_len - k,
    {
        if s.get_char(i + k) != p.get_char(k) {
            return false;
        }
        k += 1;
    }
    true
}

/// `p` occurs in `s` as a contiguous substring.
pub fn contains_sub(s: &str, p: &str) -> (r: bool)
    ensures
        r == spec_contains(s@, p@),
{
    let s_len = s.unicode_len();
    let p_len = p.unicode_len();
    if p_len > s_len {
        return false;
    }
    let mut i: usize = 0;
    while i <= s_len - p_len
        invariant
            0 <= i <= s_len - p_len + 1,
            p_len <= s_len,
            s_len == s@.len(),
            p_len == p@.len(),
            forall|j: int| 0 <= j < i ==> #[trigger] s@.subrange(j, j + p@.len()) != p@,
        decreases s_len + 1 - i,
    {
        let hit = matches_at_exec(s, p, i);
        proof {
            lemma_matches_at_subrange(s@, p@, i as int);
        }
        if hit {
            return true;
        }
        i += 1;
    }
    false
}

/// `p` is a prefix of `s`.
pub fn has_prefix(s: &str, p: &str) -> (r: bool)
    ensures
        r == spec_starts_with(s@, p@),
{
    let s_len = s.unicode_len();
    let p_len = p.unicode_len();
    if p_len > s_len {
        return false;
    }
    let hit = matches_at_exec(s, p, 0);
    proof {
        lemma_matches_at_subrange(s@, p@, 0);
    }
    hit
}

/// `p` is a suffix of `s`.
pub fn has_suffix(s: &str, p: &str) -> (r: bool)
    ensures
        r == spec_ends_with(s@, p@),
{
    let s_len = s.unicode_len();
    let p_len = p.unicode_len();
    if p_len > s_len {
        return false;
    }
    let hit = matches_at_exec(s, p, s_len - p_len);
    proof {
        lemma_matches_at_subrange(s@, p@, s@.len() - p@.len());
    }
    hit
}

/// Whether two strings have the same characters.
pub fn str_eq(a: &str, b: &str) -> (r: bool)
    ensures
        r == (a@ == b@),
{
    let a_len = a.unicode_len();
    let b_len = b.unicode_len();
    if a_len != b_len {
        return false;
    }
    let hit = matches_at_exec(a, b, 0);
    proof {
        lemma_matches_at_subrange(a@, b@, 0);
        assert(a@.subrange(0, b@.len() as int) =~= a@);
    }
    hit
}

/// Lexicographic comparison of two character sequences by code point.
pub open spec fn spec_str_cmp(a: Seq<char>, b: Seq<char>) -> core::cmp::Ordering
    decreases a.len(),
{
    if a.len() == 0 && b.len() == 0 {
        core::cmp::Ordering::Equal
    } else if a.len() == 0 {
        core::cmp::Ordering::Less
    } else if b.len() == 0 {
        core::cmp::Ordering::Greater
    } else if a[0] < b[0] {
        core::cmp::Ordering::Less
    } else if a[0] > b[0] {
        core::cmp::Ordering::Greater
    } else {
        spec_str_cmp(a.drop_first(), b.drop_first())
    }
}

/// Lexicographic comparison of two strings by code point.
pub fn str_cmp(a: &str, b: &str) -> (r: core::cmp::Ordering)
    ensures
        r == spec_str_cmp(a@, b@),
{
    let a_len = a.unicode_len();
    let b_len = b.unicode_len();
    let mut i: usize = 0;
    proof {
        assert(a@.subrange(0, a_len as int) =~= a@);
        assert(b@.subrange(0, b_len as int) =~= b@);
    }
    loop
        invariant
            0 <= i <= a_len,
            0 <= i <= b_len,
            a_len == a@.len(),
            b_len == b@.len(),
            spec_str_cmp(a@, b@) == spec_str_cmp(
                a@.subrange(i as int, a_len as int),
                b@.subrange(i as int, b_len as int),
            ),
        decreases a_len - i,
    {
        proof {
            lemma_str_cmp_step(a@, b@, i as int);
        }
        if i >= a_len {
            if i >= b_len {
                return core::cmp::Ordering::Equal;
            }
            return core::cmp::Ordering::Less;
        }
        if i >= b_len {
            return core::cmp::Ordering::Greater;
        }
        let ca = a.get_char(i);
        let cb = b.get_char(i);
        if ca < cb {
            return core::cmp::Ordering::Less;
        }
        if ca > cb {
            return core::cmp::Ordering::Greater;
        }
        i += 1;
    }
}

/// Unfolds one step of `spec_str_cmp` on the suffixes starting at `i`.
proof fn lemma_str_cmp_step(a: Seq<char>, b: Seq<char>, i: int)
    requires
        0 <= i <= a.len(),
        0 <= i <= b.len(),
    ensures
        ({
            let sa = a.subrange(i, a.len() as int);
            let sb = b.subrange(i, b.len() as int);
            &&& (i == a.len() && i == b.len() ==> spec_str_cmp(sa, sb)
                == core::cmp::Ordering::Equal)
            &&& (i == a.len() && i < b.len() ==> spec_str_cmp(sa, sb) == core::cmp::Ordering::Less)
            &&& (i < a.len() && i == b.len() ==> spec_str_cmp(sa, sb)
                == core::cmp::Ordering::Greater)
            &&& (i < a.len() && i < b.len() && a[i] < b[i] ==> spec_str_cmp(
                sa,
                sb,
            ) == core::cmp::Ordering::Less)
            &&& (i < a.len() && i < b.len() && a[i] > b[i] ==> spec_str_cmp(
                sa,
                sb,
            ) == core::cmp::Ordering::Greater)
            &&& (i < a.len() && i < b.len() && a[i] == b[i] ==> spec_str_cmp(sa, sb)
                == spec_str_cmp(a.subrange(i + 1, a.len() as int), b.subrange(i + 1, b.len() as int)))
        }),
{
    let sa = a.subrange(i, a.len() as int);
    let sb = b.subrange(i, b.len() as int);
    if i < a.len() && i < b.len() && a[i] == b[i] {
        assert(sa.drop_first() =~= a.subrange(i + 1, a.len() as int));
        assert(sb.drop_first() =~= b.subrange(i + 1, b.len() as int));
    }
}

/// The locale-independent lower-case image of a character sequence,
/// as computed by `str::to_lowercase`.
pub uninterp spec fn lower_of(s: Seq<char>) -> Seq<char>;

/// Relies on `str::to_lowercase`: the result is a pure function of the
/// input characters (no locale is consulted).
#[verifier::external_body]
pub fn lowercase(s: &str) -> (r: String)
    ensures
        r@ == lower_of(s@),
{
    s.to_lowercase()
}

/// Whether `regex::Regex::new` accepts the pattern.
pub uninterp spec fn regex_valid(pat: Seq<char>) -> bool;

/// Whether the regular expression `pat` matches somewhere in `s`,
/// as decided by `regex::Regex::is_match`.
pub uninterp spec fn regex_matches(pat: Seq<char>, s: Seq<char>) -> bool;

/// Whether `regex::Regex::new` accepts the pattern under the
/// case-insensitive flag.
pub uninterp spec fn ci_regex_valid(pat: Seq<char>) -> bool;

/// Whether the regular expression `pat`, compiled case-insensitively,
/// matches somewhere in `s`.
pub uninterp spec fn ci_regex_matches(pat: Seq<char>, s: Seq<char>) -> bool;

/// Relies on `regex::Regex::new`: whether a pattern compiles depends on
/// the pattern text alone.
#[verifier::external_body]
pub fn regex_compiles(pat: &str) -> (r: bool)
    ensures
        r == regex_valid(pat@),
{
    regex::Regex::new(pat).is_ok()
}

/// Relies on `regex::Regex::new` and `regex::Regex::is_match`: whether a
/// pattern matches a haystack depends on the two texts alone.
#[verifier::external_body]
pub fn regex_is_match(pat: &str, s: &str) -> (r: bool)
    requires
        regex_valid(pat@),
    ensures
        r == regex_matches(pat@, s@),
{
    regex::Regex::new(pat).unwrap().is_match(s)
}

/// Relies on `regex::Regex::new`: whether a pattern compiles with the
/// `(?i)` flag prepended depends on the pattern text alone.
#[verifier::external_body]
pub fn ci_regex_compiles(pat: &str) -> (r: bool)
    ensures
        r == ci_regex_valid(pat@),
{
    regex::Regex::new(&format!("(?i){}", pat)).is_ok()
}

/// Relies on `regex::Regex::new` and `regex::Regex::is_match`, with the
/// `(?i)` flag prepended to the pattern.
#[verifier::external_body]
pub fn ci_regex_is_match(pat: &str, s: &str) -> (r: bool)
    requires
        ci_regex_valid(pat@),
    ensures
        r == ci_regex_matches(pat@, s@),
{
    regex::Regex::new(&format!("(?i){}", pat)).unwrap().is_match(s)
}

/// The lexicographic comparison answers consistently in both argument
/// orders.
pub proof fn lemma_str_cmp_flip(a: Seq<char>, b: Seq<char>)
    ensures
        spec_str_cmp(b, a) == match spec_str_cmp(a, b) {
            core::cmp::Ordering::Less => core::cmp::Ordering::Greater,
            core::cmp::Ordering::Equal => core::cmp::Ordering::Equal,
            core::cmp::Ordering::Greater => core::cmp::Ordering::Less,
        },
    decreases a.len() + b.len(),
{
    if a.len() == 0 && b.len() == 0 {
    } else if a.len() == 0 {
        assert(spec_str_cmp(a, b) == core::cmp::Ordering::Less);
        assert(spec_str_cmp(b, a) == core::cmp::Ordering::Greater);
    } else if b.len() == 0 {
        assert(spec_str_cmp(a, b) == core::cmp::Ordering::Greater);
        assert(spec_str_cmp(b, a) == core::cmp::Ordering::Less);
    } else if a[0] < b[0] {
        assert(spec_str_cmp(a, b) == core::cmp::Ordering::Less);
        assert(spec_str_cmp(b, a) == core::cmp::Ordering::Greater);
    } else if a[0] > b[0] {
        assert(spec_str_cmp(a, b) == core::cmp::Ordering::Greater);
        assert(spec_str_cmp(b, a) == core::cmp::Ordering::Less);
    } else {
        assert(spec_str_cmp(a, b) == spec_str_cmp(a.drop_first(), b.drop_first()));
        assert(spec_str_cmp(b, a) == spec_str_cmp(b.drop_first(), a.drop_first()));
        lemma_str_cmp_flip(a.drop_first(), b.drop_first());
    }
}

/// Two character sequences compare equal exactly when they are equal.
pub proof fn lemma_str_cmp_eq(a: Seq<char>, b: Seq<char>)
    ensures
        (spec_str_cmp(a, b) == core::cmp::Ordering::Equal) == (a == b),
    decreases a.len() + b.len(),
{
    if a.len() == 0 && b.len() == 0 {
        assert(a =~= b);
    } else if a.len() == 0 || b.len() == 0 {
        assert(a != b);
        assert(spec_str_cmp(a, b) != core::cmp::Ordering::Equal);
    } else if a[0] == b[0] {
        assert(spec_str_cmp(a, b) == spec_str_cmp(a.drop_first(), b.drop_first()));
        lemma_str_cmp_eq(a.drop_first(), b.drop_first());
        if spec_str_cmp(a, b) == core::cmp::Ordering::Equal {
            assert(a.drop_first() == b.drop_first());
            assert(a.len() == b.len());
            assert forall|i: int| 0 <= i < a.len() implies a[i] == b[i] by {
                if i > 0 {
                    assert(a[i] == a.drop_first()[i - 1]);
                    assert(b[i] == b.drop_first()[i - 1]);
                }
            }
            assert(a =~= b);
        }
        if a == b {
            assert(a.drop_first() =~= b.drop_first());
        }
    } else {
        assert(spec_str_cmp(a, b) != core::cmp::Ordering::Equal);
        if a == b {
            assert(a[0] == b[0]);
            assert(a[0] == b[0]);
            assert(false);
        }
    }
}

/// Strictly greater is transitive under the lexicographic comparison.
pub proof fn lemma_str_cmp_trans(a: Seq<char>, b: Seq<char>, c: Seq<char>)
    requires
        spec_str_cmp(a, b) == core::cmp::Ordering::Greater,
        spec_str_cmp(b, c) == core::cmp::Ordering::Greater,
    ensures
        spec_str_cmp(a, c) == core::cmp::Ordering::Greater,
    decreases a.len() + b.len() + c.len(),
{
    // a > b, so a is non-empty; b > c likewise forces b non-empty
    assert(a.len() > 0);
    assert(b.len() > 0);
    if c.len() == 0 {
        assert(spec_str_cmp(a, c) == core::cmp::Ordering::Greater);
    } else if a[0] == b[0] && b[0] == c[0] {
        assert(spec_str_cmp(a, b) == spec_str_cmp(a.drop_first(), b.drop_first()));
        assert(spec_str_cmp(b, c) == spec_str_cmp(b.drop_first(), c.drop_first()));
        lemma_str_cmp_trans(a.drop_first(), b.drop_first(), c.drop_first());
        assert(spec_str_cmp(a, c) == spec_str_cmp(a.drop_first(), c.drop_first()));
    } else {
        // at least one comparison is decided at the first character,
        // so a's head is at least b's, b's at least c's, with one
        // strict step
        assert(a[0] >= b[0]);
        assert(b[0] >= c[0]);
        assert(a[0] > c[0]);
        assert(spec_str_cmp(a, c) == core::cmp::Ordering::Greater);
    }
}

} // verus!
