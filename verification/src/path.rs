//! Splitting patterns and paths into segments.
//!
//! A pattern or path is normalized (`{` becomes `:`, `}` is dropped) and then
//! split on `/`. A segment that starts with `:` after normalization is a
//! variable segment; its variable name is the segment with the leading colons
//! stripped.

use vstd::prelude::*;
use vstd::string::StrSliceExecFns;
use vstd::string::StringExecFns;

verus! {

/// The normalization applied to every pattern and path before it is split:
/// each `{` is replaced by `:` and each `}` is removed.
pub open spec fn normalize(s: Seq<char>) -> Seq<char>
    decreases s.len(),
{
    if s.len() == 0 {
        Seq::empty()
    } else {
        let rest = normalize(s.skip(1));
        if s[0] == '}' {
            rest
        } else if s[0] == '{' {
            seq![':'] + rest
        } else {
            seq![s[0]] + rest
        }
    }
}

/// Splitting on `/`, keeping empty segments, as `str::split('/')` does:
/// the empty sequence yields one empty segment, and every `/` starts a
/// new segment.
pub open spec fn split_slash(s: Seq<char>) -> Seq<Seq<char>>
    decreases s.len(),
{
    if s.len() == 0 {
        seq![Seq::<char>::empty()]
    } else if s[0] == '/' {
        seq![Seq::<char>::empty()] + split_slash(s.skip(1))
    } else {
        let rest = split_slash(s.skip(1));
        seq![seq![s[0]] + rest[0]] + rest.skip(1)
    }
}

/// The segment tokens of a pattern or path: normalize, then split on `/`.
pub open spec fn tokens_of(s: Seq<char>) -> Seq<Seq<char>> {
    split_slash(normalize(s))
}

/// A segment token denotes a variable when it starts with `:`.
pub open spec fn seg_is_variable(s: Seq<char>) -> bool {
    s.len() > 0 && s[0] == ':'
}

/// The variable name of a segment: the segment with all leading colons
/// removed, as `str::trim_start_matches(':')` leaves it.
pub open spec fn strip_colons(s: Seq<char>) -> Seq<char>
    decreases s.len(),
{
    if s.len() > 0 && s[0] == ':' {
        strip_colons(s.skip(1))
    } else {
        s
    }
}

pub proof fn lemma_split_slash_len(s: Seq<char>)
    ensures
        split_slash(s).len() >= 1,
    decreases s.len(),
{
    if s.len() == 0 {
    } else {
        lemma_split_slash_len(s.skip(1));
    }
}

/// Relies on `String::push`: appends the given character to the end of the
/// string.
pub assume_specification[ String::push ](s: &mut String, c: char)
    ensures
        final(s)@ == old(s)@.push(c),
;

/// Character-for-character equality of two string slices.
pub fn str_eq(a: &str, b: &str) -> (r: bool)
    ensures
        r == (a@ == b@),
{
    let n = a.unicode_len();
    if n != b.unicode_len() {
        return false;
    }
    let mut i: usize = 0;
    while i < n
        invariant
            i <= n,
            n == a@.len(),
            n == b@.len(),
            forall|k: int| 0 <= k < i ==> a@[k] == b@[k],
        decreases n - i,
    {
        if a.get_char(i) != b.get_char(i) {
            return false;
        }
        i = i + 1;
    }
    proof {
        assert(a@ =~= b@);
    }
    true
}

/// Normalizes the tail of `rule` that starts at character `i`.
fn format_from(rule: &str, i: usize, n: usize) -> (r: String)
    requires
        i <= n,
        n == rule@.len(),
    ensures
        r@ == normalize(rule@.skip(i as int)),
    decreases n - i,
{
    if i == n {
        proof {
            assert(rule@.skip(i as int) =~= Seq::<char>::empty());
        }
        String::new()
    } else {
        let c = rule.get_char(i);
        proof {
            assert(rule@.skip(i as int)[0] == c);
            assert(rule@.skip(i as int).skip(1) =~= rule@.skip(i + 1));
        }
        let rest = format_from(rule, i + 1, n);
        if c == '}' {
            rest
        } else {
            let kept = if c == '{' { ':' } else { c };
            let mut t = String::new();
            t.push(kept);
            proof {
                assert(t@ =~= seq![kept]);
            }
            let mut out = t;
            out.append(rest.as_str());
            out
        }
    }
}

/// Replaces every `{` with `:` and removes every `}`.
pub fn format_rule(rule: &str) -> (r: String)
    ensures
        r@ == normalize(rule@),
{
    let n = rule.unicode_len();
    let r = format_from(rule, 0, n);
    proof {
        assert(rule@.skip(0) =~= rule@);
    }
    r
}

/// Splits the tail of `s` that starts at character `i` on `/`.
fn split_from(s: &str, i: usize, n: usize) -> (r: Vec<String>)
    requires
        i <= n,
        n == s@.len(),
    ensures
        r.deep_view() == split_slash(s@.skip(i as int)),
        r@.len() >= 1,
    decreases n - i,
{
    if i == n {
        let mut r: Vec<String> = Vec::new();
        r.push(String::new());
        proof {
            assert(s@.skip(i as int) =~= Seq::<char>::empty());
            assert(r.deep_view() =~~= split_slash(s@.skip(i as int)));
        }
        r
    } else {
        let c = s.get_char(i);
        proof {
            assert(s@.skip(i as int)[0] == c);
            assert(s@.skip(i as int).skip(1) =~= s@.skip(i + 1));
        }
        let mut rest = split_from(s, i + 1, n);
        if c == '/' {
            rest.insert(0, String::new());
            proof {
                assert(rest.deep_view() =~~= split_slash(s@.skip(i as int)));
            }
            rest
        } else {
            let first = rest.remove(0);
            let mut t = String::new();
            t.push(c);
            let mut out = t;
            out.append(first.as_str());
            rest.insert(0, out);
            proof {
                assert(rest.deep_view() =~~= split_slash(s@.skip(i as int)));
            }
            rest
        }
    }
}

/// Normalizes a pattern or path and splits it into its segment tokens.
pub fn parse_path(path: &str) -> (r: Vec<String>)
    ensures
        r.deep_view() == tokens_of(path@),
        r@.len() >= 1,
{
    let newpath = format_rule(path);
    let n = newpath.as_str().unicode_len();
    let r = split_from(newpath.as_str(), 0, n);
    proof {
        assert(newpath@.skip(0) =~= newpath@);
    }
    r
}

/// Whether a normalized segment token denotes a variable.
pub fn is_variable(s: &str) -> (r: bool)
    ensures
        r == seg_is_variable(s@),
{
    if s.unicode_len() == 0 {
        false
    } else {
        s.get_char(0) == ':'
    }
}

} // verus!
