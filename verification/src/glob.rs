//! Glob matching for wildcard MIME patterns.
//!
//! A pattern matches byte-for-byte, except that `*` matches any run of
//! bytes (possibly empty) and `?` matches exactly one byte.

use crate::text;
use vstd::prelude::*;

verus! {

/// What it means for the pattern `p` to match the byte string `s`.
pub open spec fn glob_match(p: Seq<u8>, s: Seq<u8>) -> bool
    decreases p.len() + s.len(),
{
    if p.len() == 0 {
        s.len() == 0
    } else if p[0] == text::STAR {
        glob_match(p.skip(1), s) || (s.len() > 0 && glob_match(p, s.skip(1)))
    } else {
        s.len() > 0 && (p[0] == text::QMARK || p[0] == s[0]) && glob_match(p.skip(1), s.skip(1))
    }
}

/// Match the pattern suffix starting at `i` against the string suffix
/// starting at `j`.
fn glob_match_from(p: &Vec<u8>, s: &Vec<u8>, i: usize, j: usize) -> (r: bool)
    requires
        i <= p.len(),
        j <= s.len(),
    ensures
        r == glob_match(p@.skip(i as int), s@.skip(j as int)),
    decreases p.len() - i, s.len() - j,
{
    proof {
        if i < p.len() {
            assert(p@.skip(i as int).skip(1) =~= p@.skip(i as int + 1));
        }
        if j < s.len() {
            assert(s@.skip(j as int).skip(1) =~= s@.skip(j as int + 1));
        }
    }
    if i == p.len() {
        j == s.len()
    } else if p[i] == text::STAR {
        if glob_match_from(p, s, i + 1, j) {
            true
        } else if j < s.len() {
            glob_match_from(p, s, i, j + 1)
        } else {
            false
        }
    } else if j < s.len() && (p[i] == text::QMARK || p[i] == s[j]) {
        glob_match_from(p, s, i + 1, j + 1)
    } else {
        false
    }
}

/// Whether the glob `pattern` matches the byte string `s`.
pub fn glob_matches(pattern: &Vec<u8>, s: &Vec<u8>) -> (r: bool)
    ensures
        r == glob_match(pattern@, s@),
{
    proof {
        assert(pattern@.skip(0) =~= pattern@);
        assert(s@.skip(0) =~= s@);
    }
    glob_match_from(pattern, s, 0, 0)
}

} // verus!
