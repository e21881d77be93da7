//! The selector protocol: what goes to the picker's stdin, and what its
//! stdout means.
//!
//! The caller spawns the configured selector command, writes the
//! candidate names newline-joined to its stdin, and hands the collected
//! stdout back. An empty (after trimming) reply means the user aborted;
//! any other reply must name one of the candidates exactly.

use crate::error::Error;
use crate::handler::{DesktopHandler, DesktopList};
use crate::text;
use vstd::prelude::*;

verus! {

/// ASCII whitespace trimmed from the end of the picker's reply.
pub open spec fn is_trim_byte(c: u8) -> bool {
    c == text::SPACE || c == 9 || c == text::LF || c == text::CR
}

/// `s` without its trailing whitespace.
pub open spec fn trim_end_ws(s: Seq<u8>) -> Seq<u8>
    decreases s.len(),
{
    if s.len() > 0 && is_trim_byte(s.last()) {
        trim_end_ws(s.drop_last())
    } else {
        s
    }
}

proof fn lemma_trim_take(s: Seq<u8>, k: int)
    requires
        0 <= k <= s.len(),
        forall|j: int| k <= j < s.len() ==> is_trim_byte(#[trigger] s[j]),
        k > 0 ==> !is_trim_byte(s[k - 1]),
    ensures
        trim_end_ws(s) == s.take(k),
    decreases s.len(),
{
    if s.len() == k {
        assert(s.take(k) =~= s);
        if s.len() > 0 {
            assert(s.last() == s[k - 1]);
        }
    } else {
        assert(is_trim_byte(s.last()));
        assert forall|j: int| k <= j < s.drop_last().len() implies is_trim_byte(
            #[trigger] s.drop_last()[j],
        ) by {
            assert(s.drop_last()[j] == s[j]);
        }
        if k > 0 {
            assert(s.drop_last()[k - 1] == s[k - 1]);
        }
        lemma_trim_take(s.drop_last(), k);
        assert(s.drop_last().take(k) =~= s.take(k));
    }
}

/// What the picker reads from stdin: the candidate names joined with
/// newlines.
pub fn selector_input(names: &Vec<Vec<u8>>) -> (r: Vec<u8>)
    ensures
        r@ == text::join_with(text::views(names@), seq![text::LF]),
{
    let sep: Vec<u8> = vec![text::LF];
    proof {
        assert(sep@ =~= seq![text::LF]);
    }
    text::join_bytes_with(names, &sep)
}

/// The position after the last byte kept by end-trimming.
fn trim_point(output: &Vec<u8>) -> (k: usize)
    ensures
        k <= output@.len(),
        forall|j: int| k <= j < output@.len() ==> is_trim_byte(#[trigger] output@[j]),
        k > 0 ==> !is_trim_byte(output@[k - 1]),
{
    let mut k: usize = output.len();
    while k > 0
        invariant
            k <= output.len(),
            forall|j: int| k <= j < output@.len() ==> is_trim_byte(#[trigger] output@[j]),
        decreases k,
    {
        let c = output[k - 1];
        if !(c == text::SPACE || c == 9 || c == text::LF || c == text::CR) {
            return k;
        }
        k -= 1;
    }
    k
}

/// The picker's reply with trailing whitespace removed.
pub fn trim_reply(output: &Vec<u8>) -> (r: Vec<u8>)
    ensures
        r@ == trim_end_ws(output@),
{
    let k = trim_point(output);
    let r = text::take_bytes(output, k);
    proof {
        lemma_trim_take(output@, k as int);
    }
    r
}

/// Interpret the picker's reply against the candidates for `mime`. An
/// empty trimmed reply is the user's abort (`Cancelled`); a nonempty
/// reply picks the first candidate whose display name matches it
/// exactly, and fails with `NotFound` carrying the MIME type when none
/// does.
pub fn apply_selection(
    output: &Vec<u8>,
    candidates: &DesktopList,
    names: &Vec<Vec<u8>>,
    mime: &crate::mime_type::MimeType,
) -> (r: Result<DesktopHandler, Error>)
    requires
        names@.len() == candidates@.len(),
    ensures
        ({
            let t = trim_end_ws(output@);
            if t.len() == 0 {
                r == Err::<DesktopHandler, Error>(Error::Cancelled)
            } else if exists|i: int| 0 <= i < names@.len() && (#[trigger] names@[i])@ == t {
                exists|i: int|
                    {
                        &&& 0 <= i < names@.len()
                        &&& (#[trigger] names@[i])@ == t
                        &&& (forall|j: int| 0 <= j < i ==> names@[j]@ != t)
                        &&& (r matches Ok(h) && h@ == candidates@[i])
                    }
            } else {
                r matches Err(Error::NotFound(b)) && b@ == mime@
            }
        }),
{
    let t = trim_reply(output);
    if t.len() == 0 {
        return Err(Error::Cancelled);
    }
    let mut i: usize = 0;
    while i < names.len()
        invariant
            i <= names@.len(),
            names@.len() == candidates@.len(),
            t@ == trim_end_ws(output@),
            t@.len() > 0,
            forall|j: int| 0 <= j < i ==> names@[j]@ != t@,
        decreases names.len() - i,
    {
        if text::bytes_eq(&names[i], &t) {
            let h = candidates.get(i).duplicate();
            proof {
                let w = i as int;
                assert(names@[w]@ == trim_end_ws(output@));
                assert(forall|j: int| 0 <= j < w ==> names@[j]@ != trim_end_ws(output@));
                assert(h@ == candidates@[w]);
                assert(exists|x: int|
                    0 <= x < names@.len() && (#[trigger] names@[x])@ == trim_end_ws(output@));
            }
            return Ok(h);
        }
        i += 1;
    }
    Err(Error::NotFound(text::clone_bytes(mime.as_bytes())))
}

} // verus!
