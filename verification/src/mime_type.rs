//! MIME types as case-normalized `type/subtype` byte strings.
//!
//! A subtype may contain `*`, which makes the value a wildcard pattern
//! (`video/*`); wildcard and concrete types are distinct values and are
//! only related by glob matching, never by equality.

use crate::error::Error;
use crate::text;
use vstd::prelude::*;

verus! {

/// Bytes allowed in a MIME type outside the separating slash: lowercase
/// letters, digits, and `. + - * _`.
pub open spec fn is_mime_char(c: u8) -> bool {
    (97 <= c <= 122) || (48 <= c <= 57) || c == 46 || c == 43 || c == 45 || c == text::STAR || c
        == 95
}

/// `s` is a well-formed MIME type with its separating slash at `i`:
/// nonempty type and subtype around a single `/`, all other bytes drawn
/// from the MIME charset.
pub open spec fn wf_mime_at(s: Seq<u8>, i: int) -> bool {
    &&& 1 <= i < s.len() - 1
    &&& s[i] == text::SLASH
    &&& forall|j: int| 0 <= j < s.len() && j != i ==> is_mime_char(s[j])
}

/// `s` is a well-formed MIME type.
pub open spec fn wf_mime(s: Seq<u8>) -> bool {
    exists|i: int| wf_mime_at(s, i)
}

/// ASCII lowercasing of one byte.
pub open spec fn lower_byte(c: u8) -> u8 {
    if 65 <= c <= 90 {
        (c + 32) as u8
    } else {
        c
    }
}

/// ASCII lowercasing of a byte string.
pub open spec fn lower_bytes(s: Seq<u8>) -> Seq<u8> {
    s.map_values(|c: u8| lower_byte(c))
}

/// An immutable, case-normalized `type/subtype` value.
#[derive(Debug)]
pub struct MimeType {
    bytes: Vec<u8>,
}

impl View for MimeType {
    type V = Seq<u8>;

    closed spec fn view(&self) -> Seq<u8> {
        self.bytes@
    }
}

impl MimeType {
    /// Validity of the stored bytes; established by the constructors.
    pub open spec fn wf(&self) -> bool {
        wf_mime(self@)
    }

    /// Lowercase `b` and accept it as a MIME type if it is well-formed.
    pub fn parse_bytes(b: &Vec<u8>) -> (r: Result<MimeType, Error>)
        ensures
            r is Ok <==> wf_mime(lower_bytes(b@)),
            r matches Ok(m) ==> m@ == lower_bytes(b@) && m.wf(),
            r matches Err(e) ==> e matches Error::InvalidMime(v) && v@ == b@,
    {
        let ghost lows = lower_bytes(b@);
        let mut lowered: Vec<u8> = Vec::new();
        let mut i: usize = 0;
        while i < b.len()
            invariant
                i <= b.len(),
                lows == lower_bytes(b@),
                lowered@.len() == i,
                forall|j: int| 0 <= j < i ==> lowered@[j] == lower_byte(b@[j]),
            decreases b.len() - i,
        {
            let c = b[i];
            if 65 <= c && c <= 90 {
                lowered.push(c + 32);
            } else {
                lowered.push(c);
            }
            i += 1;
        }
        proof {
            assert(lowered@ =~= lows);
        }

        // One pass: the position of the first slash, whether a second
        // slash occurs, and whether every byte is a slash or a MIME char.
        let mut slash: usize = 0;
        let mut seen_slash = false;
        let mut dup_slash = false;
        let mut all_valid = true;
        let mut j: usize = 0;
        while j < lowered.len()
            invariant
                j <= lowered.len(),
                seen_slash ==> slash < j && lowered@[slash as int] == text::SLASH,
                !seen_slash ==> forall|k: int| 0 <= k < j ==> lowered@[k] != text::SLASH,
                seen_slash && !dup_slash ==> forall|k: int|
                    0 <= k < j && k != slash ==> lowered@[k] != text::SLASH,
                dup_slash ==> seen_slash,
                dup_slash ==> exists|k: int|
                    0 <= k < j && k != slash && lowered@[k] == text::SLASH,
                all_valid <==> forall|k: int|
                    0 <= k < j ==> (is_mime_char(lowered@[k]) || lowered@[k] == text::SLASH),
            decreases lowered.len() - j,
        {
            let c = lowered[j];
            if c == text::SLASH {
                if seen_slash {
                    dup_slash = true;
                } else {
                    seen_slash = true;
                    slash = j;
                }
            } else if !(97 <= c && c <= 122) && !(48 <= c && c <= 57) && c != 46 && c != 43 && c
                != 45 && c != text::STAR && c != 95 {
                all_valid = false;
            }
            j += 1;
        }

        let good = seen_slash && !dup_slash && all_valid && slash >= 1 && slash + 1
            < lowered.len();
        proof {
            if good {
                assert(wf_mime_at(lows, slash as int));
            } else {
                assert forall|i2: int| !wf_mime_at(lows, i2) by {
                    if wf_mime_at(lows, i2) {
                        // A witness position must hold the only slash, so
                        // each failed check contradicts it.
                        assert(lows[i2] == text::SLASH);
                        assert(!is_mime_char(text::SLASH));
                        if !seen_slash {
                            assert(false);
                        } else if i2 != slash {
                            assert(is_mime_char(lows[i2]));
                            assert(false);
                        } else if dup_slash {
                            let k = choose|k: int|
                                0 <= k < lows.len() && k != slash && lows[k] == text::SLASH;
                            assert(is_mime_char(lows[k]));
                            assert(false);
                        } else if !all_valid {
                            let k = choose|k: int|
                                0 <= k < lows.len() && !(is_mime_char(lows[k]) || lows[k]
                                    == text::SLASH);
                            assert(false);
                        } else {
                            assert(false);
                        }
                    }
                }
            }
        }
        if good {
            Ok(MimeType { bytes: lowered })
        } else {
            Err(Error::InvalidMime(text::clone_bytes(b)))
        }
    }

    /// The stored bytes.
    pub fn as_bytes(&self) -> (r: &Vec<u8>)
        ensures
            r@ == self@,
    {
        &self.bytes
    }

    /// Whether the value is a wildcard pattern.
    pub fn has_wildcard(&self) -> (r: bool)
        ensures
            r == self@.contains(text::STAR),
    {
        text::contains_byte(&self.bytes, text::STAR)
    }

    /// Whether two MIME types are the same value.
    pub fn eq_mime(&self, other: &MimeType) -> (r: bool)
        ensures
            r == (self@ == other@),
    {
        text::bytes_eq(&self.bytes, &other.bytes)
    }

    /// A copy of this value.
    pub fn duplicate(&self) -> (r: MimeType)
        ensures
            r@ == self@,
    {
        MimeType { bytes: text::clone_bytes(&self.bytes) }
    }
}

} // verus!
