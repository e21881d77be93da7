//! User-supplied paths and URLs, and their MIME classification.
//!
//! A `UserPath` is either a URL or a file path. A URL's MIME type is
//! `x-scheme-handler/<scheme>`; a file's MIME type comes from the shared
//! MIME database, consulted through trusted wrappers.

use crate::error::Error;
use crate::literals;
use crate::mime_type::{is_mime_char, lower_bytes, wf_mime, wf_mime_at, MimeType};
use crate::text;
use crate::wrappers;
use vstd::prelude::*;

verus! {

/// A path or URL handed in by the caller.
pub enum UserPath {
    /// A parsed URL: its lowercase scheme and its full serialization.
    Url {
        /// The URL scheme, lowercase ASCII.
        scheme: Vec<u8>,
        /// The whole URL as the parser serializes it.
        serialized: Vec<u8>,
    },
    /// A local file path.
    File(Vec<u8>),
}

/// The MIME type bytes of a URL with the given scheme.
pub open spec fn spec_scheme_mime(scheme: Seq<u8>) -> Seq<u8> {
    literals::lit_x_scheme_handler_prefix() + scheme
}

/// A URL value carries the scheme the parser validated.
pub open spec fn wf_scheme(scheme: Seq<u8>) -> bool {
    scheme.len() > 0 && forall|i: int|
        0 <= i < scheme.len() ==> wrappers::is_scheme_char(#[trigger] scheme[i])
}

/// `x-scheme-handler/<scheme>` is a well-formed MIME type.
pub proof fn lemma_scheme_mime_wf(scheme: Seq<u8>)
    requires
        wf_scheme(scheme),
    ensures
        wf_mime(spec_scheme_mime(scheme)),
        lower_bytes(spec_scheme_mime(scheme)) == spec_scheme_mime(scheme),
{
    let p = literals::lit_x_scheme_handler_prefix();
    let m = spec_scheme_mime(scheme);
    assert(m[16] == text::SLASH);
    assert forall|j: int| 0 <= j < m.len() && j != 16 implies is_mime_char(m[j]) by {
        if j < 16 {
            assert(m[j] == p[j]);
        } else {
            assert(m[j] == scheme[j - 17]);
            assert(wrappers::is_scheme_char(scheme[j - 17]));
        }
    }
    assert(wf_mime_at(m, 16));
    crate::file_format::lemma_wf_mime_lower_id(m);
}

impl UserPath {
    /// The bytes programs receive for this value: the URL serialization
    /// or the file path.
    pub open spec fn text_view(&self) -> Seq<u8> {
        match self {
            UserPath::Url { serialized, .. } => serialized@,
            UserPath::File(p) => p@,
        }
    }

    /// A URL's scheme is validated; a file path is arbitrary bytes.
    pub open spec fn wf(&self) -> bool {
        match self {
            UserPath::Url { scheme, .. } => wf_scheme(scheme@),
            UserPath::File(_) => true,
        }
    }

    /// Interpret user input: a parsable URL with the `file` scheme
    /// becomes a file path (or fails with `BadPath` when the path part
    /// cannot be converted), any other parsable URL stays a URL, and
    /// everything else is a file path, never failing.
    pub fn from_input(s: &Vec<u8>) -> (r: Result<UserPath, Error>)
        ensures
            r matches Ok(p) ==> p.wf(),
            match wrappers::url_parse_of(s@) {
                None => (r matches Ok(UserPath::File(p)) && p@ == s@),
                Some((scheme, ser)) => {
                    if scheme == literals::lit_file_scheme() {
                        (r matches Ok(UserPath::File(_))) || (r matches Err(Error::BadPath(b))
                            && b@ == s@)
                    } else {
                        r matches Ok(UserPath::Url { scheme: sc, serialized: sz }) && sc@
                            == scheme && sz@ == ser
                    }
                },
            },
    {
        match wrappers::parse_url(s) {
            Some(parts) => {
                let file_lit = literals::bytes_file_scheme();
                if text::bytes_eq(&parts.scheme, &file_lit) {
                    match wrappers::url_to_file_path(s) {
                        Some(path) => Ok(UserPath::File(path)),
                        None => Err(Error::BadPath(text::clone_bytes(s))),
                    }
                } else {
                    Ok(UserPath::Url { scheme: parts.scheme, serialized: parts.serialized })
                }
            },
            None => Ok(UserPath::File(text::clone_bytes(s))),
        }
    }

    /// The bytes callers hand to programs: the URL serialization or the
    /// file path.
    pub fn as_bytes(&self) -> (r: &Vec<u8>)
        ensures
            r@ == self.text_view(),
    {
        match self {
            UserPath::Url { serialized, .. } => serialized,
            UserPath::File(p) => p,
        }
    }

    /// A copy of this value.
    pub fn duplicate(&self) -> (r: UserPath)
        ensures
            match (self, &r) {
                (
                    UserPath::Url { scheme: s1, serialized: z1 },
                    UserPath::Url { scheme: s2, serialized: z2 },
                ) => s1@ == s2@ && z1@ == z2@,
                (UserPath::File(p1), UserPath::File(p2)) => p1@ == p2@,
                _ => false,
            },
            self.wf() ==> r.wf(),
    {
        match self {
            UserPath::Url { scheme, serialized } => UserPath::Url {
                scheme: text::clone_bytes(scheme),
                serialized: text::clone_bytes(serialized),
            },
            UserPath::File(p) => UserPath::File(text::clone_bytes(p)),
        }
    }

    /// The MIME type of this path or URL. A URL maps exactly to
    /// `x-scheme-handler/<scheme>`; a file is classified by the shared
    /// MIME database, first by name, then by content, rejecting the
    /// database's inconclusive answers — in particular the generic
    /// `application/octet-stream` — with `Ambiguous`.
    pub fn get_mime(&self) -> (r: Result<MimeType, Error>)
        requires
            self.wf(),
        ensures
            match self {
                UserPath::Url { scheme, .. } => r matches Ok(m) && m@ == spec_scheme_mime(
                    scheme@,
                ),
                UserPath::File(p) => {
                    match r {
                        Ok(m) => m.wf() && m@ != literals::lit_octet_stream(),
                        Err(e) => e matches Error::Ambiguous(b) && b@ == p@,
                    }
                },
            },
    {
        match self {
            UserPath::Url { scheme, .. } => {
                let mut m = literals::bytes_x_scheme_handler_prefix();
                text::push_bytes(&mut m, scheme);
                proof {
                    lemma_scheme_mime_wf(scheme@);
                }
                match MimeType::parse_bytes(&m) {
                    Ok(mt) => Ok(mt),
                    Err(_) => {
                        // Unreachable: the scheme bytes make a valid MIME
                        // type, as proved above.
                        proof {
                            assert(false);
                        }
                        Err(Error::NoTerminal)
                    },
                }
            },
            UserPath::File(p) => {
                let db = wrappers::load_mime_db();
                let by_name = wrappers::guess_mime_by_name(&db, p);
                match acceptable_mime(&db, &by_name, true) {
                    Some(m) => Ok(m),
                    None => {
                        let by_content = wrappers::guess_mime_by_content(&db, p);
                        match acceptable_mime(&db, &by_content, false) {
                            Some(m) => Ok(m),
                            None => Err(Error::Ambiguous(text::clone_bytes(p))),
                        }
                    },
                }
            },
        }
    }

}

/// Whether a database guess is usable: the generic
/// `application/octet-stream` is never usable; with `discard_zerosize`
/// set, a guess the database holds equal to `application/x-zerosize` is
/// rejected too; a usable guess is the guess itself, case-normalized.
pub fn acceptable_mime(
    db: &xdg_mime::SharedMimeInfo,
    guess: &Vec<u8>,
    discard_zerosize: bool,
) -> (r: Option<MimeType>)
    ensures
        r matches Some(m) ==> m.wf() && m@ == lower_bytes(guess@) && m@
            != literals::lit_octet_stream(),
        !discard_zerosize && lower_bytes(guess@) != literals::lit_octet_stream() && wf_mime(
            lower_bytes(guess@),
        ) ==> r is Some,
        r is None ==> lower_bytes(guess@) == literals::lit_octet_stream() || !wf_mime(
            lower_bytes(guess@),
        ) || discard_zerosize,
{
    let m = match MimeType::parse_bytes(guess) {
        Ok(m) => m,
        Err(_) => {
            return None;
        },
    };
    let octet = literals::bytes_octet_stream();
    if text::bytes_eq(m.as_bytes(), &octet) {
        return None;
    }
    if discard_zerosize {
        let zero = literals::bytes_zerosize();
        if wrappers::mime_equal_in_db(db, guess, &zero) {
            return None;
        }
    }
    Some(m)
}

/// What classifying an extension's guess list yields.
pub enum GuessVerdict {
    /// The list decides nothing: it is empty, or holds only the generic
    /// `application/octet-stream`.
    Inconclusive,
    /// The first guess decides, as this case-normalized MIME type.
    Accepted(Seq<u8>),
    /// The first guess is not a well-formed MIME type.
    Rejected,
}

/// The verdict on an extension's guess list: empty or
/// octet-stream-only is inconclusive; otherwise the first guess
/// decides, accepted exactly when it is a well-formed MIME type.
pub open spec fn spec_classify_guesses(guesses: Seq<Seq<u8>>) -> GuessVerdict {
    if guesses.len() == 0 || (guesses.len() == 1 && guesses[0]
        == literals::lit_octet_stream()) {
        GuessVerdict::Inconclusive
    } else if wf_mime(lower_bytes(guesses[0])) {
        GuessVerdict::Accepted(lower_bytes(guesses[0]))
    } else {
        GuessVerdict::Rejected
    }
}

/// Decide a MIME type from the database's guess list for a file
/// extension, exactly as `spec_classify_guesses` says: inconclusive
/// lists fail with `Ambiguous` carrying the extension, rejected guesses
/// with `InvalidMime` carrying the guess.
pub fn classify_guesses(guesses: &Vec<Vec<u8>>, ext: &Vec<u8>) -> (r: Result<MimeType, Error>)
    ensures
        match spec_classify_guesses(text::views(guesses@)) {
            GuessVerdict::Accepted(m) => r matches Ok(mt) && mt@ == m && mt.wf(),
            GuessVerdict::Inconclusive => r matches Err(Error::Ambiguous(b)) && b@ == ext@,
            GuessVerdict::Rejected => r matches Err(Error::InvalidMime(b)) && b@
                == guesses@[0]@,
        },
{
    if guesses.len() == 0 {
        return Err(Error::Ambiguous(text::clone_bytes(ext)));
    }
    let octet = literals::bytes_octet_stream();
    if guesses.len() == 1 && text::bytes_eq(&guesses[0], &octet) {
        return Err(Error::Ambiguous(text::clone_bytes(ext)));
    }
    MimeType::parse_bytes(&guesses[0])
}

/// Interpret command-line input as a MIME type, or as a file extension
/// (`.pdf`) classified by the shared MIME database through
/// `classify_guesses`.
pub fn mime_or_extension(input: &Vec<u8>) -> (r: Result<MimeType, Error>)
    ensures
        !(input@.len() > 0 && input@[0] == 46) ==> {
            match r {
                Ok(m) => wf_mime(lower_bytes(input@)) && m@ == lower_bytes(input@),
                Err(e) => !wf_mime(lower_bytes(input@)) && (e matches Error::InvalidMime(b)
                    && b@ == input@),
            }
        },
        (input@.len() > 0 && input@[0] == 46) ==> {
            match r {
                Ok(m) => m.wf(),
                Err(e) => e is Ambiguous || e is InvalidMime,
            }
        },
{
    if input.len() > 0 && input[0] == 46 {
        let db = wrappers::load_mime_db();
        let guesses = wrappers::mime_types_from_file_name(&db, input);
        classify_guesses(&guesses, input)
    } else {
        MimeType::parse_bytes(input)
    }
}

} // verus!
