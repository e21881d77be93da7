//! Trusted wrappers around the outside crates this library leans on.
//!
//! Each wrapper's body only makes the outside call and converts values;
//! Verus believes the stated contract. Results that depend on the
//! machine — the filesystem, the XDG directories, the shared MIME
//! database — carry no promise beyond their shape.

use vstd::prelude::*;

verus! {

/// Relies on `xdg::BaseDirectories::find_data_file`: the path of
/// `applications/<name>` under the XDG data search path, if the file
/// exists. Depends on what is on disk, so nothing is promised of it.
#[verifier::external_body]
pub fn find_desktop_file(name: &Vec<u8>) -> (r: Option<Vec<u8>>)
{
    let name = String::from_utf8_lossy(name).into_owned();
    let mut rel = std::path::PathBuf::from("applications");
    rel.push(name);
    xdg::BaseDirectories::new().find_data_file(rel).map(
        |p| p.to_string_lossy().into_owned().into_bytes(),
    )
}

/// Relies on `xdg::BaseDirectories::list_data_files_once`: the files
/// under `applications/` in the XDG data search path, one path each.
/// Depends on what is on disk, so nothing is promised of it.
#[verifier::external_body]
pub fn list_application_files() -> (r: Vec<Vec<u8>>)
{
    xdg::BaseDirectories::new().list_data_files_once("applications").into_iter().map(
        |p| p.to_string_lossy().into_owned().into_bytes(),
    ).collect()
}

/// The fields this library reads from a parsed desktop file.
pub struct RawDesktopEntry {
    /// Localized application name.
    pub name: Vec<u8>,
    /// Exec template, verbatim.
    pub exec_cmd: Vec<u8>,
    /// The `Terminal` key.
    pub terminal: bool,
    /// The `MimeType` list, unvalidated.
    pub mime_types: Vec<Vec<u8>>,
    /// The `Categories` list.
    pub categories: Vec<Vec<u8>>,
}

/// Relies on `freedesktop_desktop_entry::DesktopEntry::from_path` and its
/// accessors `name`, `exec`, `terminal`, `mime_type`, `categories`:
/// parse the desktop file at `path` and hand its fields over as plain
/// bytes. Depends on what is on disk, so nothing is promised of it.
#[verifier::external_body]
pub fn parse_desktop_file(path: &Vec<u8>) -> (r: Option<RawDesktopEntry>)
{
    let path = std::path::PathBuf::from(String::from_utf8_lossy(path).into_owned());
    let locales = freedesktop_desktop_entry::get_languages_from_env();
    let e = freedesktop_desktop_entry::DesktopEntry::from_path(path, Some(&locales)).ok()?;
    let to_bytes = |xs: Option<Vec<&str>>| {
        xs.unwrap_or_default().iter().map(|x| x.as_bytes().to_vec()).collect()
    };
    Some(RawDesktopEntry {
        name: e.name(&locales)?.into_owned().into_bytes(),
        exec_cmd: e.exec()?.as_bytes().to_vec(),
        terminal: e.terminal(),
        mime_types: to_bytes(e.mime_type()),
        categories: to_bytes(e.categories()),
    })
}

/// Whether any of the given regular expressions matches the text; a set
/// that fails to compile matches nothing. The result depends on the
/// patterns and the text alone.
pub uninterp spec fn regex_set_matches(patterns: Seq<Seq<char>>, text: Seq<u8>) -> bool;

/// Relies on `regex::RegexSet::new` and `RegexSet::is_match`; the result
/// is named `regex_set_matches`.
#[verifier::external_body]
pub fn regex_set_is_match(patterns: &Vec<String>, text: &Vec<u8>) -> (r: bool)
    ensures
        r == regex_set_matches(patterns.deep_view(), text@),
{
    let text = String::from_utf8_lossy(text).into_owned();
    regex::RegexSet::new(patterns).map(|s| s.is_match(&text)).unwrap_or(false)
}

/// A parsed URL, reduced to what resolution reads.
pub struct UrlParts {
    /// The scheme, lowercase ASCII.
    pub scheme: Vec<u8>,
    /// The whole URL as serialized back by the parser.
    pub serialized: Vec<u8>,
}

/// A byte the `url` crate allows in a parsed scheme: lowercase ASCII
/// letters, digits, `+`, `-`, `.`.
pub open spec fn is_scheme_char(c: u8) -> bool {
    (97 <= c <= 122) || (48 <= c <= 57) || c == 43 || c == 45 || c == 46
}

/// What URL parsing yields for the given bytes: the (scheme,
/// serialization) pair, or nothing when the input does not parse. The
/// result depends on the bytes alone.
pub uninterp spec fn url_parse_of(s: Seq<u8>) -> Option<(Seq<u8>, Seq<u8>)>;

/// Relies on `url::Url::parse`, `Url::scheme` and `Url::as_str`; the
/// outcome is named `url_parse_of`. The parser rejects an empty or
/// ill-formed scheme and lowercases it, so a parsed scheme is promised
/// nonempty, to start with a letter, and to hold only scheme bytes.
#[verifier::external_body]
pub fn parse_url(s: &Vec<u8>) -> (r: Option<UrlParts>)
    ensures
        match r {
            Some(p) => {
                &&& url_parse_of(s@) == Some((p.scheme@, p.serialized@))
                &&& p.scheme@.len() > 0
                &&& 97 <= p.scheme@[0] <= 122
                &&& forall|i: int|
                    0 <= i < p.scheme@.len() ==> is_scheme_char(#[trigger] p.scheme@[i])
            },
            None => url_parse_of(s@) is None,
        },
{
    let s = match std::str::from_utf8(s) {
        Ok(t) => t,
        Err(_) => {
            return None;
        },
    };
    let u = url::Url::parse(s).ok()?;
    Some(
        UrlParts {
            scheme: u.scheme().as_bytes().to_vec(),
            serialized: u.as_str().as_bytes().to_vec(),
        },
    )
}

/// Relies on `url::Url::parse` and `Url::to_file_path`: the local path a
/// `file:` URL points to, if it has one. Platform-dependent, so nothing
/// is promised of it.
#[verifier::external_body]
pub fn url_to_file_path(s: &Vec<u8>) -> (r: Option<Vec<u8>>)
{
    let s = std::str::from_utf8(s).ok()?;
    let u = url::Url::parse(s).ok()?;
    u.to_file_path().ok().map(|p| p.to_string_lossy().into_owned().into_bytes())
}

/// The shared MIME database, opaque to verification; values of it only
/// pass from `load_mime_db` into the query wrappers below.
#[verifier::external_type_specification]
#[verifier::external_body]
pub struct ExSharedMimeInfo(xdg_mime::SharedMimeInfo);

/// Relies on `xdg_mime::SharedMimeInfo::new` and `new_for_directory`.
/// `new` aborts when `dirs_next::data_dir()` is `None` (no home and no
/// absolute data-home variable), so exactly that case falls back to
/// loading the system-wide directory alone; neither path can abort.
/// Depends on the installed database, so nothing is promised.
#[verifier::external_body]
pub fn load_mime_db() -> (r: xdg_mime::SharedMimeInfo)
{
    match dirs_next::data_dir() {
        Some(_) => xdg_mime::SharedMimeInfo::new(),
        None => xdg_mime::SharedMimeInfo::new_for_directory("/usr/share"),
    }
}

/// Relies on `xdg_mime::SharedMimeInfo::get_mime_types_from_file_name`:
/// the MIME types the shared database guesses from a file name, best
/// first. Depends on the installed database, so nothing is promised.
#[verifier::external_body]
pub fn mime_types_from_file_name(db: &xdg_mime::SharedMimeInfo, name: &Vec<u8>) -> (r: Vec<
    Vec<u8>,
>)
{
    let name = String::from_utf8_lossy(name).into_owned();
    db.get_mime_types_from_file_name(&name).iter().map(
        |m| m.essence_str().as_bytes().to_vec(),
    ).collect()
}

/// Relies on `xdg_mime`'s `GuessBuilder` with only the file name set:
/// the database's guess for a path, by name alone. Depends on the
/// installed database, so nothing is promised.
#[verifier::external_body]
pub fn guess_mime_by_name(db: &xdg_mime::SharedMimeInfo, path: &Vec<u8>) -> (r: Vec<u8>)
{
    let path = String::from_utf8_lossy(path).into_owned();
    let mut guess = db.guess_mime_type();
    guess.file_name(&path);
    guess.guess().mime_type().essence_str().as_bytes().to_vec()
}

/// Relies on `xdg_mime`'s `GuessBuilder` with the path set: the
/// database's guess for a path, content sniffing included. Depends on
/// the installed database and the file, so nothing is promised.
#[verifier::external_body]
pub fn guess_mime_by_content(db: &xdg_mime::SharedMimeInfo, path: &Vec<u8>) -> (r: Vec<u8>)
{
    let path = String::from_utf8_lossy(path).into_owned();
    let mut guess = db.guess_mime_type();
    guess.path(&path);
    guess.guess().mime_type().essence_str().as_bytes().to_vec()
}

/// Relies on `xdg_mime::SharedMimeInfo::mime_type_equal`: whether the
/// database holds the two MIME types equal, aliases included. Depends on
/// the installed database, so nothing is promised.
#[verifier::external_body]
pub fn mime_equal_in_db(db: &xdg_mime::SharedMimeInfo, a: &Vec<u8>, b: &Vec<u8>) -> (r: bool)
{
    let a: mime::Mime = match String::from_utf8_lossy(a).parse() {
        Ok(m) => m,
        Err(_) => {
            return false;
        },
    };
    let b: mime::Mime = match String::from_utf8_lossy(b).parse() {
        Ok(m) => m,
        Err(_) => {
            return false;
        },
    };
    db.mime_type_equal(&a, &b)
}

} // verus!
