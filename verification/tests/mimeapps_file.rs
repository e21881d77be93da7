//! Round trips and tolerant reading of the association file format.

use handlr::handler::DesktopHandler;
use handlr::mime_apps::MimeApps;
use handlr::mime_type::MimeType;

fn mt(s: &str) -> MimeType {
    MimeType::parse_bytes(&s.as_bytes().to_vec()).unwrap()
}

fn dh(s: &str) -> DesktopHandler {
    DesktopHandler::assume_valid(s)
}

fn read(input: &str) -> MimeApps {
    MimeApps::read_from(&input.as_bytes().to_vec()).unwrap()
}

fn save(apps: &mut MimeApps) -> String {
    String::from_utf8(apps.save_to()).unwrap()
}

const NO_ADDED: &str = "[Default Applications]\r\ntext/plain=nvim.desktop;\r\n";
const NO_DEFAULT: &str = "[Added Associations]\r\ntext/plain=nvim.desktop;\r\n";
const SORTED: &str = "[Added Associations]\r\nimage/png=swayimg.desktop;\r\ntext/plain=helix.desktop;\r\n[Default Applications]\r\ntext/html=nvim.desktop;\r\ntext/plain=helix.desktop;nvim.desktop;\r\n";

#[test]
fn mimeapps_no_added_round_trip() {
    let mut apps = read(NO_ADDED);
    assert_eq!(save(&mut apps), NO_ADDED);
}

#[test]
fn mimeapps_no_default_round_trip() {
    let mut apps = read(NO_DEFAULT);
    assert_eq!(save(&mut apps), NO_DEFAULT);
}

#[test]
fn mimeapps_sorted_round_trip() {
    let mut apps = read(SORTED);
    assert_eq!(save(&mut apps), SORTED);
}

#[test]
fn mimeapps_anomalous_semicolons_round_trip() {
    // Duplicated, leading, and missing trailing semicolons all normalize.
    let anomalous = "[Added Associations]\r\nimage/png=;swayimg.desktop\r\ntext/plain=helix.desktop;;\r\n[Default Applications]\r\ntext/html=nvim.desktop\r\ntext/plain=;;helix.desktop;nvim.desktop\r\n";
    let mut apps = read(anomalous);
    assert_eq!(save(&mut apps), SORTED);
}

#[test]
fn mimeapps_empty_entry_round_trip() {
    let empty_entry = "[Default Applications]\r\ntext/html=\r\ntext/plain=nvim.desktop;\r\n";
    let mut apps = read(empty_entry);
    assert_eq!(save(&mut apps), NO_ADDED);
}

#[test]
fn mimeapps_empty_entry_fallback() {
    let empty_entry = "[Default Applications]\r\ntext/html=\r\ntext/plain=nvim.desktop;\r\n";
    let apps = read(empty_entry);
    let handler = apps.get_handler_from_user(&mt("text/plain")).unwrap();
    assert_eq!(handler.name(), b"nvim.desktop");
}

#[test]
fn mimeapps_duplicate_round_trip() {
    let duplicate = "[Default Applications]\r\ntext/plain=nvim.desktop;nvim.desktop;\r\n";
    let mut apps = read(duplicate);
    assert_eq!(save(&mut apps), NO_ADDED);
}

#[test]
fn mimeapps_round_trip_with_deletion_and_re_addition() {
    let mut apps = read(SORTED);
    apps.remove_handler(&mt("text/html"), &dh("nvim.desktop"));
    apps.add_handler(&mt("text/html"), &dh("nvim.desktop"), false).unwrap();
    assert_eq!(save(&mut apps), SORTED);
}

#[test]
fn mimeapps_reads_unix_line_endings() {
    let unix = "[Default Applications]\ntext/plain=nvim.desktop;\n";
    let mut apps = read(unix);
    assert_eq!(save(&mut apps), NO_ADDED);
}

#[test]
fn mimeapps_skips_blank_lines_and_unknown_sections() {
    let messy = "\r\n[Ignored Section]\r\nwhatever=thing;\r\n[Default Applications]\r\n\r\ntext/plain=nvim.desktop;\r\n";
    let mut apps = read(messy);
    assert_eq!(save(&mut apps), NO_ADDED);
}

#[test]
fn mimeapps_sorts_keys_on_read() {
    let unsorted = "[Default Applications]\r\ntext/plain=nvim.desktop;\r\nimage/png=swayimg.desktop;\r\n";
    let mut apps = read(unsorted);
    assert_eq!(
        save(&mut apps),
        "[Default Applications]\r\nimage/png=swayimg.desktop;\r\ntext/plain=nvim.desktop;\r\n"
    );
}

#[test]
fn mimeapps_rejects_invalid_mime_key() {
    let bad = "[Default Applications]\r\nnot a mime=nvim.desktop;\r\n";
    let err = MimeApps::read_from(&bad.as_bytes().to_vec()).unwrap_err();
    assert!(matches!(err, handlr::error::Error::InvalidMime(_)));
}

#[test]
fn mimeapps_empty_input_saves_empty() {
    let mut apps = read("");
    assert_eq!(save(&mut apps), "");
}

#[test]
fn unset_handlers_expand_wildcards() {
    let mut apps = MimeApps::new();
    apps.set_handler(&mt("text/*"), &dh("Helix.desktop"), true).unwrap();

    // Expansion stored concrete keys, so the literal wildcard key is
    // absent and unsetting it removes nothing.
    assert!(apps.unset_handler(&mt("text/*")).is_none());

    // A concrete expanded key can be unset, after which it no longer
    // resolves.
    assert!(apps.unset_handler(&mt("text/plain")).is_some());
    assert!(apps.get_handler_from_user(&mt("text/plain")).is_err());

    // Other expanded keys are untouched.
    let handler = apps.get_handler_from_user(&mt("text/html")).unwrap();
    assert_eq!(handler.name(), b"Helix.desktop");
}

#[test]
fn remove_handlers_expand_wildcards() {
    let mut apps = MimeApps::new();
    apps.set_handler(&mt("text/*"), &dh("Helix.desktop"), true).unwrap();

    // The literal wildcard key was never stored.
    assert!(apps.remove_handler(&mt("text/*"), &dh("Helix.desktop")).is_none());

    // Removing the only handler of an expanded key empties that entry.
    assert!(apps.remove_handler(&mt("text/plain"), &dh("Helix.desktop")).is_some());
    assert!(apps.remove_handler(&mt("text/plain"), &dh("Helix.desktop")).is_none());
    assert!(apps.get_handler_from_user(&mt("text/plain")).is_err());
}

#[test]
fn set_handlers_expand_wildcards() {
    let mut apps = MimeApps::new();
    apps.set_handler(&mt("text/*"), &dh("Helix.desktop"), true).unwrap();
    apps.set_handler(&mt("application/vnd.oasis.opendocument.*"), &dh("startcenter.desktop"), true)
        .unwrap();
    // A concrete MIME type is stored as itself even with expansion on.
    apps.set_handler(&mt("video/mp4"), &dh("mpv.desktop"), true).unwrap();

    assert_eq!(apps.get_handler_from_user(&mt("text/plain")).unwrap().name(), b"Helix.desktop");
    assert_eq!(apps.get_handler_from_user(&mt("text/html")).unwrap().name(), b"Helix.desktop");
    assert_eq!(
        apps.get_handler_from_user(&mt("application/vnd.oasis.opendocument.text"))
            .unwrap()
            .name(),
        b"startcenter.desktop"
    );
    assert_eq!(apps.get_handler_from_user(&mt("video/mp4")).unwrap().name(), b"mpv.desktop");
    // Nothing was stored for MIME types outside the patterns.
    assert!(apps.get_handler_from_user(&mt("video/webm")).is_err());
}

#[test]
fn add_handlers_expand_wildcards() {
    let mut apps = MimeApps::new();
    apps.add_handler(&mt("text/*"), &dh("Helix.desktop"), true).unwrap();
    apps.add_handler(&mt("text/*"), &dh("nvim.desktop"), true).unwrap();

    // Both handlers landed on every expanded key, first added first.
    assert_eq!(apps.get_handler_from_user(&mt("text/plain")).unwrap().name(), b"Helix.desktop");
    assert!(apps.remove_handler(&mt("text/plain"), &dh("Helix.desktop")).is_some());
    assert_eq!(apps.get_handler_from_user(&mt("text/plain")).unwrap().name(), b"nvim.desktop");
}
