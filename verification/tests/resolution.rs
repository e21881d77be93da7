//! Resolution precedence: exact entries, wildcard entries, fallbacks.

use handlr::handler::DesktopHandler;
use handlr::desktop_entry::DesktopEntry;
use handlr::main_config::Config;
use handlr::system_apps::SystemApps;
use handlr::mime_type::MimeType;
use handlr::path::classify_guesses;

fn mt(s: &str) -> MimeType {
    MimeType::parse_bytes(&s.as_bytes().to_vec()).unwrap()
}

fn dh(s: &str) -> DesktopHandler {
    DesktopHandler::assume_valid(s)
}

#[test]
fn wildcard_mimes() {
    let mut config = Config::new_default();
    config.add_handler(&mt("video/*"), &dh("mpv.desktop")).unwrap();
    config.add_handler(&mt("video/webm"), &dh("brave.desktop")).unwrap();

    assert_eq!(config.get_handler(&mt("video/mp4")).unwrap().name(), b"mpv.desktop");
    assert_eq!(config.get_handler(&mt("video/asdf")).unwrap().name(), b"mpv.desktop");
    assert_eq!(config.get_handler(&mt("video/webm")).unwrap().name(), b"brave.desktop");
}

#[test]
fn complex_wildcard_mimes() {
    let mut config = Config::new_default();
    config
        .add_handler(&mt("application/vnd.oasis.opendocument.*"), &dh("startcenter.desktop"))
        .unwrap();
    config
        .add_handler(
            &mt("application/vnd.openxmlformats-officedocument.*"),
            &dh("startcenter.desktop"),
        )
        .unwrap();

    assert_eq!(
        config.get_handler(&mt("application/vnd.oasis.opendocument.text")).unwrap().name(),
        b"startcenter.desktop"
    );
    assert_eq!(
        config
            .get_handler(&mt("application/vnd.openxmlformats-officedocument.spreadsheetml.sheet"))
            .unwrap()
            .name(),
        b"startcenter.desktop"
    );
}

#[test]
fn longest_wildcard_key_wins() {
    let mut config = Config::new_default();
    config.add_handler(&mt("audio/*"), &dh("short.desktop")).unwrap();
    config.add_handler(&mt("audio/mp*"), &dh("longer.desktop")).unwrap();

    // Both patterns match audio/mpeg; the longer key supplies the list.
    assert_eq!(config.get_handler(&mt("audio/mpeg")).unwrap().name(), b"longer.desktop");
    // Only the short pattern matches audio/ogg.
    assert_eq!(config.get_handler(&mt("audio/ogg")).unwrap().name(), b"short.desktop");
}

fn test_add_handlers(config: &mut Config) {
    config.add_handler(&mt("text/plain"), &dh("Helix.desktop")).unwrap();
    // Should return first added handler
    assert_eq!(config.get_handler(&mt("text/plain")).unwrap().name(), b"Helix.desktop");

    config.add_handler(&mt("text/plain"), &dh("nvim.desktop")).unwrap();
    // Should still return first added handler
    assert_eq!(config.get_handler(&mt("text/plain")).unwrap().name(), b"Helix.desktop");
}

fn test_remove_handlers(config: &mut Config) {
    config.remove_handler(&mt("text/plain"), &dh("Helix.desktop"));
    // With the first handler removed, the second (if any) replaces it
    assert_eq!(config.get_handler(&mt("text/plain")).unwrap().name(), b"nvim.desktop");

    assert!(config.remove_handler(&mt("text/plain"), &dh("nvim.desktop")));
    // Both handlers removed, should not be any left
    assert!(config.get_handler(&mt("text/plain")).is_err());
}

fn test_set_handlers(config: &mut Config) {
    config.set_handler(&mt("text/plain"), &dh("Helix.desktop")).unwrap();
    assert_eq!(config.get_handler(&mt("text/plain")).unwrap().name(), b"Helix.desktop");

    config.set_handler(&mt("text/plain"), &dh("nvim.desktop")).unwrap();
    // Should return second set handler because it should replace the first one
    assert_eq!(config.get_handler(&mt("text/plain")).unwrap().name(), b"nvim.desktop");
}

fn test_unset_handlers(config: &mut Config) {
    config.unset_handler(&mt("text/plain"));
    // Handler completely unset, should not be any left
    assert!(config.get_handler(&mt("text/plain")).is_err());
}

#[test]
fn add_and_remove_handlers() {
    let mut config = Config::new_default();
    test_add_handlers(&mut config);
    test_remove_handlers(&mut config);
}

#[test]
fn set_and_unset_handlers() {
    let mut config = Config::new_default();
    test_set_handlers(&mut config);
    test_unset_handlers(&mut config);
}

#[test]
fn add_and_unset_handlers() {
    let mut config = Config::new_default();
    test_add_handlers(&mut config);
    test_unset_handlers(&mut config);
}

#[test]
fn set_and_remove_handlers() {
    let mut config = Config::new_default();
    test_set_handlers(&mut config);
    test_remove_handlers(&mut config);
}

#[test]
fn added_associations_fall_back_before_system() {
    let mut config = Config::new_default();
    config
        .mime_apps
        .added_associations
        .set(mt("text/plain"), handlr::handler::DesktopList::parse(&b"added.desktop;".to_vec()));
    config.system_apps.associations.set(
        mt("text/plain"),
        handlr::handler::DesktopList::parse(&b"system.desktop;".to_vec()),
    );
    config.system_apps.associations.set(
        mt("image/png"),
        handlr::handler::DesktopList::parse(&b"system.desktop;".to_vec()),
    );

    // The added association wins over the system catalog.
    assert_eq!(config.get_handler(&mt("text/plain")).unwrap().name(), b"added.desktop");
    // With nothing in the user layers, the system catalog answers.
    assert_eq!(config.get_handler(&mt("image/png")).unwrap().name(), b"system.desktop");
    // A default entry would beat both.
    config.add_handler(&mt("text/plain"), &dh("user.desktop")).unwrap();
    assert_eq!(config.get_handler(&mt("text/plain")).unwrap().name(), b"user.desktop");
}

#[test]
fn get_handlers() {
    let entries = vec![
        DesktopEntry {
            name: b"Helix".to_vec(),
            exec_cmd: b"hx %f".to_vec(),
            file_name: b"helix.desktop".to_vec(),
            terminal: true,
            mime_type: vec![mt("text/plain")],
            categories: vec![],
        },
        DesktopEntry {
            name: b"Neovim".to_vec(),
            exec_cmd: b"nvim %f".to_vec(),
            file_name: b"nvim.desktop".to_vec(),
            terminal: true,
            mime_type: vec![mt("text/plain")],
            categories: vec![],
        },
    ];
    let system_apps = SystemApps::populate_from(&entries);

    assert_eq!(system_apps.get_handler(&mt("text/plain")).unwrap().name(), b"helix.desktop");
    let handlers = system_apps.get_handlers(&mt("text/plain")).unwrap();
    assert_eq!(handlers.len(), 2);
    assert_eq!(handlers.get(0).name(), b"helix.desktop");
    assert_eq!(handlers.get(1).name(), b"nvim.desktop");
    assert!(system_apps.get_handler(&mt("image/png")).is_none());
}

#[test]
fn mime_types_start_with_custom_entries() {
    let types = handlr::db::mime_types();
    assert!(types.len() >= 4);
    assert_eq!(types[0], b"inode/directory");
    assert_eq!(types[1], b"x-scheme-handler/http");
    assert_eq!(types[2], b"x-scheme-handler/https");
    assert_eq!(types[3], b"x-scheme-handler/terminal");
    assert!(types.iter().any(|t| t == b"text/plain"));
}

#[test]
fn invalid_mime_is_rejected() {
    let err = MimeType::parse_bytes(&b"image".to_vec()).unwrap_err();
    assert!(matches!(err, handlr::error::Error::InvalidMime(_)));
    assert!(MimeType::parse_bytes(&b"image//jpg".to_vec()).is_err());
    assert!(MimeType::parse_bytes(&b"audio/".to_vec()).is_err());
    assert!(MimeType::parse_bytes(&b"/mpeg".to_vec()).is_err());
    // Case is normalized on acceptance.
    assert_eq!(MimeType::parse_bytes(&b"TEXT/Plain".to_vec()).unwrap().as_bytes(), b"text/plain");
}

#[test]
fn glob_matching_semantics() {
    let m = |p: &str, s: &str| {
        handlr::glob::glob_matches(&p.as_bytes().to_vec(), &s.as_bytes().to_vec())
    };
    assert!(m("video/*", "video/mp4"));
    assert!(m("video/*", "video/"));
    assert!(!m("video/*", "audio/mp4"));
    assert!(m("*", "anything"));
    assert!(m("a?c", "abc"));
    assert!(!m("a?c", "ac"));
    assert!(m("text/plain", "text/plain"));
    assert!(!m("text/plain", "text/plains"));
}

#[test]
fn extension_guess_classification() {
    let ext = b".xyz".to_vec();
    // No guess at all is inconclusive.
    let err = classify_guesses(&vec![], &ext).unwrap_err();
    assert!(matches!(err, handlr::error::Error::Ambiguous(_)));
    // A lone generic guess is inconclusive too.
    let only_octet = vec![b"application/octet-stream".to_vec()];
    let err = classify_guesses(&only_octet, &ext).unwrap_err();
    assert!(matches!(err, handlr::error::Error::Ambiguous(_)));
    // Otherwise the first guess decides.
    let guesses = vec![b"application/pdf".to_vec(), b"text/plain".to_vec()];
    assert_eq!(classify_guesses(&guesses, &ext).unwrap().as_bytes(), b"application/pdf");
    // A generic first guess among others still decides, as the database
    // ordered it first.
    let mixed = vec![b"application/octet-stream".to_vec(), b"text/plain".to_vec()];
    assert_eq!(classify_guesses(&mixed, &ext).unwrap().as_bytes(), b"application/octet-stream");
}
