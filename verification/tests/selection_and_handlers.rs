//! The selector protocol, selector overrides, regex handlers, and
//! grouping paths by handler.

use handlr::config_file::SelectorArgs;
use handlr::error::Error;
use handlr::handler::{DesktopHandler, DesktopList, Handler, RegexApps, RegexHandler};
use handlr::main_config::Config;
use handlr::mime_type::MimeType;
use handlr::path::UserPath;
use handlr::selector::{apply_selection, selector_input};
use handlr::table::{MimeAppsEntry, MimeAppsTable};

fn mt(s: &str) -> MimeType {
    MimeType::parse_bytes(&s.as_bytes().to_vec()).unwrap()
}

fn dh(s: &str) -> DesktopHandler {
    DesktopHandler::assume_valid(s)
}

fn names(xs: &[&str]) -> Vec<Vec<u8>> {
    xs.iter().map(|x| x.as_bytes().to_vec()).collect()
}

#[test]
fn selector_protocol() {
    // Three candidates: stdin gets them newline-joined; an empty reply
    // is a cancellation; a matching reply picks that candidate.
    let ns = names(&["Helix", "Neovim", "Kakoune"]);
    assert_eq!(selector_input(&ns), b"Helix\nNeovim\nKakoune");

    let candidates = DesktopList::parse(&b"helix.desktop;nvim.desktop;kakoune.desktop;".to_vec());
    let mime = mt("text/plain");

    let cancelled = apply_selection(&b"".to_vec(), &candidates, &ns, &mime);
    assert!(matches!(cancelled, Err(Error::Cancelled)));
    let cancelled = apply_selection(&b"  \n".to_vec(), &candidates, &ns, &mime);
    assert!(matches!(cancelled, Err(Error::Cancelled)));

    let chosen = apply_selection(&b"Neovim\n".to_vec(), &candidates, &ns, &mime).unwrap();
    assert_eq!(chosen.name(), b"nvim.desktop");

    // A reply naming no candidate fails with the MIME type, not the reply.
    let unknown = apply_selection(&b"Emacs\n".to_vec(), &candidates, &ns, &mime);
    match unknown {
        Err(Error::NotFound(b)) => assert_eq!(b, b"text/plain"),
        _ => panic!("expected a not-found failure"),
    }
}

#[test]
fn override_selector() {
    let mut config = Config::new_default();

    // Ensure defaults are as expected just in case
    assert_eq!(config.config.selector, b"rofi -dmenu -i -p 'Open With: '");
    assert_eq!(config.config.enable_selector, false);

    config.override_selector(SelectorArgs {
        selector: Some("fzf".to_string()),
        enable_selector: true,
        disable_selector: false,
    });
    assert_eq!(config.config.selector, b"fzf");
    assert_eq!(config.config.enable_selector, true);

    config.override_selector(SelectorArgs {
        selector: Some("fuzzel --dmenu --prompt='Open With: '".to_string()),
        enable_selector: false,
        disable_selector: true,
    });
    assert_eq!(config.config.selector, b"fuzzel --dmenu --prompt='Open With: '");
    assert_eq!(config.config.enable_selector, false);
}

#[test]
fn dont_override_selector() {
    let mut config = Config::new_default();

    assert_eq!(config.config.selector, b"rofi -dmenu -i -p 'Open With: '");
    assert_eq!(config.config.enable_selector, false);

    config.override_selector(SelectorArgs {
        selector: None,
        enable_selector: false,
        disable_selector: false,
    });
    assert_eq!(config.config.selector, b"rofi -dmenu -i -p 'Open With: '");
    assert_eq!(config.config.enable_selector, false);

    config.override_selector(SelectorArgs {
        selector: None,
        enable_selector: false,
        disable_selector: true,
    });
    assert_eq!(config.config.selector, b"rofi -dmenu -i -p 'Open With: '");
    assert_eq!(config.config.enable_selector, false);

    // Now repeat with the selector enabled.
    config.config.enable_selector = true;

    config.override_selector(SelectorArgs {
        selector: None,
        enable_selector: true,
        disable_selector: false,
    });
    assert_eq!(config.config.selector, b"rofi -dmenu -i -p 'Open With: '");
    assert_eq!(config.config.enable_selector, true);

    config.override_selector(SelectorArgs {
        selector: None,
        enable_selector: false,
        disable_selector: false,
    });
    assert_eq!(config.config.selector, b"rofi -dmenu -i -p 'Open With: '");
    assert_eq!(config.config.enable_selector, true);
}

#[test]
fn regex_handlers() {
    let regex_handler = RegexHandler {
        exec_cmd: b"freetube %u".to_vec(),
        terminal: false,
        regexes: vec![String::from(r"(https://)?(www\.)?youtu(be\.com|\.be)/*")],
    };
    let regex_apps = RegexApps(vec![regex_handler]);

    let video = UserPath::Url {
        scheme: b"https".to_vec(),
        serialized: b"https://youtu.be/dQw4w9WgXcQ".to_vec(),
    };
    let found = regex_apps.get_handler(&video).unwrap();
    let entry = found.get_entry();
    assert_eq!(entry.exec_cmd, b"freetube %u");
    assert_eq!(entry.terminal, false);

    let other = UserPath::Url {
        scheme: b"https".to_vec(),
        serialized: b"https://en.wikipedia.org".to_vec(),
    };
    assert!(regex_apps.get_handler(&other).is_err());
}

#[test]
fn properly_assign_files_to_handlers() {
    let mut config = Config::new_default();
    config.add_handler(&mt("x-scheme-handler/http"), &dh("firefox.desktop")).unwrap();
    config.add_handler(&mt("x-scheme-handler/mailto"), &dh("thunderbird.desktop")).unwrap();

    let url = |s: &str, scheme: &str| UserPath::Url {
        scheme: scheme.as_bytes().to_vec(),
        serialized: s.as_bytes().to_vec(),
    };
    let paths = vec![
        url("http://a.example/", "http"),
        url("mailto:someone@example.org", "mailto"),
        url("http://c.example/", "http"),
    ];

    let groups = config.assign_files_to_handlers(&paths).unwrap();
    assert_eq!(groups.len(), 2);
    match &groups[0].0 {
        Handler::DesktopHandler(h) => assert_eq!(h.name(), b"firefox.desktop"),
        _ => panic!("expected a desktop handler"),
    }
    assert_eq!(groups[0].1, vec![b"http://a.example/".to_vec(), b"http://c.example/".to_vec()]);
    match &groups[1].0 {
        Handler::DesktopHandler(h) => assert_eq!(h.name(), b"thunderbird.desktop"),
        _ => panic!("expected a desktop handler"),
    }
    assert_eq!(groups[1].1, vec![b"mailto:someone@example.org".to_vec()]);
}

#[test]
fn regex_handler_wins_over_mime_resolution() {
    let mut config = Config::new_default();
    config.add_handler(&mt("x-scheme-handler/https"), &dh("firefox.desktop")).unwrap();
    config.config.handlers = RegexApps(vec![RegexHandler {
        exec_cmd: b"freetube %u".to_vec(),
        terminal: false,
        regexes: vec![String::from(r"youtu\.be")],
    }]);

    let video = UserPath::Url {
        scheme: b"https".to_vec(),
        serialized: b"https://youtu.be/abc".to_vec(),
    };
    match config.get_handler_from_path(&video).unwrap() {
        Handler::RegexHandler(h) => assert_eq!(h.exec_cmd, b"freetube %u"),
        _ => panic!("expected the regex handler"),
    }

    let page = UserPath::Url {
        scheme: b"https".to_vec(),
        serialized: b"https://example.org/".to_vec(),
    };
    match config.get_handler_from_path(&page).unwrap() {
        Handler::DesktopHandler(h) => assert_eq!(h.name(), b"firefox.desktop"),
        _ => panic!("expected the desktop handler"),
    }
}

#[test]
fn url_mime_comes_from_scheme() {
    let url = UserPath::Url {
        scheme: b"https".to_vec(),
        serialized: b"https://example.org/".to_vec(),
    };
    assert_eq!(url.get_mime().unwrap().as_bytes(), b"x-scheme-handler/https");
}

#[test]
fn url_parsing_detects_schemes() {
    let parsed = UserPath::from_input(&b"https://example.org/page".to_vec()).unwrap();
    match &parsed {
        UserPath::Url { scheme, .. } => assert_eq!(scheme, b"https"),
        _ => panic!("expected a URL"),
    }

    let plain = UserPath::from_input(&b"notes.txt".to_vec()).unwrap();
    assert!(matches!(plain, UserPath::File(_)));

    let file_url = UserPath::from_input(&b"file:///tmp/x.txt".to_vec()).unwrap();
    match &file_url {
        UserPath::File(p) => assert_eq!(p, b"/tmp/x.txt"),
        _ => panic!("expected a file path"),
    }
}

#[test]
fn handler_list_serialization() {
    let list = DesktopList::parse(&b"a.desktop;;b.desktop;a.desktop;".to_vec());
    assert_eq!(list.len(), 2);
    assert_eq!(list.serialize(), b"a.desktop;b.desktop;");

    let empty = DesktopList::parse(&b";;".to_vec());
    assert!(empty.is_empty());
    assert_eq!(empty.serialize(), b"");
}

#[test]
fn table_rows_join_handlers() {
    let mut config = Config::new_default();
    config.add_handler(&mt("text/plain"), &dh("helix.desktop")).unwrap();
    config.add_handler(&mt("text/plain"), &dh("nvim.desktop")).unwrap();

    let table = MimeAppsTable::new(&config.mime_apps, &config.system_apps, false);
    assert_eq!(table.default_apps.len(), 1);
    assert_eq!(table.default_apps[0].mime, b"text/plain");
    assert_eq!(table.default_apps[0].display_handlers(), b"helix.desktop, nvim.desktop");

    let list = DesktopList::parse(&b"a.desktop;b.desktop;".to_vec());
    let row = MimeAppsEntry::new(&mt("image/png"), &list, &b",\n".to_vec());
    assert_eq!(row.display_handlers(), b"a.desktop,\nb.desktop");
}
