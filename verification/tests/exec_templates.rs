//! The exec-template interpreter: field codes, argument splicing, and
//! terminal wrapping.

use handlr::desktop_entry::{DesktopEntry, Mode};
use handlr::error::Error;
use handlr::mime_type::MimeType;

fn mt(s: &str) -> MimeType {
    MimeType::parse_bytes(&s.as_bytes().to_vec()).unwrap()
}

fn entry(exec: &str, terminal: bool) -> DesktopEntry {
    DesktopEntry {
        name: b"App".to_vec(),
        exec_cmd: exec.as_bytes().to_vec(),
        file_name: b"app.desktop".to_vec(),
        terminal,
        mime_type: vec![],
        categories: vec![],
    }
}

fn args(xs: &[&str]) -> Vec<Vec<u8>> {
    xs.iter().map(|x| x.as_bytes().to_vec()).collect()
}

fn strings(xs: &Vec<Vec<u8>>) -> Vec<String> {
    xs.iter().map(|x| String::from_utf8(x.clone()).unwrap()).collect()
}

#[test]
fn desktop_entry_complex_exec() {
    // A field code buried inside a quoted word is replaced in place by
    // the space-joined arguments.
    let e = DesktopEntry {
        name: b"cmus".to_vec(),
        exec_cmd: b"bash -c \"(! pgrep cmus && tilix -e cmus && tilix -a session-add-down -e cava); sleep 0.1 && cmus-remote -q %f\"".to_vec(),
        file_name: b"cmus.desktop".to_vec(),
        terminal: false,
        mime_type: vec![mt("audio/mp3"), mt("audio/ogg")],
        categories: vec![],
    };
    assert_eq!(e.mime_type.len(), 2);
    assert_eq!(e.mime_type[0].as_bytes(), b"audio/mp3");
    assert_eq!(e.mime_type[1].as_bytes(), b"audio/ogg");

    let (cmd, rest) = e.get_cmd_with_terminal(&args(&["test"]), None).unwrap();
    assert_eq!(cmd, b"bash");
    assert_eq!(
        strings(&rest),
        vec![
            "-c".to_string(),
            "(! pgrep cmus && tilix -e cmus && tilix -a session-add-down -e cava); sleep 0.1 && cmus-remote -q test".to_string()
        ]
    );
    assert!(!e.is_terminal_emulator());
}

#[test]
fn exact_field_code_splices_arguments() {
    let e = entry("mpv --fullscreen %U", false);
    let (cmd, rest) = e.get_cmd_with_terminal(&args(&["a.mp4", "b.mp4"]), None).unwrap();
    assert_eq!(cmd, b"mpv");
    assert_eq!(strings(&rest), vec!["--fullscreen", "a.mp4", "b.mp4"]);
}

#[test]
fn no_field_code_appends_arguments() {
    let e = entry("swayimg", false);
    let (cmd, rest) = e.get_cmd_with_terminal(&args(&["x.png"]), None).unwrap();
    assert_eq!(cmd, b"swayimg");
    assert_eq!(strings(&rest), vec!["x.png"]);
}

#[test]
fn terminal_application_command() {
    // A terminal program invoked outside a terminal gets the resolved
    // terminal launcher prepended.
    let e = entry("hx %f", true);
    let term = b"wezterm start --cwd . -e".to_vec();
    let (cmd, rest) = e.get_cmd_with_terminal(&args(&["test.txt"]), Some(&term)).unwrap();
    assert_eq!(cmd, b"wezterm");
    assert_eq!(strings(&rest), vec!["start", "--cwd", ".", "-e", "hx", "test.txt"]);
}

#[test]
fn terminal_wrapping_scenario() {
    // Template with terminal flag, invoked outside a terminal: the
    // launcher is prepended and the configured extra argument rides
    // along with it.
    let mut config = handlr::main_config::Config::new_default();
    config.terminal_output = false;
    let term_entry = entry("xterm", false);
    let term_cmd = config.terminal_command(&term_entry);
    assert_eq!(term_cmd, b"xterm -e");

    let e = entry("cmus-remote -q %f", true);
    let (cmd, rest) = e.get_cmd_with_terminal(&args(&["song.mp3"]), Some(&term_cmd)).unwrap();
    assert_eq!(cmd, b"xterm");
    assert_eq!(strings(&rest), vec!["-e", "cmus-remote", "-q", "song.mp3"]);
}

#[test]
fn terminal_command_set() {
    let config = handlr::main_config::Config::new_default();
    let term_entry = entry("wezterm start --cwd .", false);
    assert_eq!(config.terminal_command(&term_entry), b"wezterm start --cwd . -e");
}

#[test]
fn no_terminal_found() {
    let config = handlr::main_config::Config::new_default();
    assert!(matches!(config.terminal(), Err(Error::NoTerminal)));
}

#[test]
fn unterminated_quoting_is_bad_exec() {
    let e = entry("mpv \"unterminated", false);
    let err = e.get_cmd_with_terminal(&args(&[]), None).unwrap_err();
    assert!(matches!(err, Error::BadExec(_, _)));
}

#[test]
fn unterminated_terminal_command_is_bad_cmd() {
    let e = entry("hx %f", true);
    let term = b"xterm 'oops".to_vec();
    let err = e.get_cmd_with_terminal(&args(&["f"]), Some(&term)).unwrap_err();
    assert!(matches!(err, Error::BadCmd(_)));
}

#[test]
fn dispatch_one_process_per_argument() {
    // %f takes one file at a time: opening three paths runs three times.
    let e = entry("hx %f", false);
    let lists = e.exec_arg_lists(Mode::Open, &args(&["a", "b", "c"]));
    assert_eq!(lists.len(), 3);
    assert_eq!(strings(&lists[0]), vec!["a"]);
    assert_eq!(strings(&lists[1]), vec!["b"]);
    assert_eq!(strings(&lists[2]), vec!["c"]);

    // %F supports them all at once.
    let e = entry("mpv %F", false);
    let lists = e.exec_arg_lists(Mode::Open, &args(&["a", "b"]));
    assert_eq!(lists.len(), 1);
    assert_eq!(strings(&lists[0]), vec!["a", "b"]);

    // Launch mode passes everything through regardless.
    let e = entry("hx %f", false);
    let lists = e.exec_arg_lists(Mode::Launch, &args(&["a", "b"]));
    assert_eq!(lists.len(), 1);
    assert_eq!(strings(&lists[0]), vec!["a", "b"]);

    // No arguments: one invocation with none.
    let lists = e.exec_arg_lists(Mode::Open, &args(&[]));
    assert_eq!(lists.len(), 1);
    assert!(lists[0].is_empty());
}

#[test]
fn terminal_emulator_by_category() {
    let mut e = entry("wezterm start --cwd .", false);
    assert!(!e.is_terminal_emulator());
    e.categories = vec![b"System".to_vec(), b"TerminalEmulator".to_vec()];
    assert!(e.is_terminal_emulator());
    e.categories = vec![b"terminalemulator".to_vec()];
    // Category matching is exact.
    assert!(!e.is_terminal_emulator());
}
