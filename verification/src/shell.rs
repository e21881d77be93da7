//! Shell-like tokenization of command strings, by the `shlex` crate.

use crate::text;
use vstd::prelude::*;

verus! {

/// What shell splitting returns for the given bytes: the words, or
/// nothing when the input has unterminated quoting (or is not UTF-8).
/// The result depends on the bytes alone.
pub uninterp spec fn shell_words(s: Seq<u8>) -> Option<Seq<Seq<u8>>>;

/// Relies on `shlex::split`: POSIX-like shell word splitting that yields
/// `None` on erroneous input. The result is named `shell_words`.
#[verifier::external_body]
pub fn split_shell_words(s: &Vec<u8>) -> (r: Option<Vec<Vec<u8>>>)
    ensures
        match r {
            Some(ws) => shell_words(s@) == Some(text::views(ws@)),
            None => shell_words(s@) is None,
        },
{
    let txt = match std::str::from_utf8(s) {
        Ok(t) => t,
        Err(_) => {
            return None;
        },
    };
    shlex::split(txt).map(|ws| ws.into_iter().map(|w| w.into_bytes()).collect())
}

/// Split a command line into its program and arguments, as the selector
/// and terminal launchers require; fails with the command's bytes when it
/// cannot be split or holds no word.
pub fn split_command(cmd: &Vec<u8>) -> (r: Result<(Vec<u8>, Vec<Vec<u8>>), Vec<u8>>)
    ensures
        match r {
            Ok((prog, rest)) => shell_words(cmd@) matches Some(ws) && ws.len() > 0 && prog@
                == ws[0] && text::views(rest@) == ws.skip(1),
            Err(b) => b@ == cmd@ && (shell_words(cmd@) is None || shell_words(cmd@)
                == Some(Seq::<Seq<u8>>::empty())),
        },
{
    match split_shell_words(cmd) {
        Some(mut ws) => {
            if ws.len() == 0 {
                proof {
                    assert(text::views(ws@) =~~= Seq::<Seq<u8>>::empty());
                }
                Err(text::clone_bytes(cmd))
            } else {
                let ghost all = text::views(ws@);
                let prog = ws.remove(0);
                proof {
                    assert(text::views(ws@) =~~= all.skip(1));
                }
                Ok((prog, ws))
            }
        },
        None => Err(text::clone_bytes(cmd)),
    }
}

} // verus!
