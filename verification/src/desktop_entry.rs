//! Desktop entries and the exec-template interpreter.
//!
//! An entry's exec template is expanded against caller arguments: a word
//! that is exactly `%f`, `%F`, `%u`, or `%U` is replaced by the argument
//! list spliced in as separate words; a word merely containing such a
//! field code has every occurrence replaced by the arguments joined with
//! one space; a template with no field code gets the arguments appended.

use crate::error::Error;
use crate::literals;
use crate::mime_type::MimeType;
use crate::shell;
use crate::text;
use vstd::prelude::*;

verus! {

/// Modes for running an entry's exec command.
#[derive(PartialEq, Eq, Structural, Copy, Clone, Debug)]
pub enum Mode {
    /// Launch the command directly, passing the caller's arguments through.
    Launch,
    /// Open resolved files or URLs with the command.
    Open,
}

/// A desktop entry record, as handed over by the desktop-file source.
#[derive(Debug)]
pub struct DesktopEntry {
    /// Name of the application.
    pub name: Vec<u8>,
    /// Command template to execute.
    pub exec_cmd: Vec<u8>,
    /// Name of the desktop entry file.
    pub file_name: Vec<u8>,
    /// Whether the program runs in a terminal window.
    pub terminal: bool,
    /// The MIME types supported by this application.
    pub mime_type: Vec<MimeType>,
    /// Categories under which the entry is shown in menus.
    pub categories: Vec<Vec<u8>>,
}

/// `a, b` spell one of the field codes `%f`, `%F`, `%u`, `%U`.
pub open spec fn is_field_code_pair(a: u8, b: u8) -> bool {
    a == text::PERCENT && (b == 102 || b == 70 || b == 117 || b == 85)
}

/// Whether a field code occurs anywhere in `s`.
pub open spec fn has_field_code(s: Seq<u8>) -> bool {
    exists|i: int| 0 <= i < s.len() - 1 && is_field_code_pair(#[trigger] s[i], s[i + 1])
}

/// Whether `s` holds `%F` or `%U`, the multi-argument field codes.
pub open spec fn has_multi_code(s: Seq<u8>) -> bool {
    exists|i: int| 0 <= i < s.len() - 1 && #[trigger] s[i] == text::PERCENT && (s[i + 1] == 70 || s[i + 1] == 85)
}

/// A word that is exactly one field code.
pub open spec fn is_exact_code(t: Seq<u8>) -> bool {
    t.len() == 2 && is_field_code_pair(t[0], t[1])
}

/// `t` with every field code occurrence replaced by `r`, left to right.
pub open spec fn replace_codes(t: Seq<u8>, r: Seq<u8>) -> Seq<u8>
    decreases t.len(),
{
    if t.len() >= 2 && is_field_code_pair(t[0], t[1]) {
        r + replace_codes(t.skip(2), r)
    } else if t.len() > 0 {
        seq![t[0]] + replace_codes(t.skip(1), r)
    } else {
        Seq::empty()
    }
}

/// Arguments joined with a single space.
pub open spec fn join_space(args: Seq<Seq<u8>>) -> Seq<u8>
    decreases args.len(),
{
    if args.len() == 0 {
        Seq::empty()
    } else if args.len() == 1 {
        args[0]
    } else {
        args[0] + seq![text::SPACE] + join_space(args.skip(1))
    }
}

/// Expand each template word against the arguments: an exact field code
/// splices the arguments in as words, an embedded one is replaced by the
/// space-joined arguments, anything else stays.
pub open spec fn expand_tokens(toks: Seq<Seq<u8>>, args: Seq<Seq<u8>>) -> Seq<Seq<u8>>
    decreases toks.len(),
{
    if toks.len() == 0 {
        Seq::empty()
    } else {
        let rest = expand_tokens(toks.skip(1), args);
        if is_exact_code(toks[0]) {
            args + rest
        } else if has_field_code(toks[0]) {
            seq![replace_codes(toks[0], join_space(args))] + rest
        } else {
            seq![toks[0]] + rest
        }
    }
}

/// The full command word list for a template: expanded words when the
/// template holds a field code, else the words with the arguments
/// appended.
pub open spec fn spec_command_words(exec: Seq<u8>, words: Seq<Seq<u8>>, args: Seq<Seq<u8>>) -> Seq<
    Seq<u8>,
> {
    if has_field_code(exec) {
        expand_tokens(words, args)
    } else {
        words + args
    }
}

/// Whether a field code occurs in `v`.
fn contains_field_code(v: &Vec<u8>) -> (r: bool)
    ensures
        r == has_field_code(v@),
{
    if v.len() == 0 {
        return false;
    }
    let mut i: usize = 0;
    while i < v.len() - 1
        invariant
            v@.len() > 0,
            i <= v.len(),
            forall|j: int| 0 <= j < i ==> !is_field_code_pair(#[trigger] v@[j], v@[j + 1]),
        decreases v.len() - i,
    {
        let a = v[i];
        let b = v[i + 1];
        if a == text::PERCENT && (b == 102 || b == 70 || b == 117 || b == 85) {
            return true;
        }
        i += 1;
    }
    false
}

/// Whether `%F` or `%U` occurs in `v`.
fn contains_multi_code(v: &Vec<u8>) -> (r: bool)
    ensures
        r == has_multi_code(v@),
{
    if v.len() == 0 {
        return false;
    }
    let mut i: usize = 0;
    while i < v.len() - 1
        invariant
            v@.len() > 0,
            i <= v.len(),
            forall|j: int|
                0 <= j < i ==> !(#[trigger] v@[j] == text::PERCENT && (v@[j + 1] == 70 || v@[j
                    + 1] == 85)),
        decreases v.len() - i,
    {
        let a = v[i];
        let b = v[i + 1];
        if a == text::PERCENT && (b == 70 || b == 85) {
            return true;
        }
        i += 1;
    }
    false
}

/// `t` rewritten from position `i` on, every field code replaced by `r`.
fn replace_codes_from(t: &Vec<u8>, r: &Vec<u8>, i: usize) -> (out: Vec<u8>)
    requires
        i <= t.len(),
    ensures
        out@ == replace_codes(t@.skip(i as int), r@),
    decreases t.len() - i,
{
    proof {
        if i < t.len() {
            assert(t@.skip(i as int).skip(1) =~= t@.skip(i as int + 1));
        }
        if i + 2 <= t.len() {
            assert(t@.skip(i as int).skip(2) =~= t@.skip(i as int + 2));
        }
    }
    if i == t.len() {
        Vec::new()
    } else if i + 1 < t.len() && t[i] == text::PERCENT && (t[i + 1] == 102 || t[i + 1] == 70 || t[i
        + 1] == 117 || t[i + 1] == 85) {
        let mut out = text::clone_bytes(r);
        let rest = replace_codes_from(t, r, i + 2);
        text::push_bytes(&mut out, &rest);
        out
    } else {
        let mut out: Vec<u8> = Vec::new();
        out.push(t[i]);
        let rest = replace_codes_from(t, r, i + 1);
        text::push_bytes(&mut out, &rest);
        out
    }
}

/// The arguments joined with single spaces.
fn join_args_spaced(args: &Vec<Vec<u8>>, i: usize) -> (out: Vec<u8>)
    requires
        i <= args.len(),
    ensures
        out@ == join_space(text::views(args@).skip(i as int)),
    decreases args.len() - i,
{
    proof {
        if i < args.len() {
            assert(text::views(args@).skip(i as int).skip(1) =~~= text::views(args@).skip(
                i as int + 1,
            ));
            assert(text::views(args@).skip(i as int)[0] == args@[i as int]@);
        }
    }
    if i == args.len() {
        Vec::new()
    } else if i + 1 == args.len() {
        text::clone_bytes(&args[i])
    } else {
        let mut out = text::clone_bytes(&args[i]);
        out.push(text::SPACE);
        let rest = join_args_spaced(args, i + 1);
        text::push_bytes(&mut out, &rest);
        out
    }
}

/// The expansion of the template words from position `i` on.
fn expand_tokens_from(toks: &Vec<Vec<u8>>, args: &Vec<Vec<u8>>, i: usize) -> (out: Vec<Vec<u8>>)
    requires
        i <= toks.len(),
    ensures
        text::views(out@) == expand_tokens(
            text::views(toks@).skip(i as int),
            text::views(args@),
        ),
    decreases toks.len() - i,
{
    proof {
        if i < toks.len() {
            assert(text::views(toks@).skip(i as int).skip(1) =~~= text::views(toks@).skip(
                i as int + 1,
            ));
            assert(text::views(toks@).skip(i as int)[0] == toks@[i as int]@);
        }
    }
    if i == toks.len() {
        let out: Vec<Vec<u8>> = Vec::new();
        proof {
            assert(text::views(out@) =~~= expand_tokens(
                text::views(toks@).skip(i as int),
                text::views(args@),
            ));
        }
        out
    } else {
        let t = &toks[i];
        let rest = expand_tokens_from(toks, args, i + 1);
        let exact = t.len() == 2 && t[0] == text::PERCENT && (t[1] == 102 || t[1] == 70 || t[1]
            == 117 || t[1] == 85);
        if exact {
            let mut out: Vec<Vec<u8>> = Vec::new();
            let mut j: usize = 0;
            while j < args.len()
                invariant
                    j <= args.len(),
                    out@.len() == j,
                    forall|m: int| 0 <= m < j ==> out@[m]@ == args@[m]@,
                decreases args.len() - j,
            {
                out.push(text::clone_bytes(&args[j]));
                j += 1;
            }
            let mut k: usize = 0;
            while k < rest.len()
                invariant
                    k <= rest.len(),
                    out@.len() == args@.len() + k,
                    forall|m: int| 0 <= m < args@.len() ==> out@[m]@ == args@[m]@,
                    forall|m: int| 0 <= m < k ==> out@[args@.len() + m]@ == rest@[m]@,
                decreases rest.len() - k,
            {
                out.push(text::clone_bytes(&rest[k]));
                k += 1;
            }
            proof {
                assert(is_exact_code(t@));
                assert(text::views(out@) =~~= expand_tokens(
                    text::views(toks@).skip(i as int),
                    text::views(args@),
                ));
            }
            out
        } else if contains_field_code(t) {
            let joined = join_args_spaced(args, 0);
            proof {
                assert(text::views(args@).skip(0) =~~= text::views(args@));
                assert(t@.skip(0) =~= t@);
            }
            let replaced = replace_codes_from(t, &joined, 0);
            let mut out: Vec<Vec<u8>> = Vec::new();
            out.push(replaced);
            let mut k: usize = 0;
            while k < rest.len()
                invariant
                    k <= rest.len(),
                    out@.len() == k + 1,
                    out@[0]@ == replace_codes(toks@[i as int]@, join_space(text::views(args@))),
                    forall|j: int| 0 <= j < k ==> out@[j + 1]@ == rest@[j]@,
                decreases rest.len() - k,
            {
                out.push(text::clone_bytes(&rest[k]));
                k += 1;
            }
            proof {
                assert(!is_exact_code(t@));
                assert(text::views(out@) =~~= expand_tokens(
                    text::views(toks@).skip(i as int),
                    text::views(args@),
                ));
            }
            out
        } else {
            let mut out: Vec<Vec<u8>> = Vec::new();
            out.push(text::clone_bytes(t));
            let mut k: usize = 0;
            while k < rest.len()
                invariant
                    k <= rest.len(),
                    out@.len() == k + 1,
                    out@[0]@ == toks@[i as int]@,
                    forall|j: int| 0 <= j < k ==> out@[j + 1]@ == rest@[j]@,
                decreases rest.len() - k,
            {
                out.push(text::clone_bytes(&rest[k]));
                k += 1;
            }
            proof {
                assert(!is_exact_code(t@));
                assert(!has_field_code(t@));
                assert(text::views(out@) =~~= expand_tokens(
                    text::views(toks@).skip(i as int),
                    text::views(args@),
                ));
            }
            out
        }
    }
}

impl DesktopEntry {
    /// An entry is usable only with a name and an exec template.
    pub open spec fn valid(&self) -> bool {
        self.name@.len() > 0 && self.exec_cmd@.len() > 0
    }

    /// An entry that carries only an exec template and a terminal flag;
    /// regex handlers are interpreted through such entries.
    pub fn fake_entry(exec: &Vec<u8>, terminal: bool) -> (r: DesktopEntry)
        ensures
            r.exec_cmd@ == exec@,
            r.terminal == terminal,
            r.name@ == Seq::<u8>::empty(),
            r.file_name@ == Seq::<u8>::empty(),
            r.mime_type@.len() == 0,
            r.categories@.len() == 0,
    {
        DesktopEntry {
            name: Vec::new(),
            exec_cmd: text::clone_bytes(exec),
            file_name: Vec::new(),
            terminal,
            mime_type: Vec::new(),
            categories: Vec::new(),
        }
    }

    /// Whether this entry is a terminal emulator, by its categories.
    pub fn is_terminal_emulator(&self) -> (r: bool)
        ensures
            r == exists|i: int|
                0 <= i < self.categories@.len() && (#[trigger] self.categories@[i])@
                    == literals::lit_terminal_emulator_category(),
    {
        let needle = literals::bytes_terminal_emulator_category();
        let mut i: usize = 0;
        while i < self.categories.len()
            invariant
                i <= self.categories@.len(),
                needle@ == literals::lit_terminal_emulator_category(),
                forall|j: int|
                    0 <= j < i ==> (#[trigger] self.categories@[j])@
                        != literals::lit_terminal_emulator_category(),
            decreases self.categories.len() - i,
        {
            if text::bytes_eq(&self.categories[i], &needle) {
                return true;
            }
            i += 1;
        }
        false
    }

    /// The exec command expanded with the given arguments, and wrapped in
    /// the given terminal launcher command when one is handed in. Fails
    /// with `BadExec` when the template cannot be split into shell words
    /// or produces no word, and with `BadCmd` when the terminal command
    /// cannot be split.
    pub fn get_cmd_with_terminal(&self, args: &Vec<Vec<u8>>, term_cmd: Option<&Vec<u8>>) -> (r:
        Result<(Vec<u8>, Vec<Vec<u8>>), Error>)
        ensures
            match shell::shell_words(self.exec_cmd@) {
                None => (r matches Err(Error::BadExec(t, f)) && t@ == self.exec_cmd@ && f@
                    == self.file_name@),
                Some(words) => {
                    let expanded = spec_command_words(self.exec_cmd@, words, text::views(args@));
                    match term_cmd {
                        None => {
                            if expanded.len() == 0 {
                                r matches Err(Error::BadExec(t, f)) && t@ == self.exec_cmd@ && f@
                                    == self.file_name@
                            } else {
                                r matches Ok((c, rest)) && c@ == expanded[0] && text::views(rest@)
                                    == expanded.skip(1)
                            }
                        },
                        Some(tc) => match shell::shell_words(tc@) {
                            None => (r matches Err(Error::BadCmd(b)) && b@ == tc@),
                            Some(tw) => {
                                let all = tw + expanded;
                                if all.len() == 0 {
                                    r matches Err(Error::BadCmd(b)) && b@ == tc@
                                } else {
                                    r matches Ok((c, rest)) && c@ == all[0] && text::views(rest@)
                                        == all.skip(1)
                                }
                            },
                        },
                    }
                },
            },
    {
        let words = match shell::split_shell_words(&self.exec_cmd) {
            Some(ws) => ws,
            None => {
                return Err(
                    Error::BadExec(
                        text::clone_bytes(&self.exec_cmd),
                        text::clone_bytes(&self.file_name),
                    ),
                );
            },
        };
        let mut expanded: Vec<Vec<u8>>;
        if contains_field_code(&self.exec_cmd) {
            proof {
                assert(text::views(words@).skip(0) =~~= text::views(words@));
            }
            expanded = expand_tokens_from(&words, args, 0);
        } else {
            expanded = words;
            let mut j: usize = 0;
            let ghost base = text::views(expanded@);
            while j < args.len()
                invariant
                    j <= args.len(),
                    expanded@.len() == base.len() + j,
                    forall|m: int| 0 <= m < base.len() ==> expanded@[m]@ == base[m],
                    forall|m: int| 0 <= m < j ==> expanded@[base.len() + m]@ == args@[m]@,
                decreases args.len() - j,
            {
                expanded.push(text::clone_bytes(&args[j]));
                j += 1;
            }
            proof {
                assert(text::views(expanded@) =~~= base + text::views(args@));
            }
        }
        match term_cmd {
            None => {
                if expanded.len() == 0 {
                    Err(
                        Error::BadExec(
                            text::clone_bytes(&self.exec_cmd),
                            text::clone_bytes(&self.file_name),
                        ),
                    )
                } else {
                    let ghost all = text::views(expanded@);
                    let c = expanded.remove(0);
                    proof {
                        assert(text::views(expanded@) =~~= all.skip(1));
                    }
                    Ok((c, expanded))
                }
            },
            Some(tc) => {
                let mut tw = match shell::split_shell_words(tc) {
                    Some(tw) => tw,
                    None => {
                        return Err(Error::BadCmd(text::clone_bytes(tc)));
                    },
                };
                let ghost twv = text::views(tw@);
                let ghost exv = text::views(expanded@);
                let mut k: usize = 0;
                while k < expanded.len()
                    invariant
                        k <= expanded.len(),
                        exv == text::views(expanded@),
                        tw@.len() == twv.len() + k,
                        forall|m: int| 0 <= m < twv.len() ==> tw@[m]@ == twv[m],
                        forall|m: int| 0 <= m < k ==> tw@[twv.len() + m]@ == exv[m],
                    decreases expanded.len() - k,
                {
                    tw.push(text::clone_bytes(&expanded[k]));
                    k += 1;
                }
                proof {
                    assert(text::views(tw@) =~~= twv + exv);
                }
                if tw.len() == 0 {
                    Err(Error::BadCmd(text::clone_bytes(tc)))
                } else {
                    let ghost all = text::views(tw@);
                    let c = tw.remove(0);
                    proof {
                        assert(text::views(tw@) =~~= all.skip(1));
                    }
                    Ok((c, tw))
                }
            },
        }
    }

    /// How the entry is invoked for the given mode and arguments: one
    /// process for no arguments, for multi-file templates, and for
    /// launches; otherwise one process per argument, in order.
    pub fn exec_arg_lists(&self, mode: Mode, arguments: &Vec<Vec<u8>>) -> (r: Vec<Vec<Vec<u8>>>)
        ensures
            arguments@.len() == 0 ==> r@.len() == 1 && r@[0]@.len() == 0,
            arguments@.len() > 0 && (has_multi_code(self.exec_cmd@) || mode == Mode::Launch)
                ==> r@.len() == 1 && text::views(r@[0]@) == text::views(arguments@),
            arguments@.len() > 0 && !(has_multi_code(self.exec_cmd@) || mode == Mode::Launch)
                ==> r@.len() == arguments@.len() && forall|i: int|
                0 <= i < r@.len() ==> text::views(#[trigger] r@[i]@) == seq![arguments@[i]@],
    {
        let mut r: Vec<Vec<Vec<u8>>> = Vec::new();
        if arguments.len() == 0 {
            r.push(Vec::new());
        } else if contains_multi_code(&self.exec_cmd) || matches!(mode, Mode::Launch) {
            let mut one: Vec<Vec<u8>> = Vec::new();
            let mut j: usize = 0;
            while j < arguments.len()
                invariant
                    j <= arguments.len(),
                    one@.len() == j,
                    forall|m: int| 0 <= m < j ==> one@[m]@ == arguments@[m]@,
                decreases arguments.len() - j,
            {
                one.push(text::clone_bytes(&arguments[j]));
                j += 1;
            }
            proof {
                assert(text::views(one@) =~~= text::views(arguments@));
            }
            r.push(one);
        } else {
            let mut j: usize = 0;
            while j < arguments.len()
                invariant
                    j <= arguments.len(),
                    r@.len() == j,
                    forall|i: int|
                        0 <= i < j ==> text::views(#[trigger] r@[i]@) == seq![arguments@[i]@],
                decreases arguments.len() - j,
            {
                let mut one: Vec<Vec<u8>> = Vec::new();
                one.push(text::clone_bytes(&arguments[j]));
                proof {
                    assert(text::views(one@) =~~= seq![arguments@[j as int]@]);
                }
                r.push(one);
                j += 1;
            }
        }
        r
    }
}

} // verus!
