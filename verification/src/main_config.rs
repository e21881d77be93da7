//! The resolver: one place that holds the user's preferences, the system
//! catalog, and the tool settings, and applies the full precedence chain.
//!
//! Resolution order for a MIME type: the user's defaults (exact key,
//! then longest matching wildcard key), then the user's added
//! associations (exact only), then the system catalog (exact only).

use crate::assoc::{has_key, value_of};
use crate::config_file::{ConfigFile, SelectorArgs};
use crate::desktop_entry::DesktopEntry;
use crate::error::Error;
use crate::group::{group_reps, pair_reps, spec_group};
use crate::handler::{DesktopHandler, DesktopList, Handler};
use crate::path::UserPath;
use crate::literals;
use crate::mime_apps::{spec_resolve_default, MimeApps};
use crate::mime_type::MimeType;
use crate::system_apps::SystemApps;
use crate::text;
use vstd::prelude::*;

verus! {

/// What the fallback layers below the user's defaults yield for `mime`:
/// the front of the added-associations entry when that key exists (an
/// empty entry yields nothing — added associations do not fall through),
/// else the front of the system catalog's entry.
pub open spec fn spec_fallback(
    added: Seq<(Seq<u8>, Seq<Seq<u8>>)>,
    system: Seq<(Seq<u8>, Seq<Seq<u8>>)>,
    mime: Seq<u8>,
) -> Option<Seq<u8>> {
    if has_key(added, mime) {
        if value_of(added, mime).len() > 0 {
            Some(value_of(added, mime)[0])
        } else {
            None
        }
    } else if has_key(system, mime) && value_of(system, mime).len() > 0 {
        Some(value_of(system, mime)[0])
    } else {
        None
    }
}

/// The handler the whole chain resolves `mime` to: the first handler of
/// the user's default resolution when it yields a nonempty list, else
/// the fallback layers.
pub open spec fn spec_chain(
    defaults: Seq<(Seq<u8>, Seq<Seq<u8>>)>,
    added: Seq<(Seq<u8>, Seq<Seq<u8>>)>,
    system: Seq<(Seq<u8>, Seq<Seq<u8>>)>,
    mime: Seq<u8>,
) -> Option<Seq<u8>> {
    match spec_resolve_default(defaults, mime) {
        Some(hs) => {
            if hs.len() > 0 {
                Some(hs[0])
            } else {
                spec_fallback(added, system, mime)
            }
        },
        None => spec_fallback(added, system, mime),
    }
}

/// The `x-scheme-handler/terminal` key is a well-formed, already
/// lowercase MIME type, so parsing its bytes accepts them unchanged.
proof fn lemma_terminal_mime_wf()
    ensures
        crate::mime_type::wf_mime(literals::lit_x_scheme_handler_terminal()),
        crate::mime_type::lower_bytes(literals::lit_x_scheme_handler_terminal())
            == literals::lit_x_scheme_handler_terminal(),
{
    let scheme: Seq<u8> = seq![116u8, 101, 114, 109, 105, 110, 97, 108];
    assert forall|i: int| 0 <= i < scheme.len() implies crate::wrappers::is_scheme_char(
        #[trigger] scheme[i],
    ) by {
        assert(97 <= scheme[i] <= 122);
    }
    crate::path::lemma_scheme_mime_wf(scheme);
    assert(literals::lit_x_scheme_handler_terminal() =~= crate::path::spec_scheme_mime(scheme));
}

/// The outcome of resolving with interactive selection allowed: either a
/// single handler, or the candidates the caller must put to the picker,
/// each with its display name.
pub enum Resolution {
    /// One handler decides; use it.
    Resolved(DesktopHandler),
    /// The caller runs the selector over these (handler, name) pairs.
    NeedsSelection(Vec<(DesktopHandler, Vec<u8>)>),
}

/// Everything one invocation resolves against.
pub struct Config {
    /// The user's persisted associations.
    pub mime_apps: MimeApps,
    /// The catalog of installed applications.
    pub system_apps: SystemApps,
    /// Tool settings.
    pub config: ConfigFile,
    /// Whether standard output is a terminal; passed in at construction
    /// so the engine stays testable without one.
    pub terminal_output: bool,
}

impl Config {
    /// Both association stores keep their keys sorted.
    pub open spec fn wf(&self) -> bool {
        self.mime_apps.wf() && self.system_apps.wf()
    }

    /// A resolver over empty stores and default settings, with no
    /// terminal attached.
    pub fn new_default() -> (r: Config)
        ensures
            r.mime_apps.added_associations@.len() == 0,
            r.mime_apps.default_apps@.len() == 0,
            r.system_apps.associations@.len() == 0,
            r.system_apps.unassociated@.len() == 0,
            !r.config.enable_selector,
            r.config.selector@ == literals::lit_default_selector(),
            r.config.term_exec_args matches Some(a) && a@ == literals::lit_dash_e(),
            !r.config.expand_wildcards,
            r.config.handlers.0@.len() == 0,
            !r.terminal_output,
            r.wf(),
    {
        Config {
            mime_apps: MimeApps::new(),
            system_apps: SystemApps::new(),
            config: ConfigFile::new_default(),
            terminal_output: false,
        }
    }

    /// The handler the precedence chain picks for `mime`, ignoring the
    /// interactive selector; `resolve` is the selector-aware entry.
    pub fn get_handler(&self, mime: &MimeType) -> (r: Result<DesktopHandler, Error>)
        requires
            self.wf(),
        ensures
            match spec_chain(
                self.mime_apps.default_apps@,
                self.mime_apps.added_associations@,
                self.system_apps.associations@,
                mime@,
            ) {
                Some(h) => r matches Ok(hh) && hh@ == h,
                None => r matches Err(Error::NotFound(b)) && b@ == mime@,
            },
    {
        match self.mime_apps.resolve_default(mime) {
            Some(l) => {
                match l.front() {
                    Some(h) => Ok(h.duplicate()),
                    None => self.get_handler_from_added_associations(mime),
                }
            },
            None => self.get_handler_from_added_associations(mime),
        }
    }

    /// The fallback below the user's defaults: the added associations'
    /// exact entry, else the system catalog's. Callers that ran the
    /// picker fall through here when its reply matched no candidate.
    pub fn get_handler_from_added_associations(&self, mime: &MimeType) -> (r: Result<
        DesktopHandler,
        Error,
    >)
        requires
            self.wf(),
        ensures
            match spec_fallback(
                self.mime_apps.added_associations@,
                self.system_apps.associations@,
                mime@,
            ) {
                Some(h) => r matches Ok(hh) && hh@ == h,
                None => r matches Err(Error::NotFound(b)) && b@ == mime@,
            },
    {
        match self.mime_apps.added_associations.get(mime) {
            Some(l) => {
                match l.front() {
                    Some(h) => Ok(h.duplicate()),
                    None => Err(Error::NotFound(text::clone_bytes(mime.as_bytes()))),
                }
            },
            None => {
                match self.system_apps.get_handler(mime) {
                    Some(h) => Ok(h),
                    None => Err(Error::NotFound(text::clone_bytes(mime.as_bytes()))),
                }
            },
        }
    }

    /// Resolve `mime` with interactive selection in mind. When the
    /// user-defaults layer yields several handlers and the selector is
    /// enabled, the candidates that resolve to installed entries are
    /// handed back with their display names for the caller to put to the
    /// picker; otherwise resolution proceeds as `get_handler`.
    pub fn resolve(&self, mime: &MimeType) -> (r: Result<Resolution, Error>)
        requires
            self.wf(),
        ensures
            match r {
                Ok(Resolution::NeedsSelection(pairs)) => self.config.enable_selector
                    && pairs@.len() >= 2 && (forall|i: int|
                    0 <= i < pairs@.len() ==> {
                        match spec_resolve_default(self.mime_apps.default_apps@, mime@) {
                            Some(hs) => hs.contains((#[trigger] pairs@[i]).0@),
                            None => false,
                        }
                    }),
                Ok(Resolution::Resolved(h)) => {
                    &&& !self.config.enable_selector ==> spec_chain(
                        self.mime_apps.default_apps@,
                        self.mime_apps.added_associations@,
                        self.system_apps.associations@,
                        mime@,
                    ) == Some(h@)
                    &&& self.config.enable_selector ==> (match spec_resolve_default(
                        self.mime_apps.default_apps@,
                        mime@,
                    ) {
                        Some(hs) => hs.contains(h@),
                        None => false,
                    }) || spec_fallback(
                        self.mime_apps.added_associations@,
                        self.system_apps.associations@,
                        mime@,
                    ) == Some(h@)
                },
                Err(e) => e is NotFound && spec_fallback(
                    self.mime_apps.added_associations@,
                    self.system_apps.associations@,
                    mime@,
                ) is None && (!self.config.enable_selector ==> spec_chain(
                    self.mime_apps.default_apps@,
                    self.mime_apps.added_associations@,
                    self.system_apps.associations@,
                    mime@,
                ) is None),
            },
    {
        if !self.config.enable_selector {
            match self.get_handler(mime) {
                Ok(h) => {
                    return Ok(Resolution::Resolved(h));
                },
                Err(_) => {
                    return Err(Error::NotFound(text::clone_bytes(mime.as_bytes())));
                },
            }
        }
        match self.mime_apps.resolve_default(mime) {
            Some(l) => {
                let ghost hs = l@;
                let mut pairs: Vec<(DesktopHandler, Vec<u8>)> = Vec::new();
                let n = l.len();
                let mut i: usize = 0;
                while i < n
                    invariant
                        i <= n,
                        n == hs.len(),
                        l@ == hs,
                        forall|j: int| 0 <= j < pairs@.len() ==> hs.contains(
                            (#[trigger] pairs@[j]).0@,
                        ),
                    decreases n - i,
                {
                    let h = l.get(i);
                    match h.get_entry() {
                        Ok(e) => {
                            proof {
                                assert(hs.contains(hs[i as int]));
                            }
                            pairs.push((h.duplicate(), e.name));
                        },
                        Err(_) => {},
                    }
                    i += 1;
                }
                if pairs.len() > 1 {
                    Ok(Resolution::NeedsSelection(pairs))
                } else if pairs.len() == 1 {
                    let (h, _) = pairs.remove(0);
                    Ok(Resolution::Resolved(h))
                } else {
                    match self.get_handler_from_added_associations(mime) {
                        Ok(h) => Ok(Resolution::Resolved(h)),
                        Err(_) => Err(Error::NotFound(text::clone_bytes(mime.as_bytes()))),
                    }
                }
            },
            None => {
                match self.get_handler_from_added_associations(mime) {
                    Ok(h) => Ok(Resolution::Resolved(h)),
                    Err(_) => Err(Error::NotFound(text::clone_bytes(mime.as_bytes()))),
                }
            },
        }
    }

    /// Set a default application association, overwriting any previous
    /// one for the same MIME type; the caller persists afterwards.
    pub fn set_handler(&mut self, mime: &MimeType, handler: &DesktopHandler) -> (r: Result<
        (),
        Error,
    >)
        requires
            old(self).wf(),
        ensures
            final(self).wf(),
            final(self).mime_apps.added_associations@
                == old(self).mime_apps.added_associations@,
            final(self).system_apps == old(self).system_apps,
            final(self).config == old(self).config,
            final(self).terminal_output == old(self).terminal_output,
            !(old(self).config.expand_wildcards && mime@.contains(text::STAR)) ==> (r is Ok
                && final(self).mime_apps.default_apps@ == crate::assoc::spec_set(
                old(self).mime_apps.default_apps@,
                mime@,
                seq![handler@],
            )),
            old(self).config.expand_wildcards && mime@.contains(text::STAR) ==> exists|
                reg: Seq<Seq<u8>>,
            |
                #[trigger] crate::db::is_registry(reg) && (match crate::mime_apps::spec_set_matching(
                    old(self).mime_apps.default_apps@,
                    crate::db::custom_mime_entries() + reg,
                    mime@,
                    handler@,
                ) {
                    Ok(v2) => r is Ok && final(self).mime_apps.default_apps@ == v2,
                    Err(bad) => (r matches Err(Error::InvalidMime(b)) && b@ == bad),
                }),
    {
        self.mime_apps.set_handler(mime, handler, self.config.expand_wildcards)
    }

    /// Add a handler to a default application association, after any
    /// already set; the caller persists afterwards.
    pub fn add_handler(&mut self, mime: &MimeType, handler: &DesktopHandler) -> (r: Result<
        (),
        Error,
    >)
        requires
            old(self).wf(),
        ensures
            final(self).wf(),
            final(self).mime_apps.added_associations@
                == old(self).mime_apps.added_associations@,
            final(self).system_apps == old(self).system_apps,
            final(self).config == old(self).config,
            final(self).terminal_output == old(self).terminal_output,
            !(old(self).config.expand_wildcards && mime@.contains(text::STAR)) ==> (r is Ok
                && final(self).mime_apps.default_apps@ == crate::assoc::spec_append(
                old(self).mime_apps.default_apps@,
                mime@,
                handler@,
            )),
            old(self).config.expand_wildcards && mime@.contains(text::STAR) ==> exists|
                reg: Seq<Seq<u8>>,
            |
                #[trigger] crate::db::is_registry(reg) && (match crate::mime_apps::spec_add_matching(
                    old(self).mime_apps.default_apps@,
                    crate::db::custom_mime_entries() + reg,
                    mime@,
                    handler@,
                ) {
                    Ok(v2) => r is Ok && final(self).mime_apps.default_apps@ == v2,
                    Err(bad) => (r matches Err(Error::InvalidMime(b)) && b@ == bad),
                }),
    {
        self.mime_apps.add_handler(mime, handler, self.config.expand_wildcards)
    }

    /// Entirely remove `mime`'s default association; the caller persists
    /// only when something was removed.
    pub fn unset_handler(&mut self, mime: &MimeType) -> (r: bool)
        requires
            old(self).wf(),
        ensures
            final(self).wf(),
            final(self).mime_apps.default_apps@ == crate::assoc::spec_unset(
                old(self).mime_apps.default_apps@,
                mime@,
            ),
            final(self).mime_apps.added_associations@
                == old(self).mime_apps.added_associations@,
            final(self).system_apps == old(self).system_apps,
            final(self).config == old(self).config,
            final(self).terminal_output == old(self).terminal_output,
            r == has_key(old(self).mime_apps.default_apps@, mime@),
    {
        match self.mime_apps.unset_handler(mime) {
            Some(_) => true,
            None => false,
        }
    }

    /// Remove the first occurrence of `handler` from `mime`'s default
    /// list; the caller persists only when something was removed.
    pub fn remove_handler(&mut self, mime: &MimeType, handler: &DesktopHandler) -> (r: bool)
        requires
            old(self).wf(),
        ensures
            final(self).wf(),
            final(self).mime_apps.added_associations@
                == old(self).mime_apps.added_associations@,
            final(self).system_apps == old(self).system_apps,
            final(self).config == old(self).config,
            final(self).terminal_output == old(self).terminal_output,
            r == (has_key(old(self).mime_apps.default_apps@, mime@) && value_of(
                old(self).mime_apps.default_apps@,
                mime@,
            ).contains(handler@)),
            !has_key(old(self).mime_apps.default_apps@, mime@)
                ==> final(self).mime_apps.default_apps@ == crate::assoc::spec_set(
                old(self).mime_apps.default_apps@,
                mime@,
                Seq::<Seq<u8>>::empty(),
            ),
            has_key(old(self).mime_apps.default_apps@, mime@) ==> {
                let hs = value_of(old(self).mime_apps.default_apps@, mime@);
                let idx = crate::assoc::index_of_key(old(self).mime_apps.default_apps@, mime@);
                if hs.contains(handler@) {
                    exists|i: int|
                        {
                            &&& 0 <= i < hs.len()
                            &&& hs[i] == handler@
                            &&& (forall|j: int| 0 <= j < i ==> hs[j] != handler@)
                            &&& final(self).mime_apps.default_apps@ == old(
                                self,
                            ).mime_apps.default_apps@.update(idx, (mime@, hs.remove(i)))
                        }
                } else {
                    final(self).mime_apps.default_apps@ == old(self).mime_apps.default_apps@
                }
            },
    {
        match self.mime_apps.remove_handler(mime, handler) {
            Some(_) => true,
            None => false,
        }
    }


    /// The handler identity `rep` is a correct resolution of `path`
    /// against this resolver: the first configured regex handler whose
    /// expressions match the path text when one does; otherwise a
    /// desktop handler the precedence chain yields — for a URL exactly
    /// the chain's answer on `x-scheme-handler/<scheme>`, and for a file
    /// the chain's answer on some well-formed MIME type (the shared
    /// database picks which).
    pub open spec fn spec_resolved_rep(
        &self,
        path: UserPath,
        rep: (bool, Seq<u8>, bool, Seq<Seq<char>>),
    ) -> bool {
        let hs = self.config.handlers.0@;
        if exists|i: int|
            0 <= i < hs.len() && crate::wrappers::regex_set_matches(
                (#[trigger] hs[i]).regexes.deep_view(),
                path.text_view(),
            ) {
            exists|i: int|
                {
                    &&& 0 <= i < hs.len()
                    &&& crate::wrappers::regex_set_matches(
                        (#[trigger] hs[i]).regexes.deep_view(),
                        path.text_view(),
                    )
                    &&& (forall|j: int|
                        0 <= j < i ==> !crate::wrappers::regex_set_matches(
                            (#[trigger] hs[j]).regexes.deep_view(),
                            path.text_view(),
                        ))
                    &&& rep == (false, hs[i].exec_cmd@, hs[i].terminal, hs[i].regexes.deep_view())
                }
        } else {
            match path {
                UserPath::Url { scheme, .. } => spec_chain(
                    self.mime_apps.default_apps@,
                    self.mime_apps.added_associations@,
                    self.system_apps.associations@,
                    crate::path::spec_scheme_mime(scheme@),
                ) matches Some(h) && rep == (
                    true,
                    h,
                    false,
                    Seq::<Seq<char>>::empty(),
                ),
                UserPath::File(_) => exists|m: Seq<u8>|
                    {
                        &&& #[trigger] crate::mime_type::wf_mime(m)
                        &&& (spec_chain(
                            self.mime_apps.default_apps@,
                            self.mime_apps.added_associations@,
                            self.system_apps.associations@,
                            m,
                        ) matches Some(h) && rep == (true, h, false, Seq::<Seq<char>>::empty()))
                    },
            }
        }
    }

    /// The handler for one path or URL: a matching regex handler from
    /// the configuration wins; otherwise the path's MIME type goes
    /// through the precedence chain.
    pub fn get_handler_from_path(&self, path: &UserPath) -> (r: Result<Handler, Error>)
        requires
            self.wf(),
            path.wf(),
        ensures
            r matches Ok(h) ==> self.spec_resolved_rep(*path, crate::group::handler_rep(h)),
            r matches Err(e) ==> (e is NotFound || e is Ambiguous),
    {
        match self.config.get_regex_handler(path) {
            Ok(h) => Ok(Handler::RegexHandler(h)),
            Err(_) => {
                match path.get_mime() {
                    Ok(m) => {
                        match self.get_handler(&m) {
                            Ok(h) => Ok(Handler::DesktopHandler(h)),
                            Err(e) => {
                                proof {
                                    assert(e is NotFound);
                                }
                                Err(e)
                            },
                        }
                    },
                    Err(e) => {
                        proof {
                            assert(e is Ambiguous);
                        }
                        Err(e)
                    },
                }
            },
        }
    }

    /// Resolve every path to its handler and group the paths by
    /// handler, keeping first-seen group order and input order within
    /// each group; the first unresolvable path fails the whole call.
    pub fn assign_files_to_handlers(&self, paths: &Vec<UserPath>) -> (r: Result<
        Vec<(Handler, Vec<Vec<u8>>)>,
        Error,
    >)
        requires
            self.wf(),
            forall|i: int| 0 <= i < paths@.len() ==> (#[trigger] paths@[i]).wf(),
        ensures
            r matches Ok(groups) ==> exists|rp: Seq<
                ((bool, Seq<u8>, bool, Seq<Seq<char>>), Seq<u8>),
            >|
                {
                    &&& #[trigger] spec_group(rp) == group_reps(groups@)
                    &&& rp.len() == paths@.len()
                    &&& forall|i: int| 0 <= i < rp.len() ==> rp[i].1 == paths@[i].text_view()
                    &&& forall|i: int|
                        0 <= i < rp.len() ==> self.spec_resolved_rep(
                            paths@[i],
                            (#[trigger] rp[i]).0,
                        )
                },
            r matches Err(e) ==> (e is NotFound || e is Ambiguous),
    {
        let mut pairs: Vec<(Handler, Vec<u8>)> = Vec::new();
        let mut i: usize = 0;
        while i < paths.len()
            invariant
                i <= paths@.len(),
                self.wf(),
                forall|j: int| 0 <= j < paths@.len() ==> (#[trigger] paths@[j]).wf(),
                pairs@.len() == i,
                forall|j: int| 0 <= j < i ==> (#[trigger] pairs@[j]).1@ == paths@[j].text_view(),
                forall|j: int|
                    0 <= j < i ==> self.spec_resolved_rep(
                        paths@[j],
                        crate::group::handler_rep((#[trigger] pairs@[j]).0),
                    ),
            decreases paths.len() - i,
        {
            match self.get_handler_from_path(&paths[i]) {
                Ok(h) => {
                    pairs.push((h, text::clone_bytes(paths[i].as_bytes())));
                },
                Err(e) => {
                    return Err(e);
                },
            }
            i += 1;
        }
        let ghost rp = pair_reps(pairs@);
        let groups = crate::group::group_by_handler(pairs);
        proof {
            assert(spec_group(rp) == group_reps(groups@));
            assert(rp.len() == paths@.len());
            assert forall|j: int| 0 <= j < rp.len() implies rp[j].1 == paths@[j].text_view() by {}
        }
        Ok(groups)
    }

    /// Apply command-line selector overrides to the settings.
    pub fn override_selector(&mut self, selector_args: SelectorArgs)
        ensures
            final(self).config.enable_selector == ((old(self).config.enable_selector
                || selector_args.enable_selector) && !selector_args.disable_selector),
            final(self).config.selector@ == (match selector_args.selector {
                Some(s) => vstd::utf8::encode_utf8(s@),
                None => old(self).config.selector@,
            }),
            final(self).config.term_exec_args == old(self).config.term_exec_args,
            final(self).config.expand_wildcards == old(self).config.expand_wildcards,
            final(self).config.handlers.0@ == old(self).config.handlers.0@,
            final(self).mime_apps == old(self).mime_apps,
            final(self).system_apps == old(self).system_apps,
            final(self).terminal_output == old(self).terminal_output,
    {
        self.config.override_selector(selector_args);
    }

    /// The extra bytes `terminal` appends to a terminal emulator's exec
    /// command: nothing, or a space and the configured arguments.
    pub open spec fn spec_term_suffix(&self) -> Seq<u8> {
        match self.config.term_exec_args {
            Some(a) => seq![text::SPACE] + a@,
            None => Seq::empty(),
        }
    }

    /// An entry's exec command with the configured terminal arguments
    /// appended.
    pub fn terminal_command(&self, entry: &DesktopEntry) -> (r: Vec<u8>)
        ensures
            r@ == entry.exec_cmd@ + self.spec_term_suffix(),
    {
        let mut r = text::clone_bytes(&entry.exec_cmd);
        match &self.config.term_exec_args {
            Some(a) => {
                r.push(text::SPACE);
                text::push_bytes(&mut r, a);
                proof {
                    assert(r@ =~= entry.exec_cmd@ + self.spec_term_suffix());
                }
            },
            None => {
                proof {
                    assert(r@ =~= entry.exec_cmd@ + self.spec_term_suffix());
                }
            },
        }
        r
    }

    /// The command of the `x-scheme-handler/terminal` handler if one
    /// resolves, else of an installed terminal emulator, with the
    /// configured extra arguments appended; `NoTerminal` when neither is
    /// found.
    pub fn terminal(&self) -> (r: Result<Vec<u8>, Error>)
        requires
            self.wf(),
        ensures
            match r {
                Ok(c) => exists|x: Seq<u8>| c@ == x + self.spec_term_suffix(),
                Err(e) => e == Error::NoTerminal,
            },
            spec_chain(
                self.mime_apps.default_apps@,
                self.mime_apps.added_associations@,
                self.system_apps.associations@,
                literals::lit_x_scheme_handler_terminal(),
            ) is None && self.system_apps.unassociated@.len() == 0 ==> r == Err::<
                Vec<u8>,
                Error,
            >(Error::NoTerminal),
    {
        proof {
            lemma_terminal_mime_wf();
        }
        let term_mime_bytes = literals::bytes_x_scheme_handler_terminal();
        let entry = match MimeType::parse_bytes(&term_mime_bytes) {
            Ok(tm) => {
                match self.get_handler(&tm) {
                    Ok(h) => {
                        match h.get_entry() {
                            Ok(e) => Some(e),
                            Err(_) => self.system_apps.terminal_emulator(),
                        }
                    },
                    Err(_) => self.system_apps.terminal_emulator(),
                }
            },
            Err(_) => self.system_apps.terminal_emulator(),
        };
        match entry {
            Some(e) => {
                let c = self.terminal_command(&e);
                proof {
                    assert(c@ == e.exec_cmd@ + self.spec_term_suffix());
                }
                Ok(c)
            },
            None => Err(Error::NoTerminal),
        }
    }
}

impl DesktopEntry {
    /// The exec command expanded with the given arguments. When the
    /// entry wants a terminal and output is not going to one, the
    /// resolved terminal launcher is prepended so the program opens in a
    /// fresh terminal window.
    pub fn get_cmd(&self, config: &Config, args: &Vec<Vec<u8>>) -> (r: Result<
        (Vec<u8>, Vec<Vec<u8>>),
        Error,
    >)
        requires
            config.wf(),
        ensures
            !(self.terminal && !config.terminal_output) ==> (match crate::shell::shell_words(
                self.exec_cmd@,
            ) {
                None => (r matches Err(Error::BadExec(t, f)) && t@ == self.exec_cmd@ && f@
                    == self.file_name@),
                Some(words) => {
                    let expanded = crate::desktop_entry::spec_command_words(
                        self.exec_cmd@,
                        words,
                        text::views(args@),
                    );
                    if expanded.len() == 0 {
                        r matches Err(Error::BadExec(t, f)) && t@ == self.exec_cmd@ && f@
                            == self.file_name@
                    } else {
                        r matches Ok((c, rest)) && c@ == expanded[0] && text::views(rest@)
                            == expanded.skip(1)
                    }
                },
            }),
            self.terminal && !config.terminal_output ==> (match r {
                Ok((c, rest)) => exists|tc: Seq<u8>|
                    {
                        &&& #[trigger] crate::shell::shell_words(tc) is Some
                        &&& (exists|x: Seq<u8>| tc == x + config.spec_term_suffix())
                        &&& match crate::shell::shell_words(self.exec_cmd@) {
                            Some(words) => {
                                let tw = crate::shell::shell_words(tc)->Some_0;
                                let expanded = crate::desktop_entry::spec_command_words(
                                    self.exec_cmd@,
                                    words,
                                    text::views(args@),
                                );
                                let all = tw + expanded;
                                all.len() > 0 && c@ == all[0] && text::views(rest@) == all.skip(
                                    1,
                                )
                            },
                            None => false,
                        }
                    },
                Err(e) => (e is NoTerminal || e is BadCmd || e is BadExec) && (e is BadExec
                    ==> crate::shell::shell_words(self.exec_cmd@) is None),
            }),
            self.terminal && !config.terminal_output && spec_chain(
                config.mime_apps.default_apps@,
                config.mime_apps.added_associations@,
                config.system_apps.associations@,
                literals::lit_x_scheme_handler_terminal(),
            ) is None && config.system_apps.unassociated@.len() == 0 ==> r == Err::<
                (Vec<u8>, Vec<Vec<u8>>),
                Error,
            >(Error::NoTerminal),
    {
        if self.terminal && !config.terminal_output {
            match config.terminal() {
                Ok(tc) => {
                    let r = self.get_cmd_with_terminal(args, Some(&tc));
                    match r {
                        Ok((c, rest)) => {
                            proof {
                                if crate::shell::shell_words(tc@) is Some {
                                    let tw = crate::shell::shell_words(tc@)->Some_0;
                                    assert(crate::shell::shell_words(tc@) == Some(tw));
                                }
                            }
                            Ok((c, rest))
                        },
                        Err(e) => Err(e),
                    }
                },
                Err(e) => Err(e),
            }
        } else {
            self.get_cmd_with_terminal(args, None)
        }
    }
}

} // verus!
