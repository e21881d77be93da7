//! Tool settings: selector command and enablement, extra terminal
//! arguments, wildcard-expansion policy, and the regex handlers.
//!
//! Loading the on-disk settings file is the caller's business; this
//! module only models the recognized options and their defaults.

use crate::error::Error;
use crate::handler::{RegexApps, RegexHandler};
use crate::literals;
use crate::path::UserPath;
use vstd::prelude::*;
use vstd::string::StrSliceExecFns;
use vstd::string::StringSliceAdditionalSpecFns;

verus! {

/// Selector overrides given on the command line.
pub struct SelectorArgs {
    /// Replace the configured selector command.
    pub selector: Option<String>,
    /// Force the selector on.
    pub enable_selector: bool,
    /// Force the selector off; wins over `enable_selector`.
    pub disable_selector: bool,
}

/// The recognized configuration options.
pub struct ConfigFile {
    /// Require the picker when multiple handlers match.
    pub enable_selector: bool,
    /// The shell command that picks among handler names.
    pub selector: Vec<u8>,
    /// Extra tokens appended to terminal invocations.
    pub term_exec_args: Option<Vec<u8>>,
    /// Whether set/add expand wildcard MIME patterns into concrete entries.
    pub expand_wildcards: bool,
    /// Regex handlers, tried before MIME resolution when opening paths.
    pub handlers: RegexApps,
}

impl ConfigFile {
    /// The settings used when no configuration file is available: no
    /// selector prompt, a `rofi` picker command, `-e` passed to terminal
    /// emulators, wildcards stored literally, and no regex handlers.
    pub fn new_default() -> (r: ConfigFile)
        ensures
            !r.enable_selector,
            r.selector@ == literals::lit_default_selector(),
            r.term_exec_args matches Some(a) && a@ == literals::lit_dash_e(),
            !r.expand_wildcards,
            r.handlers.0@.len() == 0,
    {
        ConfigFile {
            enable_selector: false,
            selector: literals::bytes_default_selector(),
            term_exec_args: Some(literals::bytes_dash_e()),
            expand_wildcards: false,
            handlers: RegexApps(Vec::new()),
        }
    }

    /// The first configured regex handler whose expressions match the
    /// path text, or `NotFound` with that text when none does.
    pub fn get_regex_handler(&self, path: &UserPath) -> (r: Result<RegexHandler, Error>)
        ensures
            match r {
                Ok(h) => exists|i: int|
                    {
                        &&& 0 <= i < self.handlers.0@.len()
                        &&& crate::wrappers::regex_set_matches(
                            (#[trigger] self.handlers.0@[i]).regexes.deep_view(),
                            path.text_view(),
                        )
                        &&& (forall|j: int|
                            0 <= j < i ==> !crate::wrappers::regex_set_matches(
                                (#[trigger] self.handlers.0@[j]).regexes.deep_view(),
                                path.text_view(),
                            ))
                        &&& h.exec_cmd@ == self.handlers.0@[i].exec_cmd@
                        &&& h.terminal == self.handlers.0@[i].terminal
                        &&& h.regexes.deep_view() == self.handlers.0@[i].regexes.deep_view()
                    },
                Err(e) => (e matches Error::NotFound(b) && b@ == path.text_view()) && forall|
                    i: int,
                |
                    0 <= i < self.handlers.0@.len() ==> !crate::wrappers::regex_set_matches(
                        (#[trigger] self.handlers.0@[i]).regexes.deep_view(),
                        path.text_view(),
                    ),
            },
    {
        self.handlers.get_handler(path)
    }

    /// Apply command-line selector overrides: an explicit command
    /// replaces the configured one; the selector ends up enabled when it
    /// was or was asked to be, unless it was asked off.
    pub fn override_selector(&mut self, selector_args: SelectorArgs)
        ensures
            final(self).selector@ == (match selector_args.selector {
                Some(s) => vstd::utf8::encode_utf8(s@),
                None => old(self).selector@,
            }),
            final(self).enable_selector == ((old(self).enable_selector
                || selector_args.enable_selector) && !selector_args.disable_selector),
            final(self).term_exec_args == old(self).term_exec_args,
            final(self).expand_wildcards == old(self).expand_wildcards,
            final(self).handlers.0@ == old(self).handlers.0@,
    {
        match selector_args.selector {
            Some(s) => {
                self.selector = s.as_str().as_bytes_vec();
            },
            None => {},
        }
        self.enable_selector = (self.enable_selector || selector_args.enable_selector)
            && !selector_args.disable_selector;
    }
}

} // verus!
