//! The user's persisted handler preferences.
//!
//! Two independent association lists: `default_apps`, mutated by
//! set/add/remove/unset, and `added_associations`, only consulted as a
//! fallback. Resolution tries an exact key first and falls back to the
//! longest matching wildcard key.

use crate::assoc::{
    has_key, index_of_key, spec_append, spec_set, spec_unset, value_of, AssocList, Association,
};
use crate::db;
use crate::error::Error;
use crate::glob;
use crate::handler::{DesktopHandler, DesktopList};
use crate::mime_type::{lower_bytes, wf_mime, MimeType};
use crate::text;
use vstd::prelude::*;

verus! {

/// Entry `i` exists and its key, read as a glob pattern, matches `mime`.
pub open spec fn wildcard_matches_at(
    v: Seq<(Seq<u8>, Seq<Seq<u8>>)>,
    mime: Seq<u8>,
    i: int,
) -> bool {
    0 <= i < v.len() && glob::glob_match(v[i].0, mime)
}

/// Entry `i` is the wildcard entry resolution picks for `mime`: it
/// matches, no matching key is longer, and no earlier matching key has
/// the same length.
pub open spec fn is_best_wildcard(v: Seq<(Seq<u8>, Seq<Seq<u8>>)>, mime: Seq<u8>, i: int) -> bool {
    &&& wildcard_matches_at(v, mime, i)
    &&& forall|j: int| wildcard_matches_at(v, mime, j) ==> v[j].0.len() <= v[i].0.len()
    &&& forall|j: int|
        0 <= j < i ==> !(wildcard_matches_at(v, mime, j) && v[j].0.len() == v[i].0.len())
}

/// The index picked by `is_best_wildcard`, when one exists.
pub open spec fn wildcard_choice(v: Seq<(Seq<u8>, Seq<Seq<u8>>)>, mime: Seq<u8>) -> int {
    choose|i: int| is_best_wildcard(v, mime, i)
}

/// The handler list the user's defaults resolve `mime` to: the exact
/// entry when present, else the best wildcard entry.
pub open spec fn spec_resolve_default(v: Seq<(Seq<u8>, Seq<Seq<u8>>)>, mime: Seq<u8>) -> Option<
    Seq<Seq<u8>>,
> {
    if has_key(v, mime) {
        Some(value_of(v, mime))
    } else if exists|i: int| is_best_wildcard(v, mime, i) {
        Some(v[wildcard_choice(v, mime)].1)
    } else {
        None
    }
}

/// One registry pass of wildcard expansion: append `h` under every
/// registry entry matching `pat`, validating entries as they come; the
/// first invalid matching entry aborts with its bytes.
pub open spec fn spec_add_matching(
    v: Seq<(Seq<u8>, Seq<Seq<u8>>)>,
    reg: Seq<Seq<u8>>,
    pat: Seq<u8>,
    h: Seq<u8>,
) -> Result<Seq<(Seq<u8>, Seq<Seq<u8>>)>, Seq<u8>>
    decreases reg.len(),
{
    if reg.len() == 0 {
        Ok(v)
    } else if !glob::glob_match(pat, reg[0]) {
        spec_add_matching(v, reg.skip(1), pat, h)
    } else if wf_mime(lower_bytes(reg[0])) {
        spec_add_matching(spec_append(v, lower_bytes(reg[0]), h), reg.skip(1), pat, h)
    } else {
        Err(reg[0])
    }
}

/// Like `spec_add_matching`, but each matching entry is bound to the
/// single handler `h`, replacing any previous list.
pub open spec fn spec_set_matching(
    v: Seq<(Seq<u8>, Seq<Seq<u8>>)>,
    reg: Seq<Seq<u8>>,
    pat: Seq<u8>,
    h: Seq<u8>,
) -> Result<Seq<(Seq<u8>, Seq<Seq<u8>>)>, Seq<u8>>
    decreases reg.len(),
{
    if reg.len() == 0 {
        Ok(v)
    } else if !glob::glob_match(pat, reg[0]) {
        spec_set_matching(v, reg.skip(1), pat, h)
    } else if wf_mime(lower_bytes(reg[0])) {
        spec_set_matching(spec_set(v, lower_bytes(reg[0]), seq![h]), reg.skip(1), pat, h)
    } else {
        Err(reg[0])
    }
}

/// The user's `mimeapps.list` contents.
#[derive(Debug)]
pub struct MimeApps {
    /// `[Added Associations]`: informational entries, never mutated by
    /// this tool, only consulted as a fallback.
    pub added_associations: AssocList,
    /// `[Default Applications]`: the entries set/add/remove/unset work on.
    pub default_apps: AssocList,
}

impl MimeApps {
    /// Both sections keep their keys sorted.
    pub open spec fn wf(&self) -> bool {
        self.added_associations.wf() && self.default_apps.wf()
    }

    /// An empty preferences file.
    pub fn new() -> (r: MimeApps)
        ensures
            r.added_associations@ == Seq::<(Seq<u8>, Seq<Seq<u8>>)>::empty(),
            r.default_apps@ == Seq::<(Seq<u8>, Seq<Seq<u8>>)>::empty(),
            r.wf(),
    {
        MimeApps { added_associations: AssocList::empty(), default_apps: AssocList::empty() }
    }

    /// Append `handler` to the default list for exactly the key `mime`,
    /// creating the entry when absent; duplicates are kept.
    pub fn add_handler_exact(&mut self, mime: &MimeType, handler: &DesktopHandler)
        requires
            old(self).wf(),
        ensures
            final(self).default_apps@ == spec_append(
                old(self).default_apps@,
                mime@,
                handler@,
            ),
            final(self).added_associations@ == old(self).added_associations@,
            final(self).wf(),
    {
        self.default_apps.append_value(mime, handler);
    }

    /// Bind exactly the key `mime` to the single handler `handler`,
    /// discarding any previous list.
    pub fn set_handler_exact(&mut self, mime: &MimeType, handler: &DesktopHandler)
        requires
            old(self).wf(),
        ensures
            final(self).default_apps@ == spec_set(
                old(self).default_apps@,
                mime@,
                seq![handler@],
            ),
            final(self).added_associations@ == old(self).added_associations@,
            final(self).wf(),
    {
        let ghost v = self.default_apps@;
        self.default_apps.set(mime.duplicate(), DesktopList::singleton(handler.duplicate()));
        proof {
            assert(self.default_apps@ =~~= spec_set(v, mime@, seq![handler@]));
        }
    }

    /// Append `handler` under every registry entry matching the wildcard
    /// pattern `mime`.
    pub fn add_handler_expanding(
        &mut self,
        mime: &MimeType,
        handler: &DesktopHandler,
        registry: &Vec<Vec<u8>>,
    ) -> (r: Result<(), Error>)
        requires
            old(self).wf(),
        ensures
            final(self).added_associations@ == old(self).added_associations@,
            final(self).wf(),
            match spec_add_matching(
                old(self).default_apps@,
                text::views(registry@),
                mime@,
                handler@,
            ) {
                Ok(v2) => r is Ok && final(self).default_apps@ == v2,
                Err(bad) => r matches Err(Error::InvalidMime(b)) && b@ == bad,
            },
    {
        let ghost v0 = self.default_apps@;
        let ghost reg = text::views(registry@);
        let ghost pat = mime@;
        let ghost h = handler@;
        proof {
            assert(reg.skip(0) =~~= reg);
        }
        let mut i: usize = 0;
        while i < registry.len()
            invariant
                i <= registry.len(),
                self.added_associations@ == old(self).added_associations@,
                self.wf(),
                v0 == old(self).default_apps@,
                reg == text::views(registry@),
                pat == mime@,
                h == handler@,
                spec_add_matching(self.default_apps@, reg.skip(i as int), pat, h)
                    == spec_add_matching(v0, reg, pat, h),
            decreases registry.len() - i,
        {
            let ghost cur = self.default_apps@;
            proof {
                assert(reg.skip(i as int)[0] == reg[i as int]);
                assert(reg.skip(i as int).skip(1) =~~= reg.skip(i as int + 1));
                assert(reg[i as int] == registry@[i as int]@);
            }
            if glob::glob_matches(mime.as_bytes(), &registry[i]) {
                match MimeType::parse_bytes(&registry[i]) {
                    Ok(m) => {
                        self.add_handler_exact(&m, handler);
                        proof {
                            assert(spec_add_matching(
                                self.default_apps@,
                                reg.skip(i as int + 1),
                                pat,
                                h,
                            ) == spec_add_matching(cur, reg.skip(i as int), pat, h));
                        }
                    },
                    Err(e) => {
                        proof {
                            assert(spec_add_matching(v0, reg, pat, h) == Err::<Seq<(Seq<u8>, Seq<Seq<u8>>)>, Seq<u8>>(
                                reg[i as int],
                            ));
                        }
                        return Err(e);
                    },
                }
            }
            i += 1;
        }
        proof {
            assert(reg.skip(registry.len() as int) =~~= Seq::<Seq<u8>>::empty());
        }
        Ok(())
    }

    /// Bind every registry entry matching the wildcard pattern `mime` to
    /// the single handler `handler`.
    pub fn set_handler_expanding(
        &mut self,
        mime: &MimeType,
        handler: &DesktopHandler,
        registry: &Vec<Vec<u8>>,
    ) -> (r: Result<(), Error>)
        requires
            old(self).wf(),
        ensures
            final(self).added_associations@ == old(self).added_associations@,
            final(self).wf(),
            match spec_set_matching(
                old(self).default_apps@,
                text::views(registry@),
                mime@,
                handler@,
            ) {
                Ok(v2) => r is Ok && final(self).default_apps@ == v2,
                Err(bad) => r matches Err(Error::InvalidMime(b)) && b@ == bad,
            },
    {
        let ghost v0 = self.default_apps@;
        let ghost reg = text::views(registry@);
        let ghost pat = mime@;
        let ghost h = handler@;
        proof {
            assert(reg.skip(0) =~~= reg);
        }
        let mut i: usize = 0;
        while i < registry.len()
            invariant
                i <= registry.len(),
                self.added_associations@ == old(self).added_associations@,
                self.wf(),
                v0 == old(self).default_apps@,
                reg == text::views(registry@),
                pat == mime@,
                h == handler@,
                spec_set_matching(self.default_apps@, reg.skip(i as int), pat, h)
                    == spec_set_matching(v0, reg, pat, h),
            decreases registry.len() - i,
        {
            let ghost cur = self.default_apps@;
            proof {
                assert(reg.skip(i as int)[0] == reg[i as int]);
                assert(reg.skip(i as int).skip(1) =~~= reg.skip(i as int + 1));
                assert(reg[i as int] == registry@[i as int]@);
            }
            if glob::glob_matches(mime.as_bytes(), &registry[i]) {
                match MimeType::parse_bytes(&registry[i]) {
                    Ok(m) => {
                        self.set_handler_exact(&m, handler);
                        proof {
                            assert(spec_set_matching(
                                self.default_apps@,
                                reg.skip(i as int + 1),
                                pat,
                                h,
                            ) == spec_set_matching(cur, reg.skip(i as int), pat, h));
                        }
                    },
                    Err(e) => {
                        proof {
                            assert(spec_set_matching(v0, reg, pat, h) == Err::<Seq<(Seq<u8>, Seq<Seq<u8>>)>, Seq<u8>>(
                                reg[i as int],
                            ));
                        }
                        return Err(e);
                    },
                }
            }
            i += 1;
        }
        proof {
            assert(reg.skip(registry.len() as int) =~~= Seq::<Seq<u8>>::empty());
        }
        Ok(())
    }

    /// Add a handler to a default application association. With wildcard
    /// expansion on, a wildcard `mime` fans out over the MIME registry
    /// instead of being stored literally.
    pub fn add_handler(
        &mut self,
        mime: &MimeType,
        handler: &DesktopHandler,
        expand_wildcards: bool,
    ) -> (r: Result<(), Error>)
        requires
            old(self).wf(),
        ensures
            final(self).added_associations@ == old(self).added_associations@,
            final(self).wf(),
            !(expand_wildcards && mime@.contains(text::STAR)) ==> (r is Ok && final(self).default_apps@ == spec_append(
                old(self).default_apps@,
                mime@,
                handler@,
            )),
            expand_wildcards && mime@.contains(text::STAR) ==> exists|reg: Seq<Seq<u8>>|
                #[trigger] db::is_registry(reg) && (match spec_add_matching(
                    old(self).default_apps@,
                    db::custom_mime_entries() + reg,
                    mime@,
                    handler@,
                ) {
                    Ok(v2) => r is Ok && final(self).default_apps@ == v2,
                    Err(bad) => (r matches Err(Error::InvalidMime(b)) && b@ == bad),
                }),
    {
        if expand_wildcards && mime.has_wildcard() {
            let registry = db::mime_types();
            let r = self.add_handler_expanding(mime, handler, &registry);
            proof {
                let reg = text::views(registry@).skip(4);
                assert(db::is_registry(reg));
                assert(text::views(registry@) == db::custom_mime_entries() + reg);
            }
            r
        } else {
            self.add_handler_exact(mime, handler);
            Ok(())
        }
    }

    /// Set a default application association, overwriting any existing
    /// association for the same MIME type. Same wildcard fan-out as
    /// `add_handler`.
    pub fn set_handler(
        &mut self,
        mime: &MimeType,
        handler: &DesktopHandler,
        expand_wildcards: bool,
    ) -> (r: Result<(), Error>)
        requires
            old(self).wf(),
        ensures
            final(self).added_associations@ == old(self).added_associations@,
            final(self).wf(),
            !(expand_wildcards && mime@.contains(text::STAR)) ==> (r is Ok && final(self).default_apps@ == spec_set(
                old(self).default_apps@,
                mime@,
                seq![handler@],
            )),
            expand_wildcards && mime@.contains(text::STAR) ==> exists|reg: Seq<Seq<u8>>|
                #[trigger] db::is_registry(reg) && (match spec_set_matching(
                    old(self).default_apps@,
                    db::custom_mime_entries() + reg,
                    mime@,
                    handler@,
                ) {
                    Ok(v2) => r is Ok && final(self).default_apps@ == v2,
                    Err(bad) => (r matches Err(Error::InvalidMime(b)) && b@ == bad),
                }),
    {
        if expand_wildcards && mime.has_wildcard() {
            let registry = db::mime_types();
            let r = self.set_handler_expanding(mime, handler, &registry);
            proof {
                let reg = text::views(registry@).skip(4);
                assert(db::is_registry(reg));
                assert(text::views(registry@) == db::custom_mime_entries() + reg);
            }
            r
        } else {
            self.set_handler_exact(mime, handler);
            Ok(())
        }
    }

    /// Entirely remove the default application association of `mime`;
    /// hands back the removed list so callers can tell whether to persist.
    pub fn unset_handler(&mut self, mime: &MimeType) -> (r: Option<DesktopList>)
        requires
            old(self).wf(),
        ensures
            final(self).default_apps@ == spec_unset(old(self).default_apps@, mime@),
            final(self).added_associations@ == old(self).added_associations@,
            final(self).wf(),
            has_key(old(self).default_apps@, mime@) ==> (r matches Some(l) && l@ == value_of(
                old(self).default_apps@,
                mime@,
            )),
            !has_key(old(self).default_apps@, mime@) ==> r is None,
    {
        self.default_apps.unset(mime)
    }

    /// Remove the first occurrence of `handler` from `mime`'s default
    /// list, leaving the order of the rest unchanged. As a side effect of
    /// looking the entry up, a missing entry is created empty.
    pub fn remove_handler(&mut self, mime: &MimeType, handler: &DesktopHandler) -> (r: Option<
        DesktopHandler,
    >)
        requires
            old(self).wf(),
        ensures
            final(self).added_associations@ == old(self).added_associations@,
            final(self).wf(),
            !has_key(old(self).default_apps@, mime@) ==> r is None && final(self).default_apps@
                == spec_set(old(self).default_apps@, mime@, Seq::<Seq<u8>>::empty()),
            has_key(old(self).default_apps@, mime@) ==> {
                let hs = value_of(old(self).default_apps@, mime@);
                let idx = index_of_key(old(self).default_apps@, mime@);
                if hs.contains(handler@) {
                    exists|i: int|
                        {
                            &&& 0 <= i < hs.len()
                            &&& hs[i] == handler@
                            &&& forall|j: int| 0 <= j < i ==> hs[j] != handler@
                            &&& final(self).default_apps@ == old(self).default_apps@.update(
                                idx,
                                (mime@, hs.remove(i)),
                            )
                            &&& (r matches Some(h) && h@ == handler@)
                        }
                } else {
                    r is None && final(self).default_apps@ == old(self).default_apps@
                }
            },
    {
        let ghost v = self.default_apps@;
        match self.default_apps.find(mime) {
            Some(i) => {
                proof {
                    crate::assoc::lemma_key_index_unique(v, mime@, i as int);
                }
                let mut a = self.default_apps.remove_at(i);
                let r = a.handlers.remove_first(handler);
                self.default_apps.insert_at(i, a);
                proof {
                    crate::assoc::lemma_same_keys_sorted(v, self.default_apps@);
                    if !value_of(v, mime@).contains(handler@) {
                        assert(self.default_apps@ =~~= v);
                    } else {
                        let hs = value_of(v, mime@);
                        let ri = choose|ri: int|
                            {
                                &&& 0 <= ri < hs.len()
                                &&& hs[ri] == handler@
                                &&& (forall|j: int| 0 <= j < ri ==> hs[j] != handler@)
                                &&& a.handlers@ == hs.remove(ri)
                            };
                        assert(self.default_apps@ =~~= v.update(
                            i as int,
                            (mime@, hs.remove(ri)),
                        ));
                    }
                }
                r
            },
            None => {
                self.default_apps.set(mime.duplicate(), DesktopList::empty());
                proof {
                    assert(self.default_apps@ =~~= spec_set(
                        v,
                        mime@,
                        Seq::<Seq<u8>>::empty(),
                    ));
                }
                None
            },
        }
    }

    /// The position of the wildcard entry resolution would pick for
    /// `mime`: among default entries whose key glob-matches, the one with
    /// the longest key, earliest first on ties.
    pub fn get_from_wildcard(&self, mime: &MimeType) -> (r: Option<usize>)
        ensures
            match r {
                Some(i) => is_best_wildcard(self.default_apps@, mime@, i as int),
                None => !(exists|i: int| is_best_wildcard(self.default_apps@, mime@, i)),
            },
    {
        let ghost v = self.default_apps@;
        let n = self.default_apps.len();
        let mut best: usize = 0;
        let mut found = false;
        let mut i: usize = 0;
        while i < n
            invariant
                i <= n,
                n == v.len(),
                v == self.default_apps@,
                !found ==> forall|j: int| 0 <= j < i ==> !wildcard_matches_at(v, mime@, j),
                found ==> {
                    &&& wildcard_matches_at(v, mime@, best as int)
                    &&& best < i
                    &&& forall|j: int|
                        0 <= j < i && wildcard_matches_at(v, mime@, j) ==> v[j].0.len()
                            <= v[best as int].0.len()
                    &&& forall|j: int|
                        0 <= j < best ==> !(wildcard_matches_at(v, mime@, j) && v[j].0.len()
                            == v[best as int].0.len())
                },
            decreases n - i,
        {
            let entry = self.default_apps.entry_at(i);
            if glob::glob_matches(entry.mime.as_bytes(), mime.as_bytes()) {
                if !found {
                    best = i;
                    found = true;
                } else if entry.mime.as_bytes().len() > self.default_apps.entry_at(
                    best,
                ).mime.as_bytes().len() {
                    best = i;
                }
            }
            i += 1;
        }
        if found {
            Some(best)
        } else {
            proof {
                if exists|j: int| is_best_wildcard(v, mime@, j) {
                    let j = choose|j: int| is_best_wildcard(v, mime@, j);
                }
            }
            None
        }
    }

    /// Resolve `mime` against the user's default applications: the exact
    /// entry when present, else the longest matching wildcard entry; the
    /// first handler of the chosen list wins. Fails with `NotFound` when
    /// no entry matches or the chosen list is empty.
    ///
    /// Interactive selection among multiple handlers is driven by the
    /// caller, which can inspect the full list via `resolve_default`.
    pub fn get_handler_from_user(&self, mime: &MimeType) -> (r: Result<DesktopHandler, Error>)
        requires
            self.wf(),
        ensures
            match spec_resolve_default(self.default_apps@, mime@) {
                Some(hs) => {
                    if hs.len() > 0 {
                        r matches Ok(h) && h@ == hs[0]
                    } else {
                        r matches Err(Error::NotFound(m)) && m@ == mime@
                    }
                },
                None => r matches Err(Error::NotFound(m)) && m@ == mime@,
            },
    {
        match self.resolve_default(mime) {
            Some(l) => {
                match l.front() {
                    Some(h) => Ok(h.duplicate()),
                    None => Err(Error::NotFound(text::clone_bytes(mime.as_bytes()))),
                }
            },
            None => Err(Error::NotFound(text::clone_bytes(mime.as_bytes()))),
        }
    }

    /// The handler list `mime` resolves to among the user's defaults,
    /// before any choice among its entries is made.
    pub fn resolve_default(&self, mime: &MimeType) -> (r: Option<&DesktopList>)
        requires
            self.wf(),
        ensures
            match r {
                Some(l) => spec_resolve_default(self.default_apps@, mime@) == Some(l@),
                None => spec_resolve_default(self.default_apps@, mime@) is None,
            },
    {
        let ghost v = self.default_apps@;
        match self.default_apps.find(mime) {
            Some(i) => {
                proof {
                    crate::assoc::lemma_key_index_unique(v, mime@, i as int);
                }
                Some(&self.default_apps.entry_at(i).handlers)
            },
            None => {
                match self.get_from_wildcard(mime) {
                    Some(i) => {
                        proof {
                            let c = wildcard_choice(v, mime@);
                            assert(is_best_wildcard(v, mime@, c));
                            if c != i {
                                // Both satisfy `is_best_wildcard`, which
                                // pins the index down.
                                if c < i {
                                    assert(!(wildcard_matches_at(v, mime@, c) && v[c].0.len()
                                        == v[i as int].0.len()));
                                } else {
                                    assert(!(wildcard_matches_at(v, mime@, i as int)
                                        && v[i as int].0.len() == v[c].0.len()));
                                }
                            }
                        }
                        Some(&self.default_apps.entry_at(i).handlers)
                    },
                    None => None,
                }
            },
        }
    }
}

} // verus!
