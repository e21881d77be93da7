//! The read-only catalog of applications installed on the system.
//!
//! Built once per run by scanning desktop files: every MIME type a valid
//! entry declares gets that entry's handler appended; entries declaring
//! none are kept apart as candidates for guessing a terminal emulator.
//! Lookups here are exact only — wildcard rules live in the user layer.

use crate::assoc::{has_key, spec_append, value_of, AssocList};
use crate::desktop_entry::DesktopEntry;
use crate::handler::{DesktopHandler, DesktopList};
use crate::mime_type::MimeType;
use crate::text;
use crate::wrappers;
use vstd::prelude::*;

verus! {

/// The views of a sequence of MIME types.
pub open spec fn mime_views(s: Seq<MimeType>) -> Seq<Seq<u8>> {
    s.map_values(|m: MimeType| m@)
}

/// Append `h` under every one of `mimes`, in order.
pub open spec fn spec_add_mimes(
    a: Seq<(Seq<u8>, Seq<Seq<u8>>)>,
    mimes: Seq<Seq<u8>>,
    h: Seq<u8>,
) -> Seq<(Seq<u8>, Seq<Seq<u8>>)>
    decreases mimes.len(),
{
    if mimes.len() == 0 {
        a
    } else {
        spec_add_mimes(spec_append(a, mimes[0], h), mimes.skip(1), h)
    }
}

/// Group desktop entries: an entry with MIME types feeds the association
/// map under each of them; one without joins the unassociated pool.
pub open spec fn spec_populate(
    es: Seq<DesktopEntry>,
    a: Seq<(Seq<u8>, Seq<Seq<u8>>)>,
    u: Seq<Seq<u8>>,
) -> (Seq<(Seq<u8>, Seq<Seq<u8>>)>, Seq<Seq<u8>>)
    decreases es.len(),
{
    if es.len() == 0 {
        (a, u)
    } else {
        let e = es[0];
        if e.mime_type@.len() == 0 {
            spec_populate(es.skip(1), a, u.push(e.file_name@))
        } else {
            spec_populate(es.skip(1), spec_add_mimes(a, mime_views(e.mime_type@), e.file_name@), u)
        }
    }
}

/// All MIME associations advertised by installed desktop files, plus the
/// entries that advertise none.
pub struct SystemApps {
    /// Associations of MIME types and lists of apps, grouped in scan order.
    pub associations: AssocList,
    /// Apps with no associated MIME type; used to guess a terminal emulator.
    pub unassociated: DesktopList,
}

/// Whether `p` ends in `.desktop`.
fn has_desktop_suffix(p: &Vec<u8>) -> (r: bool)
    ensures
        r == (p@.len() >= 8 && p@.skip(p@.len() - 8) == crate::literals::lit_desktop_suffix()),
{
    if p.len() < 8 {
        return false;
    }
    let suffix = crate::literals::bytes_desktop_suffix();
    let tail = text::skip_bytes(p, p.len() - 8);
    text::bytes_eq(&tail, &suffix)
}

/// The file name at the end of the path: the bytes after the last `/`.
fn base_name(p: &Vec<u8>) -> (r: Vec<u8>)
    ensures
        exists|c: int|
            {
                &&& 0 <= c <= p@.len()
                &&& r@ == p@.skip(c)
                &&& (c == 0 || p@[c - 1] == text::SLASH)
                &&& forall|j: int| c <= j < p@.len() ==> p@[j] != text::SLASH
            },
{
    let mut cut: usize = 0;
    let mut i: usize = 0;
    while i < p.len()
        invariant
            i <= p.len(),
            cut <= i,
            cut == 0 || p@[cut - 1] == text::SLASH,
            forall|j: int| cut <= j < i ==> p@[j] != text::SLASH,
        decreases p.len() - i,
    {
        if p[i] == text::SLASH {
            cut = i + 1;
        }
        i += 1;
    }
    let r = text::skip_bytes(p, cut);
    proof {
        assert(0 <= cut as int <= p@.len());
    }
    r
}

impl SystemApps {
    /// Keys of the association map stay sorted.
    pub open spec fn wf(&self) -> bool {
        self.associations.wf()
    }

    /// An empty catalog.
    pub fn new() -> (r: SystemApps)
        ensures
            r.associations@ == Seq::<(Seq<u8>, Seq<Seq<u8>>)>::empty(),
            r.unassociated@ == Seq::<Seq<u8>>::empty(),
            r.wf(),
    {
        SystemApps { associations: AssocList::empty(), unassociated: DesktopList::empty() }
    }

    /// The list of handlers associated with `mime`, exactly.
    pub fn get_handlers(&self, mime: &MimeType) -> (r: Option<DesktopList>)
        requires
            self.wf(),
        ensures
            has_key(self.associations@, mime@) ==> (r matches Some(l) && l@ == value_of(
                self.associations@,
                mime@,
            )),
            !has_key(self.associations@, mime@) ==> r is None,
    {
        match self.associations.get(mime) {
            Some(l) => Some(l.duplicate()),
            None => None,
        }
    }

    /// The primary handler associated with `mime`, exactly.
    pub fn get_handler(&self, mime: &MimeType) -> (r: Option<DesktopHandler>)
        requires
            self.wf(),
        ensures
            match r {
                Some(h) => has_key(self.associations@, mime@) && value_of(
                    self.associations@,
                    mime@,
                ).len() > 0 && h@ == value_of(self.associations@, mime@)[0],
                None => !has_key(self.associations@, mime@) || value_of(
                    self.associations@,
                    mime@,
                ).len() == 0,
            },
    {
        match self.associations.get(mime) {
            Some(l) => {
                match l.front() {
                    Some(h) => Some(h.duplicate()),
                    None => None,
                }
            },
            None => None,
        }
    }

    /// All valid desktop entries installed on the system: every
    /// `.desktop` file under the data directories that parses and has a
    /// name and an exec template.
    pub fn get_entries() -> (r: Vec<DesktopEntry>)
        ensures
            forall|i: int| 0 <= i < r@.len() ==> (#[trigger] r@[i]).valid(),
    {
        let paths = wrappers::list_application_files();
        let mut out: Vec<DesktopEntry> = Vec::new();
        let mut i: usize = 0;
        while i < paths.len()
            invariant
                i <= paths@.len(),
                forall|j: int| 0 <= j < out@.len() ==> (#[trigger] out@[j]).valid(),
            decreases paths.len() - i,
        {
            if has_desktop_suffix(&paths[i]) {
                match wrappers::parse_desktop_file(&paths[i]) {
                    Some(raw) => {
                        if raw.name.len() > 0 && raw.exec_cmd.len() > 0 {
                            let file_name = base_name(&paths[i]);
                            let mut mimes: Vec<MimeType> = Vec::new();
                            let mut k: usize = 0;
                            while k < raw.mime_types.len()
                                invariant
                                    k <= raw.mime_types@.len(),
                                decreases raw.mime_types.len() - k,
                            {
                                match MimeType::parse_bytes(&raw.mime_types[k]) {
                                    Ok(m) => {
                                        mimes.push(m);
                                    },
                                    Err(_) => {},
                                }
                                k += 1;
                            }
                            out.push(
                                DesktopEntry {
                                    name: raw.name,
                                    exec_cmd: raw.exec_cmd,
                                    file_name,
                                    terminal: raw.terminal,
                                    mime_type: mimes,
                                    categories: raw.categories,
                                },
                            );
                        }
                    },
                    None => {},
                }
            }
            i += 1;
        }
        out
    }

    /// Group the given entries into a catalog.
    pub fn populate_from(entries: &Vec<DesktopEntry>) -> (r: SystemApps)
        ensures
            (r.associations@, r.unassociated@) == spec_populate(
                entries@,
                Seq::empty(),
                Seq::empty(),
            ),
            r.wf(),
    {
        let mut apps = Self::new();
        let ghost es = entries@;
        proof {
            assert(es.skip(0) =~~= es);
        }
        let mut i: usize = 0;
        while i < entries.len()
            invariant
                i <= entries@.len(),
                es == entries@,
                apps.wf(),
                spec_populate(es.skip(i as int), apps.associations@, apps.unassociated@)
                    == spec_populate(es, Seq::empty(), Seq::empty()),
            decreases entries.len() - i,
        {
            proof {
                assert(es.skip(i as int)[0] == es[i as int]);
                assert(es.skip(i as int).skip(1) =~~= es.skip(i as int + 1));
            }
            let e = &entries[i];
            let handler = DesktopHandler::from_bytes(text::clone_bytes(&e.file_name));
            if e.mime_type.len() == 0 {
                apps.unassociated.push_back(handler);
            } else {
                let ghost a0 = apps.associations@;
                let ghost u0 = apps.unassociated@;
                let ghost mv = mime_views(e.mime_type@);
                proof {
                    assert(mv.skip(0) =~~= mv);
                }
                let mut k: usize = 0;
                while k < e.mime_type.len()
                    invariant
                        k <= e.mime_type@.len(),
                        mv == mime_views(e.mime_type@),
                        apps.wf(),
                        handler@ == e.file_name@,
                        apps.unassociated@ == u0,
                        spec_add_mimes(apps.associations@, mv.skip(k as int), handler@)
                            == spec_add_mimes(a0, mv, handler@),
                    decreases e.mime_type.len() - k,
                {
                    proof {
                        assert(mv.skip(k as int)[0] == mv[k as int]);
                        assert(mv.skip(k as int).skip(1) =~~= mv.skip(k as int + 1));
                        assert(mv[k as int] == e.mime_type@[k as int]@);
                    }
                    apps.associations.append_value(&e.mime_type[k], &handler);
                    k += 1;
                }
                proof {
                    assert(mv.skip(e.mime_type@.len() as int) =~~= Seq::<Seq<u8>>::empty());
                }
            }
            i += 1;
        }
        proof {
            assert(es.skip(entries@.len() as int) =~~= Seq::<DesktopEntry>::empty());
        }
        apps
    }

    /// Scan the system and build the catalog.
    pub fn populate() -> (r: SystemApps)
        ensures
            r.wf(),
            exists|es: Seq<DesktopEntry>|
                (r.associations@, r.unassociated@) == #[trigger] spec_populate(
                    es,
                    Seq::empty(),
                    Seq::empty(),
                ),
    {
        let entries = Self::get_entries();
        let r = Self::populate_from(&entries);
        proof {
            let es = entries@;
            assert((r.associations@, r.unassociated@) == spec_populate(
                es,
                Seq::empty(),
                Seq::empty(),
            ));
        }
        r
    }

    /// The first unassociated entry that is a terminal emulator, going by
    /// each entry's categories.
    pub fn terminal_emulator(&self) -> (r: Option<DesktopEntry>)
        ensures
            r matches Some(e) ==> e.valid() && exists|i: int|
                0 <= i < e.categories@.len() && (#[trigger] e.categories@[i])@
                    == crate::literals::lit_terminal_emulator_category(),
            self.unassociated@.len() == 0 ==> r is None,
    {
        let n = self.unassociated.len();
        let mut i: usize = 0;
        while i < n
            invariant
                n == self.unassociated@.len(),
            decreases n - i,
        {
            let h = self.unassociated.get(i);
            match h.get_entry() {
                Ok(e) => {
                    if e.is_terminal_emulator() {
                        proof {
                            let w = choose|w: int|
                                0 <= w < e.categories@.len() && (#[trigger] e.categories@[w])@
                                    == crate::literals::lit_terminal_emulator_category();
                            assert(0 <= w < e.categories@.len() && e.categories@[w]@
                                == crate::literals::lit_terminal_emulator_category());
                        }
                        return Some(e);
                    }
                },
                Err(_) => {},
            }
            i += 1;
        }
        None
    }

    /// Add an entry to the unassociated pool, at the front.
    pub fn add_unassociated(&mut self, handler: DesktopHandler)
        ensures
            final(self).unassociated@ == seq![handler@] + old(self).unassociated@,
            final(self).associations@ == old(self).associations@,
    {
        self.unassociated.push_front(handler)
    }
}

} // verus!
