//! Tabular views of the configured associations, for callers that list
//! them. Rendering itself (tables, JSON) is the caller's business; this
//! module only assembles the rows.

use crate::assoc::AssocList;
use crate::handler::DesktopList;
use crate::literals;
use crate::mime_apps::MimeApps;
use crate::mime_type::MimeType;
use crate::system_apps::SystemApps;
use crate::text;
use vstd::prelude::*;

verus! {

/// One row: a MIME type and the display names of its handlers.
pub struct MimeAppsEntry {
    /// The MIME type, as text.
    pub mime: Vec<u8>,
    /// The handler names, in priority order.
    pub handlers: Vec<Vec<u8>>,
    /// How `display_handlers` joins the names; depends only on whether
    /// output goes to a terminal.
    pub separator: Vec<u8>,
}

impl MimeAppsEntry {
    /// A row for `mime` and its `handlers`, joined with `separator`.
    pub fn new(mime: &MimeType, handlers: &DesktopList, separator: &Vec<u8>) -> (r: MimeAppsEntry)
        ensures
            r.mime@ == mime@,
            text::views(r.handlers@) == handlers@,
            r.separator@ == separator@,
    {
        let mut hs: Vec<Vec<u8>> = Vec::new();
        let mut i: usize = 0;
        let n = handlers.len();
        while i < n
            invariant
                i <= n,
                n == handlers@.len(),
                hs@.len() == i,
                forall|j: int| 0 <= j < i ==> hs@[j]@ == handlers@[j],
            decreases n - i,
        {
            hs.push(text::clone_bytes(handlers.get(i).name()));
            i += 1;
        }
        let r = MimeAppsEntry {
            mime: text::clone_bytes(mime.as_bytes()),
            handlers: hs,
            separator: text::clone_bytes(separator),
        };
        proof {
            assert(text::views(r.handlers@) =~~= handlers@);
        }
        r
    }

    /// The handler names as one string, joined by this row's separator.
    pub fn display_handlers(&self) -> (r: Vec<u8>)
        ensures
            r@ == text::join_with(text::views(self.handlers@), self.separator@),
    {
        text::join_bytes_with(&self.handlers, &self.separator)
    }
}

/// The three row groups a listing shows.
pub struct MimeAppsTable {
    /// Rows from `[Added Associations]`.
    pub added_associations: Vec<MimeAppsEntry>,
    /// Rows from `[Default Applications]`.
    pub default_apps: Vec<MimeAppsEntry>,
    /// Rows from the system catalog.
    pub system_apps: Vec<MimeAppsEntry>,
}

/// Rows for one association list, in its (sorted) stored order.
fn rows_of(list: &AssocList, separator: &Vec<u8>) -> (r: Vec<MimeAppsEntry>)
    ensures
        r@.len() == list@.len(),
        forall|i: int|
            0 <= i < r@.len() ==> {
                &&& (#[trigger] r@[i]).mime@ == list@[i].0
                &&& text::views(r@[i].handlers@) == list@[i].1
                &&& r@[i].separator@ == separator@
            },
{
    let mut r: Vec<MimeAppsEntry> = Vec::new();
    let n = list.len();
    let mut i: usize = 0;
    while i < n
        invariant
            i <= n,
            n == list@.len(),
            r@.len() == i,
            forall|j: int|
                0 <= j < i ==> {
                    &&& (#[trigger] r@[j]).mime@ == list@[j].0
                    &&& text::views(r@[j].handlers@) == list@[j].1
                    &&& r@[j].separator@ == separator@
                },
        decreases n - i,
    {
        let entry = list.entry_at(i);
        r.push(MimeAppsEntry::new(&entry.mime, &entry.handlers, separator));
        i += 1;
    }
    r
}

impl MimeAppsTable {
    /// Rows for the user's two sections and the system catalog. On a
    /// terminal the separator favors readability; piped, parseability.
    pub fn new(mimeapps: &MimeApps, system_apps: &SystemApps, terminal_output: bool) -> (r:
        MimeAppsTable)
        ensures
            ({
                let sep = if terminal_output {
                    literals::lit_separator_terminal()
                } else {
                    literals::lit_separator_piped()
                };
                &&& r.added_associations@.len() == mimeapps.added_associations@.len()
                &&& (forall|i: int|
                    0 <= i < r.added_associations@.len() ==> {
                        &&& (#[trigger] r.added_associations@[i]).mime@
                            == mimeapps.added_associations@[i].0
                        &&& text::views(r.added_associations@[i].handlers@)
                            == mimeapps.added_associations@[i].1
                        &&& r.added_associations@[i].separator@ == sep
                    })
                &&& r.default_apps@.len() == mimeapps.default_apps@.len()
                &&& (forall|i: int|
                    0 <= i < r.default_apps@.len() ==> {
                        &&& (#[trigger] r.default_apps@[i]).mime@ == mimeapps.default_apps@[i].0
                        &&& text::views(r.default_apps@[i].handlers@)
                            == mimeapps.default_apps@[i].1
                        &&& r.default_apps@[i].separator@ == sep
                    })
                &&& r.system_apps@.len() == system_apps.associations@.len()
                &&& (forall|i: int|
                    0 <= i < r.system_apps@.len() ==> {
                        &&& (#[trigger] r.system_apps@[i]).mime@ == system_apps.associations@[i].0
                        &&& text::views(r.system_apps@[i].handlers@)
                            == system_apps.associations@[i].1
                        &&& r.system_apps@[i].separator@ == sep
                    })
            }),
    {
        let separator = if terminal_output {
            literals::bytes_separator_terminal()
        } else {
            literals::bytes_separator_piped()
        };
        MimeAppsTable {
            added_associations: rows_of(&mimeapps.added_associations, &separator),
            default_apps: rows_of(&mimeapps.default_apps, &separator),
            system_apps: rows_of(&system_apps.associations, &separator),
        }
    }
}

} // verus!
