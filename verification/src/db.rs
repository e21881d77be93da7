//! The registry of known MIME types, used for wildcard expansion.

use crate::literals;
use crate::text;
use vstd::prelude::*;

verus! {

/// Whether `rs` is the contents of the bundled MIME registry table. The
/// table is a compiled-in constant, so every call observes the same
/// contents; a bare constant cannot be named, so the contents are
/// characterized by this predicate, which only the trusted reader below
/// establishes.
pub uninterp spec fn is_registry(rs: Seq<Seq<u8>>) -> bool;

/// Relies on `mime_db::TYPES`: the crate's bundled table of known MIME
/// type names. The result is characterized by `is_registry`; nothing
/// else is promised of its contents, and callers validate each entry
/// before using it.
#[verifier::external_body]
fn registry_types() -> (r: Vec<Vec<u8>>)
    ensures
        is_registry(text::views(r@)),
{
    mime_db::TYPES.iter().map(|(m, _, _)| m.as_bytes().to_vec()).collect()
}

/// The pinned entries that precede the registry in `mime_types`.
pub open spec fn custom_mime_entries() -> Seq<Seq<u8>> {
    seq![
        literals::lit_inode_directory(),
        literals::lit_x_scheme_handler_http(),
        literals::lit_x_scheme_handler_https(),
        literals::lit_x_scheme_handler_terminal(),
    ]
}

/// All known MIME types: the pinned custom entries first, then exactly
/// the bundled registry in its own order.
pub fn mime_types() -> (r: Vec<Vec<u8>>)
    ensures
        text::views(r@).len() >= 4,
        text::views(r@) == custom_mime_entries() + text::views(r@).skip(4),
        is_registry(text::views(r@).skip(4)),
{
    let mut r: Vec<Vec<u8>> = Vec::new();
    r.push(literals::bytes_inode_directory());
    r.push(literals::bytes_x_scheme_handler_http());
    r.push(literals::bytes_x_scheme_handler_https());
    r.push(literals::bytes_x_scheme_handler_terminal());
    let ghost customs = text::views(r@);
    let mut reg = registry_types();
    let ghost regv = text::views(reg@);
    r.append(&mut reg);
    proof {
        assert(customs =~~= custom_mime_entries());
        assert(text::views(r@) =~~= custom_mime_entries() + regv);
        assert(text::views(r@).skip(4) =~~= regv);
    }
    r
}

} // verus!
