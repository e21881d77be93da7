//! The `mimeapps.list` text format.
//!
//! Two optional sections, `[Added Associations]` then
//! `[Default Applications]`; each entry line is
//! `mimetype=handler1.desktop;handler2.desktop;`. Keys are written sorted
//! and lines end in CRLF. A section with no entries is omitted. Reading
//! tolerates bare-LF endings, skips blank lines and unknown sections,
//! drops malformed handler tokens, and prunes default entries left empty;
//! an invalid MIME key fails the whole read.

use crate::handler::{
    all_wf_names, distinct_seqs, is_handler_char, spec_parse_list, spec_serialize_list,
    wf_handler_name,
};
use crate::assoc::{lemma_prune_id, spec_prune};
use crate::literals;
use crate::mime_type::{is_mime_char, lower_byte, lower_bytes, wf_mime};
use crate::text;
use vstd::prelude::*;

verus! {

/// Which section the line reader is in.
#[derive(PartialEq, Eq, Structural, Clone, Copy, Debug)]
pub enum ReadSection {
    /// Before any section header.
    Preamble,
    /// Inside `[Added Associations]`.
    Added,
    /// Inside `[Default Applications]`.
    Defaults,
    /// Inside a section this format does not know; its lines are ignored.
    Unknown,
}

/// The CRLF line terminator.
pub open spec fn crlf() -> Seq<u8> {
    seq![text::CR, text::LF]
}

/// Lines joined with CRLF after each one.
pub open spec fn spec_join_crlf(lines: Seq<Seq<u8>>) -> Seq<u8>
    decreases lines.len(),
{
    if lines.len() == 0 {
        Seq::empty()
    } else {
        lines[0] + crlf() + spec_join_crlf(lines.skip(1))
    }
}

/// One serialized entry: `key=handler1;handler2;`.
pub open spec fn spec_entry_line(k: Seq<u8>, hs: Seq<Seq<u8>>) -> Seq<u8> {
    k + seq![text::EQUALS] + spec_serialize_list(hs)
}

/// The entry lines of a whole section, in stored order.
pub open spec fn spec_entry_lines(v: Seq<(Seq<u8>, Seq<Seq<u8>>)>) -> Seq<Seq<u8>> {
    v.map_values(|p: (Seq<u8>, Seq<Seq<u8>>)| spec_entry_line(p.0, p.1))
}

/// A section's lines: nothing when empty, else its header and entries.
pub open spec fn spec_section(header: Seq<u8>, v: Seq<(Seq<u8>, Seq<Seq<u8>>)>) -> Seq<Seq<u8>> {
    if v.len() == 0 {
        Seq::empty()
    } else {
        seq![header] + spec_entry_lines(v)
    }
}

/// All lines an association store serializes to.
pub open spec fn spec_save_lines(
    added: Seq<(Seq<u8>, Seq<Seq<u8>>)>,
    defaults: Seq<(Seq<u8>, Seq<Seq<u8>>)>,
) -> Seq<Seq<u8>> {
    spec_section(literals::lit_added_associations_header(), added) + spec_section(
        literals::lit_default_applications_header(),
        defaults,
    )
}

/// The serialized file: sections in fixed order, CRLF endings.
pub open spec fn spec_save(
    added: Seq<(Seq<u8>, Seq<Seq<u8>>)>,
    defaults: Seq<(Seq<u8>, Seq<Seq<u8>>)>,
) -> Seq<u8> {
    spec_join_crlf(spec_save_lines(added, defaults))
}

/// A line with its trailing carriage return, if any, removed.
pub open spec fn strip_cr(l: Seq<u8>) -> Seq<u8> {
    if l.len() > 0 && l[l.len() - 1] == text::CR {
        l.take(l.len() - 1)
    } else {
        l
    }
}

/// The effect of one line on the reader state. Blank lines, unknown
/// sections, and key-less lines are skipped; section headers switch the
/// section; an entry line binds its key in the current section; an
/// invalid MIME key aborts the read with that key's bytes.
pub open spec fn spec_read_line(
    sec: ReadSection,
    added: Seq<(Seq<u8>, Seq<Seq<u8>>)>,
    defaults: Seq<(Seq<u8>, Seq<Seq<u8>>)>,
    line: Seq<u8>,
) -> Result<(ReadSection, Seq<(Seq<u8>, Seq<Seq<u8>>)>, Seq<(Seq<u8>, Seq<Seq<u8>>)>), Seq<u8>> {
    let l = strip_cr(line);
    if l.len() == 0 {
        Ok((sec, added, defaults))
    } else if l == literals::lit_added_associations_header() {
        Ok((ReadSection::Added, added, defaults))
    } else if l == literals::lit_default_applications_header() {
        Ok((ReadSection::Defaults, added, defaults))
    } else if l[0] == text::LBRACKET {
        Ok((ReadSection::Unknown, added, defaults))
    } else if !l.contains(text::EQUALS) {
        Ok((sec, added, defaults))
    } else if sec != ReadSection::Added && sec != ReadSection::Defaults {
        // Lines outside the two known sections carry no associations.
        Ok((sec, added, defaults))
    } else {
        let e = text::first_index_of(l, text::EQUALS);
        let k = lower_bytes(l.take(e));
        let hs = spec_parse_list(l.skip(e + 1));
        if !wf_mime(k) {
            Err(l.take(e))
        } else if sec == ReadSection::Added {
            Ok((sec, crate::assoc::spec_set(added, k, hs), defaults))
        } else {
            Ok((sec, added, crate::assoc::spec_set(defaults, k, hs)))
        }
    }
}

/// Fold `spec_read_line` over a sequence of lines.
pub open spec fn spec_read_lines(
    lines: Seq<Seq<u8>>,
    sec: ReadSection,
    added: Seq<(Seq<u8>, Seq<Seq<u8>>)>,
    defaults: Seq<(Seq<u8>, Seq<Seq<u8>>)>,
) -> Result<(ReadSection, Seq<(Seq<u8>, Seq<Seq<u8>>)>, Seq<(Seq<u8>, Seq<Seq<u8>>)>), Seq<u8>>
    decreases lines.len(),
{
    if lines.len() == 0 {
        Ok((sec, added, defaults))
    } else {
        match spec_read_line(sec, added, defaults, lines[0]) {
            Ok((s2, a2, d2)) => spec_read_lines(lines.skip(1), s2, a2, d2),
            Err(e) => Err(e),
        }
    }
}

/// What reading a whole file produces: the added associations as stored,
/// and the default applications with empty entries pruned.
pub open spec fn spec_read(input: Seq<u8>) -> Result<
    (Seq<(Seq<u8>, Seq<Seq<u8>>)>, Seq<(Seq<u8>, Seq<Seq<u8>>)>),
    Seq<u8>,
> {
    match spec_read_lines(
        text::split_on(input, text::LF),
        ReadSection::Preamble,
        Seq::empty(),
        Seq::empty(),
    ) {
        Ok((_, a, d)) => Ok((a, spec_prune(d))),
        Err(e) => Err(e),
    }
}

/// A store that serializes canonically: sorted valid keys, each bound to
/// a nonempty list of well-formed, distinct handler names.
pub open spec fn wf_store(v: Seq<(Seq<u8>, Seq<Seq<u8>>)>) -> bool {
    &&& crate::assoc::sorted_keys(v)
    &&& forall|i: int| 0 <= i < v.len() ==> wf_mime((#[trigger] v[i]).0)
    &&& forall|i: int|
        0 <= i < v.len() ==> all_wf_names((#[trigger] v[i]).1) && distinct_seqs(v[i].1)
            && v[i].1.len() > 0
}

/// A line that cannot confuse the line splitter: no LF or CR inside.
pub open spec fn line_clean(l: Seq<u8>) -> bool {
    forall|i: int| 0 <= i < l.len() ==> l[i] != text::LF && l[i] != text::CR
}

/// Byte facts about the two section headers that the codec proofs need:
/// they open with `[`, they differ in length, and they hold no CR or LF.
pub proof fn lemma_header_bytes()
    ensures
        literals::lit_added_associations_header().len() == 20,
        literals::lit_default_applications_header().len() == 22,
        literals::lit_added_associations_header()[0] == text::LBRACKET,
        literals::lit_default_applications_header()[0] == text::LBRACKET,
        line_clean(literals::lit_added_associations_header()),
        line_clean(literals::lit_default_applications_header()),
{
    let a = literals::lit_added_associations_header();
    let d = literals::lit_default_applications_header();
    assert forall|i: int| 0 <= i < a.len() implies a[i] != text::LF && a[i] != text::CR by {
        assert(32 <= a[i] <= 126);
    }
    assert forall|i: int| 0 <= i < d.len() implies d[i] != text::LF && d[i] != text::CR by {
        assert(32 <= d[i] <= 126);
    }
}

/// Every byte of a serialized handler list is a handler char or `;`.
pub proof fn lemma_serialize_list_bytes(hs: Seq<Seq<u8>>)
    requires
        all_wf_names(hs),
    ensures
        forall|i: int|
            0 <= i < spec_serialize_list(hs).len() ==> (is_handler_char(
                #[trigger] spec_serialize_list(hs)[i],
            ) || spec_serialize_list(hs)[i] == text::SEMICOLON),
    decreases hs.len(),
{
    if hs.len() > 0 {
        assert forall|i: int| 0 <= i < hs.skip(1).len() implies wf_handler_name(
            #[trigger] hs.skip(1)[i],
        ) by {
            assert(hs.skip(1)[i] == hs[i + 1]);
        }
        lemma_serialize_list_bytes(hs.skip(1));
        let s = spec_serialize_list(hs);
        let h = hs[0];
        let rest = spec_serialize_list(hs.skip(1));
        assert forall|i: int| 0 <= i < s.len() implies (is_handler_char(#[trigger] s[i]) || s[i]
            == text::SEMICOLON) by {
            assert(wf_handler_name(hs[0]));
            if i < h.len() {
                assert(s[i] == h[i]);
            } else if i == h.len() {
                assert(s[i] == text::SEMICOLON);
            } else {
                assert(s[i] == rest[i - h.len() - 1]);
            }
        }
    }
}

/// An entry line of a canonical store holds no CR or LF.
pub proof fn lemma_entry_line_clean(k: Seq<u8>, hs: Seq<Seq<u8>>)
    requires
        wf_mime(k),
        all_wf_names(hs),
    ensures
        line_clean(spec_entry_line(k, hs)),
{
    lemma_serialize_list_bytes(hs);
    let l = spec_entry_line(k, hs);
    let rest = spec_serialize_list(hs);
    assert forall|i: int| 0 <= i < l.len() implies l[i] != text::LF && l[i] != text::CR by {
        let si = choose|si: int| crate::mime_type::wf_mime_at(k, si);
        if i < k.len() {
            assert(l[i] == k[i]);
            assert(i == si || is_mime_char(k[i]));
        } else if i == k.len() {
            assert(l[i] == text::EQUALS);
        } else {
            assert(l[i] == rest[i - k.len() - 1]);
        }
    }
}

/// A well-formed MIME key is already lowercase.
pub proof fn lemma_wf_mime_lower_id(k: Seq<u8>)
    requires
        wf_mime(k),
    ensures
        lower_bytes(k) == k,
{
    let si = choose|si: int| crate::mime_type::wf_mime_at(k, si);
    assert forall|i: int| 0 <= i < k.len() implies lower_byte(k[i]) == k[i] by {
        assert(i == si || is_mime_char(k[i]));
    }
    assert(lower_bytes(k) =~= k);
}

/// A well-formed MIME key holds no `=`, no LF, and no CR.
pub proof fn lemma_wf_mime_bytes(k: Seq<u8>)
    requires
        wf_mime(k),
    ensures
        !k.contains(text::EQUALS),
        line_clean(k),
        k.len() > 0 ==> k[0] != text::LBRACKET,
{
    let si = choose|si: int| crate::mime_type::wf_mime_at(k, si);
    assert forall|i: int| 0 <= i < k.len() implies k[i] != text::EQUALS && k[i] != text::LF && k[i]
        != text::CR && k[i] != text::LBRACKET by {
        assert(i == si || is_mime_char(k[i]));
    }
    if k.contains(text::EQUALS) {
        let i = choose|i: int| 0 <= i < k.len() && k[i] == text::EQUALS;
    }
}

/// Splitting CRLF-joined clean lines on LF yields each line with its CR
/// back, then one empty segment.
pub proof fn lemma_split_join_crlf(lines: Seq<Seq<u8>>)
    requires
        forall|i: int| 0 <= i < lines.len() ==> line_clean(#[trigger] lines[i]),
    ensures
        text::split_on(spec_join_crlf(lines), text::LF) == lines.map_values(
            |l: Seq<u8>| l + seq![text::CR],
        ) + seq![Seq::<u8>::empty()],
    decreases lines.len(),
{
    let mapped = lines.map_values(|l: Seq<u8>| l + seq![text::CR]);
    if lines.len() == 0 {
        assert(text::split_on(spec_join_crlf(lines), text::LF) =~~= mapped + seq![
            Seq::<u8>::empty(),
        ]);
    } else {
        assert forall|i: int| 0 <= i < lines.skip(1).len() implies line_clean(
            #[trigger] lines.skip(1)[i],
        ) by {
            assert(lines.skip(1)[i] == lines[i + 1]);
        }
        lemma_split_join_crlf(lines.skip(1));
        let x = lines[0] + seq![text::CR];
        let y = spec_join_crlf(lines.skip(1));
        assert(!x.contains(text::LF)) by {
            if x.contains(text::LF) {
                let i = choose|i: int| 0 <= i < x.len() && x[i] == text::LF;
                assert(i < lines[0].len());
            }
        }
        text::lemma_split_on_concat(x, y, text::LF);
        assert(spec_join_crlf(lines) =~= x + seq![text::LF] + y);
        assert(text::split_on(spec_join_crlf(lines), text::LF) =~~= mapped + seq![
            Seq::<u8>::empty(),
        ]);
    }
}

/// Folding the reader over concatenated line runs is folding it over
/// each run in turn.
pub proof fn lemma_read_lines_concat(
    l1: Seq<Seq<u8>>,
    l2: Seq<Seq<u8>>,
    sec: ReadSection,
    added: Seq<(Seq<u8>, Seq<Seq<u8>>)>,
    defaults: Seq<(Seq<u8>, Seq<Seq<u8>>)>,
)
    ensures
        spec_read_lines(l1 + l2, sec, added, defaults) == (match spec_read_lines(
            l1,
            sec,
            added,
            defaults,
        ) {
            Ok((s2, a2, d2)) => spec_read_lines(l2, s2, a2, d2),
            Err(e) => Err(e),
        }),
    decreases l1.len(),
{
    if l1.len() == 0 {
        assert(l1 + l2 =~~= l2);
    } else {
        assert((l1 + l2)[0] == l1[0]);
        match spec_read_line(sec, added, defaults, l1[0]) {
            Ok((s2, a2, d2)) => {
                lemma_read_lines_concat(l1.skip(1), l2, s2, a2, d2);
                assert((l1 + l2).skip(1) =~~= l1.skip(1) + l2);
            },
            Err(e) => {},
        }
    }
}

/// Reading one canonical entry line in a data section binds its key.
proof fn lemma_read_entry_line(
    sec: ReadSection,
    added: Seq<(Seq<u8>, Seq<Seq<u8>>)>,
    defaults: Seq<(Seq<u8>, Seq<Seq<u8>>)>,
    k: Seq<u8>,
    hs: Seq<Seq<u8>>,
)
    requires
        wf_mime(k),
        all_wf_names(hs),
        distinct_seqs(hs),
        sec == ReadSection::Added || sec == ReadSection::Defaults,
    ensures
        spec_read_line(sec, added, defaults, spec_entry_line(k, hs) + seq![text::CR]) == Ok::<
            _,
            Seq<u8>,
        >(
            (
                sec,
                if sec == ReadSection::Added {
                    crate::assoc::spec_set(added, k, hs)
                } else {
                    added
                },
                if sec == ReadSection::Defaults {
                    crate::assoc::spec_set(defaults, k, hs)
                } else {
                    defaults
                },
            ),
        ),
{
    let line = spec_entry_line(k, hs) + seq![text::CR];
    let l0 = spec_entry_line(k, hs);
    assert(line[line.len() - 1] == text::CR);
    assert(strip_cr(line) =~= l0);
    lemma_header_bytes();
    lemma_wf_mime_bytes(k);
    assert(l0.len() > 0);
    assert(l0[0] == k[0]);
    assert(k[0] != text::LBRACKET);
    // The header lines open with `[`, so an entry line differs from both.
    assert(l0 != literals::lit_added_associations_header()) by {
        if l0 == literals::lit_added_associations_header() {
            assert(l0[0] == text::LBRACKET);
        }
    }
    assert(l0 != literals::lit_default_applications_header()) by {
        if l0 == literals::lit_default_applications_header() {
            assert(l0[0] == text::LBRACKET);
        }
    }
    assert(l0.contains(text::EQUALS)) by {
        assert(l0[k.len() as int] == text::EQUALS);
    }
    assert(spec_serialize_list(hs) =~= l0.skip(k.len() as int + 1));
    text::lemma_first_index_concat(k, spec_serialize_list(hs), text::EQUALS);
    assert(l0 =~= k + seq![text::EQUALS] + spec_serialize_list(hs));
    let e = text::first_index_of(l0, text::EQUALS);
    assert(e == k.len());
    assert(l0.take(e) =~= k);
    lemma_wf_mime_lower_id(k);
    crate::handler::lemma_list_round_trip(hs);
}

/// Reading a header line switches the section and nothing else.
proof fn lemma_read_header_line(
    sec: ReadSection,
    added: Seq<(Seq<u8>, Seq<Seq<u8>>)>,
    defaults: Seq<(Seq<u8>, Seq<Seq<u8>>)>,
)
    ensures
        spec_read_line(
            sec,
            added,
            defaults,
            literals::lit_added_associations_header() + seq![text::CR],
        ) == Ok::<_, Seq<u8>>((ReadSection::Added, added, defaults)),
        spec_read_line(
            sec,
            added,
            defaults,
            literals::lit_default_applications_header() + seq![text::CR],
        ) == Ok::<_, Seq<u8>>((ReadSection::Defaults, added, defaults)),
{
    lemma_header_bytes();
    let ha = literals::lit_added_associations_header();
    let hd = literals::lit_default_applications_header();
    let la = ha + seq![text::CR];
    let ld = hd + seq![text::CR];
    assert(la[la.len() - 1] == text::CR);
    assert(ld[ld.len() - 1] == text::CR);
    assert(strip_cr(la) =~= ha);
    assert(strip_cr(ld) =~= hd);
    assert(hd != ha) by {
        assert(ha.len() != hd.len());
    }
}

/// Reading the entry lines of a canonical store whose keys all lie above
/// the keys accumulated so far appends its entries in order.
proof fn lemma_read_entry_lines(
    v: Seq<(Seq<u8>, Seq<Seq<u8>>)>,
    sec: ReadSection,
    added: Seq<(Seq<u8>, Seq<Seq<u8>>)>,
    defaults: Seq<(Seq<u8>, Seq<Seq<u8>>)>,
)
    requires
        wf_store(v),
        sec == ReadSection::Added || sec == ReadSection::Defaults,
        sec == ReadSection::Added ==> crate::assoc::sorted_keys(added) && (forall|i: int, j: int|
            0 <= i < added.len() && 0 <= j < v.len() ==> text::lex_lt(
                (#[trigger] added[i]).0,
                (#[trigger] v[j]).0,
            )),
        sec == ReadSection::Defaults ==> crate::assoc::sorted_keys(defaults) && (forall|
            i: int,
            j: int,
        |
            0 <= i < defaults.len() && 0 <= j < v.len() ==> text::lex_lt(
                (#[trigger] defaults[i]).0,
                (#[trigger] v[j]).0,
            )),
    ensures
        spec_read_lines(
            spec_entry_lines(v).map_values(|l: Seq<u8>| l + seq![text::CR]),
            sec,
            added,
            defaults,
        ) == Ok::<_, Seq<u8>>(
            (
                sec,
                if sec == ReadSection::Added {
                    added + v
                } else {
                    added
                },
                if sec == ReadSection::Defaults {
                    defaults + v
                } else {
                    defaults
                },
            ),
        ),
    decreases v.len(),
{
    let lines = spec_entry_lines(v).map_values(|l: Seq<u8>| l + seq![text::CR]);
    if v.len() == 0 {
        assert(lines.len() == 0);
        assert(added + v =~~= added);
        assert(defaults + v =~~= defaults);
    } else {
        let k = v[0].0;
        let hs = v[0].1;
        assert(lines[0] == spec_entry_line(k, hs) + seq![text::CR]);
        lemma_read_entry_line(sec, added, defaults, k, hs);
        if sec == ReadSection::Added {
            crate::assoc::lemma_spec_set_insert(added, k, hs, added.len() as int);
            assert(added.insert(added.len() as int, (k, hs)) =~~= added + seq![(k, hs)]);
        } else {
            crate::assoc::lemma_spec_set_insert(defaults, k, hs, defaults.len() as int);
            assert(defaults.insert(defaults.len() as int, (k, hs)) =~~= defaults + seq![
                (k, hs),
            ]);
        }
        let a2 = if sec == ReadSection::Added {
            added + seq![(k, hs)]
        } else {
            added
        };
        let d2 = if sec == ReadSection::Defaults {
            defaults + seq![(k, hs)]
        } else {
            defaults
        };
        // The tail of the store is again canonical, and its keys dominate
        // the grown accumulator.
        assert forall|i: int, j: int| 0 <= i < j < v.skip(1).len() implies text::lex_lt(
            (#[trigger] v.skip(1)[i]).0,
            (#[trigger] v.skip(1)[j]).0,
        ) by {
            assert(v.skip(1)[i] == v[i + 1]);
            assert(v.skip(1)[j] == v[j + 1]);
        }
        assert forall|i: int| 0 <= i < v.skip(1).len() implies wf_mime(
            (#[trigger] v.skip(1)[i]).0,
        ) && all_wf_names(v.skip(1)[i].1) && distinct_seqs(v.skip(1)[i].1) && v.skip(1)[i].1.len()
            > 0 by {
            assert(v.skip(1)[i] == v[i + 1]);
        }
        if sec == ReadSection::Added {
            assert forall|i: int, j: int|
                0 <= i < a2.len() && 0 <= j < v.skip(1).len() implies text::lex_lt(
                (#[trigger] a2[i]).0,
                (#[trigger] v.skip(1)[j]).0,
            ) by {
                assert(v.skip(1)[j] == v[j + 1]);
                if i == added.len() {
                    assert(a2[i] == (k, hs));
                    assert(text::lex_lt(v[0].0, v[j + 1].0));
                } else {
                    assert(a2[i] == added[i]);
                    assert(text::lex_lt(added[i].0, v[j + 1].0));
                }
            }
            assert forall|i: int, j: int| 0 <= i < j < a2.len() implies text::lex_lt(
                (#[trigger] a2[i]).0,
                (#[trigger] a2[j]).0,
            ) by {
                if j == added.len() {
                    assert(a2[i] == added[i]);
                    assert(text::lex_lt(added[i].0, v[0].0));
                } else {
                    assert(a2[i] == added[i]);
                    assert(a2[j] == added[j]);
                }
            }
        } else {
            assert forall|i: int, j: int|
                0 <= i < d2.len() && 0 <= j < v.skip(1).len() implies text::lex_lt(
                (#[trigger] d2[i]).0,
                (#[trigger] v.skip(1)[j]).0,
            ) by {
                assert(v.skip(1)[j] == v[j + 1]);
                if i == defaults.len() {
                    assert(d2[i] == (k, hs));
                    assert(text::lex_lt(v[0].0, v[j + 1].0));
                } else {
                    assert(d2[i] == defaults[i]);
                    assert(text::lex_lt(defaults[i].0, v[j + 1].0));
                }
            }
            assert forall|i: int, j: int| 0 <= i < j < d2.len() implies text::lex_lt(
                (#[trigger] d2[i]).0,
                (#[trigger] d2[j]).0,
            ) by {
                if j == defaults.len() {
                    assert(d2[i] == defaults[i]);
                    assert(text::lex_lt(defaults[i].0, v[0].0));
                } else {
                    assert(d2[i] == defaults[i]);
                    assert(d2[j] == defaults[j]);
                }
            }
        }
        lemma_read_entry_lines(v.skip(1), sec, a2, d2);
        assert(lines.skip(1) =~~= spec_entry_lines(v.skip(1)).map_values(
            |l: Seq<u8>| l + seq![text::CR],
        ));
        if sec == ReadSection::Added {
            assert(a2 + v.skip(1) =~~= added + v);
        } else {
            assert(d2 + v.skip(1) =~~= defaults + v);
        }
    }
}

/// Round trip: reading a canonically saved store gives the store back.
pub proof fn lemma_read_save_round_trip(
    added: Seq<(Seq<u8>, Seq<Seq<u8>>)>,
    defaults: Seq<(Seq<u8>, Seq<Seq<u8>>)>,
)
    ensures
        wf_store(added) && wf_store(defaults) ==> spec_read(spec_save(added, defaults)) == Ok::<
            _,
            Seq<u8>,
        >((added, defaults)),
{
    if wf_store(added) && wf_store(defaults) {
        let lines = spec_save_lines(added, defaults);
        let sa = spec_section(literals::lit_added_associations_header(), added);
        let sd = spec_section(literals::lit_default_applications_header(), defaults);
        lemma_header_bytes();
        assert forall|i: int| 0 <= i < lines.len() implies line_clean(#[trigger] lines[i]) by {
            if i < sa.len() {
                assert(lines[i] == sa[i]);
                if added.len() > 0 && i > 0 {
                    assert(sa[i] == spec_entry_line(added[i - 1].0, added[i - 1].1));
                    lemma_entry_line_clean(added[i - 1].0, added[i - 1].1);
                }
            } else {
                assert(lines[i] == sd[i - sa.len()]);
                if defaults.len() > 0 && i - sa.len() > 0 {
                    let j = i - sa.len() - 1;
                    assert(sd[i - sa.len()] == spec_entry_line(defaults[j].0, defaults[j].1));
                    lemma_entry_line_clean(defaults[j].0, defaults[j].1);
                }
            }
        }
        lemma_split_join_crlf(lines);
        let cr = |l: Seq<u8>| l + seq![text::CR];
        let mapped = lines.map_values(cr);
        let tail = seq![Seq::<u8>::empty()];
        // Walk the reader over the four runs: added header and entries,
        // defaults header and entries, then the final empty segment.
        let ha = seq![literals::lit_added_associations_header()].map_values(cr);
        let hd = seq![literals::lit_default_applications_header()].map_values(cr);
        let ea = spec_entry_lines(added).map_values(cr);
        let ed = spec_entry_lines(defaults).map_values(cr);
        let sa_m = sa.map_values(cr);
        let sd_m = sd.map_values(cr);
        assert(mapped =~~= sa_m + sd_m);
        if added.len() > 0 {
            assert(sa_m =~~= ha + ea);
        } else {
            assert(sa_m =~~= Seq::<Seq<u8>>::empty());
        }
        if defaults.len() > 0 {
            assert(sd_m =~~= hd + ed);
        } else {
            assert(sd_m =~~= Seq::<Seq<u8>>::empty());
        }
        let st0 = ReadSection::Preamble;
        let e0: Seq<(Seq<u8>, Seq<Seq<u8>>)> = Seq::empty();
        // Added section.
        let sec_after_a = if added.len() > 0 {
            ReadSection::Added
        } else {
            ReadSection::Preamble
        };
        assert(spec_read_lines(sa_m, st0, e0, e0) == Ok::<_, Seq<u8>>(
            (sec_after_a, added, e0),
        )) by {
            if added.len() > 0 {
                lemma_read_header_line(st0, e0, e0);
                assert(ha[0] == literals::lit_added_associations_header() + seq![text::CR]);
                assert(ha.skip(1) =~~= Seq::<Seq<u8>>::empty());
                assert(spec_read_lines(Seq::<Seq<u8>>::empty(), ReadSection::Added, e0, e0)
                    == Ok::<_, Seq<u8>>((ReadSection::Added, e0, e0)));
                assert(spec_read_lines(ha, st0, e0, e0) == Ok::<_, Seq<u8>>(
                    (ReadSection::Added, e0, e0),
                ));
                lemma_read_lines_concat(ha, ea, st0, e0, e0);
                lemma_read_entry_lines(added, ReadSection::Added, e0, e0);
                assert(ea =~~= spec_entry_lines(added).map_values(
                    |l: Seq<u8>| l + seq![text::CR],
                ));
                assert(e0 + added =~~= added);
                assert(spec_read_lines(ea, ReadSection::Added, e0, e0) == Ok::<_, Seq<u8>>(
                    (ReadSection::Added, added, e0),
                ));
                assert(sa_m =~~= ha + ea);
            } else {
                assert(e0 + added =~~= added);
                assert(added =~~= e0);
                assert(sa_m =~~= Seq::<Seq<u8>>::empty());
            }
        }
        // Defaults section.
        let sec_after_d = if defaults.len() > 0 {
            ReadSection::Defaults
        } else {
            sec_after_a
        };
        assert(spec_read_lines(sd_m, sec_after_a, added, e0) == Ok::<_, Seq<u8>>(
            (sec_after_d, added, defaults),
        )) by {
            if defaults.len() > 0 {
                lemma_read_header_line(sec_after_a, added, e0);
                assert(hd[0] == literals::lit_default_applications_header() + seq![text::CR]);
                assert(hd.skip(1) =~~= Seq::<Seq<u8>>::empty());
                assert(spec_read_lines(Seq::<Seq<u8>>::empty(), ReadSection::Defaults, added, e0)
                    == Ok::<_, Seq<u8>>((ReadSection::Defaults, added, e0)));
                assert(spec_read_lines(hd, sec_after_a, added, e0) == Ok::<_, Seq<u8>>(
                    (ReadSection::Defaults, added, e0),
                ));
                lemma_read_lines_concat(hd, ed, sec_after_a, added, e0);
                lemma_read_entry_lines(defaults, ReadSection::Defaults, added, e0);
                assert(ed =~~= spec_entry_lines(defaults).map_values(
                    |l: Seq<u8>| l + seq![text::CR],
                ));
                assert(e0 + defaults =~~= defaults);
                assert(spec_read_lines(ed, ReadSection::Defaults, added, e0) == Ok::<_, Seq<u8>>(
                    (ReadSection::Defaults, added, defaults),
                ));
                assert(sd_m =~~= hd + ed);
            } else {
                assert(defaults =~~= e0);
                assert(sd_m =~~= Seq::<Seq<u8>>::empty());
            }
        }
        lemma_read_lines_concat(sa_m, sd_m, st0, e0, e0);
        assert(spec_read_lines(mapped, st0, e0, e0) == Ok::<_, Seq<u8>>(
            (sec_after_d, added, defaults),
        ));
        // The final empty segment after the last CRLF is skipped.
        lemma_read_lines_concat(mapped, tail, st0, e0, e0);
        assert(text::split_on(spec_save(added, defaults), text::LF) =~~= mapped + tail);
        assert(spec_read_lines(tail, sec_after_d, added, defaults) == Ok::<_, Seq<u8>>(
            (sec_after_d, added, defaults),
        )) by {
            assert(tail[0] =~= Seq::<u8>::empty());
            assert(strip_cr(tail[0]) =~= Seq::<u8>::empty());
            assert(spec_read_line(sec_after_d, added, defaults, tail[0]) == Ok::<_, Seq<u8>>(
                (sec_after_d, added, defaults),
            ));
            assert(tail.skip(1) =~~= Seq::<Seq<u8>>::empty());
            assert(spec_read_lines(Seq::<Seq<u8>>::empty(), sec_after_d, added, defaults)
                == Ok::<_, Seq<u8>>((sec_after_d, added, defaults)));
        }
        assert forall|i: int| 0 <= i < defaults.len() implies (#[trigger] defaults[i]).1.len()
            > 0 by {}
        lemma_prune_id(defaults);
    }
}

/// Joining concatenated line runs is joining each run in turn.
pub proof fn lemma_join_crlf_concat(l1: Seq<Seq<u8>>, l2: Seq<Seq<u8>>)
    ensures
        spec_join_crlf(l1 + l2) == spec_join_crlf(l1) + spec_join_crlf(l2),
    decreases l1.len(),
{
    if l1.len() == 0 {
        assert(l1 + l2 =~~= l2);
        assert(spec_join_crlf(l1) + spec_join_crlf(l2) =~= spec_join_crlf(l2));
    } else {
        lemma_join_crlf_concat(l1.skip(1), l2);
        assert((l1 + l2)[0] == l1[0]);
        assert((l1 + l2).skip(1) =~~= l1.skip(1) + l2);
        assert(spec_join_crlf(l1 + l2) =~= spec_join_crlf(l1) + spec_join_crlf(l2));
    }
}

/// Append one serialized entry line and its CRLF ending to `out`.
fn write_entry_line(out: &mut Vec<u8>, a: &crate::assoc::Association)
    ensures
        final(out)@ == old(out)@ + spec_entry_line(a@.0, a@.1) + crlf(),
{
    text::push_bytes(out, a.mime.as_bytes());
    out.push(text::EQUALS);
    let ser = a.handlers.serialize();
    text::push_bytes(out, &ser);
    out.push(text::CR);
    out.push(text::LF);
    proof {
        assert(out@ =~= old(out)@ + spec_entry_line(a@.0, a@.1) + crlf());
    }
}

/// Append a whole section — header and entry lines, or nothing when the
/// section is empty — to `out`.
fn write_section(out: &mut Vec<u8>, header: &Vec<u8>, list: &crate::assoc::AssocList)
    ensures
        final(out)@ == old(out)@ + spec_join_crlf(spec_section(header@, list@)),
{
    let n = list.len();
    if n == 0 {
        proof {
            assert(out@ =~= old(out)@ + spec_join_crlf(spec_section(header@, list@)));
        }
        return ;
    }
    text::push_bytes(out, header);
    out.push(text::CR);
    out.push(text::LF);
    proof {
        assert(spec_join_crlf(seq![header@]) =~= header@ + crlf()) by {
            assert(seq![header@].skip(1) =~~= Seq::<Seq<u8>>::empty());
            assert(spec_join_crlf(Seq::<Seq<u8>>::empty()) =~= Seq::<u8>::empty());
        }
        assert(out@ =~= old(out)@ + spec_join_crlf(seq![header@] + spec_entry_lines(
            list@.take(0),
        )));
    }
    let mut i: usize = 0;
    while i < n
        invariant
            i <= n,
            n == list@.len(),
            out@ == old(out)@ + spec_join_crlf(
                seq![header@] + spec_entry_lines(list@.take(i as int)),
            ),
        decreases n - i,
    {
        let ghost lines_i = seq![header@] + spec_entry_lines(list@.take(i as int));
        write_entry_line(out, list.entry_at(i));
        proof {
            let p = list@[i as int];
            let lines_i1 = seq![header@] + spec_entry_lines(list@.take(i as int + 1));
            assert(lines_i1 =~~= lines_i + seq![spec_entry_line(p.0, p.1)]);
            lemma_join_crlf_concat(lines_i, seq![spec_entry_line(p.0, p.1)]);
            assert(spec_join_crlf(seq![spec_entry_line(p.0, p.1)]) =~= spec_entry_line(p.0, p.1)
                + crlf()) by {
                assert(seq![spec_entry_line(p.0, p.1)].skip(1) =~~= Seq::<Seq<u8>>::empty());
                assert(spec_join_crlf(Seq::<Seq<u8>>::empty()) =~= Seq::<u8>::empty());
            }
            assert(out@ =~= old(out)@ + spec_join_crlf(lines_i1));
        }
        i += 1;
    }
    proof {
        assert(list@.take(n as int) =~~= list@);
        assert(spec_section(header@, list@) =~~= seq![header@] + spec_entry_lines(list@));
    }
}

impl crate::mime_apps::MimeApps {
    /// Serialize the associations: prune empty default entries, then
    /// write the two sections with sorted keys and CRLF line endings.
    pub fn save_to(&mut self) -> (r: Vec<u8>)
        requires
            old(self).wf(),
        ensures
            final(self).added_associations@ == old(self).added_associations@,
            final(self).default_apps@ == spec_prune(old(self).default_apps@),
            final(self).wf(),
            r@ == spec_save(old(self).added_associations@, spec_prune(old(self).default_apps@)),
    {
        self.default_apps.retain_nonempty();
        let mut out: Vec<u8> = Vec::new();
        let ha = literals::bytes_added_associations_header();
        let hd = literals::bytes_default_applications_header();
        write_section(&mut out, &ha, &self.added_associations);
        write_section(&mut out, &hd, &self.default_apps);
        proof {
            lemma_join_crlf_concat(
                spec_section(literals::lit_added_associations_header(), self.added_associations@),
                spec_section(literals::lit_default_applications_header(), self.default_apps@),
            );
        }
        out
    }

    /// Parse an association file. Blank lines, unknown sections, and
    /// key-less lines are skipped; malformed handler tokens are dropped;
    /// default entries left empty are pruned; an invalid MIME key fails
    /// the read with `InvalidMime`.
    pub fn read_from(input: &Vec<u8>) -> (r: Result<crate::mime_apps::MimeApps, crate::error::Error>)
        ensures
            match spec_read(input@) {
                Ok((a, d)) => r matches Ok(m) && m.added_associations@ == a && m.default_apps@
                    == d && m.wf(),
                Err(k) => r matches Err(crate::error::Error::InvalidMime(b)) && b@ == k,
            },
    {
        let lines = text::split_bytes(input, text::LF);
        let ghost all_lines = text::views(lines@);
        let mut added = crate::assoc::AssocList::empty();
        let mut defaults = crate::assoc::AssocList::empty();
        let mut sec = ReadSection::Preamble;
        let ghost e0: Seq<(Seq<u8>, Seq<Seq<u8>>)> = Seq::empty();
        proof {
            assert(all_lines.skip(0) =~~= all_lines);
        }
        let mut i: usize = 0;
        while i < lines.len()
            invariant
                i <= lines.len(),
                all_lines == text::views(lines@),
                all_lines == text::split_on(input@, text::LF),
                e0 =~~= Seq::<(Seq<u8>, Seq<Seq<u8>>)>::empty(),
                added.wf(),
                defaults.wf(),
                spec_read_lines(all_lines.skip(i as int), sec, added@, defaults@)
                    == spec_read_lines(all_lines, ReadSection::Preamble, e0, e0),
            decreases lines.len() - i,
        {
            proof {
                assert(all_lines.skip(i as int)[0] == all_lines[i as int]);
                assert(all_lines.skip(i as int).skip(1) =~~= all_lines.skip(i as int + 1));
                assert(all_lines[i as int] == lines@[i as int]@);
            }
            let mut l = text::clone_bytes(&lines[i]);
            if l.len() > 0 && l[l.len() - 1] == text::CR {
                let _ = l.pop();
            }
            proof {
                assert(l@ =~= strip_cr(lines@[i as int]@));
            }
            let ha = literals::bytes_added_associations_header();
            let hd = literals::bytes_default_applications_header();
            if l.len() == 0 {
                // blank line: nothing changes
            } else if text::bytes_eq(&l, &ha) {
                sec = ReadSection::Added;
            } else if text::bytes_eq(&l, &hd) {
                sec = ReadSection::Defaults;
            } else if l[0] == text::LBRACKET {
                sec = ReadSection::Unknown;
            } else {
                let e = text::find_byte(&l, text::EQUALS);
                proof {
                    text::lemma_first_index_of(l@, text::EQUALS);
                    if e < l.len() {
                        assert(l@.contains(text::EQUALS)) by {
                            assert(l@[e as int] == text::EQUALS);
                        }
                    }
                }
                if e == l.len() {
                    // no key separator: the line is skipped
                    proof {
                        assert(!l@.contains(text::EQUALS)) by {
                            if l@.contains(text::EQUALS) {
                                let j = choose|j: int|
                                    0 <= j < l@.len() && l@[j] == text::EQUALS;
                            }
                        }
                    }
                } else if !matches!(sec, ReadSection::Added) && !matches!(
                    sec,
                    ReadSection::Defaults,
                ) {
                    // outside the known sections the line carries nothing
                } else {
                    let key_bytes = text::take_bytes(&l, e);
                    let val_bytes = text::skip_bytes(&l, e + 1);
                    match crate::mime_type::MimeType::parse_bytes(&key_bytes) {
                        Ok(m) => {
                            let hs = crate::handler::DesktopList::parse(&val_bytes);
                            if matches!(sec, ReadSection::Added) {
                                added.set(m, hs);
                            } else if matches!(sec, ReadSection::Defaults) {
                                defaults.set(m, hs);
                            }
                        },
                        Err(err) => {
                            proof {
                                assert(spec_read_lines(
                                    all_lines,
                                    ReadSection::Preamble,
                                    e0,
                                    e0,
                                ) == Err::<
                                    (
                                        ReadSection,
                                        Seq<(Seq<u8>, Seq<Seq<u8>>)>,
                                        Seq<(Seq<u8>, Seq<Seq<u8>>)>,
                                    ),
                                    Seq<u8>,
                                >(strip_cr(all_lines[i as int]).take(e as int)));
                            }
                            return Err(err);
                        },
                    }
                }
            }
            i += 1;
        }
        proof {
            assert(all_lines.skip(lines@.len() as int) =~~= Seq::<Seq<u8>>::empty());
        }
        defaults.retain_nonempty();
        Ok(crate::mime_apps::MimeApps { added_associations: added, default_apps: defaults })
    }
}

} // verus!
