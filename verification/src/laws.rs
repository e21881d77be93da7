//! The behavioral laws of the engine, stated and proved once over the
//! specification functions the executable contracts use.

use crate::assoc::{
    has_key, index_of_key, lemma_key_index_unique, lemma_prune_keys, lemma_spec_set_semantics,
    sorted_keys, spec_append, spec_prune, spec_set, value_of,
};
use crate::file_format::{spec_read, spec_save, wf_store};
use crate::glob;
use crate::mime_apps::{
    is_best_wildcard, spec_resolve_default, wildcard_choice, wildcard_matches_at,
};
use vstd::prelude::*;

verus! {

/// Round-trip law: reading a canonically saved store gives the store
/// back, so saving again reproduces the same bytes, byte for byte.
pub proof fn law_round_trip(
    added: Seq<(Seq<u8>, Seq<Seq<u8>>)>,
    defaults: Seq<(Seq<u8>, Seq<Seq<u8>>)>,
)
    requires
        wf_store(added),
        wf_store(defaults),
    ensures
        spec_read(spec_save(added, defaults)) == Ok::<_, Seq<u8>>((added, defaults)),
        match spec_read(spec_save(added, defaults)) {
            Ok((a, d)) => spec_save(a, d) == spec_save(added, defaults),
            Err(_) => false,
        },
{
    crate::file_format::lemma_read_save_round_trip(added, defaults);
}

/// Precedence law: when a MIME type has an exact entry among the
/// defaults, resolution picks that entry, whatever wildcard entries also
/// match.
pub proof fn law_exact_beats_wildcard(v: Seq<(Seq<u8>, Seq<Seq<u8>>)>, mime: Seq<u8>)
    requires
        has_key(v, mime),
    ensures
        spec_resolve_default(v, mime) == Some(value_of(v, mime)),
{
}

/// Among the first `n` entries with a glob match, there is one of
/// maximal key length, earliest on ties.
proof fn find_best_wildcard(v: Seq<(Seq<u8>, Seq<Seq<u8>>)>, mime: Seq<u8>, n: int) -> (c: int)
    requires
        0 <= n <= v.len(),
        exists|j: int| 0 <= j < n && glob::glob_match(v[j].0, mime),
    ensures
        0 <= c < n,
        glob::glob_match(v[c].0, mime),
        forall|j: int|
            0 <= j < n && glob::glob_match((#[trigger] v[j]).0, mime) ==> v[j].0.len()
                <= v[c].0.len(),
        forall|j: int|
            0 <= j < c ==> !(glob::glob_match((#[trigger] v[j]).0, mime) && v[j].0.len()
                == v[c].0.len()),
    decreases n,
{
    let j0 = choose|j: int| 0 <= j < n && glob::glob_match(v[j].0, mime);
    if exists|j: int| 0 <= j < n - 1 && glob::glob_match(v[j].0, mime) {
        let c1 = find_best_wildcard(v, mime, n - 1);
        if !glob::glob_match(v[n - 1].0, mime) || v[n - 1].0.len() <= v[c1].0.len() {
            c1
        } else {
            n - 1
        }
    } else {
        assert(j0 == n - 1);
        n - 1
    }
}

/// Longest-wildcard law: with no exact entry, resolution picks a
/// matching wildcard entry of maximal key length, so an entry with a
/// strictly shorter matching key never supplies the list.
pub proof fn law_longest_wildcard(
    v: Seq<(Seq<u8>, Seq<Seq<u8>>)>,
    mime: Seq<u8>,
    shorter: int,
    longer: int,
)
    requires
        !has_key(v, mime),
        wildcard_matches_at(v, mime, shorter),
        wildcard_matches_at(v, mime, longer),
        v[shorter].0.len() < v[longer].0.len(),
    ensures
        exists|c: int|
            {
                &&& #[trigger] is_best_wildcard(v, mime, c)
                &&& spec_resolve_default(v, mime) == Some(v[c].1)
                &&& v[c].0.len() >= v[longer].0.len()
                &&& v[c].0.len() > v[shorter].0.len()
            },
{
    let c = find_best_wildcard(v, mime, v.len() as int);
    assert(is_best_wildcard(v, mime, c));
    let w = wildcard_choice(v, mime);
    assert(is_best_wildcard(v, mime, w));
    if w != c {
        // Two best indices would each exclude the other.
        if w < c {
            assert(!(wildcard_matches_at(v, mime, w) && v[w].0.len() == v[c].0.len()));
        } else {
            assert(!(wildcard_matches_at(v, mime, c) && v[c].0.len() == v[w].0.len()));
        }
    }
    assert(spec_resolve_default(v, mime) == Some(v[c].1));
}

/// First-wins law: adding X and then Y for a fresh MIME type leaves X
/// first, so resolution returns X.
pub proof fn law_first_wins_on_add(
    v: Seq<(Seq<u8>, Seq<Seq<u8>>)>,
    mime: Seq<u8>,
    x: Seq<u8>,
    y: Seq<u8>,
)
    requires
        sorted_keys(v),
        !has_key(v, mime),
    ensures
        ({
            let v2 = spec_append(spec_append(v, mime, x), mime, y);
            &&& spec_resolve_default(v2, mime) == Some(seq![x, y])
            &&& seq![x, y][0] == x
        }),
{
    lemma_spec_set_semantics(v, mime, seq![x]);
    let v1 = spec_append(v, mime, x);
    assert(v1 == spec_set(v, mime, seq![x]));
    assert(value_of(v1, mime) == seq![x]);
    let i = index_of_key(v1, mime);
    assert(v1[i].0 == mime);
    let v2 = spec_append(v1, mime, y);
    assert(v2 == v1.update(i, (mime, seq![x].push(y))));
    assert(seq![x].push(y) =~~= seq![x, y]);
    crate::assoc::lemma_same_keys_sorted(v1, v2);
    assert(v2[i].0 == mime);
    lemma_key_index_unique(v2, mime, i);
    assert(value_of(v2, mime) == seq![x, y]);
}

/// Override law: adding X and then setting Y for the same MIME type
/// discards X; resolution returns Y alone.
pub proof fn law_override_on_set(
    v: Seq<(Seq<u8>, Seq<Seq<u8>>)>,
    mime: Seq<u8>,
    x: Seq<u8>,
    y: Seq<u8>,
)
    requires
        sorted_keys(v),
        !has_key(v, mime),
    ensures
        ({
            let v2 = spec_set(spec_append(v, mime, x), mime, seq![y]);
            spec_resolve_default(v2, mime) == Some(seq![y])
        }),
{
    lemma_spec_set_semantics(v, mime, seq![x]);
    let v1 = spec_append(v, mime, x);
    lemma_spec_set_semantics(v1, mime, seq![y]);
    let v2 = spec_set(v1, mime, seq![y]);
    assert(value_of(v2, mime) == seq![y]);
}

/// Empty-prune law: removing the only handler of a MIME type leaves an
/// entry that resolves to nothing, and the serialized file drops its
/// key entirely.
pub proof fn law_empty_prune(v: Seq<(Seq<u8>, Seq<Seq<u8>>)>, mime: Seq<u8>, x: Seq<u8>)
    requires
        sorted_keys(v),
        !has_key(v, mime),
    ensures
        ({
            let v1 = spec_append(v, mime, x);
            let v2 = v1.update(index_of_key(v1, mime), (mime, value_of(v1, mime).remove(0)));
            &&& spec_resolve_default(v2, mime) == Some(Seq::<Seq<u8>>::empty())
            &&& !has_key(spec_prune(v2), mime)
        }),
{
    lemma_spec_set_semantics(v, mime, seq![x]);
    let v1 = spec_append(v, mime, x);
    assert(value_of(v1, mime) == seq![x]);
    let i = index_of_key(v1, mime);
    assert(v1[i].0 == mime);
    let v2 = v1.update(i, (mime, value_of(v1, mime).remove(0)));
    assert(seq![x].remove(0) =~~= Seq::<Seq<u8>>::empty());
    crate::assoc::lemma_same_keys_sorted(v1, v2);
    assert(v2[i].0 == mime);
    lemma_key_index_unique(v2, mime, i);
    assert(value_of(v2, mime) =~~= Seq::<Seq<u8>>::empty());
    lemma_prune_keys(v2, mime);
}

} // verus!
