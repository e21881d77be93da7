//! Ordered association lists from MIME types to handler lists.
//!
//! Entries are kept strictly sorted by key bytes, which both makes keys
//! unique and fixes the serialization order of the association file.

use crate::handler::{DesktopHandler, DesktopList};
use crate::mime_type::MimeType;
use crate::text;
use vstd::prelude::*;

verus! {

/// One key/value pair: a MIME type and its ordered handler list.
#[derive(Debug)]
pub struct Association {
    /// The MIME type (possibly a wildcard pattern) this entry is for.
    pub mime: MimeType,
    /// The handlers associated with it, default first.
    pub handlers: DesktopList,
}

impl View for Association {
    type V = (Seq<u8>, Seq<Seq<u8>>);

    open spec fn view(&self) -> (Seq<u8>, Seq<Seq<u8>>) {
        (self.mime@, self.handlers@)
    }
}

/// The views of a sequence of associations.
pub open spec fn assoc_views(s: Seq<Association>) -> Seq<(Seq<u8>, Seq<Seq<u8>>)> {
    s.map_values(|a: Association| a@)
}

/// Keys are strictly increasing, hence unique.
pub open spec fn sorted_keys(v: Seq<(Seq<u8>, Seq<Seq<u8>>)>) -> bool {
    forall|i: int, j: int| 0 <= i < j < v.len() ==> text::lex_lt(v[i].0, v[j].0)
}

/// Whether some entry has key `k`.
pub open spec fn has_key(v: Seq<(Seq<u8>, Seq<Seq<u8>>)>, k: Seq<u8>) -> bool {
    exists|i: int| 0 <= i < v.len() && v[i].0 == k
}

/// The index of the entry with key `k` (meaningful only when `has_key`).
pub open spec fn index_of_key(v: Seq<(Seq<u8>, Seq<Seq<u8>>)>, k: Seq<u8>) -> int {
    choose|i: int| 0 <= i < v.len() && v[i].0 == k
}

/// The value stored under key `k` (meaningful only when `has_key`).
pub open spec fn value_of(v: Seq<(Seq<u8>, Seq<Seq<u8>>)>, k: Seq<u8>) -> Seq<Seq<u8>> {
    v[index_of_key(v, k)].1
}

/// `v` with `k` bound to `val`: replaces the entry if the key exists, else
/// inserts it at its sorted position.
pub open spec fn spec_set(
    v: Seq<(Seq<u8>, Seq<Seq<u8>>)>,
    k: Seq<u8>,
    val: Seq<Seq<u8>>,
) -> Seq<(Seq<u8>, Seq<Seq<u8>>)>
    decreases v.len(),
{
    if v.len() == 0 {
        seq![(k, val)]
    } else if text::lex_lt(k, v[0].0) {
        seq![(k, val)] + v
    } else if k == v[0].0 {
        seq![(k, val)] + v.skip(1)
    } else {
        seq![v[0]] + spec_set(v.skip(1), k, val)
    }
}

/// `v` with the handlers `val` appended to the list under `k`, the entry
/// being created when absent.
pub open spec fn spec_append(
    v: Seq<(Seq<u8>, Seq<Seq<u8>>)>,
    k: Seq<u8>,
    h: Seq<u8>,
) -> Seq<(Seq<u8>, Seq<Seq<u8>>)> {
    if has_key(v, k) {
        v.update(index_of_key(v, k), (k, value_of(v, k).push(h)))
    } else {
        spec_set(v, k, seq![h])
    }
}

/// `v` without the entry under `k` (unchanged when the key is absent).
pub open spec fn spec_unset(v: Seq<(Seq<u8>, Seq<Seq<u8>>)>, k: Seq<u8>) -> Seq<
    (Seq<u8>, Seq<Seq<u8>>),
> {
    if has_key(v, k) {
        v.remove(index_of_key(v, k))
    } else {
        v
    }
}

/// Two lists with pointwise-equal keys are sorted together.
pub proof fn lemma_same_keys_sorted(
    a: Seq<(Seq<u8>, Seq<Seq<u8>>)>,
    b: Seq<(Seq<u8>, Seq<Seq<u8>>)>,
)
    requires
        sorted_keys(a),
        a.len() == b.len(),
        forall|i: int| 0 <= i < a.len() ==> a[i].0 == b[i].0,
    ensures
        sorted_keys(b),
{
    assert forall|i: int, j: int| 0 <= i < j < b.len() implies text::lex_lt(b[i].0, b[j].0) by {
        assert(a[i].0 == b[i].0);
        assert(a[j].0 == b[j].0);
    }
}

/// In a sorted list the index of a present key is unique.
pub proof fn lemma_key_index_unique(v: Seq<(Seq<u8>, Seq<Seq<u8>>)>, k: Seq<u8>, i: int)
    requires
        sorted_keys(v),
        0 <= i < v.len(),
        v[i].0 == k,
    ensures
        has_key(v, k),
        index_of_key(v, k) == i,
        value_of(v, k) == v[i].1,
{
    assert(has_key(v, k));
    let j = index_of_key(v, k);
    if j != i {
        if j < i {
            text::lemma_lex_trichotomy(v[j].0, v[i].0);
        } else {
            text::lemma_lex_trichotomy(v[i].0, v[j].0);
        }
    }
}

proof fn lemma_spec_set_skip(v: Seq<(Seq<u8>, Seq<Seq<u8>>)>, k: Seq<u8>, val: Seq<Seq<u8>>, i: int)
    requires
        0 <= i <= v.len(),
        forall|j: int| 0 <= j < i ==> text::lex_lt(v[j].0, k),
    ensures
        spec_set(v, k, val) == v.take(i) + spec_set(v.skip(i), k, val),
    decreases i,
{
    if i == 0 {
        assert(v.skip(0) =~~= v);
        assert(v.take(0) + spec_set(v, k, val) =~~= spec_set(v, k, val));
    } else {
        assert(text::lex_lt(v[0].0, k));
        text::lemma_lex_trichotomy(k, v[0].0);
        assert(spec_set(v, k, val) == seq![v[0]] + spec_set(v.skip(1), k, val));
        assert forall|j: int| 0 <= j < i - 1 implies text::lex_lt(v.skip(1)[j].0, k) by {
            assert(v.skip(1)[j] == v[j + 1]);
        }
        lemma_spec_set_skip(v.skip(1), k, val, i - 1);
        assert(v.skip(1).take(i - 1) =~~= v.take(i).skip(1));
        assert(v.skip(1).skip(i - 1) =~~= v.skip(i));
        assert(seq![v[0]] + (v.take(i).skip(1) + spec_set(v.skip(i), k, val)) =~~= v.take(i)
            + spec_set(v.skip(i), k, val));
    }
}

/// Setting a fresh key splices it in at its sorted position `i`.
pub proof fn lemma_spec_set_insert(
    v: Seq<(Seq<u8>, Seq<Seq<u8>>)>,
    k: Seq<u8>,
    val: Seq<Seq<u8>>,
    i: int,
)
    requires
        0 <= i <= v.len(),
        forall|j: int| 0 <= j < i ==> text::lex_lt(v[j].0, k),
        i < v.len() ==> text::lex_lt(k, v[i].0),
    ensures
        spec_set(v, k, val) == v.insert(i, (k, val)),
{
    lemma_spec_set_skip(v, k, val, i);
    if i == v.len() {
        assert(v.skip(i) =~~= Seq::<(Seq<u8>, Seq<Seq<u8>>)>::empty());
        assert(spec_set(v.skip(i), k, val) =~~= seq![(k, val)]);
    } else {
        assert(v.skip(i)[0] == v[i]);
        assert(spec_set(v.skip(i), k, val) == seq![(k, val)] + v.skip(i));
    }
    assert(v.take(i) + (seq![(k, val)] + v.skip(i)) =~~= v.insert(i, (k, val)));
}

/// Setting an existing key replaces its entry in place.
pub proof fn lemma_spec_set_update(
    v: Seq<(Seq<u8>, Seq<Seq<u8>>)>,
    k: Seq<u8>,
    val: Seq<Seq<u8>>,
    i: int,
)
    requires
        0 <= i < v.len(),
        forall|j: int| 0 <= j < i ==> text::lex_lt(v[j].0, k),
        v[i].0 == k,
    ensures
        spec_set(v, k, val) == v.update(i, (k, val)),
{
    lemma_spec_set_skip(v, k, val, i);
    assert(v.skip(i)[0] == v[i]);
    text::lemma_lex_trichotomy(k, v[i].0);
    assert(spec_set(v.skip(i), k, val) == seq![(k, val)] + v.skip(i).skip(1));
    assert(v.skip(i).skip(1) =~~= v.skip(i + 1));
    assert(v.take(i) + (seq![(k, val)] + v.skip(i + 1)) =~~= v.update(i, (k, val)));
}


/// `v` without its empty-list entries.
pub open spec fn spec_prune(v: Seq<(Seq<u8>, Seq<Seq<u8>>)>) -> Seq<(Seq<u8>, Seq<Seq<u8>>)>
    decreases v.len(),
{
    if v.len() == 0 {
        Seq::empty()
    } else if v[0].1.len() > 0 {
        seq![v[0]] + spec_prune(v.skip(1))
    } else {
        spec_prune(v.skip(1))
    }
}

/// Pruning a store whose lists are all nonempty changes nothing.
pub proof fn lemma_prune_id(v: Seq<(Seq<u8>, Seq<Seq<u8>>)>)
    requires
        forall|i: int| 0 <= i < v.len() ==> (#[trigger] v[i]).1.len() > 0,
    ensures
        spec_prune(v) == v,
    decreases v.len(),
{
    if v.len() == 0 {
        assert(spec_prune(v) =~~= v);
    } else {
        assert forall|i: int| 0 <= i < v.skip(1).len() implies (#[trigger] v.skip(1)[i]).1.len()
            > 0 by {
            assert(v.skip(1)[i] == v[i + 1]);
        }
        lemma_prune_id(v.skip(1));
        assert(spec_prune(v) =~~= v);
    }
}

/// Pruning keeps each entry of the result an entry of the input, in
/// order, so sortedness survives.
pub proof fn lemma_prune_sorted(v: Seq<(Seq<u8>, Seq<Seq<u8>>)>)
    requires
        sorted_keys(v),
    ensures
        sorted_keys(spec_prune(v)),
        forall|x: (Seq<u8>, Seq<Seq<u8>>)| spec_prune(v).contains(x) ==> v.contains(x),
    decreases v.len(),
{
    if v.len() > 0 {
        assert forall|i: int, j: int| 0 <= i < j < v.skip(1).len() implies text::lex_lt(
            (#[trigger] v.skip(1)[i]).0,
            (#[trigger] v.skip(1)[j]).0,
        ) by {
            assert(v.skip(1)[i] == v[i + 1]);
            assert(v.skip(1)[j] == v[j + 1]);
        }
        lemma_prune_sorted(v.skip(1));
        let p = spec_prune(v);
        let p1 = spec_prune(v.skip(1));
        assert forall|x: (Seq<u8>, Seq<Seq<u8>>)| p.contains(x) implies v.contains(x) by {
            let i = choose|i: int| 0 <= i < p.len() && p[i] == x;
            if v[0].1.len() > 0 && i == 0 {
                assert(v[0] == x);
            } else {
                let i1 = if v[0].1.len() > 0 { i - 1 } else { i };
                assert(p1[i1] == x);
                assert(p1.contains(x));
                assert(v.skip(1).contains(x));
                let k = choose|k: int| 0 <= k < v.skip(1).len() && v.skip(1)[k] == x;
                assert(v[k + 1] == x);
            }
        }
        if v[0].1.len() > 0 {
            assert forall|i: int, j: int| 0 <= i < j < p.len() implies text::lex_lt(
                (#[trigger] p[i]).0,
                (#[trigger] p[j]).0,
            ) by {
                assert(p[j] == p1[j - 1]);
                assert(p1.contains(p1[j - 1]));
                assert(v.skip(1).contains(p[j]));
                let k = choose|k: int| 0 <= k < v.skip(1).len() && v.skip(1)[k] == p[j];
                assert(v[k + 1] == p[j]);
                if i == 0 {
                    assert(p[i] == v[0]);
                } else {
                    assert(p[i] == p1[i - 1]);
                }
            }
        }
    }
}


/// Map semantics of `spec_set` on a sorted list: the key is bound to the
/// value, every other binding is untouched, order stays sorted, and no
/// key appears from nowhere.
pub proof fn lemma_spec_set_semantics(v: Seq<(Seq<u8>, Seq<Seq<u8>>)>, k: Seq<u8>, val: Seq<Seq<u8>>)
    requires
        sorted_keys(v),
    ensures
        sorted_keys(spec_set(v, k, val)),
        has_key(spec_set(v, k, val), k),
        value_of(spec_set(v, k, val), k) == val,
        forall|k2: Seq<u8>| k2 != k ==> #[trigger] has_key(spec_set(v, k, val), k2) == has_key(v, k2),
        forall|k2: Seq<u8>|
            k2 != k && has_key(v, k2) ==> #[trigger] value_of(spec_set(v, k, val), k2)
                == value_of(v, k2),
    decreases v.len(),
{
    let r = spec_set(v, k, val);
    if v.len() == 0 {
        assert(r == seq![(k, val)]);
        assert(r[0].0 == k);
        lemma_key_index_unique(r, k, 0);
        assert forall|k2: Seq<u8>| k2 != k implies #[trigger] has_key(r, k2) == has_key(
            v,
            k2,
        ) by {
            if has_key(r, k2) {
                let i = choose|i: int| 0 <= i < r.len() && r[i].0 == k2;
                assert(r[0].0 == k);
            }
            if has_key(v, k2) {
                let i = choose|i: int| 0 <= i < v.len() && v[i].0 == k2;
            }
        }
    } else if text::lex_lt(k, v[0].0) {
        assert(r == seq![(k, val)] + v);
        assert forall|a: int, b: int| 0 <= a < b < r.len() implies text::lex_lt(
            r[a].0,
            r[b].0,
        ) by {
            if a == 0 {
                assert(r[b].0 == v[b - 1].0);
                if b > 1 {
                    text::lemma_lex_transitive(k, v[0].0, v[b - 1].0);
                }
            } else {
                assert(r[a].0 == v[a - 1].0);
                assert(r[b].0 == v[b - 1].0);
            }
        }
        assert(r[0].0 == k);
        lemma_key_index_unique(r, k, 0);
        assert forall|k2: Seq<u8>| k2 != k implies #[trigger] has_key(r, k2) == has_key(
            v,
            k2,
        ) by {
            if has_key(r, k2) {
                let i = choose|i: int| 0 <= i < r.len() && r[i].0 == k2;
                assert(i > 0);
                assert(v[i - 1].0 == k2);
            }
            if has_key(v, k2) {
                let i = choose|i: int| 0 <= i < v.len() && v[i].0 == k2;
                assert(r[i + 1].0 == k2);
            }
        }
        assert forall|k2: Seq<u8>| k2 != k && has_key(v, k2) implies #[trigger] value_of(
            r,
            k2,
        ) == value_of(v, k2) by {
            let i = index_of_key(v, k2);
            assert(v[i].0 == k2);
            assert(r[i + 1].0 == k2);
            lemma_key_index_unique(r, k2, i + 1);
        }
    } else if k == v[0].0 {
        assert(r == seq![(k, val)] + v.skip(1));
        assert forall|a: int, b: int| 0 <= a < b < r.len() implies text::lex_lt(
            r[a].0,
            r[b].0,
        ) by {
            if a == 0 {
                assert(r[b].0 == v.skip(1)[b - 1].0);
                assert(v.skip(1)[b - 1] == v[b]);
            } else {
                assert(r[a].0 == v[a].0);
                assert(r[b].0 == v[b].0);
            }
        }
        assert(r[0].0 == k);
        lemma_key_index_unique(r, k, 0);
        assert forall|k2: Seq<u8>| k2 != k implies #[trigger] has_key(r, k2) == has_key(
            v,
            k2,
        ) by {
            if has_key(r, k2) {
                let i = choose|i: int| 0 <= i < r.len() && r[i].0 == k2;
                assert(i > 0);
                assert(v[i].0 == k2);
            }
            if has_key(v, k2) {
                let i = choose|i: int| 0 <= i < v.len() && v[i].0 == k2;
                assert(i > 0);
                assert(r[i].0 == k2);
            }
        }
        assert forall|k2: Seq<u8>| k2 != k && has_key(v, k2) implies #[trigger] value_of(
            r,
            k2,
        ) == value_of(v, k2) by {
            let i = index_of_key(v, k2);
            assert(v[i].0 == k2);
            assert(i > 0);
            assert(r[i].0 == k2);
            lemma_key_index_unique(r, k2, i);
        }
    } else {
        text::lemma_lex_trichotomy(k, v[0].0);
        assert(text::lex_lt(v[0].0, k));
        assert forall|a: int, b: int| 0 <= a < b < v.skip(1).len() implies text::lex_lt(
            v.skip(1)[a].0,
            v.skip(1)[b].0,
        ) by {
            assert(v.skip(1)[a] == v[a + 1]);
            assert(v.skip(1)[b] == v[b + 1]);
        }
        lemma_spec_set_semantics(v.skip(1), k, val);
        let r1 = spec_set(v.skip(1), k, val);
        assert(r == seq![v[0]] + r1);
        // Every key of the rewritten tail is either `k` or an old key of
        // the tail, so the head key stays below all of them.
        assert forall|b: int| 0 <= b < r1.len() implies text::lex_lt(v[0].0, r1[b].0) by {
            if r1[b].0 == k {
            } else {
                lemma_key_index_unique(r1, r1[b].0, b);
                assert(has_key(r1, r1[b].0));
                assert(has_key(v.skip(1), r1[b].0));
                let i = choose|i: int| 0 <= i < v.skip(1).len() && v.skip(1)[i].0 == r1[b].0;
                assert(v.skip(1)[i] == v[i + 1]);
                assert(text::lex_lt(v[0].0, v[i + 1].0));
            }
        }
        assert forall|a: int, b: int| 0 <= a < b < r.len() implies text::lex_lt(
            r[a].0,
            r[b].0,
        ) by {
            if a == 0 {
                assert(r[b].0 == r1[b - 1].0);
            } else {
                assert(r[a].0 == r1[a - 1].0);
                assert(r[b].0 == r1[b - 1].0);
            }
        }
        assert(has_key(r1, k));
        let ik = index_of_key(r1, k);
        assert(r1[ik].0 == k);
        assert(r[ik + 1].0 == k);
        lemma_key_index_unique(r, k, ik + 1);
        assert(value_of(r, k) == r1[ik].1);
        assert forall|k2: Seq<u8>| k2 != k implies #[trigger] has_key(r, k2) == has_key(
            v,
            k2,
        ) by {
            if has_key(r, k2) {
                let i = choose|i: int| 0 <= i < r.len() && r[i].0 == k2;
                if i == 0 {
                    assert(v[0].0 == k2);
                } else {
                    assert(r1[i - 1].0 == k2);
                    assert(has_key(r1, k2));
                    assert(has_key(v.skip(1), k2));
                    let j = choose|j: int| 0 <= j < v.skip(1).len() && v.skip(1)[j].0 == k2;
                    assert(v[j + 1].0 == k2);
                }
            }
            if has_key(v, k2) {
                let i = choose|i: int| 0 <= i < v.len() && v[i].0 == k2;
                if i == 0 {
                    assert(r[0].0 == k2);
                } else {
                    assert(v.skip(1)[i - 1].0 == k2);
                    assert(has_key(v.skip(1), k2));
                    assert(has_key(r1, k2));
                    let j = choose|j: int| 0 <= j < r1.len() && r1[j].0 == k2;
                    assert(r[j + 1].0 == k2);
                }
            }
        }
        assert forall|k2: Seq<u8>| k2 != k && has_key(v, k2) implies #[trigger] value_of(
            r,
            k2,
        ) == value_of(v, k2) by {
            let i = index_of_key(v, k2);
            assert(v[i].0 == k2);
            if i == 0 {
                assert(r[0].0 == k2);
                lemma_key_index_unique(r, k2, 0);
                lemma_key_index_unique(v, k2, 0);
            } else {
                assert(v.skip(1)[i - 1] == v[i]);
                lemma_key_index_unique(v.skip(1), k2, i - 1);
                assert(has_key(v.skip(1), k2));
                assert(value_of(v.skip(1), k2) == v[i].1);
                assert(value_of(r1, k2) == value_of(v.skip(1), k2));
                assert(has_key(r1, k2));
                let j = index_of_key(r1, k2);
                assert(r1[j].0 == k2);
                assert(r[j + 1].0 == k2);
                lemma_key_index_unique(r, k2, j + 1);
                lemma_key_index_unique(v, k2, i);
            }
        }
    }
}

/// A key survives pruning exactly when its list is nonempty.
pub proof fn lemma_prune_keys(v: Seq<(Seq<u8>, Seq<Seq<u8>>)>, k: Seq<u8>)
    requires
        sorted_keys(v),
    ensures
        has_key(spec_prune(v), k) <==> (has_key(v, k) && value_of(v, k).len() > 0),
        has_key(spec_prune(v), k) ==> value_of(spec_prune(v), k) == value_of(v, k),
    decreases v.len(),
{
    lemma_prune_sorted(v);
    let p = spec_prune(v);
    if v.len() == 0 {
        if has_key(p, k) {
            let i = choose|i: int| 0 <= i < p.len() && p[i].0 == k;
        }
        if has_key(v, k) {
            let i = choose|i: int| 0 <= i < v.len() && v[i].0 == k;
        }
    } else {
        assert forall|a: int, b: int| 0 <= a < b < v.skip(1).len() implies text::lex_lt(
            v.skip(1)[a].0,
            v.skip(1)[b].0,
        ) by {
            assert(v.skip(1)[a] == v[a + 1]);
            assert(v.skip(1)[b] == v[b + 1]);
        }
        lemma_prune_keys(v.skip(1), k);
        lemma_prune_sorted(v.skip(1));
        let p1 = spec_prune(v.skip(1));
        if v[0].0 == k {
            lemma_key_index_unique(v, k, 0);
            // The tail cannot hold `k` again.
            assert(!has_key(v.skip(1), k)) by {
                if has_key(v.skip(1), k) {
                    let i = choose|i: int| 0 <= i < v.skip(1).len() && v.skip(1)[i].0 == k;
                    assert(v[i + 1].0 == k);
                    text::lemma_lex_trichotomy(v[0].0, v[i + 1].0);
                }
            }
            if v[0].1.len() > 0 {
                assert(p == seq![v[0]] + p1);
                assert(p[0].0 == k);
                lemma_key_index_unique(p, k, 0);
            } else {
                assert(p == p1);
            }
        } else {
            // `k`, if present anywhere, sits in the tail.
            assert(has_key(v, k) == has_key(v.skip(1), k)) by {
                if has_key(v, k) {
                    let i = choose|i: int| 0 <= i < v.len() && v[i].0 == k;
                    assert(i > 0);
                    assert(v.skip(1)[i - 1].0 == k);
                }
                if has_key(v.skip(1), k) {
                    let i = choose|i: int| 0 <= i < v.skip(1).len() && v.skip(1)[i].0 == k;
                    assert(v[i + 1].0 == k);
                }
            }
            if has_key(v, k) {
                let i = index_of_key(v, k);
                assert(v[i].0 == k);
                assert(i > 0);
                assert(v.skip(1)[i - 1] == v[i]);
                lemma_key_index_unique(v.skip(1), k, i - 1);
            }
            if v[0].1.len() > 0 {
                assert(p == seq![v[0]] + p1);
                assert(has_key(p, k) == has_key(p1, k)) by {
                    if has_key(p, k) {
                        let i = choose|i: int| 0 <= i < p.len() && p[i].0 == k;
                        assert(i > 0);
                        assert(p1[i - 1].0 == k);
                    }
                    if has_key(p1, k) {
                        let i = choose|i: int| 0 <= i < p1.len() && p1[i].0 == k;
                        assert(p[i + 1].0 == k);
                    }
                }
                if has_key(p1, k) {
                    let i = index_of_key(p1, k);
                    assert(p1[i].0 == k);
                    assert(p[i + 1].0 == k);
                    lemma_key_index_unique(p, k, i + 1);
                }
            } else {
                assert(p == p1);
            }
        }
    }
}

/// A sorted association list from MIME types to handler lists.
#[derive(Debug)]
pub struct AssocList {
    entries: Vec<Association>,
}

impl View for AssocList {
    type V = Seq<(Seq<u8>, Seq<Seq<u8>>)>;

    closed spec fn view(&self) -> Seq<(Seq<u8>, Seq<Seq<u8>>)> {
        assoc_views(self.entries@)
    }
}

impl AssocList {
    /// Keys are sorted and unique.
    pub open spec fn wf(&self) -> bool {
        sorted_keys(self@)
    }

    /// An empty list.
    pub fn empty() -> (r: AssocList)
        ensures
            r@ == Seq::<(Seq<u8>, Seq<Seq<u8>>)>::empty(),
            r.wf(),
    {
        let r = AssocList { entries: Vec::new() };
        proof {
            assert(r@ =~~= Seq::<(Seq<u8>, Seq<Seq<u8>>)>::empty());
        }
        r
    }

    /// Number of entries.
    pub fn len(&self) -> (r: usize)
        ensures
            r == self@.len(),
    {
        self.entries.len()
    }

    /// The entry at position `i`.
    pub fn entry_at(&self, i: usize) -> (r: &Association)
        requires
            i < self@.len(),
        ensures
            r@ == self@[i as int],
    {
        &self.entries[i]
    }

    /// Take the entry at position `i` out of the list.
    ///
    /// This may drop below another key later; callers re-establish `wf`
    /// when they put an entry back.
    pub fn remove_at(&mut self, i: usize) -> (r: Association)
        requires
            i < old(self)@.len(),
        ensures
            r@ == old(self)@[i as int],
            final(self)@ == old(self)@.remove(i as int),
    {
        let r = self.entries.remove(i);
        proof {
            assert(self@ =~~= old(self)@.remove(i as int));
        }
        r
    }

    /// Put an entry back at position `i`.
    pub fn insert_at(&mut self, i: usize, a: Association)
        requires
            i <= old(self)@.len(),
        ensures
            final(self)@ == old(self)@.insert(i as int, a@),
    {
        self.entries.insert(i, a);
        proof {
            assert(self@ =~~= old(self)@.insert(i as int, self.entries@[i as int]@));
        }
    }

    /// The position of `key`, or `None` when absent.
    pub fn find(&self, key: &MimeType) -> (r: Option<usize>)
        ensures
            match r {
                Some(i) => i < self@.len() && self@[i as int].0 == key@,
                None => !has_key(self@, key@),
            },
    {
        let mut i: usize = 0;
        while i < self.entries.len()
            invariant
                i <= self.entries.len(),
                forall|j: int| 0 <= j < i ==> self@[j].0 != key@,
            decreases self.entries.len() - i,
        {
            if self.entries[i].mime.eq_mime(key) {
                return Some(i);
            }
            i += 1;
        }
        proof {
            if has_key(self@, key@) {
                let j = choose|j: int| 0 <= j < self@.len() && self@[j].0 == key@;
            }
        }
        None
    }

    /// The handler list under `key`, when present.
    pub fn get(&self, key: &MimeType) -> (r: Option<&DesktopList>)
        requires
            self.wf(),
        ensures
            has_key(self@, key@) ==> (r matches Some(l) && l@ == value_of(self@, key@)),
            !has_key(self@, key@) ==> r is None,
    {
        match self.find(key) {
            Some(i) => {
                proof {
                    lemma_key_index_unique(self@, key@, i as int);
                }
                Some(&self.entries[i].handlers)
            },
            None => None,
        }
    }

    /// The first position whose key is not below `key`.
    fn lower_bound(&self, key: &MimeType) -> (r: usize)
        ensures
            r <= self@.len(),
            forall|j: int| 0 <= j < r ==> text::lex_lt(self@[j].0, key@),
            r < self@.len() ==> !text::lex_lt(self@[r as int].0, key@),
    {
        let mut i: usize = 0;
        while i < self.entries.len()
            invariant
                i <= self.entries.len(),
                forall|j: int| 0 <= j < i ==> text::lex_lt(self@[j].0, key@),
            decreases self.entries.len() - i,
        {
            proof {
                assert(self@[i as int].0 == self.entries@[i as int].mime@);
            }
            if !text::bytes_lt(self.entries[i].mime.as_bytes(), key.as_bytes()) {
                return i;
            }
            i += 1;
        }
        i
    }

    /// Bind `key` to `val`, replacing any previous binding.
    pub fn set(&mut self, key: MimeType, val: DesktopList)
        requires
            old(self).wf(),
        ensures
            final(self)@ == spec_set(old(self)@, key@, val@),
            final(self).wf(),
    {
        let ghost v = self@;
        let ghost k = key@;
        let i = self.lower_bound(&key);
        // Every key before `i` is below `key`, and if `i` is in range the
        // key there is not below `key`.
        if i < self.entries.len() && self.entries[i].mime.eq_mime(&key) {
            proof {
                lemma_spec_set_update(v, k, val@, i as int);
            }
            let _ = self.entries.remove(i);
            self.entries.insert(i, Association { mime: key, handlers: val });
            proof {
                assert(self@ =~~= v.update(i as int, (k, self.entries@[i as int].handlers@)));
                assert(v[i as int].0 == k);
                assert forall|j: int| 0 <= j < self@.len() implies self@[j].0 == v[j].0 by {}
                assert forall|a: int, b: int| 0 <= a < b < self@.len() implies text::lex_lt(
                    self@[a].0,
                    self@[b].0,
                ) by {
                    assert(self@[a].0 == v[a].0);
                    assert(self@[b].0 == v[b].0);
                }
            }
        } else {
            proof {
                if i < self@.len() {
                    text::lemma_lex_trichotomy(k, self@[i as int].0);
                }
                lemma_spec_set_insert(v, k, val@, i as int);
            }
            self.entries.insert(i, Association { mime: key, handlers: val });
            proof {
                assert(self@ =~~= v.insert(i as int, (k, self.entries@[i as int].handlers@)));
                assert forall|a: int, b: int| 0 <= a < b < self@.len() implies text::lex_lt(
                    self@[a].0,
                    self@[b].0,
                ) by {
                    let ii = i as int;
                    if a < ii && b == ii {
                        // below the insertion point keys are below `key`
                    } else if a == ii && b > ii {
                        // sortedness of the old list carries `key` below
                        // every later key
                        assert(self@[b].0 == v[b - 1].0);
                        if b - 1 > ii {
                            text::lemma_lex_transitive(k, v[ii].0, v[b - 1].0);
                        }
                    } else if a < ii && b > ii {
                        assert(v[a].0 == self@[a].0);
                        assert(v[b - 1].0 == self@[b].0);
                    } else if a > ii && b > ii {
                        assert(v[a - 1].0 == self@[a].0);
                        assert(v[b - 1].0 == self@[b].0);
                    }
                }
            }
        }
    }

    /// Drop every entry whose handler list is empty.
    pub fn retain_nonempty(&mut self)
        requires
            old(self).wf(),
        ensures
            final(self)@ == spec_prune(old(self)@),
            final(self).wf(),
    {
        let ghost v = self@;
        let mut out: Vec<Association> = Vec::new();
        while self.entries.len() > 0
            invariant
                v == old(self)@,
                assoc_views(out@) + spec_prune(self@) =~~= spec_prune(v),
            decreases self.entries.len(),
        {
            let ghost pre = self@;
            let a = self.entries.remove(0);
            proof {
                assert(self@ =~~= pre.skip(1));
                assert(a@ == pre[0]);
            }
            if a.handlers.len() > 0 {
                let ghost prev_out = out@;
                out.push(a);
                proof {
                    assert(assoc_views(out@) =~~= assoc_views(prev_out) + seq![pre[0]]);
                    assert(spec_prune(pre) =~~= seq![pre[0]] + spec_prune(pre.skip(1)));
                    assert(assoc_views(out@) + spec_prune(self@) =~~= spec_prune(v));
                }
            }
        }
        proof {
            assert(self@ =~~= Seq::<(Seq<u8>, Seq<Seq<u8>>)>::empty());
            assert(spec_prune(self@) =~~= Seq::<(Seq<u8>, Seq<Seq<u8>>)>::empty());
        }
        self.entries = out;
        proof {
            assert(self@ =~~= spec_prune(v));
            lemma_prune_sorted(v);
        }
    }

    /// Append one handler to the list under `key`, creating the entry
    /// when absent; duplicates are kept.
    pub fn append_value(&mut self, key: &MimeType, h: &DesktopHandler)
        requires
            old(self).wf(),
        ensures
            final(self)@ == spec_append(old(self)@, key@, h@),
            final(self).wf(),
    {
        let ghost v = self@;
        match self.find(key) {
            Some(i) => {
                proof {
                    lemma_key_index_unique(v, key@, i as int);
                }
                let mut a = self.remove_at(i);
                a.handlers.push_back(h.duplicate());
                self.insert_at(i, a);
                proof {
                    assert(self@ =~~= spec_append(v, key@, h@));
                    lemma_same_keys_sorted(v, self@);
                }
            },
            None => {
                self.set(key.duplicate(), DesktopList::singleton(h.duplicate()));
                proof {
                    assert(spec_append(v, key@, h@) == spec_set(v, key@, seq![h@]));
                    assert(self@ =~~= spec_append(v, key@, h@));
                }
            },
        }
    }

    /// Remove the entry under `key`, handing back its handler list.
    pub fn unset(&mut self, key: &MimeType) -> (r: Option<DesktopList>)
        requires
            old(self).wf(),
        ensures
            final(self)@ == spec_unset(old(self)@, key@),
            final(self).wf(),
            has_key(old(self)@, key@) ==> (r matches Some(l) && l@ == value_of(
                old(self)@,
                key@,
            )),
            !has_key(old(self)@, key@) ==> r is None,
    {
        let ghost v = self@;
        match self.find(key) {
            Some(i) => {
                proof {
                    lemma_key_index_unique(v, key@, i as int);
                }
                let a = self.entries.remove(i);
                proof {
                    assert(self@ =~~= v.remove(i as int));
                    assert forall|a2: int, b: int| 0 <= a2 < b < self@.len() implies text::lex_lt(
                        self@[a2].0,
                        self@[b].0,
                    ) by {
                        let ii = i as int;
                        assert(self@[a2].0 == (if a2 < ii {
                            v[a2].0
                        } else {
                            v[a2 + 1].0
                        }));
                        assert(self@[b].0 == (if b < ii {
                            v[b].0
                        } else {
                            v[b + 1].0
                        }));
                    }
                }
                Some(a.handlers)
            },
            None => None,
        }
    }
}

} // verus!
