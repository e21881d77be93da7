//! Byte-string helpers: equality, lexicographic order, and searching.
//!
//! All domain strings in this crate (MIME types, handler names, exec
//! templates) are ASCII byte strings held in `Vec<u8>`.

use vstd::prelude::*;

verus! {

/// `*` — in a glob pattern, matches any run of bytes.
pub const STAR: u8 = 42;

/// `?` — in a glob pattern, matches exactly one byte.
pub const QMARK: u8 = 63;

/// `/` — separates a MIME type from its subtype.
pub const SLASH: u8 = 47;

/// `;` — terminates each handler in a serialized handler list.
pub const SEMICOLON: u8 = 59;

/// `=` — separates key and value in an association file line.
pub const EQUALS: u8 = 61;

/// Line feed.
pub const LF: u8 = 10;

/// Carriage return.
pub const CR: u8 = 13;

/// Space.
pub const SPACE: u8 = 32;

/// `%` — starts a field code in a desktop-entry exec template.
pub const PERCENT: u8 = 37;

/// `[` — opens a section header in an association file.
pub const LBRACKET: u8 = 91;

/// `]` — closes a section header in an association file.
pub const RBRACKET: u8 = 93;

/// Strict lexicographic order on byte strings.
pub open spec fn lex_lt(a: Seq<u8>, b: Seq<u8>) -> bool
    decreases a.len(),
{
    if b.len() == 0 {
        false
    } else if a.len() == 0 {
        true
    } else if a[0] < b[0] {
        true
    } else if a[0] > b[0] {
        false
    } else {
        lex_lt(a.skip(1), b.skip(1))
    }
}

/// Exactly one of `a < b`, `a == b`, `b < a` holds.
pub proof fn lemma_lex_trichotomy(a: Seq<u8>, b: Seq<u8>)
    ensures
        lex_lt(a, b) || lex_lt(b, a) || a == b,
        lex_lt(a, b) ==> !lex_lt(b, a) && a != b,
        lex_lt(b, a) ==> !lex_lt(a, b) && a != b,
    decreases a.len(),
{
    if a.len() == 0 && b.len() == 0 {
        assert(a =~= b);
    } else if a.len() > 0 && b.len() > 0 && a[0] == b[0] {
        lemma_lex_trichotomy(a.skip(1), b.skip(1));
        if a.skip(1) == b.skip(1) {
            assert forall|i: int| 0 <= i < a.len() implies a[i] == b[i] by {
                if i > 0 {
                    assert(a.skip(1)[i - 1] == b.skip(1)[i - 1]);
                }
            }
            assert(a =~= b);
        }
        if a == b {
            assert(a.skip(1) =~= b.skip(1));
        }
    }
}

/// Lexicographic order is transitive.
pub proof fn lemma_lex_transitive(a: Seq<u8>, b: Seq<u8>, c: Seq<u8>)
    requires
        lex_lt(a, b),
        lex_lt(b, c),
    ensures
        lex_lt(a, c),
    decreases a.len(),
{
    if a.len() > 0 && b.len() > 0 && c.len() > 0 && a[0] == b[0] && b[0] == c[0] {
        lemma_lex_transitive(a.skip(1), b.skip(1), c.skip(1));
    }
}

/// Compare the suffixes of two byte strings starting at `i`.
fn lex_lt_from(a: &Vec<u8>, b: &Vec<u8>, i: usize) -> (r: bool)
    requires
        i <= a.len(),
        i <= b.len(),
    ensures
        r == lex_lt(a@.skip(i as int), b@.skip(i as int)),
    decreases a.len() - i,
{
    if i == b.len() {
        false
    } else if i == a.len() {
        true
    } else if a[i] < b[i] {
        true
    } else if a[i] > b[i] {
        false
    } else {
        let r = lex_lt_from(a, b, i + 1);
        proof {
            assert(a@.skip(i as int).skip(1) =~= a@.skip(i as int + 1));
            assert(b@.skip(i as int).skip(1) =~= b@.skip(i as int + 1));
        }
        r
    }
}

/// Whether `a` comes strictly before `b` in lexicographic byte order.
pub fn bytes_lt(a: &Vec<u8>, b: &Vec<u8>) -> (r: bool)
    ensures
        r == lex_lt(a@, b@),
{
    proof {
        assert(a@.skip(0) =~= a@);
        assert(b@.skip(0) =~= b@);
    }
    lex_lt_from(a, b, 0)
}

/// Whether two byte strings hold the same bytes.
pub fn bytes_eq(a: &Vec<u8>, b: &Vec<u8>) -> (r: bool)
    ensures
        r == (a@ == b@),
{
    if a.len() != b.len() {
        return false;
    }
    let mut i: usize = 0;
    while i < a.len()
        invariant
            i <= a.len(),
            a.len() == b.len(),
            forall|j: int| 0 <= j < i ==> a@[j] == b@[j],
        decreases a.len() - i,
    {
        if a[i] != b[i] {
            return false;
        }
        i += 1;
    }
    proof {
        assert(a@ =~= b@);
    }
    true
}

/// Copy a byte string.
pub fn clone_bytes(v: &Vec<u8>) -> (r: Vec<u8>)
    ensures
        r@ == v@,
{
    let mut r: Vec<u8> = Vec::new();
    let mut i: usize = 0;
    while i < v.len()
        invariant
            i <= v.len(),
            r@ =~= v@.take(i as int),
        decreases v.len() - i,
    {
        r.push(v[i]);
        i += 1;
    }
    proof {
        assert(v@.take(v.len() as int) =~= v@);
    }
    r
}

/// Whether the byte `b` occurs in `s`.
pub fn contains_byte(s: &Vec<u8>, b: u8) -> (r: bool)
    ensures
        r == s@.contains(b),
{
    let mut i: usize = 0;
    while i < s.len()
        invariant
            i <= s.len(),
            forall|j: int| 0 <= j < i ==> s@[j] != b,
        decreases s.len() - i,
    {
        if s[i] == b {
            return true;
        }
        i += 1;
    }
    false
}

/// Append all bytes of `src` to `dst`.
pub fn push_bytes(dst: &mut Vec<u8>, src: &Vec<u8>)
    ensures
        final(dst)@ == old(dst)@ + src@,
{
    let mut i: usize = 0;
    while i < src.len()
        invariant
            i <= src.len(),
            dst@ =~= old(dst)@ + src@.take(i as int),
        decreases src.len() - i,
    {
        dst.push(src[i]);
        i += 1;
    }
    proof {
        assert(src@.take(src.len() as int) =~= src@);
        assert(dst@ =~= old(dst)@ + src@);
    }
}

/// Split `s` at every occurrence of `sep`. The result always has one more
/// segment than `s` has separators; separators themselves are dropped.
pub open spec fn split_on(s: Seq<u8>, sep: u8) -> Seq<Seq<u8>>
    decreases s.len(),
{
    if s.len() == 0 {
        seq![Seq::<u8>::empty()]
    } else if s[0] == sep {
        seq![Seq::<u8>::empty()] + split_on(s.skip(1), sep)
    } else {
        let rest = split_on(s.skip(1), sep);
        seq![seq![s[0]] + rest[0]] + rest.skip(1)
    }
}

/// The views of a sequence of byte vectors.
pub open spec fn views(v: Seq<Vec<u8>>) -> Seq<Seq<u8>> {
    v.map_values(|x: Vec<u8>| x@)
}

/// `split_on` never returns an empty segment list.
pub proof fn lemma_split_on_len(s: Seq<u8>, sep: u8)
    ensures
        split_on(s, sep).len() >= 1,
    decreases s.len(),
{
    if s.len() > 0 {
        lemma_split_on_len(s.skip(1), sep);
    }
}

/// Splitting `x + [sep] + y` where `x` holds no separator yields `x`
/// followed by the segments of `y`.
pub proof fn lemma_split_on_concat(x: Seq<u8>, y: Seq<u8>, sep: u8)
    requires
        !x.contains(sep),
    ensures
        split_on(x + seq![sep] + y, sep) == seq![x] + split_on(y, sep),
    decreases x.len(),
{
    let s = x + seq![sep] + y;
    lemma_split_on_len(y, sep);
    if x.len() == 0 {
        assert(s.skip(1) =~= y);
        assert(s[0] == sep);
        assert(split_on(s, sep) =~~= seq![x] + split_on(y, sep));
    } else {
        assert(s[0] == x[0]);
        assert(x[0] != sep) by {
            assert(x.contains(sep) == exists|i: int| 0 <= i < x.len() && x[i] == sep);
        }
        assert(!x.skip(1).contains(sep)) by {
            if x.skip(1).contains(sep) {
                let i = choose|i: int| 0 <= i < x.skip(1).len() && x.skip(1)[i] == sep;
                assert(x[i + 1] == sep);
            }
        }
        lemma_split_on_concat(x.skip(1), y, sep);
        assert(s.skip(1) =~= x.skip(1) + seq![sep] + y);
        let rest = split_on(s.skip(1), sep);
        assert(rest == seq![x.skip(1)] + split_on(y, sep));
        assert(seq![s[0]] + rest[0] =~= x);
        assert(rest.skip(1) =~~= split_on(y, sep));
        assert(split_on(s, sep) =~~= seq![x] + split_on(y, sep));
    }
}

/// Splitting a string with no separator yields that one segment.
pub proof fn lemma_split_on_whole(x: Seq<u8>, sep: u8)
    requires
        !x.contains(sep),
    ensures
        split_on(x, sep) == seq![x],
    decreases x.len(),
{
    if x.len() == 0 {
        assert(split_on(x, sep) =~~= seq![x]);
    } else {
        assert(x[0] != sep) by {
            assert(x.contains(sep) == exists|i: int| 0 <= i < x.len() && x[i] == sep);
        }
        assert(!x.skip(1).contains(sep)) by {
            if x.skip(1).contains(sep) {
                let i = choose|i: int| 0 <= i < x.skip(1).len() && x.skip(1)[i] == sep;
                assert(x[i + 1] == sep);
            }
        }
        lemma_split_on_whole(x.skip(1), sep);
        assert(split_on(x, sep) =~~= seq![x]);
    }
}

/// The position of the first occurrence of `b` in `s`, or `s.len()`.
pub open spec fn first_index_of(s: Seq<u8>, b: u8) -> int
    decreases s.len(),
{
    if s.len() == 0 {
        0
    } else if s[0] == b {
        0
    } else {
        1 + first_index_of(s.skip(1), b)
    }
}

/// What `first_index_of` finds: the earliest occurrence, or the length.
pub proof fn lemma_first_index_of(s: Seq<u8>, b: u8)
    ensures
        0 <= first_index_of(s, b) <= s.len(),
        first_index_of(s, b) < s.len() ==> s[first_index_of(s, b)] == b,
        forall|j: int| 0 <= j < first_index_of(s, b) ==> s[j] != b,
        !s.contains(b) ==> first_index_of(s, b) == s.len(),
    decreases s.len(),
{
    if s.len() > 0 && s[0] != b {
        lemma_first_index_of(s.skip(1), b);
        let fi = first_index_of(s, b);
        assert forall|j: int| 0 <= j < fi implies s[j] != b by {
            if j > 0 {
                assert(s.skip(1)[j - 1] != b);
            }
        }
        if !s.contains(b) {
            assert(!s.skip(1).contains(b)) by {
                if s.skip(1).contains(b) {
                    let i = choose|i: int| 0 <= i < s.skip(1).len() && s.skip(1)[i] == b;
                    assert(s[i + 1] == b);
                }
            }
        }
        if s.contains(b) && first_index_of(s.skip(1), b) == s.skip(1).len() {
            let i = choose|i: int| 0 <= i < s.len() && s[i] == b;
            assert(s.skip(1)[i - 1] == b);
        }
    }
}

/// In `x + [b] + y` with no `b` in `x`, the first `b` sits right after `x`.
pub proof fn lemma_first_index_concat(x: Seq<u8>, y: Seq<u8>, b: u8)
    requires
        !x.contains(b),
    ensures
        first_index_of(x + seq![b] + y, b) == x.len(),
    decreases x.len(),
{
    let s = x + seq![b] + y;
    if x.len() == 0 {
        assert(s[0] == b);
    } else {
        assert(s[0] == x[0]);
        assert(x[0] != b) by {
            assert(x.contains(b) == exists|i: int| 0 <= i < x.len() && x[i] == b);
        }
        assert(!x.skip(1).contains(b)) by {
            if x.skip(1).contains(b) {
                let i = choose|i: int| 0 <= i < x.skip(1).len() && x.skip(1)[i] == b;
                assert(x[i + 1] == b);
            }
        }
        lemma_first_index_concat(x.skip(1), y, b);
        assert(s.skip(1) =~= x.skip(1) + seq![b] + y);
    }
}

/// The position of the first occurrence of `b`, or the length of `v`.
pub fn find_byte(v: &Vec<u8>, b: u8) -> (r: usize)
    ensures
        r == first_index_of(v@, b),
{
    proof {
        lemma_first_index_of(v@, b);
    }
    let mut i: usize = 0;
    while i < v.len()
        invariant
            i <= v.len(),
            forall|j: int| 0 <= j < i ==> v@[j] != b,
        decreases v.len() - i,
    {
        if v[i] == b {
            proof {
                lemma_first_index_of(v@, b);
                let fi = first_index_of(v@, b);
                if fi < i {
                    assert(v@[fi] == b);
                }
            }
            return i;
        }
        i += 1;
    }
    proof {
        lemma_first_index_of(v@, b);
        let fi = first_index_of(v@, b);
        if fi < v@.len() {
            assert(v@[fi] == b);
        }
    }
    i
}

/// A copy of the first `n` bytes of `v`.
pub fn take_bytes(v: &Vec<u8>, n: usize) -> (r: Vec<u8>)
    requires
        n <= v.len(),
    ensures
        r@ == v@.take(n as int),
{
    let mut r: Vec<u8> = Vec::new();
    let mut i: usize = 0;
    while i < n
        invariant
            i <= n,
            n <= v.len(),
            r@ =~= v@.take(i as int),
        decreases n - i,
    {
        r.push(v[i]);
        i += 1;
    }
    r
}

/// A copy of the bytes of `v` from position `n` on.
pub fn skip_bytes(v: &Vec<u8>, n: usize) -> (r: Vec<u8>)
    requires
        n <= v.len(),
    ensures
        r@ == v@.skip(n as int),
{
    let mut r: Vec<u8> = Vec::new();
    let mut i: usize = n;
    while i < v.len()
        invariant
            n <= i <= v.len(),
            r@ =~= v@.subrange(n as int, i as int),
        decreases v.len() - i,
    {
        r.push(v[i]);
        i += 1;
    }
    proof {
        assert(r@ =~= v@.skip(n as int));
    }
    r
}

/// Split the suffix of `s` starting at `from` at every `sep`.
fn split_on_from(s: &Vec<u8>, sep: u8, from: usize) -> (r: Vec<Vec<u8>>)
    requires
        from <= s.len(),
    ensures
        views(r@) == split_on(s@.skip(from as int), sep),
    decreases s.len() - from,
{
    if from == s.len() {
        let mut r: Vec<Vec<u8>> = Vec::new();
        r.push(Vec::new());
        proof {
            assert(s@.skip(from as int) =~= Seq::<u8>::empty());
            assert(views(r@) =~~= split_on(s@.skip(from as int), sep));
        }
        r
    } else {
        proof {
            assert(s@.skip(from as int).skip(1) =~= s@.skip(from as int + 1));
            assert(s@.skip(from as int)[0] == s@[from as int]);
        }
        if s[from] == sep {
            let mut r = split_on_from(s, sep, from + 1);
            r.insert(0, Vec::new());
            proof {
                assert(views(r@) =~~= split_on(s@.skip(from as int), sep));
            }
            r
        } else {
            let mut r = split_on_from(s, sep, from + 1);
            let ghost rest = split_on(s@.skip(from as int + 1), sep);
            proof {
                lemma_split_on_len(s@.skip(from as int + 1), sep);
            }
            let mut first = r.remove(0);
            first.insert(0, s[from]);
            r.insert(0, first);
            proof {
                assert(first@ =~= seq![s@[from as int]] + rest[0]);
                assert(views(r@) =~~= split_on(s@.skip(from as int), sep));
            }
            r
        }
    }
}

/// Split `s` at every occurrence of `sep`.
pub fn split_bytes(s: &Vec<u8>, sep: u8) -> (r: Vec<Vec<u8>>)
    ensures
        views(r@) == split_on(s@, sep),
{
    proof {
        assert(s@.skip(0) =~= s@);
    }
    split_on_from(s, sep, 0)
}

/// `parts` joined with `sep` between consecutive parts (no trailing
/// separator).
pub open spec fn join_with(parts: Seq<Seq<u8>>, sep: Seq<u8>) -> Seq<u8>
    decreases parts.len(),
{
    if parts.len() == 0 {
        Seq::empty()
    } else if parts.len() == 1 {
        parts[0]
    } else {
        parts[0] + sep + join_with(parts.skip(1), sep)
    }
}

/// Join the parts from position `i` on with `sep` between them.
fn join_with_from(parts: &Vec<Vec<u8>>, sep: &Vec<u8>, i: usize) -> (r: Vec<u8>)
    requires
        i <= parts.len(),
    ensures
        r@ == join_with(views(parts@).skip(i as int), sep@),
    decreases parts.len() - i,
{
    proof {
        if i < parts.len() {
            assert(views(parts@).skip(i as int).skip(1) =~~= views(parts@).skip(i as int + 1));
            assert(views(parts@).skip(i as int)[0] == parts@[i as int]@);
        }
    }
    if i == parts.len() {
        Vec::new()
    } else if i + 1 == parts.len() {
        clone_bytes(&parts[i])
    } else {
        let mut r = clone_bytes(&parts[i]);
        push_bytes(&mut r, sep);
        let rest = join_with_from(parts, sep, i + 1);
        push_bytes(&mut r, &rest);
        r
    }
}

/// `parts` joined with `sep` between consecutive parts.
pub fn join_bytes_with(parts: &Vec<Vec<u8>>, sep: &Vec<u8>) -> (r: Vec<u8>)
    ensures
        r@ == join_with(views(parts@), sep@),
{
    proof {
        assert(views(parts@).skip(0) =~~= views(parts@));
    }
    join_with_from(parts, sep, 0)
}

} // verus!
