//! Desktop-file handlers and ordered handler lists.
//!
//! A `DesktopHandler` names an installed desktop entry. A `DesktopList` is
//! an ordered sequence of handlers for one MIME type; index 0 is the
//! default. Lists serialize to `handler1.desktop;handler2.desktop;` and
//! deserialize by splitting on `;`, dropping empty or malformed segments,
//! and deduplicating while keeping first-seen order.

use crate::desktop_entry::DesktopEntry;
use crate::error::Error;
use crate::text;
use crate::wrappers;
use vstd::prelude::*;
use vstd::string::StrSliceExecFns;
use vstd::string::StringSliceAdditionalSpecFns;

verus! {

/// Bytes allowed in a handler name: printable ASCII other than the `;`
/// list terminator and the `=` key separator.
pub open spec fn is_handler_char(c: u8) -> bool {
    33 <= c <= 126 && c != text::SEMICOLON && c != text::EQUALS
}

/// A handler name is nonempty and drawn from the handler charset.
pub open spec fn wf_handler_name(s: Seq<u8>) -> bool {
    s.len() > 0 && forall|j: int| 0 <= j < s.len() ==> is_handler_char(s[j])
}

/// A reference to an installed desktop entry, by file name.
#[derive(Debug)]
pub struct DesktopHandler {
    name: Vec<u8>,
}

impl View for DesktopHandler {
    type V = Seq<u8>;

    closed spec fn view(&self) -> Seq<u8> {
        self.name@
    }
}

impl DesktopHandler {
    /// Validity of the stored name.
    pub open spec fn wf(&self) -> bool {
        wf_handler_name(self@)
    }

    /// Wrap a name without checking that it resolves to a desktop entry.
    pub fn assume_valid(name: &str) -> (r: DesktopHandler)
        ensures
            r@ == name.spec_bytes(),
    {
        DesktopHandler { name: name.as_bytes_vec() }
    }

    /// Wrap a byte-string name without checking it.
    pub fn from_bytes(name: Vec<u8>) -> (r: DesktopHandler)
        ensures
            r@ == name@,
    {
        DesktopHandler { name }
    }

    /// The desktop-file name this handler stands for.
    pub fn name(&self) -> (r: &Vec<u8>)
        ensures
            r@ == self@,
    {
        &self.name
    }

    /// Whether two handlers name the same desktop file.
    pub fn eq_handler(&self, other: &DesktopHandler) -> (r: bool)
        ensures
            r == (self@ == other@),
    {
        text::bytes_eq(&self.name, &other.name)
    }

    /// A copy of this handler.
    pub fn duplicate(&self) -> (r: DesktopHandler)
        ensures
            r@ == self@,
    {
        DesktopHandler { name: text::clone_bytes(&self.name) }
    }
}

/// The views of a sequence of handlers.
pub open spec fn handler_views(s: Seq<DesktopHandler>) -> Seq<Seq<u8>> {
    s.map_values(|h: DesktopHandler| h@)
}

/// An ordered list of handlers for one MIME type; index 0 is the default.
#[derive(Debug)]
pub struct DesktopList {
    list: Vec<DesktopHandler>,
}

impl View for DesktopList {
    type V = Seq<Seq<u8>>;

    closed spec fn view(&self) -> Seq<Seq<u8>> {
        handler_views(self.list@)
    }
}

/// `ts` with every segment equal to `t` removed.
pub open spec fn remove_eq(ts: Seq<Seq<u8>>, t: Seq<u8>) -> Seq<Seq<u8>>
    decreases ts.len(),
{
    if ts.len() == 0 {
        Seq::empty()
    } else if ts[0] == t {
        remove_eq(ts.skip(1), t)
    } else {
        seq![ts[0]] + remove_eq(ts.skip(1), t)
    }
}

/// Drop malformed segments and deduplicate, keeping first-seen order.
pub open spec fn clean_tokens(ts: Seq<Seq<u8>>) -> Seq<Seq<u8>>
    decreases ts.len(),
{
    if ts.len() == 0 {
        Seq::empty()
    } else {
        let rest = clean_tokens(ts.skip(1));
        if wf_handler_name(ts[0]) {
            seq![ts[0]] + remove_eq(rest, ts[0])
        } else {
            rest
        }
    }
}

/// What a handler-list byte string deserializes to.
pub open spec fn spec_parse_list(s: Seq<u8>) -> Seq<Seq<u8>> {
    clean_tokens(text::split_on(s, text::SEMICOLON))
}

/// What a handler list serializes to: every name followed by `;`.
pub open spec fn spec_serialize_list(hs: Seq<Seq<u8>>) -> Seq<u8>
    decreases hs.len(),
{
    if hs.len() == 0 {
        Seq::empty()
    } else {
        hs[0] + seq![text::SEMICOLON] + spec_serialize_list(hs.skip(1))
    }
}

/// Whether all segments are pairwise distinct.
pub open spec fn distinct_seqs(ts: Seq<Seq<u8>>) -> bool {
    forall|i: int, j: int| 0 <= i < j < ts.len() ==> ts[i] != ts[j]
}

/// Whether all segments are well-formed handler names.
pub open spec fn all_wf_names(ts: Seq<Seq<u8>>) -> bool {
    forall|i: int| 0 <= i < ts.len() ==> wf_handler_name(#[trigger] ts[i])
}

proof fn lemma_remove_eq_props(ts: Seq<Seq<u8>>, t: Seq<u8>)
    ensures
        !remove_eq(ts, t).contains(t),
        forall|x: Seq<u8>| remove_eq(ts, t).contains(x) ==> ts.contains(x),
        all_wf_names(ts) ==> all_wf_names(remove_eq(ts, t)),
        distinct_seqs(ts) ==> distinct_seqs(remove_eq(ts, t)),
    decreases ts.len(),
{
    if ts.len() > 0 {
        lemma_remove_eq_props(ts.skip(1), t);
        let r = remove_eq(ts, t);
        let r1 = remove_eq(ts.skip(1), t);
        assert forall|x: Seq<u8>| r.contains(x) implies ts.contains(x) by {
            if ts[0] != t {
                let i = choose|i: int| 0 <= i < r.len() && r[i] == x;
                if i == 0 {
                    assert(ts[0] == x);
                } else {
                    assert(r1.contains(x));
                    let j = choose|j: int| 0 <= j < r1.len() && r1[j] == x;
                    assert(ts.skip(1).contains(x));
                    let k = choose|k: int| 0 <= k < ts.skip(1).len() && ts.skip(1)[k] == x;
                    assert(ts[k + 1] == x);
                }
            } else {
                assert(r1.contains(x));
                assert(ts.skip(1).contains(x));
                let k = choose|k: int| 0 <= k < ts.skip(1).len() && ts.skip(1)[k] == x;
                assert(ts[k + 1] == x);
            }
        }
        if all_wf_names(ts) {
            assert forall|i: int| 0 <= i < ts.skip(1).len() implies wf_handler_name(
                #[trigger] ts.skip(1)[i],
            ) by {
                assert(ts.skip(1)[i] == ts[i + 1]);
            }
        }
        if distinct_seqs(ts) {
            assert forall|i: int, j: int| 0 <= i < j < ts.skip(1).len() implies ts.skip(1)[i]
                != ts.skip(1)[j] by {
                assert(ts.skip(1)[i] == ts[i + 1]);
                assert(ts.skip(1)[j] == ts[j + 1]);
            }
            if ts[0] != t {
                // Head is kept: it differs from everything in the cleaned
                // tail because the tail's segments all come from ts.skip(1).
                assert forall|i: int, j: int| 0 <= i < j < r.len() implies r[i] != r[j] by {
                    if i == 0 {
                        assert(r[j] == r1[j - 1]);
                        assert(r1.contains(r1[j - 1]));
                        assert(ts.skip(1).contains(r[j]));
                        let k = choose|k: int|
                            0 <= k < ts.skip(1).len() && ts.skip(1)[k] == r[j];
                        assert(ts[k + 1] == r[j]);
                    } else {
                        assert(r[i] == r1[i - 1]);
                        assert(r[j] == r1[j - 1]);
                    }
                }
            }
        }
    }
}

proof fn lemma_remove_eq_id(ts: Seq<Seq<u8>>, t: Seq<u8>)
    requires
        !ts.contains(t),
    ensures
        remove_eq(ts, t) == ts,
    decreases ts.len(),
{
    if ts.len() > 0 {
        assert(ts[0] != t);
        assert(!ts.skip(1).contains(t)) by {
            if ts.skip(1).contains(t) {
                let i = choose|i: int| 0 <= i < ts.skip(1).len() && ts.skip(1)[i] == t;
                assert(ts[i + 1] == t);
            }
        }
        lemma_remove_eq_id(ts.skip(1), t);
        assert(remove_eq(ts, t) =~~= ts);
    } else {
        assert(remove_eq(ts, t) =~~= ts);
    }
}

/// Cleaning yields well-formed, pairwise-distinct names.
pub proof fn lemma_clean_tokens_wf(ts: Seq<Seq<u8>>)
    ensures
        all_wf_names(clean_tokens(ts)),
        distinct_seqs(clean_tokens(ts)),
    decreases ts.len(),
{
    if ts.len() > 0 {
        lemma_clean_tokens_wf(ts.skip(1));
        let rest = clean_tokens(ts.skip(1));
        if wf_handler_name(ts[0]) {
            lemma_remove_eq_props(rest, ts[0]);
            let rr = remove_eq(rest, ts[0]);
            let r = seq![ts[0]] + rr;
            assert forall|i: int| 0 <= i < r.len() implies wf_handler_name(#[trigger] r[i]) by {
                if i > 0 {
                    assert(r[i] == rr[i - 1]);
                    assert(wf_handler_name(rr[i - 1]));
                }
            }
            assert forall|i: int, j: int| 0 <= i < j < r.len() implies r[i] != r[j] by {
                if i == 0 {
                    assert(r[j] == rr[j - 1]);
                    assert(rr.contains(rr[j - 1]));
                } else {
                    assert(r[i] == rr[i - 1]);
                    assert(r[j] == rr[j - 1]);
                }
            }
        }
    }
}

/// Cleaning a list of well-formed, distinct names changes nothing.
pub proof fn lemma_clean_tokens_id(ts: Seq<Seq<u8>>)
    requires
        all_wf_names(ts),
        distinct_seqs(ts),
    ensures
        clean_tokens(ts) == ts,
    decreases ts.len(),
{
    if ts.len() == 0 {
        assert(clean_tokens(ts) =~~= ts);
    } else {
        assert forall|i: int| 0 <= i < ts.skip(1).len() implies wf_handler_name(
            #[trigger] ts.skip(1)[i],
        ) && ts.skip(1)[i] != ts[0] by {
            assert(ts.skip(1)[i] == ts[i + 1]);
        }
        assert forall|i: int, j: int| 0 <= i < j < ts.skip(1).len() implies ts.skip(1)[i]
            != ts.skip(1)[j] by {
            assert(ts.skip(1)[i] == ts[i + 1]);
            assert(ts.skip(1)[j] == ts[j + 1]);
        }
        lemma_clean_tokens_id(ts.skip(1));
        assert(!ts.skip(1).contains(ts[0])) by {
            if ts.skip(1).contains(ts[0]) {
                let i = choose|i: int| 0 <= i < ts.skip(1).len() && ts.skip(1)[i] == ts[0];
            }
        }
        lemma_remove_eq_id(ts.skip(1), ts[0]);
        assert(clean_tokens(ts) =~~= ts);
    }
}

/// A well-formed handler name holds no `;`.
pub proof fn lemma_wf_name_no_semicolon(t: Seq<u8>)
    requires
        wf_handler_name(t),
    ensures
        !t.contains(text::SEMICOLON),
{
    if t.contains(text::SEMICOLON) {
        let i = choose|i: int| 0 <= i < t.len() && t[i] == text::SEMICOLON;
        assert(is_handler_char(t[i]));
    }
}

proof fn lemma_split_serialized(hs: Seq<Seq<u8>>)
    requires
        all_wf_names(hs),
    ensures
        text::split_on(spec_serialize_list(hs), text::SEMICOLON) == hs + seq![
            Seq::<u8>::empty(),
        ],
    decreases hs.len(),
{
    if hs.len() == 0 {
        assert(text::split_on(spec_serialize_list(hs), text::SEMICOLON) =~~= hs + seq![
            Seq::<u8>::empty(),
        ]);
    } else {
        assert forall|i: int| 0 <= i < hs.skip(1).len() implies wf_handler_name(
            #[trigger] hs.skip(1)[i],
        ) by {
            assert(hs.skip(1)[i] == hs[i + 1]);
        }
        lemma_split_serialized(hs.skip(1));
        lemma_wf_name_no_semicolon(hs[0]);
        text::lemma_split_on_concat(
            hs[0],
            spec_serialize_list(hs.skip(1)),
            text::SEMICOLON,
        );
        assert(hs[0] + seq![text::SEMICOLON] + spec_serialize_list(hs.skip(1))
            == spec_serialize_list(hs));
        assert(text::split_on(spec_serialize_list(hs), text::SEMICOLON) =~~= hs + seq![
            Seq::<u8>::empty(),
        ]);
    }
}

proof fn lemma_clean_with_trailing_empty(hs: Seq<Seq<u8>>)
    requires
        all_wf_names(hs),
        distinct_seqs(hs),
    ensures
        clean_tokens(hs + seq![Seq::<u8>::empty()]) == hs,
    decreases hs.len(),
{
    let ts = hs + seq![Seq::<u8>::empty()];
    if hs.len() == 0 {
        assert(ts.len() == 1);
        assert(!wf_handler_name(ts[0]));
        assert(ts.skip(1) =~~= Seq::<Seq<u8>>::empty());
        assert(clean_tokens(Seq::<Seq<u8>>::empty()) =~~= Seq::<Seq<u8>>::empty());
        assert(clean_tokens(ts) =~~= hs);
    } else {
        assert forall|i: int| 0 <= i < hs.skip(1).len() implies wf_handler_name(
            #[trigger] hs.skip(1)[i],
        ) by {
            assert(hs.skip(1)[i] == hs[i + 1]);
        }
        assert forall|i: int, j: int| 0 <= i < j < hs.skip(1).len() implies hs.skip(1)[i]
            != hs.skip(1)[j] by {
            assert(hs.skip(1)[i] == hs[i + 1]);
            assert(hs.skip(1)[j] == hs[j + 1]);
        }
        lemma_clean_with_trailing_empty(hs.skip(1));
        assert(ts.skip(1) =~~= hs.skip(1) + seq![Seq::<u8>::empty()]);
        assert(clean_tokens(ts.skip(1)) == hs.skip(1));
        assert(!hs.skip(1).contains(hs[0])) by {
            if hs.skip(1).contains(hs[0]) {
                let i = choose|i: int| 0 <= i < hs.skip(1).len() && hs.skip(1)[i] == hs[0];
            }
        }
        lemma_remove_eq_id(hs.skip(1), hs[0]);
        assert(ts[0] == hs[0]);
        assert(wf_handler_name(ts[0]));
        assert(clean_tokens(ts) == seq![ts[0]] + remove_eq(clean_tokens(ts.skip(1)), ts[0]));
        assert(remove_eq(clean_tokens(ts.skip(1)), ts[0]) == hs.skip(1));
        assert forall|j: int| 0 <= j < hs.len() implies (seq![hs[0]] + hs.skip(1))[j] == hs[j] by {
            if j > 0 {
                assert(hs.skip(1)[j - 1] == hs[j]);
            }
        }
        assert(seq![hs[0]] + hs.skip(1) =~~= hs);
        assert(clean_tokens(ts) =~~= hs);
    }
}

/// Round trip at the handler-list level: serializing a list of
/// well-formed, distinct names and parsing the result gives the list back.
pub proof fn lemma_list_round_trip(hs: Seq<Seq<u8>>)
    requires
        all_wf_names(hs),
        distinct_seqs(hs),
    ensures
        spec_parse_list(spec_serialize_list(hs)) == hs,
{
    lemma_split_serialized(hs);
    lemma_clean_with_trailing_empty(hs);
}

/// Whether `v` is a well-formed handler name.
pub fn check_handler_name(v: &Vec<u8>) -> (r: bool)
    ensures
        r == wf_handler_name(v@),
{
    if v.len() == 0 {
        return false;
    }
    let mut i: usize = 0;
    while i < v.len()
        invariant
            i <= v.len(),
            v.len() > 0,
            forall|j: int| 0 <= j < i ==> is_handler_char(v@[j]),
        decreases v.len() - i,
    {
        let c = v[i];
        if !(33 <= c && c <= 126) || c == text::SEMICOLON || c == text::EQUALS {
            return false;
        }
        i += 1;
    }
    true
}

fn remove_eq_from(ts: &Vec<Vec<u8>>, t: &Vec<u8>, from: usize) -> (r: Vec<Vec<u8>>)
    requires
        from <= ts.len(),
    ensures
        text::views(r@) == remove_eq(text::views(ts@).skip(from as int), t@),
    decreases ts.len() - from,
{
    proof {
        if from < ts.len() {
            assert(text::views(ts@).skip(from as int).skip(1) =~~= text::views(ts@).skip(
                from as int + 1,
            ));
        }
    }
    if from == ts.len() {
        let r: Vec<Vec<u8>> = Vec::new();
        proof {
            assert(text::views(r@) =~~= remove_eq(text::views(ts@).skip(from as int), t@));
        }
        r
    } else if text::bytes_eq(&ts[from], t) {
        remove_eq_from(ts, t, from + 1)
    } else {
        let mut r = remove_eq_from(ts, t, from + 1);
        r.insert(0, text::clone_bytes(&ts[from]));
        proof {
            assert(text::views(r@) =~~= remove_eq(text::views(ts@).skip(from as int), t@));
        }
        r
    }
}

fn clean_tokens_from(ts: &Vec<Vec<u8>>, from: usize) -> (r: Vec<Vec<u8>>)
    requires
        from <= ts.len(),
    ensures
        text::views(r@) == clean_tokens(text::views(ts@).skip(from as int)),
    decreases ts.len() - from,
{
    proof {
        if from < ts.len() {
            assert(text::views(ts@).skip(from as int).skip(1) =~~= text::views(ts@).skip(
                from as int + 1,
            ));
        }
    }
    if from == ts.len() {
        let r: Vec<Vec<u8>> = Vec::new();
        proof {
            assert(text::views(r@) =~~= clean_tokens(text::views(ts@).skip(from as int)));
        }
        r
    } else if check_handler_name(&ts[from]) {
        let rest = clean_tokens_from(ts, from + 1);
        let mut r = remove_eq_from(&rest, &ts[from], 0);
        proof {
            assert(text::views(rest@).skip(0) =~~= text::views(rest@));
        }
        r.insert(0, text::clone_bytes(&ts[from]));
        proof {
            assert(text::views(r@) =~~= clean_tokens(text::views(ts@).skip(from as int)));
        }
        r
    } else {
        let r = clean_tokens_from(ts, from + 1);
        r
    }
}

fn serialize_from(list: &Vec<DesktopHandler>, from: usize) -> (r: Vec<u8>)
    requires
        from <= list.len(),
    ensures
        r@ == spec_serialize_list(handler_views(list@).skip(from as int)),
    decreases list.len() - from,
{
    if from == list.len() {
        let r: Vec<u8> = Vec::new();
        proof {
            assert(r@ =~= spec_serialize_list(handler_views(list@).skip(from as int)));
        }
        r
    } else {
        let mut r = text::clone_bytes(list[from].name());
        r.push(text::SEMICOLON);
        let rest = serialize_from(list, from + 1);
        text::push_bytes(&mut r, &rest);
        proof {
            assert(handler_views(list@).skip(from as int).skip(1) =~~= handler_views(
                list@,
            ).skip(from as int + 1));
            assert(r@ =~= spec_serialize_list(handler_views(list@).skip(from as int)));
        }
        r
    }
}

impl DesktopList {
    /// All stored names are well-formed.
    pub open spec fn wf(&self) -> bool {
        all_wf_names(self@)
    }

    /// An empty list.
    pub fn empty() -> (r: DesktopList)
        ensures
            r@ == Seq::<Seq<u8>>::empty(),
    {
        let r = DesktopList { list: Vec::new() };
        proof {
            assert(r@ =~~= Seq::<Seq<u8>>::empty());
        }
        r
    }

    /// A list holding exactly one handler.
    pub fn singleton(h: DesktopHandler) -> (r: DesktopList)
        ensures
            r@ =~~= seq![h@],
    {
        let mut list: Vec<DesktopHandler> = Vec::new();
        list.push(h);
        let r = DesktopList { list };
        proof {
            assert(r@ =~~= seq![r.list@[0]@]);
        }
        r
    }

    /// Number of handlers.
    pub fn len(&self) -> (r: usize)
        ensures
            r == self@.len(),
    {
        self.list.len()
    }

    /// Whether the list is empty.
    pub fn is_empty(&self) -> (r: bool)
        ensures
            r == (self@.len() == 0),
    {
        self.list.len() == 0
    }

    /// The handler at position `i`.
    pub fn get(&self, i: usize) -> (r: &DesktopHandler)
        requires
            i < self@.len(),
        ensures
            r@ == self@[i as int],
    {
        &self.list[i]
    }

    /// The first handler, if any.
    pub fn front(&self) -> (r: Option<&DesktopHandler>)
        ensures
            self@.len() == 0 ==> r is None,
            self@.len() > 0 ==> (r matches Some(h) && h@ == self@[0]),
    {
        if self.list.len() == 0 {
            None
        } else {
            Some(&self.list[0])
        }
    }

    /// Append a handler at the end; duplicates are kept.
    pub fn push_back(&mut self, h: DesktopHandler)
        ensures
            final(self)@ == old(self)@.push(h@),
    {
        self.list.push(h);
        proof {
            assert(self@ =~~= old(self)@.push(self.list@[self.list@.len() - 1]@));
        }
    }

    /// Prepend a handler at the front.
    pub fn push_front(&mut self, h: DesktopHandler)
        ensures
            final(self)@ == seq![h@] + old(self)@,
    {
        self.list.insert(0, h);
        proof {
            assert(self@ =~~= seq![self.list@[0]@] + old(self)@);
        }
    }

    /// Remove the first handler equal to `target`, if any, keeping the
    /// order of the rest.
    pub fn remove_first(&mut self, target: &DesktopHandler) -> (r: Option<DesktopHandler>)
        ensures
            !old(self)@.contains(target@) ==> final(self)@ == old(self)@ && r is None,
            old(self)@.contains(target@) ==> (r matches Some(h) && h@ == target@ && exists|i: int|
                {
                    &&& 0 <= i < old(self)@.len()
                    &&& old(self)@[i] == target@
                    &&& (forall|j: int| 0 <= j < i ==> old(self)@[j] != target@)
                    &&& final(self)@ == old(self)@.remove(i)
                }),
    {
        let mut i: usize = 0;
        while i < self.list.len()
            invariant
                i <= self.list.len(),
                self == old(self),
                forall|j: int| 0 <= j < i ==> self@[j] != target@,
            decreases self.list.len() - i,
        {
            if text::bytes_eq(&self.list[i].name, &target.name) {
                let h = self.list.remove(i);
                proof {
                    assert(old(self)@[i as int] == target@);
                    assert(self@ =~~= old(self)@.remove(i as int));
                }
                return Some(h);
            }
            i += 1;
        }
        proof {
            if old(self)@.contains(target@) {
                let k = choose|k: int| 0 <= k < old(self)@.len() && old(self)@[k] == target@;
            }
        }
        None
    }

    /// A copy of this list.
    pub fn duplicate(&self) -> (r: DesktopList)
        ensures
            r@ == self@,
    {
        let mut list: Vec<DesktopHandler> = Vec::new();
        let mut i: usize = 0;
        while i < self.list.len()
            invariant
                i <= self.list.len(),
                list@.len() == i,
                forall|j: int| 0 <= j < i ==> list@[j]@ == self@[j],
            decreases self.list.len() - i,
        {
            list.push(self.list[i].duplicate());
            i += 1;
        }
        let r = DesktopList { list };
        proof {
            assert(r@ =~~= self@);
        }
        r
    }

    /// Deserialize a handler list: split on `;`, drop empty or malformed
    /// segments, deduplicate keeping first-seen order.
    pub fn parse(s: &Vec<u8>) -> (r: DesktopList)
        ensures
            r@ == spec_parse_list(s@),
            r.wf(),
            distinct_seqs(r@),
    {
        let tokens = text::split_bytes(s, text::SEMICOLON);
        proof {
            assert(text::views(tokens@).skip(0) =~~= text::views(tokens@));
        }
        let cleaned = clean_tokens_from(&tokens, 0);
        let mut list: Vec<DesktopHandler> = Vec::new();
        let mut i: usize = 0;
        while i < cleaned.len()
            invariant
                i <= cleaned.len(),
                list@.len() == i,
                forall|j: int| 0 <= j < i ==> list@[j]@ == text::views(cleaned@)[j],
            decreases cleaned.len() - i,
        {
            list.push(DesktopHandler { name: text::clone_bytes(&cleaned[i]) });
            i += 1;
        }
        let r = DesktopList { list };
        proof {
            assert(r@ =~~= text::views(cleaned@));
            lemma_clean_tokens_wf(text::views(tokens@));
        }
        r
    }

    /// Serialize the list: every handler name followed by `;`.
    pub fn serialize(&self) -> (r: Vec<u8>)
        ensures
            r@ == spec_serialize_list(self@),
    {
        proof {
            assert(handler_views(self.list@).skip(0) =~~= handler_views(self.list@));
        }
        serialize_from(&self.list, 0)
    }
}

impl DesktopHandler {
    /// The filesystem path of the desktop entry file with the given
    /// name, looked up under the XDG data directories.
    pub fn get_path(name: &Vec<u8>) -> (r: Result<Vec<u8>, Error>)
        ensures
            r matches Err(e) ==> e matches Error::NotFound(b) && b@ == name@,
    {
        match wrappers::find_desktop_file(name) {
            Some(p) => Ok(p),
            None => Err(Error::NotFound(text::clone_bytes(name))),
        }
    }

    /// Load and validate this handler's desktop entry. The entry is
    /// rejected as `BadEntry` when its name or exec template is empty;
    /// MIME types the file declares that do not parse are dropped.
    pub fn get_entry(&self) -> (r: Result<DesktopEntry, Error>)
        ensures
            r matches Ok(e) ==> e.valid() && e.file_name@ == self@,
            r matches Err(e) ==> (e is NotFound || e is BadEntry),
    {
        let path = match Self::get_path(&self.name) {
            Ok(p) => p,
            Err(e) => {
                return Err(e);
            },
        };
        let raw = match wrappers::parse_desktop_file(&path) {
            Some(raw) => raw,
            None => {
                return Err(Error::BadEntry(path));
            },
        };
        if raw.name.len() == 0 || raw.exec_cmd.len() == 0 {
            return Err(Error::BadEntry(path));
        }
        let mut mimes: Vec<crate::mime_type::MimeType> = Vec::new();
        let mut i: usize = 0;
        while i < raw.mime_types.len()
            invariant
                i <= raw.mime_types@.len(),
                forall|j: int| 0 <= j < mimes@.len() ==> (#[trigger] mimes@[j]).wf(),
            decreases raw.mime_types.len() - i,
        {
            match crate::mime_type::MimeType::parse_bytes(&raw.mime_types[i]) {
                Ok(m) => {
                    mimes.push(m);
                },
                Err(_) => {},
            }
            i += 1;
        }
        Ok(
            DesktopEntry {
                name: raw.name,
                exec_cmd: raw.exec_cmd,
                file_name: text::clone_bytes(&self.name),
                terminal: raw.terminal,
                mime_type: mimes,
                categories: raw.categories,
            },
        )
    }
}

/// An inline regex-matched command from the local configuration; never
/// persisted to the association file.
#[derive(Debug)]
pub struct RegexHandler {
    /// The exec template to run for matching paths.
    pub exec_cmd: Vec<u8>,
    /// Whether the command runs in a terminal window.
    pub terminal: bool,
    /// The regular expressions that select paths for this handler.
    pub regexes: Vec<String>,
}

impl RegexHandler {
    /// Whether any of this handler's regexes matches the path text.
    pub fn is_match(&self, path: &Vec<u8>) -> (r: bool)
        ensures
            r == wrappers::regex_set_matches(self.regexes.deep_view(), path@),
    {
        wrappers::regex_set_is_match(&self.regexes, path)
    }

    /// The synthetic desktop entry this handler is interpreted through:
    /// only its exec template and terminal flag are set; every other
    /// field is empty, and no file is read.
    pub fn get_entry(&self) -> (r: DesktopEntry)
        ensures
            r.exec_cmd@ == self.exec_cmd@,
            r.terminal == self.terminal,
            r.name@ == Seq::<u8>::empty(),
            r.file_name@ == Seq::<u8>::empty(),
            r.mime_type@.len() == 0,
            r.categories@.len() == 0,
    {
        DesktopEntry::fake_entry(&self.exec_cmd, self.terminal)
    }

    /// A copy of this handler.
    pub fn duplicate(&self) -> (r: RegexHandler)
        ensures
            r.exec_cmd@ == self.exec_cmd@,
            r.terminal == self.terminal,
            r.regexes.deep_view() == self.regexes.deep_view(),
    {
        let mut regexes: Vec<String> = Vec::new();
        let mut i: usize = 0;
        while i < self.regexes.len()
            invariant
                i <= self.regexes@.len(),
                regexes@.len() == i,
                forall|j: int| 0 <= j < i ==> regexes@[j]@ == self.regexes@[j]@,
            decreases self.regexes.len() - i,
        {
            regexes.push(self.regexes[i].clone());
            i += 1;
        }
        proof {
            assert(regexes.deep_view() =~~= self.regexes.deep_view());
        }
        RegexHandler {
            exec_cmd: text::clone_bytes(&self.exec_cmd),
            terminal: self.terminal,
            regexes,
        }
    }
}

/// All the regex handlers the configuration defines, in order.
#[derive(Debug)]
pub struct RegexApps(pub Vec<RegexHandler>);

impl RegexApps {
    /// The first handler whose regexes match the path text, or
    /// `NotFound` with the path's bytes.
    pub fn get_handler(&self, path: &crate::path::UserPath) -> (r: Result<RegexHandler, Error>)
        ensures
            match r {
                Ok(h) => exists|i: int|
                    {
                        &&& 0 <= i < self.0@.len()
                        &&& wrappers::regex_set_matches(
                            (#[trigger] self.0@[i]).regexes.deep_view(),
                            path.text_view(),
                        )
                        &&& (forall|j: int|
                            0 <= j < i ==> !wrappers::regex_set_matches(
                                (#[trigger] self.0@[j]).regexes.deep_view(),
                                path.text_view(),
                            ))
                        &&& h.exec_cmd@ == self.0@[i].exec_cmd@
                        &&& h.terminal == self.0@[i].terminal
                        &&& h.regexes.deep_view() == self.0@[i].regexes.deep_view()
                    },
                Err(e) => (e matches Error::NotFound(b) && b@ == path.text_view()) && forall|
                    i: int,
                |
                    0 <= i < self.0@.len() ==> !wrappers::regex_set_matches(
                        (#[trigger] self.0@[i]).regexes.deep_view(),
                        path.text_view(),
                    ),
            },
    {
        let text_bytes = path.as_bytes();
        let mut i: usize = 0;
        while i < self.0.len()
            invariant
                i <= self.0@.len(),
                text_bytes@ == path.text_view(),
                forall|j: int|
                    0 <= j < i ==> !wrappers::regex_set_matches(
                        (#[trigger] self.0@[j]).regexes.deep_view(),
                        path.text_view(),
                    ),
            decreases self.0.len() - i,
        {
            if self.0[i].is_match(text_bytes) {
                return Ok(self.0[i].duplicate());
            }
            i += 1;
        }
        Err(Error::NotFound(text::clone_bytes(text_bytes)))
    }
}

/// Whether two regex handlers hold the same template, flag and patterns.
fn regex_handlers_eq(a: &RegexHandler, b: &RegexHandler) -> (r: bool)
    ensures
        r == (a.exec_cmd@ == b.exec_cmd@ && a.terminal == b.terminal && a.regexes.deep_view()
            == b.regexes.deep_view()),
{
    if !text::bytes_eq(&a.exec_cmd, &b.exec_cmd) || a.terminal != b.terminal {
        return false;
    }
    if a.regexes.len() != b.regexes.len() {
        proof {
            assert(a.regexes.deep_view().len() != b.regexes.deep_view().len());
        }
        return false;
    }
    let mut i: usize = 0;
    while i < a.regexes.len()
        invariant
            i <= a.regexes@.len(),
            a.regexes@.len() == b.regexes@.len(),
            forall|j: int| 0 <= j < i ==> a.regexes@[j]@ == b.regexes@[j]@,
        decreases a.regexes.len() - i,
    {
        if !a.regexes[i].eq(&b.regexes[i]) {
            proof {
                assert(a.regexes.deep_view()[i as int] == a.regexes@[i as int]@);
                assert(b.regexes.deep_view()[i as int] == b.regexes@[i as int]@);
                assert(a.regexes.deep_view() != b.regexes.deep_view());
            }
            return false;
        }
        i += 1;
    }
    proof {
        assert(a.regexes.deep_view() =~~= b.regexes.deep_view());
    }
    true
}

/// A program or command used to open something: a desktop entry by name,
/// or an inline regex-matched command.
#[derive(Debug)]
pub enum Handler {
    /// A handler backed by an installed desktop entry.
    DesktopHandler(DesktopHandler),
    /// A handler defined inline by regular expressions.
    RegexHandler(RegexHandler),
}

impl Handler {
    /// The desktop entry this handler is interpreted through.
    pub fn get_entry(&self) -> (r: Result<DesktopEntry, Error>)
        ensures
            match self {
                Handler::DesktopHandler(_) => r matches Ok(e) ==> e.valid(),
                Handler::RegexHandler(h) => r matches Ok(e) && e.exec_cmd@ == h.exec_cmd@
                    && e.terminal == h.terminal && e.name@ == Seq::<u8>::empty() && e.file_name@
                    == Seq::<u8>::empty() && e.mime_type@.len() == 0 && e.categories@.len()
                    == 0,
            },
    {
        match self {
            Handler::DesktopHandler(h) => h.get_entry(),
            Handler::RegexHandler(h) => Ok(h.get_entry()),
        }
    }

    /// Whether two handlers are the same value; regex handlers compare
    /// by template, flag, and patterns.
    pub fn same_handler(&self, other: &Handler) -> (r: bool)
        ensures
            r == (match (self, other) {
                (Handler::DesktopHandler(a), Handler::DesktopHandler(b)) => a@ == b@,
                (Handler::RegexHandler(a), Handler::RegexHandler(b)) => a.exec_cmd@ == b.exec_cmd@
                    && a.terminal == b.terminal && a.regexes.deep_view() == b.regexes.deep_view(),
                _ => false,
            }),
    {
        match (self, other) {
            (Handler::DesktopHandler(a), Handler::DesktopHandler(b)) => a.eq_handler(b),
            (Handler::RegexHandler(a), Handler::RegexHandler(b)) => regex_handlers_eq(a, b),
            _ => false,
        }
    }

    /// A copy of this handler.
    pub fn duplicate(&self) -> (r: Handler)
        ensures
            match (self, &r) {
                (Handler::DesktopHandler(a), Handler::DesktopHandler(b)) => a@ == b@,
                (Handler::RegexHandler(a), Handler::RegexHandler(b)) => a.exec_cmd@ == b.exec_cmd@
                    && a.terminal == b.terminal && a.regexes.deep_view() == b.regexes.deep_view(),
                _ => false,
            },
    {
        match self {
            Handler::DesktopHandler(h) => Handler::DesktopHandler(h.duplicate()),
            Handler::RegexHandler(h) => Handler::RegexHandler(h.duplicate()),
        }
    }
}

} // verus!
