//! Grouping opened paths by their resolved handler.
//!
//! When several paths are opened at once, each resolves to a handler and
//! the paths of one handler are launched together. Groups keep the order
//! in which their handler first appeared, and paths keep their order
//! within a group.

use crate::handler::Handler;
use crate::text;
use vstd::prelude::*;

verus! {

/// A handler reduced to the plain values that decide its identity: a
/// tag telling the variants apart, then name or template, terminal
/// flag, and patterns.
pub open spec fn handler_rep(h: Handler) -> (bool, Seq<u8>, bool, Seq<Seq<char>>) {
    match h {
        Handler::DesktopHandler(d) => (true, d@, false, Seq::empty()),
        Handler::RegexHandler(r) => (false, r.exec_cmd@, r.terminal, r.regexes.deep_view()),
    }
}

/// The (handler identity, path text) views of resolved pairs.
pub open spec fn pair_reps(s: Seq<(Handler, Vec<u8>)>) -> Seq<
    ((bool, Seq<u8>, bool, Seq<Seq<char>>), Seq<u8>),
> {
    s.map_values(|p: (Handler, Vec<u8>)| (handler_rep(p.0), p.1@))
}

/// The texts of the pairs resolved to `rep`, in order.
pub open spec fn texts_with(
    rps: Seq<((bool, Seq<u8>, bool, Seq<Seq<char>>), Seq<u8>)>,
    rep: (bool, Seq<u8>, bool, Seq<Seq<char>>),
) -> Seq<Seq<u8>>
    decreases rps.len(),
{
    if rps.len() == 0 {
        Seq::empty()
    } else if rps[0].0 == rep {
        seq![rps[0].1] + texts_with(rps.skip(1), rep)
    } else {
        texts_with(rps.skip(1), rep)
    }
}

/// The pairs not resolved to `rep`, in order.
pub open spec fn drop_with(
    rps: Seq<((bool, Seq<u8>, bool, Seq<Seq<char>>), Seq<u8>)>,
    rep: (bool, Seq<u8>, bool, Seq<Seq<char>>),
) -> Seq<((bool, Seq<u8>, bool, Seq<Seq<char>>), Seq<u8>)>
    decreases rps.len(),
{
    if rps.len() == 0 {
        Seq::empty()
    } else if rps[0].0 == rep {
        drop_with(rps.skip(1), rep)
    } else {
        seq![rps[0]] + drop_with(rps.skip(1), rep)
    }
}

/// Dropping pairs never lengthens the list.
pub proof fn lemma_drop_with_len(
    rps: Seq<((bool, Seq<u8>, bool, Seq<Seq<char>>), Seq<u8>)>,
    rep: (bool, Seq<u8>, bool, Seq<Seq<char>>),
)
    ensures
        drop_with(rps, rep).len() <= rps.len(),
    decreases rps.len(),
{
    if rps.len() > 0 {
        lemma_drop_with_len(rps.skip(1), rep);
    }
}

/// First-seen grouping: each handler identity gets one group, in the
/// order identities first occur, holding its texts in input order.
pub open spec fn spec_group(rps: Seq<((bool, Seq<u8>, bool, Seq<Seq<char>>), Seq<u8>)>) -> Seq<
    ((bool, Seq<u8>, bool, Seq<Seq<char>>), Seq<Seq<u8>>),
>
    decreases rps.len(),
    via spec_group_decreases
{
    if rps.len() == 0 {
        Seq::empty()
    } else {
        seq![(rps[0].0, texts_with(rps, rps[0].0))] + spec_group(drop_with(rps.skip(1), rps[0].0))
    }
}

#[via_fn]
proof fn spec_group_decreases(rps: Seq<((bool, Seq<u8>, bool, Seq<Seq<char>>), Seq<u8>)>) {
    if rps.len() > 0 {
        lemma_drop_with_len(rps.skip(1), rps[0].0);
    }
}

proof fn lemma_texts_with_snoc(
    rps: Seq<((bool, Seq<u8>, bool, Seq<Seq<char>>), Seq<u8>)>,
    p: ((bool, Seq<u8>, bool, Seq<Seq<char>>), Seq<u8>),
    rep: (bool, Seq<u8>, bool, Seq<Seq<char>>),
)
    ensures
        texts_with(rps.push(p), rep) == if p.0 == rep {
            texts_with(rps, rep).push(p.1)
        } else {
            texts_with(rps, rep)
        },
        drop_with(rps.push(p), rep) == if p.0 == rep {
            drop_with(rps, rep)
        } else {
            drop_with(rps, rep).push(p)
        },
    decreases rps.len(),
{
    if rps.len() == 0 {
        assert(rps.push(p)[0] == p);
        assert(rps.push(p).skip(1) =~~= Seq::<
            ((bool, Seq<u8>, bool, Seq<Seq<char>>), Seq<u8>),
        >::empty());
        assert(texts_with(Seq::empty(), rep) =~~= Seq::<Seq<u8>>::empty());
        assert(drop_with(Seq::empty(), rep) =~~= Seq::<
            ((bool, Seq<u8>, bool, Seq<Seq<char>>), Seq<u8>),
        >::empty());
        if p.0 == rep {
            assert(texts_with(rps.push(p), rep) =~~= texts_with(rps, rep).push(p.1));
            assert(drop_with(rps.push(p), rep) =~~= drop_with(rps, rep));
        } else {
            assert(texts_with(rps.push(p), rep) =~~= texts_with(rps, rep));
            assert(drop_with(rps.push(p), rep) =~~= drop_with(rps, rep).push(p));
        }
    } else {
        lemma_texts_with_snoc(rps.skip(1), p, rep);
        assert(rps.push(p)[0] == rps[0]);
        assert(rps.push(p).skip(1) =~~= rps.skip(1).push(p));
        if p.0 == rep {
            assert(texts_with(rps.push(p), rep) =~~= texts_with(rps, rep).push(p.1));
            assert(drop_with(rps.push(p), rep) =~~= drop_with(rps, rep));
        } else {
            assert(texts_with(rps.push(p), rep) =~~= texts_with(rps, rep));
            assert(drop_with(rps.push(p), rep) =~~= drop_with(rps, rep).push(p));
        }
    }
}

/// Handler identities are equal exactly when `same_handler` holds.
proof fn lemma_rep_eq(a: Handler, b: Handler)
    ensures
        (handler_rep(a) == handler_rep(b)) <==> (match (a, b) {
            (Handler::DesktopHandler(x), Handler::DesktopHandler(y)) => x@ == y@,
            (Handler::RegexHandler(x), Handler::RegexHandler(y)) => x.exec_cmd@ == y.exec_cmd@
                && x.terminal == y.terminal && x.regexes.deep_view() == y.regexes.deep_view(),
            _ => false,
        }),
{
    match (a, b) {
        (Handler::DesktopHandler(x), Handler::DesktopHandler(y)) => {},
        (Handler::RegexHandler(x), Handler::RegexHandler(y)) => {},
        _ => {},
    }
}

/// The group views of an executable grouping result.
pub open spec fn group_reps(s: Seq<(Handler, Vec<Vec<u8>>)>) -> Seq<
    ((bool, Seq<u8>, bool, Seq<Seq<char>>), Seq<Seq<u8>>),
> {
    s.map_values(|g: (Handler, Vec<Vec<u8>>)| (handler_rep(g.0), text::views(g.1@)))
}

/// Group resolved (handler, path text) pairs by handler identity,
/// keeping first-seen group order and input order within each group.
pub fn group_by_handler(pairs: Vec<(Handler, Vec<u8>)>) -> (r: Vec<(Handler, Vec<Vec<u8>>)>)
    ensures
        group_reps(r@) == spec_group(pair_reps(pairs@)),
    decreases pairs@.len(),
{
    let ghost rps = pair_reps(pairs@);
    let mut work = pairs;
    if work.len() == 0 {
        let r: Vec<(Handler, Vec<Vec<u8>>)> = Vec::new();
        proof {
            assert(group_reps(r@) =~~= spec_group(rps));
        }
        return r;
    }
    let (h0, t0) = work.remove(0);
    let ghost rep0 = handler_rep(h0);
    let ghost tail = pair_reps(work@);
    proof {
        assert(tail =~~= rps.skip(1));
    }
    let mut texts: Vec<Vec<u8>> = Vec::new();
    texts.push(t0);
    let mut rest: Vec<(Handler, Vec<u8>)> = Vec::new();
    let mut i: usize = 0;
    while i < work.len()
        invariant
            i <= work@.len(),
            tail == pair_reps(work@),
            rep0 == handler_rep(h0),
            text::views(texts@) == seq![t0@] + texts_with(tail.take(i as int), rep0),
            pair_reps(rest@) == drop_with(tail.take(i as int), rep0),
        decreases work@.len() - i,
    {
        let ghost pre = tail.take(i as int);
        proof {
            assert(tail.take(i as int + 1) =~~= pre.push(tail[i as int]));
            lemma_texts_with_snoc(pre, tail[i as int], rep0);
            assert(tail[i as int] == (handler_rep(work@[i as int].0), work@[i as int].1@));
        }
        let same = h0.same_handler(&work[i].0);
        proof {
            lemma_rep_eq(h0, work@[i as int].0);
            assert(same == (rep0 == tail[i as int].0));
        }
        if same {
            let ghost before = text::views(texts@);
            texts.push(text::clone_bytes(&work[i].1));
            proof {
                assert(text::views(texts@) =~~= before.push(tail[i as int].1));
                assert(texts_with(tail.take(i as int + 1), rep0) == texts_with(
                    pre,
                    rep0,
                ).push(tail[i as int].1));
                assert(before.push(tail[i as int].1) =~~= seq![t0@] + texts_with(
                    pre,
                    rep0,
                ).push(tail[i as int].1));
                assert(text::views(texts@) =~~= seq![t0@] + texts_with(
                    tail.take(i as int + 1),
                    rep0,
                ));
            }
        } else {
            rest.push((work[i].0.duplicate(), text::clone_bytes(&work[i].1)));
            proof {
                assert(handler_rep(rest@[rest@.len() - 1].0) == tail[i as int].0);
                assert(pair_reps(rest@) =~~= drop_with(tail.take(i as int + 1), rep0));
            }
        }
        i += 1;
    }
    proof {
        assert(tail.take(tail.len() as int) =~~= tail);
        lemma_drop_with_len(tail, rep0);
        assert(pair_reps(rest@).len() == rest@.len());
        assert(tail.len() == pairs@.len() - 1);
    }
    let tail_groups = group_by_handler(rest);
    let mut r: Vec<(Handler, Vec<Vec<u8>>)> = Vec::new();
    r.push((h0, texts));
    let mut k: usize = 0;
    while k < tail_groups.len()
        invariant
            k <= tail_groups@.len(),
            r@.len() == k + 1,
            group_reps(r@)[0] == (rep0, seq![t0@] + texts_with(tail, rep0)),
            forall|j: int|
                0 <= j < k ==> group_reps(r@)[j + 1] == group_reps(tail_groups@)[j],
        decreases tail_groups.len() - k,
    {
        let (h, ts) = (tail_groups[k].0.duplicate(), {
            let mut ts2: Vec<Vec<u8>> = Vec::new();
            let src = &tail_groups[k].1;
            let mut m: usize = 0;
            while m < src.len()
                invariant
                    m <= src@.len(),
                    ts2@.len() == m,
                    forall|j: int| 0 <= j < m ==> ts2@[j]@ == src@[j]@,
                decreases src.len() - m,
            {
                ts2.push(text::clone_bytes(&src[m]));
                m += 1;
            }
            proof {
                assert(text::views(ts2@) =~~= text::views(src@));
            }
            ts2
        });
        r.push((h, ts));
        k += 1;
    }
    proof {
        assert(texts_with(tail, rep0) == texts_with(rps.skip(1), rep0));
        assert(seq![rps[0].1] + texts_with(rps.skip(1), rep0) =~~= seq![t0@] + texts_with(
            tail,
            rep0,
        ));
        assert(texts_with(rps, rep0) == seq![rps[0].1] + texts_with(rps.skip(1), rep0)) by {
            assert(rps[0].0 == rep0);
        }
        assert(group_reps(r@) =~~= spec_group(rps));
    }
    r
}

} // verus!
