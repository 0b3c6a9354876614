//! Dispatch order of the video groups.
//!
//! All cached videos are submitted before all uncached ones, each side
//! keeping its original relative order from the grouping.

use vstd::prelude::*;

use crate::cache::CacheIndex;
use crate::requests::VideoGroup;

verus! {

/// The identifiers of the groups, in grouping order.
pub open spec fn spec_group_ids(groups: Seq<VideoGroup>) -> Seq<Seq<char>> {
    groups.map_values(|g: VideoGroup| g.id@)
}

/// The dispatch order: cached identifiers first, uncached after, each side
/// in grouping order.
pub open spec fn spec_schedule(ids: Seq<Seq<char>>, m: Map<Seq<char>, Seq<char>>) -> Seq<
    Seq<char>,
> {
    ids.filter(|id: Seq<char>| m.contains_key(id)) + ids.filter(
        |id: Seq<char>| !m.contains_key(id),
    )
}

/// Filtering a sequence extended by one element keeps the old filtering
/// and appends the element exactly when it passes.
pub proof fn lemma_filter_push<A>(s: Seq<A>, pred: spec_fn(A) -> bool, x: A)
    ensures
        s.push(x).filter(pred) == if pred(x) {
            s.filter(pred).push(x)
        } else {
            s.filter(pred)
        },
{
    reveal(Seq::filter);
    assert(s.push(x).drop_last() =~= s);
    assert(s.push(x).last() == x);
}

/// Every position of the dispatch order is a cache hit exactly when it
/// lies in the leading cached part.
pub proof fn lemma_schedule_hits_first(ids: Seq<Seq<char>>, m: Map<Seq<char>, Seq<char>>)
    ensures
        forall|i: int|
            0 <= i < spec_schedule(ids, m).len() ==> (m.contains_key(
                #[trigger] spec_schedule(ids, m)[i],
            ) <==> i < ids.filter(|id: Seq<char>| m.contains_key(id)).len()),
{
    broadcast use vstd::seq_lib::group_filter_ensures;

    let hits = ids.filter(|id: Seq<char>| m.contains_key(id));
    let misses = ids.filter(|id: Seq<char>| !m.contains_key(id));
    assert forall|i: int| 0 <= i < spec_schedule(ids, m).len() implies (m.contains_key(
        #[trigger] spec_schedule(ids, m)[i],
    ) <==> i < hits.len()) by {
        if i < hits.len() {
            assert(spec_schedule(ids, m)[i] == hits[i]);
            assert(m.contains_key(hits[i]));
        } else {
            assert(spec_schedule(ids, m)[i] == misses[i - hits.len()]);
            assert(!m.contains_key(misses[i - hits.len()]));
        }
    }
}

/// With identifiers `[a, b, c]` grouped in that order and only `b`
/// cached, the submission order is `[b, a, c]`.
pub proof fn lemma_cached_first_order(
    a: Seq<char>,
    b: Seq<char>,
    c: Seq<char>,
    m: Map<Seq<char>, Seq<char>>,
)
    requires
        !m.contains_key(a),
        m.contains_key(b),
        !m.contains_key(c),
    ensures
        spec_schedule(seq![a, b, c], m) == seq![b, a, c],
{
    reveal(Seq::filter);
    let ids = seq![a, b, c];
    let hit = |id: Seq<char>| m.contains_key(id);
    let miss = |id: Seq<char>| !m.contains_key(id);
    assert(ids.drop_last() =~= seq![a, b]);
    assert(seq![a, b].drop_last() =~= seq![a]);
    assert(seq![a].drop_last() =~= Seq::<Seq<char>>::empty());
    assert(Seq::<Seq<char>>::empty().filter(hit) =~= Seq::<Seq<char>>::empty());
    assert(seq![a].filter(hit) =~= Seq::<Seq<char>>::empty());
    assert(seq![a, b].filter(hit) =~= seq![b]);
    assert(ids.filter(hit) =~= seq![b]);
    assert(Seq::<Seq<char>>::empty().filter(miss) =~= Seq::<Seq<char>>::empty());
    assert(seq![a].filter(miss) =~= seq![a]);
    assert(seq![a, b].filter(miss) =~= seq![a]);
    assert(ids.filter(miss) =~= seq![a, c]);
    assert(spec_schedule(ids, m) =~~= seq![b, a, c]);
}

/// Orders the groups' identifiers for submission: the cached ones first in
/// grouping order, then the uncached ones in grouping order.
pub fn schedule_order(groups: &Vec<VideoGroup>, cache: &CacheIndex) -> (r: Vec<String>)
    ensures
        r.deep_view() == spec_schedule(spec_group_ids(groups@), cache.index()),
{
    let ghost ids = spec_group_ids(groups@);
    let ghost m = cache.index();
    let ghost hit = |id: Seq<char>| m.contains_key(id);
    let ghost miss = |id: Seq<char>| !m.contains_key(id);
    let mut out: Vec<String> = Vec::new();
    let mut k: usize = 0;
    proof {
        reveal(Seq::filter);
        assert(ids.take(0) =~= Seq::<Seq<char>>::empty());
        assert(out.deep_view() =~~= ids.take(0).filter(hit));
    }
    while k < groups.len()
        invariant
            k <= groups@.len(),
            ids == spec_group_ids(groups@),
            m == cache.index(),
            hit == (|id: Seq<char>| m.contains_key(id)),
            out.deep_view() == ids.take(k as int).filter(hit),
        decreases groups@.len() - k,
    {
        proof {
            assert(ids[k as int] == groups@[k as int].id@);
            assert(ids.take(k + 1).drop_last() =~= ids.take(k as int));
            assert(ids.take(k + 1) =~= ids.take(k as int).push(ids[k as int]));
            lemma_filter_push(ids.take(k as int), hit, ids[k as int]);
        }
        if cache.contains(groups[k].id.as_str()) {
            out.push(groups[k].id.clone());
            proof {
                assert(out.deep_view() =~~= ids.take(k + 1).filter(hit));
            }
        } else {
            proof {
                assert(out.deep_view() =~~= ids.take(k + 1).filter(hit));
            }
        }
        k += 1;
    }
    let ghost hits = ids.filter(hit);
    proof {
        assert(ids.take(groups@.len() as int) =~= ids);
    }
    let mut k2: usize = 0;
    proof {
        assert(ids.take(0) =~= Seq::<Seq<char>>::empty());
        reveal(Seq::filter);
        assert(out.deep_view() =~~= hits + ids.take(0).filter(miss));
    }
    while k2 < groups.len()
        invariant
            k2 <= groups@.len(),
            ids == spec_group_ids(groups@),
            m == cache.index(),
            hit == (|id: Seq<char>| m.contains_key(id)),
            miss == (|id: Seq<char>| !m.contains_key(id)),
            hits == ids.filter(hit),
            out.deep_view() == hits + ids.take(k2 as int).filter(miss),
        decreases groups@.len() - k2,
    {
        proof {
            assert(ids[k2 as int] == groups@[k2 as int].id@);
            assert(ids.take(k2 + 1).drop_last() =~= ids.take(k2 as int));
            assert(ids.take(k2 + 1) =~= ids.take(k2 as int).push(ids[k2 as int]));
            lemma_filter_push(ids.take(k2 as int), miss, ids[k2 as int]);
        }
        if !cache.contains(groups[k2].id.as_str()) {
            out.push(groups[k2].id.clone());
            proof {
                assert(miss(ids[k2 as int]));
                assert(ids.take(k2 + 1).filter(miss) == ids.take(k2 as int).filter(miss).push(
                    ids[k2 as int],
                ));
                assert(out.deep_view() =~~= (hits + ids.take(k2 as int).filter(miss)).push(
                    ids[k2 as int],
                ));
                assert(out.deep_view() =~~= hits + ids.take(k2 + 1).filter(miss));
            }
        } else {
            proof {
                assert(out.deep_view() =~~= hits + ids.take(k2 + 1).filter(miss));
            }
        }
        k2 += 1;
    }
    proof {
        assert(ids.take(groups@.len() as int) =~= ids);
        assert(out.deep_view() =~~= spec_schedule(ids, m));
    }
    out
}

} // verus!
