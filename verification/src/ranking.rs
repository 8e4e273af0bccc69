//! Stable ranking: the order of things by a score and what breaks its ties.
use vstd::prelude::*;
use crate::order::{place_text, Placement};
use crate::order;

verus! {

/// What a thing is ranked by: the higher score first, then the smaller length, then the texts.
pub struct RankKey {
    pub score: i128,
    pub length: usize,
    pub first: String,
    pub second: String,
}

/// A rank key by its texts.
pub struct RankView {
    pub score: int,
    pub length: int,
    pub first: Seq<char>,
    pub second: Seq<char>,
}

impl View for RankKey {
    type V = RankView;

    open spec fn view(&self) -> RankView {
        RankView {
            score: self.score as int,
            length: self.length as int,
            first: self.first@,
            second: self.second@,
        }
    }
}

/// Whether one key ranks strictly before another.
pub open spec fn ranks_before(a: RankView, b: RankView) -> bool {
    if a.score != b.score {
        a.score > b.score
    } else if a.length != b.length {
        a.length < b.length
    } else if a.first != b.first {
        order::text_before(a.first, b.first)
    } else {
        order::text_before(a.second, b.second)
    }
}

/// Ranked indices with one more, put behind all that it does not rank before.
pub open spec fn with_ranked(ranked: Seq<int>, keys: Seq<RankView>, x: int) -> Seq<int>
    decreases ranked.len(),
{
    if ranked.len() == 0 || !ranks_before(keys[x], keys[ranked.last()]) {
        ranked.push(x)
    } else {
        with_ranked(ranked.drop_last(), keys, x).push(ranked.last())
    }
}

/// The first `n` indices in the order of their keys, equal keys in the order of the indices.
pub open spec fn ranking_of(keys: Seq<RankView>, n: int) -> Seq<int>
    decreases n,
{
    if n <= 0 {
        Seq::empty()
    } else {
        with_ranked(ranking_of(keys, n - 1), keys, n - 1)
    }
}

/// All indices in the order of their keys.
pub open spec fn ranking(keys: Seq<RankView>) -> Seq<int> {
    ranking_of(keys, keys.len() as int)
}

/// The things at the indices.
pub open spec fn picked<T>(s: Seq<T>, indices: Seq<int>) -> Seq<T> {
    indices.map_values(|i: int| s[i])
}

/// The views of keys.
pub open spec fn key_views(s: Seq<RankKey>) -> Seq<RankView> {
    s.map_values(|k: RankKey| k@)
}

// ---------------------------------------------------------------------------
// Laws
// ---------------------------------------------------------------------------

/// One index does not come after another: its key ranks before, or the keys tie and it is smaller.
pub open spec fn comes_first(keys: Seq<RankView>, i: int, j: int) -> bool {
    !ranks_before(keys[j], keys[i]) && (!ranks_before(keys[i], keys[j]) ==> i < j)
}

proof fn lemma_rank_transitive(a: RankView, b: RankView, c: RankView)
    ensures
        !ranks_before(a, a),
        ranks_before(a, b) ==> !ranks_before(b, a),
        ranks_before(a, b) && ranks_before(b, c) ==> ranks_before(a, c),
        !ranks_before(b, a) && !ranks_before(c, b) ==> !ranks_before(c, a),
        ranks_before(a, b) && !ranks_before(c, b) ==> ranks_before(a, c),
        !ranks_before(b, a) && ranks_before(b, c) ==> ranks_before(a, c),
{
    order::KeyOrder::irreflexive(a.first);
    order::KeyOrder::irreflexive(a.second);
    order::KeyOrder::total(a.first, b.first);
    order::KeyOrder::total(b.first, c.first);
    order::KeyOrder::total(a.first, c.first);
    order::KeyOrder::total(a.second, b.second);
    order::KeyOrder::total(b.second, c.second);
    order::KeyOrder::total(a.second, c.second);
    order::KeyOrder::irreflexive(b.first);
    order::KeyOrder::irreflexive(b.second);
    order::KeyOrder::irreflexive(c.first);
    order::KeyOrder::irreflexive(c.second);
    lemma_text_transitive_all(a.first, b.first, c.first);
    lemma_text_transitive_all(a.second, b.second, c.second);
}

proof fn lemma_text_transitive_all(a: Seq<char>, b: Seq<char>, c: Seq<char>)
    ensures
        order::text_before(a, b) && order::text_before(b, c) ==> order::text_before(a, c),
        order::text_before(a, b) && order::text_before(b, a) ==> order::text_before(a, a),
        order::text_before(a, c) && order::text_before(c, b) ==> order::text_before(a, b),
        order::text_before(b, a) && order::text_before(a, c) ==> order::text_before(b, c),
        order::text_before(b, c) && order::text_before(c, a) ==> order::text_before(b, a),
        order::text_before(c, a) && order::text_before(a, b) ==> order::text_before(c, b),
        order::text_before(c, b) && order::text_before(b, a) ==> order::text_before(c, a),
{
    if order::text_before(a, b) && order::text_before(b, c) {
        order::KeyOrder::transitive(a, b, c);
    }
    if order::text_before(a, b) && order::text_before(b, a) {
        order::KeyOrder::transitive(a, b, a);
    }
    if order::text_before(a, c) && order::text_before(c, b) {
        order::KeyOrder::transitive(a, c, b);
    }
    if order::text_before(b, a) && order::text_before(a, c) {
        order::KeyOrder::transitive(b, a, c);
    }
    if order::text_before(b, c) && order::text_before(c, a) {
        order::KeyOrder::transitive(b, c, a);
    }
    if order::text_before(c, a) && order::text_before(a, b) {
        order::KeyOrder::transitive(c, a, b);
    }
    if order::text_before(c, b) && order::text_before(b, a) {
        order::KeyOrder::transitive(c, b, a);
    }
}

/// In ranked order, each before the next.
spec fn in_order(ranked: Seq<int>, keys: Seq<RankView>) -> bool {
    forall|i: int, j: int|
        0 <= i < j < ranked.len() ==> comes_first(keys, #[trigger] ranked[i], #[trigger] ranked[j])
}

proof fn lemma_with_ranked(ranked: Seq<int>, keys: Seq<RankView>, x: int)
    requires
        in_order(ranked, keys),
        forall|i: int| 0 <= i < ranked.len() ==> #[trigger] ranked[i] < x,
    ensures
        with_ranked(ranked, keys, x).len() == ranked.len() + 1,
        forall|y: int| #[trigger]
            with_ranked(ranked, keys, x).contains(y) <==> ranked.contains(y) || y == x,
        in_order(with_ranked(ranked, keys, x), keys),
    decreases ranked.len(),
{
    let r = with_ranked(ranked, keys, x);
    if ranked.len() == 0 || !ranks_before(keys[x], keys[ranked.last()]) {
        assert(r == ranked.push(x));
        assert forall|y: int| #[trigger] r.contains(y) <==> ranked.contains(y) || y == x by {
            if ranked.contains(y) {
                let i = choose|i: int| 0 <= i < ranked.len() && ranked[i] == y;
                assert(r[i] == y);
            }
            assert(r[ranked.len() as int] == x);
            if r.contains(y) && y != x {
                let i = choose|i: int| 0 <= i < r.len() && r[i] == y;
                assert(ranked[i] == y);
            }
        }
        assert forall|i: int, j: int| 0 <= i < j < r.len() implies comes_first(
            keys,
            #[trigger] r[i],
            #[trigger] r[j],
        ) by {
            if j < ranked.len() {
                assert(r[i] == ranked[i] && r[j] == ranked[j]);
            } else {
                assert(r[i] == ranked[i]);
                let l = ranked.last();
                if i < ranked.len() - 1 {
                    assert(comes_first(keys, ranked[i], ranked[ranked.len() - 1]));
                    lemma_rank_transitive(keys[ranked[i]], keys[l], keys[x]);
                }
                lemma_rank_transitive(keys[ranked[i]], keys[x], keys[ranked[i]]);
            }
        }
    } else {
        let front = ranked.drop_last();
        let l = ranked.last();
        assert forall|i: int, j: int| 0 <= i < j < front.len() implies comes_first(
            keys,
            #[trigger] front[i],
            #[trigger] front[j],
        ) by {
            assert(front[i] == ranked[i] && front[j] == ranked[j]);
        }
        assert forall|i: int| 0 <= i < front.len() implies #[trigger] front[i] < x by {
            assert(front[i] == ranked[i]);
        }
        lemma_with_ranked(front, keys, x);
        let u = with_ranked(front, keys, x);
        assert(r == u.push(l));
        assert forall|y: int| #[trigger] r.contains(y) <==> ranked.contains(y) || y == x by {
            if r.contains(y) {
                let i = choose|i: int| 0 <= i < r.len() && r[i] == y;
                if i < u.len() {
                    assert(u[i] == y);
                    assert(u.contains(y));
                    if y != x {
                        let o = choose|o: int| 0 <= o < front.len() && front[o] == y;
                        assert(ranked[o] == y);
                    }
                } else {
                    assert(ranked[ranked.len() - 1] == y);
                }
            }
            if ranked.contains(y) {
                let i = choose|i: int| 0 <= i < ranked.len() && ranked[i] == y;
                if i < front.len() {
                    assert(front[i] == y);
                    assert(u.contains(y));
                    let o = choose|o: int| 0 <= o < u.len() && u[o] == y;
                    assert(r[o] == y);
                } else {
                    assert(r[u.len() as int] == y);
                }
            }
            if y == x {
                assert(u.contains(x));
                let o = choose|o: int| 0 <= o < u.len() && u[o] == x;
                assert(r[o] == x);
            }
        }
        assert forall|i: int, j: int| 0 <= i < j < r.len() implies comes_first(
            keys,
            #[trigger] r[i],
            #[trigger] r[j],
        ) by {
            if j < u.len() {
                assert(r[i] == u[i] && r[j] == u[j]);
            } else {
                assert(r[i] == u[i] && r[j] == l);
                assert(u.contains(u[i]));
                if u[i] == x {
                    lemma_rank_transitive(keys[x], keys[l], keys[x]);
                } else {
                    let o = choose|o: int| 0 <= o < front.len() && front[o] == u[i];
                    assert(ranked[o] == u[i]);
                    assert(comes_first(keys, ranked[o], ranked[ranked.len() - 1]));
                }
            }
        }
    }
}

/// A ranking holds every index once, and of any two the one that comes first stands first: a
/// stable sort.
pub proof fn ranking_is_stable_sort(keys: Seq<RankView>, n: int)
    requires
        0 <= n,
    ensures
        ranking_of(keys, n).len() == n,
        forall|y: int| #[trigger] ranking_of(keys, n).contains(y) <==> 0 <= y < n,
        forall|i: int, j: int|
            0 <= i < j < n ==> comes_first(
                keys,
                #[trigger] ranking_of(keys, n)[i],
                #[trigger] ranking_of(keys, n)[j],
            ),
    decreases n,
{
    if n > 0 {
        ranking_is_stable_sort(keys, n - 1);
        let before = ranking_of(keys, n - 1);
        assert forall|i: int| 0 <= i < before.len() implies #[trigger] before[i] < n - 1 by {
            assert(before.contains(before[i]));
        }
        lemma_with_ranked(before, keys, n - 1);
    }
}

// ---------------------------------------------------------------------------
// Execution
// ---------------------------------------------------------------------------

/// Whether one key ranks strictly before another.
fn rank_before(a: &RankKey, b: &RankKey) -> (r: bool)
    ensures
        r == ranks_before(a@, b@),
{
    if a.score != b.score {
        return a.score > b.score;
    }
    if a.length != b.length {
        return a.length < b.length;
    }
    match place_text(a.first.as_str(), b.first.as_str()) {
        Placement::Before => true,
        Placement::After => {
            proof {
                order::KeyOrder::irreflexive(a.first@);
                if order::text_before(a.first@, b.first@) {
                    order::KeyOrder::transitive(a.first@, b.first@, a.first@);
                }
            }
            false
        },
        Placement::Same => match place_text(a.second.as_str(), b.second.as_str()) {
            Placement::Before => true,
            _ => false,
        },
    }
}

/// The indices by their values.
pub open spec fn as_ints(s: Seq<usize>) -> Seq<int> {
    s.map_values(|i: usize| i as int)
}

/// Puts an index behind all ranked ones that it does not rank before.
fn insert_ranked(ranked: &mut Vec<usize>, keys: &Vec<RankKey>, x: usize)
    requires
        x < keys.len(),
        forall|i: int| 0 <= i < old(ranked)@.len() ==> #[trigger] old(ranked)@[i] < keys@.len(),
    ensures
        as_ints(final(ranked)@) == with_ranked(
            as_ints(old(ranked)@),
            key_views(keys@),
            x as int,
        ),
        forall|i: int|
            0 <= i < final(ranked)@.len() ==> #[trigger] final(ranked)@[i] < keys@.len(),
{
    let ghost start = ranked@;
    let ghost views = key_views(keys@);
    let ghost all = as_ints(start);
    let mut at: usize = ranked.len();
    assert(all.take(at as int) =~= all);
    assert(with_ranked(all, views, x as int) =~= with_ranked(all.take(at as int), views, x as int)
        + all.skip(at as int));
    while at > 0 && rank_before(&keys[x], &keys[ranked[at - 1]])
        invariant
            at <= ranked.len(),
            x < keys.len(),
            ranked@ == start,
            all == as_ints(start),
            views == key_views(keys@),
            forall|i: int| 0 <= i < start.len() ==> #[trigger] start[i] < keys@.len(),
            with_ranked(all, views, x as int) == with_ranked(
                all.take(at as int),
                views,
                x as int,
            ) + all.skip(at as int),
        ensures
            at <= ranked.len(),
            with_ranked(all, views, x as int) == all.take(at as int).push(x as int) + all.skip(
                at as int,
            ),
        decreases at,
    {
        proof {
            let t = all.take(at as int);
            assert(t.last() == all[at - 1]);
            assert(t.drop_last() =~= all.take(at - 1));
            assert(with_ranked(t, views, x as int) == with_ranked(
                all.take(at - 1),
                views,
                x as int,
            ).push(all[at - 1]));
            assert(with_ranked(all.take(at - 1), views, x as int).push(all[at - 1]) + all.skip(
                at as int,
            ) =~= with_ranked(all.take(at - 1), views, x as int) + all.skip(at - 1));
        }
        at -= 1;
    }
    ranked.insert(at, x);
    assert(as_ints(ranked@) =~= all.take(at as int).push(x as int) + all.skip(at as int));
}

/// All indices in the order of their keys, equal keys in the order of the indices.
pub fn rank(keys: &Vec<RankKey>) -> (r: Vec<usize>)
    ensures
        as_ints(r@) == ranking(key_views(keys@)),
        r.len() == keys.len(),
        forall|i: int| 0 <= i < r@.len() ==> #[trigger] r@[i] < keys@.len(),
{
    let ghost views = key_views(keys@);
    let mut r: Vec<usize> = Vec::new();
    let mut n: usize = 0;
    assert(as_ints(r@) =~= Seq::<int>::empty());
    while n < keys.len()
        invariant
            n <= keys.len(),
            views == key_views(keys@),
            as_ints(r@) == ranking_of(views, n as int),
            forall|i: int| 0 <= i < r@.len() ==> #[trigger] r@[i] < keys@.len(),
        decreases keys.len() - n,
    {
        insert_ranked(&mut r, keys, n);
        n += 1;
    }
    proof {
        ranking_is_stable_sort(views, n as int);
        assert(as_ints(r@).len() == r@.len());
    }
    r
}

} // verus!
