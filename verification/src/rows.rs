//! Rows of a table: which are chosen, and in what order they come.
use vstd::prelude::*;

verus! {

/// The views of several rows.
pub open spec fn views<T: View>(rows: Seq<T>) -> Seq<T::V> {
    rows.map_values(|r: T| r@)
}

/// Pushing a row pushes its view.
pub broadcast proof fn views_push<T: View>(rows: Seq<T>, r: T)
    ensures
        #[trigger] views(rows.push(r)) == views(rows).push(r@),
{
    assert(views(rows.push(r)) =~= views(rows).push(r@));
}

/// Setting a row sets its view.
pub broadcast proof fn views_update<T: View>(rows: Seq<T>, i: int, r: T)
    requires
        0 <= i < rows.len(),
    ensures
        #[trigger] views(rows.update(i, r)) == views(rows).update(i, r@),
{
    assert(views(rows.update(i, r)) =~= views(rows).update(i, r@));
}

/// Those of `rows` that `p` holds of, in order.
pub open spec fn kept<T>(rows: Seq<T>, p: spec_fn(T) -> bool) -> Seq<T>
    decreases rows.len(),
{
    if rows.len() == 0 {
        seq![]
    } else {
        let rest = kept(rows.drop_last(), p);
        if p(rows.last()) {
            rest.push(rows.last())
        } else {
            rest
        }
    }
}

/// A row is kept just when it is among the rows and `p` holds of it.
pub proof fn kept_contains<T>(rows: Seq<T>, p: spec_fn(T) -> bool, x: T)
    ensures
        kept(rows, p).contains(x) <==> rows.contains(x) && p(x),
    decreases rows.len(),
{
    if rows.len() > 0 {
        let rest = kept(rows.drop_last(), p);
        kept_contains(rows.drop_last(), p, x);
        let last = rows.last();
        if rows.contains(x) && x != last {
            let i = choose|i: int| 0 <= i < rows.len() && rows[i] == x;
            assert(rows.drop_last()[i] == x);
        }
        if rows.drop_last().contains(x) {
            let i = choose|i: int| 0 <= i < rows.drop_last().len() && rows.drop_last()[i] == x;
            assert(rows[i] == x);
        }
        assert(rows[rows.len() - 1] == last);
        if p(last) {
            assert(rest.push(last)[rest.len() as int] == last);
            if rest.contains(x) {
                let i = choose|i: int| 0 <= i < rest.len() && rest[i] == x;
                assert(rest.push(last)[i] == x);
            }
            if rest.push(last).contains(x) && x != last {
                let i = choose|i: int|
                    0 <= i < rest.push(last).len() && rest.push(last)[i] == x;
                assert(rest[i] == x);
            }
        }
    }
}

/// Where, in an order of places from the latest time to the earliest, a place
/// with time `t` goes: in front of the first whose time is not later.
pub open spec fn place_for(order: Seq<int>, times: Seq<i64>, t: i64) -> nat
    decreases order.len(),
{
    if order.len() == 0 || times[order[0]] <= t {
        0
    } else {
        1 + place_for(order.skip(1), times, t)
    }
}

/// The places of `times` from the latest time to the earliest; of places with
/// the same time the later comes first.
pub open spec fn newest(times: Seq<i64>) -> Seq<int>
    decreases times.len(),
{
    if times.len() == 0 {
        seq![]
    } else {
        let rest = newest(times.drop_last());
        rest.insert(place_for(rest, times, times.last()) as int, times.len() - 1)
    }
}

/// Rows from the latest to the earliest, by their times.
pub open spec fn newest_first<T>(rows: Seq<T>, times: Seq<i64>) -> Seq<T> {
    newest(times).map_values(|i: int| rows[i])
}

/// A place to go to lies within the order or at its end.
proof fn place_for_in_range(order: Seq<int>, times: Seq<i64>, t: i64)
    ensures
        place_for(order, times, t) <= order.len(),
        forall|k: int| 0 <= k < place_for(order, times, t) ==> times[#[trigger] order[k]] > t,
        place_for(order, times, t) < order.len() ==> times[order[place_for(
            order,
            times,
            t,
        ) as int]] <= t,
    decreases order.len(),
{
    if order.len() != 0 && times[order[0]] > t {
        place_for_in_range(order.skip(1), times, t);
        assert forall|k: int| 0 <= k < place_for(order, times, t) implies times[#[trigger] order[k]]
            > t by {
            if k > 0 {
                assert(order.skip(1)[k - 1] == order[k]);
            }
        }
    }
}

/// Places go by the times of the places ordered already, whatever follows them.
proof fn place_for_ignores_rest(order: Seq<int>, a: Seq<i64>, b: Seq<i64>, t: i64)
    requires
        forall|k: int| 0 <= k < order.len() ==> a[#[trigger] order[k]] == b[order[k]],
    ensures
        place_for(order, a, t) == place_for(order, b, t),
    decreases order.len(),
{
    if order.len() > 0 {
        assert(a[order[0]] == b[order[0]]);
        let rest = order.skip(1);
        assert forall|k: int| 0 <= k < rest.len() implies a[#[trigger] rest[k]] == b[rest[k]] by {
            assert(rest[k] == order[k + 1]);
        }
        place_for_ignores_rest(rest, a, b, t);
    }
}

/// Whether place `a` comes in front of place `b`.
pub open spec fn newer(times: Seq<i64>, a: int, b: int) -> bool {
    times[a] > times[b] || (times[a] == times[b] && a > b)
}

/// Rows are listed from the latest to the earliest, each once; of rows with the
/// same time the one written later comes first.
pub proof fn law_newest_first(times: Seq<i64>)
    ensures
        newest(times).len() == times.len(),
        forall|k: int| 0 <= k < times.len() ==> 0 <= #[trigger] newest(times)[k] < times.len(),
        forall|k: int, l: int|
            0 <= k < l < times.len() ==> newer(
                times,
                #[trigger] newest(times)[k],
                #[trigger] newest(times)[l],
            ),
        forall|i: int| 0 <= i < times.len() ==> #[trigger] newest(times).contains(i),
    decreases times.len(),
{
    if times.len() > 0 {
        let before = times.drop_last();
        law_newest_first(before);
        let rest = newest(before);
        let n = times.len() - 1;
        let t = times.last();
        let at = place_for(rest, times, t) as int;
        place_for_in_range(rest, times, t);
        let all = newest(times);
        assert(all == rest.insert(at, n));
        assert forall|k: int| 0 <= k < rest.len() implies times[#[trigger] rest[k]]
            == before[rest[k]] by {}
        assert forall|k: int, l: int| 0 <= k < l < times.len() implies newer(
            times,
            #[trigger] all[k],
            #[trigger] all[l],
        ) by {
            if k < at && l < at {
                assert(newer(before, rest[k], rest[l]));
            } else if k < at && l == at {
            } else if k < at {
                assert(newer(before, rest[k], rest[l - 1]));
            } else if k == at {
                assert(rest[l - 1] < n);
                if l - 1 > at {
                    assert(newer(before, rest[at], rest[l - 1]));
                }
            } else {
                assert(newer(before, rest[k - 1], rest[l - 1]));
            }
        }
        assert forall|i: int| 0 <= i < times.len() implies #[trigger] all.contains(i) by {
            if i == n {
                assert(all[at] == n);
            } else {
                assert(rest.contains(i));
                let k = choose|k: int| 0 <= k < rest.len() && rest[k] == i;
                if k < at {
                    assert(all[k] == i);
                } else {
                    assert(all[k + 1] == i);
                }
            }
        }
    }
}

/// The places as integers.
pub open spec fn places(v: Seq<usize>) -> Seq<int> {
    v.map_values(|i: usize| i as int)
}

/// The places of `times` from the latest time to the earliest.
pub fn newest_order(times: &Vec<i64>) -> (order: Vec<usize>)
    ensures
        places(order@) == newest(times@),
        order@.len() == times@.len(),
        forall|k: int| 0 <= k < order@.len() ==> (#[trigger] order@[k]) < times@.len(),
{
    let mut order: Vec<usize> = Vec::new();
    let mut n: usize = 0;
    assert(places(order@) =~= newest(times@.take(0)));
    while n < times.len()
        invariant
            n <= times@.len(),
            order@.len() == n,
            places(order@) == newest(times@.take(n as int)),
            forall|k: int| 0 <= k < order@.len() ==> (#[trigger] order@[k]) < n,
        decreases times@.len() - n,
    {
        let t: i64 = times[n];
        let ghost now = times@.take(n + 1);
        let ghost before = places(order@);
        let mut at: usize = 0;
        assert(before.skip(0) =~= before);
        while at < order.len() && times[order[at]] > t
            invariant
                at <= order@.len() == n,
                n < times@.len(),
                t == times@[n as int],
                now == times@.take(n + 1),
                before == places(order@),
                forall|k: int| 0 <= k < order@.len() ==> (#[trigger] order@[k]) < n,
                place_for(before, now, t) == at + place_for(before.skip(at as int), now, t),
            decreases order@.len() - at,
        {
            assert(before.skip(at as int)[0] == order@[at as int] as int);
            assert(before.skip(at as int).skip(1) =~= before.skip(at + 1));
            at = at + 1;
        }
        proof {
            if at < order@.len() {
                assert(before.skip(at as int)[0] == order@[at as int] as int);
            }
            assert(now.drop_last() =~= times@.take(n as int));
            assert(now.last() == t);
            assert(places(order@.insert(at as int, n)) =~= before.insert(at as int, n as int));
        }
        order.insert(at, n);
        n = n + 1;
    }
    assert(times@.take(n as int) =~= times@);
    order
}


/// Listing rows from the latest to the earliest lists each row, and no other;
/// none is later than the first.
pub proof fn law_newest_first_lists_all<T>(rows: Seq<T>, times: Seq<i64>)
    requires
        rows.len() == times.len(),
    ensures
        newest_first(rows, times).len() == rows.len(),
        forall|x: T| #[trigger] newest_first(rows, times).contains(x) <==> rows.contains(x),
        forall|i: int| 0 <= i < rows.len() ==> times[newest(times)[0]] >= #[trigger] times[i],
        rows.len() > 0 ==> 0 <= newest(times)[0] < rows.len() && newest_first(rows, times)[0]
            == rows[newest(times)[0]],
{
    law_newest_first(times);
    let order = newest(times);
    let listed = newest_first(rows, times);
    assert forall|x: T| #[trigger] listed.contains(x) <==> rows.contains(x) by {
        if listed.contains(x) {
            let k = choose|k: int| 0 <= k < listed.len() && listed[k] == x;
            assert(rows[order[k]] == x);
        }
        if rows.contains(x) {
            let i = choose|i: int| 0 <= i < rows.len() && rows[i] == x;
            assert(order.contains(i));
            let k = choose|k: int| 0 <= k < order.len() && order[k] == i;
            assert(listed[k] == x);
        }
    }
    assert forall|i: int| 0 <= i < rows.len() implies times[order[0]] >= #[trigger] times[i] by {
        assert(order.contains(i));
        let k = choose|k: int| 0 <= k < order.len() && order[k] == i;
        if k > 0 {
            assert(newer(times, order[0], order[k]));
        }
    }
}

/// The rows kept are those that a filter keeps.
pub proof fn kept_is_filtered<T>(rows: Seq<T>, p: spec_fn(T) -> bool)
    ensures
        kept(rows, p) == rows.filter(p),
    decreases rows.len(),
{
    reveal(Seq::filter);
    if rows.len() > 0 {
        kept_is_filtered(rows.drop_last(), p);
    } else {
        assert(kept(rows, p) =~= rows.filter(p));
    }
}

/// Putting a row in anywhere adds it.
proof fn lemma_insert_multiset<T>(rows: Seq<T>, at: int, x: T)
    requires
        0 <= at <= rows.len(),
    ensures
        rows.insert(at, x).to_multiset() == rows.to_multiset().insert(x),
{
    broadcast use vstd::seq_lib::group_to_multiset_ensures;

    let a = rows.take(at);
    let b = rows.skip(at);
    assert(rows.insert(at, x) =~= a + (seq![x] + b));
    assert(rows =~= a + b);
    vstd::seq_lib::lemma_multiset_commutative(a, seq![x] + b);
    vstd::seq_lib::lemma_multiset_commutative(seq![x], b);
    vstd::seq_lib::lemma_multiset_commutative(a, b);
    assert(seq![x].to_multiset() =~= vstd::multiset::Multiset::singleton(x)) by {
        assert(seq![x] =~= Seq::<T>::empty().push(x));
        assert(Seq::<T>::empty().to_multiset() =~= vstd::multiset::Multiset::empty());
    }
    assert(rows.insert(at, x).to_multiset() =~= rows.to_multiset().insert(x));
}

/// Listing rows from the latest to the earliest keeps how often each is there.
proof fn lemma_newest_first_multiset<T>(rows: Seq<T>, times: Seq<i64>)
    requires
        rows.len() == times.len(),
    ensures
        newest_first(rows, times).to_multiset() == rows.to_multiset(),
    decreases rows.len(),
{
    broadcast use vstd::seq_lib::group_to_multiset_ensures;

    if rows.len() == 0 {
        assert(newest_first(rows, times) =~= rows);
    } else {
        let rest = newest(times.drop_last());
        let before = newest_first(rows.drop_last(), times.drop_last());
        lemma_newest_first_multiset(rows.drop_last(), times.drop_last());
        law_newest_first(times.drop_last());
        let at = place_for(rest, times, times.last()) as int;
        place_for_in_range(rest, times, times.last());
        assert(newest_first(rows, times) =~= before.insert(at, rows.last()));
        lemma_insert_multiset(before, at, rows.last());
        assert(rows =~= rows.drop_last().push(rows.last()));
    }
}

/// What is listed of rows, from the latest to the earliest, is what a filter
/// keeps of them, each as often as it is there; no time is before a later one, and
/// of two with one time that which comes later among the rows comes first.
pub proof fn lemma_listed<T>(rows: Seq<T>, p: spec_fn(T) -> bool, time: spec_fn(T) -> i64) -> (
places: Seq<int>)
    ensures
        ({
            let mine = kept(rows, p);
            let listed = newest_first(mine, mine.map_values(time));
            &&& listed.to_multiset() == rows.filter(p).to_multiset()
            &&& listed.len() == rows.filter(p).len()
            &&& places.len() == listed.len()
            &&& forall|k: int|
                0 <= k < listed.len() ==> 0 <= #[trigger] places[k] < rows.len() && rows[places[k]]
                    == listed[k] && p(listed[k])
            &&& forall|k: int, l: int|
                0 <= k < l < listed.len() ==> {
                    ||| time(listed[k]) > time(listed[l])
                    ||| time(listed[k]) == time(listed[l]) && #[trigger] places[k]
                        > #[trigger] places[l]
                }
        }),
{
    let mine = kept(rows, p);
    let times = mine.map_values(time);
    let listed = newest_first(mine, times);
    kept_is_filtered(rows, p);
    lemma_newest_first_multiset(mine, times);
    law_newest_first(times);
    let from = lemma_kept_from(rows, p);
    let order = newest(times);
    let places = Seq::new(listed.len(), |k: int| from[order[k]]);
    assert forall|k: int, l: int| 0 <= k < l < listed.len() implies {
        ||| time(listed[k]) > time(listed[l])
        ||| time(listed[k]) == time(listed[l]) && #[trigger] places[k] > #[trigger] places[l]
    } by {
        assert(newer(times, order[k], order[l]));
        assert(times[order[k]] == time(listed[k]));
        assert(times[order[l]] == time(listed[l]));
    }
    places
}

/// Where the rows kept come from: they stay in order.
proof fn lemma_kept_from<T>(rows: Seq<T>, p: spec_fn(T) -> bool) -> (from: Seq<int>)
    ensures
        from.len() == kept(rows, p).len(),
        forall|k: int|
            0 <= k < from.len() ==> 0 <= #[trigger] from[k] < rows.len() && rows[from[k]] == kept(
                rows,
                p,
            )[k] && p(rows[from[k]]),
        forall|k: int, l: int|
            0 <= k < l < from.len() ==> #[trigger] from[k] < #[trigger] from[l],
    decreases rows.len(),
{
    if rows.len() == 0 {
        seq![]
    } else {
        let before = lemma_kept_from(rows.drop_last(), p);
        if p(rows.last()) {
            before.push(rows.len() - 1)
        } else {
            before
        }
    }
}

} // verus!
