//! Stable sorting of named items into display order.

use crate::model::{Category, Restaurant};
use crate::name_order::{
    lemma_name_le_antisymmetric, lemma_name_le_reflexive, lemma_name_le_total,
    lemma_name_le_transitive, name_le, name_precedes,
};
use vstd::prelude::*;

verus! {

/// An item that is displayed, and ordered, under a name.
pub trait Named {
    /// The name the item is ordered by.
    spec fn name_view(&self) -> Seq<char>;

    /// The name the item is ordered by.
    fn display_name(&self) -> (name: &str)
        ensures
            name@ == self.name_view(),
    ;
}

impl Named for Category {
    open spec fn name_view(&self) -> Seq<char> {
        self.name@
    }

    fn display_name(&self) -> (name: &str) {
        self.name.as_str()
    }
}

impl Named for Restaurant {
    open spec fn name_view(&self) -> Seq<char> {
        self.name@
    }

    fn display_name(&self) -> (name: &str) {
        self.name.as_str()
    }
}

/// The names of the items are in display order, equal names allowed.
pub open spec fn sorted_by_name<T: Named>(s: Seq<T>) -> bool {
    forall|i: int, j: int|
        0 <= i < j < s.len() ==> name_le(#[trigger] s[i].name_view(), #[trigger] s[j].name_view())
}

/// The first position at or after `from` whose item has a name that comes
/// strictly after `name`; the length of `s` if there is none.
pub open spec fn slot_from<T: Named>(s: Seq<T>, name: Seq<char>, from: int) -> int
    decreases s.len() - from,
{
    if 0 <= from < s.len() && name_le(s[from].name_view(), name) {
        slot_from(s, name, from + 1)
    } else {
        from
    }
}

/// `s` with `item` put in behind the leading items whose names come no later
/// than its own.
pub open spec fn place<T: Named>(s: Seq<T>, item: T) -> Seq<T> {
    s.insert(slot_from(s, item.name_view(), 0), item)
}

/// The items of `s` in display order, items of equal name in the order in
/// which `s` has them.
pub open spec fn stable_sorted<T: Named>(s: Seq<T>) -> Seq<T>
    decreases s.len(),
{
    if s.len() == 0 {
        Seq::empty()
    } else {
        place(stable_sorted(s.drop_last()), s.last())
    }
}

/// What `slot_from` returns: a position in range, with only names no later
/// than `name` between `from` and it, and a strictly later name at it.
pub proof fn lemma_slot_from<T: Named>(s: Seq<T>, name: Seq<char>, from: int)
    requires
        0 <= from <= s.len(),
    ensures
        from <= slot_from(s, name, from) <= s.len(),
        forall|i: int|
            from <= i < slot_from(s, name, from) ==> name_le(#[trigger] s[i].name_view(), name),
        slot_from(s, name, from) < s.len() ==> !name_le(
            s[slot_from(s, name, from)].name_view(),
            name,
        ),
    decreases s.len() - from,
{
    if from < s.len() && name_le(s[from].name_view(), name) {
        lemma_slot_from(s, name, from + 1);
    }
}

/// Placing an item into a sorted sequence leaves it sorted.
pub proof fn lemma_place_sorted<T: Named>(s: Seq<T>, item: T)
    requires
        sorted_by_name(s),
    ensures
        sorted_by_name(place(s, item)),
{
    let name = item.name_view();
    let p = slot_from(s, name, 0);
    lemma_slot_from(s, name, 0);
    let out = place(s, item);
    assert forall|i: int, j: int| 0 <= i < j < out.len() implies name_le(
        #[trigger] out[i].name_view(),
        #[trigger] out[j].name_view(),
    ) by {
        if j < p {
            assert(out[i] == s[i] && out[j] == s[j]);
        } else if j == p {
            assert(out[i] == s[i]);
        } else if i < p {
            assert(out[i] == s[i] && out[j] == s[j - 1]);
        } else if i == p {
            assert(out[j] == s[j - 1]);
            lemma_name_le_total(s[p].name_view(), name);
            if j - 1 > p {
                assert(name_le(s[p].name_view(), s[j - 1].name_view()));
                lemma_name_le_transitive(name, s[p].name_view(), s[j - 1].name_view());
            }
        } else {
            assert(out[i] == s[i - 1] && out[j] == s[j - 1]);
        }
    }
}

/// The sorted sequence holds the same items, each as often as `s` does.
pub proof fn lemma_stable_sorted_permutes<T: Named>(s: Seq<T>)
    ensures
        stable_sorted(s).to_multiset() == s.to_multiset(),
    decreases s.len(),
{
    broadcast use vstd::seq_lib::group_to_multiset_ensures;

    if s.len() > 0 {
        let rest = stable_sorted(s.drop_last());
        lemma_stable_sorted_permutes(s.drop_last());
        lemma_slot_from(rest, s.last().name_view(), 0);
        assert(s.drop_last().push(s.last()) =~= s);
    } else {
        assert(s =~= Seq::empty());
    }
}

/// For each position of the sorted sequence, the position in `s` of the item
/// that stands there.
pub open spec fn sorted_positions<T: Named>(s: Seq<T>) -> Seq<int>
    decreases s.len(),
{
    if s.len() == 0 {
        Seq::empty()
    } else {
        sorted_positions(s.drop_last()).insert(
            slot_from(stable_sorted(s.drop_last()), s.last().name_view(), 0),
            s.len() - 1,
        )
    }
}

/// Some entry of `positions` is `k`.
pub open spec fn names_position(positions: Seq<int>, k: int) -> bool {
    exists|i: int| 0 <= i < positions.len() && #[trigger] positions[i] == k
}

/// `sorted` is a stable sort of `s`, with `positions` telling where each of
/// its items stood in `s`: the two have the same length, every position of
/// `s` is taken exactly once, the names are in display order, and items of
/// equal name stand in the order in which `s` has them.
pub open spec fn is_stable_sort_of<T: Named>(sorted: Seq<T>, positions: Seq<int>, s: Seq<T>)
    -> bool {
    &&& sorted.len() == s.len()
    &&& positions.len() == s.len()
    &&& forall|i: int|
        0 <= i < s.len() ==> 0 <= #[trigger] positions[i] < s.len() && sorted[i]
            == s[positions[i]]
    &&& forall|i: int, j: int|
        0 <= i < j < s.len() ==> #[trigger] positions[i] != #[trigger] positions[j]
    &&& forall|k: int| 0 <= k < s.len() ==> #[trigger] names_position(positions, k)
    &&& sorted_by_name(sorted)
    &&& forall|i: int, j: int|
        0 <= i < j < s.len() && name_le(sorted[j].name_view(), sorted[i].name_view())
            ==> #[trigger] positions[i] < #[trigger] positions[j]
}

/// Sorting rearranges the items, puts their names in display order, and is
/// stable.
pub proof fn lemma_stable_sorted_rearranges<T: Named>(s: Seq<T>)
    ensures
        is_stable_sort_of(stable_sorted(s), sorted_positions(s), s),
    decreases s.len(),
{
    if s.len() > 0 {
        let n = s.len() as int;
        let before = s.drop_last();
        let x = s.last();
        let earlier = stable_sorted(before);
        let earlier_places = sorted_positions(before);
        let q = slot_from(earlier, x.name_view(), 0);
        let t = stable_sorted(s);
        let p = sorted_positions(s);
        lemma_stable_sorted_rearranges(before);
        lemma_slot_from(earlier, x.name_view(), 0);
        lemma_place_sorted(earlier, x);
        assert(t == earlier.insert(q, x));
        assert(p == earlier_places.insert(q, n - 1));
        assert forall|i: int| 0 <= i < n implies 0 <= #[trigger] p[i] < n && t[i] == s[p[i]] by {
            if i < q {
                assert(p[i] == earlier_places[i] && t[i] == earlier[i]);
            } else if i > q {
                assert(p[i] == earlier_places[i - 1] && t[i] == earlier[i - 1]);
            }
        }
        assert forall|i: int, j: int| 0 <= i < j < n implies #[trigger] p[i] != #[trigger] p[j] by {
            let i0 = if i < q { i } else { i - 1 };
            let j0 = if j < q { j } else { j - 1 };
            if i != q {
                assert(p[i] == earlier_places[i0]);
            }
            if j != q {
                assert(p[j] == earlier_places[j0]);
            }
        }
        assert forall|k: int| 0 <= k < n implies #[trigger] names_position(p, k) by {
            if k == n - 1 {
                assert(p[q] == k);
            } else {
                assert(names_position(earlier_places, k));
                let i0 = choose|i0: int| 0 <= i0 < earlier_places.len() && #[trigger] earlier_places[i0] == k;
                let i = if i0 < q { i0 } else { i0 + 1 };
                assert(p[i] == earlier_places[i0]);
            }
        }
        assert forall|i: int, j: int|
            0 <= i < j < n && name_le(t[j].name_view(), t[i].name_view()) implies #[trigger] p[i]
            < #[trigger] p[j] by {
            let i0 = if i < q { i } else { i - 1 };
            let j0 = if j < q { j } else { j - 1 };
            if j == q {
                assert(p[i] == earlier_places[i0]);
            } else if i == q {
                assert(t[j] == earlier[j0]);
                if j0 > q {
                    assert(name_le(earlier[q].name_view(), earlier[j0].name_view()));
                    lemma_name_le_transitive(
                        earlier[q].name_view(),
                        earlier[j0].name_view(),
                        x.name_view(),
                    );
                }
            } else {
                assert(p[i] == earlier_places[i0] && t[i] == earlier[i0]);
                assert(p[j] == earlier_places[j0] && t[j] == earlier[j0]);
            }
        }
    }
}

proof fn lemma_positions_agree<T: Named>(
    s: Seq<T>,
    first: Seq<T>,
    first_places: Seq<int>,
    second: Seq<T>,
    second_places: Seq<int>,
    upto: int,
)
    requires
        is_stable_sort_of(first, first_places, s),
        is_stable_sort_of(second, second_places, s),
        0 <= upto <= s.len(),
    ensures
        forall|m: int| 0 <= m < upto ==> first_places[m] == second_places[m],
    decreases upto,
{
    if upto > 0 {
        lemma_positions_agree(s, first, first_places, second, second_places, upto - 1);
        let m = upto - 1;
        assert(names_position(first_places, second_places[m]));
        let j = choose|j: int|
            0 <= j < first_places.len() && #[trigger] first_places[j] == second_places[m];
        assert(names_position(second_places, first_places[m]));
        let k = choose|k: int|
            0 <= k < second_places.len() && #[trigger] second_places[k] == first_places[m];
        if j < m {
            assert(second_places[j] != second_places[m]);
        }
        if k < m {
            assert(first_places[k] != first_places[m]);
        }
        if j > m && k > m {
            let a = first_places[m];
            let b = second_places[m];
            assert(first[m] == s[a] && first[j] == s[b]);
            assert(second[m] == s[b] && second[k] == s[a]);
            assert(name_le(first[m].name_view(), first[j].name_view()));
            assert(name_le(second[m].name_view(), second[k].name_view()));
            assert(first_places[m] < first_places[j]);
            assert(second_places[m] < second_places[k]);
        }
    }
}

/// There is only one stable sort: whatever rearranges `s` into display order
/// and keeps items of equal name in their order is the sorted sequence.
pub proof fn lemma_stable_sort_unique<T: Named>(s: Seq<T>, sorted: Seq<T>, positions: Seq<int>)
    requires
        is_stable_sort_of(sorted, positions, s),
    ensures
        sorted == stable_sorted(s),
        positions == sorted_positions(s),
{
    lemma_stable_sorted_rearranges(s);
    lemma_positions_agree(
        s,
        sorted,
        positions,
        stable_sorted(s),
        sorted_positions(s),
        s.len() as int,
    );
    assert(positions =~= sorted_positions(s));
    assert forall|i: int| 0 <= i < s.len() implies sorted[i] == stable_sorted(s)[i] by {
        assert(sorted[i] == s[positions[i]]);
        assert(stable_sorted(s)[i] == s[sorted_positions(s)[i]]);
    }
    assert(sorted =~= stable_sorted(s));
}

/// Leaving items out of a sequence in display order leaves it in display
/// order.
pub proof fn lemma_filter_sorted<T: Named>(s: Seq<T>, pred: spec_fn(T) -> bool)
    requires
        sorted_by_name(s),
    ensures
        sorted_by_name(s.filter(pred)),
    decreases s.len(),
{
    reveal(Seq::filter);
    if s.len() > 0 {
        let before = s.drop_last();
        assert forall|i: int, j: int| 0 <= i < j < before.len() implies name_le(
            #[trigger] before[i].name_view(),
            #[trigger] before[j].name_view(),
        ) by {
            assert(before[i] == s[i] && before[j] == s[j]);
        }
        lemma_filter_sorted(before, pred);
        let kept = before.filter(pred);
        if pred(s.last()) {
            let out = kept.push(s.last());
            assert forall|i: int, j: int| 0 <= i < j < out.len() implies name_le(
                #[trigger] out[i].name_view(),
                #[trigger] out[j].name_view(),
            ) by {
                if j < kept.len() {
                    assert(out[i] == kept[i] && out[j] == kept[j]);
                } else {
                    assert(kept.contains(kept[i]));
                    before.lemma_filter_contains_rev(pred, kept[i]);
                    let m = choose|m: int| 0 <= m < before.len() && before[m] == kept[i];
                    assert(s[m] == out[i] && s[s.len() - 1] == out[j]);
                }
            }
        }
    }
}

/// Leaving items out of a sequence that holds nothing twice leaves one that
/// holds nothing twice.
pub proof fn lemma_filter_no_duplicates<A>(s: Seq<A>, pred: spec_fn(A) -> bool)
    requires
        s.no_duplicates(),
    ensures
        s.filter(pred).no_duplicates(),
    decreases s.len(),
{
    reveal(Seq::filter);
    if s.len() > 0 {
        let before = s.drop_last();
        assert(before.no_duplicates()) by {
            assert forall|i: int, j: int|
                0 <= i < before.len() && 0 <= j < before.len() && i != j implies before[i]
                != before[j] by {
                assert(before[i] == s[i] && before[j] == s[j]);
            }
        }
        lemma_filter_no_duplicates(before, pred);
        let kept = before.filter(pred);
        if pred(s.last()) {
            if kept.contains(s.last()) {
                before.lemma_filter_contains_rev(pred, s.last());
                let m = choose|m: int| 0 <= m < before.len() && before[m] == s.last();
                assert(s[m] == s[s.len() - 1]);
            }
            let out = kept.push(s.last());
            assert forall|i: int, j: int|
                0 <= i < out.len() && 0 <= j < out.len() && i != j implies out[i] != out[j] by {
                if i < kept.len() && j < kept.len() {
                    assert(out[i] == kept[i] && out[j] == kept[j]);
                } else if i < kept.len() {
                    assert(kept.contains(kept[i]));
                } else {
                    assert(kept.contains(kept[j]));
                }
            }
        }
    }
}

/// No two items of the sequence have the same name.
pub open spec fn distinct_names<T: Named>(s: Seq<T>) -> bool {
    forall|i: int, j: int|
        0 <= i < j < s.len() ==> #[trigger] s[i].name_view() != #[trigger] s[j].name_view()
}

/// Two sequences in display order that hold the same items, no two of them
/// of the same name, are the same sequence.
pub proof fn lemma_sorted_agree<T: Named>(x: Seq<T>, y: Seq<T>)
    requires
        sorted_by_name(x),
        sorted_by_name(y),
        distinct_names(x),
        x.to_multiset() == y.to_multiset(),
    ensures
        x == y,
    decreases x.len(),
{
    broadcast use vstd::multiset::group_multiset_axioms;
    broadcast use vstd::seq_lib::group_to_multiset_ensures;

    assert(x.len() == y.len()) by {
        assert(x.to_multiset().len() == x.len());
        assert(y.to_multiset().len() == y.len());
    }
    if x.len() == 0 {
        assert(x =~= y);
    } else {
        assert(x.to_multiset().contains(x[0]));
        assert(y.to_multiset().contains(y[0]));
        assert(y.to_multiset().contains(x[0]));
        assert(x.to_multiset().contains(y[0]));
        let i = choose|i: int| 0 <= i < x.len() && #[trigger] x[i] == y[0];
        let j = choose|j: int| 0 <= j < y.len() && #[trigger] y[j] == x[0];
        if i != 0 {
            assert(name_le(x[0].name_view(), x[i].name_view()));
            if j != 0 {
                assert(name_le(y[0].name_view(), y[j].name_view()));
            } else {
                lemma_name_le_reflexive(y[0].name_view());
            }
            lemma_name_le_antisymmetric(x[0].name_view(), x[i].name_view());
            assert(x[0].name_view() != x[i].name_view());
        }
        assert(x[0] == y[0]);
        let xs = x.drop_first();
        let ys = y.drop_first();
        assert(xs.to_multiset() == x.to_multiset().remove(x[0])) by {
            vstd::seq_lib::to_multiset_remove(x, 0);
            assert(x.remove(0) =~= xs);
        }
        assert(ys.to_multiset() == y.to_multiset().remove(y[0])) by {
            vstd::seq_lib::to_multiset_remove(y, 0);
            assert(y.remove(0) =~= ys);
        }
        assert forall|a: int, b: int| 0 <= a < b < xs.len() implies name_le(
            #[trigger] xs[a].name_view(),
            #[trigger] xs[b].name_view(),
        ) by {
            assert(xs[a] == x[a + 1] && xs[b] == x[b + 1]);
        }
        assert forall|a: int, b: int| 0 <= a < b < ys.len() implies name_le(
            #[trigger] ys[a].name_view(),
            #[trigger] ys[b].name_view(),
        ) by {
            assert(ys[a] == y[a + 1] && ys[b] == y[b + 1]);
        }
        assert forall|a: int, b: int| 0 <= a < b < xs.len() implies #[trigger] xs[a].name_view()
            != #[trigger] xs[b].name_view() by {
            assert(xs[a] == x[a + 1] && xs[b] == x[b + 1]);
        }
        lemma_sorted_agree(xs, ys);
        assert(x =~= seq![x[0]] + xs);
        assert(y =~= seq![y[0]] + ys);
    }
}

/// Where no two items have the same name, the sorted sequence does not
/// depend on the order in which the items are given.
pub proof fn lemma_stable_sorted_ignores_order<T: Named>(a: Seq<T>, b: Seq<T>)
    requires
        distinct_names(a),
        a.to_multiset() == b.to_multiset(),
    ensures
        stable_sorted(a) == stable_sorted(b),
{
    lemma_stable_sorted_rearranges(a);
    lemma_stable_sorted_rearranges(b);
    lemma_stable_sorted_permutes(a);
    lemma_stable_sorted_permutes(b);
    let sorted = stable_sorted(a);
    let places = sorted_positions(a);
    assert forall|i: int, j: int| 0 <= i < j < sorted.len() implies #[trigger] sorted[i].name_view()
        != #[trigger] sorted[j].name_view() by {
        assert(sorted[i] == a[places[i]] && sorted[j] == a[places[j]]);
        assert(places[i] != places[j]);
        if places[i] < places[j] {
            assert(a[places[i]].name_view() != a[places[j]].name_view());
        } else {
            assert(a[places[j]].name_view() != a[places[i]].name_view());
        }
    }
    lemma_sorted_agree(stable_sorted(a), stable_sorted(b));
}

fn slot<T: Named>(sorted: &Vec<T>, item: &T) -> (p: usize)
    ensures
        p == slot_from(sorted@, item.name_view(), 0),
        p <= sorted.len(),
{
    let mut p: usize = 0;
    while p < sorted.len() && name_precedes(sorted[p].display_name(), item.display_name())
        invariant
            p <= sorted.len(),
            slot_from(sorted@, item.name_view(), 0) == slot_from(
                sorted@,
                item.name_view(),
                p as int,
            ),
        decreases sorted.len() - p,
    {
        p += 1;
    }
    p
}

/// Sorts the items into display order. The sort is stable: items of equal
/// name keep the order in which they were given.
pub fn sort_by_name<T: Named>(items: Vec<T>) -> (sorted: Vec<T>)
    ensures
        sorted@ == stable_sorted(items@),
        is_stable_sort_of(sorted@, sorted_positions(items@), items@),
{
    let ghost given = items@;
    proof {
        lemma_stable_sorted_rearranges(given);
    }
    let mut sorted: Vec<T> = Vec::new();
    for item in it: items
        invariant
            it.seq() == given,
            sorted@ == stable_sorted(given.take(it.index())),
    {
        let p = slot(&sorted, &item);
        proof {
            let k = it.index();
            assert(given.take(k + 1).drop_last() =~= given.take(k));
            assert(given.take(k + 1).last() == item);
        }
        sorted.insert(p, item);
    }
    proof {
        assert(given.take(given.len() as int) =~= given);
    }
    sorted
}

} // verus!
