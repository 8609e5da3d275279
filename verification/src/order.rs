//! Sorting by a total order.

use vstd::prelude::*;
use vstd::relations::{sorted_by, total_ordering};

verus! {

/// A type whose values are ranked by a total order of their views.
pub trait Ranked: View + Sized {
    /// Negative, zero or positive as `a` comes before, is, or comes after `b`.
    spec fn order(a: Self::V, b: Self::V) -> int;

    /// The order is total: zero on equal views alone, of opposite sign when the views change
    /// places, and transitive.
    proof fn order_laws(a: Self::V, b: Self::V, c: Self::V)
        ensures
            -1 <= Self::order(a, b) <= 1,
            Self::order(a, b) == 0 <==> a == b,
            Self::order(a, b) == -Self::order(b, a),
            Self::order(a, b) <= 0 && Self::order(b, c) <= 0 ==> Self::order(a, c) <= 0,
    ;

    /// The rank of `self` against `other`.
    fn rank(&self, other: &Self) -> (r: i8)
        ensures
            r == Self::order(self@, other@),
    ;
}

/// The order of `T` as a relation.
pub open spec fn at_most<T: Ranked>() -> spec_fn(T::V, T::V) -> bool {
    |a: T::V, b: T::V| T::order(a, b) <= 0
}

/// The views of the items of a sequence.
pub open spec fn views<T: View>(items: Seq<T>) -> Seq<T::V> {
    items.map_values(|item: T| item@)
}

/// The sequence `items` in the order of `T`.
pub open spec fn ranked<T: Ranked>(items: Seq<T::V>) -> Seq<T::V> {
    items.sort_by(at_most::<T>())
}

/// `at_most` is a total order in the sense of `vstd`.
pub proof fn at_most_is_total<T: Ranked>()
    ensures
        total_ordering(at_most::<T>()),
{
    let leq = at_most::<T>();
    assert forall|x: T::V| #[trigger] leq(x, x) by {
        T::order_laws(x, x, x);
    }
    assert forall|x: T::V, y: T::V| #[trigger] leq(x, y) && #[trigger] leq(y, x) implies x
        == y by {
        T::order_laws(x, y, x);
    }
    assert forall|x: T::V, y: T::V, z: T::V| #[trigger]
        leq(x, y) && #[trigger] leq(y, z) implies leq(x, z) by {
        T::order_laws(x, y, z);
    }
    assert forall|x: T::V, y: T::V| #[trigger] leq(x, y) || #[trigger] leq(y, x) by {
        T::order_laws(x, y, x);
    }
}

/// The sorted sequence holds the same items, in order, and is the only one that does.
pub proof fn ranked_is_the_sorting<T: Ranked>(items: Seq<T::V>, other: Seq<T::V>)
    ensures
        sorted_by(ranked::<T>(items), at_most::<T>()),
        ranked::<T>(items).to_multiset() == items.to_multiset(),
        sorted_by(other, at_most::<T>()) && other.to_multiset() == items.to_multiset() ==> other
            == ranked::<T>(items),
{
    at_most_is_total::<T>();
    items.lemma_sort_by_ensures(at_most::<T>());
    if sorted_by(other, at_most::<T>()) && other.to_multiset() == items.to_multiset() {
        vstd::seq_lib::lemma_sorted_unique(other, ranked::<T>(items), at_most::<T>());
    }
}

/// Sorting forgets the order in which the items came.
pub proof fn ranked_forgets_order<T: Ranked>(a: Seq<T::V>, b: Seq<T::V>)
    requires
        a.to_multiset() == b.to_multiset(),
    ensures
        ranked::<T>(a) == ranked::<T>(b),
{
    ranked_is_the_sorting::<T>(a, a);
    ranked_is_the_sorting::<T>(b, ranked::<T>(a));
}

/// A sequence that lists the items of a set, each once.
pub open spec fn lists<A>(items: Seq<A>, set: Set<A>) -> bool {
    items.no_duplicates() && items.to_set() == set
}

/// Two sequences that list one set hold the same items.
pub proof fn listings_agree<A>(a: Seq<A>, b: Seq<A>, set: Set<A>)
    requires
        lists(a, set),
        lists(b, set),
    ensures
        a.to_multiset() == b.to_multiset(),
{
    broadcast use vstd::seq_lib::group_to_multiset_ensures;
    broadcast use vstd::multiset::group_multiset_axioms;

    a.lemma_multiset_has_no_duplicates();
    b.lemma_multiset_has_no_duplicates();
    assert forall|x: A| a.to_multiset().count(x) == b.to_multiset().count(x) by {
        assert(a.contains(x) == a.to_set().contains(x));
        assert(b.contains(x) == b.to_set().contains(x));
        assert(a.contains(x) <==> a.to_multiset().count(x) > 0);
        assert(b.contains(x) <==> b.to_multiset().count(x) > 0);
    }
    assert(a.to_multiset() =~= b.to_multiset());
}

/// Sequences that hold the same items still do so when each item is mapped.
pub proof fn mapped_items_agree<A, B>(a: Seq<A>, b: Seq<A>, f: spec_fn(A) -> B)
    requires
        a.to_multiset() == b.to_multiset(),
    ensures
        a.map_values(f).to_multiset() == b.map_values(f).to_multiset(),
    decreases a.len(),
{
    broadcast use vstd::seq_lib::group_to_multiset_ensures;

    assert(a.len() == a.to_multiset().len());
    assert(b.len() == b.to_multiset().len());
    if a.len() == 0 {
        assert(a.map_values(f) =~= b.map_values(f));
    } else {
        let last = a.last();
        assert(a.contains(last));
        assert(b.to_multiset().count(last) > 0);
        assert(b.contains(last));
        let at = choose|i: int| 0 <= i < b.len() && b[i] == last;
        let (c, d) = (a.drop_last(), b.remove(at));
        assert(a =~= c.push(last));
        assert(b =~= d.insert(at, last));
        assert(c.to_multiset() =~= a.to_multiset().remove(last));
        assert(d.to_multiset() =~= b.to_multiset().remove(last));
        mapped_items_agree(c, d, f);
        assert(a.map_values(f) =~= c.map_values(f).push(f(last)));
        assert(b.map_values(f) =~= d.map_values(f).insert(at, f(last)));
        vstd::seq_lib::to_multiset_insert(d.map_values(f), at, f(last));
        assert(a.map_values(f).to_multiset() =~= b.map_values(f).to_multiset());
    }
}

/// `back` holds items in falling order, none of them below an item of `front`.
spec fn stacked<T: Ranked>(front: Seq<T::V>, back: Seq<T::V>) -> bool {
    &&& forall|i: int, j: int|
        0 <= i < front.len() && 0 <= j < back.len() ==> T::order(
            #[trigger] front[i],
            #[trigger] back[j],
        ) <= 0
    &&& forall|i: int, j: int|
        0 <= i < j < back.len() ==> T::order(#[trigger] back[j], #[trigger] back[i]) <= 0
}

/// Moves the last item of `from` to the end of `to`.
fn shift<T: Ranked>(from: &mut Vec<T>, to: &mut Vec<T>)
    requires
        old(from)@.len() > 0,
    ensures
        final(from)@ == old(from)@.drop_last(),
        final(to)@ == old(to)@.push(old(from)@.last()),
        views(final(from)@) == views(old(from)@).drop_last(),
        views(final(to)@) == views(old(to)@).push(views(old(from)@).last()),
        views(final(from)@).to_multiset().add(views(final(to)@).to_multiset()) == views(
            old(from)@,
        ).to_multiset().add(views(old(to)@).to_multiset()),
{
    if let Some(item) = from.pop() {
        to.push(item);
    }
    proof {
        broadcast use vstd::seq_lib::group_to_multiset_ensures;

        let before = views(old(from)@);
        assert(views(from@) =~= before.drop_last());
        assert(views(to@) =~= views(old(to)@).push(before.last()));
        assert(before =~= before.drop_last().push(before.last()));
        assert(views(from@).to_multiset().add(views(to@).to_multiset()) =~= before.to_multiset().add(
            views(old(to)@).to_multiset(),
        ));
    }
}

/// Merges two sorted sequences into one.
fn merge<T: Ranked>(left: Vec<T>, right: Vec<T>) -> (r: Vec<T>)
    requires
        sorted_by(views(left@), at_most::<T>()),
        sorted_by(views(right@), at_most::<T>()),
    ensures
        sorted_by(views(r@), at_most::<T>()),
        views(r@).to_multiset() == views(left@).to_multiset().add(views(right@).to_multiset()),
{
    let mut a = left;
    let mut b = right;
    let mut falling: Vec<T> = Vec::new();
    let ghost leq = at_most::<T>();
    let ghost total = views(left@).to_multiset().add(views(right@).to_multiset());
    proof {
        broadcast use vstd::seq_lib::group_to_multiset_ensures;

        assert(views(falling@) =~= Seq::<T::V>::empty());
        assert(views(a@).to_multiset().add(views(b@).to_multiset()).add(
            views(falling@).to_multiset(),
        ) =~= total);
    }
    while a.len() > 0 || b.len() > 0
        invariant
            leq == at_most::<T>(),
            sorted_by(views(a@), leq),
            sorted_by(views(b@), leq),
            stacked::<T>(views(a@), views(falling@)),
            stacked::<T>(views(b@), views(falling@)),
            views(a@).to_multiset().add(views(b@).to_multiset()).add(views(falling@).to_multiset())
                == total,
        decreases a@.len() + b@.len(),
    {
        let ghost va = views(a@);
        let ghost vb = views(b@);
        let ghost vf = views(falling@);
        let from_left = b.len() == 0 || (a.len() > 0 && a[a.len() - 1].rank(&b[b.len() - 1]) > 0);
        proof {
            assert forall|x: T::V, y: T::V| #[trigger] T::order(x, y) == -T::order(y, x) by {
                T::order_laws(x, y, x);
            }
            assert forall|x: T::V, y: T::V, z: T::V|
                #[trigger] T::order(x, y) <= 0 && #[trigger] T::order(y, z) <= 0 implies T::order(
                x,
                z,
            ) <= 0 by {
                T::order_laws(x, y, z);
            }
            assert forall|i: int| 0 <= i < va.len() implies T::order(
                #[trigger] va[i],
                va.last(),
            ) <= 0 by {
                T::order_laws(va[i], va[i], va[i]);
                assert(i < va.len() - 1 ==> leq(va[i], va[va.len() - 1]));
            }
            assert forall|i: int| 0 <= i < vb.len() implies T::order(
                #[trigger] vb[i],
                vb.last(),
            ) <= 0 by {
                T::order_laws(vb[i], vb[i], vb[i]);
                assert(i < vb.len() - 1 ==> leq(vb[i], vb[vb.len() - 1]));
            }
        }
        if from_left {
            shift(&mut a, &mut falling);
        } else {
            shift(&mut b, &mut falling);
        }
        proof {
            let (ma, mb, mf) = (
                views(a@).to_multiset(),
                views(b@).to_multiset(),
                views(falling@).to_multiset(),
            );
            let (na, nb, nf) = (va.to_multiset(), vb.to_multiset(), vf.to_multiset());
            assert(na.add(nb).add(nf) =~= na.add(nf).add(nb));
            assert(na.add(nb).add(nf) =~= nb.add(nf).add(na));
            assert(ma.add(mb).add(mf) =~= ma.add(mf).add(mb));
            assert(ma.add(mb).add(mf) =~= mb.add(mf).add(ma));
        }
    }
    let mut rising: Vec<T> = Vec::new();
    let ghost vf = views(falling@);
    proof {
        broadcast use vstd::seq_lib::group_to_multiset_ensures;

        assert(views(a@) =~= Seq::<T::V>::empty());
        assert(views(b@) =~= Seq::<T::V>::empty());
        assert(views(rising@) =~= Seq::<T::V>::empty());
        assert(vf.to_multiset() =~= total);
        assert(vf.to_multiset().add(views(rising@).to_multiset()) =~= total);
    }
    while falling.len() > 0
        invariant
            leq == at_most::<T>(),
            stacked::<T>(Seq::<T::V>::empty(), vf),
            views(falling@) == vf.take(falling@.len() as int),
            falling@.len() + rising@.len() == vf.len(),
            forall|i: int|
                0 <= i < rising@.len() ==> #[trigger] views(rising@)[i] == vf[vf.len() - 1 - i],
            views(falling@).to_multiset().add(views(rising@).to_multiset()) == total,
        decreases falling@.len(),
    {
        shift(&mut falling, &mut rising);
    }
    proof {
        broadcast use vstd::seq_lib::group_to_multiset_ensures;

        let vr = views(rising@);
        assert(views(falling@) =~= Seq::<T::V>::empty());
        assert(vr.to_multiset() =~= total);
        assert forall|i: int, j: int| 0 <= i < j < vr.len() implies #[trigger] leq(vr[i], vr[j]) by {
            assert(T::order(vf[vf.len() - 1 - i], vf[vf.len() - 1 - j]) <= 0);
        }
    }
    rising
}

/// Sorts `items` in the order of `T`.
pub fn sort<T: Ranked>(items: Vec<T>) -> (r: Vec<T>)
    ensures
        views(r@) == ranked::<T>(views(items@)),
    decreases items@.len(),
{
    let ghost before = views(items@);
    if items.len() <= 1 {
        proof {
            ranked_is_the_sorting::<T>(before, before);
        }
        return items;
    }
    let mut head = items;
    let tail = head.split_off(head.len() / 2);
    let ghost vh = views(head@);
    let ghost vt = views(tail@);
    let left = sort(head);
    let right = sort(tail);
    proof {
        ranked_is_the_sorting::<T>(vh, vh);
        ranked_is_the_sorting::<T>(vt, vt);
    }
    let r = merge(left, right);
    proof {
        assert(before =~= vh + vt);
        vstd::seq_lib::lemma_multiset_commutative(vh, vt);
        ranked_is_the_sorting::<T>(before, views(r@));
    }
    r
}

} // verus!
