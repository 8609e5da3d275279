//! Walks over resources: which are reached, and whether a walk need not end.

use vstd::prelude::*;

use crate::rdf::Resource;
use crate::text::same_text;
#[allow(unused_imports)]
use crate::{order::views, rdf::ResourceV};

verus! {

/// What the items of a list are, in no order.
pub open spec fn listed<T: View>(items: Seq<T>) -> Set<T::V> {
    views(items).to_set()
}

/// What is listed stands at some place.
pub proof fn listed_at<T: View>(items: Seq<T>, x: T::V) -> (i: int)
    requires
        listed(items).contains(x),
    ensures
        0 <= i < items.len(),
        items[i]@ == x,
{
    let i = choose|i: int| 0 <= i < views(items).len() && views(items)[i] == x;
    assert(views(items)[i] == items[i]@);
    i
}

/// What stands at some place is listed.
pub proof fn is_listed<T: View>(items: Seq<T>, i: int)
    requires
        0 <= i < items.len(),
    ensures
        listed(items).contains(items[i]@),
{
    assert(views(items)[i] == items[i]@);
}

/// What is listed with one item more.
pub proof fn listed_push<T: View>(items: Seq<T>, item: T)
    ensures
        listed(items.push(item)) == listed(items).insert(item@),
{
    let more = items.push(item);
    assert forall|x: T::V| listed(more).contains(x) == listed(items).insert(item@).contains(x) by {
        if listed(more).contains(x) {
            let i = listed_at(more, x);
            if i < items.len() {
                assert(more[i] == items[i]);
                is_listed(items, i);
            }
        }
        if listed(items).contains(x) {
            let i = listed_at(items, x);
            assert(more[i] == items[i]);
            is_listed(more, i);
        }
        is_listed(more, items.len() as int);
    }
    assert(listed(more) =~= listed(items).insert(item@));
}

/// Nothing is listed in an empty list.
pub proof fn nothing_listed<T: View>()
    ensures
        listed(Seq::<T>::empty()) == Set::<T::V>::empty(),
{
    assert(listed(Seq::<T>::empty()) =~= Set::<T::V>::empty());
}

/// What two lists hold, one after the other.
pub fn both<T: View>(a: Vec<T>, b: Vec<T>) -> (r: Vec<T>)
    ensures
        listed(r@) == listed(a@) + listed(b@),
{
    let ghost (x, y) = (a@, b@);
    let mut out = a;
    let mut more = b;
    out.append(&mut more);
    proof {
        assert(out@ =~= x + y);
        assert forall|v: T::V| listed(x + y).contains(v) == (listed(x) + listed(y)).contains(v) by {
            if listed(x + y).contains(v) {
                let i = listed_at(x + y, v);
                if i < x.len() {
                    is_listed(x, i);
                } else {
                    is_listed(y, i - x.len());
                }
            }
            if listed(x).contains(v) {
                let i = listed_at(x, v);
                is_listed(x + y, i);
            }
            if listed(y).contains(v) {
                let i = listed_at(y, v);
                is_listed(x + y, i + x.len());
            }
        }
        assert(listed(out@) =~= listed(x) + listed(y));
    }
    out
}

/// A copy of a resource.
pub fn copy_resource(resource: &Resource) -> (r: Resource)
    ensures
        r@ == resource@,
{
    match resource {
        Resource::Iri(iri) => Resource::Iri(iri.clone()),
        Resource::Blank(label) => Resource::Blank(label.clone()),
    }
}

/// Whether two resources are the same.
pub fn same_resource(a: &Resource, b: &Resource) -> (r: bool)
    ensures
        r == (a@ == b@),
{
    match (a, b) {
        (Resource::Iri(x), Resource::Iri(y)) => same_text(x.as_str(), y.as_str()),
        (Resource::Blank(x), Resource::Blank(y)) => same_text(x.as_str(), y.as_str()),
        _ => false,
    }
}

/// Whether a resource is listed.
pub fn lists_resource(resources: &Vec<Resource>, resource: &Resource) -> (r: bool)
    ensures
        r == listed(resources@).contains(resource@),
{
    let mut i: usize = 0;
    while i < resources.len()
        invariant
            i <= resources@.len(),
            forall|k: int| 0 <= k < i ==> (#[trigger] resources@[k])@ != resource@,
        decreases resources@.len() - i,
    {
        if same_resource(&resources[i], resource) {
            proof {
                is_listed(resources@, i as int);
            }
            return true;
        }
        i += 1;
    }
    proof {
        if listed(resources@).contains(resource@) {
            let k = listed_at(resources@, resource@);
        }
    }
    false
}

/// A step from one resource to another.
pub struct Link {
    pub from: Resource,
    pub to: Resource,
}

impl View for Link {
    type V = (ResourceV, ResourceV);

    open spec fn view(&self) -> (ResourceV, ResourceV) {
        (self.from@, self.to@)
    }
}

/// Whether a link follows another.
pub open spec fn follows(
    links: Set<(ResourceV, ResourceV)>,
    link: (ResourceV, ResourceV),
    next: (ResourceV, ResourceV),
) -> bool {
    links.contains(next) && link.1 == next.0
}

/// Whether some link follows a link.
pub open spec fn is_followed(
    links: Set<(ResourceV, ResourceV)>,
    link: (ResourceV, ResourceV),
) -> bool {
    exists|next: (ResourceV, ResourceV)| #[trigger] follows(links, link, next)
}

/// Whether every link has one to follow it.
pub open spec fn goes_on(links: Set<(ResourceV, ResourceV)>) -> bool {
    forall|link: (ResourceV, ResourceV)| #[trigger]
        links.contains(link) ==> is_followed(links, link)
}

/// Whether some links make a walk that goes on.
pub open spec fn walks_on(
    part: Set<(ResourceV, ResourceV)>,
    links: Set<(ResourceV, ResourceV)>,
) -> bool {
    part.subset_of(links) && goes_on(part)
}

/// Whether a walk along links need not end.
pub open spec fn endless(links: Set<(ResourceV, ResourceV)>) -> bool {
    exists|part: Set<(ResourceV, ResourceV)>, link: (ResourceV, ResourceV)| #[trigger]
        walks_on(part, links) && #[trigger] part.contains(link)
}

/// The links at some places.
spec fn chosen(links: Seq<Link>, places: Seq<usize>) -> Set<(ResourceV, ResourceV)> {
    Set::new(
        |link: (ResourceV, ResourceV)|
            exists|i: int|
                0 <= i < places.len() && places[i] < links.len()
                    && #[trigger] links[places[i] as int]@ == link,
    )
}

/// Whether a link at one of some places follows a link.
fn has_next(links: &Vec<Link>, places: &Vec<usize>, link: &Link) -> (r: bool)
    requires
        forall|i: int| 0 <= i < places@.len() ==> #[trigger] places@[i] < links@.len(),
    ensures
        r == is_followed(chosen(links@, places@), link@),
{
    let mut i: usize = 0;
    while i < places.len()
        invariant
            i <= places@.len(),
            forall|i: int| 0 <= i < places@.len() ==> #[trigger] places@[i] < links@.len(),
            forall|k: int| 0 <= k < i ==> link@.1 != (#[trigger] links@[places@[k] as int])@.0,
        decreases places@.len() - i,
    {
        if same_resource(&link.to, &links[places[i]].from) {
            proof {
                let next = links@[places@[i as int] as int]@;
                assert(chosen(links@, places@).contains(next));
                assert(follows(chosen(links@, places@), link@, next));
            }
            return true;
        }
        i += 1;
    }
    false
}

/// Whether a walk along links need not end: links that nothing follows are left out until every
/// link has one to follow it.
pub fn is_endless(links: &Vec<Link>) -> (r: bool)
    ensures
        r == endless(listed(links@)),
{
    let ghost all = listed(links@);
    let mut places: Vec<usize> = Vec::new();
    let mut n: usize = 0;
    while n < links.len()
        invariant
            n <= links@.len(),
            places@.len() == n,
            forall|i: int| 0 <= i < n ==> #[trigger] places@[i] == i,
        decreases links@.len() - n,
    {
        places.push(n);
        n += 1;
    }
    assert(chosen(links@, places@) =~= all) by {
        assert forall|link: (ResourceV, ResourceV)| chosen(links@, places@).contains(link)
            == all.contains(link) by {
            if all.contains(link) {
                let i = listed_at(links@, link);
                assert(links@[places@[i] as int]@ == link);
            }
            if chosen(links@, places@).contains(link) {
                let i = choose|i: int|
                    0 <= i < places@.len() && places@[i] < links@.len() && #[trigger] links@[
                    places@[i] as int]@ == link;
                is_listed(links@, i);
            }
        }
    }
    loop
        invariant
            all == listed(links@),
            forall|i: int| 0 <= i < places@.len() ==> #[trigger] places@[i] < links@.len(),
            chosen(links@, places@).subset_of(all),
            forall|part: Set<(ResourceV, ResourceV)>| #[trigger]
                walks_on(part, all) ==> part.subset_of(chosen(links@, places@)),
        decreases places@.len(),
    {
        let ghost live = chosen(links@, places@);
        let mut kept: Vec<usize> = Vec::new();
        let mut i: usize = 0;
        while i < places.len()
            invariant
                i <= places@.len(),
                live == chosen(links@, places@),
                forall|i: int| 0 <= i < places@.len() ==> #[trigger] places@[i] < links@.len(),
                kept@.len() <= i,
                kept@.len() == i ==> kept@ == places@.take(i as int),
                forall|k: int| 0 <= k < kept@.len() ==> #[trigger] places@.contains(kept@[k]),
                forall|k: int|
                    0 <= k < i ==> kept@.contains(#[trigger] places@[k]) || !is_followed(
                        live,
                        links@[places@[k] as int]@,
                    ),
                forall|k: int|
                    0 <= k < kept@.len() ==> is_followed(
                        live,
                        links@[#[trigger] kept@[k] as int]@,
                    ),
            decreases places@.len() - i,
        {
            let ghost before = kept@;
            if has_next(links, &places, &links[places[i]]) {
                kept.push(places[i]);
                assert(kept@[before.len() as int] == places@[i as int]);
                assert(kept@.contains(places@[i as int]));
                assert(forall|p: usize| before.contains(p) ==> #[trigger] kept@.contains(p)) by {
                    assert forall|p: usize| before.contains(p) implies #[trigger] kept@.contains(
                        p,
                    ) by {
                        let k = choose|k: int| 0 <= k < before.len() && before[k] == p;
                        assert(kept@[k] == p);
                    }
                }
                proof {
                    if before.len() == i {
                        assert(kept@ =~= places@.take(i + 1));
                    }
                }
            }
            i += 1;
        }
        assert forall|k: int| 0 <= k < kept@.len() implies #[trigger] kept@[k] < links@.len() by {
            assert(places@.contains(kept@[k]));
        }
        let ghost next_live = chosen(links@, kept@);
        proof {
            assert(next_live.subset_of(live)) by {
                assert forall|link: (ResourceV, ResourceV)| next_live.contains(
                    link,
                ) implies live.contains(link) by {
                    let k = choose|k: int|
                        0 <= k < kept@.len() && kept@[k] < links@.len() && #[trigger] links@[kept@[
                        k] as int]@ == link;
                    assert(places@.contains(kept@[k]));
                    let j = choose|j: int| 0 <= j < places@.len() && places@[j] == kept@[k];
                    assert(links@[places@[j] as int]@ == link);
                }
            }
            assert forall|part: Set<(ResourceV, ResourceV)>| #[trigger]
                walks_on(part, all) implies part.subset_of(next_live) by {
                assert(part.subset_of(live));
                assert forall|link: (ResourceV, ResourceV)| part.contains(
                    link,
                ) implies next_live.contains(link) by {
                    let next = choose|next: (ResourceV, ResourceV)| #[trigger]
                        follows(part, link, next);
                    assert(follows(live, link, next));
                    assert(live.contains(link));
                    let k = choose|k: int|
                        0 <= k < places@.len() && places@[k] < links@.len() && #[trigger] links@[
                        places@[k] as int]@ == link;
                    assert(kept@.contains(places@[k]));
                    let j = choose|j: int| 0 <= j < kept@.len() && kept@[j] == places@[k];
                    assert(links@[kept@[j] as int]@ == link);
                }
            }
        }
        if kept.len() == places.len() {
            assert(kept@ =~= places@);
            assert(walks_on(live, all)) by {
                assert forall|link: (ResourceV, ResourceV)| #[trigger]
                    live.contains(link) implies is_followed(live, link) by {
                    let k = choose|k: int|
                        0 <= k < places@.len() && places@[k] < links@.len() && #[trigger] links@[
                        places@[k] as int]@ == link;
                    assert(links@[kept@[k] as int]@ == link);
                }
            }
            proof {
                if places@.len() > 0 {
                    let link = links@[places@[0] as int]@;
                    assert(live.contains(link));
                    assert(endless(all));
                } else if endless(all) {
                    let (part, link) = choose|
                        part: Set<(ResourceV, ResourceV)>,
                        link: (ResourceV, ResourceV),
                    | #[trigger] walks_on(part, all) && #[trigger] part.contains(link);
                    assert(live.contains(link));
                }
            }
            return places.len() > 0;
        }
        places = kept;
    }
}

/// Whether a set holds the heads and, with the start of a link, its end.
pub open spec fn closed_under(
    set: Set<ResourceV>,
    heads: Set<ResourceV>,
    links: Set<(ResourceV, ResourceV)>,
) -> bool {
    &&& heads.subset_of(set)
    &&& forall|link: (ResourceV, ResourceV)| #[trigger]
        links.contains(link) && set.contains(link.0) ==> set.contains(link.1)
}

/// What is reached from the heads along links: the heads, and with the start of a link its end,
/// and nothing else.
pub open spec fn reached(
    heads: Set<ResourceV>,
    links: Set<(ResourceV, ResourceV)>,
) -> Set<ResourceV> {
    Set::new(
        |x: ResourceV|
            forall|set: Set<ResourceV>| #[trigger]
                closed_under(set, heads, links) ==> set.contains(x),
    )
}

/// Whether a number is listed.
spec fn has_place(places: Seq<usize>, k: int) -> bool {
    exists|j: int| 0 <= j < places.len() && #[trigger] places[j] == k
}

/// What is reached from the heads along links.
pub fn reach(heads: Vec<Resource>, links: &Vec<Link>) -> (r: Vec<Resource>)
    ensures
        listed(r@) == reached(listed(heads@), listed(links@)),
{
    let ghost start = listed(heads@);
    let ghost all = listed(links@);
    let mut out = heads;
    let mut open: Vec<usize> = Vec::new();
    let mut n: usize = 0;
    while n < links.len()
        invariant
            n <= links@.len(),
            open@.len() == n,
            forall|i: int| 0 <= i < n ==> #[trigger] open@[i] == i,
        decreases links@.len() - n,
    {
        open.push(n);
        n += 1;
    }
    assert forall|k: int| 0 <= k < links@.len() implies has_place(open@, k) || listed(
        out@,
    ).contains((#[trigger] links@[k])@.1) by {
        assert(open@[k] == k);
    }
    loop
        invariant
            start == listed(heads@),
            all == listed(links@),
            forall|i: int| 0 <= i < open@.len() ==> #[trigger] open@[i] < links@.len(),
            start.subset_of(listed(out@)),
            forall|set: Set<ResourceV>| #[trigger]
                closed_under(set, start, all) ==> listed(out@).subset_of(set),
            forall|k: int|
                0 <= k < links@.len() ==> has_place(open@, k) || listed(out@).contains(
                    (#[trigger] links@[k])@.1,
                ),
        decreases open@.len(),
    {
        let mut left: Vec<usize> = Vec::new();
        assert(open@.skip(0) =~= open@);
        let mut i: usize = 0;
        while i < open.len()
            invariant
                i <= open@.len(),
                all == listed(links@),
                forall|i: int| 0 <= i < open@.len() ==> #[trigger] open@[i] < links@.len(),
                left@.len() <= i,
                forall|k: int| 0 <= k < left@.len() ==> #[trigger] left@[k] < links@.len(),
                start.subset_of(listed(out@)),
                forall|set: Set<ResourceV>| #[trigger]
                    closed_under(set, start, all) ==> listed(out@).subset_of(set),
                forall|k: int|
                    0 <= k < links@.len() ==> has_place(open@.skip(i as int), k) || has_place(
                        left@,
                        k,
                    ) || listed(out@).contains((#[trigger] links@[k])@.1),
                left@.len() == i ==> forall|k: int|
                    0 <= k < left@.len() ==> !listed(out@).contains(
                        links@[#[trigger] left@[k] as int]@.0,
                    ),
            decreases open@.len() - i,
        {
            let ghost before = left@;
            let ghost had = listed(out@);
            let at: usize = open[i];
            let ghost rest = open@.skip(i as int);
            assert(rest.drop_first() =~= open@.skip(i + 1));
            assert(rest[0] == at);
            assert forall|k: int| has_place(rest, k) implies k == at || #[trigger] has_place(
                open@.skip(i + 1),
                k,
            ) by {
                let j = choose|j: int| 0 <= j < rest.len() && #[trigger] rest[j] == k;
                if j > 0 {
                    assert(open@.skip(i + 1)[j - 1] == k);
                }
            }
            if lists_resource(&out, &links[at].from) {
                let next = copy_resource(&links[at].to);
                proof {
                    listed_push(out@, next);
                    is_listed(links@, at as int);
                    let link = links@[at as int]@;
                    assert forall|set: Set<ResourceV>| #[trigger]
                        closed_under(set, start, all) implies had.insert(next@).subset_of(set) by {
                        assert(all.contains(link));
                        assert(had.contains(link.0));
                    }
                }
                out.push(next);
            } else {
                left.push(at);
                assert(left@[before.len() as int] == at);
                assert(has_place(left@, at as int));
                assert forall|p: int| has_place(before, p) implies #[trigger] has_place(
                    left@,
                    p,
                ) by {
                    let k = choose|k: int| 0 <= k < before.len() && #[trigger] before[k] == p;
                    assert(left@[k] == p);
                }
            }
            i += 1;
        }
        assert(open@.skip(i as int) =~= Seq::<usize>::empty());
        if left.len() == open.len() {
            let ghost got = listed(out@);
            proof {
                assert(closed_under(got, start, all)) by {
                    assert forall|link: (ResourceV, ResourceV)| #[trigger]
                        all.contains(link) && got.contains(link.0) implies got.contains(link.1) by {
                        let k = listed_at(links@, link);
                        if has_place(left@, k) {
                            let j = choose|j: int| 0 <= j < left@.len() && #[trigger] left@[j] == k;
                            assert(links@[left@[j] as int]@ == link);
                        }
                    }
                }
                assert(got =~= reached(start, all));
            }
            return out;
        }
        open = left;
    }
}

/// Whether two lists have a resource in common.
pub fn meet(a: &Vec<Resource>, b: &Vec<Resource>) -> (r: bool)
    ensures
        r == exists|s: ResourceV| #[trigger] listed(a@).contains(s) && listed(b@).contains(s),
{
    let mut i: usize = 0;
    while i < a.len()
        invariant
            i <= a@.len(),
            forall|k: int| 0 <= k < i ==> !listed(b@).contains((#[trigger] a@[k])@),
        decreases a@.len() - i,
    {
        if lists_resource(b, &a[i]) {
            proof {
                is_listed(a@, i as int);
            }
            return true;
        }
        i += 1;
    }
    assert forall|s: ResourceV| #[trigger] listed(a@).contains(s) implies !listed(b@).contains(
        s,
    ) by {
        let k = listed_at(a@, s);
        assert(!listed(b@).contains(a@[k]@));
    }
    false
}

/// The resources of a list that are not in another.
pub fn without(all: Vec<Resource>, some: &Vec<Resource>) -> (r: Vec<Resource>)
    ensures
        listed(r@) == listed(all@).difference(listed(some@)),
{
    let ghost gone = listed(some@);
    let mut out: Vec<Resource> = Vec::new();
    let mut i: usize = 0;
    proof {
        nothing_listed::<Resource>();
        assert(all@.take(0) =~= Seq::<Resource>::empty());
        assert(listed(out@) =~= listed(all@.take(0)).difference(gone));
    }
    while i < all.len()
        invariant
            i <= all@.len(),
            gone == listed(some@),
            listed(out@) == listed(all@.take(i as int)).difference(gone),
        decreases all@.len() - i,
    {
        let ghost had = listed(out@);
        proof {
            assert(all@.take(i + 1) =~= all@.take(i as int).push(all@[i as int]));
            listed_push(all@.take(i as int), all@[i as int]);
        }
        if !lists_resource(some, &all[i]) {
            let item = copy_resource(&all[i]);
            proof {
                listed_push(out@, item);
                assert(listed(all@.take(i + 1)).difference(gone) =~= had.insert(item@));
            }
            out.push(item);
        } else {
            assert(listed(all@.take(i + 1)).difference(gone) =~= had);
        }
        i += 1;
    }
    assert(all@.take(i as int) =~= all@);
    out
}

/// The links that do not start at some resources.
pub open spec fn not_from(
    links: Set<(ResourceV, ResourceV)>,
    some: Set<ResourceV>,
) -> Set<(ResourceV, ResourceV)> {
    links.filter(|link: (ResourceV, ResourceV)| !some.contains(link.0))
}

/// The links that start at some resources.
pub open spec fn only_from(
    links: Set<(ResourceV, ResourceV)>,
    some: Set<ResourceV>,
) -> Set<(ResourceV, ResourceV)> {
    links.filter(|link: (ResourceV, ResourceV)| some.contains(link.0))
}

/// The links that start at some resources, or do not.
fn filter_links(links: &Vec<Link>, some: &Vec<Resource>, from: bool) -> (r: Vec<Link>)
    ensures
        listed(r@) == listed(links@).filter(
            |link: (ResourceV, ResourceV)| listed(some@).contains(link.0) == from,
        ),
{
    let ghost keeps = |link: (ResourceV, ResourceV)| listed(some@).contains(link.0) == from;
    let mut out: Vec<Link> = Vec::new();
    let mut i: usize = 0;
    proof {
        nothing_listed::<Link>();
        assert(links@.take(0) =~= Seq::<Link>::empty());
        assert(listed(out@) =~= listed(links@.take(0)).filter(keeps));
    }
    while i < links.len()
        invariant
            i <= links@.len(),
            keeps == (|link: (ResourceV, ResourceV)| listed(some@).contains(link.0) == from),
            listed(out@) == listed(links@.take(i as int)).filter(keeps),
        decreases links@.len() - i,
    {
        let ghost had = listed(out@);
        proof {
            assert(links@.take(i + 1) =~= links@.take(i as int).push(links@[i as int]));
            listed_push(links@.take(i as int), links@[i as int]);
        }
        if lists_resource(some, &links[i].from) == from {
            let item = Link {
                from: copy_resource(&links[i].from),
                to: copy_resource(&links[i].to),
            };
            proof {
                listed_push(out@, item);
                assert(listed(links@.take(i + 1)).filter(keeps) =~= had.insert(item@));
            }
            out.push(item);
        } else {
            assert(listed(links@.take(i + 1)).filter(keeps) =~= had);
        }
        i += 1;
    }
    assert(links@.take(i as int) =~= links@);
    out
}

/// The links that do not start at some resources.
pub fn drop_from(links: &Vec<Link>, some: &Vec<Resource>) -> (r: Vec<Link>)
    ensures
        listed(r@) == not_from(listed(links@), listed(some@)),
{
    let r = filter_links(links, some, false);
    assert(listed(r@) =~= not_from(listed(links@), listed(some@)));
    r
}

/// The links that start at some resources.
pub fn keep_from(links: &Vec<Link>, some: &Vec<Resource>) -> (r: Vec<Link>)
    ensures
        listed(r@) == only_from(listed(links@), listed(some@)),
{
    let r = filter_links(links, some, true);
    assert(listed(r@) =~= only_from(listed(links@), listed(some@)));
    r
}

/// The ends of links.
pub open spec fn ends(links: Set<(ResourceV, ResourceV)>) -> Set<ResourceV> {
    links.map(|link: (ResourceV, ResourceV)| link.1)
}

/// The ends of links.
pub fn list_ends(links: &Vec<Link>) -> (r: Vec<Resource>)
    ensures
        listed(r@) == ends(listed(links@)),
{
    let ghost f = |link: (ResourceV, ResourceV)| link.1;
    let mut out: Vec<Resource> = Vec::new();
    let mut i: usize = 0;
    while i < links.len()
        invariant
            i <= links@.len(),
            out@.len() == i,
            forall|k: int| 0 <= k < i ==> (#[trigger] out@[k])@ == links@[k]@.1,
        decreases links@.len() - i,
    {
        out.push(copy_resource(&links[i].to));
        i += 1;
    }
    proof {
        let all = listed(links@);
        assert forall|x: ResourceV| listed(out@).contains(x) == ends(all).contains(x) by {
            if listed(out@).contains(x) {
                let k = listed_at(out@, x);
                is_listed(links@, k);
                assert(f(links@[k]@) == x);
            }
            if ends(all).contains(x) {
                let link = choose|link: (ResourceV, ResourceV)| all.contains(link) && x == f(link);
                let k = listed_at(links@, link);
                is_listed(out@, k);
                assert(out@[k]@ == x);
            }
        }
        assert(listed(out@) =~= ends(all));
    }
    out
}

/// The links from each of some resources to each of others.
pub open spec fn pairs(from: Set<ResourceV>, to: Set<ResourceV>) -> Set<(ResourceV, ResourceV)> {
    Set::new(|link: (ResourceV, ResourceV)| from.contains(link.0) && to.contains(link.1))
}

/// The links from one resource to each of others.
fn list_links_to(from: &Resource, to: &Vec<Resource>) -> (r: Vec<Link>)
    ensures
        forall|link: (ResourceV, ResourceV)| #[trigger]
            listed(r@).contains(link) == (link.0 == from@ && listed(to@).contains(link.1)),
{
    let mut out: Vec<Link> = Vec::new();
    let mut i: usize = 0;
    while i < to.len()
        invariant
            i <= to@.len(),
            out@.len() == i,
            forall|k: int| 0 <= k < i ==> (#[trigger] out@[k])@ == (from@, to@[k]@),
        decreases to@.len() - i,
    {
        out.push(Link { from: copy_resource(from), to: copy_resource(&to[i]) });
        i += 1;
    }
    proof {
        assert forall|link: (ResourceV, ResourceV)| #[trigger]
            listed(out@).contains(link) == (link.0 == from@ && listed(to@).contains(link.1)) by {
            if listed(out@).contains(link) {
                let k = listed_at(out@, link);
                is_listed(to@, k);
            }
            if link.0 == from@ && listed(to@).contains(link.1) {
                let k = listed_at(to@, link.1);
                is_listed(out@, k);
                assert(out@[k]@ == link);
            }
        }
    }
    out
}

/// The links from each of some resources to each of others.
pub fn list_pairs(from: &Vec<Resource>, to: &Vec<Resource>) -> (r: Vec<Link>)
    ensures
        listed(r@) == pairs(listed(from@), listed(to@)),
{
    let mut out: Vec<Link> = Vec::new();
    let mut i: usize = 0;
    let ghost ends = listed(to@);
    proof {
        nothing_listed::<Link>();
        nothing_listed::<Resource>();
        assert(from@.take(0) =~= Seq::<Resource>::empty());
        assert(listed(out@) =~= pairs(listed(from@.take(0)), ends));
    }
    while i < from.len()
        invariant
            i <= from@.len(),
            ends == listed(to@),
            listed(out@) == pairs(listed(from@.take(i as int)), ends),
        decreases from@.len() - i,
    {
        let ghost had = listed(out@);
        let more = list_links_to(&from[i], to);
        let ghost next = listed(more@);
        proof {
            assert(from@.take(i + 1) =~= from@.take(i as int).push(from@[i as int]));
            listed_push(from@.take(i as int), from@[i as int]);
            assert(pairs(listed(from@.take(i + 1)), ends) =~= had + next);
        }
        out = both(out, more);
        i += 1;
    }
    assert(from@.take(i as int) =~= from@);
    out
}

} // verus!
