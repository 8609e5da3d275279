//! Which graphs are refused, and that no others are.
//!
//! What is said here speaks of facts, of chains from one to the next, and of walks without end.

use vstd::prelude::*;

#[allow(unused_imports)]
use crate::{
    facts::{
        anywhere, at, fact_of, facts_of, goes_as_tag, holds, is_tag, is_tag_object, links, objects,
        picks, some_fact, subjects, to, FactV, Rule,
    },
    graph::{object_text, quotes_triple, triple_parts},
    limits::{cells, path_parts, path_steps, read_fault},
    query::{before_where, capitals, is_early, is_placed, keeps_length, where_at},
    rdf::{resource_node, NodeV, ResourceV},
    text::{holds_at, occurs},
    walk::{closed_under, endless, follows, goes_on, is_followed, reached, walks_on},
};

verus! {

/// Links from one resource to another.
pub type Links = Set<(ResourceV, ResourceV)>;

/// A resource as a node.
pub open spec fn as_node(r: ResourceV) -> NodeV {
    match r {
        ResourceV::Iri(iri) => NodeV::Iri(iri),
        ResourceV::Blank(label) => NodeV::Blank(label),
    }
}

/// Whether an object is a blank node.
pub open spec fn is_blank(object: Option<NodeV>) -> bool {
    object is Some && object->0 is Blank
}

/// Whether an object is an IRI.
pub open spec fn is_iri(object: Option<NodeV>) -> bool {
    object is Some && object->0 is Iri
}

/// Whether resources follow one another along links.
pub open spec fn is_chain(chain: Seq<ResourceV>, links: Links) -> bool {
    chain.len() > 0 && forall|i: int|
        0 <= i < chain.len() - 1 ==> #[trigger] is_linked(chain, links, i)
}

/// Whether a link leads from one resource of a chain to the next.
pub open spec fn is_linked(chain: Seq<ResourceV>, links: Links, i: int) -> bool {
    links.contains((chain[i], chain[i + 1]))
}

/// Whether a chain leads from one of some resources to another.
pub open spec fn chains(
    chain: Seq<ResourceV>,
    heads: Set<ResourceV>,
    links: Links,
    x: ResourceV,
) -> bool {
    is_chain(chain, links) && heads.contains(chain[0]) && chain.last() == x
}

/// Whether some chain along links leads from one of some resources to another.
pub open spec fn leads(heads: Set<ResourceV>, links: Links, x: ResourceV) -> bool {
    exists|chain: Seq<ResourceV>| #[trigger] chains(chain, heads, links, x)
}

/// What is reached is what some chain leads to.
pub proof fn chains_reach(heads: Set<ResourceV>, links: Links)
    ensures
        forall|x: ResourceV| #[trigger] reached(heads, links).contains(x) <==> leads(heads, links, x),
{
    assert forall|x: ResourceV| #[trigger] reached(heads, links).contains(x) <==> leads(
        heads,
        links,
        x,
    ) by {
        if reached(heads, links).contains(x) {
            let all = Set::new(|y: ResourceV| leads(heads, links, y));
            assert(closed_under(all, heads, links)) by {
                assert forall|y: ResourceV| heads.contains(y) implies all.contains(y) by {
                    assert(chains(seq![y], heads, links, y));
                }
                assert forall|link: (ResourceV, ResourceV)| #[trigger]
                    links.contains(link) && all.contains(link.0) implies all.contains(link.1) by {
                    let chain = choose|chain: Seq<ResourceV>| #[trigger]
                        chains(chain, heads, links, link.0);
                    let more = chain.push(link.1);
                    assert forall|i: int| 0 <= i < more.len() - 1 implies #[trigger] is_linked(
                        more,
                        links,
                        i,
                    ) by {
                        if i < chain.len() - 1 {
                            assert(is_linked(chain, links, i));
                        }
                    }
                    assert(more[0] == chain[0]);
                    assert(chains(more, heads, links, link.1));
                }
            }
        }
        if leads(heads, links, x) {
            let chain = choose|chain: Seq<ResourceV>| #[trigger] chains(chain, heads, links, x);
            assert forall|set: Set<ResourceV>| #[trigger]
                closed_under(set, heads, links) implies set.contains(x) by {
                chain_stays(chain, heads, links, set, chain.len() - 1);
            }
        }
    }
}

proof fn chain_stays(
    chain: Seq<ResourceV>,
    heads: Set<ResourceV>,
    links: Links,
    set: Set<ResourceV>,
    n: int,
)
    requires
        is_chain(chain, links),
        heads.contains(chain[0]),
        closed_under(set, heads, links),
        0 <= n < chain.len(),
    ensures
        set.contains(chain[n]),
    decreases n,
{
    if n > 0 {
        chain_stays(chain, heads, links, set, n - 1);
        assert(is_linked(chain, links, n - 1));
    }
}

/// Whether a walk takes a link at a step.
pub open spec fn takes(walk: spec_fn(nat) -> ResourceV, links: Links, n: nat) -> bool {
    links.contains((walk(n), walk(n + 1)))
}

/// Whether a walk goes along links, step after step, without end.
pub open spec fn walks_along(walk: spec_fn(nat) -> ResourceV, links: Links) -> bool {
    forall|n: nat| #[trigger] takes(walk, links, n)
}

/// Whether some walk along links has no end.
pub open spec fn unending(links: Links) -> bool {
    exists|walk: spec_fn(nat) -> ResourceV| #[trigger] walks_along(walk, links)
}

/// The link at a step of a walk that goes on.
spec fn nth(part: Links, link: (ResourceV, ResourceV), n: nat) -> (ResourceV, ResourceV)
    decreases n,
{
    if n == 0 {
        link
    } else {
        choose|next: (ResourceV, ResourceV)| #[trigger]
            follows(part, nth(part, link, (n - 1) as nat), next)
    }
}

proof fn nth_goes_on(part: Links, link: (ResourceV, ResourceV), n: nat)
    requires
        goes_on(part),
        part.contains(link),
    ensures
        part.contains(nth(part, link, n)),
        nth(part, link, n).1 == nth(part, link, n + 1).0,
    decreases n,
{
    if n > 0 {
        nth_goes_on(part, link, (n - 1) as nat);
        let before = nth(part, link, (n - 1) as nat);
        assert(is_followed(part, before));
        assert(follows(part, before, nth(part, link, n)));
    }
    let here = nth(part, link, n);
    assert(is_followed(part, here));
    assert(follows(part, here, nth(part, link, n + 1)));
}

/// Links are endless where some walk along them has no end, and nowhere else.
pub proof fn endless_links_are_walked(links: Links)
    ensures
        endless(links) <==> unending(links),
{
    if endless(links) {
        let (part, link) = choose|part: Links, link: (ResourceV, ResourceV)| #[trigger]
            walks_on(part, links) && #[trigger] part.contains(link);
        let walk = |n: nat| nth(part, link, n).0;
        assert forall|n: nat| #[trigger] takes(walk, links, n) by {
            nth_goes_on(part, link, n);
            assert(nth(part, link, n) == (walk(n), walk(n + 1)));
        }
        assert(walks_along(walk, links));
    }
    if unending(links) {
        let walk = choose|walk: spec_fn(nat) -> ResourceV| #[trigger] walks_along(walk, links);
        let part = Set::new(
            |link: (ResourceV, ResourceV)|
                exists|n: nat| #[trigger] takes(walk, links, n) && link == (walk(n), walk(n + 1)),
        );
        assert forall|link: (ResourceV, ResourceV)| #[trigger]
            part.contains(link) implies is_followed(part, link) by {
            let n = choose|n: nat| #[trigger]
                takes(walk, links, n) && link == (walk(n), walk(n + 1));
            assert(takes(walk, links, n + 1));
            let next = (walk(n + 1), walk(n + 2));
            assert(part.contains(next));
            assert(follows(part, link, next));
        }
        assert(part.subset_of(links)) by {
            assert forall|link: (ResourceV, ResourceV)| part.contains(link) implies links.contains(
                link,
            ) by {
                let n = choose|n: nat| #[trigger]
                    takes(walk, links, n) && link == (walk(n), walk(n + 1));
            }
        }
        assert(takes(walk, links, 0));
        assert(walks_on(part, links) && part.contains((walk(0), walk(1))));
    }
}

/// The facts of a graph are its triples, part by part.
pub proof fn facts_are_the_triples(triples: Set<oxrdf::Triple>, f: FactV)
    ensures
        facts_of(triples).contains(f) <==> exists|t: oxrdf::Triple| #[trigger]
            triples.contains(t) && f.subject == triple_parts(t).0 && f.predicate == triple_parts(
                t,
            ).1 && f.object == triple_parts(t).2 && f.quoted == quotes_triple(t) && f.text
                == object_text(t),
{
    let g = |t: oxrdf::Triple| fact_of(t);
    if facts_of(triples).contains(f) {
        let t = choose|t: oxrdf::Triple| triples.contains(t) && f == g(t);
        assert(triples.contains(t));
    }
    if exists|t: oxrdf::Triple| #[trigger]
        triples.contains(t) && f.subject == triple_parts(t).0 && f.predicate == triple_parts(t).1
            && f.object == triple_parts(t).2 && f.quoted == quotes_triple(t) && f.text
            == object_text(t) {
        let t = choose|t: oxrdf::Triple| #[trigger]
            triples.contains(t) && f.subject == triple_parts(t).0 && f.predicate == triple_parts(
                t,
            ).1 && f.object == triple_parts(t).2 && f.quoted == quotes_triple(t) && f.text
                == object_text(t);
        assert(g(t) == f);
        assert(triples.map(g).contains(g(t)));
    }
}

/// The links that facts with one of some predicates make.
pub open spec fn links_by(facts: Set<FactV>, by: Set<Seq<char>>) -> Links {
    Set::new(
        |link: (ResourceV, ResourceV)|
            exists|f: FactV| #[trigger]
                facts.contains(f) && by.contains(f.predicate) && f.subject == link.0 && f.object
                    == Some(as_node(link.1)),
    )
}

/// The resources that facts with one of some predicates have as objects.
pub open spec fn ends_by(facts: Set<FactV>, by: Set<Seq<char>>) -> Set<ResourceV> {
    Set::new(
        |x: ResourceV|
            exists|f: FactV| #[trigger]
                facts.contains(f) && by.contains(f.predicate) && f.object == Some(as_node(x)),
    )
}

/// `rdf:first`.
pub open spec fn rdf_first() -> Seq<char> {
    "http://www.w3.org/1999/02/22-rdf-syntax-ns#first"@
}

/// `rdf:rest`.
pub open spec fn rdf_rest() -> Seq<char> {
    "http://www.w3.org/1999/02/22-rdf-syntax-ns#rest"@
}

/// `sh:path`.
pub open spec fn sh_path() -> Seq<char> {
    "http://www.w3.org/ns/shacl#path"@
}

/// The predicates whose objects the validator keeps as terms or as shapes.
pub open spec fn term_predicates() -> Set<Seq<char>> {
    set![
        "http://www.w3.org/ns/shacl#class"@,
        "http://www.w3.org/ns/shacl#hasValue"@,
        "http://www.w3.org/ns/shacl#targetNode"@,
        "http://www.w3.org/ns/shacl#node"@,
        "http://www.w3.org/ns/shacl#property"@,
        "http://www.w3.org/ns/shacl#not"@,
        "http://www.w3.org/ns/shacl#qualifiedValueShape"@,
        "http://www.w3.org/ns/shacl#reifierShape"@,
    ]
}

/// The predicates whose objects are lists of shapes.
pub open spec fn operators() -> Set<Seq<char>> {
    set![
        "http://www.w3.org/ns/shacl#and"@,
        "http://www.w3.org/ns/shacl#or"@,
        "http://www.w3.org/ns/shacl#xone"@,
    ]
}

/// The predicates that lead from a path to a part of it.
pub open spec fn part_predicates() -> Set<Seq<char>> {
    set![
        rdf_first(),
        "http://www.w3.org/ns/shacl#zeroOrMorePath"@,
        "http://www.w3.org/ns/shacl#oneOrMorePath"@,
        "http://www.w3.org/ns/shacl#zeroOrOnePath"@,
        "http://www.w3.org/ns/shacl#inversePath"@,
    ]
}

/// Whether a resource is a cell of a list that some fact with one of some predicates has as its
/// object.
pub open spec fn is_cell(facts: Set<FactV>, by: Set<Seq<char>>, x: ResourceV) -> bool {
    leads(ends_by(facts, by), links_by(facts, set![rdf_rest()]), x)
}

/// The steps from a path, or a list, to what it is made of: the rest of a list and the list of an
/// alternative path always, other parts where they have no IRI.
pub open spec fn path_links(facts: Set<FactV>) -> Links {
    Set::new(
        |link: (ResourceV, ResourceV)|
            exists|f: FactV| #[trigger]
                facts.contains(f) && f.subject == link.0 && f.object == Some(as_node(link.1)) && (
                f.predicate == rdf_rest() || f.predicate
                    == "http://www.w3.org/ns/shacl#alternativePath"@ || is_blank(f.object) && part_predicates().contains(f.predicate)),
    )
}

/// The paths of some shapes that are no IRIs.
pub open spec fn path_heads(facts: Set<FactV>, shapes: Set<ResourceV>) -> Set<ResourceV> {
    Set::new(
        |x: ResourceV|
            exists|f: FactV| #[trigger]
                facts.contains(f) && f.predicate == sh_path() && is_blank(f.object)
                    && shapes.contains(f.subject) && f.object == Some(as_node(x)),
    )
}

/// Whether a text is a language tag: letters, digits and hyphens; no hyphen first, last or beside
/// another; no digit before the first hyphen.
pub open spec fn is_language_tag(s: Seq<char>) -> bool {
    &&& s.len() > 0
    &&& s[0] != '-' && s.last() != '-'
    &&& forall|i: int|
        0 <= i < s.len() ==> ('a' <= #[trigger] s[i] <= 'z' || 'A' <= s[i] <= 'Z' || s[i] == '-'
            || '0' <= s[i] <= '9' && s.take(i).contains('-'))
    &&& forall|i: int| 0 <= i < s.len() - 1 ==> #[trigger] s[i] != '-' || s[i + 1] != '-'
}

/// Language tags are told by their characters.
pub proof fn tags_are_told(s: Seq<char>)
    ensures
        is_tag(s) <==> is_language_tag(s),
{
    if s.len() > 0 && s[0] != '-' {
        tag_goes(s, 0, false);
        assert(s.skip(0) =~= s);
        assert(s.take(0) =~= Seq::<char>::empty());
    }
}

/// Whether a text goes on as a language tag from a place.
spec fn tag_from(s: Seq<char>, k: int) -> bool {
    &&& k < s.len() ==> s.last() != '-'
    &&& forall|i: int|
        k <= i < s.len() ==> ('a' <= #[trigger] s[i] <= 'z' || 'A' <= s[i] <= 'Z' || s[i] == '-'
            || '0' <= s[i] <= '9' && s.take(i).contains('-'))
    &&& forall|i: int| k <= i < s.len() - 1 ==> #[trigger] s[i] != '-' || s[i + 1] != '-'
}

proof fn tag_goes(s: Seq<char>, k: int, digits: bool)
    requires
        0 <= k <= s.len(),
        digits == s.take(k).contains('-'),
    ensures
        goes_as_tag(s.skip(k), digits) <==> tag_from(s, k),
    decreases s.len() - k,
{
    if k < s.len() {
        let t = s.skip(k);
        assert(t[0] == s[k]);
        assert(t.drop_first() =~= s.skip(k + 1));
        assert(s.take(k + 1) =~= s.take(k).push(s[k]));
        assert(s.take(k + 1).contains('-') == (digits || s[k] == '-')) by {
            if digits {
                let i = choose|i: int| 0 <= i < k && s.take(k)[i] == '-';
                assert(s.take(k + 1)[i] == '-');
            }
            if s[k] == '-' {
                assert(s.take(k + 1)[k] == '-');
            }
            if s.take(k + 1).contains('-') && s[k] != '-' {
                let longer = s.take(k + 1);
                let i = choose|i: int| 0 <= i < longer.len() && longer[i] == '-';
                assert(s.take(k)[i] == '-');
            }
        }
        tag_goes(s, k + 1, digits || s[k] == '-');
        if t.len() > 1 {
            assert(t[1] == s[k + 1]);
        }
    }
}

/// Whether a quoted triple stands where a term or a shape is read, also in a list of them.
pub open spec fn misplaces_a_triple(facts: Set<FactV>) -> bool {
    exists|f: FactV| #[trigger]
        facts.contains(f) && f.quoted && (term_predicates().contains(f.predicate) || f.predicate
            == rdf_first() && is_cell(
            facts,
            operators().insert("http://www.w3.org/ns/shacl#in"@),
            f.subject,
        ))
}

/// Whether a list of language tags has a member that is none.
pub open spec fn misplaces_a_tag(facts: Set<FactV>) -> bool {
    exists|f: FactV| #[trigger]
        facts.contains(f) && f.predicate == rdf_first() && is_cell(
            facts,
            set!["http://www.w3.org/ns/shacl#languageIn"@],
            f.subject,
        ) && !(is_blank(f.object)) && !(f.text is Some && is_language_tag(
            f.text->0,
        ))
}

/// Whether a property path leads to itself.
pub open spec fn loops_a_path(facts: Set<FactV>) -> bool {
    let heads = path_heads(facts, Set::full());
    unending(
        path_links(facts).filter(
            |link: (ResourceV, ResourceV)| leads(heads, path_links(facts), link.0),
        ),
    )
}

/// Whether a text says why the shapes of a graph cannot be read: of the reasons there are, the
/// first.
pub open spec fn is_unreadable(facts: Set<FactV>, why: Seq<char>) -> bool {
    if misplaces_a_triple(facts) {
        why == "a quoted triple stands where a term is expected"@
    } else if misplaces_a_tag(facts) {
        why == "a member of sh:languageIn is no language tag"@
    } else {
        loops_a_path(facts) && why == "a property path leads to itself"@
    }
}

proof fn rest_links(facts: Set<FactV>)
    ensures
        links(facts, Rule::Rest, anywhere()) == links_by(facts, set![rdf_rest()]),
{
    assert(links(facts, Rule::Rest, anywhere()) =~= links_by(facts, set![rdf_rest()]));
}

/// The cells of the lists that some predicates lead to are those that a chain of rests leads to.
pub proof fn cells_are_told(facts: Set<FactV>, rule: Rule, by: Set<Seq<char>>)
    requires
        forall|f: FactV| #[trigger] holds(rule, f) <==> by.contains(f.predicate),
    ensures
        forall|x: ResourceV| #[trigger] cells(facts, rule).contains(x) <==> is_cell(facts, by, x),
{
    assert(objects(facts, rule, anywhere()) =~= ends_by(facts, by)) by {
        assert forall|x: ResourceV|
            objects(facts, rule, anywhere()).contains(x) == ends_by(facts, by).contains(x) by {
            if objects(facts, rule, anywhere()).contains(x) {
                let f = choose|f: FactV| #[trigger]
                    facts.contains(f) && picks(f, rule, anywhere()) && f.object == Some(
                        resource_node(x),
                    );
                assert(holds(rule, f));
            }
            if ends_by(facts, by).contains(x) {
                let f = choose|f: FactV| #[trigger]
                    facts.contains(f) && by.contains(f.predicate) && f.object == Some(as_node(x));
                assert(holds(rule, f));
                assert(picks(f, rule, anywhere()));
            }
        }
    }
    rest_links(facts);
    chains_reach(ends_by(facts, by), links_by(facts, set![rdf_rest()]));
}

proof fn path_links_are_told(facts: Set<FactV>)
    ensures
        links(facts, Rule::PathStep, anywhere()) == path_links(facts),
{
    assert(links(facts, Rule::PathStep, anywhere()) =~= path_links(facts));
}

proof fn path_heads_are_told(facts: Set<FactV>, shapes: Set<ResourceV>)
    ensures
        objects(facts, Rule::PathHead, at(shapes)) == path_heads(facts, shapes),
{
    assert(objects(facts, Rule::PathHead, at(shapes)) =~= path_heads(facts, shapes));
}

/// The parts of paths are what chains lead to from the paths.
pub proof fn path_parts_are_told(facts: Set<FactV>, shapes: Set<ResourceV>)
    ensures
        forall|x: ResourceV| #[trigger]
            path_parts(facts, shapes).contains(x) <==> leads(
                path_heads(facts, shapes),
                path_links(facts),
                x,
            ),
{
    path_links_are_told(facts);
    path_heads_are_told(facts, shapes);
    chains_reach(path_heads(facts, shapes), path_links(facts));
}

/// The shapes of a graph are refused for one of three reasons, and are not refused where none of
/// them holds.
pub proof fn shapes_are_refused_for_a_reason(facts: Set<FactV>)
    ensures
        read_fault(facts) matches Some(why) ==> is_unreadable(facts, why),
        read_fault(facts) is None <==> !misplaces_a_triple(facts) && !misplaces_a_tag(facts)
            && !loops_a_path(facts),
{
    let members = operators().insert("http://www.w3.org/ns/shacl#in"@);
    let tags = set!["http://www.w3.org/ns/shacl#languageIn"@];
    cells_are_told(facts, Rule::Members, members);
    cells_are_told(facts, Rule::TagList, tags);
    assert forall|f: FactV| #[trigger]
        is_tag_object(f) <==> (is_blank(f.object) || f.text is Some && is_language_tag(
            f.text->0,
        )) by {
        if let Some(text) = f.text {
            tags_are_told(text);
        }
    }
    let quoted = some_fact(facts, Rule::Quoted, anywhere());
    let member = some_fact(facts, Rule::QuotedMember, at(cells(facts, Rule::Members)));
    assert(quoted || member <==> misplaces_a_triple(facts)) by {
        if misplaces_a_triple(facts) {
            let f = choose|f: FactV| #[trigger]
                facts.contains(f) && f.quoted && (term_predicates().contains(f.predicate)
                    || f.predicate == rdf_first() && is_cell(facts, members, f.subject));
            assert(picks(f, Rule::Quoted, anywhere()) || picks(
                f,
                Rule::QuotedMember,
                at(cells(facts, Rule::Members)),
            ));
        }
    }
    assert(some_fact(facts, Rule::WrongTag, at(cells(facts, Rule::TagList))) <==> misplaces_a_tag(
        facts,
    )) by {
        if misplaces_a_tag(facts) {
            let f = choose|f: FactV| #[trigger]
                facts.contains(f) && f.predicate == rdf_first() && is_cell(facts, tags, f.subject) && !(
                is_blank(f.object)) && !(f.text is Some && is_language_tag(
                    f.text->0,
                ));
            assert(!is_tag_object(f));
            assert(picks(f, Rule::WrongTag, at(cells(facts, Rule::TagList))));
        }
    }
    loops_are_told(facts);
}

proof fn loops_are_told(facts: Set<FactV>)
    ensures
        endless(path_steps(facts)) <==> loops_a_path(facts),
{
    let everyone = subjects(facts, Rule::PathHead, anywhere());
    let heads = path_heads(facts, Set::full());
    assert(path_heads(facts, everyone) =~= heads) by {
        assert forall|x: ResourceV| heads.contains(x) implies path_heads(facts, everyone).contains(
            x,
        ) by {
            let f = choose|f: FactV| #[trigger]
                facts.contains(f) && f.predicate == sh_path() && is_blank(f.object) && Set::<
                    ResourceV,
                >::full().contains(f.subject) && f.object == Some(as_node(x));
            assert(picks(f, Rule::PathHead, anywhere()));
            assert(everyone.contains(f.subject));
        }
    }
    path_parts_are_told(facts, everyone);
    let parts = path_parts(facts, everyone);
    let kept = path_links(facts).filter(
        |link: (ResourceV, ResourceV)| leads(heads, path_links(facts), link.0),
    );
    assert(links(facts, Rule::PathStep, at(parts)) =~= kept) by {
        path_links_are_told(facts);
        assert forall|link: (ResourceV, ResourceV)|
            links(facts, Rule::PathStep, at(parts)).contains(link) == kept.contains(link) by {
            if links(facts, Rule::PathStep, at(parts)).contains(link) {
                let f = choose|f: FactV| #[trigger]
                    facts.contains(f) && picks(f, Rule::PathStep, at(parts)) && f.subject == link.0
                        && f.object == Some(resource_node(link.1));
                assert(picks(f, Rule::PathStep, anywhere()));
                assert(links(facts, Rule::PathStep, anywhere()).contains(link));
            }
            if kept.contains(link) {
                let f = choose|f: FactV| #[trigger]
                    facts.contains(f) && picks(f, Rule::PathStep, anywhere()) && f.subject
                        == link.0 && f.object == Some(resource_node(link.1));
                assert(picks(f, Rule::PathStep, at(parts)));
            }
        }
    }
    endless_links_are_walked(kept);
}

/// Whether a text holds another, with something before it and something after.
pub open spec fn holds_text(text: Seq<char>, part: Seq<char>) -> bool {
    exists|before: Seq<char>, after: Seq<char>| text == #[trigger] (before + part + after)
}

proof fn occurrences_are_told(text: Seq<char>, part: Seq<char>)
    ensures
        occurs(part, text) <==> holds_text(text, part),
{
    if occurs(part, text) {
        let k = choose|k: int| 0 <= k && #[trigger] holds_at(text, part, k);
        let (before, after) = (text.take(k), text.skip(k + part.len()));
        assert(before + text.subrange(k, k + part.len()) + after =~= text);
        assert(text == before + part + after);
    }
    if holds_text(text, part) {
        let (before, after) = choose|before: Seq<char>, after: Seq<char>|
            text == #[trigger] (before + part + after);
        let k = before.len() as int;
        assert(text.subrange(k, k + part.len()) =~= part);
        assert(holds_at(text, part, k));
    }
}

/// Whether a text begins with `WHERE`, whatever the case of its letters.
pub open spec fn opens_where(s: Seq<char>) -> bool {
    &&& s.len() >= 5
    &&& s[0] == 'W' || s[0] == 'w'
    &&& s[1] == 'H' || s[1] == 'h'
    &&& s[2] == 'E' || s[2] == 'e'
    &&& s[3] == 'R' || s[3] == 'r'
    &&& s[4] == 'E' || s[4] == 'e'
}

/// Whether a character takes as many bytes in capitals.
pub open spec fn keeps_bytes(c: char) -> bool {
    vstd::utf8::encode_utf8(capitals(seq![c])).len() == vstd::utf8::encode_utf8(seq![c]).len()
}

proof fn before_where_is_told(s: Seq<char>, before: Seq<char>, after: Seq<char>)
    requires
        s == before + after,
        forall|i: int| 0 <= i < before.len() ==> !opens_where(#[trigger] s.skip(i)),
        after.len() == 0 || opens_where(after),
    ensures
        where_at(s) is None <==> after.len() == 0,
        where_at(s) matches Some(k) ==> k == before.len(),
        before_where(s) == before,
    decreases before.len(),
{
    if before.len() == 0 {
        assert(s =~= after);
        assert(s.take(0) =~= before);
        if s.len() == 0 {
            assert(s =~= before);
        }
    } else {
        let (t, b) = (s.drop_first(), before.drop_first());
        assert(t =~= b + after);
        assert(s.skip(0) =~= s);
        assert(!opens_where(s.skip(0)));
        assert forall|i: int| 0 <= i < b.len() implies !opens_where(#[trigger] t.skip(i)) by {
            assert(t.skip(i) =~= s.skip(i + 1));
        }
        before_where_is_told(t, b, after);
        assert(seq![s[0]] + b =~= before);
        if let Some(k) = where_at(t) {
            assert(s.take(k as int + 1) =~= seq![s[0]] + t.take(k as int));
        } else {
            assert(s =~= before);
        }
    }
}

/// The place for the focus node in a query, which is cut in two where its first `WHERE` begins: the
/// query names its path early where `$PATH` stands before the cut; where `$PATH` stands nowhere the
/// place is found if the bytes of what precedes the cut, in capitals, end between two characters of
/// the query, or if nothing follows the cut; and where it does, if what precedes the cut keeps its
/// bytes in capitals.
pub proof fn places_are_told(s: Seq<char>, before: Seq<char>, after: Seq<char>)
    requires
        s == before + after,
        forall|i: int| 0 <= i < before.len() ==> !opens_where(#[trigger] s.skip(i)),
        after.len() == 0 || opens_where(after),
    ensures
        is_early(s) <==> holds_text(before, "$PATH"@),
        !holds_text(s, "$PATH"@) ==> (is_placed(s) <==> after.len() == 0
            || vstd::utf8::is_char_boundary(
            vstd::utf8::encode_utf8(s),
            vstd::utf8::encode_utf8(capitals(before)).len() as int,
        )),
        holds_text(s, "$PATH"@) ==> (is_placed(s) <==> forall|i: int|
            0 <= i < before.len() ==> keeps_bytes(#[trigger] before[i])),
        keeps_length(s) <==> forall|i: int| 0 <= i < s.len() ==> keeps_bytes(#[trigger] s[i]),
{
    before_where_is_told(s, before, after);
    occurrences_are_told(s, "$PATH"@);
    occurrences_are_told(before, "$PATH"@);
    lengths_are_told(s);
    lengths_are_told(before);
}

proof fn lengths_are_told(s: Seq<char>)
    ensures
        keeps_length(s) <==> forall|i: int| 0 <= i < s.len() ==> keeps_bytes(#[trigger] s[i]),
{
    if keeps_length(s) {
        assert forall|i: int| 0 <= i < s.len() implies keeps_bytes(#[trigger] s[i]) by {}
    }
    if forall|i: int| 0 <= i < s.len() ==> keeps_bytes(#[trigger] s[i]) {
        assert forall|i: int| 0 <= i < s.len() implies vstd::utf8::encode_utf8(
            capitals(seq![#[trigger] s[i]]),
        ).len() == vstd::utf8::encode_utf8(seq![s[i]]).len() by {
            assert(keeps_bytes(s[i]));
        }
    }
}

} // verus!
