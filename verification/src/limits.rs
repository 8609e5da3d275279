//! What the validator can take.
//!
//! The validator does not return on every graph: parts of it are not written yet, some of its
//! results are taken for granted, and some of its walks need not end. Here stands what a shapes
//! graph and a data graph must be for it to return, and the tests of that. A fault is found in the
//! graphs as they stand, with the shapes that may come to hold a node, and with what may be held
//! against them; which nodes a path leads to is followed only where it is one predicate. What
//! depends on the stack of the machine, such as how deep a path may be nested, is not stated.

use vstd::prelude::*;

use crate::facts::{
    find, list_forked_links, list_iris, list_links, list_objects, list_predicates, list_subjects,
    Fact, Place, Rule,
};
use crate::rdf::Resource;
use crate::walk::{
    both, drop_from, is_endless, keep_from, list_ends, list_pairs, meet, reach, without, Link,
};
#[allow(unused_imports)]
use crate::{
    facts::{
        along, anywhere, at, forked_links, iris, links, objects, on, predicates, some_fact,
        subjects, to, FactV,
    },
    hazards::{data_is_refused_for_a_reason, is_unfit},
    rdf::ResourceV,
    refusals::{is_unreadable, shapes_are_refused_for_a_reason},
    walk::{ends, endless, listed, not_from, nothing_listed, only_from, pairs, reached},
};

verus! {

/// The cells of the lists that a rule looks for.
pub open spec fn cells(facts: Set<FactV>, rule: Rule) -> Set<ResourceV> {
    reached(objects(facts, rule, anywhere()), links(facts, Rule::Rest, anywhere()))
}

/// The parts of the property paths of some shapes, those that are no predicates.
pub open spec fn path_parts(facts: Set<FactV>, shapes: Set<ResourceV>) -> Set<ResourceV> {
    reached(objects(facts, Rule::PathHead, at(shapes)), links(facts, Rule::PathStep, anywhere()))
}

/// The steps that reading the property paths of a graph may take.
pub open spec fn path_steps(facts: Set<FactV>) -> Set<(ResourceV, ResourceV)> {
    links(
        facts,
        Rule::PathStep,
        at(path_parts(facts, subjects(facts, Rule::PathHead, anywhere()))),
    )
}

/// Why the validator cannot read the shapes of a graph, if it cannot: some quoted triple stands
/// for a term or a shape, also in a list of them, some list of language tags has a member that is
/// none, or some property path leads to itself.
pub open spec fn read_fault(facts: Set<FactV>) -> Option<Seq<char>> {
    if some_fact(facts, Rule::Quoted, anywhere()) || some_fact(
        facts,
        Rule::QuotedMember,
        at(cells(facts, Rule::Members)),
    ) {
        Some("a quoted triple stands where a term is expected"@)
    } else if some_fact(facts, Rule::WrongTag, at(cells(facts, Rule::TagList))) {
        Some("a member of sh:languageIn is no language tag"@)
    } else if endless(path_steps(facts)) {
        Some("a property path leads to itself"@)
    } else {
        None
    }
}

/// Whether the validator can read the shapes of a graph.
pub open spec fn can_read(facts: Set<FactV>) -> bool {
    read_fault(facts) is None
}

/// The node shapes that are switched off. A property shape is not taken out of use by the switch.
pub open spec fn off_shapes(shapes: Set<FactV>) -> Set<ResourceV> {
    subjects(shapes, Rule::Off, anywhere()).difference(subjects(shapes, Rule::Path, anywhere()))
}

/// The references from shape to shape, with the cells of lists of shapes between them. A shape
/// with the flag for it refers to the qualified shapes of its siblings, for which all such shapes
/// stand here. A shape that is switched off refers to none.
pub open spec fn references(shapes: Set<FactV>) -> Set<(ResourceV, ResourceV)> {
    not_from(
        links(shapes, Rule::Reference, anywhere()) + pairs(
            subjects(shapes, Rule::Siblings, anywhere()),
            objects(shapes, Rule::Qualified, anywhere()),
        ),
        off_shapes(shapes),
    ) + links(shapes, Rule::ListPart, at(cells(shapes, Rule::Operand)))
}

/// The shapes that have a target in the data.
pub open spec fn targeted(shapes: Set<FactV>, data: Set<FactV>) -> Set<ResourceV> {
    let said = predicates(data, Rule::Any, anywhere());
    let classes = iris(data, Rule::Type, anywhere());
    subjects(shapes, Rule::Target, anywhere()) + subjects(shapes, Rule::TargetObjects, to(said))
        + subjects(shapes, Rule::TargetSubjects, to(said)) + subjects(
        shapes,
        Rule::TargetClass,
        to(classes),
    ) + subjects(shapes, Rule::Class, anywhere())
}

/// The shapes that may come to hold a node: those with a target, and those that are referred to,
/// step by step.
pub open spec fn used(shapes: Set<FactV>, data: Set<FactV>) -> Set<ResourceV> {
    let off = off_shapes(shapes);
    reached(targeted(shapes, data).difference(off), references(shapes)).difference(off)
}

/// The property shapes in use that may have a value node of a kind: the data has such an object
/// by their predicate, or anywhere where their path is not one predicate.
pub open spec fn valued(shapes: Set<FactV>, data: Set<FactV>, kind: Rule) -> Set<ResourceV> {
    subjects(
        shapes,
        Rule::Path,
        on(used(shapes, data), predicates(data, kind, anywhere())),
    ) + if some_fact(data, kind, anywhere()) {
        subjects(shapes, Rule::CrookedPath, at(used(shapes, data)))
    } else {
        Set::empty()
    }
}

/// The shapes that may have a focus node of a kind: it is a target of theirs, or they are
/// referred to, step by step, from a property shape with such a value node or from a shape with
/// such a focus node.
pub open spec fn met(shapes: Set<FactV>, data: Set<FactV>, kind: Rule, target: Rule) -> Set<
    ResourceV,
> {
    let off = off_shapes(shapes);
    let targets = subjects(shapes, target, anywhere()) + subjects(
        shapes,
        Rule::TargetObjects,
        to(predicates(data, kind, anywhere())),
    );
    let next = ends(only_from(references(shapes), valued(shapes, data, kind)));
    reached(targets.difference(off) + next, references(shapes)).difference(off)
}

/// Whether the inverse of a path that is no predicate stands in a path in use.
pub open spec fn inverse_fails(shapes: Set<FactV>, data: Set<FactV>) -> bool {
    some_fact(shapes, Rule::InversePath, at(path_parts(shapes, used(shapes, data))))
}

/// Whether the place for the focus node is not found in a query in use. A path that is written
/// before the place must not be longer or shorter in capitals.
pub open spec fn query_fails(shapes: Set<FactV>, data: Set<FactV>) -> bool {
    let queries = objects(shapes, Rule::Sparql, at(used(shapes, data)));
    ||| some_fact(shapes, Rule::LostSelect, at(queries))
    ||| some_fact(shapes, Rule::EarlyPath, at(queries)) && some_fact(
        shapes,
        Rule::OddName,
        anywhere(),
    )
}

/// The shapes in use that hold values against `sh:disjoint`.
pub open spec fn disjoint_shapes(shapes: Set<FactV>, data: Set<FactV>) -> Set<ResourceV> {
    subjects(shapes, Rule::Disjoint, at(used(shapes, data)))
}

/// The shapes whose path is one predicate: for them there is nothing to hold where the focus node
/// is no resource.
pub open spec fn straight_shapes(shapes: Set<FactV>) -> Set<ResourceV> {
    subjects(shapes, Rule::Path, anywhere()).difference(
        subjects(shapes, Rule::CrookedPath, anywhere()),
    )
}

/// Whether `sh:disjoint` may meet an object that cannot be read.
pub open spec fn disjoint_unread(shapes: Set<FactV>, data: Set<FactV>) -> bool {
    let held = disjoint_shapes(shapes, data);
    let said = predicates(data, Rule::Unread, anywhere());
    ||| some_fact(shapes, Rule::Disjoint, on(held, said))
    ||| some_fact(shapes, Rule::Path, on(held, said))
    ||| some_fact(shapes, Rule::CrookedPath, at(held)) && some_fact(data, Rule::Unread, anywhere())
}

/// Whether `sh:disjoint` may meet what it cannot hold: an object that cannot be read, or a focus
/// node that is no resource.
pub open spec fn disjoint_fails(shapes: Set<FactV>, data: Set<FactV>) -> bool {
    ||| disjoint_unread(shapes, data)
    ||| exists|s: ResourceV| #[trigger]
        disjoint_shapes(shapes, data).difference(straight_shapes(shapes)).contains(s) && met(
            shapes,
            data,
            Rule::Loose,
            Rule::LooseTarget,
        ).contains(s)
}

/// The property shapes in use.
pub open spec fn property_shapes(shapes: Set<FactV>, data: Set<FactV>) -> Set<ResourceV> {
    subjects(shapes, Rule::Path, at(used(shapes, data)))
}

/// The property shapes in use that have shapes for their value nodes or reifiers.
pub open spec fn nesting_shapes(shapes: Set<FactV>, data: Set<FactV>) -> Set<ResourceV> {
    subjects(shapes, Rule::Nested, at(property_shapes(shapes, data)))
}

/// Whether property shapes may nest without end: they lead to themselves, and so does the data
/// along their paths by nodes with several values, or it says something by a predicate of a path
/// of theirs that is not one predicate, or it has reifiers where there are shapes for them. The
/// validator cuts the walk where a shape meets a node again that is the only value.
pub open spec fn nests_on(shapes: Set<FactV>, data: Set<FactV>) -> bool {
    let nesting = nesting_shapes(shapes, data);
    let names = iris(shapes, Rule::PathName, at(path_parts(shapes, nesting)));
    &&& endless(links(shapes, Rule::Nested, at(property_shapes(shapes, data))))
    &&& {
        ||| some_fact(shapes, Rule::Reifier, at(nesting)) && some_fact(
            data,
            Rule::Reifies,
            anywhere(),
        )
        ||| some_fact(data, Rule::Any, along(names))
        ||| endless(forked_links(data, along(iris(shapes, Rule::Path, at(nesting)))))
    }
}

/// Whether a quoted triple may be compared, which displays it: it stands in the data by a property
/// that values are compared with, or may be such a value.
pub open spec fn compares_triple(shapes: Set<FactV>, data: Set<FactV>) -> bool {
    let held = subjects(shapes, Rule::Less, at(used(shapes, data)));
    let said = predicates(data, Rule::Triple, anywhere());
    ||| some_fact(shapes, Rule::Less, on(held, said))
    ||| some_fact(shapes, Rule::Path, on(held, said))
    ||| some_fact(shapes, Rule::CrookedPath, at(held)) && some_fact(data, Rule::Triple, anywhere())
}

/// Whether a shape may meet a quoted triple again, which displays it: the shapes that meet one lead
/// to themselves; or one of them may fail, which leaves it marked as if it were still at work, and
/// some shape goes on after a failure.
pub open spec fn meets_triple_again(shapes: Set<FactV>, data: Set<FactV>) -> bool {
    let met = met(shapes, data, Rule::Triple, Rule::TripleTarget);
    ||| endless(only_from(references(shapes), met))
    ||| some_fact(shapes, Rule::Swallowing, anywhere()) && {
        ||| some_fact(shapes, Rule::Failing, at(met))
        ||| some_fact(data, Rule::Unread, anywhere()) && some_fact(shapes, Rule::Any, at(met))
    }
}

/// Whether the validator may have to display a quoted triple of the data.
pub open spec fn displays_triple(shapes: Set<FactV>, data: Set<FactV>) -> bool {
    compares_triple(shapes, data) || meets_triple_again(shapes, data)
}

/// Why the validator cannot hold a data graph against shapes that it can read, if it cannot.
pub open spec fn run_fault(shapes: Set<FactV>, data: Set<FactV>) -> Option<Seq<char>> {
    if inverse_fails(shapes, data) {
        Some("the inverse of a property path must be that of a predicate"@)
    } else if query_fails(shapes, data) {
        Some("a query has no place for the focus node"@)
    } else if disjoint_fails(shapes, data) {
        Some("sh:disjoint may meet a node that it cannot hold"@)
    } else if nests_on(shapes, data) {
        Some("property shapes may nest without end"@)
    } else if displays_triple(shapes, data) {
        Some("a quoted triple may have to be displayed"@)
    } else {
        None
    }
}

/// Whether the validator can hold a data graph against shapes.
pub open spec fn can_run(shapes: Set<FactV>, data: Set<FactV>) -> bool {
    can_read(shapes) && run_fault(shapes, data) is None
}

/// What a fault says, if there is one.
pub open spec fn fault_view(fault: Option<&str>) -> Option<Seq<char>> {
    match fault {
        Some(fault) => Some(fault@),
        None => None,
    }
}

/// Anywhere.
fn all_places() -> (r: Place<'static>)
    ensures
        r@ == anywhere(),
{
    Place { subjects: None, predicates: None, objects: None }
}

/// At some subjects.
fn at_these<'a>(subjects: &'a Vec<Resource>) -> (r: Place<'a>)
    ensures
        r@ == at(listed(subjects@)),
{
    Place { subjects: Some(subjects), predicates: None, objects: None }
}

/// With some predicates.
fn along_these<'a>(predicates: &'a Vec<String>) -> (r: Place<'a>)
    ensures
        r@ == along(listed(predicates@)),
{
    Place { subjects: None, predicates: Some(predicates), objects: None }
}

/// With some IRIs as objects.
fn to_these<'a>(objects: &'a Vec<String>) -> (r: Place<'a>)
    ensures
        r@ == to(listed(objects@)),
{
    Place { subjects: None, predicates: None, objects: Some(objects) }
}

/// At some subjects, with some IRIs as objects.
fn on_these<'a>(subjects: &'a Vec<Resource>, objects: &'a Vec<String>) -> (r: Place<'a>)
    ensures
        r@ == on(listed(subjects@), listed(objects@)),
{
    Place { subjects: Some(subjects), predicates: None, objects: Some(objects) }
}

/// The cells of the lists that a rule looks for.
fn list_cells(facts: &Vec<Fact>, rule: Rule) -> (r: Vec<Resource>)
    ensures
        listed(r@) == cells(listed(facts@), rule),
{
    reach(
        list_objects(facts, rule, &all_places()),
        &list_links(facts, Rule::Rest, &all_places()),
    )
}

/// The parts of the property paths of some shapes.
fn list_path_parts(facts: &Vec<Fact>, shapes: &Vec<Resource>) -> (r: Vec<Resource>)
    ensures
        listed(r@) == path_parts(listed(facts@), listed(shapes@)),
{
    reach(
        list_objects(facts, Rule::PathHead, &at_these(shapes)),
        &list_links(facts, Rule::PathStep, &all_places()),
    )
}

/// Why the validator cannot read the shapes of a graph, if it cannot.
pub fn find_read_fault(facts: &Vec<Fact>) -> (r: Option<&'static str>)
    ensures
        fault_view(r) == read_fault(listed(facts@)),
        match fault_view(r) {
            Some(why) => is_unreadable(listed(facts@), why),
            None => forall|why: Seq<char>| !#[trigger] is_unreadable(listed(facts@), why),
        },
{
    proof {
        shapes_are_refused_for_a_reason(listed(facts@));
    }
    let members = list_cells(facts, Rule::Members);
    if find(facts, Rule::Quoted, &all_places()) || find(
        facts,
        Rule::QuotedMember,
        &at_these(&members),
    ) {
        return Some("a quoted triple stands where a term is expected");
    }
    let tags = list_cells(facts, Rule::TagList);
    if find(facts, Rule::WrongTag, &at_these(&tags)) {
        return Some("a member of sh:languageIn is no language tag");
    }
    let parts = list_path_parts(facts, &list_subjects(facts, Rule::PathHead, &all_places()));
    if is_endless(&list_links(facts, Rule::PathStep, &at_these(&parts))) {
        return Some("a property path leads to itself");
    }
    None
}

/// The node shapes that are switched off.
fn list_off_shapes(shapes: &Vec<Fact>) -> (r: Vec<Resource>)
    ensures
        listed(r@) == off_shapes(listed(shapes@)),
{
    without(
        list_subjects(shapes, Rule::Off, &all_places()),
        &list_subjects(shapes, Rule::Path, &all_places()),
    )
}

/// The references from shape to shape.
fn list_references(shapes: &Vec<Fact>, off: &Vec<Resource>) -> (r: Vec<Link>)
    requires
        listed(off@) == off_shapes(listed(shapes@)),
    ensures
        listed(r@) == references(listed(shapes@)),
{
    let siblings = list_pairs(
        &list_subjects(shapes, Rule::Siblings, &all_places()),
        &list_objects(shapes, Rule::Qualified, &all_places()),
    );
    let referred = both(list_links(shapes, Rule::Reference, &all_places()), siblings);
    let operands = list_cells(shapes, Rule::Operand);
    both(
        drop_from(&referred, off),
        list_links(shapes, Rule::ListPart, &at_these(&operands)),
    )
}

/// The shapes that have a target in the data.
fn list_targeted(shapes: &Vec<Fact>, data: &Vec<Fact>) -> (r: Vec<Resource>)
    ensures
        listed(r@) == targeted(listed(shapes@), listed(data@)),
{
    let said = list_predicates(data, Rule::Any, &all_places());
    let classes = list_iris(data, Rule::Type, &all_places());
    let nodes = list_subjects(shapes, Rule::Target, &all_places());
    let held = both(nodes, list_subjects(shapes, Rule::TargetObjects, &to_these(&said)));
    let saying = both(held, list_subjects(shapes, Rule::TargetSubjects, &to_these(&said)));
    let typed = both(saying, list_subjects(shapes, Rule::TargetClass, &to_these(&classes)));
    both(typed, list_subjects(shapes, Rule::Class, &all_places()))
}

/// The shapes of a graph as they may come to hold the nodes of another: those that are switched
/// off, the references between them, and those in use.
struct Survey {
    off: Vec<Resource>,
    references: Vec<Link>,
    used: Vec<Resource>,
}

impl Survey {
    spec fn is_of(&self, shapes: Set<FactV>, data: Set<FactV>) -> bool {
        &&& listed(self.off@) == off_shapes(shapes)
        &&& listed(self.references@) == references(shapes)
        &&& listed(self.used@) == used(shapes, data)
    }
}

/// The shapes of a graph as they may come to hold the nodes of another.
fn survey(shapes: &Vec<Fact>, data: &Vec<Fact>) -> (r: Survey)
    ensures
        r.is_of(listed(shapes@), listed(data@)),
{
    let off = list_off_shapes(shapes);
    let references = list_references(shapes, &off);
    let heads = without(list_targeted(shapes, data), &off);
    let used = without(reach(heads, &references), &off);
    Survey { off, references, used }
}

/// The shapes that may have a focus node of a kind.
fn list_met(
    shapes: &Vec<Fact>,
    data: &Vec<Fact>,
    known: &Survey,
    kind: Rule,
    target: Rule,
) -> (r: Vec<Resource>)
    requires
        known.is_of(listed(shapes@), listed(data@)),
    ensures
        listed(r@) == met(listed(shapes@), listed(data@), kind, target),
{
    let said = list_predicates(data, kind, &all_places());
    let straight = list_subjects(shapes, Rule::Path, &on_these(&known.used, &said));
    proof {
        nothing_listed::<Resource>();
    }
    let crooked = if find(data, kind, &all_places()) {
        list_subjects(shapes, Rule::CrookedPath, &at_these(&known.used))
    } else {
        Vec::new()
    };
    let valued = both(straight, crooked);
    let next = list_ends(&keep_from(&known.references, &valued));
    let targets = both(
        list_subjects(shapes, target, &all_places()),
        list_subjects(shapes, Rule::TargetObjects, &to_these(&said)),
    );
    without(reach(both(without(targets, &known.off), next), &known.references), &known.off)
}

/// Whether the place for the focus node is not found in a query in use.
fn find_query_fault(shapes: &Vec<Fact>, known: &Survey, Ghost(data): Ghost<Set<FactV>>) -> (r: bool)
    requires
        known.is_of(listed(shapes@), data),
    ensures
        r == query_fails(listed(shapes@), data),
{
    let queries = list_objects(shapes, Rule::Sparql, &at_these(&known.used));
    let there = at_these(&queries);
    find(shapes, Rule::LostSelect, &there) || find(shapes, Rule::EarlyPath, &there) && find(
        shapes,
        Rule::OddName,
        &all_places(),
    )
}

/// Whether `sh:disjoint` may meet what it cannot hold.
fn find_disjoint_fault(shapes: &Vec<Fact>, data: &Vec<Fact>, known: &Survey) -> (r: bool)
    requires
        known.is_of(listed(shapes@), listed(data@)),
    ensures
        r == disjoint_fails(listed(shapes@), listed(data@)),
{
    let held = list_subjects(shapes, Rule::Disjoint, &at_these(&known.used));
    let said = list_predicates(data, Rule::Unread, &all_places());
    let there = on_these(&held, &said);
    if find(shapes, Rule::Disjoint, &there) || find(shapes, Rule::Path, &there) || find(
        shapes,
        Rule::CrookedPath,
        &at_these(&held),
    ) && find(data, Rule::Unread, &all_places()) {
        assert(disjoint_unread(listed(shapes@), listed(data@)));
        return true;
    }
    let straight = without(
        list_subjects(shapes, Rule::Path, &all_places()),
        &list_subjects(shapes, Rule::CrookedPath, &all_places()),
    );
    let loose = without(held, &straight);
    let met_loosely = list_met(shapes, data, known, Rule::Loose, Rule::LooseTarget);
    assert(listed(loose@) == disjoint_shapes(listed(shapes@), listed(data@)).difference(
        straight_shapes(listed(shapes@)),
    ));
    assert(!disjoint_unread(listed(shapes@), listed(data@)));
    meet(&loose, &met_loosely)
}

/// Whether property shapes may nest without end.
fn find_nesting(shapes: &Vec<Fact>, data: &Vec<Fact>, known: &Survey) -> (r: bool)
    requires
        known.is_of(listed(shapes@), listed(data@)),
    ensures
        r == nests_on(listed(shapes@), listed(data@)),
{
    let pathed = list_subjects(shapes, Rule::Path, &at_these(&known.used));
    if !is_endless(&list_links(shapes, Rule::Nested, &at_these(&pathed))) {
        return false;
    }
    let nesting = list_subjects(shapes, Rule::Nested, &at_these(&pathed));
    let parts = list_path_parts(shapes, &nesting);
    let names = list_iris(shapes, Rule::PathName, &at_these(&parts));
    let paths = list_iris(shapes, Rule::Path, &at_these(&nesting));
    find(shapes, Rule::Reifier, &at_these(&nesting)) && find(data, Rule::Reifies, &all_places())
        || find(data, Rule::Any, &along_these(&names)) || is_endless(
        &list_forked_links(data, &along_these(&paths)),
    )
}

/// Whether the validator may have to display a quoted triple of the data.
fn find_display(shapes: &Vec<Fact>, data: &Vec<Fact>, known: &Survey) -> (r: bool)
    requires
        known.is_of(listed(shapes@), listed(data@)),
    ensures
        r == displays_triple(listed(shapes@), listed(data@)),
{
    let held = list_subjects(shapes, Rule::Less, &at_these(&known.used));
    let said = list_predicates(data, Rule::Triple, &all_places());
    let there = on_these(&held, &said);
    if find(shapes, Rule::Less, &there) || find(shapes, Rule::Path, &there) || find(
        shapes,
        Rule::CrookedPath,
        &at_these(&held),
    ) && find(data, Rule::Triple, &all_places()) {
        assert(compares_triple(listed(shapes@), listed(data@)));
        return true;
    }
    let met = list_met(shapes, data, known, Rule::Triple, Rule::TripleTarget);
    is_endless(&keep_from(&known.references, &met)) || find(
        shapes,
        Rule::Swallowing,
        &all_places(),
    ) && (find(shapes, Rule::Failing, &at_these(&met)) || find(data, Rule::Unread, &all_places())
        && find(shapes, Rule::Any, &at_these(&met)))
}

/// Why the validator cannot hold a data graph against shapes that it can read, if it cannot.
pub fn find_run_fault(shapes: &Vec<Fact>, data: &Vec<Fact>) -> (r: Option<&'static str>)
    ensures
        fault_view(r) == run_fault(listed(shapes@), listed(data@)),
        match fault_view(r) {
            Some(why) => is_unfit(listed(shapes@), listed(data@), why),
            None => forall|why: Seq<char>| !#[trigger]
                is_unfit(listed(shapes@), listed(data@), why),
        },
{
    proof {
        data_is_refused_for_a_reason(listed(shapes@), listed(data@));
    }
    let known = survey(shapes, data);
    let parts = list_path_parts(shapes, &known.used);
    if find(shapes, Rule::InversePath, &at_these(&parts)) {
        return Some("the inverse of a property path must be that of a predicate");
    }
    if find_query_fault(shapes, &known, Ghost(listed(data@))) {
        return Some("a query has no place for the focus node");
    }
    if find_disjoint_fault(shapes, data, &known) {
        return Some("sh:disjoint may meet a node that it cannot hold");
    }
    if find_nesting(shapes, data, &known) {
        return Some("property shapes may nest without end");
    }
    if find_display(shapes, data, &known) {
        return Some("a quoted triple may have to be displayed");
    }
    None
}

} // verus!
