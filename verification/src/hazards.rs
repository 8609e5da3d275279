//! Which data graphs are refused against which shapes, and that no others are.

use vstd::prelude::*;

#[allow(unused_imports)]
use crate::{
    facts::{
        along, anywhere, at, forked_links, forks, holds, iris, links, objects, on, picks,
        predicates, some_fact, subjects, to, FactV, Rule,
    },
    limits::{
        can_read, can_run, cells, compares_triple, disjoint_fails, disjoint_shapes, disjoint_unread,
        inverse_fails, meets_triple_again, met, nesting_shapes, nests_on, off_shapes, path_parts,
        property_shapes, query_fails, references, run_fault, straight_shapes, targeted, used,
        valued,
    },
    query::{is_early, is_placed, keeps_length},
    rdf::{literal_form, literal_type, resource_node, NodeV, ResourceV},
    refusals::{
        as_node, cells_are_told, chains_reach, endless_links_are_walked, ends_by, is_blank, is_cell,
        is_iri, leads, links_by, misplaces_a_triple, operators, part_predicates, path_heads,
        path_links, path_parts_are_told, rdf_first, rdf_rest, sh_path, term_predicates, unending,
        Links,
    },
    walk::{ends, not_from, only_from, pairs, reached},
};

verus! {

/// Whether some fact has a subject and a predicate.
pub open spec fn states(facts: Set<FactV>, subject: ResourceV, predicate: Seq<char>) -> bool {
    exists|f: FactV| #[trigger]
        facts.contains(f) && f.subject == subject && f.predicate == predicate
}

/// Whether some fact has a predicate.
pub open spec fn is_said(facts: Set<FactV>, predicate: Seq<char>) -> bool {
    exists|f: FactV| #[trigger] facts.contains(f) && f.predicate == predicate
}

/// Whether some fact has a subject, a predicate and an IRI as its object.
pub open spec fn has_iri(
    facts: Set<FactV>,
    subject: ResourceV,
    predicate: Seq<char>,
    iri: Seq<char>,
) -> bool {
    exists|f: FactV| #[trigger]
        facts.contains(f) && f.subject == subject && f.predicate == predicate && f.object == Some(
            NodeV::Iri(iri),
        )
}

/// Whether a shape has a path that is no IRI.
pub open spec fn has_crooked_path(shapes: Set<FactV>, shape: ResourceV) -> bool {
    exists|f: FactV| #[trigger]
        shapes.contains(f) && f.subject == shape && f.predicate == sh_path() && !is_iri(f.object)
}

/// Whether a node shape is switched off: it has the boolean `true`, written so, for
/// `sh:deactivated`, and it has no path.
pub open spec fn is_off(shapes: Set<FactV>, shape: ResourceV) -> bool {
    &&& exists|f: FactV| #[trigger]
        shapes.contains(f) && f.subject == shape && f.predicate
            == "http://www.w3.org/ns/shacl#deactivated"@ && f.text == Some("true"@) && (
        f.object matches Some(NodeV::Literal(literal)) && literal_form(literal) == "true"@
            && literal_type(literal) == "http://www.w3.org/2001/XMLSchema#boolean"@)
    &&& !states(shapes, shape, sh_path())
}

/// Whether a shape has a target in the data: a node of its own, the objects or the subjects of a
/// property that the data has, the instances of a class that it has, or itself as a class.
pub open spec fn has_target(shapes: Set<FactV>, data: Set<FactV>, shape: ResourceV) -> bool {
    ||| states(shapes, shape, "http://www.w3.org/ns/shacl#targetNode"@)
    ||| exists|p: Seq<char>| #[trigger]
        is_said(data, p) && has_iri(
            shapes,
            shape,
            "http://www.w3.org/ns/shacl#targetObjectsOf"@,
            p,
        )
    ||| exists|p: Seq<char>| #[trigger]
        is_said(data, p) && has_iri(
            shapes,
            shape,
            "http://www.w3.org/ns/shacl#targetSubjectsOf"@,
            p,
        )
    ||| exists|node: ResourceV, class: Seq<char>| #[trigger]
        has_iri(data, node, "http://www.w3.org/1999/02/22-rdf-syntax-ns#type"@, class) && has_iri(
            shapes,
            shape,
            "http://www.w3.org/ns/shacl#targetClass"@,
            class,
        )
    ||| has_iri(
        shapes,
        shape,
        "http://www.w3.org/1999/02/22-rdf-syntax-ns#type"@,
        "http://www.w3.org/2000/01/rdf-schema#Class"@,
    )
}

/// The predicates by which a shape refers to another, or to a list of others.
pub open spec fn reference_predicates() -> Set<Seq<char>> {
    operators() + set![
        "http://www.w3.org/ns/shacl#property"@,
        "http://www.w3.org/ns/shacl#reifierShape"@,
        "http://www.w3.org/ns/shacl#node"@,
        "http://www.w3.org/ns/shacl#not"@,
        "http://www.w3.org/ns/shacl#qualifiedValueShape"@,
    ]
}

/// The steps from shape to shape: references, a shape's hold on the qualified shapes of its
/// siblings, and the members of lists of shapes. A shape that is switched off refers to none.
pub open spec fn shape_links(shapes: Set<FactV>) -> Links {
    Set::new(
        |link: (ResourceV, ResourceV)|
            {
                ||| !is_off(shapes, link.0) && (links_by(shapes, reference_predicates()).contains(
                    link,
                ) || states(
                    shapes,
                    link.0,
                    "http://www.w3.org/ns/shacl#qualifiedValueShapesDisjoint"@,
                ) && ends_by(
                    shapes,
                    set!["http://www.w3.org/ns/shacl#qualifiedValueShape"@],
                ).contains(link.1))
                ||| is_cell(shapes, operators(), link.0) && links_by(
                    shapes,
                    set![rdf_first(), rdf_rest()],
                ).contains(link)
            },
    )
}

/// The shapes that have a target in the data and are not switched off.
pub open spec fn live_targets(shapes: Set<FactV>, data: Set<FactV>) -> Set<ResourceV> {
    Set::new(|x: ResourceV| has_target(shapes, data, x) && !is_off(shapes, x))
}

/// Whether a shape is in use: it is not switched off, and some chain of references leads to it from
/// a shape that has a target in the data.
pub open spec fn in_use(shapes: Set<FactV>, data: Set<FactV>, shape: ResourceV) -> bool {
    !is_off(shapes, shape) && leads(live_targets(shapes, data), shape_links(shapes), shape)
}

proof fn off_is_told(shapes: Set<FactV>)
    ensures
        forall|x: ResourceV| #[trigger] off_shapes(shapes).contains(x) <==> is_off(shapes, x),
{
    assert forall|x: ResourceV| #[trigger] off_shapes(shapes).contains(x) <==> is_off(
        shapes,
        x,
    ) by {
        let off = subjects(shapes, Rule::Off, anywhere());
        let pathed = subjects(shapes, Rule::Path, anywhere());
        assert(pathed.contains(x) <==> states(shapes, x, sh_path()));
        if is_off(shapes, x) {
            let f = choose|f: FactV| #[trigger]
                shapes.contains(f) && f.subject == x && f.predicate
                    == "http://www.w3.org/ns/shacl#deactivated"@ && f.text == Some("true"@) && (
                f.object matches Some(NodeV::Literal(literal)) && literal_form(literal) == "true"@
                    && literal_type(literal) == "http://www.w3.org/2001/XMLSchema#boolean"@);
            assert(picks(f, Rule::Off, anywhere()));
        }
    }
}

proof fn references_are_told(shapes: Set<FactV>)
    ensures
        references(shapes) == shape_links(shapes),
{
    off_is_told(shapes);
    cells_are_told(shapes, Rule::Operand, operators());
    let by = reference_predicates();
    assert(links(shapes, Rule::Reference, anywhere()) =~= links_by(shapes, by)) by {
        assert forall|f: FactV| #[trigger] holds(Rule::Reference, f) <==> by.contains(
            f.predicate,
        ) by {}
        assert forall|l: (ResourceV, ResourceV)|
            links(shapes, Rule::Reference, anywhere()).contains(l) == links_by(
                shapes,
                by,
            ).contains(l) by {
            if links(shapes, Rule::Reference, anywhere()).contains(l) {
                let f = choose|f: FactV| #[trigger]
                    shapes.contains(f) && picks(f, Rule::Reference, anywhere()) && f.subject == l.0
                        && f.object == Some(resource_node(l.1));
                assert(holds(Rule::Reference, f));
            }
            if links_by(shapes, by).contains(l) {
                let f = choose|f: FactV| #[trigger]
                    shapes.contains(f) && by.contains(f.predicate) && f.subject == l.0 && f.object
                        == Some(as_node(l.1));
                assert(holds(Rule::Reference, f));
                assert(picks(f, Rule::Reference, anywhere()));
            }
        }
    }
    let flag = "http://www.w3.org/ns/shacl#qualifiedValueShapesDisjoint"@;
    let qualified = set!["http://www.w3.org/ns/shacl#qualifiedValueShape"@];
    assert(objects(shapes, Rule::Qualified, anywhere()) =~= ends_by(shapes, qualified));
    assert forall|x: ResourceV| #[trigger]
        subjects(shapes, Rule::Siblings, anywhere()).contains(x) <==> states(shapes, x, flag) by {}
    let operands = cells(shapes, Rule::Operand);
    assert forall|l: (ResourceV, ResourceV)| #[trigger]
        links(shapes, Rule::ListPart, at(operands)).contains(l) <==> is_cell(
            shapes,
            operators(),
            l.0,
        ) && links_by(shapes, set![rdf_first(), rdf_rest()]).contains(l) by {
        if links(shapes, Rule::ListPart, at(operands)).contains(l) {
            let f = choose|f: FactV| #[trigger]
                shapes.contains(f) && picks(f, Rule::ListPart, at(operands)) && f.subject == l.0
                    && f.object == Some(resource_node(l.1));
            assert(set![rdf_first(), rdf_rest()].contains(f.predicate));
        }
        if is_cell(shapes, operators(), l.0) && links_by(shapes, set![rdf_first(), rdf_rest()]).contains(
            l,
        ) {
            let f = choose|f: FactV| #[trigger]
                shapes.contains(f) && set![rdf_first(), rdf_rest()].contains(f.predicate) && f.subject
                    == l.0 && f.object == Some(as_node(l.1));
            assert(operands.contains(l.0));
            assert(picks(f, Rule::ListPart, at(operands)));
        }
    }
    let siblings = pairs(
        subjects(shapes, Rule::Siblings, anywhere()),
        objects(shapes, Rule::Qualified, anywhere()),
    );
    let referred = links(shapes, Rule::Reference, anywhere()) + siblings;
    assert forall|l: (ResourceV, ResourceV)|
        references(shapes).contains(l) == shape_links(shapes).contains(l) by {
        assert(not_from(referred, off_shapes(shapes)).contains(l) <==> referred.contains(l)
            && !off_shapes(shapes).contains(l.0));
        assert(off_shapes(shapes).contains(l.0) <==> is_off(shapes, l.0));
        assert(links(shapes, Rule::ListPart, at(operands)).contains(l) <==> is_cell(
            shapes,
            operators(),
            l.0,
        ) && links_by(shapes, set![rdf_first(), rdf_rest()]).contains(l));
    }
    assert(references(shapes) =~= shape_links(shapes));
}

proof fn said_is_told(data: Set<FactV>)
    ensures
        forall|p: Seq<char>| #[trigger]
            predicates(data, Rule::Any, anywhere()).contains(p) <==> is_said(data, p),
{
}

/// The subjects with one of some IRIs as an object.
proof fn pointing_is_told(
    facts: Set<FactV>,
    rule: Rule,
    predicate: Seq<char>,
    iris: Set<Seq<char>>,
)
    requires
        forall|f: FactV| #[trigger] holds(rule, f) <==> f.predicate == predicate,
    ensures
        forall|x: ResourceV| #[trigger]
            subjects(facts, rule, to(iris)).contains(x) <==> exists|iri: Seq<char>|
                iris.contains(iri) && #[trigger] has_iri(facts, x, predicate, iri),
{
    assert forall|x: ResourceV| #[trigger]
        subjects(facts, rule, to(iris)).contains(x) <==> exists|iri: Seq<char>|
        iris.contains(iri) && #[trigger] has_iri(facts, x, predicate, iri) by {
        if subjects(facts, rule, to(iris)).contains(x) {
            let f = choose|f: FactV| #[trigger]
                facts.contains(f) && picks(f, rule, to(iris)) && f.subject == x;
            assert(holds(rule, f));
            let iri = match f.object {
                Some(NodeV::Iri(iri)) => iri,
                _ => Seq::empty(),
            };
            assert(has_iri(facts, x, predicate, iri));
        }
        if exists|iri: Seq<char>|
            iris.contains(iri) && #[trigger] has_iri(facts, x, predicate, iri) {
            let iri = choose|iri: Seq<char>|
                iris.contains(iri) && #[trigger] has_iri(facts, x, predicate, iri);
            let f = choose|f: FactV| #[trigger]
                facts.contains(f) && f.subject == x && f.predicate == predicate && f.object
                    == Some(NodeV::Iri(iri));
            assert(holds(rule, f));
            assert(picks(f, rule, to(iris)));
        }
    }
}

proof fn targets_are_told(shapes: Set<FactV>, data: Set<FactV>)
    ensures
        forall|x: ResourceV| #[trigger]
            targeted(shapes, data).contains(x) <==> has_target(shapes, data, x),
{
    let said = predicates(data, Rule::Any, anywhere());
    let classes = iris(data, Rule::Type, anywhere());
    let kind = "http://www.w3.org/1999/02/22-rdf-syntax-ns#type"@;
    let class_of = "http://www.w3.org/ns/shacl#targetClass"@;
    let objects_of = "http://www.w3.org/ns/shacl#targetObjectsOf"@;
    let subjects_of = "http://www.w3.org/ns/shacl#targetSubjectsOf"@;
    pointing_is_told(shapes, Rule::TargetObjects, objects_of, said);
    pointing_is_told(shapes, Rule::TargetSubjects, subjects_of, said);
    pointing_is_told(shapes, Rule::TargetClass, class_of, classes);
    said_is_told(data);
    assert forall|x: ResourceV| #[trigger]
        targeted(shapes, data).contains(x) <==> has_target(shapes, data, x) by {
        assert(subjects(shapes, Rule::Target, anywhere()).contains(x) <==> states(
            shapes,
            x,
            "http://www.w3.org/ns/shacl#targetNode"@,
        ));
        assert(subjects(shapes, Rule::Class, anywhere()).contains(x) <==> has_iri(
            shapes,
            x,
            kind,
            "http://www.w3.org/2000/01/rdf-schema#Class"@,
        ));
        assert(subjects(shapes, Rule::TargetObjects, to(said)).contains(x) <==> exists|
            p: Seq<char>,
        | #[trigger]
            is_said(data, p) && has_iri(shapes, x, objects_of, p)) by {
            if subjects(shapes, Rule::TargetObjects, to(said)).contains(x) {
                let p = choose|p: Seq<char>|
                    said.contains(p) && #[trigger] has_iri(shapes, x, objects_of, p);
                assert(is_said(data, p));
            }
        }
        assert(subjects(shapes, Rule::TargetSubjects, to(said)).contains(x) <==> exists|
            p: Seq<char>,
        | #[trigger]
            is_said(data, p) && has_iri(shapes, x, subjects_of, p)) by {
            if subjects(shapes, Rule::TargetSubjects, to(said)).contains(x) {
                let p = choose|p: Seq<char>|
                    said.contains(p) && #[trigger] has_iri(shapes, x, subjects_of, p);
                assert(is_said(data, p));
            }
        }
        assert(subjects(shapes, Rule::TargetClass, to(classes)).contains(x) <==> exists|
            node: ResourceV,
            class: Seq<char>,
        | #[trigger]
            has_iri(data, node, kind, class) && has_iri(shapes, x, class_of, class)) by {
            if subjects(shapes, Rule::TargetClass, to(classes)).contains(x) {
                let class = choose|class: Seq<char>|
                    classes.contains(class) && #[trigger] has_iri(shapes, x, class_of, class);
                let f = choose|f: FactV| #[trigger]
                    data.contains(f) && picks(f, Rule::Type, anywhere()) && f.object == Some(
                        NodeV::Iri(class),
                    );
                assert(has_iri(data, f.subject, kind, class));
            }
            if exists|node: ResourceV, class: Seq<char>| #[trigger]
                has_iri(data, node, kind, class) && has_iri(shapes, x, class_of, class) {
                let (node, class) = choose|node: ResourceV, class: Seq<char>| #[trigger]
                    has_iri(data, node, kind, class) && has_iri(shapes, x, class_of, class);
                let f = choose|f: FactV| #[trigger]
                    data.contains(f) && f.subject == node && f.predicate == kind && f.object
                        == Some(NodeV::Iri(class));
                assert(picks(f, Rule::Type, anywhere()));
                assert(classes.contains(class));
            }
        }
    }
}

/// A shape counts where it is in use, and nowhere else.
pub proof fn shapes_in_use(shapes: Set<FactV>, data: Set<FactV>)
    ensures
        forall|x: ResourceV| #[trigger] used(shapes, data).contains(x) <==> in_use(shapes, data, x),
{
    off_is_told(shapes);
    references_are_told(shapes);
    targets_are_told(shapes, data);
    let heads = targeted(shapes, data).difference(off_shapes(shapes));
    assert(heads =~= live_targets(shapes, data)) by {
        assert forall|x: ResourceV| heads.contains(x) == live_targets(shapes, data).contains(
            x,
        ) by {
            assert(targeted(shapes, data).contains(x) <==> has_target(shapes, data, x));
            assert(off_shapes(shapes).contains(x) <==> is_off(shapes, x));
        }
    }
    chains_reach(live_targets(shapes, data), shape_links(shapes));
    assert forall|x: ResourceV| #[trigger] used(shapes, data).contains(x) <==> in_use(
        shapes,
        data,
        x,
    ) by {
        assert(off_shapes(shapes).contains(x) <==> is_off(shapes, x));
        assert(reached(heads, references(shapes)).contains(x) <==> leads(
            live_targets(shapes, data),
            shape_links(shapes),
            x,
        ));
    }
}

/// The shapes in use.
pub open spec fn all_in_use(shapes: Set<FactV>, data: Set<FactV>) -> Set<ResourceV> {
    Set::new(|x: ResourceV| in_use(shapes, data, x))
}

/// Whether the inverse of a path that is no predicate stands in a path of a shape in use.
pub open spec fn inverts_a_path(shapes: Set<FactV>, data: Set<FactV>) -> bool {
    exists|f: FactV| #[trigger]
        shapes.contains(f) && f.predicate == "http://www.w3.org/ns/shacl#inversePath"@ && is_blank(
            f.object,
        ) && leads(
            path_heads(shapes, all_in_use(shapes, data)),
            path_links(shapes),
            f.subject,
        )
}

/// Whether a resource is a query of a shape in use.
pub open spec fn is_query(shapes: Set<FactV>, data: Set<FactV>, query: ResourceV) -> bool {
    exists|f: FactV| #[trigger]
        shapes.contains(f) && f.predicate == "http://www.w3.org/ns/shacl#sparql"@ && in_use(
            shapes,
            data,
            f.subject,
        ) && f.object == Some(as_node(query))
}

/// Whether some predicate of a path has a character that is longer or shorter in capitals.
pub open spec fn has_odd_name(shapes: Set<FactV>) -> bool {
    exists|f: FactV| #[trigger]
        shapes.contains(f) && (f.predicate == sh_path() || part_predicates().contains(f.predicate))
            && is_iri(f.object) && !keeps_length(f.object->0->Iri_0)
}

/// Whether the place for the focus node is not found in a query of a shape in use.
pub open spec fn loses_a_place(shapes: Set<FactV>, data: Set<FactV>) -> bool {
    exists|f: FactV| #[trigger]
        shapes.contains(f) && f.predicate == "http://www.w3.org/ns/shacl#select"@ && is_query(
            shapes,
            data,
            f.subject,
        ) && f.text is Some && (!is_placed(f.text->0) || is_early(f.text->0) && has_odd_name(shapes))
}

/// An object that cannot be read.
pub open spec fn is_unread() -> spec_fn(FactV) -> bool {
    |f: FactV| f.object is None
}

/// An object that is no resource.
pub open spec fn is_loose() -> spec_fn(FactV) -> bool {
    |f: FactV| !is_iri(f.object) && !is_blank(f.object)
}

/// A quoted triple that can be read.
pub open spec fn is_triple() -> spec_fn(FactV) -> bool {
    |f: FactV| f.object is Some && f.object->0 is Triple
}

/// A target node that is no resource.
pub open spec fn is_loose_target() -> spec_fn(FactV) -> bool {
    |f: FactV|
        f.predicate == "http://www.w3.org/ns/shacl#targetNode"@ && !is_iri(f.object) && !is_blank(
            f.object,
        )
}

/// A target node that is a quoted triple.
pub open spec fn is_triple_target() -> spec_fn(FactV) -> bool {
    |f: FactV| f.predicate == "http://www.w3.org/ns/shacl#targetNode"@ && f.quoted
}

/// Whether some fact of a kind has a predicate.
pub open spec fn said_with(
    facts: Set<FactV>,
    kind: spec_fn(FactV) -> bool,
    predicate: Seq<char>,
) -> bool {
    exists|f: FactV| #[trigger] facts.contains(f) && kind(f) && f.predicate == predicate
}

/// Whether some fact is of a kind.
pub open spec fn any(facts: Set<FactV>, kind: spec_fn(FactV) -> bool) -> bool {
    exists|f: FactV| #[trigger] facts.contains(f) && kind(f)
}

/// Whether a shape in use may have a value node of a kind.
pub open spec fn may_value(
    shapes: Set<FactV>,
    data: Set<FactV>,
    kind: spec_fn(FactV) -> bool,
    shape: ResourceV,
) -> bool {
    &&& in_use(shapes, data, shape)
    &&& {
        ||| exists|p: Seq<char>| #[trigger]
            said_with(data, kind, p) && has_iri(shapes, shape, sh_path(), p)
        ||| any(data, kind) && has_crooked_path(shapes, shape)
    }
}

/// Whether a shape that is not switched off has a target node of a kind.
pub open spec fn may_target(
    shapes: Set<FactV>,
    data: Set<FactV>,
    kind: spec_fn(FactV) -> bool,
    target: spec_fn(FactV) -> bool,
    shape: ResourceV,
) -> bool {
    &&& !is_off(shapes, shape)
    &&& {
        ||| exists|f: FactV| #[trigger] shapes.contains(f) && f.subject == shape && target(f)
        ||| exists|p: Seq<char>| #[trigger]
            said_with(data, kind, p) && has_iri(
                shapes,
                shape,
                "http://www.w3.org/ns/shacl#targetObjectsOf"@,
                p,
            )
    }
}

/// The shapes that come first to a node of a kind: it is a target of theirs, or a value node of a
/// shape that refers to them.
pub open spec fn first_met(
    shapes: Set<FactV>,
    data: Set<FactV>,
    kind: spec_fn(FactV) -> bool,
    target: spec_fn(FactV) -> bool,
) -> Set<ResourceV> {
    Set::new(
        |x: ResourceV|
            may_target(shapes, data, kind, target, x) || exists|y: ResourceV| #[trigger]
                may_value(shapes, data, kind, y) && shape_links(shapes).contains((y, x)),
    )
}

/// Whether a shape may have a focus node of a kind.
pub open spec fn may_meet(
    shapes: Set<FactV>,
    data: Set<FactV>,
    kind: spec_fn(FactV) -> bool,
    target: spec_fn(FactV) -> bool,
    shape: ResourceV,
) -> bool {
    !is_off(shapes, shape) && leads(
        first_met(shapes, data, kind, target),
        shape_links(shapes),
        shape,
    )
}

/// Whether a shape in use holds values against `sh:disjoint` that it cannot hold: an object that
/// cannot be read, or a focus node that is no resource where the path is not one predicate.
pub open spec fn holds_a_misfit(
    shapes: Set<FactV>,
    data: Set<FactV>,
    shape: ResourceV,
) -> bool {
    &&& in_use(shapes, data, shape)
    &&& states(shapes, shape, "http://www.w3.org/ns/shacl#disjoint"@)
    &&& {
        ||| exists|p: Seq<char>| #[trigger]
            said_with(data, is_unread(), p) && (has_iri(
                shapes,
                shape,
                "http://www.w3.org/ns/shacl#disjoint"@,
                p,
            ) || has_iri(shapes, shape, sh_path(), p))
        ||| has_crooked_path(shapes, shape) && any(data, is_unread())
        ||| (has_crooked_path(shapes, shape) || !states(shapes, shape, sh_path())) && may_meet(
            shapes,
            data,
            is_loose(),
            is_loose_target(),
            shape,
        )
    }
}

/// Whether a shape in use has a path.
pub open spec fn is_property_shape(
    shapes: Set<FactV>,
    data: Set<FactV>,
    shape: ResourceV,
) -> bool {
    in_use(shapes, data, shape) && states(shapes, shape, sh_path())
}

/// The predicates by which a property shape has shapes for its value nodes or reifiers.
pub open spec fn nesting_predicates() -> Set<Seq<char>> {
    set!["http://www.w3.org/ns/shacl#property"@, "http://www.w3.org/ns/shacl#reifierShape"@]
}

/// The steps from a property shape in use to a shape for its value nodes or reifiers.
pub open spec fn nesting_links(shapes: Set<FactV>, data: Set<FactV>) -> Links {
    links_by(shapes, nesting_predicates()).filter(
        |link: (ResourceV, ResourceV)| is_property_shape(shapes, data, link.0),
    )
}

/// Whether a property shape in use has shapes for its value nodes or reifiers.
pub open spec fn is_nesting(shapes: Set<FactV>, data: Set<FactV>, shape: ResourceV) -> bool {
    is_property_shape(shapes, data, shape) && exists|p: Seq<char>| #[trigger]
        nesting_predicates().contains(p) && states(shapes, shape, p)
}

/// The property shapes in use that have shapes for their value nodes or reifiers.
pub open spec fn all_nesting(shapes: Set<FactV>, data: Set<FactV>) -> Set<ResourceV> {
    Set::new(|x: ResourceV| is_nesting(shapes, data, x))
}

/// Whether a predicate is the path of a nesting property shape.
pub open spec fn is_nesting_path(shapes: Set<FactV>, data: Set<FactV>, p: Seq<char>) -> bool {
    exists|x: ResourceV| #[trigger]
        is_nesting(shapes, data, x) && has_iri(shapes, x, sh_path(), p)
}

/// The steps of the data along the paths of nesting property shapes, from nodes that have several
/// values.
pub open spec fn forked_steps(shapes: Set<FactV>, data: Set<FactV>) -> Links {
    Set::new(
        |link: (ResourceV, ResourceV)|
            exists|f: FactV| #[trigger]
                data.contains(f) && f.subject == link.0 && f.object == Some(as_node(link.1))
                    && is_nesting_path(shapes, data, f.predicate) && has_other(data, f),
    )
}

/// Whether a subject has another object by the same predicate.
pub open spec fn has_other(facts: Set<FactV>, f: FactV) -> bool {
    exists|g: FactV| #[trigger]
        facts.contains(g) && g.subject == f.subject && g.predicate == f.predicate && g.object
            != f.object
}

/// Whether property shapes may nest without end: they lead to themselves, and the data may keep the
/// validator going.
pub open spec fn nests_without_end(shapes: Set<FactV>, data: Set<FactV>) -> bool {
    &&& unending(nesting_links(shapes, data))
    &&& {
        ||| is_said(data, "http://www.w3.org/1999/02/22-rdf-syntax-ns#reifies"@) && exists|
            x: ResourceV,
        | #[trigger]
            is_nesting(shapes, data, x) && states(
                shapes,
                x,
                "http://www.w3.org/ns/shacl#reifierShape"@,
            )
        ||| exists|f: FactV| #[trigger]
            shapes.contains(f) && part_predicates().contains(f.predicate) && is_iri(f.object)
                && is_said(data, f.object->0->Iri_0) && leads(
                path_heads(shapes, all_nesting(shapes, data)),
                path_links(shapes),
                f.subject,
            )
        ||| unending(forked_steps(shapes, data))
    }
}

/// Whether a quoted triple of the data may be compared with another term.
pub open spec fn compares_a_triple(
    shapes: Set<FactV>,
    data: Set<FactV>,
    shape: ResourceV,
) -> bool {
    let (less, equal) = (
        "http://www.w3.org/ns/shacl#lessThan"@,
        "http://www.w3.org/ns/shacl#lessThanOrEquals"@,
    );
    &&& in_use(shapes, data, shape)
    &&& states(shapes, shape, less) || states(shapes, shape, equal)
    &&& {
        ||| exists|p: Seq<char>| #[trigger]
            said_with(data, is_triple(), p) && (has_iri(shapes, shape, less, p) || has_iri(
                shapes,
                shape,
                equal,
                p,
            ) || has_iri(shapes, shape, sh_path(), p))
        ||| has_crooked_path(shapes, shape) && any(data, is_triple())
    }
}

/// Whether a shape may have a quoted triple as its focus node.
pub open spec fn meets_a_triple(shapes: Set<FactV>, data: Set<FactV>, shape: ResourceV) -> bool {
    may_meet(shapes, data, is_triple(), is_triple_target(), shape)
}

/// The constraints that may fail rather than give a result.
pub open spec fn failing_predicates() -> Set<Seq<char>> {
    set![
        "http://www.w3.org/ns/shacl#sparql"@,
        "http://www.w3.org/ns/shacl#reifierShape"@,
        "http://www.w3.org/ns/shacl#lessThan"@,
        "http://www.w3.org/ns/shacl#lessThanOrEquals"@,
    ]
}

/// The constraints that take the failure of a shape for a result.
pub open spec fn swallowing_predicates() -> Set<Seq<char>> {
    set![
        "http://www.w3.org/ns/shacl#not"@,
        "http://www.w3.org/ns/shacl#and"@,
        "http://www.w3.org/ns/shacl#xone"@,
        "http://www.w3.org/ns/shacl#qualifiedValueShape"@,
    ]
}

/// Whether a shape may meet a quoted triple for a second time.
pub open spec fn meets_a_triple_twice(shapes: Set<FactV>, data: Set<FactV>) -> bool {
    ||| unending(
        shape_links(shapes).filter(
            |link: (ResourceV, ResourceV)| meets_a_triple(shapes, data, link.0),
        ),
    )
    ||| {
        &&& exists|f: FactV| #[trigger]
            shapes.contains(f) && swallowing_predicates().contains(f.predicate)
        &&& exists|f: FactV| #[trigger]
            shapes.contains(f) && meets_a_triple(shapes, data, f.subject) && (
            failing_predicates().contains(f.predicate) || any(data, is_unread()))
    }
}

/// Whether a quoted triple of the data may have to be displayed.
pub open spec fn shows_a_triple(shapes: Set<FactV>, data: Set<FactV>) -> bool {
    ||| exists|shape: ResourceV| #[trigger] compares_a_triple(shapes, data, shape)
    ||| meets_a_triple_twice(shapes, data)
}

/// Whether `sh:disjoint` may meet what it cannot hold.
pub open spec fn has_a_misfit(shapes: Set<FactV>, data: Set<FactV>) -> bool {
    exists|shape: ResourceV| #[trigger] holds_a_misfit(shapes, data, shape)
}

/// Whether a text says why a data graph cannot be held against shapes: of the reasons there are,
/// the first.
pub open spec fn is_unfit(shapes: Set<FactV>, data: Set<FactV>, why: Seq<char>) -> bool {
    if inverts_a_path(shapes, data) {
        why == "the inverse of a property path must be that of a predicate"@
    } else if loses_a_place(shapes, data) {
        why == "a query has no place for the focus node"@
    } else if has_a_misfit(shapes, data) {
        why == "sh:disjoint may meet a node that it cannot hold"@
    } else if nests_without_end(shapes, data) {
        why == "property shapes may nest without end"@
    } else {
        shows_a_triple(shapes, data) && why == "a quoted triple may have to be displayed"@
    }
}

proof fn use_is_told(shapes: Set<FactV>, data: Set<FactV>)
    ensures
        used(shapes, data) == all_in_use(shapes, data),
{
    shapes_in_use(shapes, data);
    assert(used(shapes, data) =~= all_in_use(shapes, data)) by {
        assert forall|x: ResourceV| used(shapes, data).contains(x) == all_in_use(
            shapes,
            data,
        ).contains(x) by {
            assert(used(shapes, data).contains(x) <==> in_use(shapes, data, x));
        }
    }
}

proof fn inverses_are_told(shapes: Set<FactV>, data: Set<FactV>)
    ensures
        inverse_fails(shapes, data) <==> inverts_a_path(shapes, data),
{
    use_is_told(shapes, data);
    let parts = path_parts(shapes, used(shapes, data));
    path_parts_are_told(shapes, used(shapes, data));
    if inverse_fails(shapes, data) {
        let f = choose|f: FactV| #[trigger]
            shapes.contains(f) && picks(f, Rule::InversePath, at(parts));
        assert(parts.contains(f.subject));
    }
    if inverts_a_path(shapes, data) {
        let f = choose|f: FactV| #[trigger]
            shapes.contains(f) && f.predicate == "http://www.w3.org/ns/shacl#inversePath"@
                && is_blank(f.object) && leads(
                path_heads(shapes, all_in_use(shapes, data)),
                path_links(shapes),
                f.subject,
            );
        assert(parts.contains(f.subject));
        assert(picks(f, Rule::InversePath, at(parts)));
    }
}

proof fn queries_are_told(shapes: Set<FactV>, data: Set<FactV>)
    ensures
        query_fails(shapes, data) <==> loses_a_place(shapes, data),
{
    use_is_told(shapes, data);
    let queries = objects(shapes, Rule::Sparql, at(used(shapes, data)));
    assert forall|q: ResourceV| #[trigger] queries.contains(q) <==> is_query(shapes, data, q) by {
        if is_query(shapes, data, q) {
            let f = choose|f: FactV| #[trigger]
                shapes.contains(f) && f.predicate == "http://www.w3.org/ns/shacl#sparql"@ && in_use(
                    shapes,
                    data,
                    f.subject,
                ) && f.object == Some(as_node(q));
            assert(picks(f, Rule::Sparql, at(used(shapes, data))));
        }
    }
    assert(some_fact(shapes, Rule::OddName, anywhere()) <==> has_odd_name(shapes)) by {
        if has_odd_name(shapes) {
            let f = choose|f: FactV| #[trigger]
                shapes.contains(f) && (f.predicate == sh_path() || part_predicates().contains(
                    f.predicate,
                )) && is_iri(f.object) && !keeps_length(f.object->0->Iri_0);
            assert(picks(f, Rule::OddName, anywhere()));
        }
    }
    if loses_a_place(shapes, data) {
        let f = choose|f: FactV| #[trigger]
            shapes.contains(f) && f.predicate == "http://www.w3.org/ns/shacl#select"@ && is_query(
                shapes,
                data,
                f.subject,
            ) && f.text is Some && (!is_placed(f.text->0) || is_early(f.text->0) && has_odd_name(
                shapes,
            ));
        assert(queries.contains(f.subject));
        assert(picks(f, Rule::LostSelect, at(queries)) || picks(f, Rule::EarlyPath, at(queries)));
    }
    if query_fails(shapes, data) {
        if some_fact(shapes, Rule::LostSelect, at(queries)) {
            let f = choose|f: FactV| #[trigger]
                shapes.contains(f) && picks(f, Rule::LostSelect, at(queries));
            assert(queries.contains(f.subject));
        } else {
            let f = choose|f: FactV| #[trigger]
                shapes.contains(f) && picks(f, Rule::EarlyPath, at(queries));
            assert(queries.contains(f.subject));
        }
    }
}

/// What a rule for the data finds is what is of a kind.
spec fn finds_kind(rule: Rule, kind: spec_fn(FactV) -> bool) -> bool {
    forall|f: FactV| #[trigger] holds(rule, f) <==> kind(f)
}

proof fn said_with_is_told(data: Set<FactV>, rule: Rule, kind: spec_fn(FactV) -> bool)
    requires
        finds_kind(rule, kind),
    ensures
        forall|p: Seq<char>| #[trigger]
            predicates(data, rule, anywhere()).contains(p) <==> said_with(data, kind, p),
        some_fact(data, rule, anywhere()) <==> any(data, kind),
{
    assert forall|p: Seq<char>| #[trigger]
        predicates(data, rule, anywhere()).contains(p) <==> said_with(data, kind, p) by {
        if predicates(data, rule, anywhere()).contains(p) {
            let f = choose|f: FactV| #[trigger]
                data.contains(f) && picks(f, rule, anywhere()) && f.predicate == p;
            assert(holds(rule, f));
        }
        if said_with(data, kind, p) {
            let f = choose|f: FactV| #[trigger] data.contains(f) && kind(f) && f.predicate == p;
            assert(holds(rule, f));
            assert(picks(f, rule, anywhere()));
        }
    }
    if some_fact(data, rule, anywhere()) {
        let f = choose|f: FactV| #[trigger] data.contains(f) && picks(f, rule, anywhere());
        assert(holds(rule, f));
    }
    if any(data, kind) {
        let f = choose|f: FactV| #[trigger] data.contains(f) && kind(f);
        assert(holds(rule, f));
        assert(picks(f, rule, anywhere()));
    }
}

/// A shape among some, with one of some IRIs as the object of a predicate.
proof fn pointing_on_is_told(
    facts: Set<FactV>,
    rule: Rule,
    predicate: Seq<char>,
    some: Set<ResourceV>,
    iris: Set<Seq<char>>,
)
    requires
        forall|f: FactV| #[trigger] holds(rule, f) <==> f.predicate == predicate,
    ensures
        forall|x: ResourceV| #[trigger]
            subjects(facts, rule, on(some, iris)).contains(x) <==> some.contains(x) && exists|
                iri: Seq<char>,
            |
                iris.contains(iri) && #[trigger] has_iri(facts, x, predicate, iri),
        some_fact(facts, rule, on(some, iris)) <==> exists|x: ResourceV| #[trigger]
            subjects(facts, rule, on(some, iris)).contains(x),
{
    assert forall|x: ResourceV| #[trigger]
        subjects(facts, rule, on(some, iris)).contains(x) <==> some.contains(x) && exists|
        iri: Seq<char>,
    |
        iris.contains(iri) && #[trigger] has_iri(facts, x, predicate, iri) by {
        if subjects(facts, rule, on(some, iris)).contains(x) {
            let f = choose|f: FactV| #[trigger]
                facts.contains(f) && picks(f, rule, on(some, iris)) && f.subject == x;
            assert(holds(rule, f));
            let iri = match f.object {
                Some(NodeV::Iri(iri)) => iri,
                _ => Seq::empty(),
            };
            assert(has_iri(facts, x, predicate, iri));
        }
        if some.contains(x) && exists|iri: Seq<char>|
            iris.contains(iri) && #[trigger] has_iri(facts, x, predicate, iri) {
            let iri = choose|iri: Seq<char>|
                iris.contains(iri) && #[trigger] has_iri(facts, x, predicate, iri);
            let f = choose|f: FactV| #[trigger]
                facts.contains(f) && f.subject == x && f.predicate == predicate && f.object
                    == Some(NodeV::Iri(iri));
            assert(holds(rule, f));
            assert(picks(f, rule, on(some, iris)));
        }
    }
    if some_fact(facts, rule, on(some, iris)) {
        let f = choose|f: FactV| #[trigger]
            facts.contains(f) && picks(f, rule, on(some, iris));
        assert(subjects(facts, rule, on(some, iris)).contains(f.subject));
    }
    if exists|x: ResourceV| #[trigger] subjects(facts, rule, on(some, iris)).contains(x) {
        let x = choose|x: ResourceV| #[trigger] subjects(facts, rule, on(some, iris)).contains(x);
        let f = choose|f: FactV| #[trigger]
            facts.contains(f) && picks(f, rule, on(some, iris)) && f.subject == x;
    }
}

/// A shape among some, with a path that is no IRI.
proof fn crooked_is_told(shapes: Set<FactV>, some: Set<ResourceV>)
    ensures
        forall|x: ResourceV| #[trigger]
            subjects(shapes, Rule::CrookedPath, at(some)).contains(x) <==> some.contains(x)
                && has_crooked_path(shapes, x),
        some_fact(shapes, Rule::CrookedPath, at(some)) <==> exists|x: ResourceV|
            some.contains(x) && #[trigger] has_crooked_path(shapes, x),
{
    assert forall|x: ResourceV| #[trigger]
        subjects(shapes, Rule::CrookedPath, at(some)).contains(x) <==> some.contains(x)
            && has_crooked_path(shapes, x) by {
        if some.contains(x) && has_crooked_path(shapes, x) {
            let f = choose|f: FactV| #[trigger]
                shapes.contains(f) && f.subject == x && f.predicate == sh_path() && !is_iri(
                    f.object,
                );
            assert(picks(f, Rule::CrookedPath, at(some)));
        }
    }
    if some_fact(shapes, Rule::CrookedPath, at(some)) {
        let f = choose|f: FactV| #[trigger]
            shapes.contains(f) && picks(f, Rule::CrookedPath, at(some));
        assert(has_crooked_path(shapes, f.subject));
    }
    if exists|x: ResourceV| some.contains(x) && #[trigger] has_crooked_path(shapes, x) {
        let x = choose|x: ResourceV| some.contains(x) && #[trigger] has_crooked_path(shapes, x);
        let f = choose|f: FactV| #[trigger]
            shapes.contains(f) && f.subject == x && f.predicate == sh_path() && !is_iri(f.object);
        assert(picks(f, Rule::CrookedPath, at(some)));
    }
}

proof fn values_are_told(
    shapes: Set<FactV>,
    data: Set<FactV>,
    rule: Rule,
    kind: spec_fn(FactV) -> bool,
)
    requires
        finds_kind(rule, kind),
    ensures
        forall|x: ResourceV| #[trigger]
            valued(shapes, data, rule).contains(x) <==> may_value(shapes, data, kind, x),
{
    use_is_told(shapes, data);
    said_with_is_told(data, rule, kind);
    let said = predicates(data, rule, anywhere());
    pointing_on_is_told(shapes, Rule::Path, sh_path(), used(shapes, data), said);
    crooked_is_told(shapes, used(shapes, data));
    assert forall|x: ResourceV| #[trigger]
        valued(shapes, data, rule).contains(x) <==> may_value(shapes, data, kind, x) by {
        let straight = subjects(shapes, Rule::Path, on(used(shapes, data), said));
        assert(straight.contains(x) <==> in_use(shapes, data, x) && exists|p: Seq<char>| #[trigger]
            said_with(data, kind, p) && has_iri(shapes, x, sh_path(), p)) by {
            if straight.contains(x) {
                let p = choose|p: Seq<char>|
                    said.contains(p) && #[trigger] has_iri(shapes, x, sh_path(), p);
                assert(said_with(data, kind, p));
            }
        }
        assert(subjects(shapes, Rule::CrookedPath, at(used(shapes, data))).contains(x) <==> in_use(
            shapes,
            data,
            x,
        ) && has_crooked_path(shapes, x));
    }
}

/// The shapes that may have a focus node of a kind are told by chains.
proof fn meetings_are_told(
    shapes: Set<FactV>,
    data: Set<FactV>,
    rule: Rule,
    target_rule: Rule,
    kind: spec_fn(FactV) -> bool,
    target: spec_fn(FactV) -> bool,
)
    requires
        finds_kind(rule, kind),
        finds_kind(target_rule, target),
    ensures
        forall|x: ResourceV| #[trigger]
            met(shapes, data, rule, target_rule).contains(x) <==> may_meet(
                shapes,
                data,
                kind,
                target,
                x,
            ),
{
    off_is_told(shapes);
    references_are_told(shapes);
    values_are_told(shapes, data, rule, kind);
    said_with_is_told(data, rule, kind);
    let off = off_shapes(shapes);
    let said = predicates(data, rule, anywhere());
    let objects_of = "http://www.w3.org/ns/shacl#targetObjectsOf"@;
    pointing_is_told(shapes, Rule::TargetObjects, objects_of, said);
    let nodes = subjects(shapes, target_rule, anywhere());
    let pointed = subjects(shapes, Rule::TargetObjects, to(said));
    let next = ends(only_from(references(shapes), valued(shapes, data, rule)));
    let heads = (nodes + pointed).difference(off) + next;
    assert(heads =~= first_met(shapes, data, kind, target)) by {
        assert forall|x: ResourceV| heads.contains(x) == first_met(
            shapes,
            data,
            kind,
            target,
        ).contains(x) by {
            assert(off.contains(x) <==> is_off(shapes, x));
            assert(nodes.contains(x) <==> exists|f: FactV| #[trigger]
                shapes.contains(f) && f.subject == x && target(f)) by {
                if nodes.contains(x) {
                    let f = choose|f: FactV| #[trigger]
                        shapes.contains(f) && picks(f, target_rule, anywhere()) && f.subject == x;
                    assert(holds(target_rule, f));
                }
                if exists|f: FactV| #[trigger] shapes.contains(f) && f.subject == x && target(f) {
                    let f = choose|f: FactV| #[trigger]
                        shapes.contains(f) && f.subject == x && target(f);
                    assert(holds(target_rule, f));
                    assert(picks(f, target_rule, anywhere()));
                }
            }
            assert(pointed.contains(x) <==> exists|p: Seq<char>| #[trigger]
                said_with(data, kind, p) && has_iri(shapes, x, objects_of, p)) by {
                if pointed.contains(x) {
                    let p = choose|p: Seq<char>|
                        said.contains(p) && #[trigger] has_iri(shapes, x, objects_of, p);
                    assert(said_with(data, kind, p));
                }
            }
            assert(next.contains(x) <==> exists|y: ResourceV| #[trigger]
                may_value(shapes, data, kind, y) && shape_links(shapes).contains((y, x))) by {
                let kept = only_from(references(shapes), valued(shapes, data, rule));
                let end = |link: (ResourceV, ResourceV)| link.1;
                if next.contains(x) {
                    let link = choose|link: (ResourceV, ResourceV)|
                        kept.contains(link) && x == end(link);
                    assert(may_value(shapes, data, kind, link.0));
                    assert(shape_links(shapes).contains((link.0, x)));
                }
                if exists|y: ResourceV| #[trigger]
                    may_value(shapes, data, kind, y) && shape_links(shapes).contains((y, x)) {
                    let y = choose|y: ResourceV| #[trigger]
                        may_value(shapes, data, kind, y) && shape_links(shapes).contains((y, x));
                    assert(valued(shapes, data, rule).contains(y));
                    assert(kept.contains((y, x)));
                    assert(end((y, x)) == x);
                    assert(kept.map(end).contains(x));
                }
            }
        }
    }
    chains_reach(heads, shape_links(shapes));
    assert forall|x: ResourceV| #[trigger]
        met(shapes, data, rule, target_rule).contains(x) <==> may_meet(
            shapes,
            data,
            kind,
            target,
            x,
        ) by {
        assert(off.contains(x) <==> is_off(shapes, x));
        assert(reached(heads, references(shapes)).contains(x) <==> leads(
            first_met(shapes, data, kind, target),
            shape_links(shapes),
            x,
        ));
    }
}

proof fn misfits_are_told(shapes: Set<FactV>, data: Set<FactV>)
    ensures
        disjoint_fails(shapes, data) <==> has_a_misfit(shapes, data),
{
    let disjoint = "http://www.w3.org/ns/shacl#disjoint"@;
    use_is_told(shapes, data);
    assert(finds_kind(Rule::Unread, is_unread()));
    assert(finds_kind(Rule::Loose, is_loose()));
    assert(finds_kind(Rule::LooseTarget, is_loose_target()));
    said_with_is_told(data, Rule::Unread, is_unread());
    meetings_are_told(
        shapes,
        data,
        Rule::Loose,
        Rule::LooseTarget,
        is_loose(),
        is_loose_target(),
    );
    let held = disjoint_shapes(shapes, data);
    let said = predicates(data, Rule::Unread, anywhere());
    pointing_on_is_told(shapes, Rule::Disjoint, disjoint, held, said);
    pointing_on_is_told(shapes, Rule::Path, sh_path(), held, said);
    crooked_is_told(shapes, held);
    assert forall|x: ResourceV| #[trigger] held.contains(x) <==> in_use(shapes, data, x) && states(
        shapes,
        x,
        disjoint,
    ) by {
        if in_use(shapes, data, x) && states(shapes, x, disjoint) {
            let f = choose|f: FactV| #[trigger]
                shapes.contains(f) && f.subject == x && f.predicate == disjoint;
            assert(picks(f, Rule::Disjoint, at(used(shapes, data))));
        }
    }
    let crooked = subjects(shapes, Rule::CrookedPath, anywhere());
    assert forall|x: ResourceV| #[trigger] straight_shapes(shapes).contains(x) <==> states(
        shapes,
        x,
        sh_path(),
    ) && !has_crooked_path(shapes, x) by {
        let pathed = subjects(shapes, Rule::Path, anywhere());
        assert(pathed.contains(x) <==> states(shapes, x, sh_path()));
        assert(crooked.contains(x) <==> has_crooked_path(shapes, x)) by {
            if has_crooked_path(shapes, x) {
                let f = choose|f: FactV| #[trigger]
                    shapes.contains(f) && f.subject == x && f.predicate == sh_path() && !is_iri(
                        f.object,
                    );
                assert(picks(f, Rule::CrookedPath, anywhere()));
            }
        }
    }
    if has_a_misfit(shapes, data) {
        let x = choose|x: ResourceV| #[trigger] holds_a_misfit(shapes, data, x);
        assert(held.contains(x));
        if exists|p: Seq<char>| #[trigger]
            said_with(data, is_unread(), p) && (has_iri(shapes, x, disjoint, p) || has_iri(
                shapes,
                x,
                sh_path(),
                p,
            )) {
            let p = choose|p: Seq<char>| #[trigger]
                said_with(data, is_unread(), p) && (has_iri(shapes, x, disjoint, p) || has_iri(
                    shapes,
                    x,
                    sh_path(),
                    p,
                ));
            assert(said.contains(p));
            if has_iri(shapes, x, disjoint, p) {
                assert(subjects(shapes, Rule::Disjoint, on(held, said)).contains(x));
            } else {
                assert(subjects(shapes, Rule::Path, on(held, said)).contains(x));
            }
            assert(disjoint_unread(shapes, data));
        } else if has_crooked_path(shapes, x) && any(data, is_unread()) {
            assert(disjoint_unread(shapes, data));
        } else {
            let met = met(shapes, data, Rule::Loose, Rule::LooseTarget);
            assert(met.contains(x));
            assert(states(shapes, x, sh_path()) || !has_crooked_path(shapes, x) ==> {
                !straight_shapes(shapes).contains(x)
            });
            if !states(shapes, x, sh_path()) {
                assert(!straight_shapes(shapes).contains(x));
            }
            assert(held.difference(straight_shapes(shapes)).contains(x));
        }
    }
    if disjoint_fails(shapes, data) {
        if disjoint_unread(shapes, data) {
            if some_fact(shapes, Rule::Disjoint, on(held, said)) {
                let x = choose|x: ResourceV| #[trigger]
                    subjects(shapes, Rule::Disjoint, on(held, said)).contains(x);
                let p = choose|p: Seq<char>|
                    said.contains(p) && #[trigger] has_iri(shapes, x, disjoint, p);
                assert(said_with(data, is_unread(), p));
                assert(held.contains(x));
                assert(holds_a_misfit(shapes, data, x));
            } else if some_fact(shapes, Rule::Path, on(held, said)) {
                let x = choose|x: ResourceV| #[trigger]
                    subjects(shapes, Rule::Path, on(held, said)).contains(x);
                let p = choose|p: Seq<char>|
                    said.contains(p) && #[trigger] has_iri(shapes, x, sh_path(), p);
                assert(said_with(data, is_unread(), p));
                assert(held.contains(x));
                assert(holds_a_misfit(shapes, data, x));
            } else {
                let x = choose|x: ResourceV|
                    held.contains(x) && #[trigger] has_crooked_path(shapes, x);
                assert(holds_a_misfit(shapes, data, x));
            }
        } else {
            let x = choose|x: ResourceV| #[trigger]
                held.difference(straight_shapes(shapes)).contains(x) && met(
                    shapes,
                    data,
                    Rule::Loose,
                    Rule::LooseTarget,
                ).contains(x);
            assert(held.contains(x));
            assert(!straight_shapes(shapes).contains(x));
            assert(holds_a_misfit(shapes, data, x));
        }
    }
}

proof fn nesting_is_told(shapes: Set<FactV>, data: Set<FactV>)
    ensures
        forall|x: ResourceV| #[trigger]
            property_shapes(shapes, data).contains(x) <==> is_property_shape(shapes, data, x),
        nesting_shapes(shapes, data) == all_nesting(shapes, data),
        links(shapes, Rule::Nested, at(property_shapes(shapes, data))) == nesting_links(
            shapes,
            data,
        ),
{
    use_is_told(shapes, data);
    let pathed = property_shapes(shapes, data);
    let by = nesting_predicates();
    assert forall|x: ResourceV| #[trigger] pathed.contains(x) <==> is_property_shape(
        shapes,
        data,
        x,
    ) by {
        if is_property_shape(shapes, data, x) {
            let f = choose|f: FactV| #[trigger]
                shapes.contains(f) && f.subject == x && f.predicate == sh_path();
            assert(picks(f, Rule::Path, at(used(shapes, data))));
        }
    }
    assert(nesting_shapes(shapes, data) =~= all_nesting(shapes, data)) by {
        assert forall|x: ResourceV| nesting_shapes(shapes, data).contains(x) == all_nesting(
            shapes,
            data,
        ).contains(x) by {
            assert(pathed.contains(x) <==> is_property_shape(shapes, data, x));
            if nesting_shapes(shapes, data).contains(x) {
                let f = choose|f: FactV| #[trigger]
                    shapes.contains(f) && picks(f, Rule::Nested, at(pathed)) && f.subject == x;
                assert(by.contains(f.predicate) && states(shapes, x, f.predicate));
            }
            if is_nesting(shapes, data, x) {
                let p = choose|p: Seq<char>| #[trigger] by.contains(p) && states(shapes, x, p);
                let f = choose|f: FactV| #[trigger]
                    shapes.contains(f) && f.subject == x && f.predicate == p;
                assert(picks(f, Rule::Nested, at(pathed)));
            }
        }
    }
    assert(links(shapes, Rule::Nested, at(pathed)) =~= nesting_links(shapes, data)) by {
        assert forall|l: (ResourceV, ResourceV)|
            links(shapes, Rule::Nested, at(pathed)).contains(l) == nesting_links(
                shapes,
                data,
            ).contains(l) by {
            assert(pathed.contains(l.0) <==> is_property_shape(shapes, data, l.0));
            if links(shapes, Rule::Nested, at(pathed)).contains(l) {
                let f = choose|f: FactV| #[trigger]
                    shapes.contains(f) && picks(f, Rule::Nested, at(pathed)) && f.subject == l.0
                        && f.object == Some(resource_node(l.1));
                assert(by.contains(f.predicate));
                assert(links_by(shapes, by).contains(l));
            }
            if nesting_links(shapes, data).contains(l) {
                let f = choose|f: FactV| #[trigger]
                    shapes.contains(f) && by.contains(f.predicate) && f.subject == l.0 && f.object
                        == Some(as_node(l.1));
                assert(picks(f, Rule::Nested, at(pathed)));
            }
        }
    }
}

proof fn forks_are_told(shapes: Set<FactV>, data: Set<FactV>)
    ensures
        forked_links(
            data,
            along(iris(shapes, Rule::Path, at(nesting_shapes(shapes, data)))),
        ) == forked_steps(shapes, data),
{
    nesting_is_told(shapes, data);
    let nesting = nesting_shapes(shapes, data);
    let paths = iris(shapes, Rule::Path, at(nesting));
    assert forall|p: Seq<char>| #[trigger] paths.contains(p) <==> is_nesting_path(
        shapes,
        data,
        p,
    ) by {
        if paths.contains(p) {
            let f = choose|f: FactV| #[trigger]
                shapes.contains(f) && picks(f, Rule::Path, at(nesting)) && f.object == Some(
                    NodeV::Iri(p),
                );
            assert(nesting.contains(f.subject));
            assert(is_nesting(shapes, data, f.subject) && has_iri(
                shapes,
                f.subject,
                sh_path(),
                p,
            ));
        }
        if is_nesting_path(shapes, data, p) {
            let x = choose|x: ResourceV| #[trigger]
                is_nesting(shapes, data, x) && has_iri(shapes, x, sh_path(), p);
            let f = choose|f: FactV| #[trigger]
                shapes.contains(f) && f.subject == x && f.predicate == sh_path() && f.object
                    == Some(NodeV::Iri(p));
            assert(nesting.contains(x));
            assert(picks(f, Rule::Path, at(nesting)));
        }
    }
    assert(forked_links(data, along(paths)) =~= forked_steps(shapes, data)) by {
        assert forall|l: (ResourceV, ResourceV)|
            forked_links(data, along(paths)).contains(l) == forked_steps(shapes, data).contains(
                l,
            ) by {
            if forked_links(data, along(paths)).contains(l) {
                let f = choose|f: FactV| #[trigger]
                    data.contains(f) && crate::facts::fork_links(data, f, along(paths), l);
                assert(paths.contains(f.predicate));
                assert(has_other(data, f));
            }
            if forked_steps(shapes, data).contains(l) {
                let f = choose|f: FactV| #[trigger]
                    data.contains(f) && f.subject == l.0 && f.object == Some(as_node(l.1))
                        && is_nesting_path(shapes, data, f.predicate) && has_other(data, f);
                assert(paths.contains(f.predicate));
                assert(forks(data, f));
                assert(crate::facts::fork_links(data, f, along(paths), l));
            }
        }
    }
}

proof fn endless_nesting_is_told(shapes: Set<FactV>, data: Set<FactV>)
    ensures
        nests_on(shapes, data) <==> nests_without_end(shapes, data),
{
    let reifier = "http://www.w3.org/ns/shacl#reifierShape"@;
    let reifies = "http://www.w3.org/1999/02/22-rdf-syntax-ns#reifies"@;
    let nesting = nesting_shapes(shapes, data);
    nesting_is_told(shapes, data);
    forks_are_told(shapes, data);
    endless_links_are_walked(nesting_links(shapes, data));
    endless_links_are_walked(forked_steps(shapes, data));
    path_parts_are_told(shapes, nesting);
    let parts = path_parts(shapes, nesting);
    let names = iris(shapes, Rule::PathName, at(parts));
    assert(some_fact(shapes, Rule::Reifier, at(nesting)) <==> exists|x: ResourceV| #[trigger]
        is_nesting(shapes, data, x) && states(shapes, x, reifier)) by {
        if some_fact(shapes, Rule::Reifier, at(nesting)) {
            let f = choose|f: FactV| #[trigger]
                shapes.contains(f) && picks(f, Rule::Reifier, at(nesting));
            assert(nesting.contains(f.subject));
            assert(is_nesting(shapes, data, f.subject) && states(shapes, f.subject, reifier));
        }
        if exists|x: ResourceV| #[trigger]
            is_nesting(shapes, data, x) && states(shapes, x, reifier) {
            let x = choose|x: ResourceV| #[trigger]
                is_nesting(shapes, data, x) && states(shapes, x, reifier);
            let f = choose|f: FactV| #[trigger]
                shapes.contains(f) && f.subject == x && f.predicate == reifier;
            assert(nesting.contains(x));
            assert(picks(f, Rule::Reifier, at(nesting)));
        }
    }
    assert(some_fact(data, Rule::Reifies, anywhere()) <==> is_said(data, reifies)) by {
        if is_said(data, reifies) {
            let f = choose|f: FactV| #[trigger] data.contains(f) && f.predicate == reifies;
            assert(picks(f, Rule::Reifies, anywhere()));
        }
    }
    let heads = path_heads(shapes, all_nesting(shapes, data));
    assert(some_fact(data, Rule::Any, along(names)) <==> exists|f: FactV| #[trigger]
        shapes.contains(f) && part_predicates().contains(f.predicate) && is_iri(f.object)
            && is_said(data, f.object->0->Iri_0) && leads(
            heads,
            path_links(shapes),
            f.subject,
        )) by {
        if some_fact(data, Rule::Any, along(names)) {
            let g = choose|g: FactV| #[trigger]
                data.contains(g) && picks(g, Rule::Any, along(names));
            assert(names.contains(g.predicate));
            let f = choose|f: FactV| #[trigger]
                shapes.contains(f) && picks(f, Rule::PathName, at(parts)) && f.object == Some(
                    NodeV::Iri(g.predicate),
                );
            assert(parts.contains(f.subject));
            assert(part_predicates().contains(f.predicate));
            assert(is_said(data, f.object->0->Iri_0));
        }
        if exists|f: FactV| #[trigger]
            shapes.contains(f) && part_predicates().contains(f.predicate) && is_iri(f.object)
                && is_said(data, f.object->0->Iri_0) && leads(
                heads,
                path_links(shapes),
                f.subject,
            ) {
            let f = choose|f: FactV| #[trigger]
                shapes.contains(f) && part_predicates().contains(f.predicate) && is_iri(f.object)
                    && is_said(data, f.object->0->Iri_0) && leads(
                    heads,
                    path_links(shapes),
                    f.subject,
                );
            assert(parts.contains(f.subject));
            assert(picks(f, Rule::PathName, at(parts)));
            let name = f.object->0->Iri_0;
            assert(names.contains(name));
            let g = choose|g: FactV| #[trigger] data.contains(g) && g.predicate == name;
            assert(picks(g, Rule::Any, along(names)));
        }
    }
}

proof fn comparisons_are_told(shapes: Set<FactV>, data: Set<FactV>)
    ensures
        compares_triple(shapes, data) <==> exists|x: ResourceV| #[trigger]
            compares_a_triple(shapes, data, x),
{
    let (less, equal) = (
        "http://www.w3.org/ns/shacl#lessThan"@,
        "http://www.w3.org/ns/shacl#lessThanOrEquals"@,
    );
    use_is_told(shapes, data);
    assert(finds_kind(Rule::Triple, is_triple()));
    said_with_is_told(data, Rule::Triple, is_triple());
    let held = subjects(shapes, Rule::Less, at(used(shapes, data)));
    let said = predicates(data, Rule::Triple, anywhere());
    pointing_on_is_told(shapes, Rule::Path, sh_path(), held, said);
    crooked_is_told(shapes, held);
    assert forall|x: ResourceV| #[trigger] held.contains(x) <==> in_use(shapes, data, x) && (states(
        shapes,
        x,
        less,
    ) || states(shapes, x, equal)) by {
        if in_use(shapes, data, x) && (states(shapes, x, less) || states(shapes, x, equal)) {
            let f = choose|f: FactV| #[trigger]
                shapes.contains(f) && f.subject == x && (f.predicate == less || f.predicate
                    == equal);
            assert(picks(f, Rule::Less, at(used(shapes, data))));
        }
    }
    if compares_triple(shapes, data) {
        if some_fact(shapes, Rule::Less, on(held, said)) {
            let f = choose|f: FactV| #[trigger]
                shapes.contains(f) && picks(f, Rule::Less, on(held, said));
            let p = match f.object {
                Some(NodeV::Iri(iri)) => iri,
                _ => Seq::empty(),
            };
            assert(said_with(data, is_triple(), p));
            assert(held.contains(f.subject));
            assert(has_iri(shapes, f.subject, f.predicate, p));
            assert(compares_a_triple(shapes, data, f.subject));
        } else if some_fact(shapes, Rule::Path, on(held, said)) {
            let x = choose|x: ResourceV| #[trigger]
                subjects(shapes, Rule::Path, on(held, said)).contains(x);
            let p = choose|p: Seq<char>|
                said.contains(p) && #[trigger] has_iri(shapes, x, sh_path(), p);
            assert(said_with(data, is_triple(), p));
            assert(held.contains(x));
            assert(compares_a_triple(shapes, data, x));
        } else {
            let x = choose|x: ResourceV| held.contains(x) && #[trigger] has_crooked_path(shapes, x);
            assert(compares_a_triple(shapes, data, x));
        }
    }
    if exists|x: ResourceV| #[trigger] compares_a_triple(shapes, data, x) {
        let x = choose|x: ResourceV| #[trigger] compares_a_triple(shapes, data, x);
        assert(held.contains(x));
        if exists|p: Seq<char>| #[trigger]
            said_with(data, is_triple(), p) && (has_iri(shapes, x, less, p) || has_iri(
                shapes,
                x,
                equal,
                p,
            ) || has_iri(shapes, x, sh_path(), p)) {
            let p = choose|p: Seq<char>| #[trigger]
                said_with(data, is_triple(), p) && (has_iri(shapes, x, less, p) || has_iri(
                    shapes,
                    x,
                    equal,
                    p,
                ) || has_iri(shapes, x, sh_path(), p));
            assert(said.contains(p));
            if has_iri(shapes, x, sh_path(), p) {
                assert(subjects(shapes, Rule::Path, on(held, said)).contains(x));
            } else {
                let f = choose|f: FactV| #[trigger]
                    shapes.contains(f) && f.subject == x && (f.predicate == less || f.predicate
                        == equal) && f.object == Some(NodeV::Iri(p));
                assert(picks(f, Rule::Less, on(held, said)));
            }
        }
    }
}

proof fn second_meetings_are_told(shapes: Set<FactV>, data: Set<FactV>)
    ensures
        meets_triple_again(shapes, data) <==> meets_a_triple_twice(shapes, data),
{
    references_are_told(shapes);
    assert(finds_kind(Rule::Triple, is_triple()));
    assert(finds_kind(Rule::TripleTarget, is_triple_target()));
    assert(finds_kind(Rule::Unread, is_unread()));
    said_with_is_told(data, Rule::Unread, is_unread());
    meetings_are_told(
        shapes,
        data,
        Rule::Triple,
        Rule::TripleTarget,
        is_triple(),
        is_triple_target(),
    );
    let met = met(shapes, data, Rule::Triple, Rule::TripleTarget);
    assert forall|x: ResourceV| #[trigger] met.contains(x) <==> meets_a_triple(
        shapes,
        data,
        x,
    ) by {}
    let kept = shape_links(shapes).filter(
        |link: (ResourceV, ResourceV)| meets_a_triple(shapes, data, link.0),
    );
    assert(only_from(references(shapes), met) =~= kept) by {
        assert forall|l: (ResourceV, ResourceV)|
            only_from(references(shapes), met).contains(l) == kept.contains(l) by {
            assert(met.contains(l.0) <==> meets_a_triple(shapes, data, l.0));
        }
    }
    endless_links_are_walked(kept);
    assert(some_fact(shapes, Rule::Swallowing, anywhere()) <==> exists|f: FactV| #[trigger]
        shapes.contains(f) && swallowing_predicates().contains(f.predicate)) by {
        if exists|f: FactV| #[trigger]
            shapes.contains(f) && swallowing_predicates().contains(f.predicate) {
            let f = choose|f: FactV| #[trigger]
                shapes.contains(f) && swallowing_predicates().contains(f.predicate);
            assert(picks(f, Rule::Swallowing, anywhere()));
        }
        if some_fact(shapes, Rule::Swallowing, anywhere()) {
            let f = choose|f: FactV| #[trigger]
                shapes.contains(f) && picks(f, Rule::Swallowing, anywhere());
            assert(swallowing_predicates().contains(f.predicate));
        }
    }
    let fails = some_fact(shapes, Rule::Failing, at(met));
    let unread = some_fact(data, Rule::Unread, anywhere()) && some_fact(shapes, Rule::Any, at(met));
    assert(fails || unread <==> exists|f: FactV| #[trigger]
        shapes.contains(f) && meets_a_triple(shapes, data, f.subject) && (
        failing_predicates().contains(f.predicate) || any(data, is_unread()))) by {
        if fails {
            let f = choose|f: FactV| #[trigger]
                shapes.contains(f) && picks(f, Rule::Failing, at(met));
            assert(met.contains(f.subject));
            assert(failing_predicates().contains(f.predicate));
        }
        if unread {
            let f = choose|f: FactV| #[trigger]
                shapes.contains(f) && picks(f, Rule::Any, at(met));
            assert(met.contains(f.subject));
        }
        if exists|f: FactV| #[trigger]
            shapes.contains(f) && meets_a_triple(shapes, data, f.subject) && (
            failing_predicates().contains(f.predicate) || any(data, is_unread())) {
            let f = choose|f: FactV| #[trigger]
                shapes.contains(f) && meets_a_triple(shapes, data, f.subject) && (
                failing_predicates().contains(f.predicate) || any(data, is_unread()));
            assert(met.contains(f.subject));
            assert(picks(f, Rule::Any, at(met)));
            if failing_predicates().contains(f.predicate) {
                assert(picks(f, Rule::Failing, at(met)));
            }
        }
    }
}

/// Data is refused against shapes for one of five reasons, and is not refused where none of them
/// holds.
pub proof fn data_is_refused_for_a_reason(shapes: Set<FactV>, data: Set<FactV>)
    ensures
        run_fault(shapes, data) matches Some(why) ==> is_unfit(shapes, data, why),
        run_fault(shapes, data) is None <==> !inverts_a_path(shapes, data) && !loses_a_place(
            shapes,
            data,
        ) && !has_a_misfit(shapes, data) && !nests_without_end(shapes, data) && !shows_a_triple(
            shapes,
            data,
        ),
{
    inverses_are_told(shapes, data);
    queries_are_told(shapes, data);
    misfits_are_told(shapes, data);
    endless_nesting_is_told(shapes, data);
    comparisons_are_told(shapes, data);
    second_meetings_are_told(shapes, data);
}

/// Whether property shapes that refer to one another by `sh:property` or `sh:reifierShape` come to
/// an end, in use or not.
pub open spec fn nesting_ends(shapes: Set<FactV>) -> bool {
    !unending(
        links_by(shapes, nesting_predicates()).filter(
            |link: (ResourceV, ResourceV)| states(shapes, link.0, sh_path()),
        ),
    )
}

/// A refusal is not wider than its reason: shapes without `sh:disjoint`, `sh:sparql`, inverses of
/// paths and nested property shapes that lead to themselves are held against all data without a
/// quoted triple.
pub proof fn plain_graphs_are_handed_over(shapes: Set<FactV>, data: Set<FactV>)
    requires
        can_read(shapes),
        !is_said(shapes, "http://www.w3.org/ns/shacl#disjoint"@),
        !is_said(shapes, "http://www.w3.org/ns/shacl#sparql"@),
        forall|f: FactV| #[trigger]
            shapes.contains(f) && f.predicate == "http://www.w3.org/ns/shacl#inversePath"@
                ==> !is_blank(f.object),
        forall|f: FactV| #[trigger] data.contains(f) ==> !(f.object is Some && f.object->0 is Triple),
        nesting_ends(shapes),
    ensures
        run_fault(shapes, data) is None,
        can_run(shapes, data),
{
    data_is_refused_for_a_reason(shapes, data);
    crate::refusals::shapes_are_refused_for_a_reason(shapes);
    if has_a_misfit(shapes, data) {
        let x = choose|x: ResourceV| #[trigger] holds_a_misfit(shapes, data, x);
        let f = choose|f: FactV| #[trigger]
            shapes.contains(f) && f.subject == x && f.predicate
                == "http://www.w3.org/ns/shacl#disjoint"@;
        assert(is_said(shapes, "http://www.w3.org/ns/shacl#disjoint"@));
    }
    if loses_a_place(shapes, data) {
        let f = choose|f: FactV| #[trigger]
            shapes.contains(f) && f.predicate == "http://www.w3.org/ns/shacl#select"@ && is_query(
                shapes,
                data,
                f.subject,
            );
        let g = choose|g: FactV| #[trigger]
            shapes.contains(g) && g.predicate == "http://www.w3.org/ns/shacl#sparql"@;
        assert(is_said(shapes, "http://www.w3.org/ns/shacl#sparql"@));
    }
    if unending(nesting_links(shapes, data)) {
        let all = links_by(shapes, nesting_predicates()).filter(
            |link: (ResourceV, ResourceV)| states(shapes, link.0, sh_path()),
        );
        let walk = choose|walk: spec_fn(nat) -> ResourceV| #[trigger]
            crate::refusals::walks_along(walk, nesting_links(shapes, data));
        assert forall|n: nat| #[trigger] crate::refusals::takes(walk, all, n) by {
            assert(crate::refusals::takes(walk, nesting_links(shapes, data), n));
        }
        assert(crate::refusals::walks_along(walk, all));
    }
    assert(!any(data, is_triple()));
    assert forall|p: Seq<char>| !#[trigger] said_with(data, is_triple(), p) by {}
    no_triple_is_met(shapes, data);
    if meets_a_triple_twice(shapes, data) {
        let kept = shape_links(shapes).filter(
            |link: (ResourceV, ResourceV)| meets_a_triple(shapes, data, link.0),
        );
        if unending(kept) {
            let walk = choose|walk: spec_fn(nat) -> ResourceV| #[trigger]
                crate::refusals::walks_along(walk, kept);
            assert(crate::refusals::takes(walk, kept, 0));
        }
    }
}

proof fn no_triple_is_met(shapes: Set<FactV>, data: Set<FactV>)
    requires
        !misplaces_a_triple(shapes),
        !any(data, is_triple()),
    ensures
        forall|x: ResourceV| !#[trigger] meets_a_triple(shapes, data, x),
{
    let heads = first_met(shapes, data, is_triple(), is_triple_target());
    assert forall|p: Seq<char>| !#[trigger] said_with(data, is_triple(), p) by {}
    assert forall|x: ResourceV| !heads.contains(x) by {
        if may_target(shapes, data, is_triple(), is_triple_target(), x) {
            let f = choose|f: FactV| #[trigger]
                shapes.contains(f) && f.subject == x && is_triple_target()(f);
            assert(term_predicates().contains(f.predicate));
        }
        assert forall|y: ResourceV| !#[trigger] may_value(shapes, data, is_triple(), y) by {}
    }
    assert forall|x: ResourceV| !#[trigger] meets_a_triple(shapes, data, x) by {
        if meets_a_triple(shapes, data, x) {
            let chain = choose|chain: Seq<ResourceV>| #[trigger]
                crate::refusals::chains(chain, heads, shape_links(shapes), x);
            assert(heads.contains(chain[0]));
        }
    }
}

/// A shape that is in use nowhere makes no refusal: where no shape has a target in the data, all
/// data is taken.
pub proof fn idle_shapes_refuse_nothing(shapes: Set<FactV>, data: Set<FactV>)
    requires
        can_read(shapes),
        forall|x: ResourceV| !#[trigger] has_target(shapes, data, x),
    ensures
        forall|x: ResourceV| !#[trigger] in_use(shapes, data, x),
        !inverts_a_path(shapes, data),
        !loses_a_place(shapes, data),
        !has_a_misfit(shapes, data),
        !nests_without_end(shapes, data),
{
    assert forall|x: ResourceV| !#[trigger] in_use(shapes, data, x) by {
        if in_use(shapes, data, x) {
            let chain = choose|chain: Seq<ResourceV>| #[trigger]
                crate::refusals::chains(
                    chain,
                    live_targets(shapes, data),
                    shape_links(shapes),
                    x,
                );
            assert(has_target(shapes, data, chain[0]));
        }
    }
    let heads = path_heads(shapes, all_in_use(shapes, data));
    assert forall|x: ResourceV| !#[trigger] heads.contains(x) by {}
    if inverts_a_path(shapes, data) {
        let f = choose|f: FactV| #[trigger]
            shapes.contains(f) && leads(heads, path_links(shapes), f.subject);
        let chain = choose|chain: Seq<ResourceV>| #[trigger]
            crate::refusals::chains(chain, heads, path_links(shapes), f.subject);
        assert(heads.contains(chain[0]));
    }
    if nests_without_end(shapes, data) {
        let links = nesting_links(shapes, data);
        let walk = choose|walk: spec_fn(nat) -> ResourceV| #[trigger]
            crate::refusals::walks_along(walk, links);
        assert(crate::refusals::takes(walk, links, 0));
        assert(in_use(shapes, data, walk(0)));
    }
}

} // verus!
