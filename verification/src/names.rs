//! How blank nodes come to their names: by the text of the graph that they stand in, and by their
//! labels.

use vstd::prelude::*;

#[allow(unused_imports)]
use crate::{
    canonical::line,
    document::{bytes_spelled, first_of_joined, labels_are_spelled, lines_are_spelled, term_text},
    entries::some_order,
    error::ErrorV,
    graph::triple_parts,
    json::{joined, quoted},
    meaning::{nodes_are_shown, shows, text_le, texts_are_ordered},
    order::{at_most, lists, ranked, ranked_is_the_sorting},
    rdf::{iri_fault, node_term, resource_term, NodeV, ResourceV},
    skolem::{
        graph_text, graph_text_of_listing, skolem_node, skolem_outcome, skolem_resource,
        triple_line,
    },
    term::TermV,
};

verus! {

/// The name of a blank node under a scheme.
pub open spec fn name_under(scheme: Seq<char>, label: Seq<char>) -> Seq<char> {
    scheme + bytes_spelled(vstd::utf8::encode_utf8(label))
}

/// Whether a name can be used: it is an IRI, and is not written as a blank node is.
pub open spec fn is_usable(name: Seq<char>) -> bool {
    iri_fault(name) is None && !(name.len() >= 2 && name[0] == '_' && name[1] == ':')
}

/// Whether an error says why a name cannot be used.
pub open spec fn name_fails(e: ErrorV, name: Seq<char>) -> bool {
    if name.len() >= 2 && name[0] == '_' && name[1] == ':' {
        e == ErrorV::Endpoint(
            "urn:shacl:validate: skolem IRI `"@ + name + "` did not parse as an IRI"@,
        )
    } else {
        iri_fault(name) is Some && e == ErrorV::Endpoint(
            "urn:shacl:validate: bad skolem IRI `"@ + name + "`: "@ + iri_fault(name)->0,
        )
    }
}

/// Whether `r` may come of naming a label: the name that its bytes spell under the scheme, where it
/// can be used, or why it cannot.
pub open spec fn label_comes_to(
    scheme: Seq<char>,
    label: Seq<char>,
    r: Result<NodeV, ErrorV>,
) -> bool {
    let name = name_under(scheme, label);
    match r {
        Ok(node) => node == NodeV::Iri(name) && is_usable(name),
        Err(e) => name_fails(e, name),
    }
}

/// A label is given the name that its bytes spell under the scheme, where it can be used.
pub proof fn labels_are_named(scheme: Seq<char>, label: Seq<char>)
    ensures
        label_comes_to(scheme, label, skolem_outcome(scheme, label)),
{
    labels_are_spelled(label);
    reveal_strlit("_:");
    let name = name_under(scheme, label);
    if name.len() >= 2 {
        let start = name.subrange(0, 2);
        assert(start[0] == name[0] && start[1] == name[1]);
        assert("_:"@ == start <==> start[0] == '_' && start[1] == ':') by {
            if start[0] == '_' && start[1] == ':' {
                assert("_:"@ =~= start);
            }
        }
    }
}

/// Whether a label is that of a blank node somewhere in a node.
pub open spec fn holds_label(node: NodeV, label: Seq<char>) -> bool
    decreases node,
{
    match node {
        NodeV::Blank(own) => own == label,
        NodeV::Triple { subject, predicate, object } => subject == ResourceV::Blank(label)
            || holds_label(*object, label),
        _ => false,
    }
}

/// Whether a node is another with the blank nodes in it named, at whatever depth, and nothing else
/// changed.
pub open spec fn is_named(named: NodeV, node: NodeV, scheme: Seq<char>) -> bool
    decreases node,
{
    match node {
        NodeV::Blank(label) => named == NodeV::Iri(name_under(scheme, label)),
        NodeV::Triple { subject, predicate, object } => {
            &&& named is Triple
            &&& named->subject == (match subject {
                ResourceV::Iri(iri) => ResourceV::Iri(iri),
                ResourceV::Blank(label) => ResourceV::Iri(name_under(scheme, label)),
            })
            &&& named->predicate == predicate
            &&& is_named(*named->object, *object, scheme)
        },
        _ => named == node,
    }
}

/// Whether `r` may come of naming the blank nodes in a node: the node with all of them named, where
/// all their names can be used, or why one cannot.
pub open spec fn node_comes_to(
    node: NodeV,
    scheme: Seq<char>,
    r: Result<NodeV, ErrorV>,
) -> bool {
    match r {
        Ok(named) => is_named(named, node, scheme) && forall|label: Seq<char>| #[trigger]
            holds_label(node, label) ==> is_usable(name_under(scheme, label)),
        Err(e) => exists|label: Seq<char>| #[trigger]
            holds_label(node, label) && name_fails(e, name_under(scheme, label)),
    }
}

/// Every blank node in a node is named where all their names can be used, and the error is that of
/// one whose name cannot.
pub proof fn blank_nodes_are_named(node: NodeV, scheme: Seq<char>)
    ensures
        node_comes_to(node, scheme, skolem_node(node, scheme)),
    decreases node,
{
    match node {
        NodeV::Blank(label) => {
            labels_are_named(scheme, label);
            assert(holds_label(node, label));
        },
        NodeV::Triple { subject, predicate, object } => {
            blank_nodes_are_named(*object, scheme);
            if let ResourceV::Blank(label) = subject {
                labels_are_named(scheme, label);
                labels_are_spelled(label);
                assert(holds_label(node, label));
            }
            if skolem_resource(subject, scheme) is Ok && skolem_node(*object, scheme) is Err {
                let e = skolem_node(*object, scheme)->Err_0;
                let label = choose|label: Seq<char>| #[trigger]
                    holds_label(*object, label) && name_fails(e, name_under(scheme, label));
                assert(holds_label(node, label));
            }
            if skolem_node(node, scheme) is Ok {
                assert forall|label: Seq<char>| #[trigger]
                    holds_label(node, label) implies is_usable(name_under(scheme, label)) by {
                    if subject != ResourceV::Blank(label) {
                        assert(holds_label(*object, label));
                    }
                }
            }
        },
        _ => {},
    }
}

/// Whether a text is the line of a triple: a list of its subject, its predicate and its object.
pub open spec fn is_line_of(text: Seq<char>, triple: oxrdf::Triple) -> bool {
    let parts = triple_parts(triple);
    exists|object: TermV| #[trigger]
        shows(object, parts.2->0) && text == seq!['['] + term_text(
            match parts.0 {
                ResourceV::Iri(iri) => TermV::Uri(iri),
                ResourceV::Blank(label) => TermV::Bnode(label),
            },
            None,
        ) + seq![','] + quoted(parts.1) + seq![','] + term_text(object, None) + seq![']']
}

/// Whether a text is a list of a node, a text and a node.
pub open spec fn lists_parts(
    text: Seq<char>,
    subject: NodeV,
    predicate: Seq<char>,
    object: NodeV,
) -> bool {
    exists|s: TermV, o: TermV| #[trigger]
        shows(s, subject) && #[trigger] shows(o, object) && text == seq!['['] + term_text(s, None)
            + seq![','] + quoted(predicate) + seq![','] + term_text(o, None) + seq![']']
}

/// The line of three parts lists them.
pub proof fn parts_are_listed(subject: NodeV, predicate: Seq<char>, object: NodeV)
    ensures
        lists_parts(
            line(node_term(subject), predicate, node_term(object)),
            subject,
            predicate,
            object,
        ),
{
    nodes_are_shown(subject);
    nodes_are_shown(object);
    lines_are_spelled(node_term(subject), predicate, node_term(object));
}

/// Lines, one under the other.
pub open spec fn one_by_line(lines: Seq<Seq<char>>) -> Seq<char>
    decreases lines.len(),
{
    if lines.len() == 0 {
        Seq::empty()
    } else if lines.len() == 1 {
        lines[0]
    } else {
        lines[0] + seq!['\n'] + one_by_line(lines.drop_first())
    }
}

/// Whether lines are those of triples, one each, from the first to the last in the order of texts.
pub open spec fn are_lines_of(lines: Seq<Seq<char>>, triples: Seq<oxrdf::Triple>) -> bool {
    &&& lines.len() == triples.len()
    &&& forall|i: int| 0 <= i < lines.len() ==> is_line_of(#[trigger] lines[i], triples[i])
    &&& forall|i: int, j: int|
        0 <= i < j < lines.len() ==> text_le(#[trigger] lines[i], #[trigger] lines[j])
}

proof fn lines_are_joined(lines: Seq<Seq<char>>)
    ensures
        joined(lines, seq!['\n']) == one_by_line(lines),
    decreases lines.len(),
{
    if lines.len() > 1 {
        lines_are_joined(lines.drop_first());
        first_of_joined(lines, seq!['\n']);
    }
}

proof fn triples_are_lines(triple: oxrdf::Triple)
    ensures
        is_line_of(triple_line(triple), triple),
{
    let parts = triple_parts(triple);
    nodes_are_shown(parts.2->0);
    lines_are_spelled(resource_term(parts.0), parts.1, node_term(parts.2->0));
}

/// The text that a graph is addressed by holds the line of each of its triples once, in the order
/// of texts, one under the other.
pub proof fn graph_texts_are_told(listing: Seq<oxrdf::Triple>, triples: Set<oxrdf::Triple>)
    requires
        lists(listing, triples),
    ensures
        exists|ordered: Seq<oxrdf::Triple>, lines: Seq<Seq<char>>|
            ordered.to_multiset() == listing.to_multiset() && #[trigger] are_lines_of(
                lines,
                ordered,
            ) && graph_text(triples) == one_by_line(lines),
{
    let f = |t: oxrdf::Triple| triple_line(t);
    graph_text_of_listing(listing, triples);
    let texts = listing.map_values(f);
    let lines = ranked::<String>(texts);
    ranked_is_the_sorting::<String>(texts, texts);
    lines_are_joined(lines);
    let ordered = some_order(lines, listing, f);
    assert forall|i: int| 0 <= i < lines.len() implies is_line_of(
        #[trigger] lines[i],
        ordered[i],
    ) by {
        triples_are_lines(ordered[i]);
        assert(lines[i] == ordered.map_values(f)[i]);
    }
    let leq = at_most::<String>();
    assert forall|i: int, j: int| 0 <= i < j < lines.len() implies text_le(
        #[trigger] lines[i],
        #[trigger] lines[j],
    ) by {
        assert(leq(lines[i], lines[j]));
        texts_are_ordered(lines[i], lines[j]);
    }
    assert(are_lines_of(lines, ordered));
}

} // verus!
