//! Names for the blank nodes of a report graph.
//!
//! Every blank node of a report graph becomes
//! `urn:ikigai:shacl:report:<content id of the report graph>:<blank-node label>`. The content
//! id makes the name a function of the graph, so that one graph always has the same names and
//! graphs with different ids never share one. The label is unique within one graph only, which
//! is the scope that the content id supplies. The cost is that a graph which differs anywhere
//! has other names everywhere: nodes are aligned across reports by what is said of them.
//!
//! Labels are part of the graph. A blank node that a text leaves without a label gets a new one at
//! each reading, so that a report which holds such a node, as the source shape of a result for
//! instance, has other names when the same texts are read and validated again.

use ikigai_core::ContentId;
use rudof_rdf::rdf_impl::OxigraphInMemory;
use vstd::prelude::*;

use crate::error::{failure, refusal, Error};
use crate::graph::{add_triple, copy_prefixes, empty_graph, row_of, simple, triples_of};
use crate::json::{join, quote, write_array, write_term};
use crate::label::encode_label;
use crate::order::sort;
use crate::rdf::{is_quoted, node_of, parse_object, subject_object, term, Node, Resource};
use crate::text::begins_with;
#[allow(unused_imports)]
use crate::{
    answers::{graphs_are_named, naming_comes_to},
    canonical::{canonical_text, line},
    error::{failure_view, outcome, ErrorV},
    graph::{graph_prefixes, graph_triples, stored_triple, triple_parts},
    json::{quoted, term_json},
    label::{encoded_bytes, encoded_label, is_label_char},
    names::{
        blank_nodes_are_named, label_comes_to, labels_are_named, lists_parts, node_comes_to,
        parts_are_listed,
    },
    order::{lists, views},
    rdf::{iri_fault, is_hex, is_urn_text, node_term, resource_term, NodeV, ResourceV},
};

verus! {

/// The prefix every blank node of a report graph is named under. A consumer can recognize a
/// node that was minted here by this prefix, and nothing else in a report carries it.
pub const REPORT_SCHEME: &'static str = "urn:ikigai:shacl:report:";

/// The text of the content address of some bytes.
pub uninterp spec fn content_address(bytes: Seq<u8>) -> Seq<char>;

/// `b3:` and sixty-four digits in base sixteen.
pub open spec fn is_address(s: Seq<char>) -> bool {
    &&& s.len() == 67
    &&& s[0] == 'b' && s[1] == '3' && s[2] == ':'
    &&& forall|i: int| 3 <= i < 67 ==> is_hex(#[trigger] s[i])
}

/// `ContentId::of`, as text: a function of the bytes alone, `b3:` and the digits of their
/// digest.
#[verifier::external_body]
fn content_id(bytes: &[u8]) -> (r: String)
    ensures
        r@ == content_address(bytes@),
        is_address(r@),
{
    ContentId::of(bytes).to_string()
}

/// What minting the name of a blank node comes to.
pub open spec fn skolem_outcome(scheme: Seq<char>, label: Seq<char>) -> Result<NodeV, ErrorV> {
    let iri = scheme + encoded_label(label);
    if "_:"@.is_prefix_of(iri) {
        Err(
            failure_view(
                "urn:shacl:validate: skolem IRI `"@ + iri,
                "` did not parse as an IRI"@,
            ),
        )
    } else {
        match iri_fault(iri) {
            Some(e) => Err(
                failure_view("urn:shacl:validate: bad skolem IRI `"@ + iri + "`: "@, e),
            ),
            None => Ok(NodeV::Iri(iri)),
        }
    }
}

/// A scheme that every name minted under is an IRI: `urn:` and a text that a URN may hold.
pub open spec fn is_urn_scheme(scheme: Seq<char>) -> bool {
    "urn:"@.is_prefix_of(scheme) && is_urn_text(scheme.skip(4))
}

/// A text that a URN may hold, before another.
proof fn urn_texts_add(a: Seq<char>, b: Seq<char>)
    requires
        is_urn_text(a),
        is_urn_text(b),
    ensures
        is_urn_text(a + b),
    decreases a.len(),
{
    if a.len() == 0 {
        assert(a + b =~= b);
    } else if a[0] == '%' {
        urn_texts_add(a.skip(3), b);
        assert((a + b).skip(3) =~= a.skip(3) + b);
    } else {
        urn_texts_add(a.drop_first(), b);
        assert((a + b).drop_first() =~= a.drop_first() + b);
    }
}

/// An encoded label is a text that a URN may hold.
proof fn encoded_bytes_are_urn_text(bytes: Seq<u8>)
    ensures
        is_urn_text(encoded_bytes(bytes)),
    decreases bytes.len(),
{
    if bytes.len() > 0 {
        encoded_bytes_are_urn_text(bytes.drop_last());
        encoded_byte_is_urn_text(bytes.last());
        urn_texts_add(encoded_bytes(bytes.drop_last()), crate::label::encoded_byte(bytes.last()));
    }
}

proof fn encoded_byte_is_urn_text(b: u8)
    ensures
        is_urn_text(crate::label::encoded_byte(b)),
{
    let e = crate::label::encoded_byte(b);
    assert(0 <= b as int / 16 < 16 && 0 <= b as int % 16 < 16);
    if crate::label::is_safe(b) {
        assert(e.drop_first() =~= Seq::<char>::empty());
        assert(is_urn_text(e.drop_first()));
    } else {
        assert(e.skip(3) =~= Seq::<char>::empty());
        assert(is_urn_text(e.skip(3)));
        assert(is_hex(e[1]) && is_hex(e[2]));
    }
}

/// Characters that a URN may hold as they are make a text that it may hold.
proof fn plain_is_urn_text(s: Seq<char>)
    requires
        forall|i: int|
            0 <= i < s.len() ==> (#[trigger] s[i]) != '%' && (is_label_char(s[i]) || s[i] == ':'),
    ensures
        is_urn_text(s),
    decreases s.len(),
{
    if s.len() > 0 {
        assert(s[0] != '%');
        plain_is_urn_text(s.drop_first());
    }
}

/// Two texts, with a third between them.
fn between(before: &str, middle: &str, after: &str) -> (r: String)
    ensures
        r@ == before@ + middle@ + after@,
{
    let mut out = String::new();
    out.append(before);
    out.append(middle);
    out.append(after);
    assert(out@ =~= before@ + middle@ + after@);
    out
}

/// The name of a blank node, parsed and not merely put together, so that a label that was not
/// encoded is an error rather than a malformed graph. Under a URN scheme there is always a
/// name.
pub fn skolem_iri(scheme: &str, label: &str) -> (r: Result<Node, Error>)
    requires
        scheme@.len() > 0 ==> scheme@[0] != '"',
    ensures
        outcome(r) == skolem_outcome(scheme@, label@),
        is_urn_scheme(scheme@) ==> r is Ok,
        label_comes_to(scheme@, label@, outcome(r)),
{
    proof {
        labels_are_named(scheme@, label@);
    }
    let encoded = encode_label(label);
    let mut iri = String::new();
    iri.append(scheme);
    iri.append(encoded.as_str());
    proof {
        reveal_strlit("urn:");
        reveal_strlit("_:");
        assert(iri@ =~= scheme@ + encoded_label(label@));
        crate::label::encoded_label_alphabet(label@);
        if scheme@.len() == 0 && iri@.len() > 0 {
            assert(is_label_char(encoded_label(label@)[0]));
        }
        if is_urn_scheme(scheme@) {
            encoded_bytes_are_urn_text(vstd::utf8::encode_utf8(label@));
            urn_texts_add(scheme@.skip(4), encoded_label(label@));
            assert(iri@.skip(4) =~= scheme@.skip(4) + encoded_label(label@));
            assert(iri@.subrange(0, 4) =~= scheme@.subrange(0, 4));
            assert("urn:"@.is_prefix_of(iri@));
            assert(iri@.subrange(0, 4)[0] == 'u');
            if "_:"@.is_prefix_of(iri@) {
                assert(iri@.subrange(0, 2)[0] == '_');
            }
        }
    }
    match parse_object(iri.as_str()) {
        Ok(object) => match node_of(&object) {
            Node::Iri(text) => Ok(Node::Iri(text)),
            _ => {
                let start = between("urn:shacl:validate: skolem IRI `", iri.as_str(), "");
                assert(start@ =~= "urn:shacl:validate: skolem IRI `"@ + iri@) by {
                    reveal_strlit("");
                }
                Err(failure(start.as_str(), "` did not parse as an IRI"))
            },
        },
        Err(e) => {
            let start = between("urn:shacl:validate: bad skolem IRI `", iri.as_str(), "`: ");
            Err(failure(start.as_str(), e.as_str()))
        },
    }
}

/// What giving the blank nodes of a resource their names comes to.
pub open spec fn skolem_resource(resource: ResourceV, scheme: Seq<char>) -> Result<
    ResourceV,
    ErrorV,
> {
    match resource {
        ResourceV::Iri(iri) => Ok(ResourceV::Iri(iri)),
        ResourceV::Blank(label) => match skolem_outcome(scheme, label) {
            Ok(_) => Ok(ResourceV::Iri(scheme + encoded_label(label))),
            Err(e) => Err(e),
        },
    }
}

/// What giving every blank node in a node its name comes to. The subject of a quoted triple
/// goes first.
pub open spec fn skolem_node(node: NodeV, scheme: Seq<char>) -> Result<NodeV, ErrorV>
    decreases node,
{
    match node {
        NodeV::Blank(label) => skolem_outcome(scheme, label),
        NodeV::Triple { subject, predicate, object } => match skolem_resource(subject, scheme) {
            Err(e) => Err(e),
            Ok(subject) => match skolem_node(*object, scheme) {
                Err(e) => Err(e),
                Ok(object) => Ok(NodeV::Triple { subject, predicate, object: Box::new(object) }),
            },
        },
        _ => Ok(node),
    }
}

/// Gives a blank subject its name.
fn skolemize_resource(resource: Resource, scheme: &str) -> (r: Result<Resource, Error>)
    requires
        resource@ is Blank && scheme@.len() > 0 ==> scheme@[0] != '"',
    ensures
        outcome(r) == skolem_resource(resource@, scheme@),
        is_urn_scheme(scheme@) ==> r is Ok,
{
    match resource {
        Resource::Iri(iri) => Ok(Resource::Iri(iri)),
        Resource::Blank(label) => match skolem_iri(scheme, label.as_str()) {
            Ok(Node::Iri(iri)) => Ok(Resource::Iri(iri)),
            // A name is always an IRI.
            Ok(_) => {
                assert(false);
                Ok(Resource::Blank(label))
            },
            Err(e) => Err(e),
        },
    }
}

/// A resource with its name in the place of a blank node.
pub open spec fn named_resource(resource: ResourceV, scheme: Seq<char>) -> ResourceV {
    match resource {
        ResourceV::Iri(iri) => ResourceV::Iri(iri),
        ResourceV::Blank(label) => ResourceV::Iri(scheme + encoded_label(label)),
    }
}

/// A node with names in the place of blank nodes.
pub open spec fn named_node(node: NodeV, scheme: Seq<char>) -> NodeV
    decreases node,
{
    match node {
        NodeV::Blank(label) => NodeV::Iri(scheme + encoded_label(label)),
        NodeV::Triple { subject, predicate, object } => NodeV::Triple {
            subject: named_resource(subject, scheme),
            predicate,
            object: Box::new(named_node(*object, scheme)),
        },
        _ => node,
    }
}

/// Where every blank node has a name, it is replaced by that name and nothing else changes.
pub proof fn skolem_node_names(node: NodeV, scheme: Seq<char>)
    requires
        skolem_node(node, scheme) is Ok,
    ensures
        skolem_node(node, scheme) == Ok::<NodeV, ErrorV>(named_node(node, scheme)),
    decreases node,
{
    if let NodeV::Triple { subject, predicate, object } = node {
        skolem_node_names(*object, scheme);
    }
}

/// Whether a blank node stands in a node, at any depth.
pub open spec fn blank_inside(node: NodeV) -> bool
    decreases node,
{
    match node {
        NodeV::Blank(_) => true,
        NodeV::Triple { subject, predicate, object } => subject is Blank || blank_inside(*object),
        _ => false,
    }
}

/// Naming leaves no blank node at any depth, and naming again changes nothing, under whatever
/// scheme.
pub proof fn naming_is_done_once(node: NodeV, scheme: Seq<char>, again: Seq<char>)
    ensures
        !blank_inside(named_node(node, scheme)),
        named_node(named_node(node, scheme), again) == named_node(node, scheme),
        skolem_node(named_node(node, scheme), again) == Ok::<NodeV, ErrorV>(
            named_node(node, scheme),
        ),
    decreases node,
{
    if let NodeV::Triple { subject, predicate, object } = node {
        naming_is_done_once(*object, scheme, again);
    }
}

/// Naming changes nothing but blank nodes: an IRI and a literal stay, and so does any node
/// without a blank node inside; a quoted triple stays one, with its predicate, and its parts are
/// named.
pub proof fn naming_keeps_the_rest(node: NodeV, scheme: Seq<char>)
    ensures
        !blank_inside(node) ==> named_node(node, scheme) == node,
        !blank_inside(node) ==> skolem_node(node, scheme) == Ok::<NodeV, ErrorV>(node),
        node is Iri || node is Literal ==> named_node(node, scheme) == node,
        node matches NodeV::Triple { subject, predicate, object } ==> named_node(node, scheme)
            == (NodeV::Triple {
            subject: named_resource(subject, scheme),
            predicate,
            object: Box::new(named_node(*object, scheme)),
        }),
    decreases node,
{
    if let NodeV::Triple { subject, predicate, object } = node {
        naming_keeps_the_rest(*object, scheme);
    }
}

/// Replaces every blank node in `object` with its name under `scheme`. What comes back holds no
/// blank node, and an object without one comes back as it is, under whatever scheme.
pub fn skolemize_object(object: Node, scheme: &str) -> (r: Result<Node, Error>)
    requires
        blank_inside(object@) && scheme@.len() > 0 ==> scheme@[0] != '"',
    ensures
        outcome(r) == skolem_node(object@, scheme@),
        is_urn_scheme(scheme@) ==> r is Ok,
        r matches Ok(named) ==> named@ == named_node(object@, scheme@) && !blank_inside(named@),
        !blank_inside(object@) ==> outcome(r) == Ok::<NodeV, ErrorV>(object@),
        node_comes_to(object@, scheme@, outcome(r)),
    decreases object,
{
    proof {
        blank_nodes_are_named(object@, scheme@);
        naming_keeps_the_rest(object@, scheme@);
        naming_is_done_once(object@, scheme@, scheme@);
        if skolem_node(object@, scheme@) is Ok {
            skolem_node_names(object@, scheme@);
        }
    }
    match object {
        Node::Blank(label) => skolem_iri(scheme, label.as_str()),
        Node::Triple { subject, predicate, object } => {
            let subject = match skolemize_resource(subject, scheme) {
                Ok(subject) => subject,
                Err(e) => return Err(e),
            };
            match skolemize_object(*object, scheme) {
                Ok(object) => Ok(Node::Triple { subject, predicate, object: Box::new(object) }),
                Err(e) => Err(e),
            }
        },
        other => Ok(other),
    }
}

/// One triple as a canonical line, safe to join: the JSON of its three terms. It is used only
/// to content-address a graph.
pub fn canonical_line(subject: &Node, predicate: &str, object: &Node) -> (r: String)
    ensures
        r@ == line(node_term(subject@), predicate@, node_term(object@)),
        lists_parts(r@, subject@, predicate@, object@),
{
    proof {
        parts_are_listed(subject@, predicate@, object@);
    }
    let mut items: Vec<String> = Vec::new();
    items.push(write_term(&term(subject), None));
    items.push(quote(predicate));
    items.push(write_term(&term(object), None));
    assert(views(items@) =~= seq![
        term_json(node_term(subject@), None),
        quoted(predicate@),
        term_json(node_term(object@), None),
    ]);
    write_array(&items, None)
}

/// The line of a triple of the store whose object can be read.
pub open spec fn triple_line(triple: oxrdf::Triple) -> Seq<char> {
    let parts = triple_parts(triple);
    line(resource_term(parts.0), parts.1, node_term(parts.2->0))
}

/// The canonical text of a set of triples.
pub open spec fn graph_text(triples: Set<oxrdf::Triple>) -> Seq<char> {
    let listing = choose|listing: Seq<oxrdf::Triple>| lists(listing, triples);
    canonical_text(listing.map_values(|t: oxrdf::Triple| triple_line(t)))
}

/// The scheme under which the blank nodes of a graph are named: the prefix of all reports, the
/// content address of the graph, and a colon.
pub open spec fn report_scheme(triples: Set<oxrdf::Triple>) -> Seq<char> {
    REPORT_SCHEME@ + content_address(vstd::utf8::encode_utf8(graph_text(triples))) + ":"@
}

/// The canonical text does not depend on the order in which the store hands its triples out.
pub proof fn graph_text_of_listing(listing: Seq<oxrdf::Triple>, triples: Set<oxrdf::Triple>)
    requires
        lists(listing, triples),
    ensures
        graph_text(triples) == canonical_text(
            listing.map_values(|t: oxrdf::Triple| triple_line(t)),
        ),
{
    let chosen = choose|listing: Seq<oxrdf::Triple>| lists(listing, triples);
    let f = |t: oxrdf::Triple| triple_line(t);
    crate::order::listings_agree(chosen, listing, triples);
    crate::order::mapped_items_agree(chosen, listing, f);
    crate::order::ranked_forgets_order::<String>(chosen.map_values(f), listing.map_values(f));
}

/// The scheme for a graph is a URN scheme.
proof fn report_scheme_is_urn(address: Seq<char>)
    requires
        is_address(address),
    ensures
        is_urn_scheme(REPORT_SCHEME@ + address + ":"@),
        (REPORT_SCHEME@ + address + ":"@)[0] == 'u',
{
    reveal_strlit("urn:ikigai:shacl:report:");
    reveal_strlit("urn:");
    reveal_strlit(":");
    let scheme = REPORT_SCHEME@ + address + ":"@;
    assert(scheme.subrange(0, 4) =~= "urn:"@);
    let rest = scheme.skip(4);
    assert forall|i: int| 0 <= i < rest.len() implies (#[trigger] rest[i]) != '%' && (is_label_char(
        rest[i],
    ) || rest[i] == ':') by {
        if i < 20 {
            assert(rest[i] == REPORT_SCHEME@[i + 4]);
        } else if i < 87 {
            assert(rest[i] == address[i - 20]);
            if i >= 23 {
                assert(is_hex(address[i - 20]));
            }
        } else {
            assert(rest[i] == ':');
        }
    }
    plain_is_urn_text(rest);
}

/// Whether the object of every triple can be read.
pub open spec fn readable(triples: Set<oxrdf::Triple>) -> bool {
    forall|t: oxrdf::Triple| #[trigger] triples.contains(t) ==> triple_parts(t).2 is Some
}

/// Whether some triple has a quoted triple as its object.
pub open spec fn quotes(triples: Set<oxrdf::Triple>) -> bool {
    exists|t: oxrdf::Triple| #[trigger]
        triples.contains(t) && triple_parts(t).2 is Some && triple_parts(t).2->0 is Triple
}

/// A triple with names in the place of blank nodes, as the store holds it.
pub open spec fn named_triple(triple: oxrdf::Triple, scheme: Seq<char>) -> oxrdf::Triple {
    let parts = triple_parts(triple);
    stored_triple(
        named_resource(parts.0, scheme),
        parts.1,
        named_node(parts.2->0, scheme),
    )
}

/// A triple without a blank node: its subject is an IRI, and its object is neither a blank node
/// nor a quoted triple.
pub open spec fn without_blank(triple: oxrdf::Triple) -> bool {
    let parts = triple_parts(triple);
    &&& parts.0 is Iri
    &&& parts.2 matches Some(object) ==> object is Iri || object is Literal
}

/// The triples that a graph has when its blank nodes have names.
pub open spec fn named_triples(triples: Set<oxrdf::Triple>) -> Set<oxrdf::Triple> {
    triples.map(|t: oxrdf::Triple| named_triple(t, report_scheme(triples)))
}

/// Whether an IRI stands under the prefix of minted names.
pub open spec fn is_claimed(iri: Seq<char>) -> bool {
    REPORT_SCHEME@.is_prefix_of(iri)
}

/// Whether some IRI of a triple stands under the prefix of minted names.
pub open spec fn claims(triple: oxrdf::Triple) -> bool {
    let parts = triple_parts(triple);
    ||| parts.0 matches ResourceV::Iri(iri) && is_claimed(iri)
    ||| is_claimed(parts.1)
    ||| parts.2 matches Some(NodeV::Iri(iri)) && is_claimed(iri)
}

/// Whether some triple has an IRI under the prefix of minted names.
pub open spec fn some_claim(triples: Set<oxrdf::Triple>) -> bool {
    exists|t: oxrdf::Triple| #[trigger] triples.contains(t) && claims(t)
}

/// Whether a label is that of a blank node of a graph.
pub open spec fn has_blank(triples: Set<oxrdf::Triple>, label: Seq<char>) -> bool {
    exists|t: oxrdf::Triple| #[trigger]
        triples.contains(t) && (triple_parts(t).0 == ResourceV::Blank(label) || triple_parts(t).2
            == Some(NodeV::Blank(label)))
}

/// Whether an IRI was minted for a blank node of a graph.
pub open spec fn is_minted(iri: Seq<char>, triples: Set<oxrdf::Triple>) -> bool {
    exists|label: Seq<char>| #[trigger]
        has_blank(triples, label) && iri == report_scheme(triples) + encoded_label(label)
}

/// Whether every IRI of a triple under the prefix of minted names was minted for a blank node of
/// a graph.
pub open spec fn only_minted(triple: oxrdf::Triple, triples: Set<oxrdf::Triple>) -> bool {
    let parts = triple_parts(triple);
    &&& parts.0 matches ResourceV::Iri(iri) ==> is_claimed(iri) ==> is_minted(iri, triples)
    &&& !is_claimed(parts.1)
    &&& parts.2 matches Some(NodeV::Iri(iri)) ==> is_claimed(iri) ==> is_minted(iri, triples)
}

/// What naming the blank nodes of a set of triples comes to.
pub open spec fn skolem_graph(triples: Set<oxrdf::Triple>) -> Result<Set<oxrdf::Triple>, ErrorV> {
    if !readable(triples) {
        Err(
            ErrorV::Endpoint("urn:shacl:validate: report graph: an object is not an RDF term"@),
        )
    } else if quotes(triples) {
        Err(
            ErrorV::Endpoint("urn:shacl:validate: report graph: a quoted triple cannot be stored"@),
        )
    } else if some_claim(triples) {
        Err(
            ErrorV::Endpoint(
                "urn:shacl:validate: report graph: an IRI stands under the prefix of minted names"@,
            ),
        )
    } else {
        Ok(named_triples(triples))
    }
}

/// A triple of which every part was read.
struct Read {
    subject: Resource,
    predicate: String,
    object: Node,
}

/// Whether a triple was read in full.
spec fn is_read(read: Read, triple: oxrdf::Triple) -> bool {
    triple_parts(triple) == (read.subject@, read.predicate@, Some(read.object@))
}

/// Reads every triple, in the order in which they come.
fn read_all(triples: Vec<oxrdf::Triple>) -> (r: Option<Vec<Read>>)
    ensures
        match r {
            Some(reads) => reads@.len() == triples@.len() && forall|i: int|
                0 <= i < reads@.len() ==> is_read(#[trigger] reads@[i], triples@[i]),
            None => exists|i: int|
                0 <= i < triples@.len() && triple_parts(#[trigger] triples@[i]).2 is None,
        },
{
    let ghost all = triples@;
    let mut reads: Vec<Read> = Vec::new();
    for triple in it: triples
        invariant
            it.seq() == all,
            reads@.len() == it.index(),
            forall|i: int| 0 <= i < reads@.len() ==> is_read(#[trigger] reads@[i], all[i]),
    {
        let ghost at = it.index() as int;
        assert(triple == all[at]);
        let row = row_of(triple);
        let object = match row.object {
            Some(object) => node_of(&object),
            None => {
                assert(triple_parts(all[at]).2 is None);
                return None;
            },
        };
        reads.push(Read { subject: row.subject, predicate: row.predicate, object });
    }
    Some(reads)
}

/// Whether some IRI of a triple that was read stands under the prefix of minted names.
fn read_claims(read: &Read) -> (r: bool)
    ensures
        forall|t: oxrdf::Triple| is_read(*read, t) ==> r == #[trigger] claims(t),
{
    let subject = match &read.subject {
        Resource::Iri(iri) => begins_with(iri.as_str(), REPORT_SCHEME),
        Resource::Blank(_) => false,
    };
    let object = match &read.object {
        Node::Iri(iri) => begins_with(iri.as_str(), REPORT_SCHEME),
        _ => false,
    };
    subject || object || begins_with(read.predicate.as_str(), REPORT_SCHEME)
}

/// Whether some triple that was read has a quoted triple as its object, and whether some has an
/// IRI under the prefix of minted names.
fn faults(reads: &Vec<Read>, Ghost(listing): Ghost<Seq<oxrdf::Triple>>) -> (r: (bool, bool))
    requires
        listing.len() == reads@.len(),
        forall|i: int| 0 <= i < reads@.len() ==> is_read(#[trigger] reads@[i], listing[i]),
    ensures
        r.0 == exists|i: int| 0 <= i < reads@.len() && (#[trigger] reads@[i]).object@ is Triple,
        r.1 == exists|i: int| 0 <= i < listing.len() && claims(#[trigger] listing[i]),
{
    let mut quoted = false;
    let mut claimed = false;
    let mut i: usize = 0;
    while i < reads.len()
        invariant
            i <= reads@.len(),
            listing.len() == reads@.len(),
            forall|i: int| 0 <= i < reads@.len() ==> is_read(#[trigger] reads@[i], listing[i]),
            quoted == exists|k: int| 0 <= k < i && (#[trigger] reads@[k]).object@ is Triple,
            claimed == exists|k: int| 0 <= k < i && claims(#[trigger] listing[k]),
        decreases reads@.len() - i,
    {
        let here = is_quoted(&reads[i].object);
        let there = read_claims(&reads[i]);
        assert(is_read(reads@[i as int], listing[i as int]));
        assert(there == claims(listing[i as int]));
        proof {
            let ghost n = i as int;
            assert(here == (reads@[n].object@ is Triple));
        }
        quoted = quoted || here;
        claimed = claimed || there;
        i += 1;
    }
    (quoted, claimed)
}

/// The line of a triple that was read.
spec fn read_line(read: Read) -> Seq<char> {
    line(resource_term(read.subject@), read.predicate@, node_term(read.object@))
}

/// The scheme for a graph whose triples were read.
fn scheme_of(reads: &Vec<Read>) -> (r: String)
    ensures
        r@ == REPORT_SCHEME@ + content_address(
            vstd::utf8::encode_utf8(
                canonical_text(reads@.map_values(|read: Read| read_line(read))),
            ),
        ) + ":"@,
        is_urn_scheme(r@),
        r@.len() > 0,
        r@[0] == 'u',
{
    let ghost f = |read: Read| read_line(read);
    let mut lines: Vec<String> = Vec::new();
    let mut i: usize = 0;
    while i < reads.len()
        invariant
            i <= reads@.len(),
            f == (|read: Read| read_line(read)),
            views(lines@) == reads@.take(i as int).map_values(f),
        decreases reads@.len() - i,
    {
        let subject = subject_object(&reads[i].subject);
        let next = canonical_line(&subject, reads[i].predicate.as_str(), &reads[i].object);
        assert(node_term(subject@) == resource_term(reads@[i as int].subject@));
        assert(next@ == read_line(reads@[i as int]));
        let ghost before = views(lines@);
        lines.push(next);
        assert(views(lines@) =~= before.push(next@));
        assert(reads@.take(i + 1) =~= reads@.take(i as int).push(reads@[i as int]));
        assert(views(lines@) =~= reads@.take(i + 1).map_values(f));
        i += 1;
    }
    assert(reads@.take(i as int) =~= reads@);
    let sorted = sort(lines);
    let text = join(&sorted, "\n");
    proof {
        reveal_strlit("\n");
        assert("\n"@ =~= seq!['\n']);
    }
    let address = content_id(text.as_str().as_bytes());
    proof {
        report_scheme_is_urn(address@);
    }
    between(REPORT_SCHEME, address.as_str(), ":")
}

/// Gives every blank node of a report graph a stable IRI, which is what makes a report
/// diffable, unionable and open to SPARQL instead of compared by isomorphism.
///
/// The names are functions of the graph, no blank node is left, and the prefixes are those of
/// the graph. A graph with an object that cannot be read is refused, and so is one with a
/// quoted triple, which the store cannot be given, or with an IRI under [`REPORT_SCHEME`], which
/// could be taken for a name.
pub fn skolemize(graph: &OxigraphInMemory) -> (r: Result<OxigraphInMemory, Error>)
    ensures
        match r {
            Ok(out) => {
                &&& skolem_graph(graph_triples(*graph)) == Ok::<Set<oxrdf::Triple>, ErrorV>(
                    graph_triples(out),
                )
                &&& graph_prefixes(out) == graph_prefixes(*graph)
                &&& forall|t: oxrdf::Triple| #[trigger]
                    graph_triples(out).contains(t) ==> without_blank(t) && only_minted(
                        t,
                        graph_triples(*graph),
                    )
            },
            Err(e) => skolem_graph(graph_triples(*graph)) == Err::<Set<oxrdf::Triple>, ErrorV>(e@),
        },
        naming_comes_to(graph_triples(*graph), match r {
            Ok(out) => Ok(graph_triples(out)),
            Err(e) => Err(e@),
        }),
{
    proof {
        graphs_are_named(graph_triples(*graph));
    }
    let ghost held = graph_triples(*graph);
    let triples = match triples_of(graph) {
        Ok(triples) => triples,
        Err(e) => return Err(failure("urn:shacl:validate: report graph: ", e.as_str())),
    };
    let ghost listing = triples@;
    let reads = match read_all(triples) {
        Some(reads) => reads,
        None => {
            proof {
                let i = choose|i: int|
                    0 <= i < listing.len() && triple_parts(#[trigger] listing[i]).2 is None;
                assert(listing.to_set().contains(listing[i]));
                assert(!readable(held));
            }
            return Err(
                refusal("urn:shacl:validate: report graph: an object is not an RDF term"),
            );
        },
    };
    let ghost all = reads@;
    proof {
        assert forall|t: oxrdf::Triple| #[trigger] held.contains(t) implies triple_parts(
            t,
        ).2 is Some by {
            assert(listing.to_set().contains(t));
            let i = choose|i: int| 0 <= i < listing.len() && listing[i] == t;
            assert(is_read(all[i], listing[i]));
        }
        graph_text_of_listing(listing, held);
        assert(reads@.map_values(|read: Read| read_line(read)) =~= listing.map_values(
            |t: oxrdf::Triple| triple_line(t),
        )) by {
            assert forall|i: int| 0 <= i < all.len() implies read_line(#[trigger] all[i])
                == triple_line(listing[i]) by {
                assert(is_read(all[i], listing[i]));
            }
        }
    }
    let (quoted, claimed) = faults(&reads, Ghost(listing));
    if quoted {
        proof {
            let i = choose|i: int| 0 <= i < all.len() && (#[trigger] all[i]).object@ is Triple;
            assert(is_read(all[i], listing[i]));
            assert(listing.to_set().contains(listing[i]));
            assert(held.contains(listing[i]));
        }
        return Err(refusal("urn:shacl:validate: report graph: a quoted triple cannot be stored"));
    }
    assert(!quotes(held)) by {
        assert forall|t: oxrdf::Triple| #[trigger] held.contains(t) implies !(triple_parts(
            t,
        ).2->0 is Triple) by {
            assert(listing.to_set().contains(t));
            let i = choose|i: int| 0 <= i < listing.len() && listing[i] == t;
            assert(is_read(all[i], listing[i]));
        }
    }
    if claimed {
        proof {
            let i = choose|i: int| 0 <= i < listing.len() && claims(#[trigger] listing[i]);
            assert(listing.to_set().contains(listing[i]));
            assert(held.contains(listing[i]));
        }
        return Err(
            refusal(
                "urn:shacl:validate: report graph: an IRI stands under the prefix of minted names",
            ),
        );
    }
    assert(!some_claim(held)) by {
        assert forall|t: oxrdf::Triple| #[trigger] held.contains(t) implies !claims(t) by {
            assert(listing.to_set().contains(t));
            let i = choose|i: int| 0 <= i < listing.len() && listing[i] == t;
            assert(!claims(listing[i]));
        }
    }
    let scheme = scheme_of(&reads);
    assert(scheme@ == report_scheme(held));
    let ghost name = |t: oxrdf::Triple| named_triple(t, scheme@);
    let mut out = empty_graph();
    copy_prefixes(&mut out, graph);
    assert(listing.take(0).map_values(name).to_set() =~= Set::<oxrdf::Triple>::empty());
    for read in it: reads
        invariant
            held == graph_triples(*graph),
            it.seq() == all,
            all.len() == listing.len(),
            forall|i: int| 0 <= i < all.len() ==> is_read(#[trigger] all[i], listing[i]),
            readable(held),
            lists(listing, held),
            is_urn_scheme(scheme@),
            scheme@.len() > 0,
            scheme@[0] == 'u',
            name == (|t: oxrdf::Triple| named_triple(t, scheme@)),
            graph_prefixes(out) == graph_prefixes(*graph),
            graph_triples(out) == listing.take(it.index() as int).map_values(name).to_set(),
            scheme@ == report_scheme(held),
            forall|i: int| 0 <= i < all.len() ==> !((#[trigger] all[i]).object@ is Triple),
            forall|i: int| 0 <= i < listing.len() ==> !claims(#[trigger] listing[i]),
            forall|t: oxrdf::Triple| #[trigger]
                graph_triples(out).contains(t) ==> without_blank(t) && only_minted(t, held),
    {
        let ghost at = it.index() as int;
        assert(read == all[at]);
        assert(is_read(all[at], listing[at]));
        let subject = match skolemize_resource(read.subject, scheme.as_str()) {
            Ok(subject) => subject,
            Err(e) => return Err(e),
        };
        let object = match skolemize_object(read.object, scheme.as_str()) {
            Ok(object) => object,
            Err(e) => return Err(e),
        };
        proof {
            skolem_node_names(read.object@, scheme@);
        }
        let object = match simple(object) {
            Some(object) => object,
            // No object is a quoted triple.
            None => {
                assert(false);
                return Err(refusal(""));
            },
        };
        let ghost next = stored_triple(subject@, read.predicate@, object@);
        assert(next == named_triple(listing[at], scheme@));
        proof {
            let t = listing[at];
            assert(listing.to_set().contains(t));
            assert(held.contains(t));
            assert(!claims(t));
            if let ResourceV::Blank(label) = triple_parts(t).0 {
                assert(has_blank(held, label));
            }
            if let Some(NodeV::Blank(label)) = triple_parts(t).2 {
                assert(has_blank(held, label));
            }
        }
        match add_triple(&mut out, subject, read.predicate.as_str(), object) {
            Ok(_) => {},
            Err(e) => return Err(failure("urn:shacl:validate: report graph: ", e.as_str())),
        }
        proof {
            let before = listing.take(at).map_values(name);
            let after = listing.take(at + 1).map_values(name);
            assert(listing.take(at + 1) =~= listing.take(at).push(listing[at]));
            assert(after =~= before.push(next));
            assert(after.to_set() =~= before.to_set().insert(next)) by {
                assert forall|t: oxrdf::Triple| after.to_set().contains(t)
                    == before.to_set().insert(next).contains(t) by {
                    if before.contains(t) {
                        let i = choose|i: int| 0 <= i < before.len() && before[i] == t;
                        assert(after[i] == t);
                    }
                    assert(after[at] == next);
                }
            }
        }
    }
    proof {
        assert(listing.take(listing.len() as int) =~= listing);
        assert(listing.map_values(name).to_set() =~= held.map(name)) by {
            assert forall|t: oxrdf::Triple| listing.map_values(name).to_set().contains(t)
                == held.map(name).contains(t) by {
                if held.map(name).contains(t) {
                    let u = choose|u: oxrdf::Triple| held.contains(u) && t == name(u);
                    assert(listing.to_set().contains(u));
                    let i = choose|i: int| 0 <= i < listing.len() && listing[i] == u;
                    assert(listing.map_values(name)[i] == t);
                }
                if listing.map_values(name).contains(t) {
                    let i = choose|i: int|
                        0 <= i < listing.len() && listing.map_values(name)[i] == t;
                    assert(listing.to_set().contains(listing[i]));
                    assert(held.contains(listing[i]));
                }
            }
        }
    }
    Ok(out)
}

} // verus!
