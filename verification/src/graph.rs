//! Graphs of the in-memory store: what they hold, and how they are read, filled and written.

use oxrdf::Triple;
use rudof_iri::IriS;
use rudof_rdf::rdf_core::term::literal::ConcreteLiteral;
use rudof_rdf::rdf_core::term::{IriOrBlankNode, Object};
use rudof_rdf::rdf_core::{BuildRDF, NeighsRDF, RDFFormat};
use rudof_rdf::rdf_impl::OxigraphInMemory;
use vstd::prelude::*;

#[allow(unused_imports)]
use crate::{
    rdf::{object_node, NodeV, ResourceV},
    term::text_option,
};
use crate::rdf::{Node, Resource};

verus! {

/// A graph of the in-memory store: a set of triples and the prefixes that it is written with.
#[verifier::external_type_specification]
#[verifier::external_body]
pub struct ExOxigraphInMemory(OxigraphInMemory);

/// A triple as the in-memory store holds it.
#[verifier::external_type_specification]
#[verifier::external_body]
pub struct ExTriple(Triple);

/// The triples of a graph.
pub uninterp spec fn graph_triples(graph: OxigraphInMemory) -> Set<Triple>;

/// The prefixes of a graph.
pub uninterp spec fn graph_prefixes(graph: OxigraphInMemory) -> Map<Seq<char>, Seq<char>>;

/// The subject, predicate and object of a triple, as the validator's terms. The object is
/// missing where the store holds what the validator has no term for.
pub uninterp spec fn triple_parts(triple: Triple) -> (ResourceV, Seq<char>, Option<NodeV>);

/// Whether the object of a triple is a quoted triple, whether or not it can be read.
pub uninterp spec fn quotes_triple(triple: Triple) -> bool;

/// The text of the object of a triple, as it is written, where that is a literal.
pub uninterp spec fn object_text(triple: Triple) -> Option<Seq<char>>;

/// The triple that the store holds for a subject, a predicate and an object.
pub uninterp spec fn stored_triple(
    subject: ResourceV,
    predicate: Seq<char>,
    object: NodeV,
) -> Triple;

/// What a graph may come out as in Turtle, or the errors that may come instead. The order of
/// the triples differs from one run to another.
pub uninterp spec fn turtle_documents(
    triples: Set<Triple>,
    prefixes: Map<Seq<char>, Seq<char>>,
) -> Set<Result<Seq<u8>, Seq<char>>>;

/// A triple in the validator's terms.
pub struct Row {
    pub subject: Resource,
    pub predicate: String,
    pub object: Option<Object>,
    pub quoted: bool,
    pub text: Option<String>,
}

/// What a [`Row`] is.
pub open spec fn row_parts(row: Row) -> (ResourceV, Seq<char>, Option<NodeV>) {
    (
        row.subject@,
        row.predicate@,
        match row.object {
            Some(object) => Some(object_node(object)),
            None => None,
        },
    )
}

/// An object that the store can take: any node but a quoted triple.
pub enum Simple {
    Iri(String),
    Blank(String),
    Literal(ConcreteLiteral),
}

impl View for Simple {
    type V = NodeV;

    open spec fn view(&self) -> NodeV {
        match *self {
            Simple::Iri(iri) => NodeV::Iri(iri@),
            Simple::Blank(label) => NodeV::Blank(label@),
            Simple::Literal(literal) => NodeV::Literal(literal),
        }
    }
}

/// A node as the store can take it.
pub fn simple(node: Node) -> (r: Option<Simple>)
    ensures
        node@ is Triple <==> r is None,
        r matches Some(simple) ==> simple@ == node@,
{
    match node {
        Node::Iri(iri) => Some(Simple::Iri(iri)),
        Node::Blank(label) => Some(Simple::Blank(label)),
        Node::Literal(literal) => Some(Simple::Literal(literal)),
        Node::Triple { .. } => None,
    }
}

/// No prefixes at all.
pub open spec fn no_prefixes() -> Map<Seq<char>, Seq<char>> {
    Map::empty()
}

/// `OxigraphInMemory::empty`: a graph without triples or prefixes.
#[verifier::external_body]
pub(crate) fn empty_graph() -> (r: OxigraphInMemory)
    ensures
        graph_triples(r) == Set::<Triple>::empty(),
        graph_prefixes(r) == no_prefixes(),
{
    OxigraphInMemory::empty()
}

/// `OxigraphInMemory::triples`, collected: every triple of the graph once, in an order that
/// differs from one run to another. The in-memory store does not fail here.
#[verifier::external_body]
pub(crate) fn triples_of(graph: &OxigraphInMemory) -> (r: Result<Vec<Triple>, String>)
    ensures
        r is Ok,
        r->Ok_0@.no_duplicates(),
        r->Ok_0@.to_set() == graph_triples(*graph),
{
    graph.triples().map(|triples| triples.collect()).map_err(|e| e.to_string())
}

/// The components of a triple of the store, converted to the validator's terms with its own
/// conversions: the subject and the predicate always, the object where that succeeds. The object
/// is a quoted triple there if and only if it is one in the store. The text is `Literal::value` of
/// an object that is a literal.
#[verifier::external_body]
pub(crate) fn row_of(triple: Triple) -> (r: Row)
    ensures
        row_parts(r) == triple_parts(triple),
        r.quoted == quotes_triple(triple),
        text_option(r.text) == object_text(triple),
        row_parts(r).2 matches Some(object) ==> r.quoted == (object is Triple),
{
    Row {
        subject: match triple.subject.into() {
            IriOrBlankNode::Iri(iri) => Resource::Iri(iri.as_str().to_string()),
            IriOrBlankNode::BlankNode(label) => Resource::Blank(label),
        },
        predicate: triple.predicate.as_str().to_string(),
        quoted: matches!(triple.object, oxrdf::Term::Triple(_)),
        text: match &triple.object {
            oxrdf::Term::Literal(literal) => Some(literal.value().to_string()),
            _ => None,
        },
        object: Object::try_from(triple.object).ok(),
    }
}

/// `OxigraphInMemory::set_prefix_map` with the prefixes of another graph.
#[verifier::external_body]
pub(crate) fn copy_prefixes(to: &mut OxigraphInMemory, from: &OxigraphInMemory)
    ensures
        graph_prefixes(*final(to)) == graph_prefixes(*from),
        graph_triples(*final(to)) == graph_triples(*old(to)),
{
    to.set_prefix_map(from.prefixmap().clone());
}

/// A triple reads back as it was written: subject and predicate as they were, an IRI or a blank
/// node in object position too, a literal as a literal where it can be read at all.
pub open spec fn reads_back(
    triple: Triple,
    subject: ResourceV,
    predicate: Seq<char>,
    object: NodeV,
) -> bool {
    let parts = triple_parts(triple);
    &&& parts.0 == subject
    &&& parts.1 == predicate
    &&& object is Iri || object is Blank ==> parts.2 == Some(object)
    &&& object is Literal ==> parts.2 is None || parts.2->0 is Literal
}

/// `OxigraphInMemory::add_triple`: the graph holds one triple more, unless it held it before.
/// The triple that it holds is a function of what was put in, and reads back as that. The
/// in-memory store does not fail here.
#[verifier::external_body]
pub(crate) fn add_triple(
    graph: &mut OxigraphInMemory,
    subject: Resource,
    predicate: &str,
    object: Simple,
) -> (r: Result<(), String>)
    ensures
        r is Ok,
        graph_triples(*final(graph)) == graph_triples(*old(graph)).insert(
            stored_triple(subject@, predicate@, object@),
        ),
        forall|t: Triple| #[trigger]
            graph_triples(*final(graph)).contains(t) && t == stored_triple(
                subject@,
                predicate@,
                object@,
            ) ==> reads_back(t, subject@, predicate@, object@),
        graph_prefixes(*final(graph)) == graph_prefixes(*old(graph)),
{
    let subject = match subject {
        Resource::Iri(iri) => IriOrBlankNode::Iri(IriS::new_unchecked(&iri)),
        Resource::Blank(label) => IriOrBlankNode::BlankNode(label),
    };
    let object = match object {
        Simple::Iri(iri) => Object::Iri(IriS::new_unchecked(&iri)),
        Simple::Blank(label) => Object::BlankNode(label),
        Simple::Literal(literal) => Object::Literal(literal),
    };
    graph.add_triple(subject, IriS::new_unchecked(predicate), object).map_err(|e| e.to_string())
}

/// What came of writing a document.
pub open spec fn document_view(document: Result<Vec<u8>, String>) -> Result<Seq<u8>, Seq<char>> {
    match document {
        Ok(bytes) => Ok(bytes@),
        Err(e) => Err(e@),
    }
}

/// Whether every prefix stands for the namespace of SHACL.
pub open spec fn only_shacl(prefixes: Map<Seq<char>, Seq<char>>) -> bool {
    forall|prefix: Seq<char>| #[trigger]
        prefixes.contains_key(prefix) ==> prefixes[prefix] == "http://www.w3.org/ns/shacl#"@
}

/// `OxigraphInMemory::serialize` as Turtle, into memory: one of the documents that the triples
/// and prefixes may come out as, in UTF-8. It fails only where a prefix stands for what is no
/// IRI, which the namespace of SHACL is not.
#[verifier::external_body]
pub(crate) fn turtle_bytes(graph: &OxigraphInMemory) -> (r: Result<Vec<u8>, String>)
    ensures
        turtle_documents(graph_triples(*graph), graph_prefixes(*graph)).contains(document_view(r)),
        r matches Ok(bytes) ==> vstd::utf8::valid_utf8(bytes@),
        only_shacl(graph_prefixes(*graph)) ==> r is Ok,
{
    let mut bytes = Vec::new();
    graph.serialize(&RDFFormat::Turtle, &mut bytes).map(|_| bytes).map_err(|e| e.to_string())
}

} // verus!
