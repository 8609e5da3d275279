//! RDF nodes, and the values of the RDF stack that they come from.

use rudof_rdf::rdf_core::term::literal::{ConcreteLiteral, Lang};
use rudof_rdf::rdf_core::term::{IriOrBlankNode, Object};
use vstd::prelude::*;

#[allow(unused_imports)]
use crate::meaning::{nodes_are_shown, shows};
use crate::term::{QuotedTriple, Term};
#[allow(unused_imports)]
use crate::term::{term_view, text_option, TermV};
use crate::text::same_text;

verus! {

/// The datatype of a plain literal, which its JSON leaves unsaid.
pub const XSD_STRING: &'static str = "http://www.w3.org/2001/XMLSchema#string";

/// The datatype of booleans.
pub const XSD_BOOLEAN: &'static str = "http://www.w3.org/2001/XMLSchema#boolean";

/// An RDF term of the validator, opaque here: see [`Node`].
#[verifier::external_type_specification]
#[verifier::external_body]
pub struct ExObject(Object);

/// A literal of the validator, opaque here. It is carried as it is, because making it again
/// from its text and datatype could change its text.
#[verifier::external_type_specification]
#[verifier::external_body]
pub struct ExConcreteLiteral(ConcreteLiteral);

/// A language tag of the validator, opaque here.
#[verifier::external_type_specification]
#[verifier::external_body]
pub struct ExLang(Lang);

/// The text of a language tag.
pub uninterp spec fn lang_tag(lang: Lang) -> Seq<char>;

/// `Lang::as_str`: the text of a language tag.
pub assume_specification[ Lang::as_str ](lang: &Lang) -> (r: &str)
    ensures
        r@ == lang_tag(*lang),
;

/// `Lang::clone`: a language tag with the same text.
pub assume_specification[ <Lang as Clone>::clone ](lang: &Lang) -> (r: Lang)
    ensures
        r == *lang,
;

/// The text of an optional language tag.
pub open spec fn tag_option(lang: Option<Lang>) -> Option<Seq<char>> {
    match lang {
        Some(lang) => Some(lang_tag(lang)),
        None => None,
    }
}

/// The lexical form of a literal.
pub uninterp spec fn literal_form(literal: ConcreteLiteral) -> Seq<char>;

/// The language tag of a literal.
pub uninterp spec fn literal_lang(literal: ConcreteLiteral) -> Option<Seq<char>>;

/// The text of the datatype of a literal.
pub uninterp spec fn literal_type(literal: ConcreteLiteral) -> Seq<char>;

/// The text that a literal is displayed as.
pub uninterp spec fn literal_shown(literal: ConcreteLiteral) -> Seq<char>;

/// `ConcreteLiteral::lexical_form`: the lexical form of a literal.
pub assume_specification[ ConcreteLiteral::lexical_form ](literal: &ConcreteLiteral) -> (r: String)
    ensures
        r@ == literal_form(*literal),
;

/// `ConcreteLiteral::lang`: the language tag of a literal that has one.
pub assume_specification[ ConcreteLiteral::lang ](literal: &ConcreteLiteral) -> (r: Option<Lang>)
    ensures
        tag_option(r) == literal_lang(*literal),
;

/// `ConcreteLiteral::datatype`, as text: the datatype of a literal.
#[verifier::external_body]
fn datatype_text(literal: &ConcreteLiteral) -> (r: String)
    ensures
        r@ == literal_type(*literal),
{
    literal.datatype().to_string()
}

/// `ConcreteLiteral` displayed: a text that is a function of the literal alone.
#[verifier::external_body]
fn literal_text(literal: &ConcreteLiteral) -> (r: String)
    ensures
        r@ == literal_shown(*literal),
{
    literal.to_string()
}

/// A node that can be the subject of a triple.
pub enum Resource {
    Iri(String),
    Blank(String),
}

/// What a [`Resource`] is.
pub ghost enum ResourceV {
    Iri(Seq<char>),
    Blank(Seq<char>),
}

impl View for Resource {
    type V = ResourceV;

    open spec fn view(&self) -> ResourceV {
        match *self {
            Resource::Iri(iri) => ResourceV::Iri(iri@),
            Resource::Blank(label) => ResourceV::Blank(label@),
        }
    }
}

/// An RDF term: an IRI, a blank node, a literal or a quoted triple.
pub enum Node {
    Iri(String),
    Blank(String),
    Literal(ConcreteLiteral),
    Triple { subject: Resource, predicate: String, object: Box<Node> },
}

/// What a [`Node`] is.
pub ghost enum NodeV {
    Iri(Seq<char>),
    Blank(Seq<char>),
    Literal(ConcreteLiteral),
    Triple { subject: ResourceV, predicate: Seq<char>, object: Box<NodeV> },
}

/// The view of a node.
pub open spec fn node_view(node: Node) -> NodeV
    decreases node,
{
    match node {
        Node::Iri(iri) => NodeV::Iri(iri@),
        Node::Blank(label) => NodeV::Blank(label@),
        Node::Literal(literal) => NodeV::Literal(literal),
        Node::Triple { subject, predicate, object } => NodeV::Triple {
            subject: subject@,
            predicate: predicate@,
            object: Box::new(node_view(*object)),
        },
    }
}

impl View for Node {
    type V = NodeV;

    open spec fn view(&self) -> NodeV {
        node_view(*self)
    }
}

/// A resource as the node that carries the same term.
pub open spec fn resource_node(r: ResourceV) -> NodeV {
    match r {
        ResourceV::Iri(iri) => NodeV::Iri(iri),
        ResourceV::Blank(label) => NodeV::Blank(label),
    }
}

/// A [`Resource`] as the [`Node`] carrying the same term, so that subjects and objects go
/// through one rewrite and one rendering.
pub fn subject_object(subject: &Resource) -> (r: Node)
    ensures
        r@ == resource_node(subject@),
{
    match subject {
        Resource::Iri(iri) => Node::Iri(iri.clone()),
        Resource::Blank(label) => Node::Blank(label.clone()),
    }
}

/// The node that a term of the validator is.
pub uninterp spec fn object_node(object: Object) -> NodeV;

/// `Object`, variant by variant: an IRI by its text, a blank node by its label, a literal as it
/// is, a quoted triple by its parts.
#[verifier::external_body]
pub(crate) fn node_of(object: &Object) -> (r: Node)
    ensures
        r@ == object_node(*object),
{
    match object {
        Object::Iri(iri) => Node::Iri(iri.as_str().to_string()),
        Object::BlankNode(label) => Node::Blank(label.clone()),
        Object::Literal(literal) => Node::Literal(literal.clone()),
        Object::Triple { subject, predicate, object } => Node::Triple {
            subject: match subject.as_ref() {
                IriOrBlankNode::Iri(iri) => Resource::Iri(iri.as_str().to_string()),
                IriOrBlankNode::BlankNode(label) => Resource::Blank(label.clone()),
            },
            predicate: predicate.as_str().to_string(),
            object: Box::new(node_of(object)),
        },
    }
}

/// The reason why a text is no absolute IRI, if it is none.
pub uninterp spec fn iri_fault(text: Seq<char>) -> Option<Seq<char>>;

/// A text that a URN may hold: letters, digits, `-`, `_`, `.`, `:`, and `%` before two digits
/// in base sixteen.
pub open spec fn is_urn_text(s: Seq<char>) -> bool
    decreases s.len(),
{
    if s.len() == 0 {
        true
    } else if s[0] == '%' {
        s.len() >= 3 && is_hex(s[1]) && is_hex(s[2]) && is_urn_text(s.skip(3))
    } else {
        (crate::label::is_label_char(s[0]) || s[0] == ':') && is_urn_text(s.drop_first())
    }
}

/// A digit in base sixteen.
pub open spec fn is_hex(c: char) -> bool {
    '0' <= c <= '9' || 'A' <= c <= 'F' || 'a' <= c <= 'f'
}

/// `Object::parse` without a base: `_:` begins a blank node with the label that follows;
/// anything else is an IRI, with its text kept as it is, or an error. `urn:` and a text that a
/// URN may hold is an IRI. Literals are not read: the call does not return on a text that
/// begins with a quote.
#[verifier::external_body]
pub(crate) fn parse_object(text: &str) -> (r: Result<Object, String>)
    requires
        text@.len() > 0 ==> text@[0] != '"',
    ensures
        match r {
            Ok(object) => object_node(object) == (if "_:"@.is_prefix_of(text@) {
                NodeV::Blank(text@.skip(2))
            } else {
                NodeV::Iri(text@)
            }),
            Err(e) => iri_fault(text@) == Some(e@) && !"_:"@.is_prefix_of(text@),
        },
        r is Ok && !"_:"@.is_prefix_of(text@) ==> iri_fault(text@) is None,
        "urn:"@.is_prefix_of(text@) && is_urn_text(text@.skip(4)) ==> r is Ok,
{
    Object::parse(text, None).map_err(|e| e.to_string())
}

/// The term of a literal: the language tag when it is tagged, else the datatype unless it is
/// the default of plain literals.
pub open spec fn literal_term_view(
    form: Seq<char>,
    lang: Option<Seq<char>>,
    datatype: Seq<char>,
) -> TermV {
    TermV::Literal {
        value: form,
        lang,
        datatype: if lang is Some || datatype == XSD_STRING@ {
            None
        } else {
            Some(datatype)
        },
    }
}

/// The term that shows a resource.
pub open spec fn resource_term(r: ResourceV) -> TermV {
    match r {
        ResourceV::Iri(iri) => TermV::Uri(iri),
        ResourceV::Blank(label) => TermV::Bnode(label),
    }
}

/// The term that shows a node.
pub open spec fn node_term(node: NodeV) -> TermV
    decreases node,
{
    match node {
        NodeV::Iri(iri) => TermV::Uri(iri),
        NodeV::Blank(label) => TermV::Bnode(label),
        NodeV::Literal(literal) => literal_term_view(
            literal_form(literal),
            literal_lang(literal),
            literal_type(literal),
        ),
        NodeV::Triple { subject, predicate, object } => TermV::Triple {
            subject: Box::new(resource_term(subject)),
            predicate: Box::new(TermV::Uri(predicate)),
            object: Box::new(node_term(*object)),
        },
    }
}

/// A literal with the given form, tag and datatype as a [`Term::Literal`].
pub fn plain_literal_term(form: String, lang: Option<String>, datatype: String) -> (r: Term)
    ensures
        r@ == literal_term_view(form@, text_option(lang), datatype@),
{
    let shown = if lang.is_some() || same_text(datatype.as_str(), XSD_STRING) {
        None
    } else {
        Some(datatype)
    };
    Term::Literal { value: form, lang, datatype: shown }
}

/// A literal as a [`Term::Literal`].
pub fn literal_term(literal: &ConcreteLiteral) -> (r: Term)
    ensures
        r@ == literal_term_view(
            literal_form(*literal),
            literal_lang(*literal),
            literal_type(*literal),
        ),
{
    let lang = match literal.lang() {
        Some(lang) => {
            let mut tag = String::new();
            tag.append(lang.as_str());
            assert(tag@ =~= lang_tag(lang));
            Some(tag)
        },
        None => None,
    };
    plain_literal_term(literal.lexical_form(), lang, datatype_text(literal))
}

/// Whether a literal is the boolean `true`.
pub open spec fn is_true_literal(literal: ConcreteLiteral) -> bool {
    literal_form(literal) == "true"@ && literal_type(literal) == XSD_BOOLEAN@
}

/// Whether a literal is the boolean `true`.
pub fn is_true(literal: &ConcreteLiteral) -> (r: bool)
    ensures
        r == is_true_literal(*literal),
{
    same_text(literal.lexical_form().as_str(), "true") && same_text(
        datatype_text(literal).as_str(),
        XSD_BOOLEAN,
    )
}

/// The [`Term`] that shows a node.
pub fn term(node: &Node) -> (r: Term)
    ensures
        r@ == node_term(node@),
        shows(r@, node@),
    decreases node,
{
    proof {
        nodes_are_shown(node@);
    }
    match node {
        Node::Iri(iri) => Term::Uri { value: iri.clone() },
        Node::Blank(label) => Term::Bnode { value: label.clone() },
        Node::Literal(literal) => literal_term(literal),
        Node::Triple { subject, predicate, object } => {
            let subject_term = match subject {
                Resource::Iri(iri) => Term::Uri { value: iri.clone() },
                Resource::Blank(label) => Term::Bnode { value: label.clone() },
            };
            let object_term = term(object);
            proof {
                reveal_with_fuel(term_view, 2);
            }
            Term::Triple {
                value: Box::new(
                    QuotedTriple {
                        subject: subject_term,
                        predicate: Term::Uri { value: predicate.clone() },
                        object: object_term,
                    },
                ),
            }
        },
    }
}

/// The text that a node is displayed as. A quoted triple has none.
pub open spec fn shown_text(node: NodeV) -> Seq<char> {
    match node {
        NodeV::Iri(iri) => iri,
        NodeV::Blank(label) => "_:"@ + label,
        NodeV::Literal(literal) => literal_shown(literal),
        NodeV::Triple { .. } => Seq::empty(),
    }
}

/// Displays a node that is no quoted triple: an IRI as itself, a blank node as `_:` and its
/// label, a literal as the RDF stack displays it.
pub fn shown(node: &Node) -> (r: String)
    requires
        !(node@ is Triple),
    ensures
        r@ == shown_text(node@),
{
    match node {
        Node::Iri(iri) => iri.clone(),
        Node::Blank(label) => {
            let mut out = String::new();
            out.append("_:");
            out.append(label.as_str());
            assert(out@ =~= "_:"@ + label@);
            out
        },
        Node::Literal(literal) => literal_text(literal),
        Node::Triple { .. } => String::new(),
    }
}

/// Whether a node is a quoted triple.
pub fn is_quoted(node: &Node) -> (r: bool)
    ensures
        r == (node@ is Triple),
{
    match node {
        Node::Triple { .. } => true,
        _ => false,
    }
}

} // verus!
