//! The triples of a graph as facts, and what can be found among them.

use oxrdf::Triple;
use vstd::prelude::*;

use crate::graph::row_of;
use crate::query::{finds_path, finds_place, keeps_capitals};
use crate::rdf::{is_true, node_of, Node, Resource};
use crate::text::{chars_of, same_text};
use crate::walk::{copy_resource, lists_resource, same_resource, Link};
#[allow(unused_imports)]
use crate::{
    finding::node_option,
    graph::{object_text, quotes_triple, triple_parts},
    query::{is_early, is_placed, keeps_length},
    rdf::{is_true_literal, resource_node, NodeV, ResourceV},
    term::text_option,
    walk::{is_listed, listed, listed_at, listed_push, nothing_listed},
};

verus! {

/// `rdf:first`, a member of a list.
pub const FIRST: &'static str = "http://www.w3.org/1999/02/22-rdf-syntax-ns#first";

/// `rdf:rest`, what follows in a list.
pub const REST: &'static str = "http://www.w3.org/1999/02/22-rdf-syntax-ns#rest";

/// `sh:languageIn`.
pub const LANGUAGE_IN: &'static str = "http://www.w3.org/ns/shacl#languageIn";

/// `sh:path`.
pub const PATH: &'static str = "http://www.w3.org/ns/shacl#path";

/// `sh:alternativePath`.
pub const ALTERNATIVE: &'static str = "http://www.w3.org/ns/shacl#alternativePath";

/// `sh:zeroOrMorePath`.
pub const ZERO_OR_MORE: &'static str = "http://www.w3.org/ns/shacl#zeroOrMorePath";

/// `sh:oneOrMorePath`.
pub const ONE_OR_MORE: &'static str = "http://www.w3.org/ns/shacl#oneOrMorePath";

/// `sh:zeroOrOnePath`.
pub const ZERO_OR_ONE: &'static str = "http://www.w3.org/ns/shacl#zeroOrOnePath";

/// `sh:inversePath`.
pub const INVERSE: &'static str = "http://www.w3.org/ns/shacl#inversePath";

/// `sh:select`.
pub const SELECT: &'static str = "http://www.w3.org/ns/shacl#select";

/// `sh:disjoint`.
pub const DISJOINT: &'static str = "http://www.w3.org/ns/shacl#disjoint";

/// `sh:targetNode`.
pub const TARGET_NODE: &'static str = "http://www.w3.org/ns/shacl#targetNode";

/// `sh:targetObjectsOf`.
pub const TARGET_OBJECTS: &'static str = "http://www.w3.org/ns/shacl#targetObjectsOf";

/// `sh:property`.
pub const PROPERTY: &'static str = "http://www.w3.org/ns/shacl#property";

/// `sh:reifierShape`.
pub const REIFIER: &'static str = "http://www.w3.org/ns/shacl#reifierShape";

/// `sh:node`.
pub const NODE: &'static str = "http://www.w3.org/ns/shacl#node";

/// `sh:not`.
pub const NOT: &'static str = "http://www.w3.org/ns/shacl#not";

/// `sh:qualifiedValueShape`.
pub const QUALIFIED: &'static str = "http://www.w3.org/ns/shacl#qualifiedValueShape";

/// `sh:and`.
pub const AND: &'static str = "http://www.w3.org/ns/shacl#and";

/// `sh:or`.
pub const OR: &'static str = "http://www.w3.org/ns/shacl#or";

/// `sh:xone`.
pub const XONE: &'static str = "http://www.w3.org/ns/shacl#xone";

/// `sh:lessThan`.
pub const LESS: &'static str = "http://www.w3.org/ns/shacl#lessThan";

/// `sh:lessThanOrEquals`.
pub const LESS_EQUAL: &'static str = "http://www.w3.org/ns/shacl#lessThanOrEquals";

/// `sh:qualifiedValueShapesDisjoint`.
pub const SIBLINGS: &'static str = "http://www.w3.org/ns/shacl#qualifiedValueShapesDisjoint";

/// `sh:targetSubjectsOf`.
pub const TARGET_SUBJECTS: &'static str = "http://www.w3.org/ns/shacl#targetSubjectsOf";

/// `sh:targetClass`.
pub const TARGET_CLASS: &'static str = "http://www.w3.org/ns/shacl#targetClass";

/// `sh:class`.
pub const CLASS: &'static str = "http://www.w3.org/ns/shacl#class";

/// `sh:hasValue`.
pub const HAS_VALUE: &'static str = "http://www.w3.org/ns/shacl#hasValue";

/// `sh:in`.
pub const IN: &'static str = "http://www.w3.org/ns/shacl#in";

/// `sh:sparql`.
pub const SPARQL: &'static str = "http://www.w3.org/ns/shacl#sparql";

/// `sh:deactivated`.
pub const DEACTIVATED: &'static str = "http://www.w3.org/ns/shacl#deactivated";

/// `rdf:type`.
pub const TYPE: &'static str = "http://www.w3.org/1999/02/22-rdf-syntax-ns#type";

/// `rdf:reifies`.
pub const REIFIES: &'static str = "http://www.w3.org/1999/02/22-rdf-syntax-ns#reifies";

/// `rdfs:Class`.
pub const RDFS_CLASS: &'static str = "http://www.w3.org/2000/01/rdf-schema#Class";

/// A triple as plain values.
pub struct Fact {
    pub subject: Resource,
    pub predicate: String,
    pub object: Option<Node>,
    pub quoted: bool,
    pub text: Option<String>,
}

/// What a [`Fact`] is: its object where it can be read, whether that is a quoted triple, and the
/// text of a literal as it is written.
pub ghost struct FactV {
    pub subject: ResourceV,
    pub predicate: Seq<char>,
    pub object: Option<NodeV>,
    pub quoted: bool,
    pub text: Option<Seq<char>>,
}

impl View for Fact {
    type V = FactV;

    open spec fn view(&self) -> FactV {
        FactV {
            subject: self.subject@,
            predicate: self.predicate@,
            object: node_option(self.object),
            quoted: self.quoted,
            text: text_option(self.text),
        }
    }
}

/// A triple of the store as a fact.
pub open spec fn fact_of(triple: Triple) -> FactV {
    let parts = triple_parts(triple);
    FactV {
        subject: parts.0,
        predicate: parts.1,
        object: parts.2,
        quoted: quotes_triple(triple),
        text: object_text(triple),
    }
}

/// The facts of a graph.
pub open spec fn facts_of(triples: Set<Triple>) -> Set<FactV> {
    triples.map(|t: Triple| fact_of(t))
}

/// The triples of a graph as plain values.
pub fn facts(triples: Vec<Triple>) -> (r: Vec<Fact>)
    ensures
        listed(r@) == facts_of(triples@.to_set()),
{
    let ghost all = triples@;
    let mut out: Vec<Fact> = Vec::new();
    for triple in it: triples
        invariant
            it.seq() == all,
            out@.len() == it.index(),
            forall|i: int| 0 <= i < out@.len() ==> (#[trigger] out@[i])@ == fact_of(all[i]),
    {
        let ghost at = it.index() as int;
        assert(triple == all[at]);
        let row = row_of(triple);
        let object = match &row.object {
            Some(object) => Some(node_of(object)),
            None => None,
        };
        let fact = Fact {
            subject: row.subject,
            predicate: row.predicate,
            object,
            quoted: row.quoted,
            text: row.text,
        };
        assert(fact@ == fact_of(all[at]));
        out.push(fact);
    }
    proof {
        let f = |t: Triple| fact_of(t);
        assert forall|x: FactV| listed(out@).contains(x) == facts_of(all.to_set()).contains(x) by {
            if listed(out@).contains(x) {
                let i = listed_at(out@, x);
                assert(all.to_set().contains(all[i]));
                assert(f(all[i]) == x);
            }
            if facts_of(all.to_set()).contains(x) {
                let t = choose|t: Triple| all.to_set().contains(t) && x == f(t);
                let i = choose|i: int| 0 <= i < all.len() && all[i] == t;
                is_listed(out@, i);
                assert(out@[i]@ == x);
            }
        }
        assert(listed(out@) =~= facts_of(all.to_set()));
    }
    out
}

/// Whether an object is an IRI or a blank node.
pub open spec fn is_resource(object: Option<NodeV>) -> bool {
    object matches Some(NodeV::Iri(_)) || object matches Some(NodeV::Blank(_))
}

/// Whether an object is an IRI or a blank node.
fn resource(object: &Option<Node>) -> (r: bool)
    ensures
        r == is_resource(node_option(*object)),
{
    match object {
        Some(Node::Iri(_)) => true,
        Some(Node::Blank(_)) => true,
        _ => false,
    }
}

/// Whether an object is an IRI.
fn iri(object: &Option<Node>) -> (r: bool)
    ensures
        r == (node_option(*object) matches Some(NodeV::Iri(_))),
{
    match object {
        Some(Node::Iri(_)) => true,
        _ => false,
    }
}

/// Whether an object is a blank node.
fn blank(object: &Option<Node>) -> (r: bool)
    ensures
        r == (node_option(*object) matches Some(NodeV::Blank(_))),
{
    match object {
        Some(Node::Blank(_)) => true,
        _ => false,
    }
}

/// Whether an object is a quoted triple.
fn quoted_node(object: &Option<Node>) -> (r: bool)
    ensures
        r == (node_option(*object) matches Some(NodeV::Triple { .. })),
{
    match object {
        Some(Node::Triple { .. }) => true,
        _ => false,
    }
}

/// An ASCII letter.
pub open spec fn is_letter(c: char) -> bool {
    'a' <= c <= 'z' || 'A' <= c <= 'Z'
}

/// An ASCII digit.
pub open spec fn is_digit(c: char) -> bool {
    '0' <= c <= '9'
}

/// Whether a text goes on as a language tag does: letters, digits after the first hyphen, and no
/// hyphen beside another or at the end.
pub open spec fn goes_as_tag(s: Seq<char>, digits: bool) -> bool
    decreases s.len(),
{
    if s.len() == 0 {
        true
    } else if s[0] == '-' {
        s.len() > 1 && s[1] != '-' && goes_as_tag(s.drop_first(), true)
    } else {
        (is_letter(s[0]) || digits && is_digit(s[0])) && goes_as_tag(s.drop_first(), digits)
    }
}

/// Whether a text is a language tag: letters, then groups of letters and digits with hyphens
/// before them.
pub open spec fn is_tag(s: Seq<char>) -> bool {
    s.len() > 0 && s[0] != '-' && goes_as_tag(s, false)
}

/// Whether a text is a language tag.
fn tag(text: &str) -> (r: bool)
    ensures
        r == is_tag(text@),
{
    let chars = chars_of(text);
    if chars.len() == 0 || chars[0] == '-' {
        return false;
    }
    let mut digits = false;
    let mut i: usize = 0;
    assert(chars@.skip(0) =~= chars@);
    while i < chars.len()
        invariant
            i <= chars@.len(),
            chars@ == text@,
            chars@.len() > 0 && chars@[0] != '-',
            goes_as_tag(chars@, false) == goes_as_tag(chars@.skip(i as int), digits),
        decreases chars@.len() - i,
    {
        let ghost rest = chars@.skip(i as int);
        assert(rest.drop_first() =~= chars@.skip(i + 1));
        let c = chars[i];
        assert(rest[0] == c);
        if c == '-' {
            if i + 1 >= chars.len() {
                return false;
            }
            assert(rest[1] == chars@[i + 1]);
            if chars[i + 1] == '-' {
                return false;
            }
            digits = true;
        } else if !('a' <= c && c <= 'z' || 'A' <= c && c <= 'Z' || digits && '0' <= c && c
            <= '9') {
            return false;
        }
        i += 1;
    }
    true
}

/// Whether an object can be read as a language tag: a blank node is passed over, and a literal
/// must be one as it is written.
pub open spec fn is_tag_object(f: FactV) -> bool {
    ||| f.object matches Some(NodeV::Blank(_))
    ||| f.text matches Some(text) && is_tag(text)
}

/// Whether an object can be read as a language tag.
fn tag_object(f: &Fact) -> (r: bool)
    ensures
        r == is_tag_object(f@),
{
    let written = match &f.text {
        Some(text) => tag(text.as_str()),
        None => false,
    };
    blank(&f.object) || written
}

/// Whether an object is the boolean `true`, written so.
pub open spec fn is_switch(f: FactV) -> bool {
    match f.object {
        Some(NodeV::Literal(literal)) => f.text == Some("true"@) && is_true_literal(literal),
        _ => false,
    }
}

/// Whether an object is the boolean `true`, written so.
fn switch(f: &Fact) -> (r: bool)
    ensures
        r == is_switch(f@),
{
    match (&f.object, &f.text) {
        (Some(Node::Literal(literal)), Some(text)) => same_text(text.as_str(), "true") && is_true(
            literal,
        ),
        _ => false,
    }
}

/// Whether an object is a query in which the place for the focus node is not found.
pub open spec fn is_lost(f: FactV) -> bool {
    f.text matches Some(text) && !is_placed(text)
}

/// Whether an object is a query in which the place for the focus node is not found.
fn lost(f: &Fact) -> (r: bool)
    ensures
        r == is_lost(f@),
{
    match &f.text {
        Some(text) => !finds_place(text.as_str()),
        None => false,
    }
}

/// Whether an object is a query that names the path before the place for the focus node.
pub open spec fn is_early_path(f: FactV) -> bool {
    f.text matches Some(text) && is_early(text)
}

/// Whether an object is a query that names the path before the place for the focus node.
fn early_path(f: &Fact) -> (r: bool)
    ensures
        r == is_early_path(f@),
{
    match &f.text {
        Some(text) => finds_path(text.as_str()),
        None => false,
    }
}

/// Whether an object is an IRI with a character that is longer or shorter in capitals.
pub open spec fn is_odd(object: Option<NodeV>) -> bool {
    object matches Some(NodeV::Iri(iri)) && !keeps_length(iri)
}

/// Whether an object is an IRI with a character that is longer or shorter in capitals.
fn odd(object: &Option<Node>) -> (r: bool)
    ensures
        r == is_odd(node_option(*object)),
{
    match object {
        Some(Node::Iri(iri)) => !keeps_capitals(iri.as_str()),
        _ => false,
    }
}

/// Whether an object is a certain IRI.
fn same_iri(object: &Option<Node>, iri: &str) -> (r: bool)
    ensures
        r == (node_option(*object) == Some(NodeV::Iri(iri@))),
{
    match object {
        Some(Node::Iri(found)) => same_text(found.as_str(), iri),
        _ => false,
    }
}

/// Whether a predicate is read for a term or a shape, which is kept as it stands.
pub open spec fn is_kept(predicate: Seq<char>) -> bool {
    ||| predicate == CLASS@
    ||| predicate == HAS_VALUE@
    ||| predicate == TARGET_NODE@
    ||| predicate == NODE@
    ||| predicate == PROPERTY@
    ||| predicate == NOT@
    ||| predicate == QUALIFIED@
    ||| predicate == REIFIER@
}

/// Whether a predicate is read for a term or a shape, which is kept as it stands.
fn keeps(p: &str) -> (r: bool)
    ensures
        r == is_kept(p@),
{
    same_text(p, CLASS)
        || same_text(p, HAS_VALUE)
        || same_text(p, TARGET_NODE)
        || same_text(p, NODE)
        || same_text(p, PROPERTY)
        || same_text(p, NOT)
        || same_text(p, QUALIFIED)
        || same_text(p, REIFIER)
}

/// Whether a predicate leads to a part of a property path that may be a predicate itself.
pub open spec fn is_part(predicate: Seq<char>) -> bool {
    ||| predicate == FIRST@
    ||| predicate == ZERO_OR_MORE@
    ||| predicate == ONE_OR_MORE@
    ||| predicate == ZERO_OR_ONE@
    ||| predicate == INVERSE@
}

/// Whether a predicate leads to a part of a property path that may be a predicate itself.
fn part(p: &str) -> (r: bool)
    ensures
        r == is_part(p@),
{
    same_text(p, FIRST)
        || same_text(p, ZERO_OR_MORE)
        || same_text(p, ONE_OR_MORE)
        || same_text(p, ZERO_OR_ONE)
        || same_text(p, INVERSE)
}

/// What may be looked for among the facts of a graph.
#[derive(Clone, Copy)]
pub enum Rule {
    /// Anything.
    Any,
    /// A quoted triple for a term that is kept.
    Quoted,
    /// A quoted triple in a list.
    QuotedMember,
    /// A list of terms or shapes.
    Members,
    /// A list of language tags.
    TagList,
    /// The rest of a list.
    Rest,
    /// A list member that is no language tag.
    WrongTag,
    /// A property path that is no predicate.
    PathHead,
    /// A part of a property path that is read as a path or a list.
    PathStep,
    /// A predicate in a property path.
    PathName,
    /// A predicate of a property path with a character that is longer or shorter in capitals.
    OddName,
    /// The inverse of a path that is no predicate.
    InversePath,
    /// A constraint by a query.
    Sparql,
    /// A query in which the place for the focus node is not found.
    LostSelect,
    /// A query that names the path before the place for the focus node.
    EarlyPath,
    /// A property that values are held against.
    Disjoint,
    /// A property that values are compared with.
    Less,
    /// An object that cannot be read.
    Unread,
    /// An object that is no resource.
    Loose,
    /// A quoted triple that can be read.
    Triple,
    /// A target node.
    Target,
    /// A target node that is no resource.
    LooseTarget,
    /// A target node that is a quoted triple.
    TripleTarget,
    /// A property whose objects are targets.
    TargetObjects,
    /// A property whose subjects are targets.
    TargetSubjects,
    /// A class whose instances are targets.
    TargetClass,
    /// A class that a node is an instance of.
    Type,
    /// A class.
    Class,
    /// The switch that takes a shape out of use.
    Off,
    /// A property path.
    Path,
    /// A property path that is not one IRI.
    CrookedPath,
    /// A shape for the value nodes or the reifiers.
    Nested,
    /// A shape for the reifiers.
    Reifier,
    /// What a node reifies.
    Reifies,
    /// A list of shapes.
    Operand,
    /// A member or the rest of a list.
    ListPart,
    /// A shape that a shape refers to.
    Reference,
    /// A shape whose conforming value nodes are counted.
    Qualified,
    /// The flag by which value nodes are held against the shapes of siblings.
    Siblings,
    /// A constraint that may fail rather than give a result.
    Failing,
    /// A constraint that takes the failure of a shape for a result.
    Swallowing,
}

/// Whether a fact is what a rule looks for.
pub open spec fn holds(rule: Rule, f: FactV) -> bool {
    match rule {
        Rule::Any => true,
        Rule::Quoted => f.quoted && is_kept(f.predicate),
        Rule::QuotedMember => f.quoted && f.predicate == FIRST@,
        Rule::Members => {
            ||| f.predicate == IN@
            ||| f.predicate == AND@
            ||| f.predicate == OR@
            ||| f.predicate == XONE@
        },
        Rule::TagList => f.predicate == LANGUAGE_IN@,
        Rule::Rest => f.predicate == REST@,
        Rule::WrongTag => f.predicate == FIRST@ && !is_tag_object(f),
        Rule::PathHead => f.predicate == PATH@ && f.object matches Some(NodeV::Blank(_)),
        Rule::PathStep => {
            ||| f.predicate == REST@
            ||| f.predicate == ALTERNATIVE@
            ||| f.object matches Some(NodeV::Blank(_)) && is_part(f.predicate)
        },
        Rule::PathName => is_part(f.predicate) && f.object matches Some(NodeV::Iri(_)),
        Rule::OddName => (f.predicate == PATH@ || is_part(f.predicate)) && is_odd(f.object),
        Rule::InversePath => f.predicate == INVERSE@ && f.object matches Some(NodeV::Blank(_)),
        Rule::Sparql => f.predicate == SPARQL@,
        Rule::LostSelect => f.predicate == SELECT@ && is_lost(f),
        Rule::EarlyPath => f.predicate == SELECT@ && is_early_path(f),
        Rule::Disjoint => f.predicate == DISJOINT@,
        Rule::Less => f.predicate == LESS@ || f.predicate == LESS_EQUAL@,
        Rule::Unread => f.object is None,
        Rule::Loose => !is_resource(f.object),
        Rule::Triple => f.object matches Some(NodeV::Triple { .. }),
        Rule::Target => f.predicate == TARGET_NODE@,
        Rule::LooseTarget => f.predicate == TARGET_NODE@ && !is_resource(f.object),
        Rule::TripleTarget => f.predicate == TARGET_NODE@ && f.quoted,
        Rule::TargetObjects => f.predicate == TARGET_OBJECTS@,
        Rule::TargetSubjects => f.predicate == TARGET_SUBJECTS@,
        Rule::TargetClass => f.predicate == TARGET_CLASS@,
        Rule::Type => f.predicate == TYPE@,
        Rule::Class => f.predicate == TYPE@ && f.object == Some(NodeV::Iri(RDFS_CLASS@)),
        Rule::Off => f.predicate == DEACTIVATED@ && is_switch(f),
        Rule::Path => f.predicate == PATH@,
        Rule::CrookedPath => f.predicate == PATH@ && !(f.object matches Some(NodeV::Iri(_))),
        Rule::Nested => f.predicate == PROPERTY@ || f.predicate == REIFIER@,
        Rule::Reifier => f.predicate == REIFIER@,
        Rule::Reifies => f.predicate == REIFIES@,
        Rule::Operand => {
            ||| f.predicate == AND@
            ||| f.predicate == OR@
            ||| f.predicate == XONE@
        },
        Rule::ListPart => f.predicate == FIRST@ || f.predicate == REST@,
        Rule::Reference => {
            ||| f.predicate == PROPERTY@
            ||| f.predicate == REIFIER@
            ||| f.predicate == NODE@
            ||| f.predicate == NOT@
            ||| f.predicate == QUALIFIED@
            ||| f.predicate == AND@
            ||| f.predicate == OR@
            ||| f.predicate == XONE@
        },
        Rule::Qualified => f.predicate == QUALIFIED@,
        Rule::Siblings => f.predicate == SIBLINGS@,
        Rule::Failing => {
            ||| f.predicate == SPARQL@
            ||| f.predicate == REIFIER@
            ||| f.predicate == LESS@
            ||| f.predicate == LESS_EQUAL@
        },
        Rule::Swallowing => {
            ||| f.predicate == NOT@
            ||| f.predicate == AND@
            ||| f.predicate == XONE@
            ||| f.predicate == QUALIFIED@
        },
    }
}

/// Whether a fact is what a rule looks for.
fn is_held(rule: Rule, f: &Fact) -> (r: bool)
    ensures
        r == holds(rule, f@),
{
    let p = f.predicate.as_str();
    match rule {
        Rule::Any => true,
        Rule::Quoted => f.quoted && keeps(p),
        Rule::QuotedMember => f.quoted && same_text(p, FIRST),
        Rule::Members => {
            same_text(p, IN)
                || same_text(p, AND)
                || same_text(p, OR)
                || same_text(p, XONE)
        },
        Rule::TagList => same_text(p, LANGUAGE_IN),
        Rule::Rest => same_text(p, REST),
        Rule::WrongTag => same_text(p, FIRST) && !tag_object(f),
        Rule::PathHead => same_text(p, PATH) && blank(&f.object),
        Rule::PathStep => same_text(p, REST) || same_text(p, ALTERNATIVE) || blank(&f.object)
            && part(p),
        Rule::PathName => part(p) && iri(&f.object),
        Rule::OddName => (same_text(p, PATH) || part(p)) && odd(&f.object),
        Rule::InversePath => same_text(p, INVERSE) && blank(&f.object),
        Rule::Sparql => same_text(p, SPARQL),
        Rule::LostSelect => same_text(p, SELECT) && lost(f),
        Rule::EarlyPath => same_text(p, SELECT) && early_path(f),
        Rule::Disjoint => same_text(p, DISJOINT),
        Rule::Less => same_text(p, LESS) || same_text(p, LESS_EQUAL),
        Rule::Unread => f.object.is_none(),
        Rule::Loose => !resource(&f.object),
        Rule::Triple => quoted_node(&f.object),
        Rule::Target => same_text(p, TARGET_NODE),
        Rule::LooseTarget => same_text(p, TARGET_NODE) && !resource(&f.object),
        Rule::TripleTarget => same_text(p, TARGET_NODE) && f.quoted,
        Rule::TargetObjects => same_text(p, TARGET_OBJECTS),
        Rule::TargetSubjects => same_text(p, TARGET_SUBJECTS),
        Rule::TargetClass => same_text(p, TARGET_CLASS),
        Rule::Type => same_text(p, TYPE),
        Rule::Class => same_text(p, TYPE) && same_iri(&f.object, RDFS_CLASS),
        Rule::Off => same_text(p, DEACTIVATED) && switch(f),
        Rule::Path => same_text(p, PATH),
        Rule::CrookedPath => same_text(p, PATH) && !iri(&f.object),
        Rule::Nested => same_text(p, PROPERTY) || same_text(p, REIFIER),
        Rule::Reifier => same_text(p, REIFIER),
        Rule::Reifies => same_text(p, REIFIES),
        Rule::Operand => {
            same_text(p, AND)
                || same_text(p, OR)
                || same_text(p, XONE)
        },
        Rule::ListPart => same_text(p, FIRST) || same_text(p, REST),
        Rule::Reference => {
            same_text(p, PROPERTY)
                || same_text(p, REIFIER)
                || same_text(p, NODE)
                || same_text(p, NOT)
                || same_text(p, QUALIFIED)
                || same_text(p, AND)
                || same_text(p, OR)
                || same_text(p, XONE)
        },
        Rule::Qualified => same_text(p, QUALIFIED),
        Rule::Siblings => same_text(p, SIBLINGS),
        Rule::Failing => {
            same_text(p, SPARQL)
                || same_text(p, REIFIER)
                || same_text(p, LESS)
                || same_text(p, LESS_EQUAL)
        },
        Rule::Swallowing => {
            same_text(p, NOT)
                || same_text(p, AND)
                || same_text(p, XONE)
                || same_text(p, QUALIFIED)
        },
    }
}

/// Where facts are looked for: at some subjects, with some predicates, with some IRIs as objects,
/// or anywhere.
pub struct Place<'a> {
    pub subjects: Option<&'a Vec<Resource>>,
    pub predicates: Option<&'a Vec<String>>,
    pub objects: Option<&'a Vec<String>>,
}

/// What a [`Place`] is.
pub ghost struct PlaceV {
    pub subjects: Option<Set<ResourceV>>,
    pub predicates: Option<Set<Seq<char>>>,
    pub objects: Option<Set<Seq<char>>>,
}

impl<'a> View for Place<'a> {
    type V = PlaceV;

    open spec fn view(&self) -> PlaceV {
        PlaceV {
            subjects: match self.subjects {
                Some(subjects) => Some(listed(subjects@)),
                None => None,
            },
            predicates: match self.predicates {
                Some(predicates) => Some(listed(predicates@)),
                None => None,
            },
            objects: match self.objects {
                Some(objects) => Some(listed(objects@)),
                None => None,
            },
        }
    }
}

/// Anywhere.
pub open spec fn anywhere() -> PlaceV {
    PlaceV { subjects: None, predicates: None, objects: None }
}

/// At some subjects.
pub open spec fn at(subjects: Set<ResourceV>) -> PlaceV {
    PlaceV { subjects: Some(subjects), predicates: None, objects: None }
}

/// With some predicates.
pub open spec fn along(predicates: Set<Seq<char>>) -> PlaceV {
    PlaceV { subjects: None, predicates: Some(predicates), objects: None }
}

/// With some IRIs as objects.
pub open spec fn to(objects: Set<Seq<char>>) -> PlaceV {
    PlaceV { subjects: None, predicates: None, objects: Some(objects) }
}

/// At some subjects, with some IRIs as objects.
pub open spec fn on(subjects: Set<ResourceV>, objects: Set<Seq<char>>) -> PlaceV {
    PlaceV { subjects: Some(subjects), predicates: None, objects: Some(objects) }
}

/// Whether a fact is what a rule looks for in a place.
pub open spec fn picks(f: FactV, rule: Rule, place: PlaceV) -> bool {
    &&& holds(rule, f)
    &&& place.subjects matches Some(subjects) ==> subjects.contains(f.subject)
    &&& place.predicates matches Some(predicates) ==> predicates.contains(f.predicate)
    &&& place.objects matches Some(objects) ==> is_among(f.object, objects)
}

/// Whether an object is one of some IRIs.
pub open spec fn is_among(object: Option<NodeV>, iris: Set<Seq<char>>) -> bool {
    match object {
        Some(NodeV::Iri(iri)) => iris.contains(iri),
        _ => false,
    }
}

/// Whether a fact is what a rule looks for in a place.
fn is_picked(f: &Fact, rule: Rule, place: &Place) -> (r: bool)
    ensures
        r == picks(f@, rule, place@),
{
    let there = match place.subjects {
        Some(subjects) => lists_resource(subjects, &f.subject),
        None => true,
    };
    let said = match place.predicates {
        Some(predicates) => lists_text(predicates, &f.predicate),
        None => true,
    };
    let met = match (place.objects, &f.object) {
        (Some(objects), Some(Node::Iri(iri))) => lists_text(objects, iri),
        (Some(_), _) => false,
        (None, _) => true,
    };
    there && said && met && is_held(rule, f)
}

/// The resource that an object is, if it is one.
fn object_resource(object: &Option<Node>) -> (r: Option<Resource>)
    ensures
        match r {
            Some(resource) => node_option(*object) == Some(resource_node(resource@)),
            None => !is_resource(node_option(*object)),
        },
{
    match object {
        Some(Node::Iri(iri)) => Some(Resource::Iri(iri.clone())),
        Some(Node::Blank(label)) => Some(Resource::Blank(label.clone())),
        _ => None,
    }
}

/// The IRI that an object is, if it is one.
fn object_iri(object: &Option<Node>) -> (r: Option<String>)
    ensures
        match r {
            Some(iri) => node_option(*object) == Some(NodeV::Iri(iri@)),
            None => !(node_option(*object) matches Some(NodeV::Iri(_))),
        },
{
    match object {
        Some(Node::Iri(iri)) => Some(iri.clone()),
        _ => None,
    }
}

/// Whether a text is listed.
fn lists_text(texts: &Vec<String>, text: &String) -> (r: bool)
    ensures
        r == listed(texts@).contains(text@),
{
    let mut i: usize = 0;
    while i < texts.len()
        invariant
            i <= texts@.len(),
            forall|k: int| 0 <= k < i ==> (#[trigger] texts@[k])@ != text@,
        decreases texts@.len() - i,
    {
        if same_text(texts[i].as_str(), text.as_str()) {
            proof {
                is_listed(texts@, i as int);
            }
            return true;
        }
        i += 1;
    }
    proof {
        if listed(texts@).contains(text@) {
            let k = listed_at(texts@, text@);
        }
    }
    false
}

/// One fact more than before.
proof fn next_fact(facts: Seq<Fact>, i: int)
    requires
        0 <= i < facts.len(),
    ensures
        listed(facts.take(i + 1)) == listed(facts.take(i)).insert(facts[i]@),
{
    assert(facts.take(i + 1) =~= facts.take(i).push(facts[i]));
    listed_push(facts.take(i), facts[i]);
}

/// Whether some fact is what a rule looks for.
pub open spec fn some_fact(
    facts: Set<FactV>,
    rule: Rule,
    place: PlaceV,
) -> bool {
    exists|f: FactV| #[trigger] facts.contains(f) && picks(f, rule, place)
}

/// Whether some fact is what a rule looks for.
pub fn find(facts: &Vec<Fact>, rule: Rule, place: &Place) -> (r: bool)
    ensures
        r == some_fact(listed(facts@), rule, place@),
{
    let ghost spot = place@;
    let mut i: usize = 0;
    while i < facts.len()
        invariant
            i <= facts@.len(),
            spot == place@,
            forall|k: int| 0 <= k < i ==> !picks((#[trigger] facts@[k])@, rule, spot),
        decreases facts@.len() - i,
    {
        if is_picked(&facts[i], rule, place) {
            proof {
                is_listed(facts@, i as int);
            }
            return true;
        }
        i += 1;
    }
    proof {
        if some_fact(listed(facts@), rule, spot) {
            let f = choose|f: FactV| #[trigger]
                listed(facts@).contains(f) && picks(f, rule, spot);
            let k = listed_at(facts@, f);
            assert(!picks(facts@[k]@, rule, spot));
        }
    }
    false
}

/// The subjects of the facts that a rule looks for.
pub open spec fn subjects(
    facts: Set<FactV>,
    rule: Rule,
    place: PlaceV,
) -> Set<ResourceV> {
    Set::new(
        |x: ResourceV|
            exists|f: FactV| #[trigger]
                facts.contains(f) && picks(f, rule, place) && f.subject == x,
    )
}

/// The subjects of one more fact.
proof fn subjects_of_more(facts: Set<FactV>, more: FactV, rule: Rule, place: PlaceV)
    ensures
        forall|x: ResourceV| #[trigger]
            subjects(facts.insert(more), rule, place).contains(x) == (subjects(
                facts,
                rule,
                place,
            ).contains(x) || picks(more, rule, place) && more.subject == x),
{
    let after = facts.insert(more);
    assert forall|x: ResourceV| #[trigger]
        subjects(after, rule, place).contains(x) == (subjects(facts, rule, place).contains(x)
            || picks(more, rule, place) && more.subject == x) by {
        assert(after.contains(more));
        if subjects(facts, rule, place).contains(x) {
            let f = choose|f: FactV| #[trigger]
                facts.contains(f) && picks(f, rule, place) && f.subject == x;
            assert(after.contains(f));
        }
        if subjects(after, rule, place).contains(x) {
            let f = choose|f: FactV| #[trigger]
                after.contains(f) && picks(f, rule, place) && f.subject == x;
            assert(f == more || facts.contains(f));
        }
    }
}

/// The subjects of the facts that a rule looks for.
pub fn list_subjects(facts: &Vec<Fact>, rule: Rule, place: &Place) -> (r: Vec<Resource>)
    ensures
        listed(r@) == subjects(listed(facts@), rule, place@),
{
    let ghost spot = place@;
    let mut out: Vec<Resource> = Vec::new();
    let mut i: usize = 0;
    proof {
        nothing_listed::<Resource>();
        nothing_listed::<Fact>();
        assert(facts@.take(0) =~= Seq::<Fact>::empty());
        assert(listed(out@) =~= subjects(listed(facts@.take(0)), rule, spot));
    }
    while i < facts.len()
        invariant
            i <= facts@.len(),
            spot == place@,
            listed(out@) == subjects(listed(facts@.take(i as int)), rule, spot),
        decreases facts@.len() - i,
    {
        let ghost before = listed(facts@.take(i as int));
        let ghost had = listed(out@);
        let ghost f = facts@[i as int]@;
        proof {
            next_fact(facts@, i as int);
            subjects_of_more(before, f, rule, spot);
        }
        let ghost after = listed(facts@.take(i + 1));
        if is_picked(&facts[i], rule, place) {
            let item = copy_resource(&facts[i].subject);
            proof {
                listed_push(out@, item);
                assert(subjects(after, rule, spot) =~= had.insert(item@));
            }
            out.push(item);
        } else {
            assert(subjects(after, rule, spot) =~= had);
        }
        i += 1;
    }
    assert(facts@.take(i as int) =~= facts@);
    out
}

/// The predicates of the facts that a rule looks for.
pub open spec fn predicates(
    facts: Set<FactV>,
    rule: Rule,
    place: PlaceV,
) -> Set<Seq<char>> {
    Set::new(
        |x: Seq<char>|
            exists|f: FactV| #[trigger]
                facts.contains(f) && picks(f, rule, place) && f.predicate == x,
    )
}

/// The predicates of one more fact.
proof fn predicates_of_more(facts: Set<FactV>, more: FactV, rule: Rule, place: PlaceV)
    ensures
        forall|x: Seq<char>| #[trigger]
            predicates(facts.insert(more), rule, place).contains(x) == (predicates(
                facts,
                rule,
                place,
            ).contains(x) || picks(more, rule, place) && more.predicate == x),
{
    let after = facts.insert(more);
    assert forall|x: Seq<char>| #[trigger]
        predicates(after, rule, place).contains(x) == (predicates(facts, rule, place).contains(x)
            || picks(more, rule, place) && more.predicate == x) by {
        assert(after.contains(more));
        if predicates(facts, rule, place).contains(x) {
            let f = choose|f: FactV| #[trigger]
                facts.contains(f) && picks(f, rule, place) && f.predicate == x;
            assert(after.contains(f));
        }
        if predicates(after, rule, place).contains(x) {
            let f = choose|f: FactV| #[trigger]
                after.contains(f) && picks(f, rule, place) && f.predicate == x;
            assert(f == more || facts.contains(f));
        }
    }
}

/// The predicates of the facts that a rule looks for.
pub fn list_predicates(facts: &Vec<Fact>, rule: Rule, place: &Place) -> (r: Vec<String>)
    ensures
        listed(r@) == predicates(listed(facts@), rule, place@),
{
    let ghost spot = place@;
    let mut out: Vec<String> = Vec::new();
    let mut i: usize = 0;
    proof {
        nothing_listed::<String>();
        nothing_listed::<Fact>();
        assert(facts@.take(0) =~= Seq::<Fact>::empty());
        assert(listed(out@) =~= predicates(listed(facts@.take(0)), rule, spot));
    }
    while i < facts.len()
        invariant
            i <= facts@.len(),
            spot == place@,
            listed(out@) == predicates(listed(facts@.take(i as int)), rule, spot),
        decreases facts@.len() - i,
    {
        let ghost before = listed(facts@.take(i as int));
        let ghost had = listed(out@);
        let ghost f = facts@[i as int]@;
        proof {
            next_fact(facts@, i as int);
            predicates_of_more(before, f, rule, spot);
        }
        let ghost after = listed(facts@.take(i + 1));
        if is_picked(&facts[i], rule, place) {
            let item = facts[i].predicate.clone();
            proof {
                listed_push(out@, item);
                assert(predicates(after, rule, spot) =~= had.insert(item@));
            }
            out.push(item);
        } else {
            assert(predicates(after, rule, spot) =~= had);
        }
        i += 1;
    }
    assert(facts@.take(i as int) =~= facts@);
    out
}

/// The resources that are objects of the facts that a rule looks for.
pub open spec fn objects(
    facts: Set<FactV>,
    rule: Rule,
    place: PlaceV,
) -> Set<ResourceV> {
    Set::new(
        |x: ResourceV|
            exists|f: FactV| #[trigger]
                facts.contains(f) && picks(f, rule, place) && f.object == Some(resource_node(x)),
    )
}

/// The objects of one more fact.
proof fn objects_of_more(facts: Set<FactV>, more: FactV, rule: Rule, place: PlaceV)
    ensures
        forall|x: ResourceV| #[trigger]
            objects(facts.insert(more), rule, place).contains(x) == (objects(
                facts,
                rule,
                place,
            ).contains(x) || picks(more, rule, place) && more.object == Some(resource_node(x))),
{
    let after = facts.insert(more);
    assert forall|x: ResourceV| #[trigger]
        objects(after, rule, place).contains(x) == (objects(facts, rule, place).contains(x)
            || picks(more, rule, place) && more.object == Some(resource_node(x))) by {
        assert(after.contains(more));
        if objects(facts, rule, place).contains(x) {
            let f = choose|f: FactV| #[trigger]
                facts.contains(f) && picks(f, rule, place) && f.object == Some(resource_node(x));
            assert(after.contains(f));
        }
        if objects(after, rule, place).contains(x) {
            let f = choose|f: FactV| #[trigger]
                after.contains(f) && picks(f, rule, place) && f.object == Some(resource_node(x));
            assert(f == more || facts.contains(f));
        }
    }
}

/// The resources that are objects of the facts that a rule looks for.
pub fn list_objects(facts: &Vec<Fact>, rule: Rule, place: &Place) -> (r: Vec<Resource>)
    ensures
        listed(r@) == objects(listed(facts@), rule, place@),
{
    let ghost spot = place@;
    let mut out: Vec<Resource> = Vec::new();
    let mut i: usize = 0;
    proof {
        nothing_listed::<Resource>();
        nothing_listed::<Fact>();
        assert(facts@.take(0) =~= Seq::<Fact>::empty());
        assert(listed(out@) =~= objects(listed(facts@.take(0)), rule, spot));
    }
    while i < facts.len()
        invariant
            i <= facts@.len(),
            spot == place@,
            listed(out@) == objects(listed(facts@.take(i as int)), rule, spot),
        decreases facts@.len() - i,
    {
        let ghost before = listed(facts@.take(i as int));
        let ghost had = listed(out@);
        let ghost f = facts@[i as int]@;
        proof {
            next_fact(facts@, i as int);
            objects_of_more(before, f, rule, spot);
        }
        let ghost after = listed(facts@.take(i + 1));
        if is_picked(&facts[i], rule, place) {
            match object_resource(&facts[i].object) {
                Some(found) => {
                    let item = found;
                    proof {
                        listed_push(out@, item);
                        assert(objects(after, rule, spot) =~= had.insert(item@));
                    }
                    out.push(item);
                },
                None => {
                    assert(objects(after, rule, spot) =~= had);
                },
            }
        } else {
            assert(objects(after, rule, spot) =~= had);
        }
        i += 1;
    }
    assert(facts@.take(i as int) =~= facts@);
    out
}

/// The links that the facts that a rule looks for make, from subject to object.
pub open spec fn links(
    facts: Set<FactV>,
    rule: Rule,
    place: PlaceV,
) -> Set<(ResourceV, ResourceV)> {
    Set::new(
        |x: (ResourceV, ResourceV)|
            exists|f: FactV| #[trigger]
                facts.contains(f) && picks(f, rule, place) && f.subject == x.0 && f.object == Some(
                    resource_node(x.1),
                ),
    )
}

/// The links of one more fact.
proof fn links_of_more(facts: Set<FactV>, more: FactV, rule: Rule, place: PlaceV)
    ensures
        forall|x: (ResourceV, ResourceV)| #[trigger]
            links(facts.insert(more), rule, place).contains(x) == (links(
                facts,
                rule,
                place,
            ).contains(x) || picks(more, rule, place) && more.subject == x.0
                && more.object == Some(resource_node(x.1))),
{
    let after = facts.insert(more);
    assert forall|x: (ResourceV, ResourceV)| #[trigger]
        links(after, rule, place).contains(x) == (links(facts, rule, place).contains(x)
            || picks(more, rule, place) && more.subject == x.0
                && more.object == Some(resource_node(x.1))) by {
        assert(after.contains(more));
        if links(facts, rule, place).contains(x) {
            let f = choose|f: FactV| #[trigger]
                facts.contains(f) && picks(f, rule, place) && f.subject == x.0 && f.object == Some(
                    resource_node(x.1),
                );
            assert(after.contains(f));
        }
        if links(after, rule, place).contains(x) {
            let f = choose|f: FactV| #[trigger]
                after.contains(f) && picks(f, rule, place) && f.subject == x.0 && f.object == Some(
                    resource_node(x.1),
                );
            assert(f == more || facts.contains(f));
        }
    }
}

/// The links that the facts that a rule looks for make, from subject to object.
pub fn list_links(facts: &Vec<Fact>, rule: Rule, place: &Place) -> (r: Vec<Link>)
    ensures
        listed(r@) == links(listed(facts@), rule, place@),
{
    let ghost spot = place@;
    let mut out: Vec<Link> = Vec::new();
    let mut i: usize = 0;
    proof {
        nothing_listed::<Link>();
        nothing_listed::<Fact>();
        assert(facts@.take(0) =~= Seq::<Fact>::empty());
        assert(listed(out@) =~= links(listed(facts@.take(0)), rule, spot));
    }
    while i < facts.len()
        invariant
            i <= facts@.len(),
            spot == place@,
            listed(out@) == links(listed(facts@.take(i as int)), rule, spot),
        decreases facts@.len() - i,
    {
        let ghost before = listed(facts@.take(i as int));
        let ghost had = listed(out@);
        let ghost f = facts@[i as int]@;
        proof {
            next_fact(facts@, i as int);
            links_of_more(before, f, rule, spot);
        }
        let ghost after = listed(facts@.take(i + 1));
        if is_picked(&facts[i], rule, place) {
            match object_resource(&facts[i].object) {
                Some(found) => {
                    let item = Link { from: copy_resource(&facts[i].subject), to: found };
                    proof {
                        listed_push(out@, item);
                        assert(links(after, rule, spot) =~= had.insert(item@));
                    }
                    out.push(item);
                },
                None => {
                    assert(links(after, rule, spot) =~= had);
                },
            }
        } else {
            assert(links(after, rule, spot) =~= had);
        }
        i += 1;
    }
    assert(facts@.take(i as int) =~= facts@);
    out
}

/// Whether the subject of a fact has another object by the same predicate.
pub open spec fn forks(facts: Set<FactV>, f: FactV) -> bool {
    exists|g: FactV| #[trigger]
        facts.contains(g) && g.subject == f.subject && g.predicate == f.predicate && g.object
            != f.object
}

/// Whether a fact links one resource to another, beside another object by the same predicate.
pub open spec fn fork_links(
    facts: Set<FactV>,
    f: FactV,
    place: PlaceV,
    x: (ResourceV, ResourceV),
) -> bool {
    &&& picks(f, Rule::Any, place)
    &&& f.subject == x.0
    &&& f.object == Some(resource_node(x.1))
    &&& forks(facts, f)
}

/// The links that facts make where their subjects have several objects by one predicate.
pub open spec fn forked_links(facts: Set<FactV>, place: PlaceV) -> Set<(ResourceV, ResourceV)> {
    Set::new(
        |x: (ResourceV, ResourceV)|
            exists|f: FactV| #[trigger] facts.contains(f) && fork_links(facts, f, place, x),
    )
}

/// Whether a fact whose object is a resource stands beside another object.
fn is_forked(facts: &Vec<Fact>, at: usize, object: &Resource) -> (r: bool)
    requires
        at < facts@.len(),
        facts@[at as int]@.object == Some(resource_node(object@)),
    ensures
        r == forks(listed(facts@), facts@[at as int]@),
{
    let ghost f = facts@[at as int]@;
    let mut i: usize = 0;
    while i < facts.len()
        invariant
            i <= facts@.len(),
            at < facts@.len(),
            f == facts@[at as int]@,
            f.object == Some(resource_node(object@)),
            forall|k: int|
                0 <= k < i ==> (#[trigger] facts@[k])@.subject != f.subject || facts@[k]@.predicate
                    != f.predicate || facts@[k]@.object == f.object,
        decreases facts@.len() - i,
    {
        let alike = same_resource(&facts[i].subject, &facts[at].subject) && same_text(
            facts[i].predicate.as_str(),
            facts[at].predicate.as_str(),
        );
        let same = match object_resource(&facts[i].object) {
            Some(other) => same_resource(&other, object),
            None => false,
        };
        proof {
            assert(same == (facts@[i as int]@.object == f.object));
        }
        if alike && !same {
            proof {
                is_listed(facts@, i as int);
                assert(listed(facts@).contains(facts@[i as int]@));
            }
            return true;
        }
        i += 1;
    }
    proof {
        if forks(listed(facts@), f) {
            let g = choose|g: FactV| #[trigger]
                listed(facts@).contains(g) && g.subject == f.subject && g.predicate == f.predicate
                    && g.object != f.object;
            let k = listed_at(facts@, g);
            assert(facts@[k]@ == g);
        }
    }
    false
}

/// The links that facts make where their subjects have several objects by one predicate.
pub fn list_forked_links(facts: &Vec<Fact>, place: &Place) -> (r: Vec<Link>)
    ensures
        listed(r@) == forked_links(listed(facts@), place@),
{
    let ghost all = listed(facts@);
    let ghost spot = place@;
    let mut out: Vec<Link> = Vec::new();
    let mut i: usize = 0;
    proof {
        nothing_listed::<Link>();
    }
    while i < facts.len()
        invariant
            i <= facts@.len(),
            all == listed(facts@),
            spot == place@,
            forall|x: (ResourceV, ResourceV)| #[trigger]
                listed(out@).contains(x) == exists|k: int|
                    0 <= k < i && fork_links(all, (#[trigger] facts@[k])@, spot, x),
        decreases facts@.len() - i,
    {
        let ghost had = listed(out@);
        let ghost f = facts@[i as int]@;
        let object = object_resource(&facts[i].object);
        let found = match &object {
            Some(object) => is_picked(&facts[i], Rule::Any, place) && is_forked(facts, i, object),
            None => false,
        };
        if found {
            if let Some(to) = object {
                let link = Link { from: copy_resource(&facts[i].subject), to };
                proof {
                    listed_push(out@, link);
                    assert forall|x: (ResourceV, ResourceV)| #[trigger]
                        had.insert(link@).contains(x) == exists|k: int|
                            0 <= k < i + 1 && fork_links(all, (#[trigger] facts@[k])@, spot, x) by {
                        if x == link@ {
                            assert(fork_links(all, facts@[i as int]@, spot, x));
                        } else {
                            assert(!fork_links(all, facts@[i as int]@, spot, x));
                        }
                        if had.contains(x) {
                            let k = choose|k: int|
                                0 <= k < i && fork_links(all, (#[trigger] facts@[k])@, spot, x);
                            assert(fork_links(all, facts@[k]@, spot, x));
                        }
                    }
                }
                out.push(link);
            }
        } else {
            proof {
                assert forall|x: (ResourceV, ResourceV)| #[trigger]
                    had.contains(x) == exists|k: int|
                        0 <= k < i + 1 && fork_links(all, (#[trigger] facts@[k])@, spot, x) by {
                    assert(!fork_links(all, facts@[i as int]@, spot, x));
                    if had.contains(x) {
                        let k = choose|k: int|
                            0 <= k < i && fork_links(all, (#[trigger] facts@[k])@, spot, x);
                        assert(fork_links(all, facts@[k]@, spot, x));
                    }
                }
            }
        }
        i += 1;
    }
    proof {
        assert forall|x: (ResourceV, ResourceV)| listed(out@).contains(x) == forked_links(
            all,
            spot,
        ).contains(x) by {
            if listed(out@).contains(x) {
                let k = choose|k: int|
                    0 <= k < i && fork_links(all, (#[trigger] facts@[k])@, spot, x);
                is_listed(facts@, k);
                assert(all.contains(facts@[k]@));
            }
            if forked_links(all, spot).contains(x) {
                let f = choose|f: FactV| #[trigger]
                    all.contains(f) && fork_links(all, f, spot, x);
                let k = listed_at(facts@, f);
                assert(fork_links(all, facts@[k]@, spot, x));
            }
        }
        assert(listed(out@) =~= forked_links(all, spot));
    }
    out
}

/// The IRIs that are objects of the facts that a rule looks for.
pub open spec fn iris(
    facts: Set<FactV>,
    rule: Rule,
    place: PlaceV,
) -> Set<Seq<char>> {
    Set::new(
        |x: Seq<char>|
            exists|f: FactV| #[trigger]
                facts.contains(f) && picks(f, rule, place) && f.object == Some(NodeV::Iri(x)),
    )
}

/// The IRIs of one more fact.
proof fn iris_of_more(facts: Set<FactV>, more: FactV, rule: Rule, place: PlaceV)
    ensures
        forall|x: Seq<char>| #[trigger]
            iris(facts.insert(more), rule, place).contains(x) == (iris(
                facts,
                rule,
                place,
            ).contains(x) || picks(more, rule, place) && more.object == Some(NodeV::Iri(x))),
{
    let after = facts.insert(more);
    assert forall|x: Seq<char>| #[trigger]
        iris(after, rule, place).contains(x) == (iris(facts, rule, place).contains(x)
            || picks(more, rule, place) && more.object == Some(NodeV::Iri(x))) by {
        assert(after.contains(more));
        if iris(facts, rule, place).contains(x) {
            let f = choose|f: FactV| #[trigger]
                facts.contains(f) && picks(f, rule, place) && f.object == Some(NodeV::Iri(x));
            assert(after.contains(f));
        }
        if iris(after, rule, place).contains(x) {
            let f = choose|f: FactV| #[trigger]
                after.contains(f) && picks(f, rule, place) && f.object == Some(NodeV::Iri(x));
            assert(f == more || facts.contains(f));
        }
    }
}

/// The IRIs that are objects of the facts that a rule looks for.
pub fn list_iris(facts: &Vec<Fact>, rule: Rule, place: &Place) -> (r: Vec<String>)
    ensures
        listed(r@) == iris(listed(facts@), rule, place@),
{
    let ghost spot = place@;
    let mut out: Vec<String> = Vec::new();
    let mut i: usize = 0;
    proof {
        nothing_listed::<String>();
        nothing_listed::<Fact>();
        assert(facts@.take(0) =~= Seq::<Fact>::empty());
        assert(listed(out@) =~= iris(listed(facts@.take(0)), rule, spot));
    }
    while i < facts.len()
        invariant
            i <= facts@.len(),
            spot == place@,
            listed(out@) == iris(listed(facts@.take(i as int)), rule, spot),
        decreases facts@.len() - i,
    {
        let ghost before = listed(facts@.take(i as int));
        let ghost had = listed(out@);
        let ghost f = facts@[i as int]@;
        proof {
            next_fact(facts@, i as int);
            iris_of_more(before, f, rule, spot);
        }
        let ghost after = listed(facts@.take(i + 1));
        if is_picked(&facts[i], rule, place) {
            match object_iri(&facts[i].object) {
                Some(found) => {
                    let item = found;
                    proof {
                        listed_push(out@, item);
                        assert(iris(after, rule, spot) =~= had.insert(item@));
                    }
                    out.push(item);
                },
                None => {
                    assert(iris(after, rule, spot) =~= had);
                },
            }
        } else {
            assert(iris(after, rule, spot) =~= had);
        }
        i += 1;
    }
    assert(facts@.take(i as int) =~= facts@);
    out
}

} // verus!
