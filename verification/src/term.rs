//! RDF terms as the JSON face of a report shows them.

use vstd::prelude::*;

use crate::order::Ranked;
use crate::text::order_text;
#[allow(unused_imports)]
use crate::text::{text_order, text_order_laws};

verus! {

/// An RDF term in the SPARQL 1.1 Query Results JSON encoding: `{"type": "uri" | "bnode" |
/// "literal", "value": …}`. A literal carries `"xml:lang"` when it is language-tagged and
/// `"datatype"` when it is typed; a plain `xsd:string` carries neither. A quoted triple is
/// `{"type": "triple", "value": {subject, predicate, object}}`, the SPARQL 1.2 form.
#[derive(PartialEq, Eq, PartialOrd, Ord, Debug)]
#[allow(inconsistent_fields)]
pub enum Term {
    Uri { value: String },
    Bnode { value: String },
    Literal { value: String, lang: Option<String>, datatype: Option<String> },
    Triple { value: Box<QuotedTriple> },
}

/// The value of a [`Term::Triple`].
#[derive(PartialEq, Eq, PartialOrd, Ord, Debug)]
pub struct QuotedTriple {
    pub subject: Term,
    pub predicate: Term,
    pub object: Term,
}

/// What a [`Term`] is.
#[verifier::ext_equal]
pub ghost enum TermV {
    Uri(Seq<char>),
    Bnode(Seq<char>),
    Literal { value: Seq<char>, lang: Option<Seq<char>>, datatype: Option<Seq<char>> },
    Triple { subject: Box<TermV>, predicate: Box<TermV>, object: Box<TermV> },
}

/// The text of an optional string.
pub open spec fn text_option(s: Option<String>) -> Option<Seq<char>> {
    match s {
        Some(s) => Some(s@),
        None => None,
    }
}

/// The view of a term.
pub open spec fn term_view(t: Term) -> TermV
    decreases t,
{
    match t {
        Term::Uri { value } => TermV::Uri(value@),
        Term::Bnode { value } => TermV::Bnode(value@),
        Term::Literal { value, lang, datatype } => TermV::Literal {
            value: value@,
            lang: text_option(lang),
            datatype: text_option(datatype),
        },
        Term::Triple { value } => TermV::Triple {
            subject: Box::new(term_view(value.subject)),
            predicate: Box::new(term_view(value.predicate)),
            object: Box::new(term_view(value.object)),
        },
    }
}

impl View for Term {
    type V = TermV;

    open spec fn view(&self) -> TermV {
        term_view(*self)
    }
}

/// A copy of an optional text.
pub fn copy_text_option(s: &Option<String>) -> (r: Option<String>)
    ensures
        text_option(r) == text_option(*s),
{
    match s {
        Some(s) => Some(s.clone()),
        None => None,
    }
}

impl Clone for Term {
    fn clone(&self) -> (r: Self)
        ensures
            r@ == self@,
        decreases self,
    {
        match self {
            Term::Uri { value } => Term::Uri { value: value.clone() },
            Term::Bnode { value } => Term::Bnode { value: value.clone() },
            Term::Literal { value, lang, datatype } => Term::Literal {
                value: value.clone(),
                lang: copy_text_option(lang),
                datatype: copy_text_option(datatype),
            },
            Term::Triple { value } => Term::Triple {
                value: Box::new(
                    QuotedTriple {
                        subject: value.subject.clone(),
                        predicate: value.predicate.clone(),
                        object: value.object.clone(),
                    },
                ),
            },
        }
    }
}

impl Clone for QuotedTriple {
    fn clone(&self) -> (r: Self)
        ensures
            r.subject@ == self.subject@,
            r.predicate@ == self.predicate@,
            r.object@ == self.object@,
    {
        QuotedTriple {
            subject: self.subject.clone(),
            predicate: self.predicate.clone(),
            object: self.object.clone(),
        }
    }
}

/// The view of an optional term.
pub open spec fn term_option(t: Option<Term>) -> Option<TermV> {
    match t {
        Some(t) => Some(t@),
        None => None,
    }
}

/// The text a message template puts in for a term: an IRI as itself, a literal as its lexical
/// form, a blank node as `_:` and its label, a quoted triple as `<< s p o >>`.
pub open spec fn lexical_text(t: TermV) -> Seq<char>
    decreases t,
{
    match t {
        TermV::Uri(value) => value,
        TermV::Literal { value, .. } => value,
        TermV::Bnode(value) => "_:"@ + value,
        TermV::Triple { subject, predicate, object } => "<< "@ + lexical_text(*subject) + " "@
            + lexical_text(*predicate) + " "@ + lexical_text(*object) + " >>"@,
    }
}

impl Term {
    /// The text a message template puts in for this term.
    pub fn lexical(&self) -> (r: String)
        ensures
            r@ == lexical_text(self@),
        decreases self,
    {
        match self {
            Term::Uri { value } => value.clone(),
            Term::Literal { value, .. } => value.clone(),
            Term::Bnode { value } => {
                let mut out = String::new();
                out.append("_:");
                out.append(value.as_str());
                assert(out@ =~= "_:"@ + value@);
                out
            },
            Term::Triple { value } => {
                let subject = value.subject.lexical();
                let predicate = value.predicate.lexical();
                let object = value.object.lexical();
                let mut out = String::new();
                out.append("<< ");
                out.append(subject.as_str());
                out.append(" ");
                out.append(predicate.as_str());
                out.append(" ");
                out.append(object.as_str());
                out.append(" >>");
                assert(out@ =~= lexical_text(self@));
                out
            },
        }
    }
}

/// The first of two comparisons that tells a difference.
pub open spec fn first_of(a: int, b: int) -> int {
    if a != 0 {
        a
    } else {
        b
    }
}

/// The order of two optional texts: none comes first.
pub open spec fn text_option_order(a: Option<Seq<char>>, b: Option<Seq<char>>) -> int {
    match (a, b) {
        (None, None) => 0,
        (None, Some(_)) => -1,
        (Some(_), None) => 1,
        (Some(a), Some(b)) => text_order(a, b),
    }
}

/// The place of a term's kind in the order of terms.
pub open spec fn kind_rank(t: TermV) -> int {
    match t {
        TermV::Uri(_) => 0,
        TermV::Bnode(_) => 1,
        TermV::Literal { .. } => 2,
        TermV::Triple { .. } => 3,
    }
}

/// The order of two terms: IRIs, blank nodes, literals, quoted triples; within a kind by the
/// fields, in the order in which they are declared.
pub open spec fn term_order(a: TermV, b: TermV) -> int
    decreases a,
{
    match (a, b) {
        (TermV::Uri(x), TermV::Uri(y)) => text_order(x, y),
        (TermV::Bnode(x), TermV::Bnode(y)) => text_order(x, y),
        (
            TermV::Literal { value: v1, lang: l1, datatype: d1 },
            TermV::Literal { value: v2, lang: l2, datatype: d2 },
        ) => first_of(
            text_order(v1, v2),
            first_of(text_option_order(l1, l2), text_option_order(d1, d2)),
        ),
        (
            TermV::Triple { subject: s1, predicate: p1, object: o1 },
            TermV::Triple { subject: s2, predicate: p2, object: o2 },
        ) => first_of(
            term_order(*s1, *s2),
            first_of(term_order(*p1, *p2), term_order(*o1, *o2)),
        ),
        _ => if kind_rank(a) < kind_rank(b) {
            -1
        } else {
            1
        },
    }
}

/// The order of two optional terms: none comes first.
pub open spec fn term_option_order(a: Option<TermV>, b: Option<TermV>) -> int {
    match (a, b) {
        (None, None) => 0,
        (None, Some(_)) => -1,
        (Some(_), None) => 1,
        (Some(a), Some(b)) => term_order(a, b),
    }
}

/// `text_option_order` is a total order.
pub proof fn text_option_order_laws(
    a: Option<Seq<char>>,
    b: Option<Seq<char>>,
    c: Option<Seq<char>>,
)
    ensures
        -1 <= text_option_order(a, b) <= 1,
        text_option_order(a, b) == 0 <==> a == b,
        text_option_order(a, b) == -text_option_order(b, a),
        text_option_order(a, b) <= 0 && text_option_order(b, c) <= 0 ==> text_option_order(a, c)
            <= 0,
{
    if a is Some && b is Some {
        if c is Some {
            text_order_laws(a->0, b->0, c->0);
        } else {
            text_order_laws(a->0, b->0, a->0);
        }
    }
}

/// `term_order` is a total order.
pub proof fn term_order_laws(a: TermV, b: TermV, c: TermV)
    ensures
        -1 <= term_order(a, b) <= 1,
        term_order(a, b) == 0 <==> a == b,
        term_order(a, b) == -term_order(b, a),
        term_order(a, b) <= 0 && term_order(b, c) <= 0 ==> term_order(a, c) <= 0,
    decreases a,
{
    match (a, b) {
        (TermV::Uri(x), TermV::Uri(y)) => {
            text_order_laws(x, y, if c is Uri { c->Uri_0 } else { x });
        },
        (TermV::Bnode(x), TermV::Bnode(y)) => {
            text_order_laws(x, y, if c is Bnode { c->Bnode_0 } else { x });
        },
        (
            TermV::Literal { value: v1, lang: l1, datatype: d1 },
            TermV::Literal { value: v2, lang: l2, datatype: d2 },
        ) => {
            let (v3, l3, d3) = match c {
                TermV::Literal { value, lang, datatype } => (value, lang, datatype),
                _ => (v1, l1, d1),
            };
            text_order_laws(v1, v2, v3);
            text_order_laws(v2, v3, v1);
            text_order_laws(v1, v3, v2);
            text_option_order_laws(l1, l2, l3);
            text_option_order_laws(l2, l3, l1);
            text_option_order_laws(l1, l3, l2);
            text_option_order_laws(d1, d2, d3);
        },
        (
            TermV::Triple { subject: s1, predicate: p1, object: o1 },
            TermV::Triple { subject: s2, predicate: p2, object: o2 },
        ) => {
            let (s3, p3, o3) = match c {
                TermV::Triple { subject, predicate, object } => (*subject, *predicate, *object),
                _ => (*s1, *p1, *o1),
            };
            term_order_laws(*s1, *s2, s3);
            term_order_laws(*s1, s3, *s2);
            term_order_laws(*p1, *p2, p3);
            term_order_laws(*p1, p3, *p2);
            term_order_laws(*o1, *o2, o3);
            term_order_laws(*o1, o3, *o2);
        },
        _ => {},
    }
}

/// `term_option_order` is a total order.
pub proof fn term_option_order_laws(a: Option<TermV>, b: Option<TermV>, c: Option<TermV>)
    ensures
        -1 <= term_option_order(a, b) <= 1,
        term_option_order(a, b) == 0 <==> a == b,
        term_option_order(a, b) == -term_option_order(b, a),
        term_option_order(a, b) <= 0 && term_option_order(b, c) <= 0 ==> term_option_order(a, c)
            <= 0,
{
    if a is Some && b is Some {
        if c is Some {
            term_order_laws(a->0, b->0, c->0);
        } else {
            term_order_laws(a->0, b->0, a->0);
        }
    }
}

/// The order of two optional texts, as `text_option_order` states it.
pub fn order_text_option(a: &Option<String>, b: &Option<String>) -> (r: i8)
    ensures
        r == text_option_order(text_option(*a), text_option(*b)),
{
    match (a, b) {
        (None, None) => 0,
        (None, Some(_)) => -1,
        (Some(_), None) => 1,
        (Some(x), Some(y)) => order_text(x.as_str(), y.as_str()),
    }
}

fn kind_of(t: &Term) -> (r: u8)
    ensures
        r == kind_rank(t@),
{
    match t {
        Term::Uri { .. } => 0,
        Term::Bnode { .. } => 1,
        Term::Literal { .. } => 2,
        Term::Triple { .. } => 3,
    }
}

/// The order of two terms, as `term_order` states it.
pub fn order_term(a: &Term, b: &Term) -> (r: i8)
    ensures
        r == term_order(a@, b@),
    decreases a,
{
    match (a, b) {
        (Term::Uri { value: x }, Term::Uri { value: y }) => order_text(x.as_str(), y.as_str()),
        (Term::Bnode { value: x }, Term::Bnode { value: y }) => order_text(x.as_str(), y.as_str()),
        (
            Term::Literal { value: v1, lang: l1, datatype: d1 },
            Term::Literal { value: v2, lang: l2, datatype: d2 },
        ) => {
            let by_value: i8 = order_text(v1.as_str(), v2.as_str());
            if by_value != 0 {
                return by_value;
            }
            let by_lang: i8 = order_text_option(l1, l2);
            if by_lang != 0 {
                return by_lang;
            }
            order_text_option(d1, d2)
        },
        (Term::Triple { value: x }, Term::Triple { value: y }) => {
            let by_subject: i8 = order_term(&x.subject, &y.subject);
            if by_subject != 0 {
                return by_subject;
            }
            let by_predicate: i8 = order_term(&x.predicate, &y.predicate);
            if by_predicate != 0 {
                return by_predicate;
            }
            order_term(&x.object, &y.object)
        },
        _ => if kind_of(a) < kind_of(b) {
            -1
        } else {
            1
        },
    }
}

/// The order of two optional terms, as `term_option_order` states it.
pub fn order_term_option(a: &Option<Term>, b: &Option<Term>) -> (r: i8)
    ensures
        r == term_option_order(term_option(*a), term_option(*b)),
{
    match (a, b) {
        (None, None) => 0,
        (None, Some(_)) => -1,
        (Some(_), None) => 1,
        (Some(x), Some(y)) => order_term(x, y),
    }
}

/// Texts are ranked by `text_order`.
impl Ranked for String {
    open spec fn order(a: Seq<char>, b: Seq<char>) -> int {
        text_order(a, b)
    }

    proof fn order_laws(a: Seq<char>, b: Seq<char>, c: Seq<char>) {
        text_order_laws(a, b, c);
    }

    fn rank(&self, other: &Self) -> (r: i8) {
        order_text(self.as_str(), other.as_str())
    }
}

} // verus!
