//! What the words of the laws mean, apart from how the library computes it: white space around a
//! text, a node as it is spoken of and as it is shown, what a template becomes, and what comes
//! first.

#[allow(unused_imports)]
use vstd::prelude::*;

#[allow(unused_imports)]
use crate::{
    finding::{path_view, FindingV},
    rdf::{
        literal_form, literal_lang, literal_shown, literal_type, node_term, shown_text, NodeV,
        ResourceV,
    },
    report::{entry_text, result_order, tag_order, ResultV},
    template::{bare_path, bare_text, bound, names, placeholder, resolved, value_text},
    term::{lexical_text, term_order, term_order_laws, text_option_order, TermV},
    text::{is_space, text_order, text_order_laws, trimmed, trimmed_end, trimmed_start},
};

verus! {

/// White space, by code point.
pub open spec fn is_white(c: char) -> bool {
    let n = c as int;
    ||| 0x9 <= n <= 0xd
    ||| n == 0x20
    ||| n == 0x85
    ||| n == 0xa0
    ||| n == 0x1680
    ||| 0x2000 <= n <= 0x200a
    ||| n == 0x2028
    ||| n == 0x2029
    ||| n == 0x202f
    ||| n == 0x205f
    ||| n == 0x3000
}

/// A text of nothing but white space.
pub open spec fn all_white(s: Seq<char>) -> bool {
    forall|i: int| 0 <= i < s.len() ==> is_white(#[trigger] s[i])
}

/// A text that neither begins nor ends with white space.
pub open spec fn is_tight(s: Seq<char>) -> bool {
    s.len() > 0 ==> !is_white(s[0]) && !is_white(s.last())
}

/// Whether a text is another with white space around it.
pub open spec fn surrounds(
    text: Seq<char>,
    before: Seq<char>,
    core: Seq<char>,
    after: Seq<char>,
) -> bool {
    text == before + core + after && all_white(before) && all_white(after) && is_tight(core)
}

/// Whether `core` is a text without the white space around it.
pub open spec fn is_core(text: Seq<char>, core: Seq<char>) -> bool {
    exists|before: Seq<char>, after: Seq<char>| #[trigger] surrounds(text, before, core, after)
}

/// Whether a text stands in angle brackets or in quotes.
pub open spec fn is_wrapped(s: Seq<char>) -> bool {
    s.len() >= 2 && (s[0] == '<' && s.last() == '>' || s[0] == '"' && s.last() == '"')
}

/// Whether `inside` is what a rendered term holds: past white space, what stands in its angle
/// brackets or quotes, where it has them.
pub open spec fn is_inside(text: Seq<char>, inside: Seq<char>) -> bool {
    exists|core: Seq<char>| #[trigger]
        is_core(text, core) && if is_wrapped(core) {
            core == seq![core[0]] + inside + seq![core.last()]
        } else {
            inside == core
        }
}

/// A text is trimmed of the white space at either end, and of nothing else.
pub proof fn trimming_takes_the_white_space(text: Seq<char>)
    ensures
        is_core(text, trimmed(text)),
        exists|before: Seq<char>|
            all_white(before) && #[trigger] (before + trimmed_start(text)) == text && (
            trimmed_start(text).len() > 0 ==> !is_white(trimmed_start(text)[0])),
{
    let a = white_start(text);
    let rest = trimmed_start(text);
    let b = white_end(rest);
    let core = trimmed_end(rest);
    assert(text =~= a + core + b);
    if core.len() > 0 {
        assert(rest[0] == core[0]);
    }
    assert(surrounds(text, a, core, b));
    assert(a + rest == text);
}

proof fn white_start(text: Seq<char>) -> (before: Seq<char>)
    ensures
        all_white(before),
        before + trimmed_start(text) == text,
        trimmed_start(text).len() > 0 ==> !is_white(trimmed_start(text)[0]),
    decreases text.len(),
{
    if text.len() > 0 && is_space(text[0]) {
        let rest = white_start(text.drop_first());
        let before = seq![text[0]] + rest;
        assert(text =~= seq![text[0]] + text.drop_first());
        assert(before + trimmed_start(text) =~= seq![text[0]] + (rest + trimmed_start(text)));
        before
    } else {
        assert(Seq::<char>::empty() + text =~= text);
        Seq::empty()
    }
}

proof fn white_end(text: Seq<char>) -> (after: Seq<char>)
    ensures
        all_white(after),
        trimmed_end(text) + after == text,
        trimmed_end(text).len() > 0 ==> !is_white(trimmed_end(text).last()),
    decreases text.len(),
{
    if text.len() > 0 && is_space(text.last()) {
        let rest = white_end(text.drop_last());
        let after = rest.push(text.last());
        assert(text =~= text.drop_last().push(text.last()));
        assert(trimmed_end(text) + after =~= (trimmed_end(text) + rest).push(text.last()));
        after
    } else {
        assert(text + Seq::<char>::empty() =~= text);
        Seq::empty()
    }
}

/// A text has one core.
pub proof fn cores_agree(text: Seq<char>, x: Seq<char>, y: Seq<char>)
    requires
        is_core(text, x),
        is_core(text, y),
    ensures
        x == y,
{
    let (a, b) = choose|before: Seq<char>, after: Seq<char>| #[trigger]
        surrounds(text, before, x, after);
    let (c, d) = choose|before: Seq<char>, after: Seq<char>| #[trigger]
        surrounds(text, before, y, after);
    if x.len() > 0 && y.len() > 0 {
        core_starts(text, a, x, b, c, y, d);
        core_starts(text, c, y, d, a, x, b);
    }
    if x.len() == 0 {
        if y.len() > 0 {
            assert(y[0] == text[c.len() as int]);
            white_throughout(text, a, x, b, c.len() as int);
        }
        assert(x =~= y);
    } else {
        if y.len() == 0 {
            assert(x[0] == text[a.len() as int]);
            white_throughout(text, c, y, d, a.len() as int);
        }
        assert(a.len() == c.len());
        assert(text.len() == a.len() + x.len() + b.len());
        assert(text.len() == c.len() + y.len() + d.len());
        if x.len() < y.len() {
            let at = a.len() + y.len() - 1;
            assert(text[at] == y.last());
            assert(text[at] == b[at - a.len() - x.len()]);
        }
        if y.len() < x.len() {
            let at = a.len() + x.len() - 1;
            assert(text[at] == x.last());
            assert(text[at] == d[at - c.len() - y.len()]);
        }
        assert(x =~= text.subrange(a.len() as int, (a.len() + x.len()) as int));
        assert(y =~= text.subrange(c.len() as int, (c.len() + y.len()) as int));
    }
}

proof fn core_starts(
    text: Seq<char>,
    a: Seq<char>,
    x: Seq<char>,
    b: Seq<char>,
    c: Seq<char>,
    y: Seq<char>,
    d: Seq<char>,
)
    requires
        surrounds(text, a, x, b),
        surrounds(text, c, y, d),
        x.len() > 0,
        y.len() > 0,
    ensures
        a.len() >= c.len(),
{
    if a.len() < c.len() {
        assert(text[a.len() as int] == x[0]);
        assert(text[a.len() as int] == c[a.len() as int]);
    }
}

proof fn white_throughout(text: Seq<char>, a: Seq<char>, x: Seq<char>, b: Seq<char>, at: int)
    requires
        surrounds(text, a, x, b),
        x.len() == 0,
        0 <= at < text.len(),
    ensures
        is_white(text[at]),
{
    if at < a.len() {
        assert(text[at] == a[at]);
    } else {
        assert(text[at] == b[at - a.len()]);
    }
}

/// What a rendered term holds inside is what [`bare`](crate::template::bare) leaves of it, and
/// there is one such text.
pub proof fn bare_is_the_inside(text: Seq<char>, inside: Seq<char>)
    ensures
        is_inside(text, inside) <==> bare_text(text) == inside,
{
    trimming_takes_the_white_space(text);
    let t = trimmed(text);
    if is_wrapped(t) {
        assert(t =~= seq![t[0]] + t.subrange(1, t.len() - 1) + seq![t.last()]);
    }
    assert(is_inside(text, bare_text(text)));
    if is_inside(text, inside) {
        let core = choose|core: Seq<char>| #[trigger]
            is_core(text, core) && if is_wrapped(core) {
                core == seq![core[0]] + inside + seq![core.last()]
            } else {
                inside == core
            };
        cores_agree(text, core, t);
        if is_wrapped(core) {
            assert(inside =~= core.subrange(1, core.len() - 1));
        }
    }
}

/// How a node is spoken of in a message: an IRI as itself, a literal by its form, a blank node by
/// `_:` and its label, a quoted triple by its parts.
pub open spec fn spoken(node: NodeV) -> Seq<char>
    decreases node,
{
    match node {
        NodeV::Iri(iri) => iri,
        NodeV::Blank(label) => "_:"@ + label,
        NodeV::Literal(literal) => literal_form(literal),
        NodeV::Triple { subject, predicate, object } => "<< "@ + (match subject {
            ResourceV::Iri(iri) => iri,
            ResourceV::Blank(label) => "_:"@ + label,
        }) + " "@ + predicate + " "@ + spoken(*object) + " >>"@,
    }
}

/// Whether a term shows a node: an IRI, a blank node and a quoted triple as what they are, a
/// literal by its form, with its language tag where it has one, and else with its datatype unless
/// that is the one of plain texts.
pub open spec fn shows(term: TermV, node: NodeV) -> bool
    decreases node,
{
    match node {
        NodeV::Iri(iri) => term == TermV::Uri(iri),
        NodeV::Blank(label) => term == TermV::Bnode(label),
        NodeV::Literal(literal) => {
            &&& term is Literal
            &&& term->Literal_value == literal_form(literal)
            &&& term->lang == literal_lang(literal)
            &&& term->datatype is Some <==> literal_lang(literal) is None && literal_type(literal)
                != "http://www.w3.org/2001/XMLSchema#string"@
            &&& term->datatype matches Some(datatype) ==> datatype == literal_type(literal)
        },
        NodeV::Triple { subject, predicate, object } => {
            &&& term is Triple
            &&& *term->subject == (match subject {
                ResourceV::Iri(iri) => TermV::Uri(iri),
                ResourceV::Blank(label) => TermV::Bnode(label),
            })
            &&& *term->predicate == TermV::Uri(predicate)
            &&& shows(*term->object, *object)
        },
    }
}

/// A node is shown, and spoken of, as what it is.
pub proof fn nodes_are_shown(node: NodeV)
    ensures
        shows(node_term(node), node),
        lexical_text(node_term(node)) == spoken(node),
    decreases node,
{
    if let NodeV::Triple { subject, predicate, object } = node {
        nodes_are_shown(*object);
        reveal_with_fuel(lexical_text, 2);
    }
}

/// What a message says of a term, of whatever kind and however annotated: an IRI and the form of a
/// literal as they are, a blank node as Turtle writes it, a quoted triple as its three parts.
pub proof fn terms_are_spoken(t: TermV)
    ensures
        match t {
            TermV::Uri(value) => lexical_text(t) == value,
            TermV::Bnode(value) => lexical_text(t) == "_:"@ + value,
            TermV::Literal { value, lang, datatype } => lexical_text(t) == value,
            TermV::Triple { subject, predicate, object } => lexical_text(t) == "<< "@
                + lexical_text(*subject) + " "@ + lexical_text(*predicate) + " "@ + lexical_text(
                *object,
            ) + " >>"@,
        },
{
}

/// Whether a text is how an entry names a node: the inside of what the RDF stack displays for it,
/// and a quoted triple, which it does not display, as it is spoken of.
pub open spec fn names_node(text: Seq<char>, node: NodeV) -> bool {
    match node {
        NodeV::Iri(iri) => is_inside(iri, text),
        NodeV::Blank(label) => is_inside("_:"@ + label, text),
        NodeV::Literal(literal) => is_inside(literal_shown(literal), text),
        NodeV::Triple { .. } => text == spoken(node),
    }
}

/// An entry names a node by its text.
pub proof fn entries_name_nodes(node: NodeV)
    ensures
        names_node(entry_text(node), node),
{
    nodes_are_shown(node);
    bare_is_the_inside(shown_text(node), bare_text(shown_text(node)));
}

/// A placeholder as an author writes it.
pub open spec fn mark(sigil: char, name: Seq<char>) -> Seq<char> {
    seq!['{', sigil] + name + seq!['}']
}

/// Whether `value` is what a finding carries for a variable: `this` is the focus node, `value` the
/// value node, `path` the path.
pub open spec fn carries(f: FindingV, name: Seq<char>, value: Seq<char>) -> bool {
    ||| name == "this"@ && value == spoken(f.focus)
    ||| name == "value"@ && (f.value matches Some(node) && value == spoken(node))
    ||| name == "path"@ && (f.path matches Some(path) && is_inside(path_view(path).text, value))
}

/// A piece of a template: a character that is kept, or a placeholder with what is put in its
/// place.
pub ghost enum Piece {
    Kept(char),
    Put { sigil: char, name: Seq<char>, value: Seq<char> },
}

/// A piece as the author wrote it.
pub open spec fn written(piece: Piece) -> Seq<char> {
    match piece {
        Piece::Kept(c) => seq![c],
        Piece::Put { sigil, name, value } => mark(sigil, name),
    }
}

/// A piece as it is reported.
pub open spec fn reported(piece: Piece) -> Seq<char> {
    match piece {
        Piece::Kept(c) => seq![c],
        Piece::Put { sigil, name, value } => value,
    }
}

/// Pieces as the author wrote them.
pub open spec fn all_written(pieces: Seq<Piece>) -> Seq<char>
    decreases pieces.len(),
{
    if pieces.len() == 0 {
        Seq::empty()
    } else {
        written(pieces[0]) + all_written(pieces.drop_first())
    }
}

/// Pieces as they are reported.
pub open spec fn all_reported(pieces: Seq<Piece>) -> Seq<char>
    decreases pieces.len(),
{
    if pieces.len() == 0 {
        Seq::empty()
    } else {
        reported(pieces[0]) + all_reported(pieces.drop_first())
    }
}

/// Whether a text begins with a placeholder whose variable a finding carries.
pub open spec fn begins_bound(text: Seq<char>, f: FindingV) -> bool {
    exists|sigil: char, name: Seq<char>, value: Seq<char>|
        (sigil == '?' || sigil == '$') && #[trigger] carries(f, name, value) && #[trigger] mark(
            sigil,
            name,
        ).is_prefix_of(text)
}

/// Whether every piece is right: what is put in is what the finding carries, and nothing is kept
/// that begins a placeholder whose variable the finding carries.
pub open spec fn fit(pieces: Seq<Piece>, f: FindingV) -> bool {
    forall|i: int|
        0 <= i < pieces.len() ==> match #[trigger] pieces[i] {
            Piece::Kept(_) => !begins_bound(all_written(pieces.skip(i)), f),
            Piece::Put { sigil, name, value } => (sigil == '?' || sigil == '$') && carries(
                f,
                name,
                value,
            ),
        }
}

/// Whether pieces make one text of another.
pub open spec fn makes(pieces: Seq<Piece>, text: Seq<char>, out: Seq<char>, f: FindingV) -> bool {
    fit(pieces, f) && all_written(pieces) == text && all_reported(pieces) == out
}

/// Whether `out` is what a template becomes for a finding.
pub open spec fn fills(text: Seq<char>, out: Seq<char>, f: FindingV) -> bool {
    exists|pieces: Seq<Piece>| #[trigger] makes(pieces, text, out, f)
}

proof fn carried_texts(f: FindingV)
    ensures
        carries(f, "this"@, lexical_text(node_term(f.focus))),
        f.value is Some ==> carries(f, "value"@, value_text(f.value)->0),
        f.path is Some ==> carries(f, "path"@, bare_path(f)->0),
        forall|value: Seq<char>| !(f.value is Some) ==> !carries(f, "value"@, value),
        forall|value: Seq<char>| !(f.path is Some) ==> !carries(f, "path"@, value),
{
    reveal_strlit("this");
    reveal_strlit("value");
    reveal_strlit("path");
    assert("this"@[0] != "path"@[0]);
    nodes_are_shown(f.focus);
    if let Some(value) = f.value {
        nodes_are_shown(value);
    }
    if let Some(path) = f.path {
        bare_is_the_inside(path_view(path).text, bare_path(f)->0);
    }
}

proof fn marks_begin(text: Seq<char>, name: Seq<char>)
    ensures
        names(text, name) <==> mark('?', name).is_prefix_of(text) || mark('$', name).is_prefix_of(
            text,
        ),
{
    assert(mark('?', name) =~= placeholder('?', name));
    assert(mark('$', name) =~= placeholder('$', name));
}

proof fn bound_begins(text: Seq<char>, f: FindingV)
    ensures
        begins_bound(text, f) <==> bound(text, f) is Some,
        bound(text, f) matches Some(step) ==> exists|sigil: char, name: Seq<char>|
            (sigil == '?' || sigil == '$') && #[trigger] mark(sigil, name).is_prefix_of(text)
                && carries(f, name, step.1) && step.0 == mark(sigil, name).len(),
{
    carried_texts(f);
    marks_begin(text, "this"@);
    marks_begin(text, "value"@);
    marks_begin(text, "path"@);
    if let Some(step) = bound(text, f) {
        let name = if names(text, "this"@) {
            "this"@
        } else if names(text, "value"@) && f.value is Some {
            "value"@
        } else {
            "path"@
        };
        let sigil = if mark('?', name).is_prefix_of(text) {
            '?'
        } else {
            '$'
        };
        assert(mark(sigil, name).is_prefix_of(text) && carries(f, name, step.1));
        assert(step.0 == mark(sigil, name).len());
    }
    if begins_bound(text, f) {
        let (sigil, name, value) = choose|sigil: char, name: Seq<char>, value: Seq<char>|
            (sigil == '?' || sigil == '$') && #[trigger] carries(f, name, value) && #[trigger] mark(
                sigil,
                name,
            ).is_prefix_of(text);
        assert(names(text, name));
    }
}

/// A template becomes what its placeholders stand for, with all else kept: whatever the finding
/// carries is put in, and a placeholder is left as written only where the finding carries nothing
/// for it.
pub proof fn templates_are_filled(text: Seq<char>, f: FindingV)
    ensures
        fills(text, resolved(text, f), f),
    decreases text.len(),
{
    if text.len() == 0 {
        let none = Seq::<Piece>::empty();
        assert(all_written(none) =~= text);
        assert(makes(none, text, resolved(text, f), f));
    } else {
        bound_begins(text, f);
        match bound(text, f) {
            Some((length, value)) => {
                let (sigil, name) = choose|sigil: char, name: Seq<char>|
                    (sigil == '?' || sigil == '$') && #[trigger] mark(sigil, name).is_prefix_of(
                        text,
                    ) && carries(f, name, value) && length == mark(sigil, name).len();
                let rest = text.skip(length as int);
                assert(length >= 3);
                templates_are_filled(rest, f);
                assert(mark(sigil, name) + rest =~= text);
                one_more(Piece::Put { sigil, name, value }, rest, resolved(rest, f), f);
            },
            None => {
                let rest = text.drop_first();
                templates_are_filled(rest, f);
                assert(seq![text[0]] + rest =~= text);
                one_more(Piece::Kept(text[0]), rest, resolved(rest, f), f);
            },
        }
    }
}

proof fn one_more(piece: Piece, rest: Seq<char>, out: Seq<char>, f: FindingV)
    requires
        fills(rest, out, f),
        match piece {
            Piece::Kept(c) => !begins_bound(seq![c] + rest, f),
            Piece::Put { sigil, name, value } => (sigil == '?' || sigil == '$') && carries(
                f,
                name,
                value,
            ),
        },
    ensures
        fills(written(piece) + rest, reported(piece) + out, f),
{
    let tail = choose|pieces: Seq<Piece>| #[trigger] makes(pieces, rest, out, f);
    let all = seq![piece] + tail;
    assert(all.drop_first() =~= tail);
    more_pieces(all, piece, tail, f);
    assert(makes(all, written(piece) + rest, reported(piece) + out, f));
}

proof fn more_pieces(all: Seq<Piece>, piece: Piece, tail: Seq<Piece>, f: FindingV)
    requires
        all.len() > 0,
        all[0] == piece,
        all.drop_first() == tail,
        fit(tail, f),
        match piece {
            Piece::Kept(c) => !begins_bound(seq![c] + all_written(tail), f),
            Piece::Put { sigil, name, value } => (sigil == '?' || sigil == '$') && carries(
                f,
                name,
                value,
            ),
        },
    ensures
        fit(all, f),
        all_written(all) == written(piece) + all_written(tail),
        all_reported(all) == reported(piece) + all_reported(tail),
{
    assert(all.skip(0) =~= all);
    assert forall|i: int| 0 <= i < all.len() implies match #[trigger] all[i] {
        Piece::Kept(_) => !begins_bound(all_written(all.skip(i)), f),
        Piece::Put { sigil, name, value } => (sigil == '?' || sigil == '$') && carries(
            f,
            name,
            value,
        ),
    } by {
        if i > 0 {
            assert(all[i] == tail[i - 1]);
            assert(all.skip(i) =~= tail.skip(i - 1));
        }
    }
}

/// Whether one text comes before another or is it: they agree up to a place at which the first
/// ends, or has the lower character.
pub open spec fn text_le(a: Seq<char>, b: Seq<char>) -> bool {
    exists|k: int| #[trigger] parts_at(a, b, k)
}

/// Whether `a` parts from `b` at a place, and comes first by it.
pub open spec fn parts_at(a: Seq<char>, b: Seq<char>, k: int) -> bool {
    &&& 0 <= k <= a.len()
    &&& k <= b.len()
    &&& a.take(k) == b.take(k)
    &&& k == a.len() || k < b.len() && a[k] < b[k]
}

/// Texts are ordered character by character.
pub proof fn texts_are_ordered(a: Seq<char>, b: Seq<char>)
    ensures
        text_order(a, b) <= 0 <==> text_le(a, b),
    decreases a.len(),
{
    if a.len() == 0 {
        assert(a.take(0) =~= b.take(0));
        assert(parts_at(a, b, 0));
    } else if b.len() == 0 {
        assert forall|k: int| !#[trigger] parts_at(a, b, k) by {}
    } else if a[0] == b[0] {
        let (x, y) = (a.drop_first(), b.drop_first());
        texts_are_ordered(x, y);
        if text_le(x, y) {
            let k = choose|k: int| #[trigger] parts_at(x, y, k);
            assert forall|i: int| 0 <= i < k + 1 implies #[trigger] a.take(k + 1)[i]
                == b.take(k + 1)[i] by {
                if i > 0 {
                    assert(x.take(k)[i - 1] == y.take(k)[i - 1]);
                }
            }
            assert(a.take(k + 1) =~= b.take(k + 1));
            assert(parts_at(a, b, k + 1));
        }
        if text_le(a, b) {
            let k = choose|k: int| #[trigger] parts_at(a, b, k);
            assert(k > 0);
            assert forall|i: int| 0 <= i < k - 1 implies #[trigger] x.take(k - 1)[i]
                == y.take(k - 1)[i] by {
                assert(a.take(k)[i + 1] == b.take(k)[i + 1]);
            }
            assert(x.take(k - 1) =~= y.take(k - 1));
            assert(parts_at(x, y, k - 1));
        }
    } else {
        assert(a.take(0) =~= b.take(0));
        if a[0] < b[0] {
            assert(parts_at(a, b, 0));
        }
        if text_le(a, b) {
            let k = choose|k: int| #[trigger] parts_at(a, b, k);
            if k > 0 {
                assert(a.take(k)[0] == b.take(k)[0]);
            }
        }
    }
}

/// Whether one optional text comes before another or is it: none comes first.
pub open spec fn option_le(a: Option<Seq<char>>, b: Option<Seq<char>>) -> bool {
    a is None || b is Some && text_le(a->0, b->0)
}

/// Whether one language tag comes before another or is it: a tag comes before none.
pub open spec fn tag_le(a: Option<Seq<char>>, b: Option<Seq<char>>) -> bool {
    b is None || a is Some && text_le(a->0, b->0)
}

/// Language tags are ordered by their text, and before none.
pub proof fn tags_are_ordered(a: Option<Seq<char>>, b: Option<Seq<char>>)
    ensures
        tag_order(a, b) <= 0 <==> tag_le(a, b),
{
    if a is Some && b is Some {
        texts_are_ordered(a->0, b->0);
    }
}

/// The place of a kind of term: IRIs, blank nodes, literals, quoted triples.
pub open spec fn kind_place(t: TermV) -> int {
    match t {
        TermV::Uri(_) => 0,
        TermV::Bnode(_) => 1,
        TermV::Literal { .. } => 2,
        TermV::Triple { .. } => 3,
    }
}

/// Whether one term comes before another or is it.
pub open spec fn term_le(a: TermV, b: TermV) -> bool
    decreases a,
{
    match (a, b) {
        (TermV::Uri(x), TermV::Uri(y)) => text_le(x, y),
        (TermV::Bnode(x), TermV::Bnode(y)) => text_le(x, y),
        (
            TermV::Literal { value: v1, lang: l1, datatype: d1 },
            TermV::Literal { value: v2, lang: l2, datatype: d2 },
        ) => {
            &&& text_le(v1, v2)
            &&& v1 == v2 ==> option_le(l1, l2)
            &&& v1 == v2 && l1 == l2 ==> option_le(d1, d2)
        },
        (
            TermV::Triple { subject: s1, predicate: p1, object: o1 },
            TermV::Triple { subject: s2, predicate: p2, object: o2 },
        ) => {
            &&& term_le(*s1, *s2)
            &&& *s1 == *s2 ==> term_le(*p1, *p2)
            &&& *s1 == *s2 && *p1 == *p2 ==> term_le(*o1, *o2)
        },
        _ => kind_place(a) < kind_place(b),
    }
}

/// Terms are ordered by their kinds, and then by their parts.
pub proof fn terms_are_ordered(a: TermV, b: TermV)
    ensures
        term_order(a, b) <= 0 <==> term_le(a, b),
    decreases a,
{
    term_order_laws(a, b, a);
    match (a, b) {
        (TermV::Uri(x), TermV::Uri(y)) => {
            texts_are_ordered(x, y);
        },
        (TermV::Bnode(x), TermV::Bnode(y)) => {
            texts_are_ordered(x, y);
        },
        (
            TermV::Literal { value: v1, lang: l1, datatype: d1 },
            TermV::Literal { value: v2, lang: l2, datatype: d2 },
        ) => {
            texts_are_ordered(v1, v2);
            text_order_laws(v1, v2, v1);
            options_are_ordered(l1, l2);
            options_are_ordered(d1, d2);
        },
        (
            TermV::Triple { subject: s1, predicate: p1, object: o1 },
            TermV::Triple { subject: s2, predicate: p2, object: o2 },
        ) => {
            terms_are_ordered(*s1, *s2);
            terms_are_ordered(*p1, *p2);
            terms_are_ordered(*o1, *o2);
            term_order_laws(*s1, *s2, *s1);
            term_order_laws(*p1, *p2, *p1);
        },
        _ => {},
    }
}

proof fn options_are_ordered(a: Option<Seq<char>>, b: Option<Seq<char>>)
    ensures
        text_option_order(a, b) <= 0 <==> option_le(a, b),
        text_option_order(a, b) == 0 <==> a == b,
{
    crate::term::text_option_order_laws(a, b, a);
    if a is Some && b is Some {
        texts_are_ordered(a->0, b->0);
    }
}

/// Whether one optional term comes before another or is it: none comes first.
pub open spec fn term_option_le(a: Option<TermV>, b: Option<TermV>) -> bool {
    a is None || b is Some && term_le(a->0, b->0)
}

/// Whether one entry of a report comes before another or is it: by focus node, path, component,
/// message and value.
pub open spec fn entry_le(a: ResultV, b: ResultV) -> bool {
    &&& text_le(a.focus_node, b.focus_node)
    &&& a.focus_node == b.focus_node ==> option_le(a.path, b.path)
    &&& a.focus_node == b.focus_node && a.path == b.path ==> text_le(a.component, b.component)
    &&& a.focus_node == b.focus_node && a.path == b.path && a.component == b.component
        ==> term_option_le(a.message, b.message)
    &&& a.focus_node == b.focus_node && a.path == b.path && a.component == b.component && a.message
        == b.message ==> term_option_le(a.value, b.value)
}

/// Entries are ordered field by field.
pub proof fn entries_are_ordered(a: ResultV, b: ResultV)
    ensures
        result_order(a, b) <= 0 <==> entry_le(a, b),
{
    texts_are_ordered(a.focus_node, b.focus_node);
    text_order_laws(a.focus_node, b.focus_node, a.focus_node);
    options_are_ordered(a.path, b.path);
    texts_are_ordered(a.component, b.component);
    text_order_laws(a.component, b.component, a.component);
    crate::term::term_option_order_laws(a.message, b.message, a.message);
    crate::term::term_option_order_laws(a.value, b.value, a.value);
    if a.message is Some && b.message is Some {
        terms_are_ordered(a.message->0, b.message->0);
    }
    if a.value is Some && b.value is Some {
        terms_are_ordered(a.value->0, b.value->0);
    }
}

} // verus!
