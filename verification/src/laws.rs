//! What holds of the library as a whole.

#[allow(unused_imports)]
use rudof_rdf::rdf_core::term::literal::ConcreteLiteral;
use shacl::validator::report::ValidationReport;
use vstd::prelude::*;
use vstd::relations::sorted_by;

#[allow(unused_imports)]
use crate::{
    arrange::{in_order, in_order_forgets_order, told_apart},
    canonical::{are_lines, canonical_text_is_canonical, line, line_decodes},
    endpoint::{description_view, faces, is_inline, with_charset},
    engine::run_outcome,
    error::ErrorV,
    face::{
        asks_json, before_semicolon, face_outcome, json_text, repr_view, report_data,
        representation_outcome, resolved_findings, resolves_to, validate_report_outcome,
        RepresentationV, JSON, TURTLE,
    },
    finding::{findings_view, path_view, report_conforms, FindingV, Messages},
    graph::{stored_triple, triple_parts, turtle_documents},
    label::{encoded_label, is_label_char},
    order::{at_most, lists, mapped_items_agree, ranked_forgets_order, ranked_is_the_sorting},
    rdf::{literal_form, literal_lang, node_term, resource_term, NodeV, ResourceV, XSD_STRING},
    report::{
        is_first_tag, outcome_view, report_view, reported_message, result_order, result_view,
        signature_view, tag_order, tag_order_laws, ReportResult, ReportV, ResultV, Violation,
    },
    roundtrip::json_text_tells_the_report,
    skolem::{
        graph_text, graph_text_of_listing, named_resource, named_triple, report_scheme,
        skolem_graph, triple_line, REPORT_SCHEME,
    },
    template::{
        bare_path, bare_text, bound, names, placeholder, resolved, resolved_finding, value_text,
    },
    term::{lexical_text, TermV},
    text::{holds_at, is_space, occurs, trimmed, trimmed_start},
    turtle::{
        finding_written, report_graph, report_prefixes, report_written, result_written,
        root_written, says, says_text, served, turtle_outcome, unquoted, writable,
    },
};

verus! {

/// A report is deterministic: it does not depend on the order in which the findings come.
pub proof fn report_forgets_order(conforms: bool, a: Seq<FindingV>, b: Seq<FindingV>)
    requires
        a.to_multiset() == b.to_multiset(),
    ensures
        report_view(conforms, a) == report_view(conforms, b),
{
    let f = |f: FindingV| result_view(f);
    mapped_items_agree(a, b, f);
    ranked_forgets_order::<ReportResult>(a.map_values(f), b.map_values(f));
}

/// A report has an entry for each finding, and is sorted by its fields in their order.
pub proof fn report_is_sorted(conforms: bool, findings: Seq<FindingV>)
    ensures
        report_view(conforms, findings).conforms == conforms,
        report_view(conforms, findings).violations.to_multiset() == findings.map_values(
            |f: FindingV| result_view(f),
        ).to_multiset(),
        forall|i: int, j: int|
            0 <= i < j < report_view(conforms, findings).violations.len() ==> result_order(
                #[trigger] report_view(conforms, findings).violations[i],
                #[trigger] report_view(conforms, findings).violations[j],
            ) <= 0,
{
    let results = findings.map_values(|f: FindingV| result_view(f));
    ranked_is_the_sorting::<ReportResult>(results, results);
    let sorted = report_view(conforms, findings).violations;
    let leq = at_most::<ReportResult>();
    assert forall|i: int, j: int| 0 <= i < j < sorted.len() implies result_order(
        #[trigger] sorted[i],
        #[trigger] sorted[j],
    ) <= 0 by {
        assert(leq(sorted[i], sorted[j]));
    }
}

/// A signature is the first three keys of a result: the outcome of a report lists the
/// signatures of its entries in the order of the entries.
pub proof fn outcome_lists_the_signatures(conforms: bool, findings: Seq<FindingV>)
    ensures
        outcome_view(report_view(conforms, findings)).conforms == conforms,
        outcome_view(report_view(conforms, findings)).violations == report_view(
            conforms,
            findings,
        ).violations.map_values(|r: ResultV| signature_view(r)),
{
    let results = report_view(conforms, findings).violations;
    let signatures = results.map_values(|r: ResultV| signature_view(r));
    report_is_sorted(conforms, findings);
    let leq = at_most::<Violation>();
    assert(sorted_by(signatures, leq)) by {
        assert forall|i: int, j: int| 0 <= i < j < signatures.len() implies #[trigger] leq(
            signatures[i],
            signatures[j],
        ) by {
            assert(result_order(results[i], results[j]) <= 0);
        }
    }
    ranked_is_the_sorting::<Violation>(signatures, signatures);
}

/// Messages that are there have a first tag.
proof fn first_tag_exists(messages: Messages, dom: Set<Option<Seq<char>>>)
    requires
        dom.finite(),
        dom.len() > 0,
        dom.subset_of(messages.dom()),
    ensures
        exists|tag: Option<Seq<char>>| #[trigger]
            dom.contains(tag) && forall|other: Option<Seq<char>>| #[trigger]
                dom.contains(other) ==> tag_order(tag, other) <= 0,
    decreases dom.len(),
{
    let one = dom.choose();
    let rest = dom.remove(one);
    if rest.len() == 0 {
        assert(rest =~= Set::empty());
        assert forall|other: Option<Seq<char>>| #[trigger] dom.contains(other) implies tag_order(
            one,
            other,
        ) <= 0 by {
            assert(!rest.contains(other));
            tag_order_laws(one, other, one);
        }
        assert(dom.contains(one));
    } else {
        first_tag_exists(messages, rest);
        let least = choose|tag: Option<Seq<char>>| #[trigger]
            rest.contains(tag) && forall|other: Option<Seq<char>>| #[trigger]
                rest.contains(other) ==> tag_order(tag, other) <= 0;
        let first = if tag_order(one, least) <= 0 {
            one
        } else {
            least
        };
        tag_order_laws(one, least, one);
        assert forall|other: Option<Seq<char>>| #[trigger] dom.contains(other) implies tag_order(
            first,
            other,
        ) <= 0 by {
            tag_order_laws(one, one, one);
            if rest.contains(other) {
                tag_order_laws(one, least, other);
            } else {
                assert(other == one);
            }
        }
        assert(dom.contains(first));
    }
}

/// The message that a report shows is one that the result has. There is none only where the
/// result has none. A tagged message beats an untagged one, and of tagged ones the lowest tag
/// is shown.
pub proof fn reported_message_is_the_first(messages: Messages)
    requires
        messages.dom().finite(),
    ensures
        reported_message(messages) is None <==> messages.dom() == Set::<Option<Seq<char>>>::empty(),
        reported_message(messages) matches Some(term) ==> {
            &&& term is Literal
            &&& term->datatype is None
            &&& messages.contains_key(term->lang)
            &&& messages[term->lang] == term->Literal_value
            &&& term->lang is None ==> forall|tag: Seq<char>| !messages.contains_key(Some(tag))
            &&& term->lang matches Some(shown) ==> forall|tag: Seq<char>|
                messages.contains_key(Some(tag)) ==> crate::text::text_order(shown, tag) <= 0
        },
{
    let dom = messages.dom();
    if dom != Set::<Option<Seq<char>>>::empty() {
        assert(dom.len() > 0) by {
            if dom.len() == 0 {
                assert(dom =~= Set::empty());
            }
        }
        first_tag_exists(messages, dom);
        let tag = choose|tag: Option<Seq<char>>| #[trigger]
            dom.contains(tag) && forall|other: Option<Seq<char>>| #[trigger]
                dom.contains(other) ==> tag_order(tag, other) <= 0;
        assert(is_first_tag(messages, tag)) by {
            assert forall|other: Option<Seq<char>>| #[trigger]
                messages.contains_key(other) implies tag_order(tag, other) <= 0 by {
                assert(dom.contains(other));
            }
        }
        let shown = choose|tag: Option<Seq<char>>| is_first_tag(messages, tag);
        assert forall|tag: Seq<char>| messages.contains_key(Some(tag)) implies tag_order(
            shown,
            Some(tag),
        ) <= 0 by {}
    }
}

/// What occurs in the rest of a text occurs in the text.
proof fn occurs_in_rest(part: Seq<char>, text: Seq<char>)
    requires
        text.len() > 0,
        occurs(part, text.drop_first()),
    ensures
        occurs(part, text),
{
    let rest = text.drop_first();
    let at = choose|at: int| 0 <= at && #[trigger] holds_at(rest, part, at);
    assert(text.subrange(at + 1, at + 1 + part.len()) =~= rest.subrange(at, at + part.len()));
    assert(holds_at(text, part, at + 1));
}

/// Whether a text holds a placeholder of a variable.
pub open spec fn mentions(text: Seq<char>, name: Seq<char>) -> bool {
    occurs(placeholder('?', name), text) || occurs(placeholder('$', name), text)
}

/// A message without placeholders is reported as it is written.
pub proof fn plain_messages_stay(text: Seq<char>, f: FindingV)
    requires
        !mentions(text, "this"@),
        !mentions(text, "value"@),
        !mentions(text, "path"@),
    ensures
        resolved(text, f) == text,
{
    unbound_placeholders_stay(text, f);
}

/// A template that mentions no variable that the result carries is reported as it is written.
pub proof fn unbound_placeholders_stay(text: Seq<char>, f: FindingV)
    requires
        !mentions(text, "this"@),
        f.value is None || !mentions(text, "value"@),
        f.path is None || !mentions(text, "path"@),
    ensures
        resolved(text, f) == text,
    decreases text.len(),
{
    if text.len() > 0 {
        let rest = text.drop_first();
        if mentions(rest, "this"@) {
            if occurs(placeholder('?', "this"@), rest) {
                occurs_in_rest(placeholder('?', "this"@), text);
            } else {
                occurs_in_rest(placeholder('$', "this"@), text);
            }
        }
        if mentions(rest, "value"@) {
            if occurs(placeholder('?', "value"@), rest) {
                occurs_in_rest(placeholder('?', "value"@), text);
            } else {
                occurs_in_rest(placeholder('$', "value"@), text);
            }
        }
        if mentions(rest, "path"@) {
            if occurs(placeholder('?', "path"@), rest) {
                occurs_in_rest(placeholder('?', "path"@), text);
            } else {
                occurs_in_rest(placeholder('$', "path"@), text);
            }
        }
        unbound_placeholders_stay(rest, f);
        assert(seq![text[0]] + rest =~= text);
    }
}

/// The variables of a template.
pub open spec fn is_variable(name: Seq<char>) -> bool {
    name == "this"@ || name == "value"@ || name == "path"@
}

/// What a result carries for a variable, if anything.
pub open spec fn carried(f: FindingV, name: Seq<char>) -> Option<Seq<char>> {
    if name == "this"@ {
        Some(lexical_text(node_term(f.focus)))
    } else if name == "value"@ {
        value_text(f.value)
    } else {
        bare_path(f)
    }
}

/// The names of the variables have different first characters and no brace.
proof fn variables_differ()
    ensures
        "this"@.len() == 4 && "value"@.len() == 5 && "path"@.len() == 4,
        "this"@[0] == 't' && "value"@[0] == 'v' && "path"@[0] == 'p',
        forall|i: int| 0 <= i < 4 ==> #[trigger] "this"@[i] != '{',
        forall|i: int| 0 <= i < 5 ==> #[trigger] "value"@[i] != '{',
        forall|i: int| 0 <= i < 4 ==> #[trigger] "path"@[i] != '{',
{
    reveal_strlit("this");
    reveal_strlit("value");
    reveal_strlit("path");
}

/// A placeholder at the start of a text does not reach past a brace that opens.
proof fn placeholders_end(before: Seq<char>, after: Seq<char>, name: Seq<char>)
    requires
        is_variable(name),
        before.len() > 0,
        after.len() == 0 || after[0] == '{',
    ensures
        names(before + after, name) == names(before, name),
{
    variables_differ();
    let text = before + after;
    assert forall|sigil: char| sigil == '?' || sigil == '$' implies #[trigger] holds_at(
        text,
        placeholder(sigil, name),
        0,
    ) == holds_at(before, placeholder(sigil, name), 0) by {
        let p = placeholder(sigil, name);
        let n = p.len() as int;
        if n <= before.len() {
            assert(text.subrange(0, n) =~= before.subrange(0, n));
        } else if n <= text.len() && text.subrange(0, n) == p {
            let k = before.len() as int;
            assert(p[k] == text[k]);
            assert(text[k] == after[0]);
            assert(k == 1 || k == n - 1 || p[k] == name[k - 2]);
        }
    }
    assert(holds_at(text, placeholder('?', name), 0) == holds_at(before, placeholder('?', name), 0));
    assert(holds_at(text, placeholder('$', name), 0) == holds_at(before, placeholder('$', name), 0));
}

/// A template is resolved in parts: what stands before a brace that opens, and what follows.
pub proof fn templates_are_resolved_in_parts(before: Seq<char>, after: Seq<char>, f: FindingV)
    requires
        after.len() == 0 || after[0] == '{',
    ensures
        resolved(before + after, f) == resolved(before, f) + resolved(after, f),
    decreases before.len(),
{
    let text = before + after;
    if before.len() == 0 {
        assert(text =~= after);
        assert(resolved(before, f) + resolved(after, f) =~= resolved(after, f));
    } else {
        variables_differ();
        placeholders_end(before, after, "this"@);
        placeholders_end(before, after, "value"@);
        placeholders_end(before, after, "path"@);
        assert(bound(text, f) == bound(before, f));
        match bound(before, f) {
            Some((length, value)) => {
                let rest = before.skip(length as int);
                assert(text.skip(length as int) =~= rest + after);
                templates_are_resolved_in_parts(rest, after, f);
                assert(value + (resolved(rest, f) + resolved(after, f)) =~= value + resolved(
                    rest,
                    f,
                ) + resolved(after, f));
            },
            None => {
                let rest = before.drop_first();
                assert(text.drop_first() =~= rest + after);
                assert(text[0] == before[0]);
                templates_are_resolved_in_parts(rest, after, f);
                assert(seq![text[0]] + (resolved(rest, f) + resolved(after, f)) =~= seq![before[0]]
                    + resolved(rest, f) + resolved(after, f));
            },
        }
    }
}

/// A text that opens no brace is kept.
proof fn plain_starts_stay(before: Seq<char>, after: Seq<char>, f: FindingV)
    requires
        forall|i: int| 0 <= i < before.len() ==> #[trigger] before[i] != '{',
    ensures
        resolved(before + after, f) == before + resolved(after, f),
    decreases before.len(),
{
    let text = before + after;
    if before.len() == 0 {
        assert(text =~= after);
    } else {
        assert forall|sigil: char, name: Seq<char>| !#[trigger] holds_at(
            text,
            placeholder(sigil, name),
            0,
        ) by {
            let p = placeholder(sigil, name);
            if holds_at(text, p, 0) {
                assert(text.subrange(0, p.len() as int)[0] == text[0]);
                assert(text[0] == before[0]);
            }
        }
        let rest = before.drop_first();
        assert(text.drop_first() =~= rest + after);
        plain_starts_stay(rest, after, f);
        assert(seq![before[0]] + (rest + resolved(after, f)) =~= before + resolved(after, f));
    }
}

/// Wherever a template has a placeholder, the report has what the result carries for its
/// variable, whatever that text holds; a placeholder whose variable the result does not carry
/// is left as written. What stands around it is resolved on its own.
pub proof fn placeholders_name_what_is_carried(
    sigil: char,
    name: Seq<char>,
    before: Seq<char>,
    after: Seq<char>,
    f: FindingV,
)
    requires
        sigil == '?' || sigil == '$',
        is_variable(name),
    ensures
        resolved(before + (placeholder(sigil, name) + after), f) == resolved(before, f) + ((
        match carried(f, name) {
            Some(value) => value,
            None => placeholder(sigil, name),
        }) + resolved(after, f)),
{
    variables_differ();
    let p = placeholder(sigil, name);
    let text = p + after;
    templates_are_resolved_in_parts(before, text, f);
    assert(text.subrange(0, p.len() as int) =~= p);
    assert(holds_at(text, p, 0));
    assert(names(text, name));
    assert forall|other: Seq<char>| is_variable(other) && other != name implies !#[trigger] names(
        text,
        other,
    ) by {
        assert forall|s: char| !#[trigger] holds_at(text, placeholder(s, other), 0) by {
            let q = placeholder(s, other);
            if holds_at(text, q, 0) {
                assert(text.subrange(0, q.len() as int)[2] == text[2]);
                assert(q[2] == other[0] && text[2] == p[2] && p[2] == name[0]);
            }
        }
    }
    if carried(f, name) is Some {
        assert(text.skip(p.len() as int) =~= after);
        assert(bound(text, f) == Some((p.len(), carried(f, name)->0)));
    } else {
        assert(bound(text, f) is None);
        let rest = p.drop_first();
        assert(text.drop_first() =~= rest + after);
        assert forall|i: int| 0 <= i < rest.len() implies #[trigger] rest[i] != '{' by {
            assert(rest[i] == p[i + 1]);
            assert(i == 0 || i == rest.len() - 1 || p[i + 1] == name[i - 1]);
        }
        plain_starts_stay(rest, after, f);
        assert(seq![text[0]] + (rest + resolved(after, f)) =~= p + resolved(after, f));
    }
}

/// Each name that is minted tells the content address it was minted under and the label it was
/// minted for: within one graph no two labels share a name, and graphs with different
/// addresses never share one.
pub proof fn names_tell_address_and_label(
    a: Seq<char>,
    l: Seq<char>,
    b: Seq<char>,
    m: Seq<char>,
)
    requires
        REPORT_SCHEME@ + a + ":"@ + encoded_label(l) == REPORT_SCHEME@ + b + ":"@ + encoded_label(
            m,
        ),
    ensures
        a == b,
        l == m,
{
    reveal_strlit(":");
    let (p, c) = (REPORT_SCHEME@, ":"@);
    let (x, y) = (encoded_label(l), encoded_label(m));
    let w = p + a + c + x;
    crate::label::encoded_label_alphabet(l);
    crate::label::encoded_label_alphabet(m);
    assert(w =~= p + (a + c + x));
    assert(p + b + c + y =~= p + (b + c + y));
    crate::decode::cancel(p, a + c + x, b + c + y);
    let v = a + c + x;
    assert(v[a.len() as int] == ':');
    assert(v[b.len() as int] == ':');
    if a.len() < b.len() {
        assert(v[b.len() as int] == x[b.len() - a.len() - 1]);
        assert(is_label_char(x[b.len() - a.len() - 1]));
    }
    if b.len() < a.len() {
        assert(v[a.len() as int] == y[a.len() - b.len() - 1]);
        assert(is_label_char(y[a.len() - b.len() - 1]));
    }
    assert(a =~= v.take(a.len() as int));
    assert(b =~= v.take(b.len() as int));
    assert(x =~= v.skip(a.len() as int + 1));
    assert(y =~= v.skip(b.len() as int + 1));
    crate::label::encoded_label_decodes(l, m);
}

/// The terms of a triple of the store.
pub open spec fn triple_terms(triple: oxrdf::Triple) -> (TermV, Seq<char>, TermV) {
    let parts = triple_parts(triple);
    (resource_term(parts.0), parts.1, node_term(parts.2->0))
}

/// Sequences that hold the same items when each is mapped, by a map that tells them apart, hold
/// the same items.
proof fn unmapped_items_agree<A, B>(a: Seq<A>, b: Seq<A>, f: spec_fn(A) -> B)
    requires
        forall|x: A, y: A| #[trigger] f(x) == #[trigger] f(y) ==> x == y,
        a.map_values(f).to_multiset() == b.map_values(f).to_multiset(),
    ensures
        a.to_multiset() == b.to_multiset(),
    decreases a.len(),
{
    broadcast use vstd::seq_lib::group_to_multiset_ensures;

    let (fa, fb) = (a.map_values(f), b.map_values(f));
    assert(fa.len() == fa.to_multiset().len());
    assert(fb.len() == fb.to_multiset().len());
    if a.len() == 0 {
        assert(a =~= b);
    } else {
        let last = a.last();
        assert(fa.contains(f(last))) by {
            assert(fa[a.len() - 1] == f(last));
        }
        assert(fb.to_multiset().count(f(last)) > 0);
        assert(fb.contains(f(last)));
        let at = choose|i: int| 0 <= i < fb.len() && fb[i] == f(last);
        assert(b[at] == last);
        let (c, d) = (a.drop_last(), b.remove(at));
        assert(a =~= c.push(last));
        assert(b =~= d.insert(at, last));
        assert(fa =~= c.map_values(f).push(f(last)));
        assert(fb =~= d.map_values(f).insert(at, f(last)));
        vstd::seq_lib::to_multiset_insert(d.map_values(f), at, f(last));
        assert(c.map_values(f).to_multiset() =~= fa.to_multiset().remove(f(last)));
        assert(d.map_values(f).to_multiset() =~= fb.to_multiset().remove(f(last)));
        unmapped_items_agree(c, d, f);
        vstd::seq_lib::to_multiset_insert(d, at, last);
        assert(a.to_multiset() =~= b.to_multiset());
    }
}

/// Equal graphs render equally and unequal ones do not: two graphs have one canonical text if
/// and only if they hold the same terms in the same triples, in whatever order the store hands
/// them out.
pub proof fn graph_text_tells_graphs(
    a: Seq<oxrdf::Triple>,
    s: Set<oxrdf::Triple>,
    b: Seq<oxrdf::Triple>,
    t: Set<oxrdf::Triple>,
)
    requires
        lists(a, s),
        lists(b, t),
    ensures
        graph_text(s) == graph_text(t) <==> a.map_values(
            |x: oxrdf::Triple| triple_terms(x),
        ).to_multiset() == b.map_values(|x: oxrdf::Triple| triple_terms(x)).to_multiset(),
{
    let terms = |x: oxrdf::Triple| triple_terms(x);
    let lined = |x: oxrdf::Triple| triple_line(x);
    let render = |x: (TermV, Seq<char>, TermV)| line(x.0, x.1, x.2);
    let (ta, tb) = (a.map_values(terms), b.map_values(terms));
    let (la, lb) = (a.map_values(lined), b.map_values(lined));
    graph_text_of_listing(a, s);
    graph_text_of_listing(b, t);
    assert(la =~= ta.map_values(render));
    assert(lb =~= tb.map_values(render));
    lines_are_lines(ta);
    lines_are_lines(tb);
    canonical_text_is_canonical(la, lb);
    if ta.to_multiset() == tb.to_multiset() {
        mapped_items_agree(ta, tb, render);
    }
    if la.to_multiset() == lb.to_multiset() {
        assert forall|x: (TermV, Seq<char>, TermV), y: (TermV, Seq<char>, TermV)| #[trigger]
            render(x) == #[trigger] render(y) implies x == y by {
            line_decodes(x.0, x.1, x.2, y.0, y.1, y.2);
        }
        unmapped_items_agree(ta, tb, render);
    }
}

proof fn lines_are_lines(triples: Seq<(TermV, Seq<char>, TermV)>)
    ensures
        are_lines(triples.map_values(|x: (TermV, Seq<char>, TermV)| line(x.0, x.1, x.2))),
{
    let lines = triples.map_values(|x: (TermV, Seq<char>, TermV)| line(x.0, x.1, x.2));
    assert forall|i: int| 0 <= i < lines.len() implies crate::canonical::unbroken(
        #[trigger] lines[i],
    ) && lines[i].len() > 0 by {
        crate::canonical::line_is_a_line(triples[i].0, triples[i].1, triples[i].2);
    }
}

/// Whether a graph says of a node what the JSON entry of a finding says: the message with its
/// tag, the value, and the path, by its IRI where it is a single predicate.
pub open spec fn entry_agrees(
    triples: Set<oxrdf::Triple>,
    node: ResourceV,
    f: FindingV,
) -> bool {
    let entry = result_view(f);
    &&& entry.message matches Some(message) ==> says_text(
        triples,
        node,
        "http://www.w3.org/ns/shacl#resultMessage"@,
        message->Literal_value,
        message->lang,
    )
    &&& entry.value matches Some(value) ==> value == node_term(f.value->0) && says(
        triples,
        node,
        "http://www.w3.org/ns/shacl#value"@,
        f.value->0,
    )
    &&& entry.path matches Some(path) ==> {
        let shown = path_view(f.path->0);
        &&& path == bare_text(shown.text)
        &&& exists|object: NodeV|
            #[trigger] says(triples, node, "http://www.w3.org/ns/shacl#resultPath"@, object)
        &&& shown.plain ==> says(
            triples,
            node,
            "http://www.w3.org/ns/shacl#resultPath"@,
            NodeV::Iri(shown.text),
        )
    }
}

/// Both faces carry the same facts: what the JSON entry of a finding says, the graph says of a
/// node among the results, where the graph reports that the data does not conform. The message
/// is the resolved one, with its tag; the value is there, and the path, by its IRI where it is a
/// single predicate.
pub proof fn faces_agree(triples: Set<oxrdf::Triple>, findings: Seq<FindingV>, i: int)
    requires
        report_written(triples, false, findings),
        0 <= i < findings.len(),
        findings[i].messages.dom().finite(),
    ensures
        exists|label: Seq<char>| #[trigger]
            result_written(triples, ResourceV::Blank(label), findings[i]) && entry_agrees(
                triples,
                ResourceV::Blank(label),
                findings[i],
            ),
{
    let root = choose|label: Seq<char>| #[trigger]
        root_written(triples, ResourceV::Blank(label), false, findings);
    assert(finding_written(triples, ResourceV::Blank(root), findings[i]));
    let label = choose|label: Seq<char>| #[trigger]
        result_written(triples, ResourceV::Blank(label), findings[i]) && says(
            triples,
            ResourceV::Blank(root),
            "http://www.w3.org/ns/shacl#result"@,
            NodeV::Blank(label),
        );
    reported_message_is_the_first(findings[i].messages);
    assert(result_written(triples, ResourceV::Blank(label), findings[i]));
}

/// The media type of JSON asks for the JSON face, and that of Turtle does not; parameters make
/// no difference to the first.
pub proof fn faces_are_asked_for_by_name(parameters: Seq<char>)
    ensures
        asks_json(JSON@),
        asks_json(JSON@ + ";"@ + parameters),
        !asks_json(TURTLE@),
{
    reveal_strlit("application/json");
    reveal_strlit("text/turtle");
    reveal_strlit(";");
    essence_of(JSON@, Seq::empty());
    essence_of(TURTLE@, Seq::empty());
    essence_of(JSON@, ";"@ + parameters);
    assert(JSON@ + Seq::<char>::empty() =~= JSON@);
    assert(TURTLE@ + Seq::<char>::empty() =~= TURTLE@);
    assert(JSON@ + (";"@ + parameters) =~= JSON@ + ";"@ + parameters);
    assert(trimmed(JSON@) == JSON@);
    assert(trimmed(TURTLE@) == TURTLE@);
    assert(JSON@[0] == 'a' && TURTLE@[0] == 't');
}

/// What stands before a semicolon, or before the end.
proof fn essence_of(media: Seq<char>, rest: Seq<char>)
    requires
        forall|i: int| 0 <= i < media.len() ==> #[trigger] media[i] != ';',
        rest.len() == 0 || rest[0] == ';',
    ensures
        before_semicolon(media + rest) == media,
    decreases media.len(),
{
    if media.len() == 0 {
        assert(media + rest =~= rest);
        assert(before_semicolon(rest) =~= media);
    } else {
        essence_of(media.drop_first(), rest);
        assert((media + rest).drop_first() =~= media.drop_first() + rest);
        assert(seq![media[0]] + media.drop_first() =~= media);
    }
}

/// Every face that is served is one that `as` lists, and is a declared output; `as` lists
/// exactly the declared outputs; and what is asked for is what is served.
pub proof fn served_faces_are_declared(
    report: ValidationReport,
    as_type: Seq<char>,
    r: Result<RepresentationV, ErrorV>,
)
    requires
        face_outcome(report, as_type, r),
    ensures
        description_view().inputs[2].one_of == faces(),
        description_view().outputs == faces().map_values(|media: Seq<char>| with_charset(media)),
        r matches Ok(representation) ==> {
            &&& faces().contains(representation.media)
            &&& description_view().outputs.contains(with_charset(representation.media))
            &&& representation.media == (if asks_json(as_type) {
                JSON@
            } else {
                TURTLE@
            })
            &&& representation.charset == "utf-8"@
            &&& representation.cacheable
        },
{
    let outputs = description_view().outputs;
    assert(faces()[0] == TURTLE@ && faces()[1] == JSON@);
    assert(outputs[0] == with_charset(TURTLE@) && outputs[1] == with_charset(JSON@));
}

/// A reference without white space is not taken for inline Turtle, unless it opens as Turtle
/// does.
pub proof fn references_are_not_inline(s: Seq<char>)
    requires
        s.len() > 0,
        forall|i: int| 0 <= i < s.len() ==> !is_space(#[trigger] s[i]),
        s[0] != '@' && s[0] != '<' && s[0] != '#',
        s.len() > 1 ==> s[0] != '_' || s[1] != ':',
    ensures
        !is_inline(s),
{
    assert(!is_space(s[0]));
}

/// A text that holds white space past its beginning is inline Turtle.
pub proof fn spaced_text_is_inline(s: Seq<char>, i: int)
    requires
        0 < i < s.len(),
        !is_space(s[0]),
        is_space(s[i]),
    ensures
        is_inline(s),
{
    assert(trimmed_start(s) == s);
}

/// Every fact of a report graph is in the graph that is served, with nothing but its blank
/// nodes renamed; a fact without blank nodes is there as it was read. A literal of a type that
/// the store knows is read by its value, so that `"1"^^xsd:boolean` is read, and stored, as
/// `true`.
pub proof fn every_fact_is_served(
    triples: Set<oxrdf::Triple>,
    served: Set<oxrdf::Triple>,
    triple: oxrdf::Triple,
)
    requires
        skolem_graph(triples) == Ok::<Set<oxrdf::Triple>, ErrorV>(served),
        triples.contains(triple),
    ensures
        served.contains(named_triple(triple, report_scheme(triples))),
        triple_parts(triple).0 is Iri && !(triple_parts(triple).2->0 is Blank) ==> served.contains(
            stored_triple(
                triple_parts(triple).0,
                triple_parts(triple).1,
                triple_parts(triple).2->0,
            ),
        ),
{
    let scheme = report_scheme(triples);
    let name = |t: oxrdf::Triple| named_triple(t, scheme);
    assert(served == triples.map(name));
    assert(name(triple) == named_triple(triple, scheme));
    assert(triples.map(name).contains(name(triple)));
}

/// Every name that is minted begins with the prefix of all reports.
pub proof fn names_carry_the_prefix(triples: Set<oxrdf::Triple>, label: Seq<char>)
    ensures
        named_resource(ResourceV::Blank(label), report_scheme(triples)) matches ResourceV::Iri(name)
            && REPORT_SCHEME@.is_prefix_of(name),
{
    let scheme = report_scheme(triples);
    let name = scheme + encoded_label(label);
    let n = REPORT_SCHEME@.len() as int;
    assert(name.subrange(0, n) =~= REPORT_SCHEME@);
}

/// A literal shows a language tag or a datatype, never both, and never the datatype of plain
/// literals.
pub proof fn literals_show_one_annotation(literal: ConcreteLiteral)
    ensures
        node_term(NodeV::Literal(literal)) matches TermV::Literal { value, lang, datatype } && {
            &&& value == literal_form(literal)
            &&& lang == literal_lang(literal)
            &&& lang is Some ==> datatype is None
            &&& datatype != Some(XSD_STRING@)
        },
{
}

/// Findings that can be written can be written in another order.
proof fn writable_forgets_order(conforms: bool, a: Seq<FindingV>, b: Seq<FindingV>)
    requires
        a.to_multiset() == b.to_multiset(),
        writable(conforms, a),
    ensures
        writable(conforms, b),
{
    broadcast use vstd::seq_lib::group_to_multiset_ensures;

    if !conforms {
        assert forall|i: int| 0 <= i < b.len() implies unquoted(#[trigger] b[i]) by {
            assert(b.contains(b[i]));
            assert(b.to_multiset().count(b[i]) > 0);
            assert(a.contains(b[i]));
        }
    }
}

/// Reports that say the same share their names: where the same findings come in whatever order,
/// both are written or both are refused alike, and what is written is Turtle of one graph.
///
/// So the same data and shapes, read and validated twice, mint the same names wherever both runs
/// find the same. They do not where a report holds a blank node that the graphs leave without a
/// label, such as a property shape in brackets: each reading gives it a label of its own, so that
/// the findings differ in that label and the names differ with them. A blank node with a label
/// keeps it, and a report that was read once keeps its names however often it is written.
pub proof fn reports_share_their_names(
    a: ValidationReport,
    b: ValidationReport,
    x: Result<Seq<char>, ErrorV>,
    y: Result<Seq<char>, ErrorV>,
)
    requires
        report_conforms(a) == report_conforms(b),
        findings_view(a).to_multiset() == findings_view(b).to_multiset(),
        told_apart(findings_view(a)),
        turtle_outcome(a, x),
        turtle_outcome(b, y),
    ensures
        x is Ok <==> y is Ok,
        x is Err ==> x == y,
        x is Ok ==> exists|named: Set<oxrdf::Triple>| #[trigger]
            is_turtle_of(x->Ok_0, named) && is_turtle_of(y->Ok_0, named),
{
    let (f, g) = (findings_view(a), findings_view(b));
    in_order_forgets_order(f, g);
    if writable(report_conforms(a), f) {
        writable_forgets_order(report_conforms(a), f, g);
        let triples = report_graph(report_conforms(a), in_order(f));
        let d = choose|document: Seq<u8>| #[trigger] served(triples, document, x);
        let e = choose|document: Seq<u8>| #[trigger] served(triples, document, y);
        if let Ok(named) = skolem_graph(triples) {
            assert(turtle_documents(named, report_prefixes()).contains(Ok(d)));
            assert(turtle_documents(named, report_prefixes()).contains(Ok(e)));
            assert(is_turtle_of(x->Ok_0, named) && is_turtle_of(y->Ok_0, named));
        }
    } else if writable(report_conforms(b), g) {
        writable_forgets_order(report_conforms(b), g, f);
    }
}

/// Two runs that find the same, in whatever order, are answered alike: the JSON is the same, and
/// the Turtle is that of one graph, so that both mint the same names. What two runs over the same
/// data and shapes find is the same up to the labels that each reading gives to blank nodes
/// without one; see [`reports_share_their_names`].
pub proof fn runs_are_answered_alike(
    a: ValidationReport,
    b: ValidationReport,
    as_type: Seq<char>,
    x: Result<RepresentationV, ErrorV>,
    y: Result<RepresentationV, ErrorV>,
)
    requires
        report_conforms(a) == report_conforms(b),
        findings_view(a).to_multiset() == findings_view(b).to_multiset(),
        asks_json(as_type) || told_apart(resolved_findings(a)),
        face_outcome(a, as_type, x),
        face_outcome(b, as_type, y),
    ensures
        x is Ok <==> y is Ok,
        x is Err || asks_json(as_type) ==> x == y,
        x is Ok && !asks_json(as_type) ==> exists|
            s: Seq<char>,
            t: Seq<char>,
            named: Set<oxrdf::Triple>,
        |
            x->Ok_0 == repr_view(TURTLE@, s) && y->Ok_0 == repr_view(TURTLE@, t)
                && #[trigger] is_turtle_of(s, named) && #[trigger] is_turtle_of(t, named),
{
    let g = |f: FindingV| resolved_finding(f);
    mapped_items_agree(findings_view(a), findings_view(b), g);
    if asks_json(as_type) {
        report_forgets_order(report_conforms(a), resolved_findings(a), resolved_findings(b));
    } else {
        let (v, s) = choose|written: ValidationReport, text: Result<Seq<char>, ErrorV>|
            resolves_to(a, written) && #[trigger] turtle_outcome(written, text) && x == (
            match text {
                Ok(text) => Ok(repr_view(TURTLE@, text)),
                Err(e) => Err(e),
            });
        let (w, t) = choose|written: ValidationReport, text: Result<Seq<char>, ErrorV>|
            resolves_to(b, written) && #[trigger] turtle_outcome(written, text) && y == (
            match text {
                Ok(text) => Ok(repr_view(TURTLE@, text)),
                Err(e) => Err(e),
            });
        reports_share_their_names(v, w, s, t);
        if x is Ok {
            let named = choose|named: Set<oxrdf::Triple>| #[trigger]
                is_turtle_of(s->Ok_0, named) && is_turtle_of(t->Ok_0, named);
            assert(is_turtle_of(s->Ok_0, named) && is_turtle_of(t->Ok_0, named));
        }
    }
}

/// Whether a text is Turtle of a graph, with the prefixes of a report.
pub open spec fn is_turtle_of(text: Seq<char>, triples: Set<oxrdf::Triple>) -> bool {
    exists|document: Seq<u8>|
        #![trigger vstd::utf8::decode_utf8(document)]
        turtle_documents(triples, report_prefixes()).contains(Ok(document)) && text
            == vstd::utf8::decode_utf8(document)
}

/// The report that a JSON text shows.
pub open spec fn read_json(text: Seq<char>) -> ReportV {
    choose|report: ReportV| json_text(report) == text
}

/// The JSON text of a report reads back to the report.
pub proof fn json_reads_back(report: ReportV)
    ensures
        read_json(json_text(report)) == report,
{
    json_text_tells_the_report(read_json(json_text(report)), report);
}

/// What the JSON face serves for what validating comes to.
pub open spec fn json_served(report: Result<ReportV, ErrorV>) -> Result<RepresentationV, ErrorV> {
    match report {
        Ok(report) => Ok(repr_view(JSON@, json_text(report))),
        Err(e) => Err(e),
    }
}

/// The JSON face shows the report: it may serve just what comes of a report that validating may
/// come to, and of an error the same error; and what it serves reads back to that report.
pub proof fn json_face_is_the_report(
    data_ttl: Seq<char>,
    shapes_ttl: Seq<char>,
    as_type: Seq<char>,
    r: Result<RepresentationV, ErrorV>,
)
    requires
        asks_json(as_type),
    ensures
        representation_outcome(data_ttl, shapes_ttl, as_type, r) <==> exists|
            report: Result<ReportV, ErrorV>,
        | #[trigger]
            validate_report_outcome(data_ttl, shapes_ttl, report) && r == json_served(report),
        representation_outcome(data_ttl, shapes_ttl, as_type, r) ==> match r {
            Ok(shown) => validate_report_outcome(
                data_ttl,
                shapes_ttl,
                Ok(read_json(vstd::utf8::decode_utf8(shown.bytes))),
            ),
            Err(e) => validate_report_outcome(data_ttl, shapes_ttl, Err(e)),
        },
{
    if representation_outcome(data_ttl, shapes_ttl, as_type, r) {
        let raw = choose|raw: Result<ValidationReport, ErrorV>| #[trigger]
            run_outcome(data_ttl, shapes_ttl, raw) && match raw {
                Ok(report) => face_outcome(report, as_type, r),
                Err(e) => r == Err::<RepresentationV, ErrorV>(e),
            };
        let report: Result<ReportV, ErrorV> = match raw {
            Ok(report) => Ok(report_data(report)),
            Err(e) => Err(e),
        };
        assert(validate_report_outcome(data_ttl, shapes_ttl, report));
        assert(r == json_served(report));
        if let Ok(report) = report {
            vstd::utf8::encode_utf8_decode_utf8(json_text(report));
            json_reads_back(report);
        }
    }
    assert forall|report: Result<ReportV, ErrorV>| #[trigger]
        validate_report_outcome(data_ttl, shapes_ttl, report) && r == json_served(
            report,
        ) implies representation_outcome(data_ttl, shapes_ttl, as_type, r) by {
        let raw = choose|raw: Result<ValidationReport, ErrorV>| #[trigger]
            run_outcome(data_ttl, shapes_ttl, raw) && report == (match raw {
                Ok(report) => Ok(report_data(report)),
                Err(e) => Err(e),
            });
        assert(run_outcome(data_ttl, shapes_ttl, raw));
    }
}

} // verus!
