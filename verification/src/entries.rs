//! What the entries of a report tell: of each finding one entry, and in it what was found.

use shacl::validator::report::ValidationReport;
use vstd::prelude::*;

#[allow(unused_imports)]
use crate::{
    face::{report_data, resolved_findings},
    finding::{findings_view, path_view, report_conforms, FindingV, Messages},
    laws::reported_message_is_the_first,
    meaning::{
        bare_is_the_inside, entries_are_ordered, entries_name_nodes, entry_le, fills, is_inside,
        names_node, nodes_are_shown, option_le, shows, tag_le, templates_are_filled, text_le,
        texts_are_ordered,
    },
    order::{at_most, ranked_is_the_sorting},
    report::{
        outcome_view, report_view, reported_message, result_view, signature_view, OutcomeV,
        ReportResult, ReportV, ResultV, Violation, ViolationV,
    },
    template::resolved_finding,
    term::TermV,
};

verus! {

/// Whether a finding is another with its templates filled: the tags of its messages are the same,
/// each text is what the template with that tag becomes, and nothing else differs.
pub open spec fn is_filled(filled: FindingV, f: FindingV) -> bool {
    &&& filled.focus == f.focus
    &&& filled.path == f.path
    &&& filled.component == f.component
    &&& filled.value == f.value
    &&& filled.source == f.source
    &&& filled.severity == f.severity
    &&& forall|tag: Option<Seq<char>>| #[trigger]
        filled.messages.contains_key(tag) <==> f.messages.contains_key(tag)
    &&& forall|tag: Option<Seq<char>>| #[trigger]
        f.messages.contains_key(tag) ==> fills(f.messages[tag], filled.messages[tag], f)
}

/// Resolving a result fills every template that it has, under whatever tag, whether or not the
/// result has a value or a path.
pub proof fn every_message_is_filled(f: FindingV)
    ensures
        is_filled(resolved_finding(f), f),
        resolved_finding(f).messages.dom() == f.messages.dom(),
{
    let filled = resolved_finding(f);
    assert forall|tag: Option<Seq<char>>| #[trigger] f.messages.contains_key(tag) implies fills(
        f.messages[tag],
        filled.messages[tag],
        f,
    ) by {
        templates_are_filled(f.messages[tag], f);
    }
    assert(filled.messages.dom() =~= f.messages.dom());
}

/// Whether an entry tells the message of a finding: none where the finding has none, and else the
/// one whose tag comes first, a tag before none, with its template filled.
pub open spec fn tells_message(message: Option<TermV>, f: FindingV) -> bool {
    &&& message is None <==> forall|tag: Option<Seq<char>>| !#[trigger] f.messages.contains_key(tag)
    &&& f.messages.dom().finite() ==> (message matches Some(term) ==> {
        &&& term is Literal
        &&& term->datatype is None
        &&& f.messages.contains_key(term->lang)
        &&& fills(f.messages[term->lang], term->Literal_value, f)
        &&& forall|tag: Option<Seq<char>>| #[trigger]
            f.messages.contains_key(tag) ==> tag_le(term->lang, tag)
    })
}

/// Whether an entry tells a finding.
pub open spec fn entry_tells(entry: ResultV, f: FindingV) -> bool {
    &&& names_node(entry.focus_node, f.focus)
    &&& names_node(entry.component, f.component)
    &&& entry.path is Some <==> f.path is Some
    &&& f.path matches Some(path) ==> is_inside(path_view(path).text, entry.path->0)
    &&& entry.value is Some <==> f.value is Some
    &&& f.value matches Some(value) ==> shows(entry.value->0, value)
    &&& tells_message(entry.message, f)
}

/// The entry of a finding with its templates filled tells the finding.
pub proof fn entries_tell_findings(f: FindingV)
    ensures
        entry_tells(result_view(resolved_finding(f)), f),
{
    let filled = resolved_finding(f);
    let entry = result_view(filled);
    every_message_is_filled(f);
    entries_name_nodes(f.focus);
    entries_name_nodes(f.component);
    if let Some(path) = f.path {
        bare_is_the_inside(path_view(path).text, entry.path->0);
    }
    if let Some(value) = f.value {
        nodes_are_shown(value);
    }
    messages_are_told(filled.messages, entry.message);
    assert(entry.message is None <==> forall|tag: Option<Seq<char>>|
        !#[trigger] f.messages.contains_key(tag)) by {
        if entry.message is None {
            assert forall|tag: Option<Seq<char>>| !#[trigger] f.messages.contains_key(tag) by {
                assert(!filled.messages.contains_key(tag));
            }
        }
        if forall|tag: Option<Seq<char>>| !#[trigger] f.messages.contains_key(tag) {
            assert forall|tag: Option<Seq<char>>| !#[trigger] filled.messages.contains_key(tag) by {
                assert(!f.messages.contains_key(tag));
            }
        }
    }
    if f.messages.dom().finite() && entry.message is Some {
        let term = entry.message->0;
        assert(filled.messages.contains_key(term->lang));
        assert(f.messages.contains_key(term->lang));
        assert forall|tag: Option<Seq<char>>| #[trigger]
            f.messages.contains_key(tag) implies tag_le(term->lang, tag) by {
            assert(filled.messages.contains_key(tag));
        }
    }
}

/// The message that is reported, of messages in general: none where there is none, and else one of
/// them whose tag no other comes before.
pub proof fn messages_are_told(messages: Messages, message: Option<TermV>)
    requires
        message == reported_message(messages),
    ensures
        message is None <==> forall|tag: Option<Seq<char>>| !#[trigger] messages.contains_key(tag),
        messages.dom().finite() ==> (message matches Some(term) ==> {
            &&& term is Literal
            &&& term->datatype is None
            &&& messages.contains_key(term->lang)
            &&& messages[term->lang] == term->Literal_value
            &&& forall|tag: Option<Seq<char>>| #[trigger]
                messages.contains_key(tag) ==> tag_le(term->lang, tag)
        }),
{
    if forall|tag: Option<Seq<char>>| !#[trigger] messages.contains_key(tag) {
        assert(messages.dom() =~= Set::<Option<Seq<char>>>::empty());
    }
    if messages.dom().finite() {
        reported_message_is_the_first(messages);
        if let Some(term) = message {
            assert forall|tag: Option<Seq<char>>| #[trigger]
                messages.contains_key(tag) implies tag_le(term->lang, tag) by {
                if tag is Some {
                    assert(messages.contains_key(Some(tag->0)));
                    if term->lang is Some {
                        texts_are_ordered(term->lang->0, tag->0);
                    }
                }
            }
        }
    }
}

/// Whether an entry shows a finding as it stands, its messages as they were written.
pub open spec fn entry_shows(entry: ResultV, f: FindingV) -> bool {
    &&& names_node(entry.focus_node, f.focus)
    &&& names_node(entry.component, f.component)
    &&& entry.path is Some <==> f.path is Some
    &&& f.path matches Some(path) ==> is_inside(path_view(path).text, entry.path->0)
    &&& entry.value is Some <==> f.value is Some
    &&& f.value matches Some(value) ==> shows(entry.value->0, value)
    &&& entry.message is None <==> forall|tag: Option<Seq<char>>|
        !#[trigger] f.messages.contains_key(tag)
    &&& f.messages.dom().finite() ==> (entry.message matches Some(term) ==> {
        &&& term is Literal
        &&& term->datatype is None
        &&& f.messages.contains_key(term->lang)
        &&& f.messages[term->lang] == term->Literal_value
        &&& forall|tag: Option<Seq<char>>| #[trigger]
            f.messages.contains_key(tag) ==> tag_le(term->lang, tag)
    })
}

/// The entry of a finding shows it.
pub proof fn entries_show_findings(f: FindingV)
    ensures
        entry_shows(result_view(f), f),
{
    let entry = result_view(f);
    entries_name_nodes(f.focus);
    entries_name_nodes(f.component);
    if let Some(path) = f.path {
        bare_is_the_inside(path_view(path).text, entry.path->0);
    }
    if let Some(value) = f.value {
        nodes_are_shown(value);
    }
    messages_are_told(f.messages, entry.message);
}

/// Whether entries show findings, one each, in the order in which both come.
pub open spec fn each_shown(entries: Seq<ResultV>, findings: Seq<FindingV>) -> bool {
    entries.len() == findings.len() && forall|i: int|
        0 <= i < entries.len() ==> entry_shows(#[trigger] entries[i], findings[i])
}

/// Whether a report as data shows findings: an entry for each of them and no other, in order.
pub open spec fn report_shows(told: ReportV, conforms: bool, findings: Seq<FindingV>) -> bool {
    &&& told.conforms == conforms
    &&& exists|ordered: Seq<FindingV>|
        ordered.to_multiset() == findings.to_multiset() && #[trigger] each_shown(
            told.violations,
            ordered,
        )
    &&& told.violations.len() == findings.len()
    &&& forall|i: int, j: int|
        0 <= i < j < told.violations.len() ==> entry_le(
            #[trigger] told.violations[i],
            #[trigger] told.violations[j],
        )
}

/// The report of findings shows them.
pub proof fn reports_show_findings(conforms: bool, findings: Seq<FindingV>)
    ensures
        report_shows(report_view(conforms, findings), conforms, findings),
{
    broadcast use vstd::seq_lib::group_to_multiset_ensures;

    let h = |f: FindingV| result_view(f);
    let told = report_view(conforms, findings);
    let results = findings.map_values(h);
    ranked_is_the_sorting::<ReportResult>(results, results);
    let t = some_order(told.violations, findings, h);
    assert forall|i: int| 0 <= i < told.violations.len() implies entry_shows(
        #[trigger] told.violations[i],
        t[i],
    ) by {
        entries_show_findings(t[i]);
        assert(told.violations[i] == t.map_values(h)[i]);
    }
    assert(t.len() == t.to_multiset().len() && findings.len() == findings.to_multiset().len());
    assert(each_shown(told.violations, t));
    let leq = at_most::<ReportResult>();
    assert forall|i: int, j: int| 0 <= i < j < told.violations.len() implies entry_le(
        #[trigger] told.violations[i],
        #[trigger] told.violations[j],
    ) by {
        assert(leq(told.violations[i], told.violations[j]));
        entries_are_ordered(told.violations[i], told.violations[j]);
    }
}

/// Where the items of a sequence are those of another, each mapped, it is some order of the other,
/// each mapped.
pub proof fn some_order<A, B>(a: Seq<B>, b: Seq<A>, g: spec_fn(A) -> B) -> (t: Seq<A>)
    requires
        a.to_multiset() == b.map_values(g).to_multiset(),
    ensures
        t.to_multiset() == b.to_multiset(),
        a == t.map_values(g),
    decreases a.len(),
{
    broadcast use vstd::seq_lib::group_to_multiset_ensures;

    let gb = b.map_values(g);
    assert(a.len() == a.to_multiset().len());
    assert(gb.len() == gb.to_multiset().len());
    if a.len() == 0 {
        assert(b =~= Seq::<A>::empty());
        assert(a =~= b.map_values(g));
        b
    } else {
        let last = a.last();
        assert(a.contains(last));
        assert(gb.to_multiset().count(last) > 0);
        assert(gb.contains(last));
        let at = choose|i: int| 0 <= i < gb.len() && gb[i] == last;
        let (c, d) = (a.drop_last(), b.remove(at));
        assert(a =~= c.push(last));
        assert(b =~= d.insert(at, b[at]));
        assert(gb =~= d.map_values(g).insert(at, last));
        vstd::seq_lib::to_multiset_insert(d.map_values(g), at, last);
        assert(c.to_multiset() =~= a.to_multiset().remove(last));
        assert(d.map_values(g).to_multiset() =~= gb.to_multiset().remove(last));
        let s = some_order(c, d, g);
        let t = s.push(b[at]);
        vstd::seq_lib::to_multiset_insert(d, at, b[at]);
        assert(t.to_multiset() =~= b.to_multiset());
        assert(t.map_values(g) =~= s.map_values(g).push(last));
        t
    }
}

/// Whether entries tell findings, one each, in the order in which both come.
pub open spec fn each_told(entries: Seq<ResultV>, findings: Seq<FindingV>) -> bool {
    entries.len() == findings.len() && forall|i: int|
        0 <= i < entries.len() ==> entry_tells(#[trigger] entries[i], findings[i])
}

/// Whether a report as data tells the validator's report: what that says of conformance, an entry
/// for each of its findings and no other, and the entries in order.
pub open spec fn report_tells(told: ReportV, report: ValidationReport) -> bool {
    &&& told.conforms == report_conforms(report)
    &&& exists|findings: Seq<FindingV>|
        findings.to_multiset() == findings_view(report).to_multiset() && #[trigger] each_told(
            told.violations,
            findings,
        )
    &&& told.violations.len() == findings_view(report).len()
    &&& forall|i: int, j: int|
        0 <= i < j < told.violations.len() ==> entry_le(
            #[trigger] told.violations[i],
            #[trigger] told.violations[j],
        )
}

/// A report as data tells the validator's report.
pub proof fn reports_tell_what_was_found(report: ValidationReport)
    ensures
        report_tells(report_data(report), report),
{
    broadcast use vstd::seq_lib::group_to_multiset_ensures;

    let raw = findings_view(report);
    let g = |f: FindingV| resolved_finding(f);
    let h = |f: FindingV| result_view(f);
    let both = |f: FindingV| result_view(resolved_finding(f));
    let told = report_data(report);
    let results = raw.map_values(g).map_values(h);
    assert(resolved_findings(report) =~= raw.map_values(g));
    assert(results =~= raw.map_values(both));
    ranked_is_the_sorting::<ReportResult>(results, results);
    let t = some_order(told.violations, raw, both);
    assert forall|i: int| 0 <= i < told.violations.len() implies entry_tells(
        #[trigger] told.violations[i],
        t[i],
    ) by {
        entries_tell_findings(t[i]);
        assert(told.violations[i] == t.map_values(both)[i]);
    }
    assert(t.len() == t.to_multiset().len() && raw.len() == raw.to_multiset().len());
    assert(each_told(told.violations, t));
    let leq = at_most::<ReportResult>();
    assert forall|i: int, j: int| 0 <= i < j < told.violations.len() implies entry_le(
        #[trigger] told.violations[i],
        #[trigger] told.violations[j],
    ) by {
        assert(leq(told.violations[i], told.violations[j]));
        entries_are_ordered(told.violations[i], told.violations[j]);
    }
}

/// Whether a signature is that of an entry: its focus node, its path and its component.
pub open spec fn is_signature(signature: ViolationV, entry: ResultV) -> bool {
    &&& signature.focus_node == entry.focus_node
    &&& signature.path == entry.path
    &&& signature.component == entry.component
}

/// Whether one signature comes before another or is it.
pub open spec fn signature_le(a: ViolationV, b: ViolationV) -> bool {
    &&& text_le(a.focus_node, b.focus_node)
    &&& a.focus_node == b.focus_node ==> option_le(a.path, b.path)
    &&& a.focus_node == b.focus_node && a.path == b.path ==> text_le(a.component, b.component)
}

/// Whether signatures are those of entries, one each, in the order in which both come.
pub open spec fn each_signed(signatures: Seq<ViolationV>, entries: Seq<ResultV>) -> bool {
    signatures.len() == entries.len() && forall|i: int|
        0 <= i < entries.len() ==> is_signature(#[trigger] signatures[i], entries[i])
}

/// Whether an outcome signs a report: it says what that says of conformance, and has the signature
/// of each of its entries and no other, in order.
pub open spec fn outcome_signs(outcome: OutcomeV, told: ReportV) -> bool {
    &&& outcome.conforms == told.conforms
    &&& exists|entries: Seq<ResultV>|
        entries.to_multiset() == told.violations.to_multiset() && #[trigger] each_signed(
            outcome.violations,
            entries,
        )
    &&& forall|i: int, j: int|
        0 <= i < j < outcome.violations.len() ==> signature_le(
            #[trigger] outcome.violations[i],
            #[trigger] outcome.violations[j],
        )
}

/// The outcome of any report signs it.
pub proof fn outcomes_are_signatures(told: ReportV)
    ensures
        outcome_signs(outcome_view(told), told),
{
    let g = |r: ResultV| signature_view(r);
    let signatures = told.violations.map_values(g);
    let out = outcome_view(told).violations;
    ranked_is_the_sorting::<Violation>(signatures, signatures);
    let t = some_order(out, told.violations, g);
    assert(each_signed(out, t)) by {
        assert forall|i: int| 0 <= i < t.len() implies is_signature(#[trigger] out[i], t[i]) by {
            assert(out[i] == t.map_values(g)[i]);
        }
    }
    let leq = at_most::<Violation>();
    assert forall|i: int, j: int| 0 <= i < j < out.len() implies signature_le(
        #[trigger] out[i],
        #[trigger] out[j],
    ) by {
        assert(leq(out[i], out[j]));
        let (a, b) = (out[i], out[j]);
        let (x, y) = (
            ResultV {
                focus_node: a.focus_node,
                path: a.path,
                component: a.component,
                message: None,
                value: None,
            },
            ResultV {
                focus_node: b.focus_node,
                path: b.path,
                component: b.component,
                message: None,
                value: None,
            },
        );
        entries_are_ordered(x, y);
    }
}

/// Whether an outcome tells the validator's report: what that says of conformance, and the
/// signatures of the entries of a report that tells it, in their order.
pub open spec fn outcome_tells(outcome: OutcomeV, report: ValidationReport) -> bool {
    exists|told: ReportV| #[trigger]
        report_tells(told, report) && outcome.conforms == told.conforms && each_signed(
            outcome.violations,
            told.violations,
        )
}

/// The outcome of the report of the validator's report tells that.
pub proof fn outcomes_tell_what_was_found(report: ValidationReport)
    ensures
        outcome_tells(outcome_view(report_data(report)), report),
{
    let told = report_data(report);
    reports_tell_what_was_found(report);
    let g = |r: ResultV| signature_view(r);
    let signatures = told.violations.map_values(g);
    let leq = at_most::<Violation>();
    assert(vstd::relations::sorted_by(signatures, leq)) by {
        assert forall|i: int, j: int| 0 <= i < j < signatures.len() implies #[trigger] leq(
            signatures[i],
            signatures[j],
        ) by {
            entries_are_ordered(told.violations[i], told.violations[j]);
            assert(entry_le(told.violations[i], told.violations[j]));
        }
    }
    ranked_is_the_sorting::<Violation>(signatures, signatures);
    assert(each_signed(outcome_view(told).violations, told.violations));
}

} // verus!
