//! The report as data: one entry for each validation result, in order.

use shacl::validator::report::ValidationReport;
use vstd::prelude::*;

use crate::finding::{findings_of, path_of, Finding, Message};
use crate::order::{sort, Ranked};
use crate::rdf::{is_quoted, shown, term, Node};
use crate::template::bare;
use crate::term::{copy_text_option, order_term_option, order_text_option, Term};
use crate::text::order_text;
#[allow(unused_imports)]
use crate::{
    entries::{
        entries_show_findings, entry_shows, outcome_signs, outcomes_are_signatures, report_shows,
        reports_show_findings,
    },
    finding::{distinct_tags, findings_view, message_map, report_conforms, FindingV, Messages},
    order::{ranked, views},
    rdf::{node_term, shown_text, NodeV},
    template::{bare_path, bare_text},
    term::{
        first_of, lexical_text, term_option, term_option_order, term_option_order_laws, text_option,
        text_option_order, text_option_order_laws, TermV,
    },
    text::{text_order, text_order_laws},
};

verus! {

/// One violation, reduced to the parts that every SHACL validator agrees on. Messages and
/// blank-node ids, which may differ between validators, are left out.
#[derive(PartialEq, Eq, PartialOrd, Ord, Clone, Debug)]
pub struct Violation {
    /// The focus node that failed: an IRI or a blank-node id.
    pub focus_node: String,
    /// The `sh:resultPath`, if any.
    pub path: Option<String>,
    /// The `sh:sourceConstraintComponent` IRI.
    pub component: String,
}

/// What a [`Violation`] is.
#[verifier::ext_equal]
pub ghost struct ViolationV {
    pub focus_node: Seq<char>,
    pub path: Option<Seq<char>>,
    pub component: Seq<char>,
}

impl View for Violation {
    type V = ViolationV;

    open spec fn view(&self) -> ViolationV {
        ViolationV {
            focus_node: self.focus_node@,
            path: text_option(self.path),
            component: self.component@,
        }
    }
}

/// The portable outcome of a validation: conformance and the sorted signatures.
#[derive(PartialEq, Eq, Clone, Debug)]
pub struct ValidationOutcome {
    pub conforms: bool,
    pub violations: Vec<Violation>,
}

/// What a [`ValidationOutcome`] is.
pub ghost struct OutcomeV {
    pub conforms: bool,
    pub violations: Seq<ViolationV>,
}

impl View for ValidationOutcome {
    type V = OutcomeV;

    open spec fn view(&self) -> OutcomeV {
        OutcomeV { conforms: self.conforms, violations: views(self.violations@) }
    }
}

/// One validation result as the `application/json` face reports it. The first three keys are
/// the signature of a [`Violation`]; `message` and `value` follow. Results are sorted by these
/// fields in this order, so that a report is deterministic.
#[derive(PartialEq, Eq, PartialOrd, Ord, Clone, Debug)]
pub struct ReportResult {
    /// The focus node that failed: an IRI or a blank-node id.
    pub focus_node: String,
    /// The `sh:resultPath`, if the result has one. A constraint on a node shape has none unless
    /// it binds `?path` itself.
    pub path: Option<String>,
    /// The `sh:sourceConstraintComponent` IRI.
    pub component: String,
    /// The `sh:resultMessage`, resolved against this result. The shape's own message, where it
    /// is tagged, beats the validator's default, which never is; among several tagged messages
    /// the lowest language tag is reported.
    pub message: Option<Term>,
    /// The `sh:value`, the offending value node.
    pub value: Option<Term>,
}

/// What a [`ReportResult`] is.
#[verifier::ext_equal]
pub ghost struct ResultV {
    pub focus_node: Seq<char>,
    pub path: Option<Seq<char>>,
    pub component: Seq<char>,
    pub message: Option<TermV>,
    pub value: Option<TermV>,
}

impl View for ReportResult {
    type V = ResultV;

    open spec fn view(&self) -> ResultV {
        ResultV {
            focus_node: self.focus_node@,
            path: text_option(self.path),
            component: self.component@,
            message: term_option(self.message),
            value: term_option(self.value),
        }
    }
}

/// The `application/json` face of a report: conformance and one [`ReportResult`] for each
/// `sh:result`, sorted.
#[derive(PartialEq, Eq, Clone, Debug)]
pub struct Report {
    pub conforms: bool,
    pub violations: Vec<ReportResult>,
}

/// What a [`Report`] is.
pub ghost struct ReportV {
    pub conforms: bool,
    pub violations: Seq<ResultV>,
}

impl View for Report {
    type V = ReportV;

    open spec fn view(&self) -> ReportV {
        ReportV { conforms: self.conforms, violations: views(self.violations@) }
    }
}

/// The order of two signatures: by focus node, path and component.
pub open spec fn violation_order(a: ViolationV, b: ViolationV) -> int {
    first_of(
        text_order(a.focus_node, b.focus_node),
        first_of(text_option_order(a.path, b.path), text_order(a.component, b.component)),
    )
}

/// The signature of a result.
pub open spec fn signature_view(r: ResultV) -> ViolationV {
    ViolationV { focus_node: r.focus_node, path: r.path, component: r.component }
}

/// The order of two results: by their signatures, then by message and value.
pub open spec fn result_order(a: ResultV, b: ResultV) -> int {
    first_of(
        violation_order(signature_view(a), signature_view(b)),
        first_of(term_option_order(a.message, b.message), term_option_order(a.value, b.value)),
    )
}

proof fn violation_order_laws(a: ViolationV, b: ViolationV, c: ViolationV)
    ensures
        -1 <= violation_order(a, b) <= 1,
        violation_order(a, b) == 0 <==> a == b,
        violation_order(a, b) == -violation_order(b, a),
        violation_order(a, b) <= 0 && violation_order(b, c) <= 0 ==> violation_order(a, c) <= 0,
{
    text_order_laws(a.focus_node, b.focus_node, c.focus_node);
    text_order_laws(b.focus_node, c.focus_node, a.focus_node);
    text_order_laws(a.focus_node, c.focus_node, b.focus_node);
    text_option_order_laws(a.path, b.path, c.path);
    text_option_order_laws(b.path, c.path, a.path);
    text_option_order_laws(a.path, c.path, b.path);
    text_order_laws(a.component, b.component, c.component);
}

impl Ranked for Violation {
    open spec fn order(a: ViolationV, b: ViolationV) -> int {
        violation_order(a, b)
    }

    proof fn order_laws(a: ViolationV, b: ViolationV, c: ViolationV) {
        violation_order_laws(a, b, c);
    }

    fn rank(&self, other: &Self) -> (r: i8) {
        let by_focus: i8 = order_text(self.focus_node.as_str(), other.focus_node.as_str());
        if by_focus != 0 {
            return by_focus;
        }
        let by_path: i8 = order_text_option(&self.path, &other.path);
        if by_path != 0 {
            return by_path;
        }
        order_text(self.component.as_str(), other.component.as_str())
    }
}

impl Ranked for ReportResult {
    open spec fn order(a: ResultV, b: ResultV) -> int {
        result_order(a, b)
    }

    proof fn order_laws(a: ResultV, b: ResultV, c: ResultV) {
        let (x, y, z) = (signature_view(a), signature_view(b), signature_view(c));
        violation_order_laws(x, y, z);
        violation_order_laws(y, z, x);
        violation_order_laws(x, z, y);
        term_option_order_laws(a.message, b.message, c.message);
        term_option_order_laws(b.message, c.message, a.message);
        term_option_order_laws(a.message, c.message, b.message);
        term_option_order_laws(a.value, b.value, c.value);
        assert(<ReportResult as Ranked>::order(a, b) == result_order(a, b));
    }

    fn rank(&self, other: &Self) -> (r: i8) {
        let by_focus: i8 = order_text(self.focus_node.as_str(), other.focus_node.as_str());
        if by_focus != 0 {
            return by_focus;
        }
        let by_path: i8 = order_text_option(&self.path, &other.path);
        if by_path != 0 {
            return by_path;
        }
        let by_component: i8 = order_text(self.component.as_str(), other.component.as_str());
        if by_component != 0 {
            return by_component;
        }
        let by_message: i8 = order_term_option(&self.message, &other.message);
        if by_message != 0 {
            return by_message;
        }
        order_term_option(&self.value, &other.value)
    }
}

impl ReportResult {
    /// The signature: this result without what may differ between validators.
    pub fn signature(&self) -> (r: Violation)
        ensures
            r@ == signature_view(self@),
    {
        Violation {
            focus_node: self.focus_node.clone(),
            path: copy_text_option(&self.path),
            component: self.component.clone(),
        }
    }
}

/// The portable outcome of a report: its signatures, sorted.
pub open spec fn outcome_view(r: ReportV) -> OutcomeV {
    OutcomeV {
        conforms: r.conforms,
        violations: ranked::<Violation>(
            r.violations.map_values(|result: ResultV| signature_view(result)),
        ),
    }
}

/// The order of two language tags: a tag comes before none, and tags come by their text.
pub open spec fn tag_order(a: Option<Seq<char>>, b: Option<Seq<char>>) -> int {
    match (a, b) {
        (None, None) => 0,
        (Some(_), None) => -1,
        (None, Some(_)) => 1,
        (Some(a), Some(b)) => text_order(a, b),
    }
}

pub proof fn tag_order_laws(a: Option<Seq<char>>, b: Option<Seq<char>>, c: Option<Seq<char>>)
    ensures
        tag_order(a, b) == 0 <==> a == b,
        tag_order(a, b) == -tag_order(b, a),
        tag_order(a, b) <= 0 && tag_order(b, c) <= 0 ==> tag_order(a, c) <= 0,
{
    if a is Some && b is Some {
        text_order_laws(a->0, b->0, if c is Some { c->0 } else { a->0 });
    }
}

/// Whether `tag` is the first among the tags of messages.
pub open spec fn is_first_tag(messages: Messages, tag: Option<Seq<char>>) -> bool {
    &&& messages.contains_key(tag)
    &&& forall|other: Option<Seq<char>>| #[trigger]
        messages.contains_key(other) ==> tag_order(tag, other) <= 0
}

/// The one message that the JSON face reports, of those that a result has: the first by its
/// tag.
pub open spec fn reported_message(messages: Messages) -> Option<TermV> {
    if messages.dom() == Set::<Option<Seq<char>>>::empty() {
        None
    } else {
        let tag = choose|tag: Option<Seq<char>>| is_first_tag(messages, tag);
        Some(message_term_view(tag, messages[tag]))
    }
}

/// The message map of messages with distinct tags holds each of them, and nothing else.
pub proof fn message_map_holds(messages: Seq<Message>)
    requires
        distinct_tags(messages),
    ensures
        forall|i: int|
            0 <= i < messages.len() ==> message_map(messages).contains_key(
                (#[trigger] messages[i])@.tag,
            ) && message_map(messages)[messages[i]@.tag] == messages[i]@.text,
        forall|tag: Option<Seq<char>>| #[trigger]
            message_map(messages).contains_key(tag) ==> exists|i: int|
                0 <= i < messages.len() && (#[trigger] messages[i])@.tag == tag,
    decreases messages.len(),
{
    if messages.len() > 0 {
        let rest = messages.drop_last();
        message_map_holds(rest);
        assert forall|i: int| 0 <= i < messages.len() implies message_map(messages).contains_key(
            (#[trigger] messages[i])@.tag,
        ) && message_map(messages)[messages[i]@.tag] == messages[i]@.text by {
            if i < rest.len() {
                assert(rest[i] == messages[i]);
            }
        }
        assert forall|tag: Option<Seq<char>>| #[trigger]
            message_map(messages).contains_key(tag) implies exists|i: int|
            0 <= i < messages.len() && (#[trigger] messages[i])@.tag == tag by {
            if tag == messages.last()@.tag {
                assert(messages[messages.len() - 1]@.tag == tag);
            } else {
                assert(message_map(rest).contains_key(tag));
                let i = choose|i: int| 0 <= i < rest.len() && (#[trigger] rest[i])@.tag == tag;
                assert(rest[i] == messages[i]);
                assert(messages[i]@.tag == tag);
            }
        }
    }
}

/// The order of the tags of two messages.
fn order_tags(a: &Message, b: &Message) -> (r: i8)
    ensures
        r == tag_order(a@.tag, b@.tag),
{
    match (&a.lang, &b.lang) {
        (None, None) => 0,
        (Some(_), None) => -1,
        (None, Some(_)) => 1,
        (Some(x), Some(y)) => order_text(x.as_str(), y.as_str()),
    }
}

/// A message as a literal.
pub open spec fn message_term_view(tag: Option<Seq<char>>, text: Seq<char>) -> TermV {
    TermV::Literal { value: text, lang: tag, datatype: None }
}

/// A message as a literal.
pub fn message_literal(message: &Message) -> (r: Term)
    ensures
        r@ == message_term_view(message@.tag, message@.text),
{
    let lang = match &message.lang {
        Some(lang) => {
            let mut text = String::new();
            text.append(lang.as_str());
            assert(text@ =~= crate::rdf::lang_tag(*lang));
            Some(text)
        },
        None => None,
    };
    Term::Literal { value: message.text.clone(), lang, datatype: None }
}

/// The one message that the JSON face reports: tagged beats untagged, since the validator's own
/// default message is untagged, and then the lowest language tag. `None` when there is no
/// message at all.
pub fn message_term(messages: &Vec<Message>) -> (r: Option<Term>)
    requires
        distinct_tags(messages@),
    ensures
        term_option(r) == reported_message(message_map(messages@)),
{
    let ghost map = message_map(messages@);
    proof {
        message_map_holds(messages@);
    }
    if messages.len() == 0 {
        assert(map.dom() =~= Set::<Option<Seq<char>>>::empty());
        return None;
    }
    let mut first: usize = 0;
    let mut i: usize = 1;
    proof {
        tag_order_laws(messages@[0]@.tag, messages@[0]@.tag, messages@[0]@.tag);
    }
    while i < messages.len()
        invariant
            first < i <= messages@.len(),
            forall|k: int|
                0 <= k < i ==> tag_order(
                    messages@[first as int]@.tag,
                    (#[trigger] messages@[k])@.tag,
                ) <= 0,
        decreases messages@.len() - i,
    {
        let here: i8 = order_tags(&messages[i], &messages[first]);
        proof {
            let (f, n) = (messages@[first as int]@.tag, messages@[i as int]@.tag);
            tag_order_laws(n, f, n);
            tag_order_laws(n, n, n);
            assert forall|k: int| 0 <= k < i && here < 0 implies tag_order(
                n,
                (#[trigger] messages@[k])@.tag,
            ) <= 0 by {
                tag_order_laws(n, f, messages@[k]@.tag);
            }
        }
        if here < 0 {
            first = i;
        }
        i += 1;
    }
    let ghost tag = messages@[first as int]@.tag;
    proof {
        assert(map.contains_key(tag));
        assert(map.dom().contains(tag));
        assert(is_first_tag(map, tag)) by {
            assert forall|other: Option<Seq<char>>| #[trigger] map.contains_key(other) implies
                tag_order(tag, other) <= 0 by {
                let k = choose|k: int|
                    0 <= k < messages@.len() && (#[trigger] messages@[k])@.tag == other;
                assert(tag_order(tag, messages@[k]@.tag) <= 0);
            }
        }
        let chosen = choose|tag: Option<Seq<char>>| is_first_tag(map, tag);
        tag_order_laws(tag, chosen, tag);
    }
    Some(message_literal(&messages[first]))
}

/// The text of a node in an entry: as the RDF stack displays it, bare; a quoted triple, which the
/// RDF stack cannot display, as a message shows it.
pub open spec fn entry_text(node: NodeV) -> Seq<char> {
    if node is Triple {
        lexical_text(node_term(node))
    } else {
        bare_text(shown_text(node))
    }
}

/// The text of a node in an entry.
fn show_node(node: &Node) -> (r: String)
    ensures
        r@ == entry_text(node@),
{
    if is_quoted(node) {
        term(node).lexical()
    } else {
        bare(shown(node).as_str())
    }
}

/// The entry of a report for a finding.
pub open spec fn result_view(f: FindingV) -> ResultV {
    ResultV {
        focus_node: entry_text(f.focus),
        path: bare_path(f),
        component: entry_text(f.component),
        message: reported_message(f.messages),
        value: match f.value {
            Some(value) => Some(node_term(value)),
            None => None,
        },
    }
}

/// The report of findings: an entry for each, sorted.
pub open spec fn report_view(conforms: bool, findings: Seq<FindingV>) -> ReportV {
    ReportV {
        conforms,
        violations: ranked::<ReportResult>(findings.map_values(|f: FindingV| result_view(f))),
    }
}

/// The entry of a report for a finding.
pub fn result_of(finding: &Finding) -> (r: ReportResult)
    requires
        finding.well_formed(),
    ensures
        r@ == result_view(finding@),
        entry_shows(r@, finding@),
{
    proof {
        entries_show_findings(finding@);
    }
    let path = match &finding.path {
        Some(path) => Some(bare(path_of(path).text.as_str())),
        None => None,
    };
    let value = match &finding.value {
        Some(value) => Some(term(value)),
        None => None,
    };
    ReportResult {
        focus_node: show_node(&finding.focus),
        path,
        component: show_node(&finding.component),
        message: message_term(&finding.messages),
        value,
    }
}

impl Report {
    /// The portable outcome: the signatures of this report, sorted.
    pub fn outcome(&self) -> (r: ValidationOutcome)
        ensures
            r@ == outcome_view(self@),
            outcome_signs(r@, self@),
    {
        proof {
            outcomes_are_signatures(self@);
        }
        let ghost f = |result: ResultV| signature_view(result);
        let mut signatures: Vec<Violation> = Vec::new();
        let mut i: usize = 0;
        while i < self.violations.len()
            invariant
                i <= self.violations@.len(),
                i == signatures@.len(),
                f == (|result: ResultV| signature_view(result)),
                views(signatures@) == views(self.violations@).take(i as int).map_values(f),
            decreases self.violations@.len() - i,
        {
            let next = self.violations[i].signature();
            let ghost before = views(signatures@);
            let ghost all = views(self.violations@);
            signatures.push(next);
            assert(views(signatures@) =~= before.push(next@));
            assert(all.take(i + 1) =~= all.take(i as int).push(all[i as int]));
            assert(views(signatures@) =~= all.take(i + 1).map_values(f));
            i += 1;
        }
        assert(views(self.violations@).take(i as int) =~= views(self.violations@));
        ValidationOutcome { conforms: self.conforms, violations: sort(signatures) }
    }

    /// The report of findings.
    pub fn from_findings(conforms: bool, findings: &Vec<Finding>) -> (r: Report)
        requires
            forall|i: int| 0 <= i < findings@.len() ==> (#[trigger] findings@[i]).well_formed(),
        ensures
            r@ == report_view(conforms, views(findings@)),
            report_shows(r@, conforms, views(findings@)),
    {
        proof {
            reports_show_findings(conforms, views(findings@));
        }
        let ghost f = |f: FindingV| result_view(f);
        let ghost all = views(findings@);
        let mut results: Vec<ReportResult> = Vec::new();
        let mut i: usize = 0;
        while i < findings.len()
            invariant
                i <= findings@.len(),
                i == results@.len(),
                f == (|f: FindingV| result_view(f)),
                all == views(findings@),
                forall|i: int| 0 <= i < findings@.len() ==> (#[trigger] findings@[i]).well_formed(),
                views(results@) == all.take(i as int).map_values(f),
            decreases findings@.len() - i,
        {
            let next = result_of(&findings[i]);
            let ghost before = views(results@);
            results.push(next);
            assert(views(results@) =~= before.push(next@));
            assert(all.take(i + 1) =~= all.take(i as int).push(all[i as int]));
            assert(views(results@) =~= all.take(i + 1).map_values(f));
            i += 1;
        }
        assert(all.take(i as int) =~= all);
        Report { conforms, violations: sort(results) }
    }

    /// The report that the validator's report, with its messages resolved, comes to: an entry
    /// for each result.
    pub fn from_report(report: &ValidationReport) -> (r: Report)
        ensures
            r@ == report_view(report_conforms(*report), findings_view(*report)),
            report_shows(r@, report_conforms(*report), findings_view(*report)),
    {
        proof {
            reports_show_findings(report_conforms(*report), findings_view(*report));
        }
        Report::from_findings(report.conforms(), &findings_of(report))
    }
}

} // verus!
