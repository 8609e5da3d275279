//! What the validator found: its results as plain values.

use rudof_iri::IriS;
use rudof_rdf::rdf_core::term::literal::Lang;
use rudof_rdf::rdf_core::term::Object;
use rudof_rdf::rdf_core::SHACLPath;
use shacl::types::{MessageMap, Severity};
use shacl::validator::report::{ValidationReport, ValidationResult};
use vstd::prelude::*;

use crate::rdf::{node_of, Node};
#[allow(unused_imports)]
use crate::{
    order::views,
    rdf::{object_node, tag_option, NodeV},
};

verus! {

/// A validation report of the validator, opaque here.
#[verifier::external_type_specification]
#[verifier::external_body]
pub struct ExValidationReport(ValidationReport);

/// One result of the validator, opaque here: see [`Finding`].
#[verifier::external_type_specification]
#[verifier::external_body]
pub struct ExValidationResult(ValidationResult);

/// The messages of a result, by language tag.
#[verifier::external_type_specification]
#[verifier::external_body]
pub struct ExMessageMap(MessageMap);

/// A property path of the validator, opaque here: see [`Path`].
#[verifier::external_type_specification]
#[verifier::external_body]
pub struct ExShaclPath(SHACLPath);

/// The severity of a result, opaque here.
#[verifier::external_type_specification]
#[verifier::external_body]
pub struct ExSeverity(Severity);

/// Messages by language tag; `None` is the key of the untagged message.
pub type Messages = Map<Option<Seq<char>>, Seq<char>>;

/// What a [`Path`] is.
pub ghost struct PathV {
    pub text: Seq<char>,
    pub plain: bool,
}

/// What a [`Finding`] is.
pub ghost struct FindingV {
    pub focus: NodeV,
    pub path: Option<SHACLPath>,
    pub component: NodeV,
    pub value: Option<NodeV>,
    pub source: Option<NodeV>,
    pub severity: Seq<char>,
    pub messages: Messages,
}

/// The results of a report.
pub uninterp spec fn report_results(report: ValidationReport) -> Seq<ValidationResult>;

/// Whether a report says that the data conforms.
pub uninterp spec fn report_conforms(report: ValidationReport) -> bool;

/// What a result says.
pub uninterp spec fn finding(result: ValidationResult) -> FindingV;

/// The messages of a message map.
pub uninterp spec fn messages_of(messages: MessageMap) -> Messages;

/// The IRI of a severity.
pub uninterp spec fn severity_iri(severity: Severity) -> Seq<char>;

/// A property path as text, and whether it is a single predicate.
pub uninterp spec fn path_view(path: SHACLPath) -> PathV;

/// `ValidationReport::results`: the results of a report.
pub assume_specification[ ValidationReport::results ](report: &ValidationReport) -> (r: &Vec<
    ValidationResult,
>)
    ensures
        r@ == report_results(*report),
;

/// `ValidationReport::conforms`: whether a report says that the data conforms.
pub assume_specification[ ValidationReport::conforms ](report: &ValidationReport) -> (r: bool)
    ensures
        r == report_conforms(*report),
;

/// `ValidationReport::with_results`: the report with other results, and what it says of
/// conformance unchanged.
pub assume_specification[ ValidationReport::with_results ](
    report: ValidationReport,
    results: Vec<ValidationResult>,
) -> (r: ValidationReport)
    ensures
        report_results(r) == results@,
        report_conforms(r) == report_conforms(report),
;

/// `ValidationReport::clone`: a report with the same results and conformance.
pub assume_specification[ <ValidationReport as Clone>::clone ](
    report: &ValidationReport,
) -> (r: ValidationReport)
    ensures
        report_results(r) == report_results(*report),
        report_conforms(r) == report_conforms(*report),
;

/// `ValidationResult::focus_node`: the focus node of a result.
pub assume_specification[ ValidationResult::focus_node ](result: &ValidationResult) -> (r: &Object)
    ensures
        object_node(*r) == finding(*result).focus,
;

/// `ValidationResult::constraint_component`: the constraint component of a result.
pub assume_specification[ ValidationResult::constraint_component ](
    result: &ValidationResult,
) -> (r: &Object)
    ensures
        object_node(*r) == finding(*result).component,
;

/// The node that an optional term is.
pub open spec fn object_option(object: Option<&Object>) -> Option<NodeV> {
    match object {
        Some(object) => Some(object_node(*object)),
        None => None,
    }
}

/// `ValidationResult::value`: the value node of a result that has one.
pub assume_specification[ ValidationResult::value ](result: &ValidationResult) -> (r: Option<
    &Object,
>)
    ensures
        object_option(r) == finding(*result).value,
;

/// `ValidationResult::source`: the source shape of a result that has one.
pub assume_specification[ ValidationResult::source ](result: &ValidationResult) -> (r: Option<
    &Object,
>)
    ensures
        object_option(r) == finding(*result).source,
;

/// `ValidationResult::severity`: the severity of a result.
pub assume_specification[ ValidationResult::severity ](result: &ValidationResult) -> (r: &Severity)
    ensures
        severity_iri(*r) == finding(*result).severity,
;

/// `IriS::from` on a severity, as text: the IRI of the severity.
#[verifier::external_body]
fn severity_text(severity: &Severity) -> (r: String)
    ensures
        r@ == severity_iri(*severity),
{
    IriS::from(severity).as_str().to_string()
}

/// An optional path.
pub open spec fn path_option(path: Option<&SHACLPath>) -> Option<SHACLPath> {
    match path {
        Some(path) => Some(*path),
        None => None,
    }
}

/// `SHACLPath::clone`: the same path.
pub assume_specification[ <SHACLPath as Clone>::clone ](path: &SHACLPath) -> (r: SHACLPath)
    ensures
        r == *path,
;

/// `ValidationResult::path`: the path of a result that has one.
pub assume_specification[ ValidationResult::path ](result: &ValidationResult) -> (r: Option<
    &SHACLPath,
>)
    ensures
        path_option(r) == finding(*result).path,
;

/// `ValidationResult::message`: the messages of a result.
pub assume_specification[ ValidationResult::message ](
    result: &ValidationResult,
) -> (r: &MessageMap)
    ensures
        messages_of(*r) == finding(*result).messages,
;

/// A finding with other messages.
pub open spec fn with_messages(f: FindingV, messages: Messages) -> FindingV {
    FindingV { messages, ..f }
}

/// `ValidationResult::with_message`: the result with other messages, and all else unchanged.
pub assume_specification[ ValidationResult::with_message ](
    result: ValidationResult,
    message: MessageMap,
) -> (r: ValidationResult)
    ensures
        finding(r) == with_messages(finding(result), messages_of(message)),
;

/// `ValidationResult::clone`: a result that says the same.
pub assume_specification[ <ValidationResult as Clone>::clone ](
    result: &ValidationResult,
) -> (r: ValidationResult)
    ensures
        r == *result,
;

/// No messages at all.
pub open spec fn no_messages() -> Messages {
    Map::empty()
}

/// `MessageMap::new`: no messages.
pub assume_specification[ MessageMap::new ]() -> (r: MessageMap)
    ensures
        messages_of(r) == no_messages(),
;

/// `MessageMap::with_message`: the messages with one more, in the place of the one that had the
/// same tag.
pub assume_specification[ MessageMap::with_message ](
    messages: MessageMap,
    lang: Option<Lang>,
    message: String,
) -> (r: MessageMap)
    ensures
        messages_of(r) == messages_of(messages).insert(tag_option(lang), message@),
;

/// A message and its language tag.
pub struct Message {
    pub lang: Option<Lang>,
    pub text: String,
}

/// What a [`Message`] is.
pub ghost struct MessageV {
    pub tag: Option<Seq<char>>,
    pub text: Seq<char>,
}

impl View for Message {
    type V = MessageV;

    open spec fn view(&self) -> MessageV {
        MessageV { tag: tag_option(self.lang), text: self.text@ }
    }
}

/// Messages in a row, by language tag: of two with one tag, the later.
pub open spec fn message_map(messages: Seq<Message>) -> Messages
    decreases messages.len(),
{
    if messages.len() == 0 {
        Map::empty()
    } else {
        message_map(messages.drop_last()).insert(messages.last()@.tag, messages.last()@.text)
    }
}

/// Whether no two messages have one tag.
pub open spec fn distinct_tags(messages: Seq<Message>) -> bool {
    forall|i: int, j: int|
        0 <= i < j < messages.len() ==> (#[trigger] messages[i])@.tag != (#[trigger] messages[j])@.tag
}

/// `MessageMap::iter`, collected: every message once, in an order that differs from one run to
/// another.
#[verifier::external_body]
fn entries(messages: &MessageMap) -> (r: Vec<Message>)
    ensures
        message_map(r@) == messages_of(*messages),
        distinct_tags(r@),
{
    messages.iter().map(|(lang, text)| Message { lang: lang.clone(), text: text.clone() }).collect()
}

/// A property path: its text, and whether it is a single predicate, whose IRI the text then is.
pub struct Path {
    pub text: String,
    pub plain: bool,
}

impl View for Path {
    type V = PathV;

    open spec fn view(&self) -> PathV {
        PathV { text: self.text@, plain: self.plain }
    }
}

/// `SHACLPath` displayed, and whether `SHACLPath::pred` gives a predicate: functions of the path
/// alone.
#[verifier::external_body]
pub(crate) fn path_of(path: &SHACLPath) -> (r: Path)
    ensures
        r@ == path_view(*path),
{
    Path { text: path.to_string(), plain: path.pred().is_some() }
}

/// One result of the validator, as plain values.
pub struct Finding {
    pub focus: Node,
    pub path: Option<SHACLPath>,
    pub component: Node,
    pub value: Option<Node>,
    pub source: Option<Node>,
    pub severity: String,
    pub messages: Vec<Message>,
}

/// The node of an optional node.
pub open spec fn node_option(node: Option<Node>) -> Option<NodeV> {
    match node {
        Some(node) => Some(node@),
        None => None,
    }
}

impl View for Finding {
    type V = FindingV;

    open spec fn view(&self) -> FindingV {
        FindingV {
            focus: self.focus@,
            path: self.path,
            component: self.component@,
            value: node_option(self.value),
            source: node_option(self.source),
            severity: self.severity@,
            messages: message_map(self.messages@),
        }
    }
}

impl Finding {
    /// No two messages of a finding have one tag.
    pub open spec fn well_formed(&self) -> bool {
        distinct_tags(self.messages@)
    }
}

/// What a result says, as plain values.
pub fn finding_of(result: &ValidationResult) -> (r: Finding)
    ensures
        r@ == finding(*result),
        r.well_formed(),
{
    let value = match result.value() {
        Some(value) => Some(node_of(value)),
        None => None,
    };
    let source = match result.source() {
        Some(source) => Some(node_of(source)),
        None => None,
    };
    let path = match result.path() {
        Some(path) => Some(path.clone()),
        None => None,
    };
    Finding {
        focus: node_of(result.focus_node()),
        path,
        component: node_of(result.constraint_component()),
        value,
        source,
        severity: severity_text(result.severity()),
        messages: entries(result.message()),
    }
}

/// What the results of a report say.
pub open spec fn findings_view(report: ValidationReport) -> Seq<FindingV> {
    report_results(report).map_values(|result: ValidationResult| finding(result))
}

/// What the results of a report say, as plain values.
pub fn findings_of(report: &ValidationReport) -> (r: Vec<Finding>)
    ensures
        views(r@) == findings_view(*report),
        forall|i: int| 0 <= i < r@.len() ==> (#[trigger] r@[i]).well_formed(),
{
    let results = report.results();
    let ghost f = |result: ValidationResult| finding(result);
    let mut out: Vec<Finding> = Vec::new();
    let mut i: usize = 0;
    while i < results.len()
        invariant
            i <= results@.len(),
            i == out@.len(),
            f == (|result: ValidationResult| finding(result)),
            views(out@) == results@.take(i as int).map_values(f),
            forall|k: int| 0 <= k < out@.len() ==> (#[trigger] out@[k]).well_formed(),
        decreases results@.len() - i,
    {
        let next = finding_of(&results[i]);
        let ghost before = views(out@);
        out.push(next);
        assert(views(out@) =~= before.push(next@));
        assert(results@.take(i + 1) =~= results@.take(i as int).push(results@[i as int]));
        assert(views(out@) =~= results@.take(i + 1).map_values(f));
        i += 1;
    }
    assert(results@.take(i as int) =~= results@);
    out
}

} // verus!
