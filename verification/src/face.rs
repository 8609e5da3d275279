//! The two faces of a report: JSON, and Turtle.

use shacl::validator::report::ValidationReport;
use vstd::prelude::*;

use crate::engine::run;
use crate::error::Error;
use crate::json::{
    borrowed, deeper, quote, write_array, write_member, write_object, write_term, write_text_member,
};
use crate::report::{Report, ReportResult, ValidationOutcome};
use crate::template::resolve_messages;
use crate::term::Term;
use crate::text::{chars_of, same_text, text_of, trim_bounds};
use crate::turtle::report_turtle;
#[allow(unused_imports)]
use crate::{
    answers::{
        answers, answers_have_the_face, face_tells, faces_tell_what_was_found, has_the_face,
        is_json_asked, json_is_asked_for_by_name, reports, signs, validating_answers,
        validating_reports,
    },
    document::{at_depth, report_spelled, reports_are_spelled},
    engine::run_outcome,
    entries::{report_tells, reports_tell_what_was_found},
    error::{outcome, plain, ErrorV},
    finding::{findings_view, report_conforms, FindingV},
    json::{array, layout, member, nested, object, quoted, term_json, Layout},
    order::views,
    report::{outcome_view, report_view, ReportV, ResultV},
    template::resolved_finding,
    term::{term_option, text_option, TermV},
    text::trimmed,
    turtle::turtle_outcome,
};

verus! {

/// The media type of the report as a graph.
pub const TURTLE: &'static str = "text/turtle";

/// The media type of the report as data.
pub const JSON: &'static str = "application/json";

/// The JSON of an optional text.
pub open spec fn text_or_null(s: Option<Seq<char>>) -> Seq<char> {
    match s {
        Some(s) => quoted(s),
        None => "null"@,
    }
}

/// The JSON of an optional term.
pub open spec fn term_or_null(t: Option<TermV>, l: Layout) -> Seq<char> {
    match t {
        Some(t) => term_json(t, l),
        None => "null"@,
    }
}

/// The members of the JSON of a result: the three keys of the signature, then `message` and
/// `value`.
pub open spec fn result_members(r: ResultV, l: Layout) -> Seq<Seq<char>> {
    seq![
        member("focus_node"@, quoted(r.focus_node), l),
        member("path"@, text_or_null(r.path), l),
        member("component"@, quoted(r.component), l),
        member("message"@, term_or_null(r.message, nested(l)), l),
        member("value"@, term_or_null(r.value, nested(l)), l),
    ]
}

/// The JSON of a result.
pub open spec fn result_json(r: ResultV, l: Layout) -> Seq<char> {
    object(result_members(r, l), l)
}

/// The JSON of a report.
pub open spec fn report_json(r: ReportV, l: Layout) -> Seq<char> {
    object(
        seq![
            member(
                "conforms"@,
                if r.conforms {
                    "true"@
                } else {
                    "false"@
                },
                l,
            ),
            member(
                "violations"@,
                array(
                    r.violations.map_values(
                        |result: ResultV| result_json(result, nested(nested(l))),
                    ),
                    nested(l),
                ),
                l,
            ),
        ],
        l,
    )
}

/// The text of the JSON face: indented by two spaces a level.
pub open spec fn json_text(r: ReportV) -> Seq<char> {
    report_json(r, Some(Seq::empty()))
}

fn write_text_or_null(s: &Option<String>) -> (r: String)
    ensures
        r@ == text_or_null(text_option(*s)),
{
    match s {
        Some(s) => quote(s.as_str()),
        None => {
            let mut out = String::new();
            out.append("null");
            assert(out@ =~= "null"@);
            out
        },
    }
}

fn write_term_or_null(t: &Option<Term>, indent: Option<&str>) -> (r: String)
    ensures
        r@ == term_or_null(term_option(*t), layout(indent)),
{
    match t {
        Some(t) => write_term(t, indent),
        None => {
            let mut out = String::new();
            out.append("null");
            assert(out@ =~= "null"@);
            out
        },
    }
}

fn write_result(result: &ReportResult, indent: Option<&str>) -> (r: String)
    ensures
        r@ == result_json(result@, layout(indent)),
{
    let once = deeper(indent);
    let inner = borrowed(&once);
    let path = write_text_or_null(&result.path);
    let message = write_term_or_null(&result.message, inner);
    let value = write_term_or_null(&result.value, inner);
    let mut members: Vec<String> = Vec::new();
    members.push(write_text_member("focus_node", result.focus_node.as_str(), indent));
    members.push(write_member("path", path.as_str(), indent));
    members.push(write_text_member("component", result.component.as_str(), indent));
    members.push(write_member("message", message.as_str(), indent));
    members.push(write_member("value", value.as_str(), indent));
    assert(layout(inner) == nested(layout(indent)));
    assert(views(members@) =~= result_members(result@, layout(indent)));
    write_object(&members, indent)
}

/// Writes a report as JSON.
pub fn write_report_json(report: &Report, indent: Option<&str>) -> (r: String)
    ensures
        r@ == report_json(report@, layout(indent)),
        forall|depth: Option<nat>| #[trigger]
            at_depth(depth) == layout(indent) ==> r@ == report_spelled(report@, depth),
{
    proof {
        assert forall|depth: Option<nat>| #[trigger]
            at_depth(depth) == layout(indent) implies report_json(report@, layout(indent))
            == report_spelled(report@, depth) by {
            reports_are_spelled(report@, depth);
        }
    }
    let ghost l = layout(indent);
    let once = deeper(indent);
    let inner = borrowed(&once);
    let twice = deeper(inner);
    let innermost = borrowed(&twice);
    assert(layout(inner) == nested(l));
    assert(layout(innermost) == nested(nested(l)));
    let ghost f = |result: ResultV| result_json(result, nested(nested(l)));
    let ghost all = views(report.violations@);
    let mut results: Vec<String> = Vec::new();
    let mut i: usize = 0;
    while i < report.violations.len()
        invariant
            i <= report.violations@.len(),
            layout(innermost) == nested(nested(l)),
            f == (|result: ResultV| result_json(result, nested(nested(l)))),
            all == views(report.violations@),
            views(results@) == all.take(i as int).map_values(f),
        decreases report.violations@.len() - i,
    {
        let next = write_result(&report.violations[i], innermost);
        let ghost before = views(results@);
        results.push(next);
        assert(views(results@) =~= before.push(next@));
        assert(all.take(i + 1) =~= all.take(i as int).push(all[i as int]));
        assert(views(results@) =~= all.take(i + 1).map_values(f));
        i += 1;
    }
    assert(all.take(i as int) =~= all);
    let violations = write_array(&results, inner);
    let mut members: Vec<String> = Vec::new();
    members.push(
        write_member(
            "conforms",
            if report.conforms {
                "true"
            } else {
                "false"
            },
            indent,
        ),
    );
    members.push(write_member("violations", violations.as_str(), indent));
    assert(views(members@) =~= seq![
        member(
            "conforms"@,
            if report.conforms {
                "true"@
            } else {
                "false"@
            },
            l,
        ),
        member("violations"@, array(all.map_values(f), nested(l)), l),
    ]);
    write_object(&members, indent)
}

/// The findings of the validator's report, with their messages resolved.
pub open spec fn resolved_findings(report: ValidationReport) -> Seq<FindingV> {
    findings_view(report).map_values(|f: FindingV| resolved_finding(f))
}

/// What the validator's report comes to as data.
pub open spec fn report_data(report: ValidationReport) -> ReportV {
    report_view(report_conforms(report), resolved_findings(report))
}

/// The [`Report`] that the validator's report comes to.
pub fn report_of(report: ValidationReport) -> (r: Report)
    ensures
        r@ == report_data(report),
        report_tells(r@, report),
{
    proof {
        reports_tell_what_was_found(report);
    }
    Report::from_report(&resolve_messages(report))
}

/// Whether `r` may come of validating: the validator ran, and `r` is its error or what its
/// report comes to.
pub open spec fn validate_report_outcome(
    data_ttl: Seq<char>,
    shapes_ttl: Seq<char>,
    r: Result<ReportV, ErrorV>,
) -> bool {
    exists|raw: Result<ValidationReport, ErrorV>| #[trigger]
        run_outcome(data_ttl, shapes_ttl, raw) && r == (match raw {
            Ok(report) => Ok(report_data(report)),
            Err(e) => Err(e),
        })
}

/// Validates `data_ttl` against `shapes_ttl`, returning the full [`Report`], which the JSON face
/// shows.
pub fn validate_report(data_ttl: &str, shapes_ttl: &str) -> (r: Result<Report, Error>)
    ensures
        validate_report_outcome(data_ttl@, shapes_ttl@, outcome(r)),
        reports(data_ttl@, shapes_ttl@, outcome(r)),
{
    let raw = run(data_ttl, shapes_ttl);
    assert(run_outcome(data_ttl@, shapes_ttl@, plain(raw)));
    let r = match raw {
        Ok(report) => Ok(report_of(report)),
        Err(e) => Err(e),
    };
    proof {
        validating_reports(data_ttl@, shapes_ttl@, outcome(r));
    }
    r
}

/// Validates `data_ttl` against `shapes_ttl`, returning the portable [`ValidationOutcome`]: the
/// outcome of a report that [`validate_report`] may return.
pub fn validate_outcome(data_ttl: &str, shapes_ttl: &str) -> (r: Result<ValidationOutcome, Error>)
    ensures
        exists|report: Result<ReportV, ErrorV>| #[trigger]
            validate_report_outcome(data_ttl@, shapes_ttl@, report) && outcome(r) == (
            match report {
                Ok(report) => Ok(outcome_view(report)),
                Err(e) => Err(e),
            }),
        signs(data_ttl@, shapes_ttl@, outcome(r)),
{
    proof {
        assert forall|r: Result<ReportV, ErrorV>| #[trigger]
            validate_report_outcome(data_ttl@, shapes_ttl@, r) implies signs(
            data_ttl@,
            shapes_ttl@,
            match r {
                Ok(told) => Ok(outcome_view(told)),
                Err(e) => Err(e),
            },
        ) by {
            validating_reports(data_ttl@, shapes_ttl@, r);
        }
    }
    let report = validate_report(data_ttl, shapes_ttl);
    assert(validate_report_outcome(data_ttl@, shapes_ttl@, outcome(report)));
    match report {
        Ok(report) => Ok(report.outcome()),
        Err(e) => Err(e),
    }
}

/// A body with its media type.
#[derive(PartialEq, Eq, Clone, Debug)]
pub struct Representation {
    pub media: String,
    pub charset: String,
    pub bytes: Vec<u8>,
    pub cacheable: bool,
}

/// What a [`Representation`] is.
pub ghost struct RepresentationV {
    pub media: Seq<char>,
    pub charset: Seq<char>,
    pub bytes: Seq<u8>,
    pub cacheable: bool,
}

impl View for Representation {
    type V = RepresentationV;

    open spec fn view(&self) -> RepresentationV {
        RepresentationV {
            media: self.media@,
            charset: self.charset@,
            bytes: self.bytes@,
            cacheable: self.cacheable,
        }
    }
}

/// A text with a media type: UTF-8, and cacheable.
pub open spec fn repr_view(media: Seq<char>, body: Seq<char>) -> RepresentationV {
    RepresentationV {
        media,
        charset: "utf-8"@,
        bytes: vstd::utf8::encode_utf8(body),
        cacheable: true,
    }
}

/// A representation from a media type and a body.
pub fn repr(media: &str, body: String) -> (r: Representation)
    ensures
        r@ == repr_view(media@, body@),
{
    let mut owned = String::new();
    owned.append(media);
    let mut charset = String::new();
    charset.append("utf-8");
    assert(owned@ =~= media@);
    assert(charset@ =~= "utf-8"@);
    Representation { media: owned, charset, bytes: body.as_str().as_bytes_vec(), cacheable: true }
}

/// A text up to its first semicolon.
pub open spec fn before_semicolon(s: Seq<char>) -> Seq<char>
    decreases s.len(),
{
    if s.len() == 0 || s[0] == ';' {
        Seq::empty()
    } else {
        seq![s[0]] + before_semicolon(s.drop_first())
    }
}

/// Whether a media type, whatever its parameters, asks for the JSON face. Any other asks for
/// the graph.
pub open spec fn asks_json(as_type: Seq<char>) -> bool {
    trimmed(before_semicolon(as_type)) == JSON@
}

/// Whether a media type asks for the JSON face.
pub fn wants_json(as_type: &str) -> (r: bool)
    ensures
        r == asks_json(as_type@),
        r == is_json_asked(as_type@),
{
    proof {
        json_is_asked_for_by_name(as_type@);
    }
    let text = chars_of(as_type);
    let mut essence: Vec<char> = Vec::new();
    let mut i: usize = 0;
    assert(text@.skip(0) =~= text@);
    assert(before_semicolon(text@) =~= essence@ + before_semicolon(text@.skip(0)));
    while i < text.len() && text[i] != ';'
        invariant
            i <= text@.len(),
            before_semicolon(text@) == essence@ + before_semicolon(text@.skip(i as int)),
        decreases text@.len() - i,
    {
        let ghost before = essence@;
        essence.push(text[i]);
        assert(text@.skip(i as int).drop_first() =~= text@.skip(i + 1));
        assert(essence@ + before_semicolon(text@.skip(i + 1)) =~= before + before_semicolon(
            text@.skip(i as int),
        ));
        i += 1;
    }
    assert(essence@ =~= before_semicolon(text@));
    let (from, to) = trim_bounds(&essence);
    let media = text_of(&essence, from, to);
    same_text(media.as_str(), JSON)
}

/// Whether one report of the validator is another with its messages resolved.
pub open spec fn resolves_to(report: ValidationReport, resolved: ValidationReport) -> bool {
    report_conforms(resolved) == report_conforms(report) && findings_view(resolved)
        == resolved_findings(report)
}

/// Whether `r` may come of showing the validator's report as a media type asks.
pub open spec fn face_outcome(
    report: ValidationReport,
    as_type: Seq<char>,
    r: Result<RepresentationV, ErrorV>,
) -> bool {
    if asks_json(as_type) {
        r == Ok::<RepresentationV, ErrorV>(repr_view(JSON@, json_text(report_data(report))))
    } else {
        exists|written: ValidationReport, text: Result<Seq<char>, ErrorV>|
            resolves_to(report, written) && #[trigger] turtle_outcome(written, text) && r == (
            match text {
                Ok(text) => Ok(repr_view(TURTLE@, text)),
                Err(e) => Err(e),
            })
    }
}

/// Shows the validator's report as `as_type` asks: the [`Report`] as JSON, or else the report
/// graph as Turtle. Both faces carry the same results with the same resolved messages.
pub fn show(report: ValidationReport, as_type: &str) -> (r: Result<Representation, Error>)
    ensures
        face_outcome(report, as_type@, outcome(r)),
        face_tells(report, as_type@, outcome(r)),
{
    proof {
        assert forall|r: Result<RepresentationV, ErrorV>| #[trigger]
            face_outcome(report, as_type@, r) implies face_tells(report, as_type@, r) by {
            faces_tell_what_was_found(report, as_type@, r);
        }
    }
    if wants_json(as_type) {
        let body = write_report_json(&report_of(report), Some(""));
        proof {
            reveal_strlit("");
            assert(""@ =~= Seq::<char>::empty());
        }
        let r = Ok(repr(JSON, body));
        assert(face_outcome(report, as_type@, outcome(r)));
        r
    } else {
        let resolved = resolve_messages(report);
        let text = report_turtle(&resolved);
        assert(resolves_to(report, resolved) && turtle_outcome(resolved, outcome(text)));
        let r = match text {
            Ok(body) => Ok(repr(TURTLE, body)),
            Err(e) => Err(e),
        };
        assert(face_outcome(report, as_type@, outcome(r)));
        r
    }
}

/// Whether `r` may come of validating and showing the report as a media type asks.
pub open spec fn representation_outcome(
    data_ttl: Seq<char>,
    shapes_ttl: Seq<char>,
    as_type: Seq<char>,
    r: Result<RepresentationV, ErrorV>,
) -> bool {
    exists|raw: Result<ValidationReport, ErrorV>| #[trigger]
        run_outcome(data_ttl, shapes_ttl, raw) && match raw {
            Ok(report) => face_outcome(report, as_type, r),
            Err(e) => r == Err::<RepresentationV, ErrorV>(e),
        }
}

/// Validates, rendering as `as_type` asks.
pub fn validate(data_ttl: &str, shapes_ttl: &str, as_type: &str) -> (r: Result<
    Representation,
    Error,
>)
    ensures
        representation_outcome(data_ttl@, shapes_ttl@, as_type@, outcome(r)),
        answers(data_ttl@, shapes_ttl@, as_type@, outcome(r)),
        outcome(r) matches Ok(answer) ==> has_the_face(as_type@, answer),
{
    let raw = run(data_ttl, shapes_ttl);
    assert(run_outcome(data_ttl@, shapes_ttl@, plain(raw)));
    let r = match raw {
        Ok(report) => show(report, as_type),
        Err(e) => Err(e),
    };
    proof {
        validating_answers(data_ttl@, shapes_ttl@, as_type@, outcome(r));
        if r is Ok {
            answers_have_the_face(data_ttl@, shapes_ttl@, as_type@, r->Ok_0@);
        }
    }
    r
}

} // verus!
