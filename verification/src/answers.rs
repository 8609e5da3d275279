//! What a call is answered: by what the validator found and by nothing else, in the face that was
//! asked for, however the shapes come.

use shacl::ast::ASTSchema;
use shacl::ir::IRSchema;
use shacl::validator::report::ValidationReport;
use sparql_service::RdfData;
use vstd::prelude::*;

#[allow(unused_imports)]
use crate::{
    arrange::{in_order, in_order_holds, rank_view, Rank},
    document::{labels_are_spelled, report_spelled, reports_are_spelled},
    endpoint::{
        answered, as_or_default, begin_outcome, description_view, faces, inline_outcome, is_inline,
        kernel_iri_fault, resume_outcome, source_outcome, SourceV, StepV, Verb,
    },
    engine::{
        data_outcome, data_triples, parse_heading, returned, run_outcome, shape_compilations,
        shape_readings, shapes_outcome, shapes_read, turtle_graphs, validation_outcome, validations,
    },
    entries::{
        each_shown, entries_show_findings, entry_shows, every_message_is_filled, is_filled,
        outcome_tells, report_tells, reports_tell_what_was_found, some_order,
    },
    error::{failure_view, ErrorV},
    face::{
        asks_json, before_semicolon, face_outcome, report_data, repr_view, representation_outcome,
        resolved_findings, resolves_to, validate_report_outcome, RepresentationV,
    },
    facts::{facts_of, FactV},
    finding::{findings_view, report_conforms, FindingV},
    graph::{stored_triple, triple_parts, turtle_documents},
    hazards::{data_is_refused_for_a_reason, is_unfit},
    label::encoded_label,
    limits::{read_fault, run_fault},
    meaning::{
        all_white, cores_agree, entries_are_ordered, entry_le, is_tight, is_white, surrounds,
        trimming_takes_the_white_space,
    },
    names::name_under,
    order::{at_most, ranked, ranked_is_the_sorting},
    rdf::{NodeV, ResourceV},
    refusals::{is_unreadable, shapes_are_refused_for_a_reason},
    report::{outcome_view, result_view, OutcomeV, ReportV, ResultV},
    skolem::{
        claims, content_address, graph_text, named_triple, quotes, readable, report_scheme,
        skolem_graph, without_blank,
    },
    template::resolved_finding,
    text::{trimmed, trimmed_start, utf8_fault},
    turtle::{
        document_outcome, report_graph, report_prefixes, report_written, served, turtle_outcome,
        unquoted, writable,
    },
};

verus! {

/// Whether a graph was read from a text, its shapes from the graph, and compiled shapes from
/// those.
pub open spec fn compiles(
    text: Seq<char>,
    source: RdfData,
    read: ASTSchema,
    shapes: IRSchema,
) -> bool {
    &&& turtle_graphs(text).contains(Ok(source))
    &&& shape_readings(source).contains(Ok(read))
    &&& shape_compilations(read).contains(Ok(shapes))
}

/// The facts of a graph of the validator.
pub open spec fn facts_in(graph: RdfData) -> Set<FactV> {
    facts_of(data_triples(graph))
}

/// Whether an error has a heading, and then says why.
pub open spec fn says_why(e: ErrorV, heading: Seq<char>, why: Seq<char>) -> bool {
    e == ErrorV::Endpoint(heading + why)
}

/// Whether the validator was run on the graphs that two texts were read as, which it can take, and
/// came to a report.
pub open spec fn found(
    data_ttl: Seq<char>,
    shapes_ttl: Seq<char>,
    report: ValidationReport,
) -> bool {
    exists|source: RdfData, read: ASTSchema, shapes: IRSchema, data: RdfData|
        #![trigger compiles(shapes_ttl, source, read, shapes), validations(data, shapes)]
        {
            &&& compiles(shapes_ttl, source, read, shapes)
            &&& turtle_graphs(data_ttl).contains(Ok(data))
            &&& is_legible(source)
            &&& is_fit(source, data)
            &&& validations(data, shapes).contains(Ok(report))
        }
}

/// Whether the validator may be given the shapes of a graph to read.
pub open spec fn is_legible(source: RdfData) -> bool {
    forall|why: Seq<char>| !#[trigger] is_unreadable(facts_in(source), why)
}

/// Whether the shapes of a text failed: the text was no graph, or its shapes could not be read, or
/// could not be compiled.
pub open spec fn shapes_failed(text: Seq<char>, e: ErrorV) -> bool {
    ||| exists|why: Seq<char>| #[trigger]
        turtle_graphs(text).contains(Err(why)) && says_why(
            e,
            "urn:shacl:validate: shapes graph parse error: "@,
            why,
        )
    ||| exists|source: RdfData, why: Seq<char>|
        #![trigger turtle_graphs(text).contains(Ok(source)), is_unreadable(facts_in(source), why)]
        turtle_graphs(text).contains(Ok(source)) && is_unreadable(facts_in(source), why)
            && says_why(e, "urn:shacl:validate: shapes parse error: "@, why)
    ||| exists|source: RdfData, why: Seq<char>|
        turtle_graphs(text).contains(Ok(source)) && is_legible(source)
            && #[trigger] shape_readings(source).contains(Err(why)) && says_why(
            e,
            "urn:shacl:validate: shapes parse error: "@,
            why,
        )
    ||| exists|source: RdfData, read: ASTSchema, why: Seq<char>|
        turtle_graphs(text).contains(Ok(source)) && is_legible(source)
            && #[trigger] shape_readings(source).contains(Ok(read))
            && #[trigger] shape_compilations(read).contains(Err(why)) && says_why(
            e,
            "urn:shacl:validate: shapes compile error: "@,
            why,
        )
}

/// Whether the validator may be given data to hold against shapes.
pub open spec fn is_fit(source: RdfData, data: RdfData) -> bool {
    forall|why: Seq<char>| !#[trigger] is_unfit(facts_in(source), facts_in(data), why)
}

/// Whether data failed against compiled shapes: the text was no graph, or it could not be held
/// against the shapes, or the validator failed.
pub open spec fn data_failed(data_ttl: Seq<char>, shapes_ttl: Seq<char>, e: ErrorV) -> bool {
    exists|source: RdfData, read: ASTSchema, shapes: IRSchema| #[trigger]
        compiles(shapes_ttl, source, read, shapes) && is_legible(source) && {
            ||| exists|why: Seq<char>| #[trigger]
                turtle_graphs(data_ttl).contains(Err(why)) && says_why(
                    e,
                    "urn:shacl:validate: data graph parse error: "@,
                    why,
                )
            ||| exists|data: RdfData, why: Seq<char>|
                turtle_graphs(data_ttl).contains(Ok(data)) && #[trigger] is_unfit(
                    facts_in(source),
                    facts_in(data),
                    why,
                ) && says_why(e, "urn:shacl:validate: validation error: "@, why)
            ||| exists|data: RdfData, why: Seq<char>|
                turtle_graphs(data_ttl).contains(Ok(data)) && is_fit(source, data)
                    && #[trigger] validations(data, shapes).contains(Err(why)) && says_why(
                    e,
                    "urn:shacl:validate: validation error: "@,
                    why,
                )
        }
}

/// Whether an error is one that a run may come to: some step failed, or a graph was refused for a
/// reason.
pub open spec fn failed(data_ttl: Seq<char>, shapes_ttl: Seq<char>, e: ErrorV) -> bool {
    shapes_failed(shapes_ttl, e) || data_failed(data_ttl, shapes_ttl, e)
}

proof fn headings_are_told()
    ensures
        parse_heading("shapes"@) == "urn:shacl:validate: shapes graph parse error: "@,
        parse_heading("data"@) == "urn:shacl:validate: data graph parse error: "@,
{
    reveal_strlit("urn:shacl:validate: ");
    reveal_strlit("shapes");
    reveal_strlit("data");
    reveal_strlit(" graph parse error: ");
    reveal_strlit("urn:shacl:validate: shapes graph parse error: ");
    reveal_strlit("urn:shacl:validate: data graph parse error: ");
    assert(parse_heading("shapes"@) =~= "urn:shacl:validate: shapes graph parse error: "@);
    assert(parse_heading("data"@) =~= "urn:shacl:validate: data graph parse error: "@);
}

proof fn shapes_failures_are_told(text: Seq<char>, e: ErrorV)
    requires
        shapes_outcome(text, Err(e)),
    ensures
        shapes_failed(text, e),
{
    headings_are_told();
    let heading = "urn:shacl:validate: shapes parse error: "@;
    if data_outcome(text, "shapes"@, Err(e)) {
        let why = choose|why: Seq<char>| #[trigger]
            turtle_graphs(text).contains(Err(why)) && e == failure_view(
                parse_heading("shapes"@),
                why,
            );
        assert(turtle_graphs(text).contains(Err(why)));
    } else {
        let source = choose|source: RdfData| #[trigger] shapes_read(text, source, Err(e));
        let facts = facts_in(source);
        shapes_are_refused_for_a_reason(facts);
        match read_fault(facts) {
            Some(why) => {
                assert(is_unreadable(facts_in(source), why));
                assert(says_why(e, heading, why));
            },
            None => {
                assert(is_legible(source));
                let read = choose|read: Result<ASTSchema, ErrorV>| #[trigger]
                    returned(shape_readings(source), heading, read) && match read {
                        Err(f) => f == e,
                        Ok(shapes) => returned(
                            shape_compilations(shapes),
                            "urn:shacl:validate: shapes compile error: "@,
                            Err::<IRSchema, ErrorV>(e),
                        ),
                    };
                match read {
                    Err(f) => {
                        let why = choose|why: Seq<char>| #[trigger]
                            shape_readings(source).contains(Err(why)) && f == failure_view(
                                heading,
                                why,
                            );
                        assert(shape_readings(source).contains(Err(why)));
                    },
                    Ok(shapes) => {
                        assert(shape_readings(source).contains(Ok(shapes)));
                        let why = choose|why: Seq<char>| #[trigger]
                            shape_compilations(shapes).contains(Err(why)) && e == failure_view(
                                "urn:shacl:validate: shapes compile error: "@,
                                why,
                            );
                        assert(shape_compilations(shapes).contains(Err(why)));
                    },
                }
            },
        }
    }
}

proof fn compiling_is_told(text: Seq<char>, source: RdfData, shapes: IRSchema)
    requires
        shapes_read(text, source, Ok(shapes)),
    ensures
        exists|read: ASTSchema| #[trigger] compiles(text, source, read, shapes),
        is_legible(source),
{
    let facts = facts_in(source);
    let heading = "urn:shacl:validate: shapes parse error: "@;
    shapes_are_refused_for_a_reason(facts);
    assert(read_fault(facts) is None);
    let read = choose|read: Result<ASTSchema, ErrorV>| #[trigger]
        returned(shape_readings(source), heading, read) && match read {
            Err(e) => Err::<IRSchema, ErrorV>(e) == Ok::<IRSchema, ErrorV>(shapes),
            Ok(read) => returned(
                shape_compilations(read),
                "urn:shacl:validate: shapes compile error: "@,
                Ok::<IRSchema, ErrorV>(shapes),
            ),
        };
    assert(compiles(text, source, read->Ok_0, shapes));
}

/// Whether `r` may come of compiling the shapes of a text: what the validator compiles of a graph
/// that it may be given, or why a step failed.
pub open spec fn compiling_comes_to(text: Seq<char>, r: Result<IRSchema, ErrorV>) -> bool {
    match r {
        Ok(shapes) => exists|source: RdfData, read: ASTSchema| #[trigger]
            compiles(text, source, read, shapes) && is_legible(source),
        Err(e) => shapes_failed(text, e),
    }
}

/// Compiling shapes hands the graph of a text to the validator and comes to what it compiles, and
/// to an error only where a step failed or the graph was refused for a reason.
pub proof fn compiling_is_answered(text: Seq<char>, r: Result<IRSchema, ErrorV>)
    requires
        shapes_outcome(text, r),
    ensures
        compiling_comes_to(text, r),
{
    match r {
        Ok(shapes) => {
            let source = choose|source: RdfData| #[trigger] shapes_read(text, source, Ok(shapes));
            compiling_is_told(text, source, shapes);
        },
        Err(e) => {
            shapes_failures_are_told(text, e);
        },
    }
}

/// Whether `r` may come of reading a graph: what the text is read as, or why it is none.
pub open spec fn reading_comes_to(
    text: Seq<char>,
    role: Seq<char>,
    r: Result<RdfData, ErrorV>,
) -> bool {
    match r {
        Ok(graph) => turtle_graphs(text).contains(Ok(graph)),
        Err(e) => exists|why: Seq<char>| #[trigger]
            turtle_graphs(text).contains(Err(why)) && says_why(
                e,
                "urn:shacl:validate: "@ + role + " graph parse error: "@,
                why,
            ),
    }
}

/// Reading a graph comes to what the text is read as, and to an error that says which graph it was
/// and why only where the text is none.
pub proof fn reading_is_answered(
    text: Seq<char>,
    role: Seq<char>,
    r: Result<RdfData, ErrorV>,
)
    requires
        data_outcome(text, role, r),
    ensures
        reading_comes_to(text, role, r),
{
}

/// Whether `r` may come of a run: what the validator found, or why a step failed.
pub open spec fn run_comes_to(
    data_ttl: Seq<char>,
    shapes_ttl: Seq<char>,
    r: Result<ValidationReport, ErrorV>,
) -> bool {
    match r {
        Ok(report) => found(data_ttl, shapes_ttl, report),
        Err(e) => failed(data_ttl, shapes_ttl, e),
    }
}

/// A run hands the graphs to the validator and comes to its report, and to an error only where a
/// step failed or a graph was refused for a reason.
pub proof fn runs_are_told(
    data_ttl: Seq<char>,
    shapes_ttl: Seq<char>,
    r: Result<ValidationReport, ErrorV>,
)
    requires
        run_outcome(data_ttl, shapes_ttl, r),
    ensures
        run_comes_to(data_ttl, shapes_ttl, r),
{
    headings_are_told();
    let heading = "urn:shacl:validate: validation error: "@;
    if r is Err && shapes_outcome(shapes_ttl, Err(r->Err_0)) {
        shapes_failures_are_told(shapes_ttl, r->Err_0);
    } else {
        let (source, shapes, data) = choose|
            source: RdfData,
            shapes: IRSchema,
            data: Result<RdfData, ErrorV>,
        |
            #![trigger shapes_read(shapes_ttl, source, Ok(shapes)), data_outcome(data_ttl, "data"@, data)]
            {
                &&& shapes_read(shapes_ttl, source, Ok(shapes))
                &&& data_outcome(data_ttl, "data"@, data)
                &&& match data {
                    Err(e) => r == Err::<ValidationReport, ErrorV>(e),
                    Ok(data) => validation_outcome(source, shapes, data, r),
                }
            };
        compiling_is_told(shapes_ttl, source, shapes);
        let read = choose|read: ASTSchema| #[trigger] compiles(shapes_ttl, source, read, shapes);
        match data {
            Err(e) => {
                let why = choose|why: Seq<char>| #[trigger]
                    turtle_graphs(data_ttl).contains(Err(why)) && e == failure_view(
                        parse_heading("data"@),
                        why,
                    );
                assert(turtle_graphs(data_ttl).contains(Err(why)));
                assert(data_failed(data_ttl, shapes_ttl, e));
            },
            Ok(data) => {
                let (a, b) = (facts_in(source), facts_in(data));
                data_is_refused_for_a_reason(a, b);
                match run_fault(a, b) {
                    Some(why) => {
                        assert(is_unfit(facts_in(source), facts_in(data), why));
                        assert(says_why(r->Err_0, heading, why));
                        assert(data_failed(data_ttl, shapes_ttl, r->Err_0));
                    },
                    None => {
                        assert(is_fit(source, data));
                        match r {
                            Ok(report) => {
                                assert(validations(data, shapes).contains(Ok(report)));
                            },
                            Err(e) => {
                                let why = choose|why: Seq<char>| #[trigger]
                                    validations(data, shapes).contains(Err(why)) && e
                                        == failure_view(heading, why);
                                assert(validations(data, shapes).contains(Err(why)));
                                assert(data_failed(data_ttl, shapes_ttl, e));
                            },
                        }
                    },
                }
            },
        }
    }
}

/// Whether a media type asks for JSON: its name, with white space around it, up to the first
/// semicolon.
pub open spec fn is_json_asked(as_type: Seq<char>) -> bool {
    exists|before: Seq<char>, after: Seq<char>, rest: Seq<char>|
        all_white(before) && all_white(after) && (rest.len() == 0 || rest[0] == ';')
            && #[trigger] (before + "application/json"@ + after + rest) == as_type
}

proof fn essence(media: Seq<char>, rest: Seq<char>)
    requires
        forall|i: int| 0 <= i < media.len() ==> #[trigger] media[i] != ';',
        rest.len() == 0 || rest[0] == ';',
    ensures
        before_semicolon(media + rest) == media,
    decreases media.len(),
{
    if media.len() == 0 {
        assert(media + rest =~= rest);
        assert(before_semicolon(rest) =~= media);
    } else {
        essence(media.drop_first(), rest);
        assert((media + rest).drop_first() =~= media.drop_first() + rest);
        assert(seq![media[0]] + media.drop_first() =~= media);
    }
}

proof fn semicolon_splits(s: Seq<char>) -> (rest: Seq<char>)
    ensures
        s == before_semicolon(s) + rest,
        rest.len() == 0 || rest[0] == ';',
    decreases s.len(),
{
    if s.len() == 0 || s[0] == ';' {
        assert(s =~= before_semicolon(s) + s);
        s
    } else {
        let rest = semicolon_splits(s.drop_first());
        assert(s =~= seq![s[0]] + s.drop_first());
        assert(before_semicolon(s) + rest =~= seq![s[0]] + (before_semicolon(s.drop_first())
            + rest));
        rest
    }
}

/// JSON is asked for by its name, and by nothing else.
pub proof fn json_is_asked_for_by_name(as_type: Seq<char>)
    ensures
        asks_json(as_type) <==> is_json_asked(as_type),
{
    let json = "application/json"@;
    reveal_strlit("application/json");
    if asks_json(as_type) {
        let rest = semicolon_splits(as_type);
        let media = before_semicolon(as_type);
        trimming_takes_the_white_space(media);
        let (before, after) = choose|before: Seq<char>, after: Seq<char>| #[trigger]
            surrounds(media, before, json, after);
        assert(before + json + after + rest == as_type);
    }
    if is_json_asked(as_type) {
        let (before, after, rest) = choose|before: Seq<char>, after: Seq<char>, rest: Seq<char>|
            all_white(before) && all_white(after) && (rest.len() == 0 || rest[0] == ';')
                && #[trigger] (before + json + after + rest) == as_type;
        let media = before + json + after;
        assert forall|i: int| 0 <= i < media.len() implies #[trigger] media[i] != ';' by {
            if i < before.len() {
                assert(media[i] == before[i]);
                assert(is_white(before[i]));
            } else if i < before.len() + json.len() {
                assert(media[i] == json[i - before.len()]);
            } else {
                assert(media[i] == after[i - before.len() - json.len()]);
                assert(is_white(after[i - before.len() - json.len()]));
            }
        }
        essence(media, rest);
        assert(is_tight(json));
        assert(surrounds(media, before, json, after));
        trimming_takes_the_white_space(media);
        cores_agree(media, trimmed(media), json);
    }
}

/// The name of a blank node of a graph.
pub open spec fn minted(graph: Set<oxrdf::Triple>, label: Seq<char>) -> Seq<char> {
    name_under(
        "urn:ikigai:shacl:report:"@ + content_address(vstd::utf8::encode_utf8(graph_text(graph)))
            + ":"@,
        label,
    )
}

/// A triple of a graph with names in the place of blank nodes, as the store holds it.
pub open spec fn renamed(graph: Set<oxrdf::Triple>, triple: oxrdf::Triple) -> oxrdf::Triple {
    let parts = triple_parts(triple);
    stored_triple(
        match parts.0 {
            ResourceV::Iri(iri) => ResourceV::Iri(iri),
            ResourceV::Blank(label) => ResourceV::Iri(minted(graph, label)),
        },
        parts.1,
        match parts.2->0 {
            NodeV::Blank(label) => NodeV::Iri(minted(graph, label)),
            object => object,
        },
    )
}

/// Whether a graph is another with its blank nodes named: its triples are those of the other,
/// renamed, and none has a blank node.
pub open spec fn names_its_blanks(named: Set<oxrdf::Triple>, graph: Set<oxrdf::Triple>) -> bool {
    &&& forall|t: oxrdf::Triple| #[trigger]
        graph.contains(t) ==> named.contains(renamed(graph, t))
    &&& forall|t: oxrdf::Triple| #[trigger]
        named.contains(t) ==> exists|u: oxrdf::Triple| #[trigger]
            graph.contains(u) && t == renamed(graph, u)
    &&& forall|t: oxrdf::Triple| #[trigger]
        named.contains(t) ==> triple_parts(t).0 is Iri && (triple_parts(t).2 matches Some(object)
            ==> !(object is Blank) && !(object is Triple))
}

/// Whether a text is Turtle of a graph that says findings, in the order in which they come, with
/// its blank nodes named.
pub open spec fn turtle_says(text: Seq<char>, conforms: bool, findings: Seq<FindingV>) -> bool {
    &&& report_written(report_graph(conforms, findings), conforms, findings)
    &&& exists|named: Set<oxrdf::Triple>, document: Seq<u8>|
        names_its_blanks(named, report_graph(conforms, findings)) && #[trigger] turtle_documents(
            named,
            Map::<Seq<char>, Seq<char>>::empty().insert("sh"@, "http://www.w3.org/ns/shacl#"@),
        ).contains(Ok(document)) && vstd::utf8::valid_utf8(document) && text
            == vstd::utf8::decode_utf8(document)
}

/// Whether the parts of a triple hold an IRI that begins as a minted name does.
pub open spec fn holds_a_name(triple: oxrdf::Triple) -> bool {
    let parts = triple_parts(triple);
    let prefix = "urn:ikigai:shacl:report:"@;
    ||| parts.0 is Iri && prefix.is_prefix_of(parts.0->Iri_0)
    ||| prefix.is_prefix_of(parts.1)
    ||| parts.2 is Some && parts.2->0 is Iri && prefix.is_prefix_of(parts.2->0->Iri_0)
}

/// Whether a finding has a quoted triple for one of its nodes.
pub open spec fn holds_a_triple(f: FindingV) -> bool {
    ||| f.focus is Triple
    ||| f.component is Triple
    ||| f.value is Some && f.value->0 is Triple
    ||| f.source is Some && f.source->0 is Triple
}

/// Whether a graph has an object that cannot be read.
pub open spec fn has_an_odd_object(graph: Set<oxrdf::Triple>) -> bool {
    exists|t: oxrdf::Triple| #[trigger] graph.contains(t) && triple_parts(t).2 is None
}

/// Whether a graph has an IRI that begins as a minted name does.
pub open spec fn has_a_name(graph: Set<oxrdf::Triple>) -> bool {
    exists|t: oxrdf::Triple| #[trigger] graph.contains(t) && holds_a_name(t)
}

/// Whether `r` is what findings are served as: their Turtle, and where there is none, why. Some
/// node of a finding that would be written is a quoted triple, or their graph has an object that
/// cannot be read, or an IRI that begins as a minted name does.
pub open spec fn turtle_comes_to(
    r: Result<Seq<char>, ErrorV>,
    conforms: bool,
    findings: Seq<FindingV>,
) -> bool {
    let graph = report_graph(conforms, findings);
    if !conforms && exists|i: int|
        0 <= i < findings.len() && holds_a_triple(#[trigger] findings[i]) {
        r == Err::<Seq<char>, ErrorV>(
            ErrorV::Endpoint(
                "urn:shacl:validate: report to RDF error: a quoted triple cannot be written"@,
            ),
        )
    } else if has_an_odd_object(graph) {
        r == Err::<Seq<char>, ErrorV>(
            ErrorV::Endpoint("urn:shacl:validate: report graph: an object is not an RDF term"@),
        )
    } else if has_a_name(graph) {
        r == Err::<Seq<char>, ErrorV>(
            ErrorV::Endpoint(
                "urn:shacl:validate: report graph: an IRI stands under the prefix of minted names"@,
            ),
        )
    } else {
        r is Ok && turtle_says(r->Ok_0, conforms, findings)
    }
}

proof fn triples_are_renamed(graph: Set<oxrdf::Triple>)
    requires
        skolem_graph(graph) is Ok,
    ensures
        forall|t: oxrdf::Triple| #[trigger]
            graph.contains(t) ==> skolem_graph(graph)->Ok_0.contains(renamed(graph, t)),
        forall|t: oxrdf::Triple| #[trigger]
            skolem_graph(graph)->Ok_0.contains(t) ==> exists|u: oxrdf::Triple| #[trigger]
                graph.contains(u) && t == renamed(graph, u),
{
    let named = skolem_graph(graph)->Ok_0;
    let scheme = report_scheme(graph);
    let name = |t: oxrdf::Triple| named_triple(t, scheme);
    assert(named == graph.map(name));
    assert forall|t: oxrdf::Triple| #[trigger] graph.contains(t) implies renamed(graph, t)
        == named_triple(t, scheme) by {
        assert(!quotes(graph));
        assert(triple_parts(t).2 is Some);
        assert(!(triple_parts(t).2->0 is Triple));
        if let ResourceV::Blank(label) = triple_parts(t).0 {
            labels_are_spelled(label);
            assert(minted(graph, label) == scheme + encoded_label(label));
        }
        if let Some(NodeV::Blank(label)) = triple_parts(t).2 {
            labels_are_spelled(label);
            assert(minted(graph, label) == scheme + encoded_label(label));
        }
    }
    assert forall|t: oxrdf::Triple| #[trigger] graph.contains(t) implies named.contains(
        renamed(graph, t),
    ) by {
        assert(graph.map(name).contains(name(t)));
    }
    assert forall|t: oxrdf::Triple| #[trigger] named.contains(t) implies exists|u: oxrdf::Triple|
        #[trigger] graph.contains(u) && t == renamed(graph, u) by {
        let u = choose|u: oxrdf::Triple| graph.contains(u) && t == name(u);
        assert(graph.contains(u));
    }
}

proof fn naming_is_told(graph: Set<oxrdf::Triple>)
    requires
        skolem_graph(graph) is Ok,
        forall|t: oxrdf::Triple| #[trigger]
            skolem_graph(graph)->Ok_0.contains(t) ==> without_blank(t),
    ensures
        names_its_blanks(skolem_graph(graph)->Ok_0, graph),
{
    triples_are_renamed(graph);
}

/// Whether `r` may come of naming the blank nodes of a graph: its triples, renamed, where each
/// object can be read and is no quoted triple, and no IRI begins as a minted name does; and else
/// an error that says which of these fails.
pub open spec fn naming_comes_to(
    graph: Set<oxrdf::Triple>,
    r: Result<Set<oxrdf::Triple>, ErrorV>,
) -> bool {
    match r {
        Ok(named) => {
            &&& !has_an_odd_object(graph) && !has_a_name(graph)
            &&& forall|t: oxrdf::Triple| #[trigger]
                graph.contains(t) ==> !(triple_parts(t).2->0 is Triple) && named.contains(
                    renamed(graph, t),
                )
            &&& forall|t: oxrdf::Triple| #[trigger]
                named.contains(t) ==> exists|u: oxrdf::Triple| #[trigger]
                    graph.contains(u) && t == renamed(graph, u)
        },
        Err(e) => {
            ||| has_an_odd_object(graph) && e == ErrorV::Endpoint(
                "urn:shacl:validate: report graph: an object is not an RDF term"@,
            )
            ||| !has_an_odd_object(graph) && (exists|t: oxrdf::Triple| #[trigger]
                graph.contains(t) && triple_parts(t).2->0 is Triple) && e == ErrorV::Endpoint(
                "urn:shacl:validate: report graph: a quoted triple cannot be stored"@,
            )
            ||| !has_an_odd_object(graph) && has_a_name(graph) && e == ErrorV::Endpoint(
                "urn:shacl:validate: report graph: an IRI stands under the prefix of minted names"@,
            )
        },
    }
}

/// The blank nodes of a graph are named, or the error says why they cannot be.
pub proof fn graphs_are_named(graph: Set<oxrdf::Triple>)
    ensures
        naming_comes_to(graph, skolem_graph(graph)),
{
    if readable(graph) {
        assert(!has_an_odd_object(graph));
    } else {
        assert(has_an_odd_object(graph));
    }
    if skolem_graph(graph) is Ok {
        triples_are_renamed(graph);
        assert forall|t: oxrdf::Triple| #[trigger] graph.contains(t) implies !holds_a_name(t)
            && !(triple_parts(t).2->0 is Triple) by {
            assert(triple_parts(t).2 is Some);
            assert(!claims(t));
        }
    } else if readable(graph) && !quotes(graph) {
        let t = choose|t: oxrdf::Triple| #[trigger] graph.contains(t) && claims(t);
        assert(graph.contains(t) && holds_a_name(t));
    } else if readable(graph) {
        let t = choose|t: oxrdf::Triple| #[trigger]
            graph.contains(t) && triple_parts(t).2 is Some && triple_parts(t).2->0 is Triple;
        assert(graph.contains(t));
    }
}

/// Whether findings come in the order in which a report lists their entries.
pub open spec fn in_entry_order(findings: Seq<FindingV>) -> bool {
    exists|entries: Seq<ResultV>| #[trigger]
        each_shown(entries, findings) && forall|i: int, j: int|
            0 <= i < j < entries.len() ==> entry_le(#[trigger] entries[i], #[trigger] entries[j])
}

/// Arranged findings come in the order of their entries, and none is lost or added.
pub proof fn arranging_orders_by_entry(findings: Seq<FindingV>)
    ensures
        in_order(findings).to_multiset() == findings.to_multiset(),
        in_entry_order(in_order(findings)),
{
    let out = in_order(findings);
    let rank = |f: FindingV| rank_view(f);
    let h = |f: FindingV| result_view(f);
    let entries = out.map_values(h);
    in_order_holds(findings);
    let ranks = findings.map_values(rank);
    ranked_is_the_sorting::<Rank>(ranks, ranks);
    let leq = at_most::<Rank>();
    assert forall|i: int| 0 <= i < entries.len() implies entry_shows(
        #[trigger] entries[i],
        out[i],
    ) by {
        entries_show_findings(out[i]);
    }
    assert forall|i: int, j: int| 0 <= i < j < entries.len() implies entry_le(
        #[trigger] entries[i],
        #[trigger] entries[j],
    ) by {
        let (a, b) = (out.map_values(rank)[i], out.map_values(rank)[j]);
        assert(a == rank_view(out[i]) && b == rank_view(out[j]));
        assert(leq(ranked::<Rank>(ranks)[i], ranked::<Rank>(ranks)[j]));
        entries_are_ordered(entries[i], entries[j]);
    }
    assert(each_shown(entries, out));
}

/// Whether `r` is what all the findings of a report, in the order of their entries, and no others
/// are served as.
pub open spec fn serves(report: ValidationReport, r: Result<Seq<char>, ErrorV>) -> bool {
    exists|findings: Seq<FindingV>|
        findings.to_multiset() == findings_view(report).to_multiset() && in_entry_order(findings)
            && #[trigger] turtle_comes_to(r, report_conforms(report), findings)
}

/// Writing a report as Turtle says every finding of it: the graph that is named and served is that
/// of all its findings, in some order, and of no others. It fails only for a reason.
pub proof fn every_finding_is_served(report: ValidationReport, r: Result<Seq<char>, ErrorV>)
    requires
        turtle_outcome(report, r),
    ensures
        serves(report, r),
{
    let conforms = report_conforms(report);
    let all = findings_view(report);
    let findings = in_order(all);
    in_order_holds(all);
    arranging_orders_by_entry(all);
    broadcast use vstd::seq_lib::group_to_multiset_ensures;

    if writable(conforms, all) {
        let graph = report_graph(conforms, findings);
        assert(!conforms ==> forall|i: int|
            0 <= i < findings.len() ==> !holds_a_triple(#[trigger] findings[i])) by {
            assert forall|i: int| !conforms && 0 <= i < findings.len() implies !holds_a_triple(
                #[trigger] findings[i],
            ) by {
                assert(findings.contains(findings[i]));
                assert(findings.to_multiset().count(findings[i]) > 0);
                assert(all.contains(findings[i]));
                let k = choose|k: int| 0 <= k < all.len() && all[k] == findings[i];
                assert(unquoted(all[k]));
            }
        }
        let document = choose|document: Seq<u8>| #[trigger] served(graph, document, r);
        if skolem_graph(graph) is Ok {
            assert(!has_an_odd_object(graph));
            assert(!has_a_name(graph)) by {
                assert forall|t: oxrdf::Triple| #[trigger] graph.contains(t) implies !holds_a_name(
                    t,
                ) by {
                    assert(!claims(t));
                }
            }
            naming_is_told(graph);
            let named = skolem_graph(graph)->Ok_0;
            assert(report_prefixes() =~= Map::<Seq<char>, Seq<char>>::empty().insert(
                "sh"@,
                "http://www.w3.org/ns/shacl#"@,
            ));
            assert(turtle_documents(named, report_prefixes()).contains(Ok(document)));
            assert(turtle_says(r->Ok_0, conforms, findings));
        } else if !readable(graph) {
            assert(has_an_odd_object(graph));
        } else {
            assert(!has_an_odd_object(graph));
            let t = choose|t: oxrdf::Triple| #[trigger] graph.contains(t) && claims(t);
            assert(graph.contains(t) && holds_a_name(t));
        }
    } else {
        let i = choose|i: int| 0 <= i < all.len() && !unquoted(#[trigger] all[i]);
        assert(all.contains(all[i]));
        assert(all.to_multiset().count(all[i]) > 0);
        assert(findings.contains(all[i]));
        let k = choose|k: int| 0 <= k < findings.len() && findings[k] == all[i];
        assert(holds_a_triple(findings[k]));
    }
    assert(turtle_comes_to(r, conforms, findings));
}

/// Whether findings are others with their templates filled, one each, in the order in which both
/// come.
pub open spec fn each_filled(filled: Seq<FindingV>, findings: Seq<FindingV>) -> bool {
    filled.len() == findings.len() && forall|i: int|
        0 <= i < filled.len() ==> is_filled(#[trigger] filled[i], findings[i])
}

/// Whether the findings of a report are served as Turtle, all of them, with their templates
/// filled; or why they are not.
pub open spec fn turtle_tells(r: Result<Seq<char>, ErrorV>, report: ValidationReport) -> bool {
    exists|filled: Seq<FindingV>, findings: Seq<FindingV>|
        findings.to_multiset() == findings_view(report).to_multiset() && #[trigger] each_filled(
            filled,
            findings,
        ) && turtle_comes_to(r, report_conforms(report), filled)
}

/// Whether an answer shows what a run found in the face that was asked for.
pub open spec fn face_tells(
    report: ValidationReport,
    as_type: Seq<char>,
    r: Result<RepresentationV, ErrorV>,
) -> bool {
    if is_json_asked(as_type) {
        exists|told: ReportV| #[trigger]
            report_tells(told, report) && r is Ok && r->Ok_0.media == "application/json"@
                && r->Ok_0.charset == "utf-8"@ && r->Ok_0.cacheable && r->Ok_0.bytes
                == vstd::utf8::encode_utf8(report_spelled(told, Some(0)))
    } else {
        exists|text: Result<Seq<char>, ErrorV>| #[trigger]
            turtle_tells(text, report) && match (text, r) {
                (Ok(text), Ok(answer)) => answer.media == "text/turtle"@ && answer.charset
                    == "utf-8"@ && answer.cacheable && answer.bytes == vstd::utf8::encode_utf8(
                    text,
                ),
                (Err(e), Err(f)) => e == f,
                _ => false,
            }
    }
}

/// The validator's report is shown in the face that was asked for, with all that was found.
pub proof fn faces_tell_what_was_found(
    report: ValidationReport,
    as_type: Seq<char>,
    r: Result<RepresentationV, ErrorV>,
)
    requires
        face_outcome(report, as_type, r),
    ensures
        face_tells(report, as_type, r),
{
    json_is_asked_for_by_name(as_type);
    if asks_json(as_type) {
        reports_tell_what_was_found(report);
        reports_are_spelled(report_data(report), Some(0));
        assert(report_tells(report_data(report), report));
    } else {
        let (written, text) = choose|written: ValidationReport, text: Result<Seq<char>, ErrorV>|
            resolves_to(report, written) && #[trigger] turtle_outcome(written, text) && r == (
            match text {
                Ok(text) => Ok(repr_view("text/turtle"@, text)),
                Err(e) => Err(e),
            });
        every_finding_is_served(written, text);
        let filled = choose|findings: Seq<FindingV>|
            findings.to_multiset() == findings_view(written).to_multiset()
                && #[trigger] turtle_comes_to(text, report_conforms(written), findings);
        let g = |f: FindingV| resolved_finding(f);
        let raw = findings_view(report);
        assert(resolved_findings(report) =~= raw.map_values(g));
        let findings = some_order(filled, raw, g);
        assert forall|i: int| 0 <= i < filled.len() implies is_filled(
            #[trigger] filled[i],
            findings[i],
        ) by {
            assert(filled[i] == findings.map_values(g)[i]);
            every_message_is_filled(findings[i]);
        }
        assert(each_filled(filled, findings));
        assert(turtle_tells(text, report));
    }
}

/// Whether an answer is one that data and shapes may have: what the validator found, in the face
/// that was asked for, or an error that the run came to.
pub open spec fn answers(
    data: Seq<char>,
    shapes: Seq<char>,
    as_type: Seq<char>,
    r: Result<RepresentationV, ErrorV>,
) -> bool {
    ||| exists|report: ValidationReport| #[trigger]
        found(data, shapes, report) && face_tells(report, as_type, r)
    ||| r is Err && failed(data, shapes, r->Err_0)
}

/// Validating and showing answers with what was found.
pub proof fn validating_answers(
    data: Seq<char>,
    shapes: Seq<char>,
    as_type: Seq<char>,
    r: Result<RepresentationV, ErrorV>,
)
    requires
        representation_outcome(data, shapes, as_type, r),
    ensures
        answers(data, shapes, as_type, r),
{
    let raw = choose|raw: Result<ValidationReport, ErrorV>| #[trigger]
        run_outcome(data, shapes, raw) && match raw {
            Ok(report) => face_outcome(report, as_type, r),
            Err(e) => r == Err::<RepresentationV, ErrorV>(e),
        };
    runs_are_told(data, shapes, raw);
    if let Ok(report) = raw {
        faces_tell_what_was_found(report, as_type, r);
        assert(found(data, shapes, report) && face_tells(report, as_type, r));
    }
}

/// Whether `r` may come of validating: a report that tells what was found, or why a step failed.
pub open spec fn reports(data: Seq<char>, shapes: Seq<char>, r: Result<ReportV, ErrorV>) -> bool {
    match r {
        Ok(told) => exists|report: ValidationReport| #[trigger]
            found(data, shapes, report) && report_tells(told, report) && outcome_tells(
                outcome_view(told),
                report,
            ),
        Err(e) => failed(data, shapes, e),
    }
}

/// Whether `r` may come of validating for the outcome alone: one that tells what was found, or why
/// a step failed.
pub open spec fn signs(data: Seq<char>, shapes: Seq<char>, r: Result<OutcomeV, ErrorV>) -> bool {
    match r {
        Ok(outcome) => exists|report: ValidationReport| #[trigger]
            found(data, shapes, report) && outcome_tells(outcome, report),
        Err(e) => failed(data, shapes, e),
    }
}

/// Validating comes to a report that tells what was found, or to an error that the run came to.
pub proof fn validating_reports(
    data: Seq<char>,
    shapes: Seq<char>,
    r: Result<ReportV, ErrorV>,
)
    requires
        validate_report_outcome(data, shapes, r),
    ensures
        reports(data, shapes, r),
        signs(data, shapes, match r {
            Ok(told) => Ok(outcome_view(told)),
            Err(e) => Err(e),
        }),
{
    let raw = choose|raw: Result<ValidationReport, ErrorV>| #[trigger]
        run_outcome(data, shapes, raw) && r == (match raw {
            Ok(report) => Ok(report_data(report)),
            Err(e) => Err(e),
        });
    runs_are_told(data, shapes, raw);
    if let Ok(report) = raw {
        reports_tell_what_was_found(report);
        crate::entries::outcomes_tell_what_was_found(report);
        assert(found(data, shapes, report));
    }
}

/// Whether an answer is in the face that was asked for.
pub open spec fn has_the_face(as_type: Seq<char>, answer: RepresentationV) -> bool {
    &&& answer.media == if is_json_asked(as_type) {
        "application/json"@
    } else {
        "text/turtle"@
    }
    &&& answer.charset == "utf-8"@
    &&& answer.cacheable
}

/// An answer is in the face that was asked for.
pub proof fn answers_have_the_face(
    data: Seq<char>,
    shapes: Seq<char>,
    as_type: Seq<char>,
    answer: RepresentationV,
)
    requires
        answers(data, shapes, as_type, Ok(answer)),
    ensures
        has_the_face(as_type, answer),
{
}

/// Whether a text is a graph of shapes rather than a reference to one: past white space it opens
/// as Turtle does, or it holds white space.
pub open spec fn is_graph_text(s: Seq<char>) -> bool {
    exists|before: Seq<char>, text: Seq<char>|
        #![trigger before + text]
        before + text == s && all_white(before) && (text.len() > 0 ==> !is_white(text[0])) && {
            ||| text.len() > 0 && (text[0] == '@' || text[0] == '<' || text[0] == '#')
            ||| text.len() > 1 && text[0] == '_' && text[1] == ':'
            ||| exists|i: int| 0 <= i < text.len() && is_white(#[trigger] text[i])
        }
}

/// Shapes are taken for a graph by how they open, or by white space in them.
pub proof fn graphs_are_told_from_references(s: Seq<char>)
    ensures
        is_inline(s) <==> is_graph_text(s),
{
    trimming_takes_the_white_space(s);
    let t = trimmed_start(s);
    let a = choose|before: Seq<char>|
        all_white(before) && #[trigger] (before + trimmed_start(s)) == s && (trimmed_start(s).len()
            > 0 ==> !is_white(trimmed_start(s)[0]));
    assert(a + t == s);
    if is_graph_text(s) {
        let (before, text) = choose|before: Seq<char>, text: Seq<char>|
            #![trigger before + text]
            before + text == s && all_white(before) && (text.len() > 0 ==> !is_white(text[0])) && {
                ||| text.len() > 0 && (text[0] == '@' || text[0] == '<' || text[0] == '#')
                ||| text.len() > 1 && text[0] == '_' && text[1] == ':'
                ||| exists|i: int| 0 <= i < text.len() && is_white(#[trigger] text[i])
            };
        if before.len() < a.len() && text.len() > 0 {
            assert(s[before.len() as int] == text[0]);
            assert(s[before.len() as int] == a[before.len() as int]);
        }
        if a.len() < before.len() && t.len() > 0 {
            assert(s[a.len() as int] == t[0]);
            assert(s[a.len() as int] == before[a.len() as int]);
        }
        assert(s.len() == before.len() + text.len() && s.len() == a.len() + t.len());
        assert(text =~= s.skip(before.len() as int));
        assert(t =~= s.skip(a.len() as int));
    }
}

/// Whether `r` says where shapes come from: from the argument where it is a graph, from the web
/// where it begins as an address of it does, and else from the resource that it names, where it
/// names one.
pub open spec fn source_tells(shapes: Seq<char>, r: Result<SourceV, ErrorV>) -> bool {
    if is_graph_text(shapes) {
        r == Ok::<SourceV, ErrorV>(SourceV::Inline(shapes))
    } else if "http://"@.is_prefix_of(shapes) || "https://"@.is_prefix_of(shapes) {
        r == Ok::<SourceV, ErrorV>(SourceV::Http(shapes))
    } else {
        match kernel_iri_fault(shapes) {
            None => r == Ok::<SourceV, ErrorV>(SourceV::Resource(shapes)),
            Some(why) => r == Err::<SourceV, ErrorV>(
                ErrorV::Endpoint(
                    "urn:shacl:validate: bad shapes IRI `"@ + shapes + "`: "@ + why,
                ),
            ),
        }
    }
}

/// Shapes come from the argument where it is a graph, from the web where it begins as an address
/// of it does, and else from the resource that it names, where it names one.
pub proof fn sources_are_told(shapes: Seq<char>)
    ensures
        source_tells(shapes, source_outcome(shapes)),
{
    graphs_are_told_from_references(shapes);
}

/// Whether `r` may come of a call, by its arguments: the error that names the one that is missing,
/// `data` first; an answer where the shapes are a graph; and else what is to be fetched, with the
/// data and the face that is asked for, which is Turtle where the call does not say.
pub open spec fn call_tells(
    data: Option<Seq<char>>,
    shapes: Option<Seq<char>>,
    as_type: Option<Seq<char>>,
    r: Result<StepV, ErrorV>,
) -> bool {
    if data is None {
        r == Err::<StepV, ErrorV>(
            ErrorV::Endpoint(
                "urn:shacl:validate needs a `data` RDF (Turtle) graph — usually piped in"@,
            ),
        )
    } else if shapes is None {
        r == Err::<StepV, ErrorV>(
            ErrorV::Endpoint(
                "urn:shacl:validate needs a `shapes` SHACL graph: inline Turtle or a resolvable resource IRI"@,
            ),
        )
    } else {
        let asked = if as_type is Some {
            as_type->0
        } else {
            "text/turtle"@
        };
        if is_graph_text(shapes->0) {
            match r {
                Ok(StepV::Answer(answer)) => answers(data->0, shapes->0, asked, Ok(answer)),
                Ok(_) => false,
                Err(e) => answers(data->0, shapes->0, asked, Err(e)),
            }
        } else if "http://"@.is_prefix_of(shapes->0) || "https://"@.is_prefix_of(shapes->0) {
            r matches Ok(StepV::Get { url, data: kept, as_type: face }) && url == shapes->0 && kept
                == data->0 && face == asked
        } else {
            match kernel_iri_fault(shapes->0) {
                None => r matches Ok(StepV::Source { iri, data: kept, as_type: face }) && iri
                    == shapes->0 && kept == data->0 && face == asked,
                Some(why) => r == Err::<StepV, ErrorV>(
                    ErrorV::Endpoint(
                        "urn:shacl:validate: bad shapes IRI `"@ + shapes->0 + "`: "@ + why,
                    ),
                ),
            }
        }
    }
}

/// A call is answered, put off or refused by its arguments.
pub proof fn calls_are_told(
    data: Option<Seq<char>>,
    shapes: Option<Seq<char>>,
    as_type: Option<Seq<char>>,
    r: Result<StepV, ErrorV>,
)
    requires
        begin_outcome(data, shapes, as_type, r),
    ensures
        call_tells(data, shapes, as_type, r),
{
    if data is Some && shapes is Some {
        graphs_are_told_from_references(shapes->0);
        let asked = as_or_default(as_type);
        if is_inline(shapes->0) {
            let answer = choose|answer: Result<RepresentationV, ErrorV>| #[trigger]
                representation_outcome(data->0, shapes->0, asked, answer) && r == answered(answer);
            validating_answers(data->0, shapes->0, asked, answer);
        }
    }
}

/// A call answers alike however its shapes come: what may be answered where they were fetched is
/// what may be answered where the same text is given inline; and what is served has the face that
/// the call asked for. Shapes that are no text are refused.
pub proof fn fetched_shapes_are_used_alike(
    data: Seq<char>,
    as_type: Seq<char>,
    shapes: Seq<u8>,
    r: Result<RepresentationV, ErrorV>,
)
    ensures
        vstd::utf8::valid_utf8(shapes) ==> {
            &&& resume_outcome(data, as_type, shapes, r) <==> inline_outcome(
                data,
                vstd::utf8::decode_utf8(shapes),
                as_type,
                answered(r),
            )
            &&& resume_outcome(data, as_type, shapes, r) ==> answers(
                data,
                vstd::utf8::decode_utf8(shapes),
                as_type,
                r,
            ) && (r matches Ok(answer) ==> has_the_face(as_type, answer))
        },
        !vstd::utf8::valid_utf8(shapes) && resume_outcome(data, as_type, shapes, r) ==> r == Err::<
            RepresentationV,
            ErrorV,
        >(ErrorV::Endpoint("urn:shacl:validate: shapes not UTF-8: "@ + utf8_fault(shapes))),
{
    if vstd::utf8::valid_utf8(shapes) {
        let text = vstd::utf8::decode_utf8(shapes);
        if resume_outcome(data, as_type, shapes, r) {
            validating_answers(data, text, as_type, r);
            assert(representation_outcome(data, text, as_type, r));
            if r is Ok {
                answers_have_the_face(data, text, as_type, r->Ok_0);
            }
        }
        if inline_outcome(data, text, as_type, answered(r)) {
            let answer = choose|answer: Result<RepresentationV, ErrorV>| #[trigger]
                representation_outcome(data, text, as_type, answer) && answered(r)
                    == answered(answer);
            assert(answer == r);
        }
    }
}

/// What the endpoint declares of its inputs is what a call does with them: an input that is
/// required is missed where a call lacks it, and one that is not has the default that a call
/// without it goes by.
pub proof fn inputs_are_what_a_call_takes(
    i: int,
    data: Seq<char>,
    shapes: Seq<char>,
    r: Result<StepV, ErrorV>,
)
    requires
        0 <= i < description_view().inputs.len(),
    ensures
        description_view().inputs.len() == 3,
        ({
            let input = description_view().inputs[i];
            &&& input.class == "http://www.w3.org/2001/XMLSchema#string"@
            &&& input.required <==> input.default is None
            &&& input.required ==> input.one_of.len() == 0 && (input.name == "data"@ || input.name
                == "shapes"@)
            &&& input.name == "data"@ ==> input.required && (begin_outcome(
                None,
                Some(shapes),
                None,
                r,
            ) ==> r is Err)
            &&& input.name == "shapes"@ ==> input.required && (begin_outcome(
                Some(data),
                None,
                None,
                r,
            ) ==> r is Err)
            &&& !input.required ==> input.name == "as"@ && input.one_of.contains(input.default->0)
                && (begin_outcome(Some(data), Some(shapes), None, r) <==> begin_outcome(
                Some(data),
                Some(shapes),
                input.default,
                r,
            ))
        }),
        i == 0 <==> description_view().inputs[i].name == "data"@,
        i == 1 <==> description_view().inputs[i].name == "shapes"@,
{
    reveal_strlit("data");
    reveal_strlit("shapes");
    reveal_strlit("as");
    assert("data"@.len() == 4 && "shapes"@.len() == 6 && "as"@.len() == 2);
    assert(faces()[0] == description_view().inputs[2].default->0);
}

/// The endpoint declares its name, that it is sourced and described, the faces that `as` may ask for
/// and what each comes out as: `as` lists a media type exactly where an answer may have it, and an
/// output is declared for each with the charset that every answer has.
pub proof fn faces_are_declared(media: Seq<char>, answer: RepresentationV, as_type: Seq<char>)
    requires
        has_the_face(as_type, answer),
    ensures
        description_view().id == "shacl-validate"@,
        description_view().verbs == seq![Verb::Source, Verb::Meta],
        description_view().inputs[2].one_of.contains(media) <==> media == "text/turtle"@ || media
            == "application/json"@,
        description_view().outputs.contains(media + ";charset=utf-8"@)
            <==> description_view().inputs[2].one_of.contains(media),
        description_view().inputs[2].one_of.contains(answer.media),
        description_view().outputs.contains(answer.media + ";charset="@ + answer.charset),
{
    let one_of = description_view().inputs[2].one_of;
    let outputs = description_view().outputs;
    let tail = ";charset=utf-8"@;
    assert(one_of[0] == "text/turtle"@ && one_of[1] == "application/json"@);
    assert(outputs[0] == "text/turtle"@ + tail && outputs[1] == "application/json"@ + tail);
    assert forall|a: Seq<char>, b: Seq<char>| #[trigger] (a + tail) == #[trigger] (b
        + tail) implies a == b by {
        assert((a + tail).len() == (b + tail).len());
        assert(a =~= (a + tail).take(a.len() as int));
        assert(b =~= (b + tail).take(b.len() as int));
    }
    assert(outputs.contains(media + tail) <==> one_of.contains(media)) by {
        if outputs.contains(media + tail) {
            let k = choose|k: int| 0 <= k < outputs.len() && outputs[k] == media + tail;
            assert(k == 0 || k == 1);
            assert(one_of[k] + tail == media + tail);
            assert(one_of[k] == media);
        }
    }
    reveal_strlit(";charset=utf-8");
    reveal_strlit(";charset=");
    reveal_strlit("utf-8");
    assert(";charset="@ + "utf-8"@ =~= tail);
    assert(answer.media + ";charset="@ + answer.charset =~= answer.media + tail);
}

/// The text of a document is the text that its bytes are; what is no text, and what was not
/// written, is refused and says why.
pub proof fn documents_are_told(document: Result<Seq<u8>, Seq<char>>)
    ensures
        match document_outcome(document) {
            Ok(text) => document is Ok && vstd::utf8::valid_utf8(document->Ok_0) && text
                == vstd::utf8::decode_utf8(document->Ok_0),
            Err(e) => match document {
                Ok(bytes) => !vstd::utf8::valid_utf8(bytes) && says_why(
                    e,
                    "urn:shacl:validate: report not UTF-8: "@,
                    utf8_fault(bytes),
                ),
                Err(why) => says_why(e, "urn:shacl:validate: report serialize error: "@, why),
            },
        },
{
}

} // verus!
