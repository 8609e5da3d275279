//! The report as a graph, in Turtle.

use rudof_rdf::rdf_core::term::literal::ConcreteLiteral;
use rudof_rdf::rdf_core::BuildRDF;
use rudof_rdf::rdf_impl::OxigraphInMemory;
use shacl::validator::report::ValidationReport;
use vstd::prelude::*;

use crate::arrange::arrange;
use crate::error::{failure, refusal, Error};
use crate::finding::{findings_of, Finding};
use crate::graph::turtle_bytes;
use crate::rdf::{is_quoted, Node};
use crate::skolem::skolemize;
use crate::text::utf8_text;
#[allow(unused_imports)]
use crate::{
    answers::{every_finding_is_served, serves},
    arrange::{in_order, in_order_holds},
    error::{failure_view, outcome, ErrorV},
    finding::{findings_view, node_option, path_view, report_conforms, FindingV, PathV},
    graph::{
        document_view, graph_prefixes, graph_triples, no_prefixes, only_shacl, stored_triple,
        turtle_documents,
    },
    order::views,
    rdf::{literal_form, literal_lang, NodeV, ResourceV},
    skolem::{only_minted, quotes, skolem_graph, without_blank},
    text::utf8_fault,
};

verus! {

/// Whether a graph holds a triple.
pub open spec fn says(
    triples: Set<oxrdf::Triple>,
    subject: ResourceV,
    predicate: Seq<char>,
    object: NodeV,
) -> bool {
    triples.contains(stored_triple(subject, predicate, object))
}

/// Whether a graph holds a triple whose object is a literal with the given form and tag.
pub open spec fn says_text(
    triples: Set<oxrdf::Triple>,
    subject: ResourceV,
    predicate: Seq<char>,
    form: Seq<char>,
    tag: Option<Seq<char>>,
) -> bool {
    exists|literal: ConcreteLiteral|
        literal_form(literal) == form && literal_lang(literal) == tag && #[trigger] says(
            triples,
            subject,
            predicate,
            NodeV::Literal(literal),
        )
}

/// Whether a graph says of a node what a path is: some node, which is the IRI of the path where it
/// is a single predicate.
pub open spec fn path_written(
    triples: Set<oxrdf::Triple>,
    node: ResourceV,
    path: PathV,
) -> bool {
    &&& exists|object: NodeV|
        #[trigger] says(triples, node, "http://www.w3.org/ns/shacl#resultPath"@, object)
    &&& path.plain ==> says(
        triples,
        node,
        "http://www.w3.org/ns/shacl#resultPath"@,
        NodeV::Iri(path.text),
    )
}

/// Whether a graph says of a node what a finding says.
pub open spec fn result_written(
    triples: Set<oxrdf::Triple>,
    node: ResourceV,
    f: FindingV,
) -> bool {
    &&& says(
        triples,
        node,
        "http://www.w3.org/1999/02/22-rdf-syntax-ns#type"@,
        NodeV::Iri("http://www.w3.org/ns/shacl#ValidationResult"@),
    )
    &&& says(triples, node, "http://www.w3.org/ns/shacl#focusNode"@, f.focus)
    &&& says(triples, node, "http://www.w3.org/ns/shacl#sourceConstraintComponent"@, f.component)
    &&& f.value matches Some(value) ==> says(
        triples,
        node,
        "http://www.w3.org/ns/shacl#value"@,
        value,
    )
    &&& f.source matches Some(source) ==> says(
        triples,
        node,
        "http://www.w3.org/ns/shacl#sourceShape"@,
        source,
    )
    &&& says(
        triples,
        node,
        "http://www.w3.org/ns/shacl#resultSeverity"@,
        NodeV::Iri(f.severity),
    )
    &&& f.path matches Some(path) ==> path_written(triples, node, path_view(path))
    &&& forall|tag: Option<Seq<char>>| #[trigger]
        f.messages.contains_key(tag) ==> says_text(
            triples,
            node,
            "http://www.w3.org/ns/shacl#resultMessage"@,
            f.messages[tag],
            tag,
        )
}

/// Whether a graph has a node for a finding, among the results of the report node `root`.
pub open spec fn finding_written(
    triples: Set<oxrdf::Triple>,
    root: ResourceV,
    f: FindingV,
) -> bool {
    exists|label: Seq<char>| #[trigger]
        result_written(triples, ResourceV::Blank(label), f) && says(
            triples,
            root,
            "http://www.w3.org/ns/shacl#result"@,
            NodeV::Blank(label),
        )
}

/// Whether a graph has a report node that says what a report says, by the node `root`.
pub open spec fn root_written(
    triples: Set<oxrdf::Triple>,
    root: ResourceV,
    conforms: bool,
    findings: Seq<FindingV>,
) -> bool {
    &&& says(
        triples,
        root,
        "http://www.w3.org/1999/02/22-rdf-syntax-ns#type"@,
        NodeV::Iri("http://www.w3.org/ns/shacl#ValidationReport"@),
    )
    &&& says_text(
        triples,
        root,
        "http://www.w3.org/ns/shacl#conforms"@,
        if conforms {
            "true"@
        } else {
            "false"@
        },
        None,
    )
    &&& !conforms ==> forall|i: int|
        0 <= i < findings.len() ==> finding_written(triples, root, #[trigger] findings[i])
}

/// Whether a graph says what a report says: conformance, and where the data does not conform,
/// every finding.
pub open spec fn report_written(
    triples: Set<oxrdf::Triple>,
    conforms: bool,
    findings: Seq<FindingV>,
) -> bool {
    exists|label: Seq<char>| #[trigger]
        root_written(triples, ResourceV::Blank(label), conforms, findings)
}

/// Whether an optional node is a quoted triple.
pub open spec fn is_quoted_option(node: Option<NodeV>) -> bool {
    node is Some && node->0 is Triple
}

/// Whether no node of a finding is a quoted triple.
pub open spec fn unquoted(f: FindingV) -> bool {
    !(f.focus is Triple) && !(f.component is Triple) && !is_quoted_option(f.value)
        && !is_quoted_option(f.source)
}

/// Whether a report can be written: findings are written only where the data does not conform,
/// and then none may hold a quoted triple.
pub open spec fn writable(conforms: bool, findings: Seq<FindingV>) -> bool {
    conforms || forall|i: int| 0 <= i < findings.len() ==> unquoted(#[trigger] findings[i])
}

/// The prefixes that a report is written with.
pub open spec fn report_prefixes() -> Map<Seq<char>, Seq<char>> {
    no_prefixes().insert("sh"@, "http://www.w3.org/ns/shacl#"@)
}

/// The graph that a report comes out as.
pub uninterp spec fn report_graph(conforms: bool, findings: Seq<FindingV>) -> Set<oxrdf::Triple>;

/// `ValidationReport::to_rdf` into a new graph of the in-memory store: a function of what the
/// report says, in the order of its results. The graph says what the report says, has no quoted
/// triple as an object, and has the prefix `sh` alone. The call does not return on a quoted triple
/// that it would have to write; on any other report it succeeds. Of the lists that stand for paths
/// other than a single predicate, only that they are there is said here.
#[verifier::external_body]
fn write_report(report: &ValidationReport) -> (r: Result<OxigraphInMemory, String>)
    requires
        writable(report_conforms(*report), findings_view(*report)),
    ensures
        r is Ok,
        graph_triples(r->Ok_0) == report_graph(report_conforms(*report), findings_view(*report)),
        report_written(
            graph_triples(r->Ok_0),
            report_conforms(*report),
            findings_view(*report),
        ),
        !quotes(graph_triples(r->Ok_0)),
        graph_prefixes(r->Ok_0) == report_prefixes(),
{
    let mut graph = OxigraphInMemory::empty();
    report.to_rdf(&mut graph).map_err(|e| e.to_string())?;
    Ok(graph)
}

/// What a document, or the error that came instead, comes to.
pub open spec fn document_outcome(document: Result<Seq<u8>, Seq<char>>) -> Result<
    Seq<char>,
    ErrorV,
> {
    match document {
        Ok(bytes) => if vstd::utf8::valid_utf8(bytes) {
            Ok(vstd::utf8::decode_utf8(bytes))
        } else {
            Err(failure_view("urn:shacl:validate: report not UTF-8: "@, utf8_fault(bytes)))
        },
        Err(e) => Err(failure_view("urn:shacl:validate: report serialize error: "@, e)),
    }
}

/// The text of a document, or the error that came instead.
pub fn document_text(document: Result<Vec<u8>, String>) -> (r: Result<String, Error>)
    ensures
        outcome(r) == document_outcome(document_view(document)),
        r is Ok <==> document is Ok && vstd::utf8::valid_utf8(document->Ok_0@),
        r is Ok ==> r->Ok_0@ == vstd::utf8::decode_utf8(document->Ok_0@),
{
    match document {
        Ok(bytes) => match utf8_text(bytes) {
            Ok(text) => Ok(text),
            Err(e) => Err(failure("urn:shacl:validate: report not UTF-8: ", e.as_str())),
        },
        Err(e) => Err(failure("urn:shacl:validate: report serialize error: ", e.as_str())),
    }
}

/// Whether `r` may come of a report graph, once its blank nodes have names: the Turtle of the
/// named graph, which has no blank node, and no IRI under the prefix of minted names but those
/// minted for its blank nodes.
pub open spec fn served(
    triples: Set<oxrdf::Triple>,
    document: Seq<u8>,
    r: Result<Seq<char>, ErrorV>,
) -> bool {
    match skolem_graph(triples) {
        Ok(named) => {
            &&& forall|t: oxrdf::Triple| #[trigger]
                named.contains(t) ==> without_blank(t) && only_minted(t, triples)
            &&& turtle_documents(named, report_prefixes()).contains(Ok(document))
            &&& vstd::utf8::valid_utf8(document)
            &&& r == Ok::<Seq<char>, ErrorV>(vstd::utf8::decode_utf8(document))
        },
        Err(e) => r == Err::<Seq<char>, ErrorV>(e),
    }
}

/// Whether `r` may come of writing a report as Turtle, its results in order.
/// A report that can be written fails only where its graph has an object that cannot be read, or
/// an IRI under the prefix of minted names.
pub open spec fn turtle_outcome(report: ValidationReport, r: Result<Seq<char>, ErrorV>) -> bool {
    if writable(report_conforms(report), findings_view(report)) {
        let findings = in_order(findings_view(report));
        let triples = report_graph(report_conforms(report), findings);
        &&& report_written(triples, report_conforms(report), findings)
        &&& !quotes(triples)
        &&& exists|document: Seq<u8>| #[trigger] served(triples, document, r)
    } else {
        r == Err::<Seq<char>, ErrorV>(
            ErrorV::Endpoint(
                "urn:shacl:validate: report to RDF error: a quoted triple cannot be written"@,
            ),
        )
    }
}

/// Whether an optional node is a quoted triple.
fn quoted_option(node: &Option<Node>) -> (r: bool)
    ensures
        r == is_quoted_option(node_option(*node)),
{
    match node {
        Some(node) => is_quoted(node),
        None => false,
    }
}

/// Whether no node of a finding is a quoted triple.
fn can_write(finding: &Finding) -> (r: bool)
    ensures
        r == unquoted(finding@),
{
    !is_quoted(&finding.focus) && !is_quoted(&finding.component) && !quoted_option(&finding.value)
        && !quoted_option(&finding.source)
}

/// Whether a report can be written.
fn is_writable(report: &ValidationReport) -> (r: bool)
    ensures
        r == writable(report_conforms(*report), findings_view(*report)),
{
    if report.conforms() {
        return true;
    }
    let findings = findings_of(report);
    let ghost all = views(findings@);
    let mut i: usize = 0;
    while i < findings.len()
        invariant
            i <= findings@.len(),
            !report_conforms(*report),
            all == views(findings@),
            all == findings_view(*report),
            forall|k: int| 0 <= k < i ==> unquoted(#[trigger] all[k]),
        decreases findings@.len() - i,
    {
        if !can_write(&findings[i]) {
            assert(!unquoted(all[i as int]));
            return false;
        }
        i += 1;
    }
    true
}

/// Writes the validator's report as a Turtle graph, its blank nodes named: see
/// [`skolemize`](crate::skolem::skolemize). A report with a quoted triple that would have to be
/// written is refused.
pub fn report_turtle(report: &ValidationReport) -> (r: Result<String, Error>)
    ensures
        turtle_outcome(*report, outcome(r)),
        serves(*report, outcome(r)),
{
    proof {
        assert forall|r: Result<Seq<char>, ErrorV>| #[trigger]
            turtle_outcome(*report, r) implies serves(*report, r) by {
            every_finding_is_served(*report, r);
        }
    }
    if !is_writable(report) {
        return Err(
            refusal("urn:shacl:validate: report to RDF error: a quoted triple cannot be written"),
        );
    }
    let arranged = arrange(report);
    proof {
        in_order_holds(findings_view(*report));
    }
    let graph = match write_report(&arranged) {
        Ok(graph) => graph,
        Err(e) => {
            return Err(failure("urn:shacl:validate: report to RDF error: ", e.as_str()));
        },
    };
    let ghost triples = graph_triples(graph);
    let ghost none = Seq::<u8>::empty();
    let named = match skolemize(&graph) {
        Ok(named) => named,
        Err(e) => {
            assert(served(triples, none, Err(e@)));
            return Err(e);
        },
    };
    assert(only_shacl(graph_prefixes(named)));
    let document = turtle_bytes(&named);
    let ghost bytes = document->Ok_0@;
    let r = document_text(document);
    assert(served(triples, bytes, outcome(r)));
    r
}

} // verus!
