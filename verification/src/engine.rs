//! Running the validator: Turtle in, the validator's report out.
//!
//! What the validator's steps return is not a function of their arguments: blank nodes without
//! a label get random ones, and results come in the order of hash maps and threads. Each step
//! therefore has the set of all that it may return as its name, and what is stated here holds
//! of whatever came back.
//!
//! The validator does not return on every input. What it can take is stated in
//! [`limits`](crate::limits), tested before it is called, and refused where the test fails.

use oxrdf::Triple;
use rudof_rdf::rdf_core::{NeighsRDF, RDFFormat};
use rudof_rdf::rdf_impl::ReaderMode;
use shacl::ast::ASTSchema;
use shacl::ir::IRSchema;
use shacl::rdf::ShaclParser;
use shacl::validator::processor::{DataValidation, ShaclProcessor};
use shacl::validator::report::ValidationReport;
use shacl::validator::{ShaclConfig, ShaclValidationMode};
use sparql_service::RdfData;
use vstd::prelude::*;

use crate::error::{failure, labelled, Error};
use crate::facts::{facts, Fact};
use crate::limits::{find_read_fault, find_run_fault};
#[allow(unused_imports)]
use crate::{
    answers::{
        compiling_comes_to, compiling_is_answered, reading_comes_to, reading_is_answered,
        run_comes_to, runs_are_told,
    },
    error::{failure_view, plain, ErrorV},
    facts::{facts_of, FactV},
    limits::{can_read, can_run, read_fault, run_fault},
    walk::listed,
};

verus! {

/// A graph of the validator, opaque here.
#[verifier::external_type_specification]
#[verifier::external_body]
pub struct ExRdfData(RdfData);

/// Shapes as they were read, opaque here.
#[verifier::external_type_specification]
#[verifier::external_body]
pub struct ExASTSchema(ASTSchema);

/// Shapes as they were compiled, opaque here.
#[verifier::external_type_specification]
#[verifier::external_body]
pub struct ExIRSchema(IRSchema);

/// The triples of a graph that is held in memory.
pub uninterp spec fn data_triples(graph: RdfData) -> Set<Triple>;

/// Whether a graph is held in memory, with nothing of it at a remote endpoint.
pub uninterp spec fn is_local(graph: RdfData) -> bool;

/// Whether shapes were read from triples: every term of theirs stands in one, and every
/// constraint of theirs is said by one.
pub uninterp spec fn read_from(shapes: ASTSchema, triples: Set<Triple>) -> bool;

/// Whether compiled shapes come from triples, as [`read_from`] has it.
pub uninterp spec fn compiled_from(shapes: IRSchema, triples: Set<Triple>) -> bool;

/// What reading a text as Turtle may return.
pub uninterp spec fn turtle_graphs(text: Seq<char>) -> Set<Result<RdfData, Seq<char>>>;

/// What reading the shapes of a graph may return.
pub uninterp spec fn shape_readings(graph: RdfData) -> Set<Result<ASTSchema, Seq<char>>>;

/// What compiling shapes may return.
pub uninterp spec fn shape_compilations(shapes: ASTSchema) -> Set<Result<IRSchema, Seq<char>>>;

/// What validating a graph may return.
pub uninterp spec fn validations(
    data: RdfData,
    shapes: IRSchema,
) -> Set<Result<ValidationReport, Seq<char>>>;

/// Whether a step may return `r`.
pub open spec fn may_return<T>(outcomes: Set<Result<T, Seq<char>>>, r: Result<T, String>) -> bool {
    outcomes.contains(
        match r {
            Ok(value) => Ok(value),
            Err(e) => Err(e@),
        },
    )
}

/// `RdfData::from_str` with Turtle, no base and the default mode: a graph in memory, or an error.
#[verifier::external_body]
fn read_turtle(ttl: &str) -> (r: Result<RdfData, String>)
    ensures
        may_return(turtle_graphs(ttl@), r),
        r matches Ok(graph) ==> is_local(graph),
{
    RdfData::from_str(ttl, &RDFFormat::Turtle, None, &ReaderMode::default())
        .map_err(|e| e.to_string())
}

/// `RdfData::triples`, collected: the triples of a graph in memory, in an order that differs from
/// one run to another. It fails only at remote endpoints.
#[verifier::external_body]
fn list_triples(graph: &RdfData) -> (r: Result<Vec<Triple>, String>)
    requires
        is_local(*graph),
    ensures
        r is Ok,
        r->Ok_0@.to_set() == data_triples(*graph),
{
    graph.triples().map(|triples| triples.collect()).map_err(|e| e.to_string())
}

/// `ShaclParser::parse` on a graph whose shapes can be read: shapes that were read from its
/// triples, or an error. On any other graph the call may not return: a quoted triple as a value,
/// or a member of a list of language tags that is none, is met by code that is not written, and a
/// property path that leads to itself is followed for ever.
#[verifier::external_body]
fn read_shapes(graph: RdfData) -> (r: Result<ASTSchema, String>)
    requires
        can_read(facts_of(data_triples(graph))),
    ensures
        may_return(shape_readings(graph), r),
        r matches Ok(shapes) ==> read_from(shapes, data_triples(graph)),
{
    ShaclParser::new(graph).parse().map_err(|e| e.to_string())
}

/// Whether some triples that the validator can read shapes from are what shapes were read from.
spec fn is_readable(shapes: ASTSchema) -> bool {
    exists|triples: Set<Triple>| #[trigger]
        read_from(shapes, triples) && can_read(facts_of(triples))
}

/// `IRSchema::try_from` on shapes without a quoted triple, which it could not display in an error:
/// compiled shapes that come from the same triples, or an error.
#[verifier::external_body]
fn compile(shapes: ASTSchema) -> (r: Result<IRSchema, String>)
    requires
        is_readable(shapes),
    ensures
        may_return(shape_compilations(shapes), r),
        r matches Ok(compiled) ==> forall|triples: Set<Triple>| #[trigger]
            read_from(shapes, triples) ==> compiled_from(compiled, triples),
{
    IRSchema::try_from(shapes).map_err(|e| e.to_string())
}

/// Whether shapes come from triples that the validator can hold a data graph against.
spec fn is_runnable(shapes: IRSchema, data: RdfData) -> bool {
    exists|triples: Set<Triple>| #[trigger]
        compiled_from(shapes, triples) && can_run(facts_of(triples), facts_of(data_triples(data)))
}

/// `DataValidation::validate` in native mode with the default configuration: violations are
/// kept, conformance evidence is off. On a graph and shapes that are left out here the call may
/// not return: the inverse of a path is taken for that of a predicate, a place in the capitals of
/// a query for the same place in the query, after its path was written into it, what `sh:disjoint`
/// compares for a resource or a term that can be read, property shapes that lead to themselves are
/// followed along several value nodes at once, and a quoted triple is displayed by code that is
/// not written, where it is compared or where a shape meets it again, which is also what a shape
/// does that failed before and whose failure went unheeded.
#[verifier::external_body]
fn validate_data(data: RdfData, shapes: &IRSchema) -> (r: Result<ValidationReport, String>)
    requires
        is_local(data),
        is_runnable(*shapes, data),
    ensures
        may_return(validations(data, *shapes), r),
{
    let mut validator: DataValidation = data.into();
    validator
        .validate(shapes, &ShaclValidationMode::Native, &ShaclConfig::default())
        .map_err(|e| e.to_string())
}

/// Whether `r` is what a step returned, an error under the heading `start`.
pub open spec fn returned<T>(
    outcomes: Set<Result<T, Seq<char>>>,
    start: Seq<char>,
    r: Result<T, ErrorV>,
) -> bool {
    match r {
        Ok(value) => outcomes.contains(Ok(value)),
        Err(e) => exists|message: Seq<char>| #[trigger]
            outcomes.contains(Err(message)) && e == failure_view(start, message),
    }
}

/// The heading of the errors of reading a graph.
pub open spec fn parse_heading(role: Seq<char>) -> Seq<char> {
    "urn:shacl:validate: "@ + role + " graph parse error: "@
}

/// Whether `r` may come of reading a graph that has the given role.
pub open spec fn data_outcome(
    ttl: Seq<char>,
    role: Seq<char>,
    r: Result<RdfData, ErrorV>,
) -> bool {
    returned(turtle_graphs(ttl), parse_heading(role), r)
}

/// Reads a Turtle graph. `role` says in the error which one.
pub fn parse_data(ttl: &str, role: &str) -> (r: Result<RdfData, Error>)
    ensures
        data_outcome(ttl@, role@, plain(r)),
        reading_comes_to(ttl@, role@, plain(r)),
        r matches Ok(graph) ==> is_local(graph),
{
    let mut heading = String::new();
    heading.append("urn:shacl:validate: ");
    heading.append(role);
    heading.append(" graph parse error: ");
    assert(heading@ =~= parse_heading(role@));
    let r = labelled(read_turtle(ttl), heading.as_str());
    proof {
        reading_is_answered(ttl@, role@, plain(r));
    }
    r
}

/// The facts of a graph of the validator.
pub open spec fn graph_facts(graph: RdfData) -> Set<FactV> {
    facts_of(data_triples(graph))
}

/// The facts of a graph of the validator, as plain values.
fn list_facts(graph: &RdfData) -> (r: Vec<Fact>)
    requires
        is_local(*graph),
    ensures
        listed(r@) == graph_facts(*graph),
{
    match list_triples(graph) {
        Ok(triples) => facts(triples),
        Err(_) => Vec::new(),
    }
}

/// Whether `r` may come of reading and compiling the shapes of a graph: the validator cannot read
/// them, or it read them and then compiled them.
pub open spec fn graph_outcome(graph: RdfData, r: Result<IRSchema, ErrorV>) -> bool {
    match read_fault(graph_facts(graph)) {
        Some(fault) => r == Err::<IRSchema, ErrorV>(
            failure_view("urn:shacl:validate: shapes parse error: "@, fault),
        ),
        None => exists|read: Result<ASTSchema, ErrorV>| #[trigger]
            returned(shape_readings(graph), "urn:shacl:validate: shapes parse error: "@, read)
                && match read {
                Err(e) => r == Err::<IRSchema, ErrorV>(e),
                Ok(shapes) => returned(
                    shape_compilations(shapes),
                    "urn:shacl:validate: shapes compile error: "@,
                    r,
                ),
            },
    }
}

/// Whether `graph` may be what a text is read as, and `r` what its shapes come to.
pub open spec fn shapes_read(ttl: Seq<char>, graph: RdfData, r: Result<IRSchema, ErrorV>) -> bool {
    data_outcome(ttl, "shapes"@, Ok(graph)) && graph_outcome(graph, r)
}

/// Whether `r` may come of reading and compiling shapes.
pub open spec fn shapes_outcome(ttl: Seq<char>, r: Result<IRSchema, ErrorV>) -> bool {
    ||| r is Err && data_outcome(ttl, "shapes"@, Err(r->Err_0))
    ||| exists|graph: RdfData| #[trigger] shapes_read(ttl, graph, r)
}

/// Compiled shapes, and the facts that they come from.
struct Compiled {
    schema: IRSchema,
    facts: Vec<Fact>,
}

impl Compiled {
    /// Whether the shapes come from triples that they can be read from, and the facts are those
    /// triples.
    spec fn is_of(&self, triples: Set<Triple>) -> bool {
        &&& compiled_from(self.schema, triples)
        &&& listed(self.facts@) == facts_of(triples)
        &&& can_read(facts_of(triples))
    }
}

/// Reads and compiles the shapes of a graph.
fn compile_graph(graph: RdfData) -> (r: Result<Compiled, Error>)
    requires
        is_local(graph),
    ensures
        match r {
            Ok(compiled) => graph_outcome(graph, Ok(compiled.schema)) && compiled.is_of(
                data_triples(graph),
            ),
            Err(e) => graph_outcome(graph, Err(e@)),
        },
{
    let facts = list_facts(&graph);
    if let Some(fault) = find_read_fault(&facts) {
        return Err(failure("urn:shacl:validate: shapes parse error: ", fault));
    }
    let read = labelled(read_shapes(graph), "urn:shacl:validate: shapes parse error: ");
    assert(returned(
        shape_readings(graph),
        "urn:shacl:validate: shapes parse error: "@,
        plain(read),
    ));
    match read {
        Ok(shapes) => {
            assert(read_from(shapes, data_triples(graph)));
            match labelled(compile(shapes), "urn:shacl:validate: shapes compile error: ") {
                Ok(schema) => Ok(Compiled { schema, facts }),
                Err(e) => Err(e),
            }
        },
        Err(e) => Err(e),
    }
}

/// Whether compiled shapes come from a text that was read as the graph `source`.
spec fn is_compiled(ttl: Seq<char>, source: RdfData, compiled: Compiled) -> bool {
    shapes_read(ttl, source, Ok(compiled.schema)) && compiled.is_of(data_triples(source))
}

/// Reads and compiles a Turtle graph of shapes, and keeps its facts.
fn compile_text(ttl: &str) -> (r: Result<Compiled, Error>)
    ensures
        match r {
            Ok(compiled) => exists|source: RdfData| #[trigger] is_compiled(ttl@, source, compiled),
            Err(e) => shapes_outcome(ttl@, Err(e@)),
        },
{
    let source = match parse_data(ttl, "shapes") {
        Ok(source) => source,
        Err(e) => return Err(e),
    };
    match compile_graph(source) {
        Ok(compiled) => {
            assert(is_compiled(ttl@, source, compiled));
            Ok(compiled)
        },
        Err(e) => {
            assert(shapes_read(ttl@, source, Err(e@)));
            Err(e)
        },
    }
}

/// Reads and compiles a Turtle graph of shapes.
pub fn compile_shapes(ttl: &str) -> (r: Result<IRSchema, Error>)
    ensures
        shapes_outcome(ttl@, plain(r)),
        compiling_comes_to(ttl@, plain(r)),
{
    let r = match compile_text(ttl) {
        Ok(compiled) => Ok(compiled.schema),
        Err(e) => Err(e),
    };
    proof {
        compiling_is_answered(ttl@, plain(r));
    }
    r
}

/// Whether `r` may come of validating a data graph against compiled shapes, which come from the
/// graph `source`: the validator cannot hold the one against the other, or it did.
pub open spec fn validation_outcome(
    source: RdfData,
    shapes: IRSchema,
    data: RdfData,
    r: Result<ValidationReport, ErrorV>,
) -> bool {
    match run_fault(graph_facts(source), graph_facts(data)) {
        Some(fault) => r == Err::<ValidationReport, ErrorV>(
            failure_view("urn:shacl:validate: validation error: "@, fault),
        ),
        None => returned(
            validations(data, shapes),
            "urn:shacl:validate: validation error: "@,
            r,
        ),
    }
}

/// Whether `r` may come of validating a data graph against shapes, both as Turtle. The shapes
/// are read first.
pub open spec fn run_outcome(
    data_ttl: Seq<char>,
    shapes_ttl: Seq<char>,
    r: Result<ValidationReport, ErrorV>,
) -> bool {
    ||| r is Err && shapes_outcome(shapes_ttl, Err(r->Err_0))
    ||| exists|source: RdfData, shapes: IRSchema, data: Result<RdfData, ErrorV>|
        #![trigger shapes_read(shapes_ttl, source, Ok(shapes)), data_outcome(data_ttl, "data"@, data)]
        {
            &&& shapes_read(shapes_ttl, source, Ok(shapes))
            &&& data_outcome(data_ttl, "data"@, data)
            &&& match data {
                Err(e) => r == Err::<ValidationReport, ErrorV>(e),
                Ok(data) => validation_outcome(source, shapes, data, r),
            }
        }
}

/// Runs the validator: a data graph and compiled shapes come to the validator's report.
pub fn run(data_ttl: &str, shapes_ttl: &str) -> (r: Result<ValidationReport, Error>)
    ensures
        run_outcome(data_ttl@, shapes_ttl@, plain(r)),
        run_comes_to(data_ttl@, shapes_ttl@, plain(r)),
{
    proof {
        assert forall|r: Result<ValidationReport, ErrorV>| #[trigger]
            run_outcome(data_ttl@, shapes_ttl@, r) implies run_comes_to(
            data_ttl@,
            shapes_ttl@,
            r,
        ) by {
            runs_are_told(data_ttl@, shapes_ttl@, r);
        }
    }
    let compiled = match compile_text(shapes_ttl) {
        Ok(compiled) => compiled,
        Err(e) => return Err(e),
    };
    let ghost source = choose|source: RdfData| #[trigger] is_compiled(shapes_ttl@, source, compiled);
    let read = parse_data(data_ttl, "data");
    assert(shapes_read(shapes_ttl@, source, Ok(compiled.schema)));
    assert(data_outcome(data_ttl@, "data"@, plain(read)));
    let data = match read {
        Ok(data) => data,
        Err(e) => return Err(e),
    };
    if let Some(fault) = find_run_fault(&compiled.facts, &list_facts(&data)) {
        return Err(failure("urn:shacl:validate: validation error: ", fault));
    }
    assert(compiled.is_of(data_triples(source)));
    let r = labelled(
        validate_data(data, &compiled.schema),
        "urn:shacl:validate: validation error: ",
    );
    assert(run_outcome(data_ttl@, shapes_ttl@, plain(r)));
    r
}

} // verus!
