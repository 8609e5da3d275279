//! SHACL validation as an ikigai resource.
//!
//! `urn:shacl:validate` validates an RDF `data` graph against a SHACL `shapes` graph. The
//! validation report is itself an RDF graph: as `text/turtle`, the default, it is the SHACL
//! ValidationReport with a node for each violation, and every blank node of it is named under a
//! content address of the report ([`REPORT_SCHEME`]). As `application/json` it is a structured
//! [`Report`]. Both faces carry the same facts: the `sh:resultMessage` with its template
//! resolved, the offending `sh:value`, and the `sh:resultPath`.
//!
//! What the library decides and computes is verified. The RDF stack, the validator, the content
//! address and the kernel's IRIs are called through items whose contracts say what they are
//! trusted for; [`laws`] states what holds of the library as a whole.

pub mod answers;
pub mod arrange;
pub mod canonical;
pub mod decode;
pub mod document;
pub mod endpoint;
pub mod engine;
pub mod entries;
pub mod error;
pub mod face;
pub mod facts;
pub mod finding;
pub mod graph;
pub mod hazards;
pub mod json;
pub mod label;
pub mod laws;
pub mod limits;
pub mod meaning;
pub mod names;
pub mod order;
pub mod query;
pub mod rdf;
pub mod refusals;
pub mod report;
pub mod roundtrip;
pub mod skolem;
pub mod template;
pub mod term;
pub mod text;
pub mod turtle;
pub mod walk;

pub use endpoint::is_inline_shapes;
pub use error::Error;
pub use face::{validate, validate_outcome, validate_report, Representation};
pub use report::{Report, ReportResult, ValidationOutcome, Violation};
pub use skolem::REPORT_SCHEME;
pub use term::{QuotedTriple, Term};
