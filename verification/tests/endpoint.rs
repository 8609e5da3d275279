use ikigai_shacl::endpoint::{
    begin, describe, is_inline_shapes, name, resolve_shapes, resume, Pending, Source, Step, Verb,
};
use ikigai_shacl::engine::run;
use ikigai_shacl::template::resolve_messages;
use ikigai_shacl::turtle::report_turtle;
use ikigai_shacl::{Error, Representation, REPORT_SCHEME};

const ID: &str = "shacl-validate";
const TURTLE: &str = "text/turtle";
const JSON: &str = "application/json";

/// A shapes graph that produces a violation with a `sh:value`, a `sh:resultPath` and a
/// blank-node `sh:sourceShape`: one of each thing that has to be named.
const SHAPES: &str = r#"@prefix sh: <http://www.w3.org/ns/shacl#> .
@prefix xsd: <http://www.w3.org/2001/XMLSchema#> .
@prefix : <http://example.org/> .
:PersonShape a sh:NodeShape ;
  sh:targetClass :Person ;
  sh:property [ sh:path :name ; sh:minCount 1 ; sh:datatype xsd:string ;
                sh:message "{?value} is not a string" ] ."#;

/// The same shapes with the property shape named.
const NAMED_SHAPES: &str = r#"@prefix sh: <http://www.w3.org/ns/shacl#> .
@prefix xsd: <http://www.w3.org/2001/XMLSchema#> .
@prefix : <http://example.org/> .
:PersonShape a sh:NodeShape ;
  sh:targetClass :Person ;
  sh:property :NameShape .
:NameShape a sh:PropertyShape ;
  sh:path :name ; sh:minCount 1 ; sh:datatype xsd:string ;
  sh:message "{?value} is not a string" ."#;

/// Non-conforming, so that the report graph carries results.
const DATA: &str = r#"@prefix : <http://example.org/> .
:carol a :Person ; :name 42 .
:bob a :Person ."#;

/// A second data graph with a different violation.
const OTHER_DATA: &str = r#"@prefix : <http://example.org/> .
:dave a :Person ; :name 7 ."#;

fn answer(data: &str, shapes: &str, as_type: Option<&str>) -> Representation {
    match begin(Some(data), Some(shapes), as_type) {
        Ok(Step::Answer(representation)) => representation,
        Ok(_) => panic!("inline shapes are not fetched"),
        Err(e) => panic!("{e:?}"),
    }
}

fn bare_media_type(output: &str) -> String {
    output.split(';').next().unwrap().trim().to_string()
}

/// Every media type `as` accepts is a declared output, every declared output is reachable
/// through `as`, and each one is what is actually served, the default with `as` omitted among
/// them.
#[test]
fn declared_outputs_are_the_media_types_served() {
    let description = describe();
    assert!(description.verbs.contains(&Verb::Source), "Source is declared");
    let declared: Vec<String> = description.outputs.iter().map(|o| bare_media_type(o)).collect();
    let faces: Vec<String> = description
        .inputs
        .iter()
        .find(|i| i.name == "as")
        .expect("`as` is declared")
        .one_of
        .clone();
    assert_eq!(faces, declared, "`as` lists exactly the declared outputs");
    assert_eq!(faces, [TURTLE, JSON], "and both faces are the ones served");

    let default = answer(DATA, SHAPES, None);
    assert_eq!(default.media, TURTLE, "the report graph is the default face");
    for face in &faces {
        let served = answer(DATA, SHAPES, Some(face));
        assert_eq!(served.media, *face, "as={face}");
        let full = format!("{};charset={}", served.media, served.charset);
        assert!(description.outputs.contains(&full), "{full} is declared");
    }
}

/// Every node is named under `urn:ikigai:shacl:report:<content id>:`, and a different report mints
/// different names. The same names come of one validated report that is written twice. The texts
/// are not read again for it, as they are not by the kernel, which answers a request that it has
/// answered before from what it kept: the property shape has no label here, and a second reading
/// would give it another.
#[test]
fn the_report_graph_is_skolemized_under_a_content_address() {
    let validated = resolve_messages(run(DATA, SHAPES).unwrap());
    let report = report_turtle(&validated).unwrap();
    assert!(
        !report.contains("_:"),
        "no blank node survives skolemization:\n{report}"
    );
    let scheme = scheme_of(&report);
    assert!(
        scheme.starts_with("urn:ikigai:shacl:report:b3:"),
        "the scheme is a content address: {scheme}"
    );

    // Deterministic: the report written again names the same nodes.
    assert_eq!(
        scheme,
        scheme_of(&report_turtle(&validated).unwrap()),
        "same report, same names"
    );
    // And distinct: a different report can never reuse another's node IRIs.
    let other = answer(OTHER_DATA, SHAPES, None);
    assert_ne!(
        scheme,
        scheme_of(&String::from_utf8(other.bytes).expect("the report face is UTF-8")),
        "a different report is a different content address"
    );

    // The nodes the report is made of are all under it, including the one the shapes graph
    // contributed (a blank-node `sh:sourceShape`).
    for needle in ["a sh:ValidationReport", "a sh:ValidationResult", "sh:sourceShape"] {
        assert!(report.contains(needle), "missing `{needle}`:\n{report}");
    }
    assert_eq!(
        report.matches(&scheme).count(),
        report.matches("urn:ikigai:shacl").count(),
        "every minted IRI is under the one scheme:\n{report}"
    );
}

fn turtle(data: &str, shapes: &str) -> String {
    String::from_utf8(answer(data, shapes, None).bytes).expect("the report face is UTF-8")
}

/// Where no blank node comes from the graphs, the same data and shapes name the same nodes,
/// however often they are validated.
#[test]
fn validating_twice_mints_the_same_names() {
    let one = turtle(OTHER_DATA, NAMED_SHAPES);
    assert_eq!(one.matches("a sh:ValidationResult").count(), 1, "{one}");
    assert_eq!(scheme_of(&one), scheme_of(&turtle(OTHER_DATA, NAMED_SHAPES)));
    // Two violations and more are written in order.
    let many = r#"@prefix : <http://example.org/> .
:a a :Person . :b a :Person ; :name 1 . :c a :Person ; :name 2 . :d a :Person ; :name 3 ."#;
    for data in [DATA, many] {
        let scheme = scheme_of(&turtle(data, NAMED_SHAPES));
        let json = answer(data, NAMED_SHAPES, Some(JSON)).bytes;
        for _ in 0..5 {
            assert_eq!(scheme, scheme_of(&turtle(data, NAMED_SHAPES)));
            assert_eq!(json, answer(data, NAMED_SHAPES, Some(JSON)).bytes);
        }
    }
}

/// A label that an author wrote is kept in the name.
#[test]
fn written_labels_are_kept_in_names() {
    let shapes = SHAPES.replace("sh:property [", "sh:property _:name . _:name");
    let shapes = shapes.replace(" ] .", " .");
    let one = turtle(OTHER_DATA, &shapes);
    assert_eq!(scheme_of(&one), scheme_of(&turtle(OTHER_DATA, &shapes)), "{one}");
    assert!(one.contains(":name>"), "{one}");
}

/// The scheme a report graph was minted under: the common `urn:ikigai:shacl:report:<content id>:`
/// prefix of its node IRIs.
fn scheme_of(turtle: &str) -> String {
    let start = turtle
        .find(REPORT_SCHEME)
        .unwrap_or_else(|| panic!("no skolem IRI in:\n{turtle}"));
    let rest = &turtle[start..];
    let end = rest
        .find(['>', ' ', '\n'])
        .unwrap_or_else(|| panic!("unterminated IRI in:\n{turtle}"));
    let iri = &rest[..end];
    // Everything up to and including the separator after the content id.
    let label = iri.rfind(':').expect("a label follows the content id");
    iri[..=label].to_string()
}

/// The name and the description id agree, and the inputs are the declared ones.
#[test]
fn the_fixture_id_is_the_description_id() {
    let description = describe();
    assert_eq!(description.id, ID);
    assert_eq!(name(), ID);
    let declared: Vec<&str> = description.inputs.iter().map(|i| i.name.as_str()).collect();
    assert_eq!(declared, ["data", "shapes", "as"]);
    assert!(
        description.inputs.iter().all(|i| !i.class.is_empty()),
        "every input carries a class: {:?}",
        description.inputs
    );
    // `as` is the only optional one, and its default is one of its values.
    let as_spec = description.inputs.iter().find(|i| i.name == "as").expect("`as` is declared");
    assert!(!as_spec.required, "`as` defaults to the report graph");
    assert_eq!(as_spec.default.as_deref(), Some(TURTLE));
    let required: Vec<&str> =
        description.inputs.iter().filter(|i| i.required).map(|i| i.name.as_str()).collect();
    assert_eq!(required, ["data", "shapes"]);
}

#[test]
fn the_description_is_pinned() {
    let description = describe();
    assert_eq!(description.title, "SHACL validate");
    assert_eq!(
        description.summary,
        "Validate an RDF data graph against a SHACL shapes graph. The report is itself a graph \
         (text/turtle) — or application/json {conforms, violations: [{focus_node, path, \
         component, message, value}]}."
    );
    assert_eq!(description.verbs, [Verb::Source, Verb::Meta]);
    assert_eq!(
        description.outputs,
        ["text/turtle;charset=utf-8", "application/json;charset=utf-8"]
    );
    for input in &description.inputs {
        assert_eq!(input.class, "http://www.w3.org/2001/XMLSchema#string");
    }
    assert_eq!(
        description.inputs[0].summary,
        "the RDF data graph to validate, as Turtle — piped in: with `shapes` named it is the \
         sole unnamed required input, which is where the engine routes a piped value"
    );
    assert_eq!(
        description.inputs[1].summary,
        "the SHACL shapes graph: inline Turtle, or a resolvable resource IRI sourced through the \
         kernel (the report is then as cacheable as it is)"
    );
    assert_eq!(
        description.inputs[2].summary,
        "report representation: text/turtle (default, the report graph) or application/json"
    );
}

#[test]
fn turtle_openings_are_inline() {
    for inline in [
        "@prefix",
        "  @base",
        "<http://x>",
        "# a comment",
        "#",
        "_:b",
        "\n\t_:b",
        "a b",
        "urn:x ",
        "a\u{2003}b",
        "a\u{3000}",
    ] {
        assert!(is_inline_shapes(inline), "{inline:?}");
    }
    for reference in ["", "   ", "urn:x", "  urn:x", "_", "_x:", "http://x#y", "file:///x", "é"] {
        assert!(!is_inline_shapes(reference), "{reference:?}");
    }
}

fn source(shapes: &str) -> String {
    match resolve_shapes(shapes) {
        Ok(Source::Inline(text)) => format!("inline {text}"),
        Ok(Source::Http(url)) => format!("http {url}"),
        Ok(Source::Resource(iri)) => format!("resource {iri}"),
        Err(Error::Endpoint(message)) => message,
    }
}

#[test]
fn shapes_are_resolved_by_their_form() {
    assert_eq!(source("<x> <y> <z> ."), "inline <x> <y> <z> .");
    assert_eq!(source("http://example.org/s"), "http http://example.org/s");
    assert_eq!(source("https://example.org/s"), "http https://example.org/s");
    assert_eq!(source("urn:data:shapes"), "resource urn:data:shapes");
    assert_eq!(source("file:///shapes.ttl"), "resource file:///shapes.ttl");
    assert_eq!(source("httpx://example.org/s"), "resource httpx://example.org/s");
    let message = source("no-iri");
    assert!(
        message.starts_with("urn:shacl:validate: bad shapes IRI `no-iri`: "),
        "{message}"
    );
}

fn failed<T>(r: Result<T, Error>) -> String {
    match r {
        Err(Error::Endpoint(message)) => message,
        Ok(_) => panic!("it worked"),
    }
}

#[test]
fn missing_arguments_are_named() {
    assert_eq!(
        failed(begin(None, None, None)),
        "urn:shacl:validate needs a `data` RDF (Turtle) graph — usually piped in"
    );
    assert_eq!(
        failed(begin(Some(DATA), None, Some(JSON))),
        "urn:shacl:validate needs a `shapes` SHACL graph: inline Turtle or a resolvable resource \
         IRI"
    );
}

#[test]
fn references_are_fetched_before_the_data_is_read() {
    match begin(Some("no turtle"), Some("https://example.org/s"), Some(JSON)) {
        Ok(Step::Get { url, call }) => {
            assert_eq!(url, "https://example.org/s");
            assert_eq!(call.data, "no turtle");
            assert_eq!(call.as_type, JSON);
        }
        _ => panic!("it is fetched from the web"),
    }
    match begin(Some(DATA), Some("urn:data:shapes"), None) {
        Ok(Step::Source { iri, call }) => {
            assert_eq!(iri, "urn:data:shapes");
            assert_eq!(call.data, DATA);
            assert_eq!(call.as_type, TURTLE);
        }
        _ => panic!("it is sourced from the kernel"),
    }
    let message = failed(begin(Some(DATA), Some("no-iri"), None));
    assert!(
        message.starts_with("urn:shacl:validate: bad shapes IRI `no-iri`: "),
        "{message}"
    );
}

#[test]
fn fetched_shapes_are_used() {
    let call = Pending { data: DATA.to_string(), as_type: JSON.to_string() };
    let served = resume(&call, SHAPES.as_bytes().to_vec()).unwrap();
    assert_eq!(served, answer(DATA, SHAPES, Some(JSON)));
}

#[test]
fn fetched_shapes_must_be_text() {
    let call = Pending { data: DATA.to_string(), as_type: JSON.to_string() };
    assert_eq!(
        failed(resume(&call, vec![b'a', 0xff])),
        "urn:shacl:validate: shapes not UTF-8: invalid utf-8 sequence of 1 bytes from index 1"
    );
}
