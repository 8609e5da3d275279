use ikigai_shacl::engine::compile_shapes;
use ikigai_shacl::{
    is_inline_shapes, validate, validate_outcome, validate_report, Error, QuotedTriple, Report,
    ReportResult, Term, ValidationOutcome, Violation,
};
use serde_json::Value;

const SHAPES: &str = r#"@prefix sh: <http://www.w3.org/ns/shacl#> .
@prefix xsd: <http://www.w3.org/2001/XMLSchema#> .
@prefix : <http://example.org/> .
:PersonShape a sh:NodeShape ;
  sh:targetClass :Person ;
  sh:property [ sh:path :name ; sh:minCount 1 ; sh:datatype xsd:string ] ."#;

fn json(data: &str, shapes: &str) -> String {
    String::from_utf8(validate(data, shapes, "application/json").unwrap().bytes).unwrap()
}

#[test]
fn conforming_data_conforms() {
    let data = r#"@prefix : <http://example.org/> .
:alice a :Person ; :name "Alice" ."#;
    let body = json(data, SHAPES);
    assert!(body.contains("\"conforms\": true"), "{body}");
}

#[test]
fn violating_data_reports() {
    // :bob is a Person with no :name, which violates sh:minCount 1.
    let data = r#"@prefix : <http://example.org/> .
:bob a :Person ."#;
    let body = json(data, SHAPES);
    assert!(body.contains("\"conforms\": false"), "{body}");
}

#[test]
fn report_is_a_turtle_graph() {
    let data = r#"@prefix : <http://example.org/> .
:bob a :Person ."#;
    let ttl = String::from_utf8(validate(data, SHAPES, "text/turtle").unwrap().bytes).unwrap();
    // The SHACL report is itself RDF: it carries the shacl namespace.
    assert!(ttl.contains("shacl#") || ttl.contains("sh:"), "report graph: {ttl}");
}

/// A `sh:sparql` on a node shape with a `{?value}` message template. The report must name the
/// value; the path is `null` because a node-shape constraint has none.
const KNOWS_SHAPES: &str = r#"@prefix sh: <http://www.w3.org/ns/shacl#> .
@prefix : <http://example.org/> .
:PersonShape a sh:NodeShape ;
  sh:targetClass :Person ;
  sh:sparql [
    sh:message "{?this} knows itself via {?value}" ;
    sh:prefixes <http://example.org/> ;
    sh:select """
      PREFIX : <http://example.org/>
      SELECT $this ?value WHERE { $this :knows ?value . FILTER(?value = $this) }
    """ ] ."#;

const KNOWS_DATA: &str = r#"@prefix : <http://example.org/> .
:bob a :Person ; :knows :bob ."#;

#[test]
fn sparql_node_constraint_resolves_the_message_and_carries_the_value() {
    let report = validate_report(KNOWS_DATA, KNOWS_SHAPES).unwrap();
    assert!(!report.conforms);
    assert_eq!(report.violations.len(), 1, "{report:?}");
    let r = &report.violations[0];
    assert_eq!(r.focus_node, "http://example.org/bob");
    assert_eq!(r.path, None, "a node-shape sh:sparql has no sh:resultPath");
    assert_eq!(r.component, "http://www.w3.org/ns/shacl#SPARQLConstraintComponent");
    assert_eq!(
        r.message,
        Some(Term::Literal {
            value: "http://example.org/bob knows itself via http://example.org/bob".into(),
            lang: None,
            datatype: None,
        })
    );
    assert_eq!(
        r.value,
        Some(Term::Uri {
            value: "http://example.org/bob".into()
        })
    );
}

#[test]
fn sparql_constraint_that_binds_path_fills_path() {
    let shapes = KNOWS_SHAPES.replace(
        "SELECT $this ?value WHERE {",
        "SELECT $this ?value ?path WHERE { BIND(:knows AS ?path)",
    );
    let report = validate_report(KNOWS_DATA, &shapes).unwrap();
    assert_eq!(report.violations.len(), 1, "{report:?}");
    assert_eq!(
        report.violations[0].path.as_deref(),
        Some("http://example.org/knows"),
        "a bound ?path becomes sh:resultPath"
    );
}

#[test]
fn sparql_constraint_without_a_message_reports_null_message() {
    let shapes = KNOWS_SHAPES.replace("sh:message \"{?this} knows itself via {?value}\" ;\n", "");
    let report = validate_report(KNOWS_DATA, &shapes).unwrap();
    assert_eq!(report.violations.len(), 1, "{report:?}");
    assert_eq!(report.violations[0].message, None);
}

#[test]
fn tagged_shape_message_beats_the_validator_default_and_lowest_tag_wins() {
    // Core-constraint results carry the validator's own untagged default message merged with
    // the shape's; a shape author's tagged message must be what the JSON reports.
    let shapes = SHAPES.replace(
        "sh:datatype xsd:string ]",
        "sh:datatype xsd:string ; sh:message \"nom {?value} invalide\"@fr, \
         \"name {?value} is not a string\"@en ]",
    );
    let data = r#"@prefix : <http://example.org/> .
:carol a :Person ; :name 42 ."#;
    let report = validate_report(data, &shapes).unwrap();
    assert_eq!(report.violations.len(), 1, "{report:?}");
    assert_eq!(
        report.violations[0].message,
        Some(Term::Literal {
            value: "name 42 is not a string".into(),
            lang: Some("en".into()),
            datatype: None,
        })
    );
}

fn text(value: &Value) -> String {
    value.as_str().unwrap().to_string()
}

fn optional_text(value: Option<&Value>) -> Option<String> {
    match value {
        None | Some(Value::Null) => None,
        Some(value) => Some(text(value)),
    }
}

fn parse_term(value: &Value) -> Option<Term> {
    if value.is_null() {
        return None;
    }
    let kind = value["type"].as_str().unwrap();
    Some(match kind {
        "uri" => Term::Uri { value: text(&value["value"]) },
        "bnode" => Term::Bnode { value: text(&value["value"]) },
        "literal" => Term::Literal {
            value: text(&value["value"]),
            lang: optional_text(value.get("xml:lang")),
            datatype: optional_text(value.get("datatype")),
        },
        "triple" => Term::Triple {
            value: Box::new(QuotedTriple {
                subject: parse_term(&value["value"]["subject"]).unwrap(),
                predicate: parse_term(&value["value"]["predicate"]).unwrap(),
                object: parse_term(&value["value"]["object"]).unwrap(),
            }),
        },
        other => panic!("unknown kind {other}"),
    })
}

fn parse_report(body: &str) -> Report {
    let value: Value = serde_json::from_str(body).unwrap();
    Report {
        conforms: value["conforms"].as_bool().unwrap(),
        violations: value["violations"]
            .as_array()
            .unwrap()
            .iter()
            .map(|v| ReportResult {
                focus_node: text(&v["focus_node"]),
                path: optional_text(v.get("path")),
                component: text(&v["component"]),
                message: parse_term(&v["message"]),
                value: parse_term(&v["value"]),
            })
            .collect(),
    }
}

#[test]
fn json_keeps_the_signature_keys_first_and_in_order() {
    let body = json(KNOWS_DATA, KNOWS_SHAPES);
    let keys: Vec<usize> = [
        "\"focus_node\"",
        "\"path\"",
        "\"component\"",
        "\"message\"",
        "\"value\"",
    ]
    .iter()
    .map(|k| body.find(k).unwrap_or_else(|| panic!("{k} missing in {body}")))
    .collect();
    assert!(keys.windows(2).all(|w| w[0] < w[1]), "key order in {body}");
    // And the JSON face round-trips through the public type.
    let parsed = parse_report(&body);
    assert_eq!(parsed, validate_report(KNOWS_DATA, KNOWS_SHAPES).unwrap());
}

#[test]
fn turtle_face_carries_the_same_resolved_message_value_and_path() {
    let shapes = SHAPES.replace(
        "sh:datatype xsd:string ]",
        "sh:datatype xsd:string ; sh:message \"{?value} is not a string\" ]",
    );
    let data = r#"@prefix : <http://example.org/> .
:carol a :Person ; :name 42 ."#;
    let ttl = String::from_utf8(validate(data, &shapes, "text/turtle").unwrap().bytes).unwrap();
    for needle in [
        "sh:resultMessage \"42 is not a string\"",
        "sh:value 42",
        "sh:resultPath <http://example.org/name>",
        "sh:focusNode <http://example.org/carol>",
    ] {
        assert!(ttl.contains(needle), "missing `{needle}` in report graph:\n{ttl}");
    }
    // The template is resolved on this face too, not copied through verbatim.
    assert!(!ttl.contains("{?value}"), "unresolved template in:\n{ttl}");
}

#[test]
fn inline_shapes_detected() {
    assert!(is_inline_shapes("@prefix : <x> .\n:S a sh:NodeShape ."));
    assert!(is_inline_shapes("<http://x> a sh:NodeShape ."));
    assert!(!is_inline_shapes("urn:data:shapes"));
    assert!(!is_inline_shapes("https://example.org/shapes.ttl"));
}

/// The exact shape of the JSON face, pinned: this is what a consumer parses.
#[test]
fn the_json_face_is_pinned() {
    let shapes = r#"@prefix sh: <http://www.w3.org/ns/shacl#> .
@prefix xsd: <http://www.w3.org/2001/XMLSchema#> .
@prefix : <http://example.org/> .
:PersonShape a sh:NodeShape ;
  sh:targetClass :Person ;
  sh:property [ sh:path :name ; sh:datatype xsd:string ;
                sh:message "{?value} is not a string"@en ] ."#;
    let data = r#"@prefix : <http://example.org/> .
:carol a :Person ; :name 42 ."#;
    assert_eq!(
        json(data, shapes),
        r#"{
  "conforms": false,
  "violations": [
    {
      "focus_node": "http://example.org/carol",
      "path": "http://example.org/name",
      "component": "http://www.w3.org/ns/shacl#DatatypeConstraintComponent",
      "message": {
        "type": "literal",
        "value": "42 is not a string",
        "xml:lang": "en"
      },
      "value": {
        "type": "literal",
        "value": "42",
        "datatype": "http://www.w3.org/2001/XMLSchema#integer"
      }
    }
  ]
}"#
    );
}

#[test]
fn an_empty_report_is_pinned() {
    let data = r#"@prefix : <http://example.org/> .
:alice a :Person ; :name "Alice" ."#;
    assert_eq!(json(data, SHAPES), "{\n  \"conforms\": true,\n  \"violations\": []\n}");
}

#[test]
fn the_outcome_is_the_sorted_signatures() {
    let data = r#"@prefix : <http://example.org/> .
:zoe a :Person ; :name 1 .
:carol a :Person ; :name 42 .
:bob a :Person ."#;
    let violation = |who: &str, what: &str| Violation {
        focus_node: format!("http://example.org/{who}"),
        path: Some("http://example.org/name".into()),
        component: format!("http://www.w3.org/ns/shacl#{what}ConstraintComponent"),
    };
    let expected = ValidationOutcome {
        conforms: false,
        violations: vec![
            violation("bob", "MinCount"),
            violation("carol", "Datatype"),
            violation("zoe", "Datatype"),
        ],
    };
    assert_eq!(validate_outcome(data, SHAPES).unwrap(), expected);
    let report = validate_report(data, SHAPES).unwrap();
    let signatures: Vec<Violation> = report.violations.iter().map(|r| r.signature()).collect();
    assert_eq!(signatures, expected.violations);
    assert_eq!(report.outcome(), expected);
}

#[test]
fn runs_agree_on_the_report() {
    let data = r#"@prefix : <http://example.org/> .
:zoe a :Person ; :name 1 .
:carol a :Person ; :name 42 .
:bob a :Person ."#;
    let first = json(data, SHAPES);
    for _ in 0..5 {
        assert_eq!(json(data, SHAPES), first);
    }
}

fn message(r: Result<Report, Error>) -> String {
    match r {
        Err(Error::Endpoint(message)) => message,
        other => panic!("unexpected: {other:?}"),
    }
}

#[test]
fn data_that_is_no_turtle_is_refused() {
    let message = message(validate_report("no turtle", SHAPES));
    assert!(
        message.starts_with("urn:shacl:validate: data graph parse error: "),
        "{message}"
    );
}

#[test]
fn shapes_that_are_no_turtle_are_refused_before_the_data() {
    let message = message(validate_report("no turtle", "no turtle either"));
    assert!(
        message.starts_with("urn:shacl:validate: shapes graph parse error: "),
        "{message}"
    );
}

#[test]
fn shapes_that_cannot_be_read_are_refused() {
    let shapes = r#"@prefix sh: <http://www.w3.org/ns/shacl#> .
@prefix : <http://example.org/> .
:S a sh:NodeShape ; sh:targetClass :Person ; sh:and "no list" ."#;
    let message = message(validate_report(KNOWS_DATA, shapes));
    assert!(
        message.starts_with("urn:shacl:validate: shapes parse error: "),
        "{message}"
    );
}

#[test]
fn shapes_that_cannot_be_compiled_are_refused() {
    let shapes = r#"@prefix sh: <http://www.w3.org/ns/shacl#> .
@prefix : <http://example.org/> .
:S a sh:NodeShape ; sh:targetClass :Person ; sh:pattern "(" ."#;
    let message = message(validate_report(KNOWS_DATA, shapes));
    assert!(
        message.starts_with("urn:shacl:validate: shapes compile error: "),
        "{message}"
    );
}

#[test]
fn shapes_are_compiled() {
    assert!(compile_shapes(SHAPES).is_ok());
    match compile_shapes("no turtle") {
        Err(Error::Endpoint(message)) => assert!(
            message.starts_with("urn:shacl:validate: shapes graph parse error: "),
            "{message}"
        ),
        Ok(_) => panic!("it was read"),
    }
}

#[test]
fn a_validator_that_fails_is_reported() {
    let shapes = KNOWS_SHAPES.replace("FILTER(?value = $this)", "FILTER(");
    let message = message(validate_report(KNOWS_DATA, &shapes));
    assert!(
        message.starts_with("urn:shacl:validate: validation error: "),
        "{message}"
    );
}

#[test]
fn media_types_choose_the_face() {
    let data = r#"@prefix : <http://example.org/> .
:bob a :Person ."#;
    for (asked, served) in [
        ("application/json", "application/json"),
        ("  application/json ; charset=utf-8", "application/json"),
        ("application/json;x;y", "application/json"),
        ("application/jsonx", "text/turtle"),
        ("text/turtle", "text/turtle"),
        ("", "text/turtle"),
        (";application/json", "text/turtle"),
        ("Application/JSON", "text/turtle"),
    ] {
        let representation = validate(data, SHAPES, asked).unwrap();
        assert_eq!(representation.media, served, "as={asked}");
        assert_eq!(representation.charset, "utf-8");
        assert!(representation.cacheable);
    }
}
