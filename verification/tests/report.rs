use ikigai_shacl::arrange::arrange;
use ikigai_shacl::face::{report_of, show, wants_json, write_report_json};
use ikigai_shacl::finding::{finding_of, findings_of, Finding, Message};
use ikigai_shacl::order::sort;
use ikigai_shacl::rdf::{literal_term, plain_literal_term, shown, term, Node, Resource};
use ikigai_shacl::report::message_term;
use ikigai_shacl::template::{bare, resolve_messages, resolve_template};
use ikigai_shacl::text::{begins_with, order_text, same_text};
use ikigai_shacl::turtle::report_turtle;
use ikigai_shacl::{Error, QuotedTriple, Report, ReportResult, Term, Violation};
use rudof_iri::IriS;
use rudof_rdf::rdf_core::term::literal::{ConcreteLiteral, Lang};
use rudof_rdf::rdf_core::term::{IriOrBlankNode, Object};
use rudof_rdf::rdf_core::SHACLPath;
use shacl::types::{MessageMap, Severity};
use shacl::validator::report::{ValidationReport, ValidationResult};

fn object(iri: &str) -> Object {
    Object::iri(IriS::new_unchecked(iri))
}

fn quoted() -> Object {
    Object::Triple {
        subject: Box::new(IriOrBlankNode::BlankNode("s".into())),
        predicate: IriS::new_unchecked("urn:p"),
        object: Box::new(object("urn:o")),
    }
}

fn result(focus: Object) -> ValidationResult {
    ValidationResult::new(focus, object("urn:component"), Severity::Violation)
}

fn failing(results: Vec<ValidationResult>) -> ValidationReport {
    ValidationReport::new().with_conforms(false).with_results(results)
}

fn message(lang: Option<&str>, text: &str) -> Message {
    Message { lang: lang.map(|l| Lang::new(l).unwrap()), text: text.into() }
}

fn iri(text: &str) -> Node {
    Node::Iri(text.into())
}

fn plain(value: &str, lang: Option<&str>) -> Term {
    Term::Literal { value: value.into(), lang: lang.map(|l| l.into()), datatype: None }
}

fn found(focus: Node, value: Option<Node>, path: Option<&str>) -> Finding {
    Finding {
        focus,
        path: path.map(|p| SHACLPath::iri(IriS::new_unchecked(p))),
        component: iri("urn:component"),
        value,
        source: None,
        severity: "http://www.w3.org/ns/shacl#Violation".into(),
        messages: Vec::new(),
    }
}

#[test]
fn brackets_quotes_and_white_space_are_stripped() {
    assert_eq!(bare("<http://x/>"), "http://x/");
    assert_eq!(bare("\"text\""), "text");
    assert_eq!(bare(" \" text \" "), " text ");
    assert_eq!(bare("\"text\"@en"), "\"text\"@en");
    assert_eq!(bare("\"\""), "");
    assert_eq!(bare("\""), "\"");
    assert_eq!(bare("<a\""), "<a\"");
    assert_eq!(bare("  <http://x/>\u{a0}\n"), "http://x/");
    assert_eq!(bare("http://x/"), "http://x/");
    assert_eq!(bare("<"), "<");
    assert_eq!(bare("<>"), "");
    assert_eq!(bare("<a"), "<a");
    assert_eq!(bare("< a >"), " a ");
    assert_eq!(bare(" _:b "), "_:b");
    assert_eq!(bare(""), "");
}

#[test]
fn terms_have_lexical_forms() {
    let uri = Term::Uri { value: "urn:a".into() };
    let bnode = Term::Bnode { value: "b".into() };
    let literal = Term::Literal {
        value: "1".into(),
        lang: None,
        datatype: Some("urn:d".into()),
    };
    assert_eq!(uri.lexical(), "urn:a");
    assert_eq!(bnode.lexical(), "_:b");
    assert_eq!(literal.lexical(), "1");
    let triple = Term::Triple {
        value: Box::new(QuotedTriple { subject: bnode, predicate: uri, object: literal }),
    };
    assert_eq!(triple.lexical(), "<< _:b urn:a 1 >>");
    assert_eq!(triple.clone(), triple);
}

#[test]
fn literals_show_a_tag_or_a_datatype() {
    assert_eq!(literal_term(&ConcreteLiteral::str("a")), plain("a", None));
    assert_eq!(
        literal_term(&ConcreteLiteral::lang_str("a", Lang::new("EN").unwrap())),
        plain("a", Some("en"))
    );
    assert_eq!(
        literal_term(&ConcreteLiteral::boolean(true)),
        Term::Literal {
            value: "true".into(),
            lang: None,
            datatype: Some("http://www.w3.org/2001/XMLSchema#boolean".into()),
        }
    );
    assert_eq!(
        plain_literal_term("a".into(), Some("en".into()), "urn:d".into()),
        plain("a", Some("en"))
    );
    assert_eq!(
        plain_literal_term(
            "a".into(),
            None,
            "http://www.w3.org/2001/XMLSchema#string".into()
        ),
        plain("a", None)
    );
}

#[test]
fn nodes_are_terms() {
    assert_eq!(term(&iri("urn:a")), Term::Uri { value: "urn:a".into() });
    assert_eq!(term(&Node::Blank("b".into())), Term::Bnode { value: "b".into() });
    let node = Node::Triple {
        subject: Resource::Blank("s".into()),
        predicate: "urn:p".into(),
        object: Box::new(Node::Literal(ConcreteLiteral::str("o"))),
    };
    assert_eq!(
        term(&node),
        Term::Triple {
            value: Box::new(QuotedTriple {
                subject: Term::Bnode { value: "s".into() },
                predicate: Term::Uri { value: "urn:p".into() },
                object: plain("o", None),
            })
        }
    );
}

#[test]
fn nodes_are_displayed() {
    assert_eq!(shown(&iri("urn:a")), "urn:a");
    assert_eq!(shown(&Node::Blank("b".into())), "_:b");
    let literal = ConcreteLiteral::lang_str("a", Lang::new("en").unwrap());
    assert_eq!(shown(&Node::Literal(literal.clone())), literal.to_string());
    assert_eq!(shown(&Node::Literal(literal)), "\"a\"@en");
}

#[test]
fn templates_are_resolved() {
    let finding = found(iri("urn:f"), Some(Node::Blank("v".into())), Some("<urn:p>"));
    assert_eq!(
        resolve_template("{?this} {$this} {?value} {$value} {?path} {$path}", &finding),
        "urn:f urn:f _:v _:v urn:p urn:p"
    );
    assert_eq!(
        resolve_template("{{?value}{?value}{ ?value}{?values}", &finding),
        "{_:v_:v{ ?value}{?values}"
    );
    assert_eq!(resolve_template("nothing to say", &finding), "nothing to say");
}

#[test]
fn unbound_placeholders_are_left() {
    let finding = found(iri("urn:f"), None, None);
    assert_eq!(
        resolve_template("{?this} {?value} {$value} {?path} {$path} {?other}", &finding),
        "urn:f {?value} {$value} {?path} {$path} {?other}"
    );
}

#[test]
fn values_are_not_resolved_again() {
    // A value that itself reads like a placeholder is named as it is.
    let value = Node::Literal(ConcreteLiteral::str("{?path} {?this}"));
    let finding = found(iri("urn:f"), Some(value), Some("urn:p"));
    assert_eq!(
        resolve_template("{?this}: {?value} at {$path}", &finding),
        "urn:f: {?path} {?this} at urn:p"
    );
    let focus = found(iri("urn:{?value}"), Some(iri("urn:v")), None);
    assert_eq!(resolve_template("{$this} {?value}", &focus), "urn:{?value} urn:v");
}

#[test]
fn the_lowest_tag_is_reported() {
    assert_eq!(message_term(&vec![]), None);
    assert_eq!(message_term(&vec![message(None, "a")]), Some(plain("a", None)));
    let mut all = vec![
        message(None, "untagged"),
        message(Some("fr"), "a"),
        message(Some("en"), "z"),
        message(Some("en-GB"), "y"),
    ];
    assert_eq!(message_term(&all), Some(plain("z", Some("en"))));
    all.reverse();
    assert_eq!(message_term(&all), Some(plain("z", Some("en"))));
}

#[test]
fn results_are_read() {
    let read = finding_of(
        &result(object("urn:f"))
            .with_value(Some(Object::bnode("v".into())))
            .with_path(Some(SHACLPath::sequence(vec![
                SHACLPath::iri(IriS::new_unchecked("urn:p")),
                SHACLPath::inverse(SHACLPath::iri(IriS::new_unchecked("urn:q"))),
            ])))
            .with_source(Some(object("urn:s")))
            .with_message(
                MessageMap::new()
                    .with_message(None, "old".into())
                    .with_message(None, "new".into()),
            ),
    );
    assert_eq!(shown(&read.focus), "urn:f");
    assert_eq!(shown(&read.component), "urn:component");
    assert_eq!(shown(&read.value.unwrap()), "_:v");
    assert_eq!(shown(&read.source.unwrap()), "urn:s");
    assert_eq!(read.severity, "http://www.w3.org/ns/shacl#Violation");
    let path = read.path.unwrap();
    assert_eq!(path.to_string(), "(urn:p / ^(urn:q))");
    assert!(path.pred().is_none());
    assert_eq!(read.messages.len(), 1);
    assert_eq!(read.messages[0].text, "new");
}

#[test]
fn messages_are_resolved_in_the_report() {
    let report = failing(vec![result(object("urn:f"))
        .with_value(Some(object("urn:v")))
        .with_message(
            MessageMap::new()
                .with_message(None, "{?this}".into())
                .with_message(Some(Lang::new("en").unwrap()), "{?value}".into()),
        )]);
    let resolved = resolve_messages(report);
    assert!(!resolved.conforms());
    let findings = findings_of(&resolved);
    assert_eq!(findings.len(), 1);
    let mut texts: Vec<&str> = findings[0].messages.iter().map(|m| m.text.as_str()).collect();
    texts.sort();
    assert_eq!(texts, ["urn:f", "urn:v"]);
    assert_eq!(message_term(&findings[0].messages), Some(plain("urn:v", Some("en"))));
    assert_eq!(shown(findings[0].value.as_ref().unwrap()), "urn:v");
}

#[test]
fn reports_are_sorted_by_their_fields() {
    let make = |focus: &str, value: Option<Node>, path: Option<&str>| found(iri(focus), value, path);
    let findings = vec![
        make("urn:b", None, None),
        make("urn:a", Some(iri("urn:v")), Some("urn:q")),
        make("urn:a", Some(Node::Blank("v".into())), Some("urn:q")),
        make("urn:a", None, Some("urn:q")),
        make("urn:a", None, None),
        make("urn:a", Some(Node::Literal(ConcreteLiteral::str("v"))), Some("urn:q")),
        make("urn:a", None, Some("urn:p")),
    ];
    let report = Report::from_findings(false, &findings);
    let mut expected = report.violations.clone();
    expected.sort();
    assert_eq!(report.violations, expected);
    let order: Vec<String> = report
        .violations
        .iter()
        .map(|r| {
            format!(
                "{} {} {}",
                r.focus_node,
                r.path.as_deref().unwrap_or("-"),
                r.value.as_ref().map(|v| v.lexical()).unwrap_or("-".into())
            )
        })
        .collect();
    assert_eq!(
        order,
        [
            "urn:a - -",
            "urn:a urn:p -",
            "urn:a urn:q -",
            "urn:a urn:q urn:v",
            "urn:a urn:q _:v",
            "urn:a urn:q v",
            "urn:b - -",
        ]
    );
}

#[test]
fn sorting_agrees_with_the_order_of_the_types() {
    let mut words: Vec<String> = ["b", "", "ab", "a", "é", "z", "a", "aa", "\u{10000}", "\u{ffff}"]
        .iter()
        .map(|w| w.to_string())
        .collect();
    let sorted = sort(words.clone());
    words.sort();
    assert_eq!(sorted, words);
    assert_eq!(order_text("a", "b"), -1);
    assert_eq!(order_text("b", "a"), 1);
    assert_eq!(order_text("a", "ab"), -1);
    assert_eq!(order_text("ab", "a"), 1);
    assert_eq!(order_text("", ""), 0);
    assert!(same_text("é", "é"));
    assert!(!same_text("é", "e"));
}

#[test]
fn signatures_leave_message_and_value_out() {
    let result = ReportResult {
        focus_node: "f".into(),
        path: Some("p".into()),
        component: "c".into(),
        message: Some(plain("m", None)),
        value: Some(plain("v", None)),
    };
    assert_eq!(
        result.signature(),
        Violation { focus_node: "f".into(), path: Some("p".into()), component: "c".into() }
    );
}

#[test]
fn json_shows_every_kind_of_term() {
    let triple = Term::Triple {
        value: Box::new(QuotedTriple {
            subject: Term::Bnode { value: "b".into() },
            predicate: Term::Uri { value: "urn:p".into() },
            object: plain("\"\\\n\u{7f}", None),
        }),
    };
    let report = Report {
        conforms: false,
        violations: vec![ReportResult {
            focus_node: "f\t".into(),
            path: None,
            component: "c".into(),
            message: None,
            value: Some(triple),
        }],
    };
    assert_eq!(
        write_report_json(&report, None),
        "{\"conforms\":false,\"violations\":[{\"focus_node\":\"f\\t\",\"path\":null,\"component\":\
         \"c\",\"message\":null,\"value\":{\"type\":\"triple\",\"value\":{\"subject\":{\"type\":\
         \"bnode\",\"value\":\"b\"},\"predicate\":{\"type\":\"uri\",\"value\":\"urn:p\"},\
         \"object\":{\"type\":\"literal\",\"value\":\"\\\"\\\\\\n\u{7f}\"}}}}]}"
    );
    let parsed: serde_json::Value =
        serde_json::from_str(&write_report_json(&report, Some(""))).unwrap();
    assert_eq!(parsed["violations"][0]["value"]["value"]["object"]["value"], "\"\\\n\u{7f}");
    // The indented layout is that of the JSON crate.
    assert_eq!(
        write_report_json(&report, Some("")).split_whitespace().collect::<String>(),
        write_report_json(&report, None).split_whitespace().collect::<String>()
    );
}

fn unwritable() -> Error {
    Error::Endpoint(
        "urn:shacl:validate: report to RDF error: a quoted triple cannot be written".into(),
    )
}

#[test]
fn quoted_focus_nodes_are_shown_as_json_only() {
    let report = failing(vec![result(object("urn:f")), result(quoted())]);
    let shown = report_of(report.clone());
    assert_eq!(Report::from_report(&report), shown);
    let focus: Vec<&str> = shown.violations.iter().map(|v| v.focus_node.as_str()).collect();
    assert_eq!(focus, ["<< _:s urn:p urn:o >>", "urn:f"]);
    assert_eq!(report_turtle(&report), Err(unwritable()));
    assert!(show(report.clone(), "application/json").is_ok());
    assert_eq!(show(report, "text/turtle"), Err(unwritable()));
}

#[test]
fn quoted_values_are_shown_as_json_only() {
    let report = failing(vec![result(object("urn:f")).with_value(Some(quoted()))]);
    let shown = report_of(report.clone());
    assert_eq!(
        shown.violations[0].value.as_ref().unwrap().lexical(),
        "<< _:s urn:p urn:o >>"
    );
    assert_eq!(report_turtle(&report), Err(unwritable()));
    // Where the data conforms no result is written.
    let conforming = report.with_conforms(true);
    assert!(report_turtle(&conforming).is_ok());
}

#[test]
fn literal_focus_nodes_are_shown_without_quotes() {
    let report = failing(vec![
        result(Object::Literal(ConcreteLiteral::str(" a "))),
        result(Object::Literal(ConcreteLiteral::lang_str("b", Lang::new("en").unwrap()))),
    ]);
    let shown = report_of(report);
    let focus: Vec<&str> = shown.violations.iter().map(|v| v.focus_node.as_str()).collect();
    assert_eq!(focus, [" a ", "\"b\"@en"]);
}

#[test]
fn results_are_written_in_order() {
    let make = |focus: &str, source: Option<&str>| {
        result(object(focus)).with_source(source.map(|s| object(s)))
    };
    let warning =
        ValidationResult::new(object("urn:b"), object("urn:component"), Severity::Warning);
    let results = vec![
        make("urn:c", None),
        make("urn:b", Some("urn:z")),
        warning,
        make("urn:b", Some("urn:y")),
        make("urn:a", None),
    ];
    let mut back = results.clone();
    back.reverse();
    let listing = |report: &ValidationReport| -> Vec<String> {
        findings_of(report)
            .iter()
            .map(|f| {
                format!(
                    "{} {} {}",
                    shown(&f.focus),
                    f.severity.rsplit('#').next().unwrap(),
                    f.source.as_ref().map(|s| shown(s)).unwrap_or("-".into())
                )
            })
            .collect()
    };
    let arranged = arrange(&failing(results.clone()));
    assert!(!arranged.conforms());
    assert_eq!(
        listing(&arranged),
        [
            "urn:a Violation -",
            "urn:b Violation urn:y",
            "urn:b Violation urn:z",
            "urn:b Warning -",
            "urn:c Violation -",
        ]
    );
    assert_eq!(listing(&arrange(&failing(back.clone()))), listing(&arranged));
    // So the names do not depend on the order in which the results came.
    let scheme = |results: Vec<ValidationResult>| {
        let ttl = report_turtle(&failing(results)).unwrap();
        let start = ttl.find("urn:ikigai:shacl:report:b3:").unwrap();
        ttl[start..].split('>').next().unwrap().rsplit_once(':').unwrap().0.to_string()
    };
    assert_eq!(scheme(results), scheme(back));
}

/// Results are told apart by every message they have, not only by the one that is reported, and
/// by the kind of a term, not only by its text.
#[test]
fn results_that_look_alike_are_written_in_order() {
    let tagged = |german: &str| {
        let messages = MessageMap::new()
            .with_message(Some(Lang::new("en").unwrap()), "same".into())
            .with_message(Some(Lang::new("de").unwrap()), german.into());
        let messages = messages.with_message(Some(Lang::new("be").unwrap()), "first".into());
        result(object("urn:f")).with_message(messages)
    };
    let literal = result(Object::Literal(ConcreteLiteral::str("urn:f")));
    let literal = literal.with_message(MessageMap::new().with_message(None, "x".into()));
    let named = result(object("urn:f"));
    let named = named.with_message(MessageMap::new().with_message(None, "x".into()));
    let results = vec![tagged("b"), literal, tagged("a"), named];
    let mut back = results.clone();
    back.reverse();
    let listing = |results: &Vec<ValidationResult>| -> Vec<String> {
        findings_of(&arrange(&failing(results.clone())))
            .iter()
            .map(|f| {
                let mut texts: Vec<&str> = f.messages.iter().map(|m| m.text.as_str()).collect();
                texts.sort();
                format!("{} {}", matches!(f.focus, Node::Iri(_)), texts.join(" "))
            })
            .collect()
    };
    assert_eq!(
        listing(&results),
        ["true a first same", "true b first same", "true x", "false x"]
    );
    assert_eq!(listing(&back), listing(&results));
}

#[test]
fn complex_paths_are_written() {
    let path = SHACLPath::inverse(SHACLPath::iri(IriS::new_unchecked("urn:q")));
    let report = failing(vec![result(object("urn:f")).with_path(Some(path))]);
    assert_eq!(report_of(report.clone()).violations[0].path.as_deref(), Some("^(urn:q)"));
    let ttl = report_turtle(&report).unwrap();
    assert!(ttl.contains("sh:resultPath <urn:ikigai:shacl:report:"), "{ttl}");
    assert!(ttl.contains("sh:inversePath <urn:q>"), "{ttl}");
}

#[test]
fn reports_about_minted_names_are_refused() {
    let report = failing(vec![result(object("urn:ikigai:shacl:report:b3:0:x"))]);
    assert_eq!(
        report_turtle(&report),
        Err(Error::Endpoint(
            "urn:shacl:validate: report graph: an IRI stands under the prefix of minted names"
                .into()
        ))
    );
    assert_eq!(report_of(report).violations.len(), 1);
}

#[test]
fn the_graph_says_what_the_report_says() {
    let report = failing(vec![result(object("urn:f"))
        .with_value(Some(object("urn:v")))
        .with_path(Some(SHACLPath::iri(IriS::new_unchecked("urn:p"))))
        .with_source(Some(Object::bnode("shape".into())))
        .with_message(
            MessageMap::new().with_message(Some(Lang::new("en").unwrap()), "at {?value}".into()),
        )]);
    let ttl = String::from_utf8(show(report, "text/turtle").unwrap().bytes).unwrap();
    for needle in [
        "a sh:ValidationReport",
        "sh:conforms false",
        "a sh:ValidationResult",
        "sh:focusNode <urn:f>",
        "sh:sourceConstraintComponent <urn:component>",
        "sh:value <urn:v>",
        "sh:resultSeverity sh:Violation",
        "sh:resultPath <urn:p>",
        "sh:resultMessage \"at urn:v\"@en",
        ":shape>",
    ] {
        assert!(ttl.contains(needle), "missing `{needle}` in:\n{ttl}");
    }
    assert!(!ttl.contains("_:"), "{ttl}");
}

#[test]
fn media_types_are_read_up_to_their_parameters() {
    assert!(wants_json("application/json"));
    assert!(wants_json("\tapplication/json ;q=1"));
    assert!(!wants_json("text/turtle"));
    assert!(!wants_json("x;application/json"));
    assert!(!wants_json(""));
}

#[test]
fn texts_are_told_by_their_beginnings() {
    assert!(begins_with("http://x", "http://"));
    assert!(!begins_with("http:/", "http://"));
    assert!(begins_with("", ""));
}
