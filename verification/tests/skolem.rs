use ikigai_core::ContentId;
use ikigai_shacl::label::encode_label;
use ikigai_shacl::rdf::{Node, Resource};
use ikigai_shacl::skolem::{canonical_line, skolem_iri, skolemize, skolemize_object};
use ikigai_shacl::turtle::document_text;
use ikigai_shacl::{Error, REPORT_SCHEME};
use oxrdf::{BlankNode, Literal, NamedNode, Term, Triple};
use rudof_rdf::rdf_core::term::literal::{ConcreteLiteral, Lang};
use rudof_rdf::rdf_core::{BuildRDF, NeighsRDF};
use rudof_rdf::rdf_impl::OxigraphInMemory;

#[test]
fn safe_labels_stay() {
    assert_eq!(encode_label("b0"), "b0");
    assert_eq!(encode_label("A-Z_a.z09"), "A-Z_a.z09");
    assert_eq!(encode_label(""), "");
}

#[test]
fn other_labels_are_percent_encoded() {
    assert_eq!(encode_label("a:b"), "a%3Ab");
    assert_eq!(encode_label("é"), "%C3%A9");
    assert_eq!(encode_label("a b%"), "a%20b%25");
    assert_eq!(encode_label("\u{10ffff}/~"), "%F4%8F%BF%BF%2F%7E");
    assert_eq!(encode_label("\u{1}"), "%01");
}

#[test]
fn encoded_labels_hold_no_colon_and_stay_apart() {
    let labels = ["a", "a:", "a%3A", ":", "", "A", "é", "e\u{301}", "%", "%25"];
    for (i, a) in labels.iter().enumerate() {
        assert!(!encode_label(a).contains(':'));
        for b in &labels[i + 1..] {
            assert_ne!(encode_label(a), encode_label(b), "{a} {b}");
        }
    }
}

fn iri_of(node: Result<Node, Error>) -> String {
    match node {
        Ok(Node::Iri(iri)) => iri,
        Ok(_) => panic!("no IRI"),
        Err(e) => panic!("{e:?}"),
    }
}

fn failed(node: Result<Node, Error>) -> String {
    match node {
        Err(Error::Endpoint(message)) => message,
        Ok(_) => panic!("it worked"),
    }
}

#[test]
fn names_are_the_scheme_and_the_label() {
    assert_eq!(iri_of(skolem_iri("urn:x:", "b:0")), "urn:x:b%3A0");
    assert_eq!(
        iri_of(skolemize_object(Node::Blank("1".into()), "urn:x:")),
        "urn:x:1"
    );
    assert_eq!(
        iri_of(skolemize_object(Node::Iri("http://x/".into()), "urn:x:")),
        "http://x/"
    );
}

/// Where there is nothing to name, the scheme makes no difference.
#[test]
fn objects_without_blank_nodes_stay_under_any_scheme() {
    for scheme in ["", "\"", "_:", "no scheme "] {
        assert_eq!(iri_of(skolemize_object(Node::Iri("urn:i".into()), scheme)), "urn:i");
        let node = Node::Triple {
            subject: Resource::Iri("urn:s".into()),
            predicate: "urn:p".into(),
            object: Box::new(Node::Literal(ConcreteLiteral::str("o"))),
        };
        match skolemize_object(node, scheme) {
            Ok(Node::Triple { subject: Resource::Iri(s), predicate, object }) => {
                assert_eq!((s.as_str(), predicate.as_str()), ("urn:s", "urn:p"));
                assert!(matches!(*object, Node::Literal(_)));
            }
            _ => panic!("it is a triple without blank nodes"),
        }
    }
}

#[test]
fn names_that_are_no_iris_are_refused() {
    let message = failed(skolem_iri("no scheme ", "b0"));
    assert!(
        message.starts_with("urn:shacl:validate: bad skolem IRI `no scheme b0`: "),
        "{message}"
    );
    assert_eq!(
        failed(skolem_iri("_:", "b0")),
        "urn:shacl:validate: skolem IRI `_:b0` did not parse as an IRI"
    );
}

#[test]
fn quoted_triples_are_named_throughout() {
    let node = Node::Triple {
        subject: Resource::Blank("s".into()),
        predicate: "urn:p".into(),
        object: Box::new(Node::Triple {
            subject: Resource::Iri("urn:i".into()),
            predicate: "urn:q".into(),
            object: Box::new(Node::Blank("o".into())),
        }),
    };
    match skolemize_object(node, "urn:x:") {
        Ok(Node::Triple { subject: Resource::Iri(s), predicate, object }) => {
            assert_eq!((s.as_str(), predicate.as_str()), ("urn:x:s", "urn:p"));
            match *object {
                Node::Triple { subject: Resource::Iri(i), predicate, object } => {
                    assert_eq!((i.as_str(), predicate.as_str()), ("urn:i", "urn:q"));
                    assert_eq!(iri_of(Ok(*object)), "urn:x:o");
                }
                _ => panic!("the object is a triple"),
            }
        }
        _ => panic!("it is a triple with a named subject"),
    }
}

#[test]
fn lines_are_compact_json() {
    assert_eq!(
        canonical_line(
            &Node::Blank("b\"0".into()),
            "urn:p\n",
            &Node::Iri("http://x/é".into())
        ),
        r#"[{"type":"bnode","value":"b\"0"},"urn:p\n",{"type":"uri","value":"http://x/é"}]"#
    );
    let tagged = ConcreteLiteral::lang_str("hi\u{1}\\", Lang::new("en-gb").unwrap());
    assert_eq!(
        canonical_line(
            &Node::Iri("urn:s".into()),
            "urn:p",
            &Node::Literal(tagged)
        ),
        "[{\"type\":\"uri\",\"value\":\"urn:s\"},\"urn:p\",{\"type\":\"literal\",\"value\":\
         \"hi\\u0001\\\\\",\"xml:lang\":\"en-GB\"}]"
    );
    let triple = Node::Triple {
        subject: Resource::Iri("urn:s".into()),
        predicate: "urn:p".into(),
        object: Box::new(Node::Literal(ConcreteLiteral::str("plain"))),
    };
    assert_eq!(
        canonical_line(&Node::Iri("urn:a".into()), "urn:b", &triple),
        r#"[{"type":"uri","value":"urn:a"},"urn:b",{"type":"triple","value":{"subject":{"type":"uri","value":"urn:s"},"predicate":{"type":"uri","value":"urn:p"},"object":{"type":"literal","value":"plain"}}}]"#
    );
}

fn iri(text: &str) -> NamedNode {
    NamedNode::new(text).unwrap()
}

fn blank(label: &str) -> BlankNode {
    BlankNode::new(label).unwrap()
}

fn triples(graph: &OxigraphInMemory) -> Vec<String> {
    let mut all: Vec<String> = graph.triples().unwrap().map(|t| t.to_string()).collect();
    all.sort();
    all
}

#[test]
fn a_graph_is_named_under_its_content_address() {
    let mut graph = OxigraphInMemory::empty();
    graph.add_triple(blank("r"), iri("urn:p"), blank("s")).unwrap();
    graph.add_triple(iri("urn:i"), iri("urn:p"), Literal::from("text")).unwrap();
    graph.add_triple(blank("s"), iri("urn:q"), iri("urn:o")).unwrap();
    let mut lines = vec![
        r#"[{"type":"bnode","value":"r"},"urn:p",{"type":"bnode","value":"s"}]"#,
        r#"[{"type":"uri","value":"urn:i"},"urn:p",{"type":"literal","value":"text"}]"#,
        r#"[{"type":"bnode","value":"s"},"urn:q",{"type":"uri","value":"urn:o"}]"#,
    ];
    lines.sort();
    let scheme = format!("{REPORT_SCHEME}{}:", ContentId::of(lines.join("\n").as_bytes()));
    let named = skolemize(&graph).unwrap();
    let mut expected = vec![
        format!("<{scheme}r> <urn:p> <{scheme}s>"),
        "<urn:i> <urn:p> \"text\"".to_string(),
        format!("<{scheme}s> <urn:q> <urn:o>"),
    ];
    expected.sort();
    assert_eq!(triples(&named), expected);
    // The names do not depend on how the graph was filled.
    let mut again = OxigraphInMemory::empty();
    again.add_triple(blank("s"), iri("urn:q"), iri("urn:o")).unwrap();
    again.add_triple(iri("urn:i"), iri("urn:p"), Literal::from("text")).unwrap();
    again.add_triple(blank("r"), iri("urn:p"), blank("s")).unwrap();
    assert_eq!(triples(&skolemize(&again).unwrap()), expected);
}

#[test]
fn a_graph_that_differs_has_other_names() {
    let mut graph = OxigraphInMemory::empty();
    graph.add_triple(blank("r"), iri("urn:p"), iri("urn:o")).unwrap();
    let one = triples(&skolemize(&graph).unwrap());
    graph.add_triple(iri("urn:i"), iri("urn:p"), iri("urn:o")).unwrap();
    let two = triples(&skolemize(&graph).unwrap());
    assert!(!two.contains(&one[0]));
}

#[test]
fn prefixes_are_kept() {
    let mut graph = OxigraphInMemory::empty();
    graph.add_prefix("x", &rudof_iri::IriS::new_unchecked("urn:x:"));
    graph.add_triple(blank("r"), iri("urn:p"), iri("urn:o")).unwrap();
    let named = skolemize(&graph).unwrap();
    assert_eq!(named.prefixmap(), graph.prefixmap());
}

#[test]
fn a_quoted_triple_is_refused() {
    let mut graph = OxigraphInMemory::empty();
    let quoted = Triple::new(iri("urn:s"), iri("urn:p"), iri("urn:o"));
    graph
        .add_triple(iri("urn:a"), iri("urn:b"), Term::Triple(Box::new(quoted)))
        .unwrap();
    assert_eq!(
        skolemize(&graph).err(),
        Some(Error::Endpoint(
            "urn:shacl:validate: report graph: a quoted triple cannot be stored".into()
        ))
    );
}

#[test]
fn the_prefix_of_minted_names_is_kept_for_them() {
    let claimed = format!("{REPORT_SCHEME}b3:0:x");
    let refused = Some(Error::Endpoint(
        "urn:shacl:validate: report graph: an IRI stands under the prefix of minted names".into(),
    ));
    let mut subject = OxigraphInMemory::empty();
    subject.add_triple(iri(&claimed), iri("urn:p"), iri("urn:o")).unwrap();
    assert_eq!(skolemize(&subject).err(), refused);
    let mut predicate = OxigraphInMemory::empty();
    predicate.add_triple(blank("b"), iri(&claimed), iri("urn:o")).unwrap();
    assert_eq!(skolemize(&predicate).err(), refused);
    let mut object = OxigraphInMemory::empty();
    object.add_triple(blank("b"), iri("urn:p"), iri(&claimed)).unwrap();
    assert_eq!(skolemize(&object).err(), refused);
    // A name is minted once: a graph that has minted names is not named again.
    let mut graph = OxigraphInMemory::empty();
    graph.add_triple(blank("b"), iri("urn:p"), iri("urn:o")).unwrap();
    let named = skolemize(&graph).unwrap();
    assert_eq!(skolemize(&named).err(), refused);
    // A text that merely holds the prefix is no claim.
    let mut text = OxigraphInMemory::empty();
    text.add_triple(iri("urn:s"), iri("urn:p"), Literal::from(claimed.as_str())).unwrap();
    assert!(skolemize(&text).is_ok());
}

#[test]
fn naming_again_changes_nothing() {
    for node in [
        Node::Blank("b:0".into()),
        Node::Iri("http://x/".into()),
        Node::Iri("urn:x:b".into()),
    ] {
        let named = iri_of(skolemize_object(node, "urn:x:"));
        assert_eq!(iri_of(skolemize_object(Node::Iri(named.clone()), "urn:y:")), named);
    }
    match skolemize_object(Node::Literal(ConcreteLiteral::str("_:b")), "urn:x:") {
        Ok(Node::Literal(literal)) => assert_eq!(literal, ConcreteLiteral::str("_:b")),
        _ => panic!("a literal stays"),
    }
}

#[test]
fn an_object_that_cannot_be_read_is_refused() {
    let mut graph = OxigraphInMemory::empty();
    let odd = Literal::new_language_tagged_literal_unchecked("text", "no tag!");
    graph.add_triple(iri("urn:a"), iri("urn:b"), odd).unwrap();
    assert_eq!(
        skolemize(&graph).err(),
        Some(Error::Endpoint(
            "urn:shacl:validate: report graph: an object is not an RDF term".into()
        ))
    );
}

#[test]
fn documents_are_text() {
    assert_eq!(document_text(Ok("é".as_bytes().to_vec())), Ok("é".to_string()));
    assert_eq!(
        document_text(Ok(vec![0xc3])),
        Err(Error::Endpoint(
            "urn:shacl:validate: report not UTF-8: incomplete utf-8 byte sequence from index 0"
                .into()
        ))
    );
    assert_eq!(
        document_text(Err("full".into())),
        Err(Error::Endpoint(
            "urn:shacl:validate: report serialize error: full".into()
        ))
    );
}
