use ikigai_shacl::facts::Fact;
use ikigai_shacl::limits::{find_read_fault, find_run_fault};
use ikigai_shacl::query::{finds_path, finds_place, keeps_capitals};
use ikigai_shacl::rdf::{Node, Resource};
use ikigai_shacl::walk::{is_endless, reach, Link};
use ikigai_shacl::{validate_report, Error, Report};

const PREFIXES: &str = r#"@prefix sh: <http://www.w3.org/ns/shacl#> .
@prefix rdf: <http://www.w3.org/1999/02/22-rdf-syntax-ns#> .
@prefix : <http://example.org/> .
"#;

fn validated(data: &str, shapes: &str) -> Result<Report, Error> {
    validate_report(&format!("{PREFIXES}{data}"), &format!("{PREFIXES}{shapes}"))
}

fn refused(data: &str, shapes: &str) -> String {
    match validated(data, shapes) {
        Err(Error::Endpoint(message)) => message,
        Ok(report) => panic!("it was validated: {report:?}"),
    }
}

const PERSON: &str = ":a a :Person ; :p :b .";

#[test]
fn quoted_triples_among_shapes_are_refused() {
    let expected = "urn:shacl:validate: shapes parse error: a quoted triple stands where a term \
                    is expected";
    for constraint in [
        "sh:hasValue <<( :a :b :c )>>",
        "sh:in ( :x <<( :a :b :c )>> )",
        "sh:node <<( :a :b :c )>>",
    ] {
        let shapes = format!(":S a sh:NodeShape ; sh:targetClass :Person ; {constraint} .");
        assert_eq!(refused(PERSON, &shapes), expected, "{constraint}");
    }
    // Elsewhere in the shapes graph it does no harm.
    for elsewhere in [
        ":note <<( :a :b :c )>>",
        "sh:note <<( :a :b :c )>>",
        ":list ( <<( :a :b :c )>> )",
    ] {
        let shapes = format!(":S a sh:NodeShape ; sh:targetClass :Person ; {elsewhere} .");
        assert!(validated(PERSON, &shapes).unwrap().conforms, "{elsewhere}");
    }
}

#[test]
fn language_tags_are_read() {
    let shapes = |tags: &str| {
        format!(
            ":S a sh:NodeShape ; sh:targetClass :Person ; \
             sh:property :P . :P sh:path :p ; sh:languageIn {tags} ."
        )
    };
    let expected = "urn:shacl:validate: shapes parse error: a member of sh:languageIn is no \
                    language tag";
    for tags in [
        "( \"en\" \"e n\" )",
        "( \"\" )",
        "( :en )",
        "( 1 )",
        "( \"-en\" )",
        "( \"1\"^^<http://www.w3.org/2001/XMLSchema#boolean> )",
        "( <<( :a :b :c )>> )",
    ] {
        assert_eq!(refused(PERSON, &shapes(tags)), expected, "{tags}");
    }
    let data = ":a a :Person ; :p \"x\"@en-gb .";
    assert!(validated(data, &shapes("( \"en\" \"de-CH-1996\" )")).unwrap().conforms);
    assert!(!validated(data, &shapes("( \"fr\" )")).unwrap().conforms);
    // Of a literal of another type, its text is read.
    assert!(validated(data, &shapes("( \"en\"^^:t )")).unwrap().conforms);
}

#[test]
fn paths_that_lead_to_themselves_are_refused() {
    let expected = "urn:shacl:validate: shapes parse error: a property path leads to itself";
    for path in [
        "_:q . _:q sh:zeroOrMorePath _:q",
        "_:q . _:q sh:alternativePath _:l . _:l rdf:first _:q ; rdf:rest rdf:nil",
        "_:q . _:q rdf:first :p ; rdf:rest _:q",
    ] {
        let shapes = format!(":S a sh:PropertyShape ; sh:targetClass :Person ; sh:path {path} .");
        assert_eq!(refused(PERSON, &shapes), expected, "{path}");
    }
    let shapes = ":S a sh:PropertyShape ; sh:targetClass :Person ; \
                  sh:path ( :p [ sh:zeroOrMorePath :q ] ) ; sh:minCount 2 .";
    assert!(!validated(PERSON, shapes).unwrap().conforms);
}

#[test]
fn inverses_are_those_of_predicates() {
    let shapes = |path: &str| {
        format!(
            ":S a sh:PropertyShape ; sh:targetClass :Person ; \
             sh:path [ sh:inversePath {path} ] ; sh:minCount 1 ."
        )
    };
    assert_eq!(
        refused(PERSON, &shapes("[ sh:zeroOrMorePath :p ]")),
        "urn:shacl:validate: validation error: the inverse of a property path must be that of a \
         predicate"
    );
    assert_eq!(validated(PERSON, &shapes(":p")).unwrap().violations.len(), 1);
    // Where no node comes to the shape, its path is not followed.
    assert!(validated(":a a :Dog .", &shapes("[ sh:zeroOrMorePath :p ]")).unwrap().conforms);
}

#[test]
fn queries_have_a_place_for_the_focus_node() {
    let shapes = |select: &str| {
        format!(
            ":S a sh:NodeShape ; sh:targetClass :Person ; \
             sh:sparql [ sh:select \"\"\"{select}\"\"\" ] ."
        )
    };
    let expected = "urn:shacl:validate: validation error: a query has no place for the focus node";
    for select in [
        // Three bytes become two in capitals, so that the place falls into the last character.
        "#\u{2c65}\u{df}WHERE",
        // Two bytes become six, twice, so that the place falls behind the end.
        "\u{390}\u{390} WHERE$PATH",
    ] {
        assert_eq!(refused(PERSON, &shapes(select)), expected, "{select}");
    }
    for select in [
        "SELECT $this where { $this <http://example.org/p> ?o } # \u{df} $PATH",
        "# \u{e9}\u{df}\nSELECT $this WHERE { $this <http://example.org/p> ?o }",
        "# $PATH\nSELECT $this WHERE { $this <http://example.org/p> ?o }",
        "# \u{149}\nSELECT $this WHERE { $this <http://example.org/p> ?o }",
    ] {
        assert_eq!(validated(PERSON, &shapes(select)).unwrap().violations.len(), 1, "{select}");
    }
    // A query that does not come to be used is not looked at.
    assert!(validated(":a a :Dog .", &shapes("#\u{2c65}\u{df}WHERE")).unwrap().conforms);
    // A path that is written before the place is longer in capitals.
    let pathed = |path: &str| {
        format!(
            ":S a sh:PropertyShape ; sh:targetClass :Person ; sh:path {path} ; \
             sh:sparql [ sh:select \"\"\"# $PATH\nSELECT $this WHERE {{ $this :p ?o }}\"\"\" ; \
             sh:prefixes :x ] . :x sh:declare [ sh:prefix \"\" ; \
             sh:namespace \"http://example.org/\" ] ."
        )
    };
    assert_eq!(validated(PERSON, &pathed(":p")).unwrap().violations.len(), 1);
    assert_eq!(refused(PERSON, &pathed("<http://example.org/\u{390}>")), expected);
}

#[test]
fn places_are_found_in_capitals() {
    assert!(finds_place("SELECT $this { ?s ?p ?o }"));
    assert!(finds_place("wHeRe"));
    assert!(finds_place("\u{390}\u{390} WHERE and more"));
    assert!(!finds_place("\u{390}\u{390} WHERE"));
    assert!(!finds_place("\u{390}\u{390} WHERE and more $PATH"));
    assert!(finds_place("WHERE \u{390} $PATH"));
    assert!(finds_path("$PATH WHERE"));
    assert!(finds_path("$PATH"));
    assert!(!finds_path("WHERE $PATH"));
    assert!(keeps_capitals("stra\u{df}e \u{e9} x"));
    assert!(!keeps_capitals("\u{149}"));
    assert!(keeps_capitals(""));
}

#[test]
fn disjoint_values_are_those_of_resources() {
    let expected = "urn:shacl:validate: validation error: sh:disjoint may meet a node that it \
                    cannot hold";
    let targeted = ":S a sh:NodeShape ; sh:targetNode \"x\" ; sh:disjoint :p .";
    assert_eq!(refused(PERSON, targeted), expected);
    let objects = ":S a sh:NodeShape ; sh:targetObjectsOf :q ; sh:disjoint :p .";
    assert_eq!(refused(":a :q 1 .", objects), expected);
    assert!(validated(":a :q :b .", objects).unwrap().conforms);
    let referred = ":S a sh:NodeShape ; sh:targetClass :Person ; sh:property :P . \
                    :P sh:path :p ; sh:node :T . :T sh:disjoint :q .";
    assert_eq!(refused(":a a :Person ; :p 1 .", referred), expected);
    assert!(validated(PERSON, referred).unwrap().conforms);
    let sequence = ":S a sh:NodeShape ; sh:targetClass :Person ; sh:property :P . \
                    :P sh:path ( :p :q ) ; sh:disjoint :r .";
    let data = ":a a :Person ; :p :b ; :r 1 . :b :q 1 .";
    assert_eq!(validated(data, sequence).unwrap().violations.len(), 1);
    let nested = ":S a sh:NodeShape ; sh:targetClass :Person ; sh:node :T . :T sh:disjoint :q .";
    assert!(validated(":a a :Person ; :p 1 .", nested).unwrap().conforms);
    let listed = ":S a sh:PropertyShape ; sh:targetClass :Person ; sh:path :p ; \
                  sh:or ( :U :T ) . :T sh:disjoint :q . :U sh:nodeKind sh:IRI .";
    assert_eq!(refused(":a a :Person ; :p 1 .", listed), expected);
    assert!(validated(PERSON, listed).unwrap().conforms);
    let off = ":S a sh:NodeShape ; sh:targetNode \"x\" ; sh:disjoint :p ; sh:deactivated true .";
    assert!(validated(PERSON, off).unwrap().conforms);
    let one = "deactivated \"1\"^^<http://www.w3.org/2001/XMLSchema#boolean>";
    let not_off = off.replace("deactivated true", one);
    assert_eq!(refused(PERSON, &not_off), expected);
    let sibling = ":S a sh:NodeShape ; sh:targetNode :a ; sh:property :P1, :P2 . \
                   :P1 sh:path :p ; sh:qualifiedValueShape :Q1 ; sh:qualifiedMinCount 0 ; \
                   sh:qualifiedValueShapesDisjoint true . \
                   :P2 sh:path :q ; sh:qualifiedValueShape :Q2 ; sh:qualifiedMinCount 0 . \
                   :Q1 a sh:NodeShape . :Q2 a sh:NodeShape ; sh:disjoint :r .";
    assert_eq!(refused(":a :p \"x\" .", sibling), expected);
    assert!(validated(":a :p :b .", sibling).unwrap().conforms);
    let own = ":S a sh:PropertyShape ; sh:targetClass :Person ; sh:path :p ; sh:disjoint :q .";
    assert_eq!(validated(":a a :Person ; :p 1 ; :q 1 .", own).unwrap().violations.len(), 1);
}

#[test]
fn nested_property_shapes_end() {
    let shapes = ":S a sh:NodeShape ; sh:targetClass :Person ; sh:property :P . \
                  :P a sh:PropertyShape ; sh:path :knows ; sh:property :P ; sh:nodeKind sh:IRI .";
    let expected = "urn:shacl:validate: validation error: property shapes may nest without end";
    assert_eq!(refused(":a a :Person ; :knows :b , :c . :b :knows :a , :c .", shapes), expected);
    // A walk is cut where it comes back to a node that is the only value.
    for data in [
        ":a a :Person ; :knows :b . :b :knows :a .",
        ":a a :Person ; :knows :b , :c . :b :knows :a .",
        ":a a :Person ; :knows :a .",
    ] {
        assert!(validated(data, shapes).is_ok(), "{data}");
    }
    let tree = ":a a :Person ; :knows :b , :c . :b :knows :d . :d :knows \"x\" .";
    assert!(!validated(tree, shapes).unwrap().conforms);
    let crooked = shapes.replace("sh:path :knows", "sh:path [ sh:inversePath :knows ]");
    assert_eq!(refused(":a a :Person . :b :knows :a .", &crooked), expected);
    assert!(validated(PERSON, &crooked).unwrap().conforms);
}

#[test]
fn quoted_triples_in_the_data_are_not_displayed() {
    let data = ":a a :Person ; :p <<( :x :y :z )>> ; :q 1 .";
    let compared = ":S a sh:PropertyShape ; sh:targetClass :Person ; sh:path :p ; \
                    sh:lessThan :q .";
    let expected = "urn:shacl:validate: validation error: a quoted triple may have to be displayed";
    assert_eq!(refused(data, compared), expected);
    let beside = ":S a sh:PropertyShape ; sh:targetClass :Person ; sh:path :q ; \
                  sh:lessThan :r .";
    assert!(validated(data, beside).unwrap().conforms);
    let recursive = ":S a sh:PropertyShape ; sh:targetClass :Person ; sh:path :p ; sh:node :Q . \
                     :Q a sh:NodeShape ; sh:node :Q .";
    assert_eq!(refused(data, recursive), expected);
    let failing = ":S a sh:NodeShape ; sh:targetClass :Person ; sh:property :P1, :P2 . \
                   :P1 sh:path :p ; sh:not :Q . :P2 sh:path :p ; sh:not :Q . \
                   :Q a sh:NodeShape ; sh:sparql [ sh:select \"x\" ] .";
    assert_eq!(refused(data, failing), expected);
    let reified = ":S a sh:NodeShape ; sh:targetClass :Person ; sh:property :P1, :P2 . \
                   :P1 sh:path :p ; sh:not :Q . :P2 sh:path :p ; sh:not :Q . \
                   :Q sh:path :r ; sh:reifierShape :R . :R a sh:NodeShape .";
    assert_eq!(refused(data, reified), expected);
    let plain = ":S a sh:NodeShape ; sh:targetClass :Person ; sh:property :P1, :P2 . \
                 :P1 sh:path :p ; sh:not :Q . :P2 sh:path :p ; sh:not :Q . \
                 :Q a sh:NodeShape ; sh:nodeKind sh:IRI .";
    assert!(validated(data, plain).unwrap().conforms);
    let counted = ":S a sh:PropertyShape ; sh:targetClass :Person ; sh:path :p ; sh:maxCount 1 .";
    assert!(validated(data, counted).unwrap().conforms);
}

fn iri(text: &str) -> Resource {
    Resource::Iri(text.into())
}

fn fact(subject: &str, predicate: &str, object: &str) -> Fact {
    Fact {
        subject: iri(subject),
        predicate: predicate.into(),
        object: Some(Node::Iri(object.into())),
        quoted: false,
        text: None,
    }
}

#[test]
fn facts_without_fault_have_none() {
    let facts = vec![fact("urn:a", "http://www.w3.org/ns/shacl#path", "urn:p")];
    assert_eq!(find_read_fault(&facts), None);
    assert_eq!(find_run_fault(&facts, &vec![]), None);
    let unread = vec![Fact { object: None, ..fact("urn:a", "urn:p", "urn:b") }];
    assert_eq!(find_run_fault(&facts, &unread), None);
    let shacl = |name: &str| format!("http://www.w3.org/ns/shacl#{name}");
    let disjoint = vec![
        fact("urn:s", &shacl("disjoint"), "urn:p"),
        fact("urn:s", &shacl("path"), "urn:q"),
    ];
    assert_eq!(find_run_fault(&disjoint, &unread), None);
    let targeted = vec![
        fact("urn:s", &shacl("disjoint"), "urn:p"),
        fact("urn:s", &shacl("path"), "urn:q"),
        fact("urn:s", &shacl("targetNode"), "urn:a"),
    ];
    assert_eq!(
        find_run_fault(&targeted, &unread),
        Some("sh:disjoint may meet a node that it cannot hold")
    );
}

fn links(pairs: &[(&str, &str)]) -> Vec<Link> {
    pairs.iter().map(|(a, b)| Link { from: iri(a), to: iri(b) }).collect()
}

#[test]
fn walks_end_unless_they_come_back() {
    assert!(!is_endless(&links(&[])));
    assert!(!is_endless(&links(&[("a", "b"), ("b", "c"), ("a", "c")])));
    assert!(is_endless(&links(&[("a", "a")])));
    assert!(is_endless(&links(&[("x", "a"), ("a", "b"), ("b", "c"), ("c", "a")])));
}

#[test]
fn walks_reach_what_follows() {
    let steps = links(&[("a", "b"), ("b", "c"), ("c", "b"), ("d", "e")]);
    let mut reached: Vec<String> = reach(vec![iri("a")], &steps)
        .iter()
        .map(|r| match r {
            Resource::Iri(iri) => iri.clone(),
            Resource::Blank(label) => label.clone(),
        })
        .collect();
    reached.sort();
    reached.dedup();
    assert_eq!(reached, ["a", "b", "c"]);
}
