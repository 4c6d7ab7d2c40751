use veda_onto::turtle::{escape, fmt_object, sort_prefixes, EscapeRDF, NamedOrBlankNodeType, Term, Triple, TurtleFormatterWithPrefixes};

fn named(s: &str, p: &str, o: Term) -> Triple {
    Triple { subject: s.to_string(), subject_type: NamedOrBlankNodeType::NamedNode, predicate: p.to_string(), object: o }
}

fn lit(v: &str) -> Term {
    Term::Simple(v.to_string())
}

fn object(o: Term) -> String {
    let mut out = String::new();
    fmt_object(&o, &mut out);
    out
}

#[test]
fn escape_special_characters() {
    assert_eq!(escape("a\"b\\c\nd\re"), "a\\\"b\\\\c\\nd\\re");
    assert_eq!(escape("plain текст"), "plain текст");
    assert_eq!(escape(""), "");
}

#[test]
fn escape_reverses() {
    let text = "\n\r\"\\x\\n";
    let e = escape(text);
    let mut back = String::new();
    let mut it = e.chars();
    while let Some(c) = it.next() {
        if c == '\\' {
            match it.next() {
                Some('n') => back.push('\n'),
                Some('r') => back.push('\r'),
                Some(x) => back.push(x),
                None => back.push('\\'),
            }
        } else {
            back.push(c);
        }
    }
    assert_eq!(back, text);
}

#[test]
fn grouping_of_triples() {
    let mut f = TurtleFormatterWithPrefixes::new(&Vec::new(), false);
    f.format(&named("http://a/s1", "ex:p1", lit("o1")));
    f.format(&named("http://a/s1", "ex:p1", lit("o2")));
    f.format(&named("http://a/s1", "ex:p2", lit("o3")));
    f.format(&named("http://a/s2", "ex:p1", lit("o4")));
    assert_eq!(
        f.finish(),
        "<http://a/s1> \n  ex:p1 \"o1\", \"o2\" ;\n  ex:p2 \"o3\" .\n\n<http://a/s2> \n  ex:p1 \"o4\" .\n"
    );
}

#[test]
fn blank_subject_differs_from_named_subject() {
    let mut f = TurtleFormatterWithPrefixes::new(&Vec::new(), false);
    f.format(&named("_:b0", "ex:p", lit("x")));
    f.format(&Triple {
        subject: "_:b0".to_string(),
        subject_type: NamedOrBlankNodeType::BlankNode,
        predicate: "ex:p".to_string(),
        object: lit("y"),
    });
    assert_eq!(f.finish(), "_:b0 \n  ex:p \"x\" .\n\n_:b0 \n  ex:p \"y\" .\n");
}

#[test]
fn finish_without_triples_writes_nothing() {
    let f = TurtleFormatterWithPrefixes::new(&Vec::new(), false);
    assert_eq!(f.finish(), "");
}

#[test]
fn take_output_streams_text() {
    let mut f = TurtleFormatterWithPrefixes::new(&Vec::new(), false);
    f.format(&named("ex:s", "ex:p", lit("a")));
    assert_eq!(f.take_output(), "ex:s \n  ex:p \"a\"");
    f.format(&named("ex:s", "ex:p", lit("b")));
    assert_eq!(f.take_output(), ", \"b\"");
    assert_eq!(f.finish(), " .\n");
}

#[test]
fn prefix_blocks() {
    let ps = vec![("ex".to_string(), "http://e/".to_string()), ("rdf".to_string(), "http://r#".to_string())];
    let f = TurtleFormatterWithPrefixes::new(&ps, true);
    assert_eq!(f.finish(), "@prefix ex: <http://e/> .\n@prefix rdf: <http://r#> .\n\n");
    let mut f = TurtleFormatterWithPrefixes::new(&ps, false);
    f.write_query_prefixes(&ps);
    assert_eq!(f.finish(), "PREFIX ex: <http://e/>\nPREFIX rdf: <http://r#>\n\n");
    let f = TurtleFormatterWithPrefixes::new(&Vec::new(), true);
    assert_eq!(f.finish(), "\n");
}

#[test]
fn prefixes_are_sorted_by_name() {
    let ps = vec![
        ("v-s".to_string(), "http://v/".to_string()),
        ("rdf".to_string(), "http://r#".to_string()),
        ("owl".to_string(), "http://o#".to_string()),
        ("ex".to_string(), "http://e/".to_string()),
    ];
    let f = TurtleFormatterWithPrefixes::new(&ps, true);
    assert_eq!(
        f.finish(),
        "@prefix ex: <http://e/> .\n@prefix owl: <http://o#> .\n@prefix rdf: <http://r#> .\n@prefix v-s: <http://v/> .\n\n"
    );
    let sorted = sort_prefixes(&vec![("b".to_string(), "2".to_string()), ("a".to_string(), "1".to_string()), ("ab".to_string(), "3".to_string())]);
    let names: Vec<&str> = sorted.iter().map(|p| p.0.as_str()).collect();
    assert_eq!(names, vec!["a", "ab", "b"]);
}

#[test]
fn object_terms() {
    assert_eq!(object(Term::NamedNode("http://example.org/x".to_string())), "<http://example.org/x>");
    assert_eq!(object(Term::NamedNode("ex:Foo".to_string())), "ex:Foo");
    assert_eq!(object(Term::NamedNode("http://example.org/café".to_string())), "<http://example.org/café>");
    assert_eq!(object(Term::NamedNode("not an \"iri\"".to_string())), "\"not an \\\"iri\\\"\"");
    assert_eq!(object(Term::BlankNode("_:b0".to_string())), "_:b0");
    assert_eq!(object(Term::LanguageTagged("hi\n".to_string(), "en".to_string())), "\"hi\\n\"@en");
    assert_eq!(object(Term::Typed("5".to_string(), "xsd:int".to_string())), "\"5\"^^xsd:int");
}

#[test]
fn escape_rdf_hands_out_characters() {
    let mut e = EscapeRDF::new('"');
    assert_eq!(e.len(), 2);
    assert_eq!(e.next(), Some('\\'));
    assert_eq!(e.len(), 1);
    assert_eq!(e.next(), Some('"'));
    assert_eq!(e.next(), None);
    assert_eq!(e.len(), 0);
    let mut e = EscapeRDF::new('a');
    assert_eq!(e.len(), 1);
    assert_eq!(e.next(), Some('a'));
    assert_eq!(e.next(), None);
    let mut e = EscapeRDF::new('\n');
    assert_eq!(e.next(), Some('\\'));
    assert_eq!(e.next(), Some('n'));
}
