use rdf4rust::database::Database;
use rdf4rust::graph::{GraphType, Node};
use rdf4rust::reader::{
    parse_object, parse_resolved_object, Lang, NQuadsReader, NTripleReader, ParserErrorKind,
    Reader, SimpleTokenizer, Token,
};
use rdf4rust::node_factory::PrefixMap;

#[test]
fn ntriple_line_parses_to_statement() {
    let mut db = Database::new(GraphType::SimpleGraph);
    let reader = NTripleReader::new();
    let committed = reader
        .read_from_line("<http://a> <http://b> \"c\" .", 1, &mut db)
        .expect("line expected to parse");
    assert!(committed);
    assert_eq!(1, db.count());
    let stmts = db.get_default_graph().list_all_statements();
    assert_eq!(1, stmts.len());
    let t = &stmts[0];
    assert!(t.get_subject().is_uri());
    assert_eq!("http://a/", t.get_subject().as_string().as_str());
    assert_eq!("http://b/", t.get_predicate().as_string(false).as_str());
    let lit = t.get_object().as_literal().expect("literal object expected");
    assert_eq!("c", lit.get_value().as_str());
    assert!(lit.get_datatype().is_xsd_string());
}

#[test]
fn comment_and_blank_lines_are_no_ops() {
    let mut db = Database::new(GraphType::SimpleGraph);
    let reader = NTripleReader::new();
    assert!(reader.read_from_line("<http://a> <http://b> \"c\" .", 1, &mut db).unwrap());
    assert!(!reader.read_from_line("# x", 2, &mut db).unwrap());
    assert!(!reader.read_from_line("", 3, &mut db).unwrap());
    assert_eq!(1, db.count());
}

#[test]
fn nquads_line_goes_to_named_graph() {
    let mut db = Database::new(GraphType::IndexedGraph);
    let reader = NQuadsReader::new();
    let committed = reader
        .read_from_line("<http://a> <http://b> <http://c> <http://g> .", 1, &mut db)
        .expect("line expected to parse");
    assert!(committed);
    // the statement went to the named graph, not the default graph
    assert_eq!(0, db.get_default_graph().count());
    let named = db.get_named_graph("http://g/").expect("named graph expected");
    assert_eq!(1, named.count());
    let names = db.get_named_graph_names();
    assert_eq!(1, names.len());
    assert_eq!("http://g/", names[0].as_str());
    assert_eq!(1, db.count());
}

#[test]
fn nquads_line_without_graph_goes_to_default() {
    let mut db = Database::new(GraphType::FullIndexedGraph);
    let reader = NQuadsReader::new();
    assert!(reader.read_from_line("<http://a> <http://b> <http://c> .", 1, &mut db).unwrap());
    assert_eq!(1, db.get_default_graph().count());
    assert!(db.get_named_graph("http://g/").is_none());
}

#[test]
fn literal_in_predicate_slot_is_rejected() {
    let mut db = Database::new(GraphType::SimpleGraph);
    let reader = NTripleReader::new();
    let err = reader
        .read_from_line("_:x \"lit\" <http://b> .", 7, &mut db)
        .expect_err("line expected to fail");
    assert_eq!(ParserErrorKind::LiteralAsPredicate, err.kind);
    assert_eq!(7, err.line);
    // the offset points into the predicate slot, past the subject token
    assert_eq!(4, err.pos);
    assert_eq!(0, db.count());
}

#[test]
fn line_must_end_on_dot() {
    let mut db = Database::new(GraphType::SimpleGraph);
    let reader = NTripleReader::new();
    let err = reader
        .read_from_line("<http://a> <http://b> <http://c>", 1, &mut db)
        .expect_err("line expected to fail");
    assert_eq!(ParserErrorKind::NoEndingDot, err.kind);
    assert_eq!(0, db.count());
}

#[test]
fn items_need_whitespace_separators() {
    let mut db = Database::new(GraphType::SimpleGraph);
    let reader = NTripleReader::new();
    let err = reader
        .read_from_line("<http://a><http://b> <http://c> .", 1, &mut db)
        .expect_err("line expected to fail");
    assert_eq!(ParserErrorKind::MissingSeparator, err.kind);
    assert_eq!(10, err.pos);
}

#[test]
fn line_starting_with_dot_is_rejected() {
    let mut db = Database::new(GraphType::SimpleGraph);
    let reader = NTripleReader::new();
    let err = reader.read_from_line(". x", 1, &mut db).expect_err("line expected to fail");
    assert_eq!(ParserErrorKind::DotAsSubject, err.kind);
}

#[test]
fn graph_name_must_be_identifier() {
    let mut db = Database::new(GraphType::SimpleGraph);
    let reader = NQuadsReader::new();
    let err = reader
        .read_from_line("<http://a> <http://b> <http://c> \"g\" .", 1, &mut db)
        .expect_err("line expected to fail");
    assert_eq!(ParserErrorKind::GraphLiteral, err.kind);
}

#[test]
fn blank_node_labels_are_stable_within_a_read() {
    let mut db = Database::new(GraphType::SimpleGraph);
    let reader = NTripleReader::new();
    assert!(reader.read_from_line("_:abc <http://p> <http://x> .", 1, &mut db).unwrap());
    assert!(reader.read_from_line("_:abc <http://p> <http://y> .", 2, &mut db).unwrap());
    let stmts = db.get_default_graph().list_all_statements();
    assert_eq!(2, stmts.len());
    // the same source label maps to the same remapped identity
    assert_eq!(
        stmts[0].get_subject().as_string(),
        stmts[1].get_subject().as_string()
    );
}

#[test]
fn read_from_lines_ingests_and_counts() {
    let mut db = Database::new(GraphType::IndexedGraph);
    let lines = vec![
        String::from("<http://a> <http://b> \"c\" ."),
        String::from("# a comment"),
        String::from(""),
        String::from("<http://a> <http://b> 42 ."),
    ];
    let n = Reader::read_from_lines(&mut db, &lines, Lang::NT).expect("lines expected to parse");
    assert_eq!(2, n);
    assert_eq!(2, db.count());
}

#[test]
fn read_from_lines_stops_at_first_bad_line() {
    let mut db = Database::new(GraphType::SimpleGraph);
    let lines = vec![
        String::from("<http://a> <http://b> <http://c> ."),
        String::from("_:x \"lit\" <http://b> ."),
        String::from("<http://d> <http://e> <http://f> ."),
    ];
    let err = Reader::read_from_lines(&mut db, &lines, Lang::NTRIPLE)
        .expect_err("ingest expected to fail");
    assert_eq!(2, err.line);
    assert_eq!(ParserErrorKind::LiteralAsPredicate, err.kind);
    // the statement committed before the bad line stays
    assert_eq!(1, db.count());
}

#[test]
fn read_from_lines_rejects_unsupported_format() {
    let mut db = Database::new(GraphType::SimpleGraph);
    let lines = vec![String::from("anything")];
    let err = Reader::read_from_lines(&mut db, &lines, Lang::TTL).expect_err("no turtle reader");
    assert_eq!(ParserErrorKind::UnsupportedFormat, err.kind);
}

#[test]
fn tokenizer_classifies_tokens() {
    let tok = SimpleTokenizer {};
    match tok.peek_next_token("   <http://a> rest") {
        Token::IRI { pos, len, .. } => {
            assert_eq!(3, pos);
            assert_eq!(13, len);
        },
        _ => panic!("identifier token expected"),
    }
    match tok.peek_next_token("_:name more") {
        Token::BNode { pos, len, .. } => {
            assert_eq!(0, pos);
            assert_eq!(6, len);
        },
        _ => panic!("blank node token expected"),
    }
    match tok.peek_next_token("\"quoted text\"@en rest") {
        Token::Literal { pos, len, .. } => {
            assert_eq!(0, pos);
            assert_eq!(16, len);
        },
        _ => panic!("literal token expected"),
    }
    assert!(matches!(tok.peek_next_token(" . tail"), Token::DOT { pos: 1 }));
    assert!(matches!(tok.peek_next_token("# comment"), Token::COMMENT { pos: 0 }));
    assert!(matches!(tok.peek_next_token("    "), Token::ERROR));
}

#[test]
fn quote_inside_literal_does_not_end_token() {
    let tok = SimpleTokenizer {};
    match tok.peek_next_token("\"a\\\"b\" tail") {
        Token::Literal { node, .. } => match node {
            Node::LiteralNode { literal } => {
                assert_eq!("a\\\"b", literal.get_value().as_str());
            },
            _ => panic!("literal node expected"),
        },
        _ => panic!("literal token expected"),
    }
}

#[test]
fn object_parser_resolves_kinds() {
    let node = parse_resolved_object("<http://example.com/abcdef>").expect("node expected");
    assert!(node.is_uri());
    assert_eq!("http://example.com/abcdef", node.as_string().as_str());
    let bnode = parse_resolved_object("_:abc").expect("node expected");
    assert!(bnode.is_bnode());
    // a prefixed name without a mapping is a hard error
    assert!(parse_resolved_object("example:abcdef").is_err());
    let mut pm = PrefixMap::new();
    pm.insert(String::from("example"), String::from("http://example.com/"));
    let via_prefix = parse_object("example:abcdef", &pm, true).expect("node expected");
    assert_eq!("http://example.com/abcdef", via_prefix.as_string().as_str());
    let boolean = parse_object("true", &pm, false).expect("node expected");
    assert_eq!(
        "\"true\"^^<http://www.w3.org/2001/XMLSchema#boolean>",
        boolean.as_string().as_str()
    );
}

#[test]
fn guess_lang_by_extension() {
    assert!(matches!(Lang::guess_lang("data.nt"), Some(Lang::NTRIPLE)));
    assert!(matches!(Lang::guess_lang("DATA.NQ"), Some(Lang::NQUADS)));
    assert!(matches!(Lang::guess_lang("x.ttl"), Some(Lang::TTL)));
    assert!(matches!(Lang::guess_lang("x.rdf"), Some(Lang::RdfXml)));
    assert!(matches!(Lang::guess_lang("x.trig"), Some(Lang::TRIG)));
    assert!(Lang::guess_lang("plain.txt").is_none());
}

#[test]
fn strategies_agree_through_the_database() {
    let lines = vec![
        String::from("<http://a> <http://b> <http://x> ."),
        String::from("<http://a> <http://b> <http://x> ."),
        String::from("<http://a> <http://c> <http://y> ."),
    ];
    let mut collected: Vec<Vec<String>> = Vec::new();
    for ty in [GraphType::SimpleGraph, GraphType::IndexedGraph, GraphType::FullIndexedGraph] {
        let mut db = Database::new(ty);
        Reader::read_from_lines(&mut db, &lines, Lang::NTRIPLE).expect("lines expected to parse");
        let subject = rdf4rust::graph::ResourceNode::IRINode {
            iri: rdf4rust::node_factory::IRIResource::create_resource(
                rdf4rust::iri::IRI::create_iri(&String::from("http://a")).unwrap(),
            ),
        };
        let mut lines_out: Vec<String> = db
            .get_default_graph()
            .list_statements_for_subject(subject)
            .iter()
            .map(|t| t.as_line())
            .collect();
        lines_out.sort();
        lines_out.dedup();
        collected.push(lines_out);
    }
    assert_eq!(collected[0], collected[1]);
    assert_eq!(collected[1], collected[2]);
}

#[test]
fn trailing_text_after_dot_is_ignored() {
    let mut db = Database::new(GraphType::SimpleGraph);
    let reader = NTripleReader::new();
    assert!(reader
        .read_from_line("<http://a> <http://b> <http://c> . trailing", 1, &mut db)
        .unwrap());
    assert_eq!(1, db.count());
}

#[test]
fn dot_may_follow_object_directly_in_triples() {
    let mut db = Database::new(GraphType::SimpleGraph);
    let reader = NTripleReader::new();
    assert!(reader.read_from_line("<http://a> <http://b> <http://c>.", 1, &mut db).unwrap());
    assert_eq!(1, db.count());
    // the quad reader demands a separator after the object
    let nq = NQuadsReader::new();
    let err = nq
        .read_from_line("<http://a> <http://b> <http://c>.", 2, &mut db)
        .expect_err("quad line expected to fail");
    assert_eq!(ParserErrorKind::MissingSeparator, err.kind);
}

#[test]
fn unclosed_identifier_token_is_an_error() {
    let mut db = Database::new(GraphType::SimpleGraph);
    let reader = NTripleReader::new();
    let err = reader
        .read_from_line("<http://a <http://b> <http://c> .", 1, &mut db)
        .expect_err("line expected to fail");
    assert_eq!(ParserErrorKind::TokenizerError, err.kind);
}
