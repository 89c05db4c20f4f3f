use rdf4rust::graph::{
    FullIndexedGraph, IndexedGraph, Node, ResourceNode, SimpleGraph, Statement,
};
use rdf4rust::iri::IRI;
use rdf4rust::node_factory::{IRIResource, Literal};

fn res(s: &str) -> ResourceNode {
    let iri = IRI::create_iri(&String::from(s)).unwrap();
    ResourceNode::IRINode { iri: IRIResource::create_resource(iri) }
}

fn stmt(s: &str, p: &str, o: &str) -> Statement {
    let subject = res(s);
    let predicate = IRIResource::create_resource(IRI::create_iri(&String::from(p)).unwrap());
    let object = Node::IRINode {
        iri: IRIResource::create_resource(IRI::create_iri(&String::from(o)).unwrap()),
    };
    Statement::create(subject, predicate, object)
}

fn lit_stmt(s: &str, p: &str, text: &str) -> Statement {
    let subject = res(s);
    let predicate = IRIResource::create_resource(IRI::create_iri(&String::from(p)).unwrap());
    let object = Node::LiteralNode { literal: Literal::create_literal(String::from(text)) };
    Statement::create(subject, predicate, object)
}

fn sample() -> Vec<Statement> {
    vec![
        stmt("http://a", "http://p1", "http://x"),
        stmt("http://b", "http://p1", "http://x"),
        stmt("http://a", "http://p2", "http://y"),
        lit_stmt("http://a", "http://p3", "hello"),
    ]
}

fn keys_of(result: &Vec<Statement>) -> Vec<String> {
    let mut out: Vec<String> = result.iter().map(|t| t.as_line()).collect();
    out.sort();
    out
}

#[test]
fn all_three_strategies_agree_on_subject_queries() {
    let mut simple = SimpleGraph::new();
    let mut indexed = IndexedGraph::new();
    let mut full = FullIndexedGraph::new();
    for t in sample() {
        simple.add_statement(t.clone());
        indexed.add_statement(t.clone());
        full.add_statement(t);
    }
    for subject in ["http://a", "http://b", "http://missing"] {
        let rs = keys_of(&simple.list_statements_for_subject(res(subject)));
        let ri = keys_of(&indexed.list_statements_for_subject(res(subject)));
        let rf = keys_of(&full.list_statements_for_subject(res(subject)));
        assert_eq!(rs, ri);
        assert_eq!(ri, rf);
    }
    assert_eq!(3, simple.list_statements_for_subject(res("http://a")).len());
    assert_eq!(0, simple.list_statements_for_subject(res("http://missing")).len());
}

#[test]
fn object_and_predicate_queries_agree() {
    let mut simple = SimpleGraph::new();
    let mut indexed = IndexedGraph::new();
    let mut full = FullIndexedGraph::new();
    for t in sample() {
        simple.add_statement(t.clone());
        indexed.add_statement(t.clone());
        full.add_statement(t);
    }
    let o = res("http://x");
    assert_eq!(
        keys_of(&simple.list_statements_for_object(o.clone())),
        keys_of(&indexed.list_statements_for_object(o.clone()))
    );
    assert_eq!(
        keys_of(&indexed.list_statements_for_object(o.clone())),
        keys_of(&full.list_statements_for_object(o))
    );
    let p = res("http://p1");
    assert_eq!(
        keys_of(&simple.list_statements_for_predicate(p.clone())),
        keys_of(&full.list_statements_for_predicate(p.clone()))
    );
    assert_eq!(2, indexed.list_statements_for_predicate(p).len());
}

#[test]
fn simple_graph_deduplicates() {
    let mut simple = SimpleGraph::new();
    simple.add_statement(stmt("http://a", "http://p", "http://x"));
    simple.add_statement(stmt("http://a", "http://p", "http://x"));
    assert_eq!(1, simple.count());
    // the indexed stores append
    let mut indexed = IndexedGraph::new();
    indexed.add_statement(stmt("http://a", "http://p", "http://x"));
    indexed.add_statement(stmt("http://a", "http://p", "http://x"));
    assert_eq!(2, indexed.count());
    // as sets the answers still agree
    let rs = simple.list_statements_for_subject(res("http://a"));
    let ri = indexed.list_statements_for_subject(res("http://a"));
    assert_eq!(1, rs.len());
    assert_eq!(2, ri.len());
    assert_eq!(rs[0].as_line(), ri[0].as_line());
    assert_eq!(ri[0].as_line(), ri[1].as_line());
}

#[test]
fn pattern_queries() {
    let mut full = FullIndexedGraph::new();
    for t in sample() {
        full.add_statement(t);
    }
    let all = full.list_statements(None, None, None);
    assert_eq!(4, all.len());
    let by_subject = full.list_statements(Some(res("http://a")), None, None);
    assert_eq!(3, by_subject.len());
    let both = full.list_statements(
        Some(res("http://a")),
        Some(IRIResource::create_resource(IRI::create_iri(&String::from("http://p1")).unwrap())),
        None,
    );
    assert_eq!(1, both.len());
    let none = full.list_statements(Some(res("http://nope")), None, None);
    assert_eq!(0, none.len());
}

#[test]
fn statement_accessors_and_line() {
    let t = lit_stmt("http://a", "http://b", "c");
    assert_eq!("http://a/", t.get_subject().as_string().as_str());
    assert_eq!("http://b/", t.get_predicate().as_string(false).as_str());
    assert!(t.get_object().is_literal());
    assert_eq!("<http://a/> <http://b/> \"c\" .", t.as_line().as_str());
    assert!(rdf4rust::graph::stmt_eq(&t, &lit_stmt("http://a", "http://b", "c")));
    assert!(!rdf4rust::graph::stmt_eq(&t, &lit_stmt("http://a", "http://b", "d")));
}

#[test]
fn node_conversions() {
    let n = Node::LiteralNode { literal: Literal::create_literal(String::from("v")) };
    assert!(n.as_literal().is_ok());
    assert!(n.as_uri_resource().is_err());
    assert!(n.as_blank_node().is_err());
    let r = res("http://a");
    assert!(r.is_uri() && !r.is_bnode());
    assert!(r.as_uri_resource().is_ok());
    assert!(r.as_blank_node().is_err());
}
