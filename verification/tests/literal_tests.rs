use rdf4rust::hex_binary::{binary_to_string, string_to_binary};
use rdf4rust::node_factory::{BlankNode, Literal, PrefixMap, Variable};
use rdf4rust::xsd;

#[test]
fn plain_string_literal() {
    let pm = PrefixMap::new();
    let lit = Literal::parse_literal("\"my-value\"", &pm).expect("literal expected");
    assert_eq!("my-value", lit.get_value().as_str());
    assert!(lit.get_datatype().is_xsd_string());
    assert!(lit.get_lang().is_none());
    assert_eq!("my-value", lit.as_string(false).as_str());
    assert_eq!("\"my-value\"", lit.as_string(true).as_str());
}

#[test]
fn language_tagged_literal() {
    let pm = PrefixMap::new();
    let lit = Literal::parse_literal("\"my-value\"@en", &pm).expect("literal expected");
    assert_eq!("my-value", lit.get_value().as_str());
    assert_eq!("en", lit.get_lang().as_ref().expect("language expected").as_str());
    assert_eq!("\"my-value\"@en", lit.as_string(false).as_str());
}

#[test]
fn empty_language_tag_gives_plain_string() {
    let lit = Literal::create_lang_literal(String::from("v"), String::new());
    assert!(lit.get_lang().is_none());
    assert!(lit.get_datatype().is_xsd_string());
}

#[test]
fn int_typed_literal_round_trips() {
    // decoding then re-serializing yields the original characters, and
    // the literal is recognized as non-string
    let pm = PrefixMap::new();
    let text = "\"5\"^^<http://www.w3.org/2001/XMLSchema#int>";
    let lit = Literal::parse_literal(text, &pm).expect("literal expected");
    assert_eq!("5", lit.get_value().as_str());
    assert!(!lit.get_datatype().is_xsd_string());
    assert_eq!(text, lit.as_string(true).as_str());
    // no implicit unquoting for a non-string datatype
    assert_eq!(text, lit.as_string(false).as_str());
}

#[test]
fn single_quoted_literal() {
    let pm = PrefixMap::new();
    let lit = Literal::parse_literal("'abc'", &pm).expect("literal expected");
    assert_eq!("abc", lit.get_value().as_str());
}

#[test]
fn triple_quoted_literal() {
    let pm = PrefixMap::new();
    let lit = Literal::parse_literal("'''multi word'''", &pm).expect("literal expected");
    assert_eq!("multi word", lit.get_value().as_str());
}

#[test]
fn escaped_quote_stays_in_body() {
    let pm = PrefixMap::new();
    let lit = Literal::parse_literal("\"a\\\"b\"", &pm).expect("literal expected");
    assert_eq!("a\\\"b", lit.get_value().as_str());
}

#[test]
fn language_and_datatype_conflict_is_rejected() {
    let pm = PrefixMap::new();
    assert!(Literal::parse_literal("\"v\"@en^^<http://e.com/t>", &pm).is_err());
}

#[test]
fn unterminated_literal_is_rejected() {
    let pm = PrefixMap::new();
    assert!(Literal::parse_literal("\"never closed", &pm).is_err());
}

#[test]
fn datatype_must_close_angle_bracket() {
    let pm = PrefixMap::new();
    assert!(Literal::parse_literal("\"v\"^^<http://e.com/t", &pm).is_err());
}

#[test]
fn prefixed_datatype_resolves_through_mapping() {
    let mut pm = PrefixMap::new();
    pm.insert(String::from("xsd"), String::from("http://www.w3.org/2001/XMLSchema#"));
    let lit = Literal::parse_literal("\"7\"^^xsd:int", &pm).expect("literal expected");
    assert_eq!("http://www.w3.org/2001/XMLSchema#int", lit.get_datatype().get_value().as_str());
}

#[test]
fn unresolved_prefix_is_rejected() {
    let pm = PrefixMap::new();
    assert!(Literal::parse_literal("\"7\"^^xsd:int", &pm).is_err());
}

#[test]
fn bare_boolean_tokens() {
    let pm = PrefixMap::new();
    let t = Literal::parse_literal("true", &pm).expect("literal expected");
    assert_eq!("true", t.get_value().as_str());
    assert_eq!("http://www.w3.org/2001/XMLSchema#boolean", t.get_datatype().get_value().as_str());
    let f = Literal::parse_literal("false", &pm).expect("literal expected");
    assert_eq!("false", f.get_value().as_str());
}

#[test]
fn bare_integer_is_canonicalized() {
    let pm = PrefixMap::new();
    let lit = Literal::parse_literal("007", &pm).expect("literal expected");
    assert_eq!("7", lit.get_value().as_str());
    assert_eq!("http://www.w3.org/2001/XMLSchema#integer", lit.get_datatype().get_value().as_str());
    let neg = Literal::parse_literal("-42", &pm).expect("literal expected");
    assert_eq!("-42", neg.get_value().as_str());
}

#[test]
fn bare_decimal_keeps_its_text() {
    let pm = PrefixMap::new();
    let lit = Literal::parse_literal("3.14", &pm).expect("literal expected");
    assert_eq!("3.14", lit.get_value().as_str());
    assert_eq!("http://www.w3.org/2001/XMLSchema#decimal", lit.get_datatype().get_value().as_str());
}

#[test]
fn bare_garbage_is_rejected() {
    let pm = PrefixMap::new();
    assert!(Literal::parse_literal("not-a-number", &pm).is_err());
    assert!(Literal::parse_literal("1.2.3", &pm).is_err());
}

#[test]
fn numeric_creators_render_canonically() {
    assert_eq!("255", Literal::create_unsigned_byte_literal(255).get_value().as_str());
    assert_eq!("-128", Literal::create_byte_literal(-128).get_value().as_str());
    assert_eq!("9223372036854775807", Literal::create_long_literal(i64::MAX).get_value().as_str());
    assert_eq!(
        "-9223372036854775808",
        Literal::create_integer_literal(i64::MIN).get_value().as_str()
    );
    let b = Literal::create_boolean_literal(true);
    assert_eq!("true", b.get_value().as_str());
}

#[test]
fn binary_literals() {
    let hex = Literal::create_hex_binary_literal(&[0xAB, 0x01]);
    assert_eq!("AB01", hex.get_value().as_str());
    assert_eq!("http://www.w3.org/2001/XMLSchema#hexBinary", hex.get_datatype().get_value().as_str());
    // base64 of [1, 2, 3] under the standard alphabet
    let b64 = Literal::create_base64_binary_literal(&[1, 2, 3]);
    assert_eq!("AQID", b64.get_value().as_str());
    assert_eq!(
        "http://www.w3.org/2001/XMLSchema#base64Binary",
        b64.get_datatype().get_value().as_str()
    );
}

#[test]
fn hex_binary_round_trip() {
    let bytes = vec![0u8, 15, 16, 255];
    let text = binary_to_string(&bytes);
    assert_eq!("000F10FF", text.as_str());
    let back = string_to_binary(text.as_str()).expect("valid hex expected");
    assert_eq!(bytes, back);
    assert!(string_to_binary("0G").is_none());
    // lower-case digits are not accepted
    assert!(string_to_binary("ab").is_none());
    // a trailing lone digit is checked but dropped
    assert_eq!(vec![0xABu8], string_to_binary("ABC").expect("valid hex expected"));
}

#[test]
fn blank_node_identities() {
    // the same source label maps to the same identity, across calls
    let a = BlankNode::generate_from_string("abc");
    let b = BlankNode::generate_from_string("abc");
    assert_eq!(a.get_value(), b.get_value());
    assert_eq!(32, a.get_value().len());
    // two independently generated blank nodes differ
    let x = BlankNode::generate_blank_node();
    let y = BlankNode::generate_blank_node();
    assert_ne!(x.get_value(), y.get_value());
    // a directly created blank node keeps its id
    let c = BlankNode::create_blank_node("fixed");
    assert_eq!("fixed", c.get_value().as_str());
    assert_eq!("_:fixed", c.as_string(true).as_str());
}

#[test]
fn node_kind_flags() {
    let lit = Literal::create_literal(String::from("v"));
    assert!(lit.is_literal() && !lit.is_iri() && !lit.is_var() && !lit.is_blank());
    let b = BlankNode::create_blank_node("b");
    assert!(b.is_blank() && !b.is_literal());
    let v = Variable::create_var("x");
    assert!(v.is_var());
    assert_eq!("?x", v.as_string(true).as_str());
    assert_eq!("x", v.as_string(false).as_str());
}

#[test]
fn datatype_registry_memoizes() {
    let mut reg = xsd::DatatypeRegistry::new();
    let iri = rdf4rust::iri::IRI::create_iri(&String::from("http://e.com/custom")).unwrap();
    let d1 = reg.get_or_default(&iri);
    let d2 = reg.get_or_default(&iri);
    assert_eq!(d1.get_value(), d2.get_value());
    assert_eq!("http://e.com/custom", d1.get_value().as_str());
}

#[test]
fn builtin_datatypes() {
    assert!(xsd::xsd_string().is_xsd_string());
    assert!(!xsd::xsd_any_type().is_xsd_string());
    assert_eq!("http://www.w3.org/2001/XMLSchema#boolean", xsd::xsd_boolean().get_value().as_str());
    assert_eq!("http://www.w3.org/2001/XMLSchema#", xsd::xsd_base().as_str());
    assert!(xsd::XSDDataType::create_from_string(String::from("http://ok.example/t")).is_some());
    assert!(xsd::XSDDataType::create_from_string(String::from("has space bad")).is_none());
}
