//! Edge cases of the reader, the builders, the lexical checks and the
//! decoders, each with the exact result it owes.

use openbim_dt::{
    CodecErrorKind, Document, Element, GroupOfProperties, MultiLanguageText, Node, ParseErrorKind, ParseOptions,
    SchemaViolation, SchemaViolationCode,
};

const NS: &str = "https://standards.iso.org/iso/23387/ed-2/en/";
const GUID: &str = "11111111-1111-1111-1111-111111111111";

fn schema_codes(xml: &str) -> Vec<SchemaViolationCode> {
    let document = Document::parse(xml).expect("fixture must be well-formed XML");
    document.validate_schema().violations().iter().map(SchemaViolation::code).collect()
}

fn property_created_at(stamp: &str) -> String {
    format!(
        r#"<dt:Property xmlns:dt="{NS}" dt:GUID="{GUID}" dt:dateOfCreation="{stamp}"><dt:Name dt:language="en">Length</dt:Name><dt:DataType name="REAL"><dt:MinInclusive value="0"/></dt:DataType><dt:Symbol>L</dt:Symbol></dt:Property>"#
    )
}

#[test]
fn language_tag_is_kept_as_supplied() {
    let text = MultiLanguageText::new("de", "Feuerwiderstand").expect("valid tag");
    assert_eq!(text.language(), "de");
    assert_eq!(text.text(), "Feuerwiderstand");
    let padded = MultiLanguageText::new(" en", "x").expect("valid after collapsing");
    assert_eq!(padded.language(), " en");
    assert!(MultiLanguageText::new("not a tag", "x").is_err());
}

#[test]
fn hour_twenty_four_admits_no_fraction() {
    let conforming = Document::parse(&property_created_at("2024-01-01T24:00:00Z")).expect("parses");
    assert!(conforming.validate_schema().is_conforming());
    let zero_fraction = Document::parse(&property_created_at("2024-01-01T24:00:00.000Z")).expect("parses");
    assert!(zero_fraction.validate_schema().is_conforming());
    assert!(schema_codes(&property_created_at("2024-01-01T24:00:00.001Z"))
        .contains(&SchemaViolationCode::InvalidLexicalValue));
    assert!(schema_codes(&property_created_at("2024-01-01T24:00:01Z"))
        .contains(&SchemaViolationCode::InvalidLexicalValue));
}

#[test]
fn adjacent_text_merges_into_one_node() {
    let element = Element::new(None, None, "a").with_text("ab").with_text("cd");
    assert_eq!(element.nodes().len(), 1);
    assert!(matches!(&element.nodes()[0], Node::Text(t) if t == "abcd"));

    let split = Element::new(None, None, "a")
        .with_text("x")
        .with_child(Element::new(None, None, "b"))
        .with_text("y");
    assert_eq!(split.nodes().len(), 3);
    assert!(matches!(&split.nodes()[2], Node::Text(t) if t == "y"));
}

#[test]
fn parsed_content_holds_what_the_source_reads_as() {
    let document = Document::parse("<?pi data?>\r\n<a>x&amp;y\r\nz<![CDATA[<c>]]><b/><!--n--></a>\n")
        .expect("well-formed");
    let prolog = document.prolog();
    assert_eq!(prolog.len(), 2);
    assert!(matches!(&prolog[0], Node::ProcessingInstruction(t) if t == "pi data"));
    assert!(matches!(&prolog[1], Node::Text(t) if t == "\n"));
    let nodes = document.root().nodes();
    assert_eq!(nodes.len(), 4);
    assert!(matches!(&nodes[0], Node::Text(t) if t == "x&y\nz"));
    assert!(matches!(&nodes[1], Node::CData(t) if t == "<c>"));
    assert!(matches!(&nodes[2], Node::Element(b) if b.qname() == "b"));
    assert!(matches!(&nodes[3], Node::Comment(t) if t == "n"));
    assert_eq!(document.root().qname(), "a");
}

#[test]
fn first_disallowed_character_is_reported() {
    let error = Document::parse("<a>ok\u{1}\u{2}</a>").expect_err("control characters are not XML");
    assert_eq!(error.kind(), ParseErrorKind::InvalidCharacter);
    assert_eq!(error.position(), 5);
}

#[test]
fn group_without_property_refs_is_refused_at_its_root() {
    let xml = format!(
        "<dt:GroupOfProperties xmlns:dt='{NS}' dt:GUID='{GUID}' dateOfCreation='2026-09-23T00:00:00Z'>\
         <dt:Name language='en'>Fire</dt:Name></dt:GroupOfProperties>"
    );
    let document = Document::parse(&xml).expect("well-formed");
    let error = GroupOfProperties::from_element(document.root()).expect_err("needs a property ref");
    assert_eq!(error.kind(), CodecErrorKind::MissingChild);
    assert_eq!(error.path(), "");
}

#[test]
fn foreign_and_mixed_content_is_refused_at_its_root() {
    let xml = format!(
        "<dt:GroupOfProperties xmlns:dt='{NS}' dt:GUID='{GUID}' dateOfCreation='2026-09-23T00:00:00Z'>\
         stray<dt:HasPropertyRef dt:GUID='{GUID}'/></dt:GroupOfProperties>"
    );
    let document = Document::parse(&xml).expect("well-formed");
    let error = GroupOfProperties::from_element(document.root()).expect_err("text is not content");
    assert_eq!(error.kind(), CodecErrorKind::UnexpectedContent);
    assert_eq!(error.path(), "");
}

#[test]
fn names_resolve_against_the_declarations_in_scope() {
    let document = Document::parse(
        "<p:a xmlns:p='urn:p' xmlns='urn:d' q='1'><b p:r='2'><p:c xmlns:p='urn:q' xmlns=''><d/></p:c></b></p:a>",
    )
    .expect("well-formed");
    let root = document.root();
    assert_eq!(root.namespace_uri(), Some("urn:p"));
    let xmlns = "http://www.w3.org/2000/xmlns/";
    assert_eq!(root.attributes()[0].namespace_uri(), Some(xmlns));
    assert_eq!(root.attributes()[1].namespace_uri(), Some(xmlns));
    assert_eq!(root.attributes()[2].namespace_uri(), None);
    let b = root.children()[0];
    assert_eq!(b.namespace_uri(), Some("urn:d"));
    assert_eq!(b.attributes()[0].namespace_uri(), Some("urn:p"));
    assert_eq!(b.attributes()[0].value(), "2");
    let c = b.children()[0];
    assert_eq!(c.namespace_uri(), Some("urn:q"));
    let d = c.children()[0];
    assert_eq!(d.namespace_uri(), None);
}

#[test]
fn parsed_documents_stay_within_their_budgets() {
    let options = ParseOptions { max_depth: 2, max_nodes: 3, max_attributes_per_element: 1, ..ParseOptions::default() };
    assert!(Document::parse_with_options("<a x='1'><b/>t</a>", options).is_ok());
    let deep = Document::parse_with_options("<a><b><c/></b></a>", options).expect_err("three levels");
    assert_eq!(deep.kind(), ParseErrorKind::DepthLimit);
    let wide = Document::parse_with_options("<a x='1' y='2'/>", options).expect_err("two attributes");
    assert_eq!(wide.kind(), ParseErrorKind::AttributeLimit);
    let many = Document::parse_with_options("<a><b/><b/><b/></a>", options).expect_err("four nodes");
    assert_eq!(many.kind(), ParseErrorKind::NodeLimit);
}

#[test]
fn decoding_reads_content_not_the_element_name() {
    let body = format!(
        "xmlns:dt='{NS}' dt:GUID='{GUID}' dateOfCreation='2026-09-23T00:00:00Z'>\
         <dt:Name language='en'>Wall</dt:Name>"
    );
    let named = Document::parse(&format!("<dt:ObjectType {body}</dt:ObjectType>")).expect("well-formed");
    let renamed = Document::parse(&format!("<dt:Anything {body}</dt:Anything>")).expect("well-formed");
    let a = openbim_dt::ObjectType::from_element(named.root()).expect("decodes");
    let b = openbim_dt::ObjectType::from_element(renamed.root()).expect("decodes");
    assert_eq!(a, b);
}

#[test]
fn date_fields_take_two_digits_only() {
    assert!(openbim_dt::DateTime::from_str("2024-01-01T00:00:00Z").is_ok());
    assert!(openbim_dt::DateTime::from_str("2024-+1-01T00:00:00Z").is_err());
    assert!(openbim_dt::DateTime::from_str("2024-01-01T+1:00:00Z").is_err());
}

#[test]
fn documents_clone_to_equal_documents() {
    let document = Document::parse("<?xml version='1.0'?><!--c--><a x='1'><b>t</b></a>").expect("well-formed");
    let copy = document.clone();
    assert_eq!(copy, document);
    assert_eq!(copy.clone().without_source(), document);
}

#[test]
fn start_tag_refusals_below_the_root_keep_their_kind() {
    let options = ParseOptions { max_attributes_per_element: 1, ..ParseOptions::default() };
    let wide = Document::parse_with_options("<a><b x='1' y='2'/></a>", options).expect_err("two attributes");
    assert_eq!(wide.kind(), ParseErrorKind::AttributeLimit);
    let reserved = Document::parse("<a><b xmlns:xmlns='urn:x'/></a>").expect_err("reserved prefix");
    assert_eq!(reserved.kind(), ParseErrorKind::ReservedNamespace);
    let unbound = Document::parse("<a><b p:x='1'/></a>").expect_err("undeclared attribute prefix");
    assert_eq!(unbound.kind(), ParseErrorKind::UndeclaredPrefix);
    let element = Document::parse("<a><p:b/></a>").expect_err("undeclared element prefix");
    assert_eq!(element.kind(), ParseErrorKind::UndeclaredPrefix);
    let entity = Document::parse("<a><b x='&nbsp;'/></a>").expect_err("unknown entity in a value");
    assert_eq!(entity.kind(), ParseErrorKind::UnknownEntity);
}
