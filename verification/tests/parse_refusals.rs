use openbim_dt::{Document, ExactWriteError, ParseErrorKind};

fn kind_of(xml: &str) -> ParseErrorKind {
    match Document::parse(xml) {
        Ok(_) => panic!("`{xml}` must be refused"),
        Err(error) => error.kind(),
    }
}

#[test]
fn malformed_references_are_refused() {
    assert_eq!(kind_of("<a>&#;</a>"), ParseErrorKind::InvalidReference);
    assert_eq!(kind_of("<a>&amp</a>"), ParseErrorKind::InvalidReference);
}

#[test]
fn references_to_non_characters_are_refused() {
    assert_eq!(kind_of("<a>&#0;</a>"), ParseErrorKind::InvalidCharacter);
    assert_eq!(kind_of("<a>&#x110000;</a>"), ParseErrorKind::InvalidCharacter);
}

#[test]
fn character_references_are_decoded() {
    let document = Document::parse("<a>&#65;&#x42;&lt;</a>").expect("references parse");
    assert_eq!(document.root().direct_text(), "AB<");
}

#[test]
fn repeated_attributes_are_refused() {
    assert_eq!(kind_of("<a x=\"1\" x=\"2\"/>"), ParseErrorKind::DuplicateAttribute);
}

#[test]
fn reserved_namespaces_cannot_be_rebound() {
    assert_eq!(kind_of("<a xmlns:xml=\"urn:other\"/>"), ParseErrorKind::ReservedNamespace);
}

#[test]
fn declarations_outside_xml_1_0_utf8_are_refused() {
    assert_eq!(kind_of("<?xml version=\"2.0\"?><a/>"), ParseErrorKind::UnsupportedVersion);
    assert_eq!(kind_of("<?xml version=\"1.0\" encoding=\"latin1\"?><a/>"), ParseErrorKind::UnsupportedEncoding);
}

#[test]
fn unclosed_and_mismatched_elements_are_refused() {
    assert_eq!(kind_of("<a>"), ParseErrorKind::UnexpectedEnd);
    assert_eq!(kind_of("<a></b>"), ParseErrorKind::MismatchedEndTag);
}

#[test]
fn content_after_the_root_is_refused() {
    assert_eq!(kind_of("<a/><b/>"), ParseErrorKind::ContentOutsideRoot);
}

#[test]
fn cdata_end_in_text_is_a_syntax_error() {
    assert_eq!(kind_of("<a>]]></a>"), ParseErrorKind::Syntax);
}

#[test]
fn exact_writing_needs_the_source() {
    let document = Document::parse("<a/>").expect("parse").without_source();
    assert_eq!(document.to_xml_string_exact(), Err(ExactWriteError::NoSource));
}
