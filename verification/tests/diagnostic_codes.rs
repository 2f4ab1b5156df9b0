use openbim_dt::{DiagnosticCode, Document};

const OPEN: &str = r#"<dt:Library xmlns:dt="https://standards.iso.org/iso/23387/ed-2/en/" dt:GUID="11111111-1111-1111-1111-111111111111">"#;

fn codes(body: &str) -> Vec<DiagnosticCode> {
    let xml = format!("{OPEN}{body}</dt:Library>");
    let document = Document::parse(&xml).expect("well-formed");
    document.validate().into_iter().map(|d| d.code).collect()
}

#[test]
fn a_concept_without_identifier_or_date_is_reported() {
    let found = codes(r#"<dt:Property><dt:Name language="en">P</dt:Name><dt:Definition language="en">D</dt:Definition><dt:DataType name="STRING"/></dt:Property>"#);
    assert!(found.contains(&DiagnosticCode::MissingGuid));
    assert!(found.contains(&DiagnosticCode::MissingCreationDate));
}

#[test]
fn an_invalid_creation_date_is_reported() {
    let found = codes(r#"<dt:Property dt:GUID="22222222-2222-2222-2222-222222222222" dateOfCreation="yesterday"><dt:Name language="en">P</dt:Name><dt:Definition language="en">D</dt:Definition><dt:DataType name="STRING"/></dt:Property>"#);
    assert!(found.contains(&DiagnosticCode::InvalidCreationDate));
}

#[test]
fn definitions_are_required_once_per_language() {
    let missing = codes(r#"<dt:Property dt:GUID="22222222-2222-2222-2222-222222222222" dateOfCreation="2026-08-25T00:00:00Z"><dt:Name language="en">P</dt:Name><dt:DataType name="STRING"/></dt:Property>"#);
    assert!(missing.contains(&DiagnosticCode::MissingDefinition));
    let twice = codes(r#"<dt:Property dt:GUID="22222222-2222-2222-2222-222222222222" dateOfCreation="2026-08-25T00:00:00Z"><dt:Name language="en">P</dt:Name><dt:Definition language="en">D</dt:Definition><dt:Definition language="en">E</dt:Definition><dt:DataType name="STRING"/></dt:Property>"#);
    assert!(twice.contains(&DiagnosticCode::DuplicateDefinition));
}
