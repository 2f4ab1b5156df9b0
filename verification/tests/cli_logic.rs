use openbim_dt::cli::{hex_token, inspect_report, parse_command, validate_exit_code, validate_report, Command, USAGE_EXIT_CODE};
use openbim_dt::Document;

fn args(items: &[&str]) -> Vec<String> {
    items.iter().map(|s| s.to_string()).collect()
}

#[test]
fn commands_are_read_from_their_arguments() {
    assert_eq!(parse_command(&args(&["inspect", "a.xml"])), Command::Inspect { input: "a.xml".to_string() });
    assert_eq!(parse_command(&args(&["validate", "a.xml"])), Command::Validate { input: "a.xml".to_string() });
    assert_eq!(
        parse_command(&args(&["rewrite", "a.xml", "b.xml"])),
        Command::Rewrite { input: "a.xml".to_string(), output: "b.xml".to_string() }
    );
    assert_eq!(parse_command(&args(&["rewrite", "a.xml"])), Command::Usage);
    assert_eq!(parse_command(&args(&[])), Command::Usage);
    assert_eq!(parse_command(&args(&["frobnicate", "a.xml"])), Command::Usage);
    assert_eq!(USAGE_EXIT_CODE, 64);
}

#[test]
fn random_bytes_become_lower_case_hex() {
    assert_eq!(hex_token(&[0x00, 0x0f, 0xa5, 0xff]), "000fa5ff");
    assert_eq!(hex_token(&[]), "");
}

#[test]
fn validation_fails_only_on_errors() {
    assert_eq!(validate_exit_code(0), 0);
    assert_eq!(validate_exit_code(3), 2);
}

#[test]
fn inspect_names_the_root() {
    let xml = r#"<dt:Library xmlns:dt="https://standards.iso.org/iso/23387/ed-2/en/" dt:GUID="11111111-1111-1111-1111-111111111111"/>"#;
    let document = Document::parse(xml).expect("parse");
    let lines = inspect_report(&document);
    assert_eq!(lines[0], "root=Library");
}

#[test]
fn validate_counts_what_it_reports() {
    let xml = r#"<dt:Library xmlns:dt="https://standards.iso.org/iso/23387/ed-2/en/" dt:GUID="bad"/>"#;
    let document = Document::parse(xml).expect("parse");
    let (lines, errors) = validate_report(&document);
    assert!(errors >= 1);
    assert_eq!(lines[lines.len() - 2], format!("errors={errors}"));
    assert!(lines[lines.len() - 1].starts_with("warnings="));
}
