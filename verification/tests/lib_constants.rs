use openbim_dt::{DRAFT_PLACEHOLDER_NAMESPACE, NAMESPACE};

#[test]
fn namespace_identities_match_the_documented_contracts() {
    assert_eq!(NAMESPACE, "https://standards.iso.org/iso/23387/ed-2/en/");
    assert_eq!(
        DRAFT_PLACEHOLDER_NAMESPACE,
        "http://tempuri.org/XMLSchema.xsd"
    );
    assert_ne!(NAMESPACE, DRAFT_PLACEHOLDER_NAMESPACE);
}
