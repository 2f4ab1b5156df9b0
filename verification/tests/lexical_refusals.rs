use openbim_dt::{
    AnyUri, Base64Binary, DateTime, Decimal, Guid, Language, NonNegativeInteger, PositiveInteger, Rational,
    Reference, ValueErrorKind,
};

#[test]
fn each_lexical_contract_names_its_refusal() {
    assert_eq!(Guid::from_str("not-a-guid").unwrap_err().kind(), ValueErrorKind::Guid);
    assert_eq!(Language::from_str("e n").unwrap_err().kind(), ValueErrorKind::Language);
    assert_eq!(Rational::from_str("1/0").unwrap_err().kind(), ValueErrorKind::Rational);
    assert_eq!(Decimal::from_str("1.2.3").unwrap_err().kind(), ValueErrorKind::Decimal);
    assert_eq!(PositiveInteger::from_str("0").unwrap_err().kind(), ValueErrorKind::PositiveInteger);
    assert_eq!(DateTime::from_str("2026-02-30T00:00:00Z").unwrap_err().kind(), ValueErrorKind::CreationDate);
    assert_eq!(AnyUri::from_str("a\u{1}b").unwrap_err().kind(), ValueErrorKind::Uri);
    assert_eq!(NonNegativeInteger::from_str("-1").unwrap_err().kind(), ValueErrorKind::NonNegativeInteger);
    assert_eq!(Base64Binary::from_str("abc").unwrap_err().kind(), ValueErrorKind::Base64Binary);
    assert_eq!(Reference::identified(None, None).unwrap_err().kind(), ValueErrorKind::EmptyReference);
}

#[test]
fn leap_days_follow_the_gregorian_rule() {
    assert!(DateTime::from_str("2024-02-29T00:00:00Z").is_ok());
    assert!(DateTime::from_str("2000-02-29T00:00:00Z").is_ok());
    assert!(DateTime::from_str("1900-02-29T00:00:00Z").is_err());
    assert!(DateTime::from_str("2023-02-29T00:00:00Z").is_err());
}

#[test]
fn collapsed_lexemes_are_stored() {
    assert_eq!(Language::from_str("  en  ").unwrap().as_str(), "en");
    assert_eq!(NonNegativeInteger::from_str(" 7 ").unwrap().as_str(), "7");
    let once = DateTime::from_str("  2026-08-25T00:00:00Z \n").unwrap();
    let twice = DateTime::from_str(once.as_str()).unwrap();
    assert_eq!(once.as_str(), twice.as_str());
}
