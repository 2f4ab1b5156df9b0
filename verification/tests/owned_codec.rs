//! Owned-type codec evidence: maximal round trips, schema validity of the
//! written XML, and a drift guard against the schema tables.

use openbim_dt::schema::{child_rules_of, handle_of};
use openbim_dt::{
    AnyUri, Attribute, Base, Base64Binary, Concept, DataTemplate, DataType, DataTypeConstraint,
    DataTypeName, DataValue, DateTime, Decimal, Dimension, Document, Element, GroupOfProperties, Guid,
    Language, MultiLanguageText, NonNegativeInteger, ObjectType, Property, QuantityKind, Rational,
    Reference, ReferenceDocument, Scale, Subject, Unit, ValueList, NAMESPACE,
};

// Maximal fixtures: every declared child kind populated, most twice.

fn guid(seed: u32) -> Guid {
    Guid::from_str(&format!("{seed:08x}-0000-4000-8000-000000000000")).unwrap()
}

fn text(value: &str) -> MultiLanguageText {
    MultiLanguageText::new("en", value).unwrap()
}

fn reference(seed: u32) -> Reference {
    Reference::new(
        Some(guid(seed)),
        Some(AnyUri::from_str(&format!("urn:x:{seed}")).unwrap()),
    )
}

fn created() -> DateTime {
    DateTime::from_str("2026-09-23T00:00:00Z").unwrap()
}

/// A concept with every `ConceptType` child kind populated twice.
fn maximal_concept(seed: u32) -> Concept {
    let mut concept = Concept::new(guid(seed), created(), text("Name A"), text("Def A"));
    concept.set_about(Some(AnyUri::from_str("https://example.org/about").unwrap()));
    concept.add_name(text("Name B"));
    concept.add_definition(text("Def B"));
    for n in 0..2 {
        concept.add_description(text(&format!("Description {n}")));
        concept.add_example(text(&format!("Example {n}")));
        concept.add_reference_document_ref(reference(seed + 10 + n));
        concept.add_similar_to_ref(reference(seed + 20 + n));
        concept.add_replaced_objects_ref(reference(seed + 30 + n));
        concept.add_dictionary_ref(reference(seed + 40 + n));
        concept.add_language_of_creator(Language::from_str(["en", "de-CH"][n as usize]).unwrap());
        concept.add_country_of_origin(["CH", "DE"][n as usize].to_owned());
        concept.add_visual_representation(
            Base64Binary::from_str(["Zm9v", "YmFy"][n as usize]).unwrap(),
        );
        concept.add_major_version(NonNegativeInteger::from_str(["1", "007"][n as usize]).unwrap());
        concept.add_minor_version(NonNegativeInteger::from_str(["0", "12"][n as usize]).unwrap());
        concept.add_status(["draft", "active"][n as usize].to_owned());
        concept.add_deprecation_explanation(format!("Reason {n}"));
    }
    concept
}

fn maximal_subject(seed: u32) -> Subject {
    let mut subject = Subject::new(maximal_concept(seed));
    subject.add_has_part_ref(reference(seed + 50));
    subject.add_has_part_ref(reference(seed + 51));
    subject.add_is_subtype_of_ref(reference(seed + 60));
    subject.add_is_subtype_of_ref(reference(seed + 61));
    subject
}

fn maximal_data_type() -> DataType {
    let mut data_type = DataType::new(Some(DataTypeName::Real));
    data_type.add_constraint(DataTypeConstraint::MinInclusive("0".into()));
    data_type.add_constraint(DataTypeConstraint::MinExclusive("-1".into()));
    data_type.add_constraint(DataTypeConstraint::MaxInclusive("100".into()));
    data_type.add_constraint(DataTypeConstraint::MaxExclusive("101".into()));
    data_type.add_data_format("[0-9]+");
    data_type.add_data_format("[a-z]+");
    for language in ["en", "de"] {
        let mut list = ValueList::new(
            Language::from_str(language).unwrap(),
            DataValue::new("a", Some(1)),
        );
        list.add_value(DataValue::new("b", None));
        data_type.add_possible_values(list);
    }
    data_type
}

fn maximal_property() -> Property {
    let mut property = Property::new(maximal_concept(0x100), maximal_data_type());
    for n in 0..2 {
        property.add_symbol(&format!("s{n}"));
        property.add_dimension_ref(reference(0x110 + n));
        property.add_unit_ref(reference(0x120 + n));
        property.add_quantity_kind_ref(reference(0x130 + n));
        property.add_dependency_ref(reference(0x140 + n));
    }
    property.set_specialization_ref(Some(reference(0x150)));
    property
}

fn maximal_group() -> GroupOfProperties {
    let mut group = GroupOfProperties::new(maximal_subject(0x200), reference(0x210));
    group.add_property_ref(reference(0x211));
    group
}

fn maximal_template() -> DataTemplate {
    let mut template = DataTemplate::new(maximal_subject(0x300));
    for n in 0..2 {
        template.add_object_type_ref(reference(0x310 + n));
        template.add_property_ref(reference(0x320 + n));
        template.add_group_of_properties_ref(reference(0x330 + n));
    }
    template
}

fn maximal_quantity_kind() -> QuantityKind {
    QuantityKind::new(maximal_concept(0x400), reference(0x410))
}

fn maximal_dimension() -> Dimension {
    let exponents =
        ["1", "0", "-2", "0.5", "0", "0", "1"].map(|value| Decimal::from_str(value).unwrap());
    Dimension::new(maximal_concept(0x500), exponents)
}

fn maximal_unit() -> Unit {
    let mut unit = Unit::new(
        maximal_concept(0x600),
        reference(0x610),
        Scale::Logarithmic,
        Base::Ten,
        Rational::from_str("-3/4").unwrap(),
        Rational::from_str("+5").unwrap(),
    );
    unit.add_symbol(text("dB"));
    unit.add_symbol(MultiLanguageText::new("de", "dB").unwrap());
    unit
}

fn maximal_reference_document() -> ReferenceDocument {
    let mut document =
        ReferenceDocument::new(maximal_concept(0x700), Language::from_str("en").unwrap());
    document.add_language(Language::from_str("fr").unwrap());
    document.set_date_of_publication(Some(DateTime::from_str("2020-01-02T03:04:05Z").unwrap()));
    document.set_author(Some("A. Author".into()));
    document.set_isbn(Some("978-3-16-148410-0".into()));
    document.set_publisher(Some("Publisher".into()));
    document.set_uri(Some(AnyUri::from_str("https://example.org/doc").unwrap()));
    document
}

/// Wraps owned output in a Library, writes it, reparses it and validates it
/// against the schema, so each kind is checked against its own definition.
fn assert_schema_valid(element: Element) {
    let library = Element::new(Some(NAMESPACE), Some("dt"), "Library")
        .with_attribute(Attribute::new(Some("dt"), "GUID", Some(NAMESPACE), "ffffffff-0000-4000-8000-000000000000"))
        .with_child(element);
    let document = Document::standalone(library);
    let xml = document.to_xml_string().expect("owned output serializes");
    let reparsed = Document::parse(&xml).expect("owned output reparses");
    let report = reparsed.validate_schema();
    assert!(report.is_conforming(), "{:#?}\n{xml}", report.violations());
}

#[test]
fn object_type_round_trips_and_validates() {
    let value = ObjectType::new(maximal_subject(0x800));
    let element = value.to_element();
    let decoded = ObjectType::from_element(&element).expect("decodes its own output");
    assert_eq!(decoded, value);
    assert_schema_valid(element);
}

#[test]
fn property_round_trips_and_validates() {
    let value = maximal_property();
    let element = value.to_element();
    let decoded = Property::from_element(&element).expect("decodes its own output");
    assert_eq!(decoded, value);
    assert_schema_valid(element);
}

#[test]
fn group_round_trips_and_validates() {
    let value = maximal_group();
    let element = value.to_element();
    let decoded = GroupOfProperties::from_element(&element).expect("decodes its own output");
    assert_eq!(decoded, value);
    assert_schema_valid(element);
}

#[test]
fn template_round_trips_and_validates() {
    let value = maximal_template();
    let element = value.to_element();
    let decoded = DataTemplate::from_element(&element).expect("decodes its own output");
    assert_eq!(decoded, value);
    assert_schema_valid(element);
}

#[test]
fn quantity_kind_round_trips_and_validates() {
    let value = maximal_quantity_kind();
    let element = value.to_element();
    let decoded = QuantityKind::from_element(&element).expect("decodes its own output");
    assert_eq!(decoded, value);
    assert_schema_valid(element);
}

#[test]
fn dimension_round_trips_and_validates() {
    let value = maximal_dimension();
    let element = value.to_element();
    let decoded = Dimension::from_element(&element).expect("decodes its own output");
    assert_eq!(decoded, value);
    assert_schema_valid(element);
}

#[test]
fn unit_round_trips_and_validates() {
    let value = maximal_unit();
    let element = value.to_element();
    let decoded = Unit::from_element(&element).expect("decodes its own output");
    assert_eq!(decoded, value);
    assert_schema_valid(element);
}

#[test]
fn reference_document_round_trips_and_validates() {
    let value = maximal_reference_document();
    let element = value.to_element();
    let decoded = ReferenceDocument::from_element(&element).expect("decodes its own output");
    assert_eq!(decoded, value);
    assert_schema_valid(element);
}

fn declared(handle: &str) -> Vec<&'static str> {
    let definition = (0..24usize)
        .find(|d| handle_of(*d) == handle)
        .unwrap_or_else(|| panic!("schema tables no longer define {handle}"));
    child_rules_of(definition).iter().map(|rule| rule.name).collect()
}

fn written(element: &Element) -> Vec<String> {
    let mut names: Vec<String> = element.children().iter().map(|child| child.local_name().to_owned()).collect();
    names.dedup();
    names
}

fn assert_writes_every_declared_child(handle: &str, element: &Element) {
    let written = written(element);
    let missing: Vec<_> = declared(handle).into_iter().filter(|name| !written.iter().any(|w| w == name)).collect();
    assert!(missing.is_empty(), "{handle}: codec never writes {missing:?}");
}

#[test]
fn codec_writes_every_child_the_schema_declares() {
    let cases = [
        ("ObjectTypeType", ObjectType::new(maximal_subject(1)).to_element()),
        ("PropertyType", maximal_property().to_element()),
        ("GroupOfPropertiesType", maximal_group().to_element()),
        ("DataTemplateType", maximal_template().to_element()),
        ("QuantityKindType", maximal_quantity_kind().to_element()),
        ("DimensionType", maximal_dimension().to_element()),
        ("UnitType", maximal_unit().to_element()),
        ("ReferenceDocumentType", maximal_reference_document().to_element()),
    ];
    for (handle, element) in &cases {
        assert_writes_every_declared_child(handle, element);
    }
}
