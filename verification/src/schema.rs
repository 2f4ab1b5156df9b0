//! Structural tables of the ISO 23387 edition 2 element grammar.
//!
//! Each type definition lists its child elements in declaration order with
//! their cardinalities and choice groups, its attributes with their
//! datatypes, patterns and enumerations, and, for simple content, the
//! datatype of its text. Definitions are addressed by index; the tables
//! exist twice, as specification and as executable data, and the
//! executable side is proved equal to the specification.

use vstd::prelude::*;

verus! {

/// One child element a definition declares.
#[derive(Debug, Clone, Copy)]
pub struct ChildRule {
    pub name: &'static str,
    /// Index of the child's own type definition.
    pub definition: usize,
    pub min_occurs: u32,
    /// `None` for `unbounded`.
    pub max_occurs: Option<u32>,
    /// The repeating choice this child belongs to, if any.
    pub choice_group: Option<usize>,
}

/// The cardinality of a repeating choice.
#[derive(Debug, Clone, Copy, PartialEq, Eq, Structural)]
pub struct ChoiceGroup {
    pub min_occurs: u32,
    pub max_occurs: Option<u32>,
}

/// One attribute a definition declares.
#[derive(Debug, Clone, Copy)]
pub struct AttributeRule {
    pub name: &'static str,
    pub required: bool,
    pub data_type: &'static str,
    pub pattern: Option<&'static str>,
    /// Whether the value is restricted to the data-type name vocabulary.
    pub data_type_names: bool,
}

/// The number of type definitions.
pub open spec fn definition_count() -> int {
    24
}
/// The name of a type definition.
pub open spec fn handle(d: int) -> &'static str {
    if d == 0 {
        "LibraryType"
    } else if d == 1 {
        "MultiLanguageTextType"
    } else if d == 2 {
        "ReferenceType"
    } else if d == 3 {
        "StringType"
    } else if d == 4 {
        "LanguageType"
    } else if d == 5 {
        "Base64BinaryType"
    } else if d == 6 {
        "NonNegativeIntegerType"
    } else if d == 7 {
        "DateTimeType"
    } else if d == 8 {
        "AnyUriType"
    } else if d == 9 {
        "DecimalType"
    } else if d == 10 {
        "ObjectTypeType"
    } else if d == 11 {
        "DataTemplateType"
    } else if d == 12 {
        "GroupOfPropertiesType"
    } else if d == 13 {
        "PropertyType"
    } else if d == 14 {
        "UnitType"
    } else if d == 15 {
        "DimensionType"
    } else if d == 16 {
        "QuantityKindType"
    } else if d == 17 {
        "ReferenceDocumentType"
    } else if d == 18 {
        "SubjectType"
    } else if d == 19 {
        "DataTypeType"
    } else if d == 20 {
        "BoundType"
    } else if d == 21 {
        "PossibleValuesType"
    } else if d == 22 {
        "ValueListType"
    } else if d == 23 {
        "ValueType"
    } else {
        ""
    }
}

/// The child rules of a type definition.
pub open spec fn child_rules(d: int) -> Seq<ChildRule> {
    if d == 0 {
        seq![
            ChildRule { name: "Name", definition: 1usize, min_occurs: 0u32, max_occurs: None, choice_group: None },
            ChildRule { name: "Subject", definition: 18usize, min_occurs: 0u32, max_occurs: None, choice_group: Some(0usize) },
            ChildRule { name: "ObjectType", definition: 10usize, min_occurs: 0u32, max_occurs: None, choice_group: Some(0usize) },
            ChildRule { name: "DataTemplate", definition: 11usize, min_occurs: 0u32, max_occurs: None, choice_group: Some(0usize) },
            ChildRule { name: "GroupOfProperties", definition: 12usize, min_occurs: 0u32, max_occurs: None, choice_group: Some(0usize) },
            ChildRule { name: "Property", definition: 13usize, min_occurs: 0u32, max_occurs: None, choice_group: Some(0usize) },
            ChildRule { name: "Unit", definition: 14usize, min_occurs: 0u32, max_occurs: None, choice_group: Some(0usize) },
            ChildRule { name: "Dimension", definition: 15usize, min_occurs: 0u32, max_occurs: None, choice_group: Some(0usize) },
            ChildRule { name: "QuantityKind", definition: 16usize, min_occurs: 0u32, max_occurs: None, choice_group: Some(0usize) },
            ChildRule { name: "ReferenceDocument", definition: 17usize, min_occurs: 0u32, max_occurs: None, choice_group: Some(0usize) }
        ]
    } else if d == 1 {
        seq![
            
        ]
    } else if d == 2 {
        seq![
            
        ]
    } else if d == 3 {
        seq![
            
        ]
    } else if d == 4 {
        seq![
            
        ]
    } else if d == 5 {
        seq![
            
        ]
    } else if d == 6 {
        seq![
            
        ]
    } else if d == 7 {
        seq![
            
        ]
    } else if d == 8 {
        seq![
            
        ]
    } else if d == 9 {
        seq![
            
        ]
    } else if d == 10 {
        seq![
            ChildRule { name: "Name", definition: 1usize, min_occurs: 1u32, max_occurs: None, choice_group: Some(0usize) },
            ChildRule { name: "Definition", definition: 1usize, min_occurs: 1u32, max_occurs: None, choice_group: Some(0usize) },
            ChildRule { name: "ReferenceDocumentRef", definition: 2usize, min_occurs: 1u32, max_occurs: None, choice_group: Some(0usize) },
            ChildRule { name: "Description", definition: 1usize, min_occurs: 1u32, max_occurs: None, choice_group: Some(0usize) },
            ChildRule { name: "Example", definition: 1usize, min_occurs: 1u32, max_occurs: None, choice_group: Some(0usize) },
            ChildRule { name: "SimilarToRef", definition: 2usize, min_occurs: 1u32, max_occurs: None, choice_group: Some(0usize) },
            ChildRule { name: "LanguageOfCreator", definition: 4usize, min_occurs: 1u32, max_occurs: None, choice_group: Some(0usize) },
            ChildRule { name: "CountryOfOrigin", definition: 3usize, min_occurs: 1u32, max_occurs: None, choice_group: Some(0usize) },
            ChildRule { name: "VisualRepresentation", definition: 5usize, min_occurs: 1u32, max_occurs: None, choice_group: Some(0usize) },
            ChildRule { name: "MajorVersion", definition: 6usize, min_occurs: 1u32, max_occurs: None, choice_group: Some(0usize) },
            ChildRule { name: "MinorVersion", definition: 6usize, min_occurs: 1u32, max_occurs: None, choice_group: Some(0usize) },
            ChildRule { name: "Status", definition: 3usize, min_occurs: 1u32, max_occurs: None, choice_group: Some(0usize) },
            ChildRule { name: "ReplacedObjectsRef", definition: 2usize, min_occurs: 1u32, max_occurs: None, choice_group: Some(0usize) },
            ChildRule { name: "DeprecationExplanation", definition: 3usize, min_occurs: 1u32, max_occurs: None, choice_group: Some(0usize) },
            ChildRule { name: "DictionaryRef", definition: 2usize, min_occurs: 1u32, max_occurs: None, choice_group: Some(0usize) },
            ChildRule { name: "HasPartRef", definition: 2usize, min_occurs: 1u32, max_occurs: None, choice_group: Some(1usize) },
            ChildRule { name: "IsSubtypeOfRef", definition: 2usize, min_occurs: 1u32, max_occurs: None, choice_group: Some(1usize) }
        ]
    } else if d == 11 {
        seq![
            ChildRule { name: "Name", definition: 1usize, min_occurs: 1u32, max_occurs: None, choice_group: Some(0usize) },
            ChildRule { name: "Definition", definition: 1usize, min_occurs: 1u32, max_occurs: None, choice_group: Some(0usize) },
            ChildRule { name: "ReferenceDocumentRef", definition: 2usize, min_occurs: 1u32, max_occurs: None, choice_group: Some(0usize) },
            ChildRule { name: "Description", definition: 1usize, min_occurs: 1u32, max_occurs: None, choice_group: Some(0usize) },
            ChildRule { name: "Example", definition: 1usize, min_occurs: 1u32, max_occurs: None, choice_group: Some(0usize) },
            ChildRule { name: "SimilarToRef", definition: 2usize, min_occurs: 1u32, max_occurs: None, choice_group: Some(0usize) },
            ChildRule { name: "LanguageOfCreator", definition: 4usize, min_occurs: 1u32, max_occurs: None, choice_group: Some(0usize) },
            ChildRule { name: "CountryOfOrigin", definition: 3usize, min_occurs: 1u32, max_occurs: None, choice_group: Some(0usize) },
            ChildRule { name: "VisualRepresentation", definition: 5usize, min_occurs: 1u32, max_occurs: None, choice_group: Some(0usize) },
            ChildRule { name: "MajorVersion", definition: 6usize, min_occurs: 1u32, max_occurs: None, choice_group: Some(0usize) },
            ChildRule { name: "MinorVersion", definition: 6usize, min_occurs: 1u32, max_occurs: None, choice_group: Some(0usize) },
            ChildRule { name: "Status", definition: 3usize, min_occurs: 1u32, max_occurs: None, choice_group: Some(0usize) },
            ChildRule { name: "ReplacedObjectsRef", definition: 2usize, min_occurs: 1u32, max_occurs: None, choice_group: Some(0usize) },
            ChildRule { name: "DeprecationExplanation", definition: 3usize, min_occurs: 1u32, max_occurs: None, choice_group: Some(0usize) },
            ChildRule { name: "DictionaryRef", definition: 2usize, min_occurs: 1u32, max_occurs: None, choice_group: Some(0usize) },
            ChildRule { name: "HasPartRef", definition: 2usize, min_occurs: 1u32, max_occurs: None, choice_group: Some(1usize) },
            ChildRule { name: "IsSubtypeOfRef", definition: 2usize, min_occurs: 1u32, max_occurs: None, choice_group: Some(1usize) },
            ChildRule { name: "HasObjectTypeRef", definition: 2usize, min_occurs: 0u32, max_occurs: None, choice_group: None },
            ChildRule { name: "HasPropertyRef", definition: 2usize, min_occurs: 0u32, max_occurs: None, choice_group: None },
            ChildRule { name: "HasGroupOfPropertiesRef", definition: 2usize, min_occurs: 0u32, max_occurs: None, choice_group: None }
        ]
    } else if d == 12 {
        seq![
            ChildRule { name: "Name", definition: 1usize, min_occurs: 1u32, max_occurs: None, choice_group: Some(0usize) },
            ChildRule { name: "Definition", definition: 1usize, min_occurs: 1u32, max_occurs: None, choice_group: Some(0usize) },
            ChildRule { name: "ReferenceDocumentRef", definition: 2usize, min_occurs: 1u32, max_occurs: None, choice_group: Some(0usize) },
            ChildRule { name: "Description", definition: 1usize, min_occurs: 1u32, max_occurs: None, choice_group: Some(0usize) },
            ChildRule { name: "Example", definition: 1usize, min_occurs: 1u32, max_occurs: None, choice_group: Some(0usize) },
            ChildRule { name: "SimilarToRef", definition: 2usize, min_occurs: 1u32, max_occurs: None, choice_group: Some(0usize) },
            ChildRule { name: "LanguageOfCreator", definition: 4usize, min_occurs: 1u32, max_occurs: None, choice_group: Some(0usize) },
            ChildRule { name: "CountryOfOrigin", definition: 3usize, min_occurs: 1u32, max_occurs: None, choice_group: Some(0usize) },
            ChildRule { name: "VisualRepresentation", definition: 5usize, min_occurs: 1u32, max_occurs: None, choice_group: Some(0usize) },
            ChildRule { name: "MajorVersion", definition: 6usize, min_occurs: 1u32, max_occurs: None, choice_group: Some(0usize) },
            ChildRule { name: "MinorVersion", definition: 6usize, min_occurs: 1u32, max_occurs: None, choice_group: Some(0usize) },
            ChildRule { name: "Status", definition: 3usize, min_occurs: 1u32, max_occurs: None, choice_group: Some(0usize) },
            ChildRule { name: "ReplacedObjectsRef", definition: 2usize, min_occurs: 1u32, max_occurs: None, choice_group: Some(0usize) },
            ChildRule { name: "DeprecationExplanation", definition: 3usize, min_occurs: 1u32, max_occurs: None, choice_group: Some(0usize) },
            ChildRule { name: "DictionaryRef", definition: 2usize, min_occurs: 1u32, max_occurs: None, choice_group: Some(0usize) },
            ChildRule { name: "HasPartRef", definition: 2usize, min_occurs: 1u32, max_occurs: None, choice_group: Some(1usize) },
            ChildRule { name: "IsSubtypeOfRef", definition: 2usize, min_occurs: 1u32, max_occurs: None, choice_group: Some(1usize) },
            ChildRule { name: "HasPropertyRef", definition: 2usize, min_occurs: 1u32, max_occurs: None, choice_group: Some(2usize) }
        ]
    } else if d == 13 {
        seq![
            ChildRule { name: "Name", definition: 1usize, min_occurs: 1u32, max_occurs: None, choice_group: Some(0usize) },
            ChildRule { name: "Definition", definition: 1usize, min_occurs: 1u32, max_occurs: None, choice_group: Some(0usize) },
            ChildRule { name: "ReferenceDocumentRef", definition: 2usize, min_occurs: 1u32, max_occurs: None, choice_group: Some(0usize) },
            ChildRule { name: "Description", definition: 1usize, min_occurs: 1u32, max_occurs: None, choice_group: Some(0usize) },
            ChildRule { name: "Example", definition: 1usize, min_occurs: 1u32, max_occurs: None, choice_group: Some(0usize) },
            ChildRule { name: "SimilarToRef", definition: 2usize, min_occurs: 1u32, max_occurs: None, choice_group: Some(0usize) },
            ChildRule { name: "LanguageOfCreator", definition: 4usize, min_occurs: 1u32, max_occurs: None, choice_group: Some(0usize) },
            ChildRule { name: "CountryOfOrigin", definition: 3usize, min_occurs: 1u32, max_occurs: None, choice_group: Some(0usize) },
            ChildRule { name: "VisualRepresentation", definition: 5usize, min_occurs: 1u32, max_occurs: None, choice_group: Some(0usize) },
            ChildRule { name: "MajorVersion", definition: 6usize, min_occurs: 1u32, max_occurs: None, choice_group: Some(0usize) },
            ChildRule { name: "MinorVersion", definition: 6usize, min_occurs: 1u32, max_occurs: None, choice_group: Some(0usize) },
            ChildRule { name: "Status", definition: 3usize, min_occurs: 1u32, max_occurs: None, choice_group: Some(0usize) },
            ChildRule { name: "ReplacedObjectsRef", definition: 2usize, min_occurs: 1u32, max_occurs: None, choice_group: Some(0usize) },
            ChildRule { name: "DeprecationExplanation", definition: 3usize, min_occurs: 1u32, max_occurs: None, choice_group: Some(0usize) },
            ChildRule { name: "DictionaryRef", definition: 2usize, min_occurs: 1u32, max_occurs: None, choice_group: Some(0usize) },
            ChildRule { name: "DataType", definition: 19usize, min_occurs: 1u32, max_occurs: Some(1u32), choice_group: None },
            ChildRule { name: "Symbol", definition: 3usize, min_occurs: 1u32, max_occurs: None, choice_group: Some(1usize) },
            ChildRule { name: "DimensionRef", definition: 2usize, min_occurs: 1u32, max_occurs: None, choice_group: Some(1usize) },
            ChildRule { name: "UnitRef", definition: 2usize, min_occurs: 1u32, max_occurs: None, choice_group: Some(1usize) },
            ChildRule { name: "QuantityKindRef", definition: 2usize, min_occurs: 0u32, max_occurs: None, choice_group: None },
            ChildRule { name: "IsDependentOnRef", definition: 2usize, min_occurs: 0u32, max_occurs: None, choice_group: None },
            ChildRule { name: "IsSpecializationOfRef", definition: 2usize, min_occurs: 0u32, max_occurs: Some(1u32), choice_group: None }
        ]
    } else if d == 14 {
        seq![
            ChildRule { name: "Name", definition: 1usize, min_occurs: 1u32, max_occurs: None, choice_group: Some(0usize) },
            ChildRule { name: "Definition", definition: 1usize, min_occurs: 1u32, max_occurs: None, choice_group: Some(0usize) },
            ChildRule { name: "ReferenceDocumentRef", definition: 2usize, min_occurs: 1u32, max_occurs: None, choice_group: Some(0usize) },
            ChildRule { name: "Description", definition: 1usize, min_occurs: 1u32, max_occurs: None, choice_group: Some(0usize) },
            ChildRule { name: "Example", definition: 1usize, min_occurs: 1u32, max_occurs: None, choice_group: Some(0usize) },
            ChildRule { name: "SimilarToRef", definition: 2usize, min_occurs: 1u32, max_occurs: None, choice_group: Some(0usize) },
            ChildRule { name: "LanguageOfCreator", definition: 4usize, min_occurs: 1u32, max_occurs: None, choice_group: Some(0usize) },
            ChildRule { name: "CountryOfOrigin", definition: 3usize, min_occurs: 1u32, max_occurs: None, choice_group: Some(0usize) },
            ChildRule { name: "VisualRepresentation", definition: 5usize, min_occurs: 1u32, max_occurs: None, choice_group: Some(0usize) },
            ChildRule { name: "MajorVersion", definition: 6usize, min_occurs: 1u32, max_occurs: None, choice_group: Some(0usize) },
            ChildRule { name: "MinorVersion", definition: 6usize, min_occurs: 1u32, max_occurs: None, choice_group: Some(0usize) },
            ChildRule { name: "Status", definition: 3usize, min_occurs: 1u32, max_occurs: None, choice_group: Some(0usize) },
            ChildRule { name: "ReplacedObjectsRef", definition: 2usize, min_occurs: 1u32, max_occurs: None, choice_group: Some(0usize) },
            ChildRule { name: "DeprecationExplanation", definition: 3usize, min_occurs: 1u32, max_occurs: None, choice_group: Some(0usize) },
            ChildRule { name: "DictionaryRef", definition: 2usize, min_occurs: 1u32, max_occurs: None, choice_group: Some(0usize) },
            ChildRule { name: "Symbol", definition: 1usize, min_occurs: 0u32, max_occurs: None, choice_group: None },
            ChildRule { name: "DimensionRef", definition: 2usize, min_occurs: 1u32, max_occurs: Some(1u32), choice_group: None },
            ChildRule { name: "Scale", definition: 3usize, min_occurs: 1u32, max_occurs: Some(1u32), choice_group: None },
            ChildRule { name: "Base", definition: 3usize, min_occurs: 1u32, max_occurs: Some(1u32), choice_group: None },
            ChildRule { name: "Coefficient", definition: 3usize, min_occurs: 1u32, max_occurs: Some(1u32), choice_group: None },
            ChildRule { name: "Offset", definition: 3usize, min_occurs: 1u32, max_occurs: Some(1u32), choice_group: None }
        ]
    } else if d == 15 {
        seq![
            ChildRule { name: "Name", definition: 1usize, min_occurs: 1u32, max_occurs: None, choice_group: Some(0usize) },
            ChildRule { name: "Definition", definition: 1usize, min_occurs: 1u32, max_occurs: None, choice_group: Some(0usize) },
            ChildRule { name: "ReferenceDocumentRef", definition: 2usize, min_occurs: 1u32, max_occurs: None, choice_group: Some(0usize) },
            ChildRule { name: "Description", definition: 1usize, min_occurs: 1u32, max_occurs: None, choice_group: Some(0usize) },
            ChildRule { name: "Example", definition: 1usize, min_occurs: 1u32, max_occurs: None, choice_group: Some(0usize) },
            ChildRule { name: "SimilarToRef", definition: 2usize, min_occurs: 1u32, max_occurs: None, choice_group: Some(0usize) },
            ChildRule { name: "LanguageOfCreator", definition: 4usize, min_occurs: 1u32, max_occurs: None, choice_group: Some(0usize) },
            ChildRule { name: "CountryOfOrigin", definition: 3usize, min_occurs: 1u32, max_occurs: None, choice_group: Some(0usize) },
            ChildRule { name: "VisualRepresentation", definition: 5usize, min_occurs: 1u32, max_occurs: None, choice_group: Some(0usize) },
            ChildRule { name: "MajorVersion", definition: 6usize, min_occurs: 1u32, max_occurs: None, choice_group: Some(0usize) },
            ChildRule { name: "MinorVersion", definition: 6usize, min_occurs: 1u32, max_occurs: None, choice_group: Some(0usize) },
            ChildRule { name: "Status", definition: 3usize, min_occurs: 1u32, max_occurs: None, choice_group: Some(0usize) },
            ChildRule { name: "ReplacedObjectsRef", definition: 2usize, min_occurs: 1u32, max_occurs: None, choice_group: Some(0usize) },
            ChildRule { name: "DeprecationExplanation", definition: 3usize, min_occurs: 1u32, max_occurs: None, choice_group: Some(0usize) },
            ChildRule { name: "DictionaryRef", definition: 2usize, min_occurs: 1u32, max_occurs: None, choice_group: Some(0usize) },
            ChildRule { name: "DimensionExponentForAmountOfSubstance", definition: 9usize, min_occurs: 1u32, max_occurs: Some(1u32), choice_group: None },
            ChildRule { name: "DimensionExponentForElectricCurrent", definition: 9usize, min_occurs: 1u32, max_occurs: Some(1u32), choice_group: None },
            ChildRule { name: "DimensionExponentForLength", definition: 9usize, min_occurs: 1u32, max_occurs: Some(1u32), choice_group: None },
            ChildRule { name: "DimensionExponentForLuminousIntensity", definition: 9usize, min_occurs: 1u32, max_occurs: Some(1u32), choice_group: None },
            ChildRule { name: "DimensionExponentForMass", definition: 9usize, min_occurs: 1u32, max_occurs: Some(1u32), choice_group: None },
            ChildRule { name: "DimensionExponentForThermodynamicTemperature", definition: 9usize, min_occurs: 1u32, max_occurs: Some(1u32), choice_group: None },
            ChildRule { name: "DimensionExponentForTime", definition: 9usize, min_occurs: 1u32, max_occurs: Some(1u32), choice_group: None }
        ]
    } else if d == 16 {
        seq![
            ChildRule { name: "Name", definition: 1usize, min_occurs: 1u32, max_occurs: None, choice_group: Some(0usize) },
            ChildRule { name: "Definition", definition: 1usize, min_occurs: 1u32, max_occurs: None, choice_group: Some(0usize) },
            ChildRule { name: "ReferenceDocumentRef", definition: 2usize, min_occurs: 1u32, max_occurs: None, choice_group: Some(0usize) },
            ChildRule { name: "Description", definition: 1usize, min_occurs: 1u32, max_occurs: None, choice_group: Some(0usize) },
            ChildRule { name: "Example", definition: 1usize, min_occurs: 1u32, max_occurs: None, choice_group: Some(0usize) },
            ChildRule { name: "SimilarToRef", definition: 2usize, min_occurs: 1u32, max_occurs: None, choice_group: Some(0usize) },
            ChildRule { name: "LanguageOfCreator", definition: 4usize, min_occurs: 1u32, max_occurs: None, choice_group: Some(0usize) },
            ChildRule { name: "CountryOfOrigin", definition: 3usize, min_occurs: 1u32, max_occurs: None, choice_group: Some(0usize) },
            ChildRule { name: "VisualRepresentation", definition: 5usize, min_occurs: 1u32, max_occurs: None, choice_group: Some(0usize) },
            ChildRule { name: "MajorVersion", definition: 6usize, min_occurs: 1u32, max_occurs: None, choice_group: Some(0usize) },
            ChildRule { name: "MinorVersion", definition: 6usize, min_occurs: 1u32, max_occurs: None, choice_group: Some(0usize) },
            ChildRule { name: "Status", definition: 3usize, min_occurs: 1u32, max_occurs: None, choice_group: Some(0usize) },
            ChildRule { name: "ReplacedObjectsRef", definition: 2usize, min_occurs: 1u32, max_occurs: None, choice_group: Some(0usize) },
            ChildRule { name: "DeprecationExplanation", definition: 3usize, min_occurs: 1u32, max_occurs: None, choice_group: Some(0usize) },
            ChildRule { name: "DictionaryRef", definition: 2usize, min_occurs: 1u32, max_occurs: None, choice_group: Some(0usize) },
            ChildRule { name: "DimensionRef", definition: 2usize, min_occurs: 1u32, max_occurs: Some(1u32), choice_group: None }
        ]
    } else if d == 17 {
        seq![
            ChildRule { name: "Name", definition: 1usize, min_occurs: 1u32, max_occurs: None, choice_group: Some(0usize) },
            ChildRule { name: "Definition", definition: 1usize, min_occurs: 1u32, max_occurs: None, choice_group: Some(0usize) },
            ChildRule { name: "ReferenceDocumentRef", definition: 2usize, min_occurs: 1u32, max_occurs: None, choice_group: Some(0usize) },
            ChildRule { name: "Description", definition: 1usize, min_occurs: 1u32, max_occurs: None, choice_group: Some(0usize) },
            ChildRule { name: "Example", definition: 1usize, min_occurs: 1u32, max_occurs: None, choice_group: Some(0usize) },
            ChildRule { name: "SimilarToRef", definition: 2usize, min_occurs: 1u32, max_occurs: None, choice_group: Some(0usize) },
            ChildRule { name: "LanguageOfCreator", definition: 4usize, min_occurs: 1u32, max_occurs: None, choice_group: Some(0usize) },
            ChildRule { name: "CountryOfOrigin", definition: 3usize, min_occurs: 1u32, max_occurs: None, choice_group: Some(0usize) },
            ChildRule { name: "VisualRepresentation", definition: 5usize, min_occurs: 1u32, max_occurs: None, choice_group: Some(0usize) },
            ChildRule { name: "MajorVersion", definition: 6usize, min_occurs: 1u32, max_occurs: None, choice_group: Some(0usize) },
            ChildRule { name: "MinorVersion", definition: 6usize, min_occurs: 1u32, max_occurs: None, choice_group: Some(0usize) },
            ChildRule { name: "Status", definition: 3usize, min_occurs: 1u32, max_occurs: None, choice_group: Some(0usize) },
            ChildRule { name: "ReplacedObjectsRef", definition: 2usize, min_occurs: 1u32, max_occurs: None, choice_group: Some(0usize) },
            ChildRule { name: "DeprecationExplanation", definition: 3usize, min_occurs: 1u32, max_occurs: None, choice_group: Some(0usize) },
            ChildRule { name: "DictionaryRef", definition: 2usize, min_occurs: 1u32, max_occurs: None, choice_group: Some(0usize) },
            ChildRule { name: "DateOfPublication", definition: 7usize, min_occurs: 0u32, max_occurs: Some(1u32), choice_group: None },
            ChildRule { name: "Author", definition: 3usize, min_occurs: 0u32, max_occurs: Some(1u32), choice_group: None },
            ChildRule { name: "ISBN", definition: 3usize, min_occurs: 0u32, max_occurs: Some(1u32), choice_group: None },
            ChildRule { name: "Language", definition: 4usize, min_occurs: 1u32, max_occurs: None, choice_group: None },
            ChildRule { name: "Publisher", definition: 3usize, min_occurs: 0u32, max_occurs: Some(1u32), choice_group: None },
            ChildRule { name: "URI", definition: 8usize, min_occurs: 0u32, max_occurs: Some(1u32), choice_group: None }
        ]
    } else if d == 18 {
        seq![
            ChildRule { name: "Name", definition: 1usize, min_occurs: 1u32, max_occurs: None, choice_group: Some(0usize) },
            ChildRule { name: "Definition", definition: 1usize, min_occurs: 1u32, max_occurs: None, choice_group: Some(0usize) },
            ChildRule { name: "ReferenceDocumentRef", definition: 2usize, min_occurs: 1u32, max_occurs: None, choice_group: Some(0usize) },
            ChildRule { name: "Description", definition: 1usize, min_occurs: 1u32, max_occurs: None, choice_group: Some(0usize) },
            ChildRule { name: "Example", definition: 1usize, min_occurs: 1u32, max_occurs: None, choice_group: Some(0usize) },
            ChildRule { name: "SimilarToRef", definition: 2usize, min_occurs: 1u32, max_occurs: None, choice_group: Some(0usize) },
            ChildRule { name: "LanguageOfCreator", definition: 4usize, min_occurs: 1u32, max_occurs: None, choice_group: Some(0usize) },
            ChildRule { name: "CountryOfOrigin", definition: 3usize, min_occurs: 1u32, max_occurs: None, choice_group: Some(0usize) },
            ChildRule { name: "VisualRepresentation", definition: 5usize, min_occurs: 1u32, max_occurs: None, choice_group: Some(0usize) },
            ChildRule { name: "MajorVersion", definition: 6usize, min_occurs: 1u32, max_occurs: None, choice_group: Some(0usize) },
            ChildRule { name: "MinorVersion", definition: 6usize, min_occurs: 1u32, max_occurs: None, choice_group: Some(0usize) },
            ChildRule { name: "Status", definition: 3usize, min_occurs: 1u32, max_occurs: None, choice_group: Some(0usize) },
            ChildRule { name: "ReplacedObjectsRef", definition: 2usize, min_occurs: 1u32, max_occurs: None, choice_group: Some(0usize) },
            ChildRule { name: "DeprecationExplanation", definition: 3usize, min_occurs: 1u32, max_occurs: None, choice_group: Some(0usize) },
            ChildRule { name: "DictionaryRef", definition: 2usize, min_occurs: 1u32, max_occurs: None, choice_group: Some(0usize) },
            ChildRule { name: "HasPartRef", definition: 2usize, min_occurs: 1u32, max_occurs: None, choice_group: Some(1usize) },
            ChildRule { name: "IsSubtypeOfRef", definition: 2usize, min_occurs: 1u32, max_occurs: None, choice_group: Some(1usize) }
        ]
    } else if d == 19 {
        seq![
            ChildRule { name: "MinInclusive", definition: 20usize, min_occurs: 0u32, max_occurs: None, choice_group: Some(0usize) },
            ChildRule { name: "MinExclusive", definition: 20usize, min_occurs: 0u32, max_occurs: None, choice_group: Some(0usize) },
            ChildRule { name: "MaxInclusive", definition: 20usize, min_occurs: 0u32, max_occurs: None, choice_group: Some(0usize) },
            ChildRule { name: "MaxExclusive", definition: 20usize, min_occurs: 0u32, max_occurs: None, choice_group: Some(0usize) },
            ChildRule { name: "DataFormat", definition: 20usize, min_occurs: 0u32, max_occurs: None, choice_group: None },
            ChildRule { name: "PossibleValues", definition: 21usize, min_occurs: 0u32, max_occurs: None, choice_group: None }
        ]
    } else if d == 20 {
        seq![
            
        ]
    } else if d == 21 {
        seq![
            ChildRule { name: "ValueList", definition: 22usize, min_occurs: 1u32, max_occurs: Some(1u32), choice_group: None }
        ]
    } else if d == 22 {
        seq![
            ChildRule { name: "Value", definition: 23usize, min_occurs: 1u32, max_occurs: None, choice_group: None }
        ]
    } else if d == 23 {
        seq![
            
        ]
    } else {
        Seq::empty()
    }
}

pub fn child_rules_of(d: usize) -> (r: Vec<ChildRule>)
    ensures
        r@ == child_rules(d as int),
{
    if d == 0 {
        let r = vec![
            ChildRule { name: "Name", definition: 1usize, min_occurs: 0u32, max_occurs: None, choice_group: None },
            ChildRule { name: "Subject", definition: 18usize, min_occurs: 0u32, max_occurs: None, choice_group: Some(0usize) },
            ChildRule { name: "ObjectType", definition: 10usize, min_occurs: 0u32, max_occurs: None, choice_group: Some(0usize) },
            ChildRule { name: "DataTemplate", definition: 11usize, min_occurs: 0u32, max_occurs: None, choice_group: Some(0usize) },
            ChildRule { name: "GroupOfProperties", definition: 12usize, min_occurs: 0u32, max_occurs: None, choice_group: Some(0usize) },
            ChildRule { name: "Property", definition: 13usize, min_occurs: 0u32, max_occurs: None, choice_group: Some(0usize) },
            ChildRule { name: "Unit", definition: 14usize, min_occurs: 0u32, max_occurs: None, choice_group: Some(0usize) },
            ChildRule { name: "Dimension", definition: 15usize, min_occurs: 0u32, max_occurs: None, choice_group: Some(0usize) },
            ChildRule { name: "QuantityKind", definition: 16usize, min_occurs: 0u32, max_occurs: None, choice_group: Some(0usize) },
            ChildRule { name: "ReferenceDocument", definition: 17usize, min_occurs: 0u32, max_occurs: None, choice_group: Some(0usize) }
        ];
        assert(r@ =~= child_rules(0));
        r
    } else if d == 1 {
        let r = vec![
            
        ];
        assert(r@ =~= child_rules(1));
        r
    } else if d == 2 {
        let r = vec![
            
        ];
        assert(r@ =~= child_rules(2));
        r
    } else if d == 3 {
        let r = vec![
            
        ];
        assert(r@ =~= child_rules(3));
        r
    } else if d == 4 {
        let r = vec![
            
        ];
        assert(r@ =~= child_rules(4));
        r
    } else if d == 5 {
        let r = vec![
            
        ];
        assert(r@ =~= child_rules(5));
        r
    } else if d == 6 {
        let r = vec![
            
        ];
        assert(r@ =~= child_rules(6));
        r
    } else if d == 7 {
        let r = vec![
            
        ];
        assert(r@ =~= child_rules(7));
        r
    } else if d == 8 {
        let r = vec![
            
        ];
        assert(r@ =~= child_rules(8));
        r
    } else if d == 9 {
        let r = vec![
            
        ];
        assert(r@ =~= child_rules(9));
        r
    } else if d == 10 {
        let r = vec![
            ChildRule { name: "Name", definition: 1usize, min_occurs: 1u32, max_occurs: None, choice_group: Some(0usize) },
            ChildRule { name: "Definition", definition: 1usize, min_occurs: 1u32, max_occurs: None, choice_group: Some(0usize) },
            ChildRule { name: "ReferenceDocumentRef", definition: 2usize, min_occurs: 1u32, max_occurs: None, choice_group: Some(0usize) },
            ChildRule { name: "Description", definition: 1usize, min_occurs: 1u32, max_occurs: None, choice_group: Some(0usize) },
            ChildRule { name: "Example", definition: 1usize, min_occurs: 1u32, max_occurs: None, choice_group: Some(0usize) },
            ChildRule { name: "SimilarToRef", definition: 2usize, min_occurs: 1u32, max_occurs: None, choice_group: Some(0usize) },
            ChildRule { name: "LanguageOfCreator", definition: 4usize, min_occurs: 1u32, max_occurs: None, choice_group: Some(0usize) },
            ChildRule { name: "CountryOfOrigin", definition: 3usize, min_occurs: 1u32, max_occurs: None, choice_group: Some(0usize) },
            ChildRule { name: "VisualRepresentation", definition: 5usize, min_occurs: 1u32, max_occurs: None, choice_group: Some(0usize) },
            ChildRule { name: "MajorVersion", definition: 6usize, min_occurs: 1u32, max_occurs: None, choice_group: Some(0usize) },
            ChildRule { name: "MinorVersion", definition: 6usize, min_occurs: 1u32, max_occurs: None, choice_group: Some(0usize) },
            ChildRule { name: "Status", definition: 3usize, min_occurs: 1u32, max_occurs: None, choice_group: Some(0usize) },
            ChildRule { name: "ReplacedObjectsRef", definition: 2usize, min_occurs: 1u32, max_occurs: None, choice_group: Some(0usize) },
            ChildRule { name: "DeprecationExplanation", definition: 3usize, min_occurs: 1u32, max_occurs: None, choice_group: Some(0usize) },
            ChildRule { name: "DictionaryRef", definition: 2usize, min_occurs: 1u32, max_occurs: None, choice_group: Some(0usize) },
            ChildRule { name: "HasPartRef", definition: 2usize, min_occurs: 1u32, max_occurs: None, choice_group: Some(1usize) },
            ChildRule { name: "IsSubtypeOfRef", definition: 2usize, min_occurs: 1u32, max_occurs: None, choice_group: Some(1usize) }
        ];
        assert(r@ =~= child_rules(10));
        r
    } else if d == 11 {
        let r = vec![
            ChildRule { name: "Name", definition: 1usize, min_occurs: 1u32, max_occurs: None, choice_group: Some(0usize) },
            ChildRule { name: "Definition", definition: 1usize, min_occurs: 1u32, max_occurs: None, choice_group: Some(0usize) },
            ChildRule { name: "ReferenceDocumentRef", definition: 2usize, min_occurs: 1u32, max_occurs: None, choice_group: Some(0usize) },
            ChildRule { name: "Description", definition: 1usize, min_occurs: 1u32, max_occurs: None, choice_group: Some(0usize) },
            ChildRule { name: "Example", definition: 1usize, min_occurs: 1u32, max_occurs: None, choice_group: Some(0usize) },
            ChildRule { name: "SimilarToRef", definition: 2usize, min_occurs: 1u32, max_occurs: None, choice_group: Some(0usize) },
            ChildRule { name: "LanguageOfCreator", definition: 4usize, min_occurs: 1u32, max_occurs: None, choice_group: Some(0usize) },
            ChildRule { name: "CountryOfOrigin", definition: 3usize, min_occurs: 1u32, max_occurs: None, choice_group: Some(0usize) },
            ChildRule { name: "VisualRepresentation", definition: 5usize, min_occurs: 1u32, max_occurs: None, choice_group: Some(0usize) },
            ChildRule { name: "MajorVersion", definition: 6usize, min_occurs: 1u32, max_occurs: None, choice_group: Some(0usize) },
            ChildRule { name: "MinorVersion", definition: 6usize, min_occurs: 1u32, max_occurs: None, choice_group: Some(0usize) },
            ChildRule { name: "Status", definition: 3usize, min_occurs: 1u32, max_occurs: None, choice_group: Some(0usize) },
            ChildRule { name: "ReplacedObjectsRef", definition: 2usize, min_occurs: 1u32, max_occurs: None, choice_group: Some(0usize) },
            ChildRule { name: "DeprecationExplanation", definition: 3usize, min_occurs: 1u32, max_occurs: None, choice_group: Some(0usize) },
            ChildRule { name: "DictionaryRef", definition: 2usize, min_occurs: 1u32, max_occurs: None, choice_group: Some(0usize) },
            ChildRule { name: "HasPartRef", definition: 2usize, min_occurs: 1u32, max_occurs: None, choice_group: Some(1usize) },
            ChildRule { name: "IsSubtypeOfRef", definition: 2usize, min_occurs: 1u32, max_occurs: None, choice_group: Some(1usize) },
            ChildRule { name: "HasObjectTypeRef", definition: 2usize, min_occurs: 0u32, max_occurs: None, choice_group: None },
            ChildRule { name: "HasPropertyRef", definition: 2usize, min_occurs: 0u32, max_occurs: None, choice_group: None },
            ChildRule { name: "HasGroupOfPropertiesRef", definition: 2usize, min_occurs: 0u32, max_occurs: None, choice_group: None }
        ];
        assert(r@ =~= child_rules(11));
        r
    } else if d == 12 {
        let r = vec![
            ChildRule { name: "Name", definition: 1usize, min_occurs: 1u32, max_occurs: None, choice_group: Some(0usize) },
            ChildRule { name: "Definition", definition: 1usize, min_occurs: 1u32, max_occurs: None, choice_group: Some(0usize) },
            ChildRule { name: "ReferenceDocumentRef", definition: 2usize, min_occurs: 1u32, max_occurs: None, choice_group: Some(0usize) },
            ChildRule { name: "Description", definition: 1usize, min_occurs: 1u32, max_occurs: None, choice_group: Some(0usize) },
            ChildRule { name: "Example", definition: 1usize, min_occurs: 1u32, max_occurs: None, choice_group: Some(0usize) },
            ChildRule { name: "SimilarToRef", definition: 2usize, min_occurs: 1u32, max_occurs: None, choice_group: Some(0usize) },
            ChildRule { name: "LanguageOfCreator", definition: 4usize, min_occurs: 1u32, max_occurs: None, choice_group: Some(0usize) },
            ChildRule { name: "CountryOfOrigin", definition: 3usize, min_occurs: 1u32, max_occurs: None, choice_group: Some(0usize) },
            ChildRule { name: "VisualRepresentation", definition: 5usize, min_occurs: 1u32, max_occurs: None, choice_group: Some(0usize) },
            ChildRule { name: "MajorVersion", definition: 6usize, min_occurs: 1u32, max_occurs: None, choice_group: Some(0usize) },
            ChildRule { name: "MinorVersion", definition: 6usize, min_occurs: 1u32, max_occurs: None, choice_group: Some(0usize) },
            ChildRule { name: "Status", definition: 3usize, min_occurs: 1u32, max_occurs: None, choice_group: Some(0usize) },
            ChildRule { name: "ReplacedObjectsRef", definition: 2usize, min_occurs: 1u32, max_occurs: None, choice_group: Some(0usize) },
            ChildRule { name: "DeprecationExplanation", definition: 3usize, min_occurs: 1u32, max_occurs: None, choice_group: Some(0usize) },
            ChildRule { name: "DictionaryRef", definition: 2usize, min_occurs: 1u32, max_occurs: None, choice_group: Some(0usize) },
            ChildRule { name: "HasPartRef", definition: 2usize, min_occurs: 1u32, max_occurs: None, choice_group: Some(1usize) },
            ChildRule { name: "IsSubtypeOfRef", definition: 2usize, min_occurs: 1u32, max_occurs: None, choice_group: Some(1usize) },
            ChildRule { name: "HasPropertyRef", definition: 2usize, min_occurs: 1u32, max_occurs: None, choice_group: Some(2usize) }
        ];
        assert(r@ =~= child_rules(12));
        r
    } else if d == 13 {
        let r = vec![
            ChildRule { name: "Name", definition: 1usize, min_occurs: 1u32, max_occurs: None, choice_group: Some(0usize) },
            ChildRule { name: "Definition", definition: 1usize, min_occurs: 1u32, max_occurs: None, choice_group: Some(0usize) },
            ChildRule { name: "ReferenceDocumentRef", definition: 2usize, min_occurs: 1u32, max_occurs: None, choice_group: Some(0usize) },
            ChildRule { name: "Description", definition: 1usize, min_occurs: 1u32, max_occurs: None, choice_group: Some(0usize) },
            ChildRule { name: "Example", definition: 1usize, min_occurs: 1u32, max_occurs: None, choice_group: Some(0usize) },
            ChildRule { name: "SimilarToRef", definition: 2usize, min_occurs: 1u32, max_occurs: None, choice_group: Some(0usize) },
            ChildRule { name: "LanguageOfCreator", definition: 4usize, min_occurs: 1u32, max_occurs: None, choice_group: Some(0usize) },
            ChildRule { name: "CountryOfOrigin", definition: 3usize, min_occurs: 1u32, max_occurs: None, choice_group: Some(0usize) },
            ChildRule { name: "VisualRepresentation", definition: 5usize, min_occurs: 1u32, max_occurs: None, choice_group: Some(0usize) },
            ChildRule { name: "MajorVersion", definition: 6usize, min_occurs: 1u32, max_occurs: None, choice_group: Some(0usize) },
            ChildRule { name: "MinorVersion", definition: 6usize, min_occurs: 1u32, max_occurs: None, choice_group: Some(0usize) },
            ChildRule { name: "Status", definition: 3usize, min_occurs: 1u32, max_occurs: None, choice_group: Some(0usize) },
            ChildRule { name: "ReplacedObjectsRef", definition: 2usize, min_occurs: 1u32, max_occurs: None, choice_group: Some(0usize) },
            ChildRule { name: "DeprecationExplanation", definition: 3usize, min_occurs: 1u32, max_occurs: None, choice_group: Some(0usize) },
            ChildRule { name: "DictionaryRef", definition: 2usize, min_occurs: 1u32, max_occurs: None, choice_group: Some(0usize) },
            ChildRule { name: "DataType", definition: 19usize, min_occurs: 1u32, max_occurs: Some(1u32), choice_group: None },
            ChildRule { name: "Symbol", definition: 3usize, min_occurs: 1u32, max_occurs: None, choice_group: Some(1usize) },
            ChildRule { name: "DimensionRef", definition: 2usize, min_occurs: 1u32, max_occurs: None, choice_group: Some(1usize) },
            ChildRule { name: "UnitRef", definition: 2usize, min_occurs: 1u32, max_occurs: None, choice_group: Some(1usize) },
            ChildRule { name: "QuantityKindRef", definition: 2usize, min_occurs: 0u32, max_occurs: None, choice_group: None },
            ChildRule { name: "IsDependentOnRef", definition: 2usize, min_occurs: 0u32, max_occurs: None, choice_group: None },
            ChildRule { name: "IsSpecializationOfRef", definition: 2usize, min_occurs: 0u32, max_occurs: Some(1u32), choice_group: None }
        ];
        assert(r@ =~= child_rules(13));
        r
    } else if d == 14 {
        let r = vec![
            ChildRule { name: "Name", definition: 1usize, min_occurs: 1u32, max_occurs: None, choice_group: Some(0usize) },
            ChildRule { name: "Definition", definition: 1usize, min_occurs: 1u32, max_occurs: None, choice_group: Some(0usize) },
            ChildRule { name: "ReferenceDocumentRef", definition: 2usize, min_occurs: 1u32, max_occurs: None, choice_group: Some(0usize) },
            ChildRule { name: "Description", definition: 1usize, min_occurs: 1u32, max_occurs: None, choice_group: Some(0usize) },
            ChildRule { name: "Example", definition: 1usize, min_occurs: 1u32, max_occurs: None, choice_group: Some(0usize) },
            ChildRule { name: "SimilarToRef", definition: 2usize, min_occurs: 1u32, max_occurs: None, choice_group: Some(0usize) },
            ChildRule { name: "LanguageOfCreator", definition: 4usize, min_occurs: 1u32, max_occurs: None, choice_group: Some(0usize) },
            ChildRule { name: "CountryOfOrigin", definition: 3usize, min_occurs: 1u32, max_occurs: None, choice_group: Some(0usize) },
            ChildRule { name: "VisualRepresentation", definition: 5usize, min_occurs: 1u32, max_occurs: None, choice_group: Some(0usize) },
            ChildRule { name: "MajorVersion", definition: 6usize, min_occurs: 1u32, max_occurs: None, choice_group: Some(0usize) },
            ChildRule { name: "MinorVersion", definition: 6usize, min_occurs: 1u32, max_occurs: None, choice_group: Some(0usize) },
            ChildRule { name: "Status", definition: 3usize, min_occurs: 1u32, max_occurs: None, choice_group: Some(0usize) },
            ChildRule { name: "ReplacedObjectsRef", definition: 2usize, min_occurs: 1u32, max_occurs: None, choice_group: Some(0usize) },
            ChildRule { name: "DeprecationExplanation", definition: 3usize, min_occurs: 1u32, max_occurs: None, choice_group: Some(0usize) },
            ChildRule { name: "DictionaryRef", definition: 2usize, min_occurs: 1u32, max_occurs: None, choice_group: Some(0usize) },
            ChildRule { name: "Symbol", definition: 1usize, min_occurs: 0u32, max_occurs: None, choice_group: None },
            ChildRule { name: "DimensionRef", definition: 2usize, min_occurs: 1u32, max_occurs: Some(1u32), choice_group: None },
            ChildRule { name: "Scale", definition: 3usize, min_occurs: 1u32, max_occurs: Some(1u32), choice_group: None },
            ChildRule { name: "Base", definition: 3usize, min_occurs: 1u32, max_occurs: Some(1u32), choice_group: None },
            ChildRule { name: "Coefficient", definition: 3usize, min_occurs: 1u32, max_occurs: Some(1u32), choice_group: None },
            ChildRule { name: "Offset", definition: 3usize, min_occurs: 1u32, max_occurs: Some(1u32), choice_group: None }
        ];
        assert(r@ =~= child_rules(14));
        r
    } else if d == 15 {
        let r = vec![
            ChildRule { name: "Name", definition: 1usize, min_occurs: 1u32, max_occurs: None, choice_group: Some(0usize) },
            ChildRule { name: "Definition", definition: 1usize, min_occurs: 1u32, max_occurs: None, choice_group: Some(0usize) },
            ChildRule { name: "ReferenceDocumentRef", definition: 2usize, min_occurs: 1u32, max_occurs: None, choice_group: Some(0usize) },
            ChildRule { name: "Description", definition: 1usize, min_occurs: 1u32, max_occurs: None, choice_group: Some(0usize) },
            ChildRule { name: "Example", definition: 1usize, min_occurs: 1u32, max_occurs: None, choice_group: Some(0usize) },
            ChildRule { name: "SimilarToRef", definition: 2usize, min_occurs: 1u32, max_occurs: None, choice_group: Some(0usize) },
            ChildRule { name: "LanguageOfCreator", definition: 4usize, min_occurs: 1u32, max_occurs: None, choice_group: Some(0usize) },
            ChildRule { name: "CountryOfOrigin", definition: 3usize, min_occurs: 1u32, max_occurs: None, choice_group: Some(0usize) },
            ChildRule { name: "VisualRepresentation", definition: 5usize, min_occurs: 1u32, max_occurs: None, choice_group: Some(0usize) },
            ChildRule { name: "MajorVersion", definition: 6usize, min_occurs: 1u32, max_occurs: None, choice_group: Some(0usize) },
            ChildRule { name: "MinorVersion", definition: 6usize, min_occurs: 1u32, max_occurs: None, choice_group: Some(0usize) },
            ChildRule { name: "Status", definition: 3usize, min_occurs: 1u32, max_occurs: None, choice_group: Some(0usize) },
            ChildRule { name: "ReplacedObjectsRef", definition: 2usize, min_occurs: 1u32, max_occurs: None, choice_group: Some(0usize) },
            ChildRule { name: "DeprecationExplanation", definition: 3usize, min_occurs: 1u32, max_occurs: None, choice_group: Some(0usize) },
            ChildRule { name: "DictionaryRef", definition: 2usize, min_occurs: 1u32, max_occurs: None, choice_group: Some(0usize) },
            ChildRule { name: "DimensionExponentForAmountOfSubstance", definition: 9usize, min_occurs: 1u32, max_occurs: Some(1u32), choice_group: None },
            ChildRule { name: "DimensionExponentForElectricCurrent", definition: 9usize, min_occurs: 1u32, max_occurs: Some(1u32), choice_group: None },
            ChildRule { name: "DimensionExponentForLength", definition: 9usize, min_occurs: 1u32, max_occurs: Some(1u32), choice_group: None },
            ChildRule { name: "DimensionExponentForLuminousIntensity", definition: 9usize, min_occurs: 1u32, max_occurs: Some(1u32), choice_group: None },
            ChildRule { name: "DimensionExponentForMass", definition: 9usize, min_occurs: 1u32, max_occurs: Some(1u32), choice_group: None },
            ChildRule { name: "DimensionExponentForThermodynamicTemperature", definition: 9usize, min_occurs: 1u32, max_occurs: Some(1u32), choice_group: None },
            ChildRule { name: "DimensionExponentForTime", definition: 9usize, min_occurs: 1u32, max_occurs: Some(1u32), choice_group: None }
        ];
        assert(r@ =~= child_rules(15));
        r
    } else if d == 16 {
        let r = vec![
            ChildRule { name: "Name", definition: 1usize, min_occurs: 1u32, max_occurs: None, choice_group: Some(0usize) },
            ChildRule { name: "Definition", definition: 1usize, min_occurs: 1u32, max_occurs: None, choice_group: Some(0usize) },
            ChildRule { name: "ReferenceDocumentRef", definition: 2usize, min_occurs: 1u32, max_occurs: None, choice_group: Some(0usize) },
            ChildRule { name: "Description", definition: 1usize, min_occurs: 1u32, max_occurs: None, choice_group: Some(0usize) },
            ChildRule { name: "Example", definition: 1usize, min_occurs: 1u32, max_occurs: None, choice_group: Some(0usize) },
            ChildRule { name: "SimilarToRef", definition: 2usize, min_occurs: 1u32, max_occurs: None, choice_group: Some(0usize) },
            ChildRule { name: "LanguageOfCreator", definition: 4usize, min_occurs: 1u32, max_occurs: None, choice_group: Some(0usize) },
            ChildRule { name: "CountryOfOrigin", definition: 3usize, min_occurs: 1u32, max_occurs: None, choice_group: Some(0usize) },
            ChildRule { name: "VisualRepresentation", definition: 5usize, min_occurs: 1u32, max_occurs: None, choice_group: Some(0usize) },
            ChildRule { name: "MajorVersion", definition: 6usize, min_occurs: 1u32, max_occurs: None, choice_group: Some(0usize) },
            ChildRule { name: "MinorVersion", definition: 6usize, min_occurs: 1u32, max_occurs: None, choice_group: Some(0usize) },
            ChildRule { name: "Status", definition: 3usize, min_occurs: 1u32, max_occurs: None, choice_group: Some(0usize) },
            ChildRule { name: "ReplacedObjectsRef", definition: 2usize, min_occurs: 1u32, max_occurs: None, choice_group: Some(0usize) },
            ChildRule { name: "DeprecationExplanation", definition: 3usize, min_occurs: 1u32, max_occurs: None, choice_group: Some(0usize) },
            ChildRule { name: "DictionaryRef", definition: 2usize, min_occurs: 1u32, max_occurs: None, choice_group: Some(0usize) },
            ChildRule { name: "DimensionRef", definition: 2usize, min_occurs: 1u32, max_occurs: Some(1u32), choice_group: None }
        ];
        assert(r@ =~= child_rules(16));
        r
    } else if d == 17 {
        let r = vec![
            ChildRule { name: "Name", definition: 1usize, min_occurs: 1u32, max_occurs: None, choice_group: Some(0usize) },
            ChildRule { name: "Definition", definition: 1usize, min_occurs: 1u32, max_occurs: None, choice_group: Some(0usize) },
            ChildRule { name: "ReferenceDocumentRef", definition: 2usize, min_occurs: 1u32, max_occurs: None, choice_group: Some(0usize) },
            ChildRule { name: "Description", definition: 1usize, min_occurs: 1u32, max_occurs: None, choice_group: Some(0usize) },
            ChildRule { name: "Example", definition: 1usize, min_occurs: 1u32, max_occurs: None, choice_group: Some(0usize) },
            ChildRule { name: "SimilarToRef", definition: 2usize, min_occurs: 1u32, max_occurs: None, choice_group: Some(0usize) },
            ChildRule { name: "LanguageOfCreator", definition: 4usize, min_occurs: 1u32, max_occurs: None, choice_group: Some(0usize) },
            ChildRule { name: "CountryOfOrigin", definition: 3usize, min_occurs: 1u32, max_occurs: None, choice_group: Some(0usize) },
            ChildRule { name: "VisualRepresentation", definition: 5usize, min_occurs: 1u32, max_occurs: None, choice_group: Some(0usize) },
            ChildRule { name: "MajorVersion", definition: 6usize, min_occurs: 1u32, max_occurs: None, choice_group: Some(0usize) },
            ChildRule { name: "MinorVersion", definition: 6usize, min_occurs: 1u32, max_occurs: None, choice_group: Some(0usize) },
            ChildRule { name: "Status", definition: 3usize, min_occurs: 1u32, max_occurs: None, choice_group: Some(0usize) },
            ChildRule { name: "ReplacedObjectsRef", definition: 2usize, min_occurs: 1u32, max_occurs: None, choice_group: Some(0usize) },
            ChildRule { name: "DeprecationExplanation", definition: 3usize, min_occurs: 1u32, max_occurs: None, choice_group: Some(0usize) },
            ChildRule { name: "DictionaryRef", definition: 2usize, min_occurs: 1u32, max_occurs: None, choice_group: Some(0usize) },
            ChildRule { name: "DateOfPublication", definition: 7usize, min_occurs: 0u32, max_occurs: Some(1u32), choice_group: None },
            ChildRule { name: "Author", definition: 3usize, min_occurs: 0u32, max_occurs: Some(1u32), choice_group: None },
            ChildRule { name: "ISBN", definition: 3usize, min_occurs: 0u32, max_occurs: Some(1u32), choice_group: None },
            ChildRule { name: "Language", definition: 4usize, min_occurs: 1u32, max_occurs: None, choice_group: None },
            ChildRule { name: "Publisher", definition: 3usize, min_occurs: 0u32, max_occurs: Some(1u32), choice_group: None },
            ChildRule { name: "URI", definition: 8usize, min_occurs: 0u32, max_occurs: Some(1u32), choice_group: None }
        ];
        assert(r@ =~= child_rules(17));
        r
    } else if d == 18 {
        let r = vec![
            ChildRule { name: "Name", definition: 1usize, min_occurs: 1u32, max_occurs: None, choice_group: Some(0usize) },
            ChildRule { name: "Definition", definition: 1usize, min_occurs: 1u32, max_occurs: None, choice_group: Some(0usize) },
            ChildRule { name: "ReferenceDocumentRef", definition: 2usize, min_occurs: 1u32, max_occurs: None, choice_group: Some(0usize) },
            ChildRule { name: "Description", definition: 1usize, min_occurs: 1u32, max_occurs: None, choice_group: Some(0usize) },
            ChildRule { name: "Example", definition: 1usize, min_occurs: 1u32, max_occurs: None, choice_group: Some(0usize) },
            ChildRule { name: "SimilarToRef", definition: 2usize, min_occurs: 1u32, max_occurs: None, choice_group: Some(0usize) },
            ChildRule { name: "LanguageOfCreator", definition: 4usize, min_occurs: 1u32, max_occurs: None, choice_group: Some(0usize) },
            ChildRule { name: "CountryOfOrigin", definition: 3usize, min_occurs: 1u32, max_occurs: None, choice_group: Some(0usize) },
            ChildRule { name: "VisualRepresentation", definition: 5usize, min_occurs: 1u32, max_occurs: None, choice_group: Some(0usize) },
            ChildRule { name: "MajorVersion", definition: 6usize, min_occurs: 1u32, max_occurs: None, choice_group: Some(0usize) },
            ChildRule { name: "MinorVersion", definition: 6usize, min_occurs: 1u32, max_occurs: None, choice_group: Some(0usize) },
            ChildRule { name: "Status", definition: 3usize, min_occurs: 1u32, max_occurs: None, choice_group: Some(0usize) },
            ChildRule { name: "ReplacedObjectsRef", definition: 2usize, min_occurs: 1u32, max_occurs: None, choice_group: Some(0usize) },
            ChildRule { name: "DeprecationExplanation", definition: 3usize, min_occurs: 1u32, max_occurs: None, choice_group: Some(0usize) },
            ChildRule { name: "DictionaryRef", definition: 2usize, min_occurs: 1u32, max_occurs: None, choice_group: Some(0usize) },
            ChildRule { name: "HasPartRef", definition: 2usize, min_occurs: 1u32, max_occurs: None, choice_group: Some(1usize) },
            ChildRule { name: "IsSubtypeOfRef", definition: 2usize, min_occurs: 1u32, max_occurs: None, choice_group: Some(1usize) }
        ];
        assert(r@ =~= child_rules(18));
        r
    } else if d == 19 {
        let r = vec![
            ChildRule { name: "MinInclusive", definition: 20usize, min_occurs: 0u32, max_occurs: None, choice_group: Some(0usize) },
            ChildRule { name: "MinExclusive", definition: 20usize, min_occurs: 0u32, max_occurs: None, choice_group: Some(0usize) },
            ChildRule { name: "MaxInclusive", definition: 20usize, min_occurs: 0u32, max_occurs: None, choice_group: Some(0usize) },
            ChildRule { name: "MaxExclusive", definition: 20usize, min_occurs: 0u32, max_occurs: None, choice_group: Some(0usize) },
            ChildRule { name: "DataFormat", definition: 20usize, min_occurs: 0u32, max_occurs: None, choice_group: None },
            ChildRule { name: "PossibleValues", definition: 21usize, min_occurs: 0u32, max_occurs: None, choice_group: None }
        ];
        assert(r@ =~= child_rules(19));
        r
    } else if d == 20 {
        let r = vec![
            
        ];
        assert(r@ =~= child_rules(20));
        r
    } else if d == 21 {
        let r = vec![
            ChildRule { name: "ValueList", definition: 22usize, min_occurs: 1u32, max_occurs: Some(1u32), choice_group: None }
        ];
        assert(r@ =~= child_rules(21));
        r
    } else if d == 22 {
        let r = vec![
            ChildRule { name: "Value", definition: 23usize, min_occurs: 1u32, max_occurs: None, choice_group: None }
        ];
        assert(r@ =~= child_rules(22));
        r
    } else if d == 23 {
        let r = vec![
            
        ];
        assert(r@ =~= child_rules(23));
        r
    } else {
        let r: Vec<ChildRule> = Vec::new();
        assert(r@ =~= child_rules(d as int));
        r
    }
}

/// The choice groups of a type definition.
pub open spec fn choice_groups(d: int) -> Seq<ChoiceGroup> {
    if d == 0 {
        seq![
            ChoiceGroup { min_occurs: 0u32, max_occurs: None }
        ]
    } else if d == 1 {
        seq![
            
        ]
    } else if d == 2 {
        seq![
            
        ]
    } else if d == 3 {
        seq![
            
        ]
    } else if d == 4 {
        seq![
            
        ]
    } else if d == 5 {
        seq![
            
        ]
    } else if d == 6 {
        seq![
            
        ]
    } else if d == 7 {
        seq![
            
        ]
    } else if d == 8 {
        seq![
            
        ]
    } else if d == 9 {
        seq![
            
        ]
    } else if d == 10 {
        seq![
            ChoiceGroup { min_occurs: 1u32, max_occurs: None }, ChoiceGroup { min_occurs: 1u32, max_occurs: None }
        ]
    } else if d == 11 {
        seq![
            ChoiceGroup { min_occurs: 1u32, max_occurs: None }, ChoiceGroup { min_occurs: 1u32, max_occurs: None }
        ]
    } else if d == 12 {
        seq![
            ChoiceGroup { min_occurs: 1u32, max_occurs: None }, ChoiceGroup { min_occurs: 1u32, max_occurs: None }, ChoiceGroup { min_occurs: 1u32, max_occurs: None }
        ]
    } else if d == 13 {
        seq![
            ChoiceGroup { min_occurs: 1u32, max_occurs: None }, ChoiceGroup { min_occurs: 1u32, max_occurs: None }
        ]
    } else if d == 14 {
        seq![
            ChoiceGroup { min_occurs: 1u32, max_occurs: None }
        ]
    } else if d == 15 {
        seq![
            ChoiceGroup { min_occurs: 1u32, max_occurs: None }
        ]
    } else if d == 16 {
        seq![
            ChoiceGroup { min_occurs: 1u32, max_occurs: None }
        ]
    } else if d == 17 {
        seq![
            ChoiceGroup { min_occurs: 1u32, max_occurs: None }
        ]
    } else if d == 18 {
        seq![
            ChoiceGroup { min_occurs: 1u32, max_occurs: None }, ChoiceGroup { min_occurs: 1u32, max_occurs: None }
        ]
    } else if d == 19 {
        seq![
            ChoiceGroup { min_occurs: 0u32, max_occurs: None }
        ]
    } else if d == 20 {
        seq![
            
        ]
    } else if d == 21 {
        seq![
            
        ]
    } else if d == 22 {
        seq![
            
        ]
    } else if d == 23 {
        seq![
            
        ]
    } else {
        Seq::empty()
    }
}

pub fn choice_groups_of(d: usize) -> (r: Vec<ChoiceGroup>)
    ensures
        r@ == choice_groups(d as int),
{
    if d == 0 {
        let r = vec![
            ChoiceGroup { min_occurs: 0u32, max_occurs: None }
        ];
        assert(r@ =~= choice_groups(0));
        r
    } else if d == 1 {
        let r = vec![
            
        ];
        assert(r@ =~= choice_groups(1));
        r
    } else if d == 2 {
        let r = vec![
            
        ];
        assert(r@ =~= choice_groups(2));
        r
    } else if d == 3 {
        let r = vec![
            
        ];
        assert(r@ =~= choice_groups(3));
        r
    } else if d == 4 {
        let r = vec![
            
        ];
        assert(r@ =~= choice_groups(4));
        r
    } else if d == 5 {
        let r = vec![
            
        ];
        assert(r@ =~= choice_groups(5));
        r
    } else if d == 6 {
        let r = vec![
            
        ];
        assert(r@ =~= choice_groups(6));
        r
    } else if d == 7 {
        let r = vec![
            
        ];
        assert(r@ =~= choice_groups(7));
        r
    } else if d == 8 {
        let r = vec![
            
        ];
        assert(r@ =~= choice_groups(8));
        r
    } else if d == 9 {
        let r = vec![
            
        ];
        assert(r@ =~= choice_groups(9));
        r
    } else if d == 10 {
        let r = vec![
            ChoiceGroup { min_occurs: 1u32, max_occurs: None }, ChoiceGroup { min_occurs: 1u32, max_occurs: None }
        ];
        assert(r@ =~= choice_groups(10));
        r
    } else if d == 11 {
        let r = vec![
            ChoiceGroup { min_occurs: 1u32, max_occurs: None }, ChoiceGroup { min_occurs: 1u32, max_occurs: None }
        ];
        assert(r@ =~= choice_groups(11));
        r
    } else if d == 12 {
        let r = vec![
            ChoiceGroup { min_occurs: 1u32, max_occurs: None }, ChoiceGroup { min_occurs: 1u32, max_occurs: None }, ChoiceGroup { min_occurs: 1u32, max_occurs: None }
        ];
        assert(r@ =~= choice_groups(12));
        r
    } else if d == 13 {
        let r = vec![
            ChoiceGroup { min_occurs: 1u32, max_occurs: None }, ChoiceGroup { min_occurs: 1u32, max_occurs: None }
        ];
        assert(r@ =~= choice_groups(13));
        r
    } else if d == 14 {
        let r = vec![
            ChoiceGroup { min_occurs: 1u32, max_occurs: None }
        ];
        assert(r@ =~= choice_groups(14));
        r
    } else if d == 15 {
        let r = vec![
            ChoiceGroup { min_occurs: 1u32, max_occurs: None }
        ];
        assert(r@ =~= choice_groups(15));
        r
    } else if d == 16 {
        let r = vec![
            ChoiceGroup { min_occurs: 1u32, max_occurs: None }
        ];
        assert(r@ =~= choice_groups(16));
        r
    } else if d == 17 {
        let r = vec![
            ChoiceGroup { min_occurs: 1u32, max_occurs: None }
        ];
        assert(r@ =~= choice_groups(17));
        r
    } else if d == 18 {
        let r = vec![
            ChoiceGroup { min_occurs: 1u32, max_occurs: None }, ChoiceGroup { min_occurs: 1u32, max_occurs: None }
        ];
        assert(r@ =~= choice_groups(18));
        r
    } else if d == 19 {
        let r = vec![
            ChoiceGroup { min_occurs: 0u32, max_occurs: None }
        ];
        assert(r@ =~= choice_groups(19));
        r
    } else if d == 20 {
        let r = vec![
            
        ];
        assert(r@ =~= choice_groups(20));
        r
    } else if d == 21 {
        let r = vec![
            
        ];
        assert(r@ =~= choice_groups(21));
        r
    } else if d == 22 {
        let r = vec![
            
        ];
        assert(r@ =~= choice_groups(22));
        r
    } else if d == 23 {
        let r = vec![
            
        ];
        assert(r@ =~= choice_groups(23));
        r
    } else {
        let r: Vec<ChoiceGroup> = Vec::new();
        assert(r@ =~= choice_groups(d as int));
        r
    }
}

/// The attribute rules of a type definition.
pub open spec fn attribute_rules(d: int) -> Seq<AttributeRule> {
    if d == 0 {
        seq![
            AttributeRule { name: "GUID", required: true, data_type: "xs:string", pattern: Some("[0-9a-fA-F]{8}-[0-9a-fA-F]{4}-[0-9a-fA-F]{4}-[0-9a-fA-F]{4}-[0-9a-fA-F]{12}"), data_type_names: false },
            AttributeRule { name: "about", required: false, data_type: "xs:anyURI", pattern: None, data_type_names: false }
        ]
    } else if d == 1 {
        seq![
            AttributeRule { name: "language", required: true, data_type: "xs:language", pattern: None, data_type_names: false }
        ]
    } else if d == 2 {
        seq![
            AttributeRule { name: "GUID", required: false, data_type: "xs:string", pattern: Some("[0-9a-fA-F]{8}-[0-9a-fA-F]{4}-[0-9a-fA-F]{4}-[0-9a-fA-F]{4}-[0-9a-fA-F]{12}"), data_type_names: false },
            AttributeRule { name: "referenceURI", required: false, data_type: "xs:anyURI", pattern: None, data_type_names: false }
        ]
    } else if d == 3 {
        seq![
            
        ]
    } else if d == 4 {
        seq![
            
        ]
    } else if d == 5 {
        seq![
            
        ]
    } else if d == 6 {
        seq![
            
        ]
    } else if d == 7 {
        seq![
            
        ]
    } else if d == 8 {
        seq![
            
        ]
    } else if d == 9 {
        seq![
            
        ]
    } else if d == 10 {
        seq![
            AttributeRule { name: "about", required: false, data_type: "xs:anyURI", pattern: None, data_type_names: false },
            AttributeRule { name: "GUID", required: true, data_type: "xs:string", pattern: Some("[0-9a-fA-F]{8}-[0-9a-fA-F]{4}-[0-9a-fA-F]{4}-[0-9a-fA-F]{4}-[0-9a-fA-F]{12}"), data_type_names: false },
            AttributeRule { name: "dateOfCreation", required: true, data_type: "xs:dateTime", pattern: None, data_type_names: false }
        ]
    } else if d == 11 {
        seq![
            AttributeRule { name: "about", required: false, data_type: "xs:anyURI", pattern: None, data_type_names: false },
            AttributeRule { name: "GUID", required: true, data_type: "xs:string", pattern: Some("[0-9a-fA-F]{8}-[0-9a-fA-F]{4}-[0-9a-fA-F]{4}-[0-9a-fA-F]{4}-[0-9a-fA-F]{12}"), data_type_names: false },
            AttributeRule { name: "dateOfCreation", required: true, data_type: "xs:dateTime", pattern: None, data_type_names: false }
        ]
    } else if d == 12 {
        seq![
            AttributeRule { name: "about", required: false, data_type: "xs:anyURI", pattern: None, data_type_names: false },
            AttributeRule { name: "GUID", required: true, data_type: "xs:string", pattern: Some("[0-9a-fA-F]{8}-[0-9a-fA-F]{4}-[0-9a-fA-F]{4}-[0-9a-fA-F]{4}-[0-9a-fA-F]{12}"), data_type_names: false },
            AttributeRule { name: "dateOfCreation", required: true, data_type: "xs:dateTime", pattern: None, data_type_names: false }
        ]
    } else if d == 13 {
        seq![
            AttributeRule { name: "about", required: false, data_type: "xs:anyURI", pattern: None, data_type_names: false },
            AttributeRule { name: "GUID", required: true, data_type: "xs:string", pattern: Some("[0-9a-fA-F]{8}-[0-9a-fA-F]{4}-[0-9a-fA-F]{4}-[0-9a-fA-F]{4}-[0-9a-fA-F]{12}"), data_type_names: false },
            AttributeRule { name: "dateOfCreation", required: true, data_type: "xs:dateTime", pattern: None, data_type_names: false }
        ]
    } else if d == 14 {
        seq![
            AttributeRule { name: "about", required: false, data_type: "xs:anyURI", pattern: None, data_type_names: false },
            AttributeRule { name: "GUID", required: true, data_type: "xs:string", pattern: Some("[0-9a-fA-F]{8}-[0-9a-fA-F]{4}-[0-9a-fA-F]{4}-[0-9a-fA-F]{4}-[0-9a-fA-F]{12}"), data_type_names: false },
            AttributeRule { name: "dateOfCreation", required: true, data_type: "xs:dateTime", pattern: None, data_type_names: false }
        ]
    } else if d == 15 {
        seq![
            AttributeRule { name: "about", required: false, data_type: "xs:anyURI", pattern: None, data_type_names: false },
            AttributeRule { name: "GUID", required: true, data_type: "xs:string", pattern: Some("[0-9a-fA-F]{8}-[0-9a-fA-F]{4}-[0-9a-fA-F]{4}-[0-9a-fA-F]{4}-[0-9a-fA-F]{12}"), data_type_names: false },
            AttributeRule { name: "dateOfCreation", required: true, data_type: "xs:dateTime", pattern: None, data_type_names: false }
        ]
    } else if d == 16 {
        seq![
            AttributeRule { name: "about", required: false, data_type: "xs:anyURI", pattern: None, data_type_names: false },
            AttributeRule { name: "GUID", required: true, data_type: "xs:string", pattern: Some("[0-9a-fA-F]{8}-[0-9a-fA-F]{4}-[0-9a-fA-F]{4}-[0-9a-fA-F]{4}-[0-9a-fA-F]{12}"), data_type_names: false },
            AttributeRule { name: "dateOfCreation", required: true, data_type: "xs:dateTime", pattern: None, data_type_names: false }
        ]
    } else if d == 17 {
        seq![
            AttributeRule { name: "about", required: false, data_type: "xs:anyURI", pattern: None, data_type_names: false },
            AttributeRule { name: "GUID", required: true, data_type: "xs:string", pattern: Some("[0-9a-fA-F]{8}-[0-9a-fA-F]{4}-[0-9a-fA-F]{4}-[0-9a-fA-F]{4}-[0-9a-fA-F]{12}"), data_type_names: false },
            AttributeRule { name: "dateOfCreation", required: true, data_type: "xs:dateTime", pattern: None, data_type_names: false }
        ]
    } else if d == 18 {
        seq![
            AttributeRule { name: "about", required: false, data_type: "xs:anyURI", pattern: None, data_type_names: false },
            AttributeRule { name: "GUID", required: true, data_type: "xs:string", pattern: Some("[0-9a-fA-F]{8}-[0-9a-fA-F]{4}-[0-9a-fA-F]{4}-[0-9a-fA-F]{4}-[0-9a-fA-F]{12}"), data_type_names: false },
            AttributeRule { name: "dateOfCreation", required: true, data_type: "xs:dateTime", pattern: None, data_type_names: false }
        ]
    } else if d == 19 {
        seq![
            AttributeRule { name: "name", required: false, data_type: "xs:string", pattern: None, data_type_names: true }
        ]
    } else if d == 20 {
        seq![
            AttributeRule { name: "value", required: true, data_type: "xs:string", pattern: None, data_type_names: false }
        ]
    } else if d == 21 {
        seq![
            
        ]
    } else if d == 22 {
        seq![
            AttributeRule { name: "language", required: true, data_type: "xs:language", pattern: None, data_type_names: false }
        ]
    } else if d == 23 {
        seq![
            AttributeRule { name: "order", required: false, data_type: "xs:int", pattern: None, data_type_names: false }
        ]
    } else {
        Seq::empty()
    }
}

pub fn attribute_rules_of(d: usize) -> (r: Vec<AttributeRule>)
    ensures
        r@ == attribute_rules(d as int),
{
    if d == 0 {
        let r = vec![
            AttributeRule { name: "GUID", required: true, data_type: "xs:string", pattern: Some("[0-9a-fA-F]{8}-[0-9a-fA-F]{4}-[0-9a-fA-F]{4}-[0-9a-fA-F]{4}-[0-9a-fA-F]{12}"), data_type_names: false },
            AttributeRule { name: "about", required: false, data_type: "xs:anyURI", pattern: None, data_type_names: false }
        ];
        assert(r@ =~= attribute_rules(0));
        r
    } else if d == 1 {
        let r = vec![
            AttributeRule { name: "language", required: true, data_type: "xs:language", pattern: None, data_type_names: false }
        ];
        assert(r@ =~= attribute_rules(1));
        r
    } else if d == 2 {
        let r = vec![
            AttributeRule { name: "GUID", required: false, data_type: "xs:string", pattern: Some("[0-9a-fA-F]{8}-[0-9a-fA-F]{4}-[0-9a-fA-F]{4}-[0-9a-fA-F]{4}-[0-9a-fA-F]{12}"), data_type_names: false },
            AttributeRule { name: "referenceURI", required: false, data_type: "xs:anyURI", pattern: None, data_type_names: false }
        ];
        assert(r@ =~= attribute_rules(2));
        r
    } else if d == 3 {
        let r = vec![
            
        ];
        assert(r@ =~= attribute_rules(3));
        r
    } else if d == 4 {
        let r = vec![
            
        ];
        assert(r@ =~= attribute_rules(4));
        r
    } else if d == 5 {
        let r = vec![
            
        ];
        assert(r@ =~= attribute_rules(5));
        r
    } else if d == 6 {
        let r = vec![
            
        ];
        assert(r@ =~= attribute_rules(6));
        r
    } else if d == 7 {
        let r = vec![
            
        ];
        assert(r@ =~= attribute_rules(7));
        r
    } else if d == 8 {
        let r = vec![
            
        ];
        assert(r@ =~= attribute_rules(8));
        r
    } else if d == 9 {
        let r = vec![
            
        ];
        assert(r@ =~= attribute_rules(9));
        r
    } else if d == 10 {
        let r = vec![
            AttributeRule { name: "about", required: false, data_type: "xs:anyURI", pattern: None, data_type_names: false },
            AttributeRule { name: "GUID", required: true, data_type: "xs:string", pattern: Some("[0-9a-fA-F]{8}-[0-9a-fA-F]{4}-[0-9a-fA-F]{4}-[0-9a-fA-F]{4}-[0-9a-fA-F]{12}"), data_type_names: false },
            AttributeRule { name: "dateOfCreation", required: true, data_type: "xs:dateTime", pattern: None, data_type_names: false }
        ];
        assert(r@ =~= attribute_rules(10));
        r
    } else if d == 11 {
        let r = vec![
            AttributeRule { name: "about", required: false, data_type: "xs:anyURI", pattern: None, data_type_names: false },
            AttributeRule { name: "GUID", required: true, data_type: "xs:string", pattern: Some("[0-9a-fA-F]{8}-[0-9a-fA-F]{4}-[0-9a-fA-F]{4}-[0-9a-fA-F]{4}-[0-9a-fA-F]{12}"), data_type_names: false },
            AttributeRule { name: "dateOfCreation", required: true, data_type: "xs:dateTime", pattern: None, data_type_names: false }
        ];
        assert(r@ =~= attribute_rules(11));
        r
    } else if d == 12 {
        let r = vec![
            AttributeRule { name: "about", required: false, data_type: "xs:anyURI", pattern: None, data_type_names: false },
            AttributeRule { name: "GUID", required: true, data_type: "xs:string", pattern: Some("[0-9a-fA-F]{8}-[0-9a-fA-F]{4}-[0-9a-fA-F]{4}-[0-9a-fA-F]{4}-[0-9a-fA-F]{12}"), data_type_names: false },
            AttributeRule { name: "dateOfCreation", required: true, data_type: "xs:dateTime", pattern: None, data_type_names: false }
        ];
        assert(r@ =~= attribute_rules(12));
        r
    } else if d == 13 {
        let r = vec![
            AttributeRule { name: "about", required: false, data_type: "xs:anyURI", pattern: None, data_type_names: false },
            AttributeRule { name: "GUID", required: true, data_type: "xs:string", pattern: Some("[0-9a-fA-F]{8}-[0-9a-fA-F]{4}-[0-9a-fA-F]{4}-[0-9a-fA-F]{4}-[0-9a-fA-F]{12}"), data_type_names: false },
            AttributeRule { name: "dateOfCreation", required: true, data_type: "xs:dateTime", pattern: None, data_type_names: false }
        ];
        assert(r@ =~= attribute_rules(13));
        r
    } else if d == 14 {
        let r = vec![
            AttributeRule { name: "about", required: false, data_type: "xs:anyURI", pattern: None, data_type_names: false },
            AttributeRule { name: "GUID", required: true, data_type: "xs:string", pattern: Some("[0-9a-fA-F]{8}-[0-9a-fA-F]{4}-[0-9a-fA-F]{4}-[0-9a-fA-F]{4}-[0-9a-fA-F]{12}"), data_type_names: false },
            AttributeRule { name: "dateOfCreation", required: true, data_type: "xs:dateTime", pattern: None, data_type_names: false }
        ];
        assert(r@ =~= attribute_rules(14));
        r
    } else if d == 15 {
        let r = vec![
            AttributeRule { name: "about", required: false, data_type: "xs:anyURI", pattern: None, data_type_names: false },
            AttributeRule { name: "GUID", required: true, data_type: "xs:string", pattern: Some("[0-9a-fA-F]{8}-[0-9a-fA-F]{4}-[0-9a-fA-F]{4}-[0-9a-fA-F]{4}-[0-9a-fA-F]{12}"), data_type_names: false },
            AttributeRule { name: "dateOfCreation", required: true, data_type: "xs:dateTime", pattern: None, data_type_names: false }
        ];
        assert(r@ =~= attribute_rules(15));
        r
    } else if d == 16 {
        let r = vec![
            AttributeRule { name: "about", required: false, data_type: "xs:anyURI", pattern: None, data_type_names: false },
            AttributeRule { name: "GUID", required: true, data_type: "xs:string", pattern: Some("[0-9a-fA-F]{8}-[0-9a-fA-F]{4}-[0-9a-fA-F]{4}-[0-9a-fA-F]{4}-[0-9a-fA-F]{12}"), data_type_names: false },
            AttributeRule { name: "dateOfCreation", required: true, data_type: "xs:dateTime", pattern: None, data_type_names: false }
        ];
        assert(r@ =~= attribute_rules(16));
        r
    } else if d == 17 {
        let r = vec![
            AttributeRule { name: "about", required: false, data_type: "xs:anyURI", pattern: None, data_type_names: false },
            AttributeRule { name: "GUID", required: true, data_type: "xs:string", pattern: Some("[0-9a-fA-F]{8}-[0-9a-fA-F]{4}-[0-9a-fA-F]{4}-[0-9a-fA-F]{4}-[0-9a-fA-F]{12}"), data_type_names: false },
            AttributeRule { name: "dateOfCreation", required: true, data_type: "xs:dateTime", pattern: None, data_type_names: false }
        ];
        assert(r@ =~= attribute_rules(17));
        r
    } else if d == 18 {
        let r = vec![
            AttributeRule { name: "about", required: false, data_type: "xs:anyURI", pattern: None, data_type_names: false },
            AttributeRule { name: "GUID", required: true, data_type: "xs:string", pattern: Some("[0-9a-fA-F]{8}-[0-9a-fA-F]{4}-[0-9a-fA-F]{4}-[0-9a-fA-F]{4}-[0-9a-fA-F]{12}"), data_type_names: false },
            AttributeRule { name: "dateOfCreation", required: true, data_type: "xs:dateTime", pattern: None, data_type_names: false }
        ];
        assert(r@ =~= attribute_rules(18));
        r
    } else if d == 19 {
        let r = vec![
            AttributeRule { name: "name", required: false, data_type: "xs:string", pattern: None, data_type_names: true }
        ];
        assert(r@ =~= attribute_rules(19));
        r
    } else if d == 20 {
        let r = vec![
            AttributeRule { name: "value", required: true, data_type: "xs:string", pattern: None, data_type_names: false }
        ];
        assert(r@ =~= attribute_rules(20));
        r
    } else if d == 21 {
        let r = vec![
            
        ];
        assert(r@ =~= attribute_rules(21));
        r
    } else if d == 22 {
        let r = vec![
            AttributeRule { name: "language", required: true, data_type: "xs:language", pattern: None, data_type_names: false }
        ];
        assert(r@ =~= attribute_rules(22));
        r
    } else if d == 23 {
        let r = vec![
            AttributeRule { name: "order", required: false, data_type: "xs:int", pattern: None, data_type_names: false }
        ];
        assert(r@ =~= attribute_rules(23));
        r
    } else {
        let r: Vec<AttributeRule> = Vec::new();
        assert(r@ =~= attribute_rules(d as int));
        r
    }
}

/// The datatype of a definition's simple content, if it has simple content.
pub open spec fn simple_type(d: int) -> Option<&'static str> {
    if d == 0 {
        None
    } else if d == 1 {
        Some("xs:string")
    } else if d == 2 {
        None
    } else if d == 3 {
        Some("xs:string")
    } else if d == 4 {
        Some("xs:language")
    } else if d == 5 {
        Some("xs:base64Binary")
    } else if d == 6 {
        Some("xs:nonNegativeInteger")
    } else if d == 7 {
        Some("xs:dateTime")
    } else if d == 8 {
        Some("xs:anyURI")
    } else if d == 9 {
        Some("xs:decimal")
    } else if d == 10 {
        None
    } else if d == 11 {
        None
    } else if d == 12 {
        None
    } else if d == 13 {
        None
    } else if d == 14 {
        None
    } else if d == 15 {
        None
    } else if d == 16 {
        None
    } else if d == 17 {
        None
    } else if d == 18 {
        None
    } else if d == 19 {
        None
    } else if d == 20 {
        None
    } else if d == 21 {
        None
    } else if d == 22 {
        None
    } else if d == 23 {
        Some("xs:string")
    } else {
        None
    }
}

pub fn simple_type_of(d: usize) -> (r: Option<&'static str>)
    ensures
        r == simple_type(d as int),
{
    if d == 0 {
        None
    } else if d == 1 {
        Some("xs:string")
    } else if d == 2 {
        None
    } else if d == 3 {
        Some("xs:string")
    } else if d == 4 {
        Some("xs:language")
    } else if d == 5 {
        Some("xs:base64Binary")
    } else if d == 6 {
        Some("xs:nonNegativeInteger")
    } else if d == 7 {
        Some("xs:dateTime")
    } else if d == 8 {
        Some("xs:anyURI")
    } else if d == 9 {
        Some("xs:decimal")
    } else if d == 10 {
        None
    } else if d == 11 {
        None
    } else if d == 12 {
        None
    } else if d == 13 {
        None
    } else if d == 14 {
        None
    } else if d == 15 {
        None
    } else if d == 16 {
        None
    } else if d == 17 {
        None
    } else if d == 18 {
        None
    } else if d == 19 {
        None
    } else if d == 20 {
        None
    } else if d == 21 {
        None
    } else if d == 22 {
        None
    } else if d == 23 {
        Some("xs:string")
    } else {
        None
    }
}

pub fn handle_of(d: usize) -> (r: &'static str)
    ensures
        r == handle(d as int),
{
    if d == 0 {
        "LibraryType"
    } else if d == 1 {
        "MultiLanguageTextType"
    } else if d == 2 {
        "ReferenceType"
    } else if d == 3 {
        "StringType"
    } else if d == 4 {
        "LanguageType"
    } else if d == 5 {
        "Base64BinaryType"
    } else if d == 6 {
        "NonNegativeIntegerType"
    } else if d == 7 {
        "DateTimeType"
    } else if d == 8 {
        "AnyUriType"
    } else if d == 9 {
        "DecimalType"
    } else if d == 10 {
        "ObjectTypeType"
    } else if d == 11 {
        "DataTemplateType"
    } else if d == 12 {
        "GroupOfPropertiesType"
    } else if d == 13 {
        "PropertyType"
    } else if d == 14 {
        "UnitType"
    } else if d == 15 {
        "DimensionType"
    } else if d == 16 {
        "QuantityKindType"
    } else if d == 17 {
        "ReferenceDocumentType"
    } else if d == 18 {
        "SubjectType"
    } else if d == 19 {
        "DataTypeType"
    } else if d == 20 {
        "BoundType"
    } else if d == 21 {
        "PossibleValuesType"
    } else if d == 22 {
        "ValueListType"
    } else if d == 23 {
        "ValueType"
    } else {
        ""
    }
}

/// The definition of a global root element, by its local name.
pub open spec fn global_root(local: Seq<char>) -> Option<usize> {
    if local == "Library"@ {
        Some(0usize)
    } else if local == "DataTemplate"@ {
        Some(11usize)
    } else if local == "ObjectType"@ {
        Some(10usize)
    } else if local == "GroupOfProperties"@ {
        Some(12usize)
    } else if local == "Property"@ {
        Some(13usize)
    } else {
        None
    }
}

pub fn global_root_of(local: &str) -> (r: Option<usize>)
    ensures
        r == global_root(local@),
{
    if crate::text::str_eq(local, "Library") {
        Some(0)
    } else if crate::text::str_eq(local, "DataTemplate") {
        Some(11)
    } else if crate::text::str_eq(local, "ObjectType") {
        Some(10)
    } else if crate::text::str_eq(local, "GroupOfProperties") {
        Some(12)
    } else if crate::text::str_eq(local, "Property") {
        Some(13)
    } else {
        None
    }
}

/// The data-type name vocabulary that `DataType/@name` is restricted to.
pub open spec fn data_type_name_values() -> Seq<&'static str> {
    seq!["BOOLEAN", "INTEGER", "RATIONAL", "REAL", "COMPLEX", "STRING", "DATETIME"]
}

pub fn data_type_name_values_of() -> (r: Vec<&'static str>)
    ensures
        r@ == data_type_name_values(),
{
    let r = vec!["BOOLEAN", "INTEGER", "RATIONAL", "REAL", "COMPLEX", "STRING", "DATETIME"];
    assert(r@ =~= data_type_name_values());
    r
}

/// Every child rule names a definition in the table.
pub proof fn lemma_rules_in_table(d: int, i: int)
    requires
        0 <= i < child_rules(d).len(),
    ensures
        child_rules(d)[i].definition < definition_count(),
{
}

} // verus!
