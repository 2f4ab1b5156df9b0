//! Owned ISO 23387 type contracts used across standard boundaries.

use vstd::prelude::*;

use crate::value::{
    AnyUri, Base, Concept, DataTypeName, DateTime, Decimal, Language, MultiLanguageText, Rational,
    Reference, Scale, spec_is_any_uri,
};
use crate::text::spec_collapse;

verus! {

/// The abstract content of a [`Subject`].
pub struct SubjectModel {
    pub concept: Concept,
    pub has_part_refs: Seq<Reference>,
    pub is_subtype_of_refs: Seq<Reference>,
}

/// Owned `SubjectType` core shared by object types, groups, and data templates.
#[derive(Debug, Clone, PartialEq, Eq)]
pub struct Subject {
    concept: Concept,
    has_part_refs: Vec<Reference>,
    is_subtype_of_refs: Vec<Reference>,
}

impl View for Subject {
    type V = SubjectModel;

    closed spec fn view(&self) -> SubjectModel {
        SubjectModel {
            concept: self.concept,
            has_part_refs: self.has_part_refs@,
            is_subtype_of_refs: self.is_subtype_of_refs@,
        }
    }
}

impl Subject {
    pub fn new(concept: Concept) -> (r: Self)
        ensures
            r@ == (SubjectModel { concept, has_part_refs: Seq::empty(), is_subtype_of_refs: Seq::empty() }),
    {
        Subject { concept, has_part_refs: Vec::new(), is_subtype_of_refs: Vec::new() }
    }

    /// The concept core.
    pub fn concept(&self) -> (r: &Concept)
        ensures
            *r == self@.concept,
    {
        &self.concept
    }

    /// `HasPartRef` children.
    pub fn has_part_refs(&self) -> (r: &[Reference])
        ensures
            r@ == self@.has_part_refs,
    {
        self.has_part_refs.as_slice()
    }

    /// The first `IsSubtypeOfRef`, when present.
    pub fn is_subtype_of_ref(&self) -> (r: Option<&Reference>)
        ensures
            r is Some <==> self@.is_subtype_of_refs.len() > 0,
            r matches Some(x) ==> *x == self@.is_subtype_of_refs[0],
    {
        if self.is_subtype_of_refs.len() > 0 {
            Some(&self.is_subtype_of_refs[0])
        } else {
            None
        }
    }

    /// `IsSubtypeOfRef` children.
    pub fn is_subtype_of_refs(&self) -> (r: &[Reference])
        ensures
            r@ == self@.is_subtype_of_refs,
    {
        self.is_subtype_of_refs.as_slice()
    }

    /// Appends a `HasPartRef`.
    pub fn add_has_part_ref(&mut self, value: Reference)
        ensures
            final(self)@ == (SubjectModel { has_part_refs: old(self)@.has_part_refs.push(value), ..old(self)@ }),
    {
        self.has_part_refs.push(value);
    }

    /// Replaces every `IsSubtypeOfRef` with at most one.
    pub fn set_is_subtype_of_ref(&mut self, value: Option<Reference>)
        ensures
            final(self)@ == (SubjectModel {
                is_subtype_of_refs: match value {
                    Some(x) => seq![x],
                    None => Seq::empty(),
                },
                ..old(self)@
            }),
    {
        self.is_subtype_of_refs = Vec::new();
        match value {
            Some(x) => self.is_subtype_of_refs.push(x),
            None => {},
        }
    }

    /// Appends an `IsSubtypeOfRef`.
    pub fn add_is_subtype_of_ref(&mut self, value: Reference)
        ensures
            final(self)@ == (SubjectModel { is_subtype_of_refs: old(self)@.is_subtype_of_refs.push(value), ..old(self)@ }),
    {
        self.is_subtype_of_refs.push(value);
    }
}

/// ISO 23387 `ObjectTypeType`.
#[derive(Debug, Clone, PartialEq, Eq)]
pub struct ObjectType(Subject);

impl View for ObjectType {
    type V = Subject;

    closed spec fn view(&self) -> Subject {
        self.0
    }
}

impl ObjectType {
    pub fn new(subject: Subject) -> (r: Self)
        ensures
            r@ == subject,
    {
        ObjectType(subject)
    }

    pub fn subject(&self) -> (r: &Subject)
        ensures
            *r == self@,
    {
        &self.0
    }

    pub fn into_subject(self) -> (r: Subject)
        ensures
            r == self@,
    {
        self.0
    }
}

/// The abstract content of a [`DataValue`].
pub struct DataValueModel {
    pub value: Seq<char>,
    pub order: Option<i32>,
}

/// One ordered simple value in ISO 23387 `ValueListType`.
#[derive(Debug, Clone, PartialEq, Eq)]
pub struct DataValue {
    value: String,
    order: Option<i32>,
}

impl View for DataValue {
    type V = DataValueModel;

    closed spec fn view(&self) -> DataValueModel {
        DataValueModel {
            value: self.value@,
            order: self.order,
        }
    }
}

impl DataValue {
    pub fn new(value: &str, order: Option<i32>) -> (r: Self)
        ensures
            r@ == (DataValueModel { value: value@, order }),
    {
        DataValue { value: String::from_str(value), order }
    }

    pub fn value(&self) -> (r: &str)
        ensures
            r@ == self@.value,
    {
        self.value.as_str()
    }

    pub fn order(&self) -> (r: Option<i32>)
        ensures
            r == self@.order,
    {
        self.order
    }
}

/// The abstract content of a [`ValueList`].
pub struct ValueListModel {
    pub language: Language,
    pub values: Seq<DataValue>,
}

/// One language-specific ISO 23387 `ValueListType`; it holds at least one value.
#[derive(Debug, PartialEq, Eq)]
pub struct ValueList {
    language: Language,
    values: Vec<DataValue>,
}

impl View for ValueList {
    type V = ValueListModel;

    closed spec fn view(&self) -> ValueListModel {
        ValueListModel {
            language: self.language,
            values: self.values@,
        }
    }
}

impl ValueList {
    /// A value list is never empty.
    #[verifier::type_invariant]
    spec fn holds_a_value(self) -> bool {
        self.values@.len() >= 1
    }

    pub fn new(language: Language, first_value: DataValue) -> (r: Self)
        ensures
            r@ == (ValueListModel { language, values: seq![first_value] }),
    {
        let mut values = Vec::new();
        values.push(first_value);
        ValueList { language, values }
    }

    /// The list language.
    pub fn language(&self) -> (r: &Language)
        ensures
            *r == self@.language,
    {
        &self.language
    }

    /// The values, in order.
    pub fn values(&self) -> (r: &[DataValue])
        ensures
            r@ == self@.values,
            r@.len() >= 1,
    {
        proof {
            use_type_invariant(self);
        }
        self.values.as_slice()
    }

    /// Appends a value.
    pub fn add_value(&mut self, value: DataValue)
        ensures
            final(self)@ == (ValueListModel { values: old(self)@.values.push(value), ..old(self)@ }),
    {
        proof {
            use_type_invariant(&*self);
        }
        let mut previous = ValueList { language: self.language.clone(), values: vec![value.clone()] };
        std::mem::swap(self, &mut previous);
        proof {
            use_type_invariant(&previous);
        }
        let ValueList { language, mut values } = previous;
        values.push(value);
        *self = ValueList { language, values };
    }
}

impl Clone for ValueList {
    fn clone(&self) -> (r: Self)
        ensures
            r@.values.len() == self@.values.len(),
    {
        proof {
            use_type_invariant(self);
        }
        ValueList { language: self.language.clone(), values: self.values.clone() }
    }
}

/// One constraint carried by `DataTypeType`.
#[derive(Debug, Clone, PartialEq, Eq)]
pub enum DataTypeConstraint {
    MinInclusive(String),
    MinExclusive(String),
    MaxInclusive(String),
    MaxExclusive(String),
}

/// The abstract content of a [`DataType`].
pub struct DataTypeModel {
    pub name: Option<DataTypeName>,
    pub constraints: Seq<DataTypeConstraint>,
    pub data_formats: Seq<String>,
    pub possible_values: Seq<ValueList>,
}

/// ISO 23387 `DataTypeType`.
#[derive(Debug, Clone, PartialEq, Eq)]
pub struct DataType {
    name: Option<DataTypeName>,
    constraints: Vec<DataTypeConstraint>,
    data_formats: Vec<String>,
    possible_values: Vec<ValueList>,
}

impl View for DataType {
    type V = DataTypeModel;

    closed spec fn view(&self) -> DataTypeModel {
        DataTypeModel {
            name: self.name,
            constraints: self.constraints@,
            data_formats: self.data_formats@,
            possible_values: self.possible_values@,
        }
    }
}

impl DataType {
    pub fn new(name: Option<DataTypeName>) -> (r: Self)
        ensures
            r@ == (DataTypeModel {
                name,
                constraints: Seq::empty(),
                data_formats: Seq::empty(),
                possible_values: Seq::empty(),
            }),
    {
        DataType {
            name,
            constraints: Vec::new(),
            data_formats: Vec::new(),
            possible_values: Vec::new(),
        }
    }

    /// The data-type name, when present.
    pub fn name(&self) -> (r: Option<&DataTypeName>)
        ensures
            r == match self@.name {
                Some(x) => Some(&x),
                None => None::<&DataTypeName>,
            },
    {
        match &self.name {
            Some(x) => Some(x),
            None => None,
        }
    }

    /// Boundary constraints, in order.
    pub fn constraints(&self) -> (r: &[DataTypeConstraint])
        ensures
            r@ == self@.constraints,
    {
        self.constraints.as_slice()
    }

    /// `DataFormat` values.
    pub fn data_formats(&self) -> (r: &[String])
        ensures
            r@ == self@.data_formats,
    {
        self.data_formats.as_slice()
    }

    /// `PossibleValues` lists.
    pub fn possible_values(&self) -> (r: &[ValueList])
        ensures
            r@ == self@.possible_values,
    {
        self.possible_values.as_slice()
    }

    /// Appends a constraint.
    pub fn add_constraint(&mut self, value: DataTypeConstraint)
        ensures
            final(self)@ == (DataTypeModel { constraints: old(self)@.constraints.push(value), ..old(self)@ }),
    {
        self.constraints.push(value);
    }

    /// Appends a `DataFormat` value.
    pub fn add_data_format(&mut self, value: &str)
        ensures
            final(self)@.data_formats.len() == old(self)@.data_formats.len() + 1,
            final(self)@.data_formats.last()@ == value@,
            final(self)@.data_formats.drop_last() == old(self)@.data_formats,
            final(self)@ == (DataTypeModel { data_formats: final(self)@.data_formats, ..old(self)@ }),
    {
        self.data_formats.push(String::from_str(value));
    }

    /// Appends a value list.
    pub fn add_possible_values(&mut self, value: ValueList)
        ensures
            final(self)@ == (DataTypeModel { possible_values: old(self)@.possible_values.push(value), ..old(self)@ }),
    {
        self.possible_values.push(value);
    }
}

/// The abstract content of a [`Property`].
pub struct PropertyModel {
    pub concept: Concept,
    pub data_type: DataType,
    pub symbols: Seq<String>,
    pub dimension_refs: Seq<Reference>,
    pub unit_refs: Seq<Reference>,
    pub quantity_kind_refs: Seq<Reference>,
    pub dependency_refs: Seq<Reference>,
    pub specialization_ref: Option<Reference>,
}

/// ISO 23387 `PropertyType`.
#[derive(Debug, Clone, PartialEq, Eq)]
pub struct Property {
    concept: Concept,
    data_type: DataType,
    symbols: Vec<String>,
    dimension_refs: Vec<Reference>,
    unit_refs: Vec<Reference>,
    quantity_kind_refs: Vec<Reference>,
    dependency_refs: Vec<Reference>,
    specialization_ref: Option<Reference>,
}

impl View for Property {
    type V = PropertyModel;

    closed spec fn view(&self) -> PropertyModel {
        PropertyModel {
            concept: self.concept,
            data_type: self.data_type,
            symbols: self.symbols@,
            dimension_refs: self.dimension_refs@,
            unit_refs: self.unit_refs@,
            quantity_kind_refs: self.quantity_kind_refs@,
            dependency_refs: self.dependency_refs@,
            specialization_ref: self.specialization_ref,
        }
    }
}

impl Property {
    pub fn new(concept: Concept, data_type: DataType) -> (r: Self)
        ensures
            r@ == (PropertyModel {
                concept,
                data_type,
                symbols: Seq::empty(),
                dimension_refs: Seq::empty(),
                unit_refs: Seq::empty(),
                quantity_kind_refs: Seq::empty(),
                dependency_refs: Seq::empty(),
                specialization_ref: None,
            }),
    {
        Property {
            concept,
            data_type,
            symbols: Vec::new(),
            dimension_refs: Vec::new(),
            unit_refs: Vec::new(),
            quantity_kind_refs: Vec::new(),
            dependency_refs: Vec::new(),
            specialization_ref: None,
        }
    }

    /// The concept core.
    pub fn concept(&self) -> (r: &Concept)
        ensures
            *r == self@.concept,
    {
        &self.concept
    }

    /// The data type.
    pub fn data_type(&self) -> (r: &DataType)
        ensures
            *r == self@.data_type,
    {
        &self.data_type
    }

    /// `Symbol` children.
    pub fn symbols(&self) -> (r: &[String])
        ensures
            r@ == self@.symbols,
    {
        self.symbols.as_slice()
    }

    /// The first `DimensionRef`, when present.
    pub fn dimension_ref(&self) -> (r: Option<&Reference>)
        ensures
            r is Some <==> self@.dimension_refs.len() > 0,
            r matches Some(x) ==> *x == self@.dimension_refs[0],
    {
        if self.dimension_refs.len() > 0 {
            Some(&self.dimension_refs[0])
        } else {
            None
        }
    }

    /// `DimensionRef` children.
    pub fn dimension_refs(&self) -> (r: &[Reference])
        ensures
            r@ == self@.dimension_refs,
    {
        self.dimension_refs.as_slice()
    }

    /// `UnitRef` children.
    pub fn unit_refs(&self) -> (r: &[Reference])
        ensures
            r@ == self@.unit_refs,
    {
        self.unit_refs.as_slice()
    }

    /// `QuantityKindRef` children.
    pub fn quantity_kind_refs(&self) -> (r: &[Reference])
        ensures
            r@ == self@.quantity_kind_refs,
    {
        self.quantity_kind_refs.as_slice()
    }

    /// `IsDependentOnRef` children.
    pub fn dependency_refs(&self) -> (r: &[Reference])
        ensures
            r@ == self@.dependency_refs,
    {
        self.dependency_refs.as_slice()
    }

    /// The `IsSpecializationOfRef`, when present.
    pub fn specialization_ref(&self) -> (r: Option<&Reference>)
        ensures
            r == match self@.specialization_ref {
                Some(x) => Some(&x),
                None => None::<&Reference>,
            },
    {
        match &self.specialization_ref {
            Some(x) => Some(x),
            None => None,
        }
    }

    /// Appends a `Symbol`.
    pub fn add_symbol(&mut self, value: &str)
        ensures
            final(self)@.symbols.len() == old(self)@.symbols.len() + 1,
            final(self)@.symbols.last()@ == value@,
            final(self)@.symbols.drop_last() == old(self)@.symbols,
            final(self)@ == (PropertyModel { symbols: final(self)@.symbols, ..old(self)@ }),
    {
        self.symbols.push(String::from_str(value));
    }

    /// Replaces every `DimensionRef` with at most one.
    pub fn set_dimension_ref(&mut self, value: Option<Reference>)
        ensures
            final(self)@ == (PropertyModel {
                dimension_refs: match value {
                    Some(x) => seq![x],
                    None => Seq::empty(),
                },
                ..old(self)@
            }),
    {
        self.dimension_refs = Vec::new();
        match value {
            Some(x) => self.dimension_refs.push(x),
            None => {},
        }
    }

    /// Appends a `DimensionRef`.
    pub fn add_dimension_ref(&mut self, value: Reference)
        ensures
            final(self)@ == (PropertyModel { dimension_refs: old(self)@.dimension_refs.push(value), ..old(self)@ }),
    {
        self.dimension_refs.push(value);
    }

    /// Appends a `UnitRef`.
    pub fn add_unit_ref(&mut self, value: Reference)
        ensures
            final(self)@ == (PropertyModel { unit_refs: old(self)@.unit_refs.push(value), ..old(self)@ }),
    {
        self.unit_refs.push(value);
    }

    /// Appends a `QuantityKindRef`.
    pub fn add_quantity_kind_ref(&mut self, value: Reference)
        ensures
            final(self)@ == (PropertyModel { quantity_kind_refs: old(self)@.quantity_kind_refs.push(value), ..old(self)@ }),
    {
        self.quantity_kind_refs.push(value);
    }

    /// Appends an `IsDependentOnRef`.
    pub fn add_dependency_ref(&mut self, value: Reference)
        ensures
            final(self)@ == (PropertyModel { dependency_refs: old(self)@.dependency_refs.push(value), ..old(self)@ }),
    {
        self.dependency_refs.push(value);
    }

    /// Sets the `IsSpecializationOfRef`.
    pub fn set_specialization_ref(&mut self, value: Option<Reference>)
        ensures
            final(self)@ == (PropertyModel { specialization_ref: value, ..old(self)@ }),
    {
        self.specialization_ref = value;
    }
}

/// The abstract content of a [`QuantityKind`].
pub struct QuantityKindModel {
    pub concept: Concept,
    pub dimension_ref: Reference,
}

/// ISO 23387 `QuantityKindType`.
#[derive(Debug, Clone, PartialEq, Eq)]
pub struct QuantityKind {
    concept: Concept,
    dimension_ref: Reference,
}

impl View for QuantityKind {
    type V = QuantityKindModel;

    closed spec fn view(&self) -> QuantityKindModel {
        QuantityKindModel {
            concept: self.concept,
            dimension_ref: self.dimension_ref,
        }
    }
}

impl QuantityKind {
    pub fn new(concept: Concept, dimension_ref: Reference) -> (r: Self)
        ensures
            r@ == (QuantityKindModel { concept, dimension_ref }),
    {
        QuantityKind { concept, dimension_ref }
    }

    /// The concept core.
    pub fn concept(&self) -> (r: &Concept)
        ensures
            *r == self@.concept,
    {
        &self.concept
    }

    /// The `DimensionRef`.
    pub fn dimension_ref(&self) -> (r: &Reference)
        ensures
            *r == self@.dimension_ref,
    {
        &self.dimension_ref
    }
}

/// The abstract content of a [`GroupOfProperties`].
pub struct GroupOfPropertiesModel {
    pub subject: Subject,
    pub property_refs: Seq<Reference>,
}

/// ISO 23387 `GroupOfPropertiesType`; it holds at least one property reference.
#[derive(Debug, Clone, PartialEq, Eq)]
pub struct GroupOfProperties {
    subject: Subject,
    property_refs: Vec<Reference>,
}

impl View for GroupOfProperties {
    type V = GroupOfPropertiesModel;

    closed spec fn view(&self) -> GroupOfPropertiesModel {
        GroupOfPropertiesModel {
            subject: self.subject,
            property_refs: self.property_refs@,
        }
    }
}

impl GroupOfProperties {
    pub fn new(subject: Subject, first_property_ref: Reference) -> (r: Self)
        ensures
            r@ == (GroupOfPropertiesModel { subject, property_refs: seq![first_property_ref] }),
    {
        let mut property_refs = Vec::new();
        property_refs.push(first_property_ref);
        GroupOfProperties { subject, property_refs }
    }

    /// The subject core.
    pub fn subject(&self) -> (r: &Subject)
        ensures
            *r == self@.subject,
    {
        &self.subject
    }

    /// `HasPropertyRef` children.
    pub fn property_refs(&self) -> (r: &[Reference])
        ensures
            r@ == self@.property_refs,
    {
        self.property_refs.as_slice()
    }

    /// Appends a `HasPropertyRef`.
    pub fn add_property_ref(&mut self, value: Reference)
        ensures
            final(self)@ == (GroupOfPropertiesModel { property_refs: old(self)@.property_refs.push(value), ..old(self)@ }),
    {
        self.property_refs.push(value);
    }
}

/// The abstract content of a [`ReferenceDocument`].
pub struct ReferenceDocumentModel {
    pub concept: Concept,
    pub languages: Seq<Language>,
    pub date_of_publication: Option<DateTime>,
    pub author: Option<String>,
    pub isbn: Option<String>,
    pub publisher: Option<String>,
    pub uri: Option<AnyUri>,
}

/// ISO 23387 `ReferenceDocumentType`; it holds at least one language.
#[derive(Debug, Clone, PartialEq, Eq)]
pub struct ReferenceDocument {
    concept: Concept,
    languages: Vec<Language>,
    date_of_publication: Option<DateTime>,
    author: Option<String>,
    isbn: Option<String>,
    publisher: Option<String>,
    uri: Option<AnyUri>,
}

impl View for ReferenceDocument {
    type V = ReferenceDocumentModel;

    closed spec fn view(&self) -> ReferenceDocumentModel {
        ReferenceDocumentModel {
            concept: self.concept,
            languages: self.languages@,
            date_of_publication: self.date_of_publication,
            author: self.author,
            isbn: self.isbn,
            publisher: self.publisher,
            uri: self.uri,
        }
    }
}

impl ReferenceDocument {
    pub fn new(concept: Concept, first_language: Language) -> (r: Self)
        ensures
            r@ == (ReferenceDocumentModel {
                concept,
                languages: seq![first_language],
                date_of_publication: None,
                author: None,
                isbn: None,
                publisher: None,
                uri: None,
            }),
    {
        let mut languages = Vec::new();
        languages.push(first_language);
        ReferenceDocument {
            concept,
            languages,
            date_of_publication: None,
            author: None,
            isbn: None,
            publisher: None,
            uri: None,
        }
    }

    /// The concept core.
    pub fn concept(&self) -> (r: &Concept)
        ensures
            *r == self@.concept,
    {
        &self.concept
    }

    /// `Language` children.
    pub fn languages(&self) -> (r: &[Language])
        ensures
            r@ == self@.languages,
    {
        self.languages.as_slice()
    }

    /// Appends a `Language`.
    pub fn add_language(&mut self, value: Language)
        ensures
            final(self)@ == (ReferenceDocumentModel { languages: old(self)@.languages.push(value), ..old(self)@ }),
    {
        self.languages.push(value);
    }

    /// The `DateOfPublication`, when present.
    pub fn date_of_publication(&self) -> (r: Option<&DateTime>)
        ensures
            r == match self@.date_of_publication {
                Some(x) => Some(&x),
                None => None::<&DateTime>,
            },
    {
        match &self.date_of_publication {
            Some(x) => Some(x),
            None => None,
        }
    }

    /// Sets the `DateOfPublication`.
    pub fn set_date_of_publication(&mut self, value: Option<DateTime>)
        ensures
            final(self)@ == (ReferenceDocumentModel { date_of_publication: value, ..old(self)@ }),
    {
        self.date_of_publication = value;
    }

    /// The `Author`, when present.
    pub fn author(&self) -> (r: Option<&str>)
        ensures
            r is Some <==> self@.author is Some,
            r matches Some(s) ==> s@ == self@.author->0@,
    {
        match &self.author {
            Some(x) => Some(x.as_str()),
            None => None,
        }
    }

    /// Sets the `Author`.
    pub fn set_author(&mut self, value: Option<String>)
        ensures
            final(self)@ == (ReferenceDocumentModel { author: value, ..old(self)@ }),
    {
        self.author = value;
    }

    /// The `ISBN`, when present.
    pub fn isbn(&self) -> (r: Option<&str>)
        ensures
            r is Some <==> self@.isbn is Some,
            r matches Some(s) ==> s@ == self@.isbn->0@,
    {
        match &self.isbn {
            Some(x) => Some(x.as_str()),
            None => None,
        }
    }

    /// Sets the `ISBN`.
    pub fn set_isbn(&mut self, value: Option<String>)
        ensures
            final(self)@ == (ReferenceDocumentModel { isbn: value, ..old(self)@ }),
    {
        self.isbn = value;
    }

    /// The `Publisher`, when present.
    pub fn publisher(&self) -> (r: Option<&str>)
        ensures
            r is Some <==> self@.publisher is Some,
            r matches Some(s) ==> s@ == self@.publisher->0@,
    {
        match &self.publisher {
            Some(x) => Some(x.as_str()),
            None => None,
        }
    }

    /// Sets the `Publisher`.
    pub fn set_publisher(&mut self, value: Option<String>)
        ensures
            final(self)@ == (ReferenceDocumentModel { publisher: value, ..old(self)@ }),
    {
        self.publisher = value;
    }

    /// The `URI`, when present.
    pub fn uri(&self) -> (r: Option<&str>)
        ensures
            r is Some <==> self@.uri is Some,
            r matches Some(s) ==> s@ == self@.uri->0@,
            r matches Some(s) ==> spec_is_any_uri(s@) && spec_collapse(s@) == s@,
    {
        match &self.uri {
            Some(x) => Some(x.as_str()),
            None => None,
        }
    }

    /// Sets the `URI`.
    pub fn set_uri(&mut self, value: Option<AnyUri>)
        ensures
            final(self)@ == (ReferenceDocumentModel { uri: value, ..old(self)@ }),
    {
        self.uri = value;
    }
}

/// The abstract content of a [`Dimension`].
pub struct DimensionModel {
    pub concept: Concept,
    pub exponents: Seq<Decimal>,
}

/// Seven SI base-dimension exponents in Annex E declaration order.
#[derive(Debug, Clone, PartialEq, Eq)]
pub struct Dimension {
    concept: Concept,
    exponents: [Decimal; 7],
}

impl View for Dimension {
    type V = DimensionModel;

    closed spec fn view(&self) -> DimensionModel {
        DimensionModel {
            concept: self.concept,
            exponents: self.exponents@,
        }
    }
}

impl Dimension {
    pub fn new(concept: Concept, exponents: [Decimal; 7]) -> (r: Self)
        ensures
            r@ == (DimensionModel { concept, exponents: exponents@ }),
    {
        Dimension { concept, exponents }
    }

    /// The concept core.
    pub fn concept(&self) -> (r: &Concept)
        ensures
            *r == self@.concept,
    {
        &self.concept
    }

    /// The exponents for amount of substance, electric current, length,
    /// luminous intensity, mass, thermodynamic temperature and time.
    pub fn exponents(&self) -> (r: &[Decimal; 7])
        ensures
            r@ == self@.exponents,
    {
        &self.exponents
    }
}

/// The abstract content of a [`Unit`].
pub struct UnitModel {
    pub concept: Concept,
    pub symbols: Seq<MultiLanguageText>,
    pub dimension_ref: Reference,
    pub scale: Scale,
    pub base: Base,
    pub coefficient: Rational,
    pub offset: Rational,
}

/// ISO 23387 `UnitType`, with all required scalar and reference fields present.
#[derive(Debug, Clone, PartialEq, Eq)]
pub struct Unit {
    concept: Concept,
    symbols: Vec<MultiLanguageText>,
    dimension_ref: Reference,
    scale: Scale,
    base: Base,
    coefficient: Rational,
    offset: Rational,
}

impl View for Unit {
    type V = UnitModel;

    closed spec fn view(&self) -> UnitModel {
        UnitModel {
            concept: self.concept,
            symbols: self.symbols@,
            dimension_ref: self.dimension_ref,
            scale: self.scale,
            base: self.base,
            coefficient: self.coefficient,
            offset: self.offset,
        }
    }
}

impl Unit {
    pub fn new(
        concept: Concept,
        dimension_ref: Reference,
        scale: Scale,
        base: Base,
        coefficient: Rational,
        offset: Rational,
    ) -> (r: Self)
        ensures
            r@ == (UnitModel {
                concept,
                symbols: Seq::empty(),
                dimension_ref,
                scale,
                base,
                coefficient,
                offset,
            }),
    {
        Unit { concept, symbols: Vec::new(), dimension_ref, scale, base, coefficient, offset }
    }

    /// The concept core.
    pub fn concept(&self) -> (r: &Concept)
        ensures
            *r == self@.concept,
    {
        &self.concept
    }

    /// `Symbol` children.
    pub fn symbols(&self) -> (r: &[MultiLanguageText])
        ensures
            r@ == self@.symbols,
    {
        self.symbols.as_slice()
    }

    /// Appends a `Symbol`.
    pub fn add_symbol(&mut self, value: MultiLanguageText)
        ensures
            final(self)@ == (UnitModel { symbols: old(self)@.symbols.push(value), ..old(self)@ }),
    {
        self.symbols.push(value);
    }

    /// The `DimensionRef`.
    pub fn dimension_ref(&self) -> (r: &Reference)
        ensures
            *r == self@.dimension_ref,
    {
        &self.dimension_ref
    }

    /// The `Scale`.
    pub fn scale(&self) -> (r: &Scale)
        ensures
            *r == self@.scale,
    {
        &self.scale
    }

    /// The `Base`.
    pub fn base(&self) -> (r: &Base)
        ensures
            *r == self@.base,
    {
        &self.base
    }

    /// The `Coefficient`.
    pub fn coefficient(&self) -> (r: &Rational)
        ensures
            *r == self@.coefficient,
    {
        &self.coefficient
    }

    /// The `Offset`.
    pub fn offset(&self) -> (r: &Rational)
        ensures
            *r == self@.offset,
    {
        &self.offset
    }
}

/// The abstract content of a [`DataTemplate`].
pub struct DataTemplateModel {
    pub subject: Subject,
    pub object_type_refs: Seq<Reference>,
    pub property_refs: Seq<Reference>,
    pub group_of_properties_refs: Seq<Reference>,
}

/// ISO 23387 `DataTemplateType`.
#[derive(Debug, Clone, PartialEq, Eq)]
pub struct DataTemplate {
    subject: Subject,
    object_type_refs: Vec<Reference>,
    property_refs: Vec<Reference>,
    group_of_properties_refs: Vec<Reference>,
}

impl View for DataTemplate {
    type V = DataTemplateModel;

    closed spec fn view(&self) -> DataTemplateModel {
        DataTemplateModel {
            subject: self.subject,
            object_type_refs: self.object_type_refs@,
            property_refs: self.property_refs@,
            group_of_properties_refs: self.group_of_properties_refs@,
        }
    }
}

impl DataTemplate {
    pub fn new(subject: Subject) -> (r: Self)
        ensures
            r@ == (DataTemplateModel {
                subject,
                object_type_refs: Seq::empty(),
                property_refs: Seq::empty(),
                group_of_properties_refs: Seq::empty(),
            }),
    {
        DataTemplate {
            subject,
            object_type_refs: Vec::new(),
            property_refs: Vec::new(),
            group_of_properties_refs: Vec::new(),
        }
    }

    /// The subject core.
    pub fn subject(&self) -> (r: &Subject)
        ensures
            *r == self@.subject,
    {
        &self.subject
    }

    /// The first `HasObjectTypeRef`, when present.
    pub fn object_type_ref(&self) -> (r: Option<&Reference>)
        ensures
            r is Some <==> self@.object_type_refs.len() > 0,
            r matches Some(x) ==> *x == self@.object_type_refs[0],
    {
        if self.object_type_refs.len() > 0 {
            Some(&self.object_type_refs[0])
        } else {
            None
        }
    }

    /// `HasObjectTypeRef` children.
    pub fn object_type_refs(&self) -> (r: &[Reference])
        ensures
            r@ == self@.object_type_refs,
    {
        self.object_type_refs.as_slice()
    }

    /// `HasPropertyRef` children.
    pub fn property_refs(&self) -> (r: &[Reference])
        ensures
            r@ == self@.property_refs,
    {
        self.property_refs.as_slice()
    }

    /// Appends a `HasPropertyRef`.
    pub fn add_property_ref(&mut self, value: Reference)
        ensures
            final(self)@ == (DataTemplateModel { property_refs: old(self)@.property_refs.push(value), ..old(self)@ }),
    {
        self.property_refs.push(value);
    }

    /// `HasGroupOfPropertiesRef` children.
    pub fn group_of_properties_refs(&self) -> (r: &[Reference])
        ensures
            r@ == self@.group_of_properties_refs,
    {
        self.group_of_properties_refs.as_slice()
    }

    /// Appends a `HasGroupOfPropertiesRef`.
    pub fn add_group_of_properties_ref(&mut self, value: Reference)
        ensures
            final(self)@ == (DataTemplateModel { group_of_properties_refs: old(self)@.group_of_properties_refs.push(value), ..old(self)@ }),
    {
        self.group_of_properties_refs.push(value);
    }

    /// Replaces every `HasObjectTypeRef` with at most one.
    pub fn set_object_type_ref(&mut self, value: Option<Reference>)
        ensures
            final(self)@ == (DataTemplateModel {
                object_type_refs: match value {
                    Some(x) => seq![x],
                    None => Seq::empty(),
                },
                ..old(self)@
            }),
    {
        self.object_type_refs = Vec::new();
        match value {
            Some(x) => self.object_type_refs.push(x),
            None => {},
        }
    }

    /// Appends a `HasObjectTypeRef`.
    pub fn add_object_type_ref(&mut self, value: Reference)
        ensures
            final(self)@ == (DataTemplateModel { object_type_refs: old(self)@.object_type_refs.push(value), ..old(self)@ }),
    {
        self.object_type_refs.push(value);
    }
}


impl Subject {
    /// Assembles a subject from its concept and reference lists.
    pub(crate) fn assembled(concept: Concept, has_part_refs: Vec<Reference>, is_subtype_of_refs: Vec<Reference>) -> (r: Self)
        ensures
            r@ == (SubjectModel { concept, has_part_refs: has_part_refs@, is_subtype_of_refs: is_subtype_of_refs@ }),
    {
        Subject { concept, has_part_refs, is_subtype_of_refs }
    }
}

impl ValueList {
    /// Assembles a list from its language and at least one value.
    pub(crate) fn assembled(language: Language, values: Vec<DataValue>) -> (r: Self)
        requires
            values@.len() > 0,
        ensures
            r@ == (ValueListModel { language, values: values@ }),
    {
        ValueList { language, values }
    }
}

impl DataType {
    /// Assembles a data type from its name and child lists.
    pub(crate) fn assembled(
        name: Option<DataTypeName>,
        constraints: Vec<DataTypeConstraint>,
        data_formats: Vec<String>,
        possible_values: Vec<ValueList>,
    ) -> (r: Self)
        ensures
            r@ == (DataTypeModel {
                name,
                constraints: constraints@,
                data_formats: data_formats@,
                possible_values: possible_values@,
            }),
    {
        DataType { name, constraints, data_formats, possible_values }
    }
}

impl Property {
    /// Assembles a property from every part.
    pub(crate) fn assembled(
        concept: Concept,
        data_type: DataType,
        symbols: Vec<String>,
        dimension_refs: Vec<Reference>,
        unit_refs: Vec<Reference>,
        quantity_kind_refs: Vec<Reference>,
        dependency_refs: Vec<Reference>,
        specialization_ref: Option<Reference>,
    ) -> (r: Self)
        ensures
            r@ == (PropertyModel {
                concept,
                data_type,
                symbols: symbols@,
                dimension_refs: dimension_refs@,
                unit_refs: unit_refs@,
                quantity_kind_refs: quantity_kind_refs@,
                dependency_refs: dependency_refs@,
                specialization_ref,
            }),
    {
        Property {
            concept,
            data_type,
            symbols,
            dimension_refs,
            unit_refs,
            quantity_kind_refs,
            dependency_refs,
            specialization_ref,
        }
    }
}

impl GroupOfProperties {
    /// Assembles a group from its subject and at least one property reference.
    pub(crate) fn assembled(subject: Subject, property_refs: Vec<Reference>) -> (r: Self)
        requires
            property_refs@.len() > 0,
        ensures
            r@ == (GroupOfPropertiesModel { subject, property_refs: property_refs@ }),
    {
        GroupOfProperties { subject, property_refs }
    }
}

impl ReferenceDocument {
    /// Assembles a reference document from every part; at least one language.
    pub(crate) fn assembled(
        concept: Concept,
        languages: Vec<Language>,
        date_of_publication: Option<DateTime>,
        author: Option<String>,
        isbn: Option<String>,
        publisher: Option<String>,
        uri: Option<AnyUri>,
    ) -> (r: Self)
        requires
            languages@.len() > 0,
        ensures
            r@ == (ReferenceDocumentModel {
                concept,
                languages: languages@,
                date_of_publication,
                author,
                isbn,
                publisher,
                uri,
            }),
    {
        ReferenceDocument { concept, languages, date_of_publication, author, isbn, publisher, uri }
    }
}

impl Unit {
    /// Assembles a unit from every part.
    pub(crate) fn assembled(
        concept: Concept,
        symbols: Vec<MultiLanguageText>,
        dimension_ref: Reference,
        scale: Scale,
        base: Base,
        coefficient: Rational,
        offset: Rational,
    ) -> (r: Self)
        ensures
            r@ == (UnitModel { concept, symbols: symbols@, dimension_ref, scale, base, coefficient, offset }),
    {
        Unit { concept, symbols, dimension_ref, scale, base, coefficient, offset }
    }
}

impl DataTemplate {
    /// Assembles a data template from its subject and reference lists.
    pub(crate) fn assembled(
        subject: Subject,
        object_type_refs: Vec<Reference>,
        property_refs: Vec<Reference>,
        group_of_properties_refs: Vec<Reference>,
    ) -> (r: Self)
        ensures
            r@ == (DataTemplateModel {
                subject,
                object_type_refs: object_type_refs@,
                property_refs: property_refs@,
                group_of_properties_refs: group_of_properties_refs@,
            }),
    {
        DataTemplate { subject, object_type_refs, property_refs, group_of_properties_refs }
    }
}

} // verus!
