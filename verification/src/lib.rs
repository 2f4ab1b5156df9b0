//! ISO 23387 data templates: lexical contracts, owned types, a bounded
//! namespace-aware XML reader, writers, and validation.

use vstd::prelude::*;

pub mod text;
pub mod value;
pub mod domain;
pub mod document;
pub mod parser;
pub mod model;
pub mod codec;
pub mod namespaces;
pub mod schema;
pub mod pattern;
pub mod conformance;
pub mod cli;
pub mod round_trip;
pub mod decodable;

pub use codec::{CodecError, CodecErrorKind};
pub use conformance::{SchemaReport, SchemaViolation, SchemaViolationCode};
pub use document::{Attribute, Document, Element, ExactWriteError, Node, WriteError, XmlDeclaration};
pub use model::{
    ConceptRef, DataTemplateElement, DataTemplateRef, DataTypeRef, Diagnostic, DiagnosticCode,
    DimensionElement, ElementKind, GroupOfPropertiesElement, Library, LibraryElement, LibraryItem,
    ModelError, MultilingualTextRef, ObjectTypeElement, PropertyElement, PropertyRef,
    QuantityKindElement, ReferenceDocumentElement, ReferenceRef, Severity, SubjectElement,
    TypedElement, UnitElement,
};
pub use parser::{ParseError, ParseErrorKind, ParseOptions};
pub use domain::{
    DataTemplate, DataType, DataTypeConstraint, DataValue, Dimension, GroupOfProperties,
    ObjectType, Property, QuantityKind, ReferenceDocument, Subject, Unit, ValueList,
};
pub use value::{
    AnyUri, Base, Base64Binary, Concept, DataTypeName, DateTime, Decimal, Guid, Language,
    MultiLanguageText, NonNegativeInteger, PositiveInteger, Rational, Reference, Scale,
    ValueError, ValueErrorKind,
};

verus! {

/// The XML namespace declared by ISO 23387 edition 2.
pub const NAMESPACE: &'static str = "https://standards.iso.org/iso/23387/ed-2/en/";

/// A placeholder namespace found in pre-release ISO 23387 schema drafts.
pub const DRAFT_PLACEHOLDER_NAMESPACE: &'static str = "http://tempuri.org/XMLSchema.xsd";

} // verus!
