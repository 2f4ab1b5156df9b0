//! Typed ISO 23387 views over the lossless XML tree.

use vstd::prelude::*;

use crate::document::{
    attribute_lookup, elements_of, lemma_child_decreases, opt_str_view, text_of, Document, Element, Node,
};
use crate::text::{push_char, spec_collapse, str_eq};
use crate::value::{
    data_type_name_str, is_known_data_type_name, spec_is_any_uri, spec_is_datetime, spec_is_guid,
    spec_is_language, AnyUri, DataTypeName, DateTime, Guid, Language, MultiLanguageText, Reference,
    ValueError, ValueErrorKind,
};
use crate::{DRAFT_PLACEHOLDER_NAMESPACE, NAMESPACE};

verus! {

/// Recognized ISO 23387 element kinds, including local `Library` children.
#[derive(Debug, Clone, Copy, PartialEq, Eq, Hash, Structural)]
pub enum ElementKind {
    Library,
    Subject,
    DataTemplate,
    ObjectType,
    GroupOfProperties,
    Property,
    Unit,
    Dimension,
    QuantityKind,
    ReferenceDocument,
}

/// The kinds Annex E declares as concrete global document roots.
pub open spec fn spec_is_global_root(kind: ElementKind) -> bool {
    kind is Library || kind is DataTemplate || kind is ObjectType || kind is GroupOfProperties
        || kind is Property
}

/// The kind named by a local name in the ISO 23387 namespace.
pub open spec fn kind_named(local: Seq<char>) -> Option<ElementKind> {
    if local == "Library"@ {
        Some(ElementKind::Library)
    } else if local == "Subject"@ {
        Some(ElementKind::Subject)
    } else if local == "DataTemplate"@ {
        Some(ElementKind::DataTemplate)
    } else if local == "ObjectType"@ {
        Some(ElementKind::ObjectType)
    } else if local == "GroupOfProperties"@ {
        Some(ElementKind::GroupOfProperties)
    } else if local == "Property"@ {
        Some(ElementKind::Property)
    } else if local == "Unit"@ {
        Some(ElementKind::Unit)
    } else if local == "Dimension"@ {
        Some(ElementKind::Dimension)
    } else if local == "QuantityKind"@ {
        Some(ElementKind::QuantityKind)
    } else if local == "ReferenceDocument"@ {
        Some(ElementKind::ReferenceDocument)
    } else {
        None
    }
}

/// Whether an element is in the ISO 23387 namespace.
pub open spec fn in_dt(e: Element) -> bool {
    e.spec_namespace() == Some(NAMESPACE@)
}

/// Whether an element is the ISO 23387 element `local`.
pub open spec fn is_dt(e: Element, local: Seq<char>) -> bool {
    in_dt(e) && e.spec_local_name() == local
}

/// The kind of an element, if it is a recognized ISO 23387 element.
pub open spec fn kind_of(e: Element) -> Option<ElementKind> {
    if in_dt(e) {
        kind_named(e.spec_local_name())
    } else {
        None
    }
}

/// The kind of a document's root, if it is a global root.
pub open spec fn spec_root_kind(root: Element) -> Option<ElementKind> {
    match kind_of(root) {
        Some(k) => if spec_is_global_root(k) {
            Some(k)
        } else {
            None
        },
        None => None,
    }
}

/// The ISO 23387 `GUID` attribute of an element.
pub open spec fn guid_attr(e: Element) -> Option<Seq<char>> {
    attribute_lookup(e.spec_attributes(), Some(NAMESPACE@), "GUID"@)
}

/// The unqualified attribute `local` of an element.
pub open spec fn plain_attr(e: Element, local: Seq<char>) -> Option<Seq<char>> {
    attribute_lookup(e.spec_attributes(), None, local)
}

/// The child elements of an element.
pub open spec fn children_of(e: Element) -> Seq<Element> {
    elements_of(e.spec_nodes())
}

/// The elements of `items` that are the ISO 23387 element `local`, in order.
pub open spec fn dt_named(items: Seq<Element>, local: Seq<char>) -> Seq<Element>
    decreases items.len(),
{
    if items.len() == 0 {
        Seq::empty()
    } else if is_dt(items.last(), local) {
        dt_named(items.drop_last(), local).push(items.last())
    } else {
        dt_named(items.drop_last(), local)
    }
}

/// Whether `e` lies in the ISO 23387 namespace.
pub fn is_in_dt(e: &Element) -> (r: bool)
    ensures
        r == in_dt(*e),
{
    match e.namespace_uri() {
        Some(ns) => str_eq(ns, NAMESPACE),
        None => false,
    }
}

/// Whether `e` is the ISO 23387 element `local`.
pub fn element_is_dt(e: &Element, local: &str) -> (r: bool)
    ensures
        r == is_dt(*e, local@),
{
    is_in_dt(e) && str_eq(e.local_name(), local)
}

/// The ISO 23387 children of `e` named `local`, in document order.
pub fn dt_children<'a>(e: &'a Element, local: &str) -> (r: Vec<&'a Element>)
    ensures
        r@.len() == dt_named(children_of(*e), local@).len(),
        forall|i: int| 0 <= i < r@.len() ==> *r@[i] == dt_named(children_of(*e), local@)[i],
{
    let children = e.children();
    let ghost all = children_of(*e);
    let mut out: Vec<&'a Element> = Vec::new();
    let mut i: usize = 0;
    while i < children.len()
        invariant
            i <= children@.len(),
            children@.len() == all.len(),
            forall|k: int| 0 <= k < children@.len() ==> *children@[k] == all[k],
            out@.len() == dt_named(all.take(i as int), local@).len(),
            forall|k: int| 0 <= k < out@.len() ==> *out@[k] == dt_named(all.take(i as int), local@)[k],
        decreases children.len() - i,
    {
        assert(all.take(i + 1).drop_last() == all.take(i as int));
        assert(all.take(i + 1).last() == all[i as int]);
        if element_is_dt(children[i], local) {
            out.push(children[i]);
        }
        i = i + 1;
    }
    assert(all.take(all.len() as int) == all);
    out
}

impl ElementKind {
    /// Whether Annex E declares this kind as a concrete global document root.
    pub fn is_global_root(self) -> (r: bool)
        ensures
            r == spec_is_global_root(self),
    {
        match self {
            ElementKind::Library => true,
            ElementKind::DataTemplate => true,
            ElementKind::ObjectType => true,
            ElementKind::GroupOfProperties => true,
            ElementKind::Property => true,
            _ => false,
        }
    }

    /// The kind of an ISO 23387 element; `None` outside the namespace or for
    /// an unrecognized local name.
    pub fn from_element(element: &Element) -> (r: Option<Self>)
        ensures
            r == kind_of(*element),
    {
        if !is_in_dt(element) {
            return None;
        }
        let local = element.local_name();
        if str_eq(local, "Library") {
            Some(ElementKind::Library)
        } else if str_eq(local, "Subject") {
            Some(ElementKind::Subject)
        } else if str_eq(local, "DataTemplate") {
            Some(ElementKind::DataTemplate)
        } else if str_eq(local, "ObjectType") {
            Some(ElementKind::ObjectType)
        } else if str_eq(local, "GroupOfProperties") {
            Some(ElementKind::GroupOfProperties)
        } else if str_eq(local, "Property") {
            Some(ElementKind::Property)
        } else if str_eq(local, "Unit") {
            Some(ElementKind::Unit)
        } else if str_eq(local, "Dimension") {
            Some(ElementKind::Dimension)
        } else if str_eq(local, "QuantityKind") {
            Some(ElementKind::QuantityKind)
        } else if str_eq(local, "ReferenceDocument") {
            Some(ElementKind::ReferenceDocument)
        } else {
            None
        }
    }
}

/// Validates the required `dt:GUID` of an element; an absent attribute is
/// validated as the empty string.
pub open spec fn required_guid_ok(e: Element) -> bool {
    spec_is_guid(
        match guid_attr(e) {
            Some(v) => v,
            None => Seq::empty(),
        },
    )
}

fn required_guid(element: &Element) -> (r: Result<Guid, ValueError>)
    ensures
        r is Ok <==> required_guid_ok(*element),
        r matches Ok(g) ==> guid_attr(*element) == Some(g@),
        r matches Err(e) ==> e.spec_kind() == ValueErrorKind::Guid,
{
    let value = match element.attribute_ns(Some(NAMESPACE), "GUID") {
        Some(v) => v,
        None => "",
    };
    proof {
        reveal_strlit("");
    }
    Guid::from_str(value)
}

impl Document {
    /// The kind of the root element, when it is an ISO 23387 global root.
    pub fn root_kind(&self) -> (r: Option<ElementKind>)
        ensures
            r == spec_root_kind(self.spec_root()),
    {
        match ElementKind::from_element(self.root()) {
            Some(kind) => if kind.is_global_root() {
                Some(kind)
            } else {
                None
            },
            None => None,
        }
    }

    /// The library view, when the root is an ISO 23387 `Library`.
    pub fn library(&self) -> (r: Option<Library<'_>>)
        ensures
            r is Some <==> spec_root_kind(self.spec_root()) == Some(ElementKind::Library),
            r matches Some(l) ==> l.spec_element() == self.spec_root(),
    {
        match self.root_kind() {
            Some(ElementKind::Library) => Some(Library { element: self.root() }),
            _ => None,
        }
    }

    /// Separates the root for embedding or conversion into an owned DT type.
    pub fn into_root_element(self) -> (r: Element)
        ensures
            r == self.spec_root(),
    {
        self.take_root()
    }
}

/// Borrowed ISO 23387 library view.
#[derive(Debug, Clone, Copy)]
pub struct Library<'a> {
    element: &'a Element,
}

impl<'a> Library<'a> {
    pub closed spec fn spec_element(self) -> Element {
        *self.element
    }

    pub fn element(self) -> (r: &'a Element)
        ensures
            *r == self.spec_element(),
    {
        self.element
    }

    /// The library's validated `dt:GUID`.
    pub fn guid(self) -> (r: Result<Guid, ValueError>)
        ensures
            r is Ok <==> required_guid_ok(self.spec_element()),
            r matches Ok(g) ==> guid_attr(self.spec_element()) == Some(g@),
    {
        required_guid(self.element)
    }

    /// Every child element, classified; unknown children are extensions.
    pub fn items(self) -> (r: Vec<LibraryItem<'a>>)
        ensures
            r@.len() == children_of(self.spec_element()).len(),
            forall|i: int|
                0 <= i < r@.len() ==> item_matches(#[trigger] r@[i], children_of(self.spec_element())[i]),
    {
        let children = self.element.children();
        let mut out: Vec<LibraryItem<'a>> = Vec::new();
        let mut i: usize = 0;
        while i < children.len()
            invariant
                i <= children@.len(),
                children@.len() == children_of(self.spec_element()).len(),
                forall|k: int| 0 <= k < children@.len() ==> *children@[k] == children_of(self.spec_element())[k],
                out@.len() == i,
                forall|k: int| 0 <= k < i ==> item_matches(#[trigger] out@[k], children_of(self.spec_element())[k]),
            decreases children.len() - i,
        {
            out.push(classify_library_item(children[i]));
            i = i + 1;
        }
        out
    }
}

/// One child retained by a library, including forward-compatible extensions.
#[derive(Debug, Clone, Copy)]
pub enum LibraryItem<'a> {
    Name(MultilingualTextRef<'a>),
    DataTemplate(DataTemplateRef<'a>),
    ObjectType(ConceptRef<'a>),
    GroupOfProperties(ConceptRef<'a>),
    Property(PropertyRef<'a>),
    Unit(ConceptRef<'a>),
    Dimension(ConceptRef<'a>),
    QuantityKind(ConceptRef<'a>),
    ReferenceDocument(ConceptRef<'a>),
    Extension(&'a Element),
}

/// Whether `item` is the classification of library child `e`: `dt:Name`
/// first, then each recognized non-`Library`, non-`Subject` kind, else an
/// extension; every variant views `e` itself.
pub open spec fn item_matches(item: LibraryItem, e: Element) -> bool {
    if is_dt(e, "Name"@) {
        item matches LibraryItem::Name(v) && v.spec_element() == e
    } else {
        match kind_of(e) {
            Some(ElementKind::DataTemplate) => item matches LibraryItem::DataTemplate(v) && v.spec_element() == e,
            Some(ElementKind::ObjectType) => item matches LibraryItem::ObjectType(v) && v.spec_element() == e,
            Some(ElementKind::GroupOfProperties) => item matches LibraryItem::GroupOfProperties(v)
                && v.spec_element() == e,
            Some(ElementKind::Property) => item matches LibraryItem::Property(v) && v.spec_element() == e,
            Some(ElementKind::Unit) => item matches LibraryItem::Unit(v) && v.spec_element() == e,
            Some(ElementKind::Dimension) => item matches LibraryItem::Dimension(v) && v.spec_element() == e,
            Some(ElementKind::QuantityKind) => item matches LibraryItem::QuantityKind(v) && v.spec_element() == e,
            Some(ElementKind::ReferenceDocument) => item matches LibraryItem::ReferenceDocument(v)
                && v.spec_element() == e,
            _ => item matches LibraryItem::Extension(x) && *x == e,
        }
    }
}

fn classify_library_item<'a>(element: &'a Element) -> (r: LibraryItem<'a>)
    ensures
        item_matches(r, *element),
{
    if element_is_dt(element, "Name") {
        return LibraryItem::Name(MultilingualTextRef { element });
    }
    match ElementKind::from_element(element) {
        Some(ElementKind::DataTemplate) => LibraryItem::DataTemplate(DataTemplateRef { element }),
        Some(ElementKind::ObjectType) => LibraryItem::ObjectType(ConceptRef { element }),
        Some(ElementKind::GroupOfProperties) => LibraryItem::GroupOfProperties(ConceptRef { element }),
        Some(ElementKind::Property) => LibraryItem::Property(PropertyRef { element }),
        Some(ElementKind::Unit) => LibraryItem::Unit(ConceptRef { element }),
        Some(ElementKind::Dimension) => LibraryItem::Dimension(ConceptRef { element }),
        Some(ElementKind::QuantityKind) => LibraryItem::QuantityKind(ConceptRef { element }),
        Some(ElementKind::ReferenceDocument) => LibraryItem::ReferenceDocument(ConceptRef { element }),
        _ => LibraryItem::Extension(element),
    }
}

/// Borrowed multilingual text typed by ISO 23387.
#[derive(Debug, Clone, Copy)]
pub struct MultilingualTextRef<'a> {
    element: &'a Element,
}

impl<'a> MultilingualTextRef<'a> {
    pub closed spec fn spec_element(self) -> Element {
        *self.element
    }

    /// The unqualified `language` attribute.
    pub fn language(self) -> (r: Option<&'a str>)
        ensures
            opt_str_view(r) == plain_attr(self.spec_element(), "language"@),
    {
        self.element.attribute_ns(None, "language")
    }

    /// The direct text and CDATA content.
    pub fn text(self) -> (r: String)
        ensures
            r@ == text_of(self.spec_element().spec_nodes()),
    {
        self.element.direct_text()
    }

    /// The owned value; an absent language is validated as the empty string.
    pub fn to_owned(self) -> (r: Result<MultiLanguageText, ValueError>)
        ensures
            ({
                let language = match plain_attr(self.spec_element(), "language"@) {
                    Some(l) => l,
                    None => Seq::empty(),
                };
                &&& r is Ok <==> spec_is_language(spec_collapse(language))
                &&& r matches Ok(m) ==> m.spec_language()@ == language && m.spec_text()
                    == text_of(self.spec_element().spec_nodes())
            }),
    {
        let language = match self.language() {
            Some(l) => l,
            None => "",
        };
        proof {
            reveal_strlit("");
        }
        let text = self.text();
        MultiLanguageText::new(language, text.as_str())
    }
}

/// Borrowed reference typed by ISO 23387.
#[derive(Debug, Clone, Copy)]
pub struct ReferenceRef<'a> {
    element: &'a Element,
}

impl<'a> ReferenceRef<'a> {
    pub closed spec fn spec_element(self) -> Element {
        *self.element
    }

    /// The `dt:GUID` attribute, validated, if present.
    pub fn guid(self) -> (r: Option<Result<Guid, ValueError>>)
        ensures
            r is None <==> guid_attr(self.spec_element()) is None,
            r matches Some(g) ==> (g is Ok <==> spec_is_guid(guid_attr(self.spec_element())->0)),
            r matches Some(Ok(g)) ==> guid_attr(self.spec_element()) == Some(g@),
            r matches Some(Err(e)) ==> e.spec_kind() == ValueErrorKind::Guid,
    {
        match self.element.attribute_ns(Some(NAMESPACE), "GUID") {
            Some(v) => Some(Guid::from_str(v)),
            None => None,
        }
    }

    /// The `dt:referenceURI` attribute as written.
    pub fn uri(self) -> (r: Option<&'a str>)
        ensures
            opt_str_view(r) == attribute_lookup(self.spec_element().spec_attributes(), Some(NAMESPACE@), "referenceURI"@),
    {
        self.element.attribute_ns(Some(NAMESPACE), "referenceURI")
    }

    /// The owned reference: fails on the first invalid attribute, `dt:GUID`
    /// before `dt:referenceURI`.
    pub fn to_owned(self) -> (r: Result<Reference, ValueError>)
        ensures
            ({
                let guid = guid_attr(self.spec_element());
                let uri = attribute_lookup(self.spec_element().spec_attributes(), Some(NAMESPACE@), "referenceURI"@);
                let guid_ok = guid matches Some(g) ==> spec_is_guid(g);
                let uri_ok = uri matches Some(u) ==> spec_is_any_uri(spec_collapse(u));
                &&& r is Ok <==> guid_ok && uri_ok
                &&& r matches Err(e) ==> (e.spec_kind() == ValueErrorKind::Guid <==> !guid_ok)
                &&& r matches Ok(v) ==> (match guid {
                    Some(g) => v.spec_guid() matches Some(x) && x@ == g,
                    None => v.spec_guid() is None,
                }) && (match uri {
                    Some(u) => v.spec_uri() matches Some(x) && x@ == spec_collapse(u),
                    None => v.spec_uri() is None,
                })
            }),
    {
        let guid = match self.guid() {
            Some(Ok(g)) => Some(g),
            Some(Err(e)) => return Err(e),
            None => None,
        };
        let uri = match self.uri() {
            Some(u) => match AnyUri::from_str(u) {
                Ok(v) => Some(v),
                Err(e) => return Err(e),
            },
            None => None,
        };
        Ok(Reference::new(guid, uri))
    }
}

/// Shared borrowed view for every `ConceptType`-derived element.
#[derive(Debug, Clone, Copy)]
pub struct ConceptRef<'a> {
    element: &'a Element,
}

impl<'a> ConceptRef<'a> {
    pub closed spec fn spec_element(self) -> Element {
        *self.element
    }

    pub fn element(self) -> (r: &'a Element)
        ensures
            *r == self.spec_element(),
    {
        self.element
    }

    /// The concept's validated `dt:GUID`.
    pub fn guid(self) -> (r: Result<Guid, ValueError>)
        ensures
            r is Ok <==> required_guid_ok(self.spec_element()),
            r matches Ok(g) ==> guid_attr(self.spec_element()) == Some(g@),
    {
        required_guid(self.element)
    }

    /// The unqualified `dateOfCreation` attribute as written.
    pub fn date_of_creation(self) -> (r: Option<&'a str>)
        ensures
            opt_str_view(r) == plain_attr(self.spec_element(), "dateOfCreation"@),
    {
        self.element.attribute_ns(None, "dateOfCreation")
    }

    /// The `dt:Name` children, in order.
    pub fn names(self) -> (r: Vec<MultilingualTextRef<'a>>)
        ensures
            r@.len() == dt_named(children_of(self.spec_element()), "Name"@).len(),
            forall|i: int| 0 <= i < r@.len() ==> (#[trigger] r@[i]).spec_element() == dt_named(children_of(self.spec_element()), "Name"@)[i],
    {
        text_views(dt_children(self.element, "Name"))
    }

    /// The `dt:Definition` children, in order.
    pub fn definitions(self) -> (r: Vec<MultilingualTextRef<'a>>)
        ensures
            r@.len() == dt_named(children_of(self.spec_element()), "Definition"@).len(),
            forall|i: int| 0 <= i < r@.len() ==> (#[trigger] r@[i]).spec_element() == dt_named(children_of(self.spec_element()), "Definition"@)[i],
    {
        text_views(dt_children(self.element, "Definition"))
    }

    /// The ISO 23387 reference children named `local_name`, in order.
    pub fn references(self, local_name: &str) -> (r: Vec<ReferenceRef<'a>>)
        ensures
            r@.len() == dt_named(children_of(self.spec_element()), local_name@).len(),
            forall|i: int| 0 <= i < r@.len() ==> (#[trigger] r@[i]).spec_element() == dt_named(children_of(self.spec_element()), local_name@)[i],
    {
        let found = dt_children(self.element, local_name);
        let mut out: Vec<ReferenceRef<'a>> = Vec::new();
        let mut i: usize = 0;
        while i < found.len()
            invariant
                i <= found@.len(),
                out@.len() == i,
                forall|k: int| 0 <= k < i ==> (#[trigger] out@[k]).spec_element() == *found@[k],
            decreases found.len() - i,
        {
            out.push(ReferenceRef { element: found[i] });
            i = i + 1;
        }
        out
    }
}

fn text_views<'a>(found: Vec<&'a Element>) -> (r: Vec<MultilingualTextRef<'a>>)
    ensures
        r@.len() == found@.len(),
        forall|i: int| 0 <= i < r@.len() ==> (#[trigger] r@[i]).spec_element() == *found@[i],
{
    let mut out: Vec<MultilingualTextRef<'a>> = Vec::new();
    let mut i: usize = 0;
    while i < found.len()
        invariant
            i <= found@.len(),
            out@.len() == i,
            forall|k: int| 0 <= k < i ==> (#[trigger] out@[k]).spec_element() == *found@[k],
        decreases found.len() - i,
    {
        out.push(MultilingualTextRef { element: found[i] });
        i = i + 1;
    }
    out
}

/// Borrowed data-template view.
#[derive(Debug, Clone, Copy)]
pub struct DataTemplateRef<'a> {
    element: &'a Element,
}

impl<'a> DataTemplateRef<'a> {
    pub closed spec fn spec_element(self) -> Element {
        *self.element
    }

    pub fn element(self) -> (r: &'a Element)
        ensures
            *r == self.spec_element(),
    {
        self.element
    }

    /// The template viewed as a concept.
    pub fn concept(self) -> (r: ConceptRef<'a>)
        ensures
            r.spec_element() == self.spec_element(),
    {
        ConceptRef { element: self.element }
    }

    /// The `dt:HasPropertyRef` children.
    pub fn property_references(self) -> (r: Vec<ReferenceRef<'a>>)
        ensures
            r@.len() == dt_named(children_of(self.spec_element()), "HasPropertyRef"@).len(),
            forall|i: int| 0 <= i < r@.len() ==> (#[trigger] r@[i]).spec_element() == dt_named(children_of(self.spec_element()), "HasPropertyRef"@)[i],
    {
        self.concept().references("HasPropertyRef")
    }

    /// The `dt:HasGroupOfPropertiesRef` children.
    pub fn group_references(self) -> (r: Vec<ReferenceRef<'a>>)
        ensures
            r@.len() == dt_named(children_of(self.spec_element()), "HasGroupOfPropertiesRef"@).len(),
            forall|i: int| 0 <= i < r@.len() ==> (#[trigger] r@[i]).spec_element() == dt_named(children_of(self.spec_element()), "HasGroupOfPropertiesRef"@)[i],
    {
        self.concept().references("HasGroupOfPropertiesRef")
    }

    /// The first `dt:HasObjectTypeRef` child.
    pub fn object_type_reference(self) -> (r: Option<ReferenceRef<'a>>)
        ensures
            ({
                let found = dt_named(children_of(self.spec_element()), "HasObjectTypeRef"@);
                &&& r is None <==> found.len() == 0
                &&& r matches Some(x) ==> x.spec_element() == found[0]
            }),
    {
        let found = self.concept().references("HasObjectTypeRef");
        if found.len() == 0 {
            None
        } else {
            Some(found[0])
        }
    }
}

/// Borrowed property view.
#[derive(Debug, Clone, Copy)]
pub struct PropertyRef<'a> {
    element: &'a Element,
}

impl<'a> PropertyRef<'a> {
    pub closed spec fn spec_element(self) -> Element {
        *self.element
    }

    pub fn element(self) -> (r: &'a Element)
        ensures
            *r == self.spec_element(),
    {
        self.element
    }

    /// The property viewed as a concept.
    pub fn concept(self) -> (r: ConceptRef<'a>)
        ensures
            r.spec_element() == self.spec_element(),
    {
        ConceptRef { element: self.element }
    }

    /// The `dt:Name` children, in order.
    pub fn names(self) -> (r: Vec<MultilingualTextRef<'a>>)
        ensures
            r@.len() == dt_named(children_of(self.spec_element()), "Name"@).len(),
            forall|i: int| 0 <= i < r@.len() ==> (#[trigger] r@[i]).spec_element() == dt_named(children_of(self.spec_element()), "Name"@)[i],
    {
        self.concept().names()
    }

    /// The first `dt:DataType` child.
    pub fn data_type(self) -> (r: Option<DataTypeRef<'a>>)
        ensures
            ({
                let found = dt_named(children_of(self.spec_element()), "DataType"@);
                &&& r is None <==> found.len() == 0
                &&& r matches Some(x) ==> x.spec_element() == found[0]
            }),
    {
        let found = dt_children(self.element, "DataType");
        if found.len() == 0 {
            None
        } else {
            Some(DataTypeRef { element: found[0] })
        }
    }
}

/// Borrowed data-type constraint view.
#[derive(Debug, Clone, Copy)]
pub struct DataTypeRef<'a> {
    element: &'a Element,
}

impl<'a> DataTypeRef<'a> {
    pub closed spec fn spec_element(self) -> Element {
        *self.element
    }

    /// The unqualified `name` attribute as written.
    pub fn name(self) -> (r: Option<&'a str>)
        ensures
            opt_str_view(r) == plain_attr(self.spec_element(), "name"@),
    {
        self.element.attribute_ns(None, "name")
    }

    /// The `name` attribute classified; unknown names are retained.
    pub fn name_kind(self) -> (r: Option<DataTypeName>)
        ensures
            r is None <==> plain_attr(self.spec_element(), "name"@) is None,
            r matches Some(k) ==> plain_attr(self.spec_element(), "name"@) == Some(data_type_name_str(k)),
    {
        match self.name() {
            Some(n) => Some(DataTypeName::from(n)),
            None => None,
        }
    }
}


/// An owned element proven to have one ISO 23387 kind, fixed by `KIND`
/// (see the aliases below).
#[derive(Debug, Clone, PartialEq, Eq)]
pub struct TypedElement<const KIND: u8> {
    element: Element,
}

/// The kind each `TypedElement` discriminant stands for.
pub open spec fn kind_for(value: u8) -> Option<ElementKind> {
    if value == 0 {
        Some(ElementKind::Library)
    } else if value == 1 {
        Some(ElementKind::Subject)
    } else if value == 2 {
        Some(ElementKind::DataTemplate)
    } else if value == 3 {
        Some(ElementKind::ObjectType)
    } else if value == 4 {
        Some(ElementKind::GroupOfProperties)
    } else if value == 5 {
        Some(ElementKind::Property)
    } else if value == 6 {
        Some(ElementKind::Unit)
    } else if value == 7 {
        Some(ElementKind::Dimension)
    } else if value == 8 {
        Some(ElementKind::QuantityKind)
    } else if value == 9 {
        Some(ElementKind::ReferenceDocument)
    } else {
        None
    }
}

fn kind_from_discriminant(value: u8) -> (r: ElementKind)
    requires
        value < 10,
    ensures
        kind_for(value) == Some(r),
{
    match value {
        0 => ElementKind::Library,
        1 => ElementKind::Subject,
        2 => ElementKind::DataTemplate,
        3 => ElementKind::ObjectType,
        4 => ElementKind::GroupOfProperties,
        5 => ElementKind::Property,
        6 => ElementKind::Unit,
        7 => ElementKind::Dimension,
        8 => ElementKind::QuantityKind,
        _ => ElementKind::ReferenceDocument,
    }
}

impl<const KIND: u8> TypedElement<KIND> {
    pub closed spec fn spec_element(&self) -> Element {
        self.element
    }

    /// Wraps `element` when it has the kind `KIND` stands for.
    pub fn try_from_element(element: Element) -> (r: Result<Self, ModelError>)
        requires
            KIND < 10,
        ensures
            kind_of(element) == kind_for(KIND) ==> (r matches Ok(t) && t.spec_element() == element),
            kind_of(element) != kind_for(KIND) ==> (r matches Err(e) && Some(e.expected) == kind_for(KIND)
                && e.actual == kind_of(element)),
    {
        let expected = kind_from_discriminant(KIND);
        let actual = ElementKind::from_element(&element);
        match actual {
            Some(kind) => {
                if kind == expected {
                    return Ok(TypedElement { element });
                }
            },
            None => {},
        }
        Err(ModelError { expected, actual })
    }

    pub fn element(&self) -> (r: &Element)
        ensures
            *r == self.spec_element(),
    {
        &self.element
    }

    pub fn into_element(self) -> (r: Element)
        ensures
            r == self.spec_element(),
    {
        self.element
    }
}

pub type LibraryElement = TypedElement<0>;
pub type SubjectElement = TypedElement<1>;
pub type DataTemplateElement = TypedElement<2>;
pub type ObjectTypeElement = TypedElement<3>;
pub type GroupOfPropertiesElement = TypedElement<4>;
pub type PropertyElement = TypedElement<5>;
pub type UnitElement = TypedElement<6>;
pub type DimensionElement = TypedElement<7>;
pub type QuantityKindElement = TypedElement<8>;
pub type ReferenceDocumentElement = TypedElement<9>;

/// Typed-element conversion failure.
#[derive(Debug, Clone, Copy, PartialEq, Eq)]
pub struct ModelError {
    pub expected: ElementKind,
    pub actual: Option<ElementKind>,
}

// ---------------------------------------------------------------------------
// Validation
// ---------------------------------------------------------------------------

/// Validation severity; parsing itself remains non-normalizing and permissive.
#[derive(Debug, Clone, Copy, PartialEq, Eq, Structural)]
pub enum Severity {
    Error,
    Warning,
}

/// Stable validation categories.
#[derive(Debug, Clone, Copy, PartialEq, Eq, Structural)]
pub enum DiagnosticCode {
    DraftNamespace,
    WrongRootNamespace,
    UnknownRootElement,
    MissingGuid,
    InvalidGuid,
    InvalidUri,
    DuplicateGuid,
    MissingCreationDate,
    InvalidCreationDate,
    MissingName,
    MissingDefinition,
    DuplicateDefinition,
    EmptyReference,
    MissingLanguage,
    InvalidLanguage,
    MissingDataTypeName,
    UnknownDataType,
}

/// One semantic validation finding.
#[derive(Debug, Clone, PartialEq, Eq)]
pub struct Diagnostic {
    pub severity: Severity,
    pub code: DiagnosticCode,
    pub path: String,
    pub message: String,
}

/// A finding as plain values.
pub struct DiagnosticModel {
    pub severity: Severity,
    pub code: DiagnosticCode,
    pub path: Seq<char>,
    pub message: Seq<char>,
}

impl View for Diagnostic {
    type V = DiagnosticModel;

    open spec fn view(&self) -> DiagnosticModel {
        DiagnosticModel { severity: self.severity, code: self.code, path: self.path@, message: self.message@ }
    }
}

pub open spec fn views(d: Seq<Diagnostic>) -> Seq<DiagnosticModel> {
    d.map_values(|x: Diagnostic| x@)
}

/// A single finding.
pub open spec fn finding(severity: Severity, code: DiagnosticCode, path: Seq<char>, message: Seq<char>) -> Seq<DiagnosticModel> {
    seq![DiagnosticModel { severity, code, path, message }]
}

/// std's `Debug` rendering of a string: the characters in double quotes,
/// with std's escapes for quotes, backslashes, control and non-printable
/// characters.
pub uninterp spec fn debug_text(s: Seq<char>) -> Seq<char>;

/// std's `Debug` rendering of a string slice (`format!("{:?}", value)`).
#[verifier::external_body]
pub(crate) fn debug_quoted(value: &str) -> (r: String)
    ensures
        r@ == debug_text(value@),
{
    format!("{value:?}")
}

/// ASCII upper-case letters mapped to lower case; every other character kept.
pub open spec fn ascii_lower(c: char) -> char {
    if 'A' <= c && c <= 'Z' {
        (((c as u8) + 32) as u8) as char
    } else {
        c
    }
}

fn lower_ascii(value: &str) -> (r: Vec<char>)
    ensures
        r@ == value@.map_values(|c: char| ascii_lower(c)),
{
    let chars = crate::text::chars_of(value);
    let mut out: Vec<char> = Vec::new();
    let mut i: usize = 0;
    while i < chars.len()
        invariant
            i <= chars@.len(),
            chars@ == value@,
            out@ == chars@.take(i as int).map_values(|c: char| ascii_lower(c)),
        decreases chars.len() - i,
    {
        let c = chars[i];
        let lowered = if 'A' <= c && c <= 'Z' {
            (((c as u8) + 32) as u8) as char
        } else {
            c
        };
        out.push(lowered);
        assert(chars@.take(i + 1).map_values(|c: char| ascii_lower(c)) =~= chars@.take(i as int).map_values(
            |c: char| ascii_lower(c),
        ).push(ascii_lower(c)));
        i = i + 1;
    }
    assert(chars@.take(chars@.len() as int) =~= chars@);
    out
}

/// GUIDs seen so far (lower-cased) with the path that last claimed each.
pub type Registry = Seq<(Seq<char>, Seq<char>)>;

/// The first position of `key` in the registry, or -1.
pub open spec fn reg_index(reg: Registry, key: Seq<char>) -> int
    decreases reg.len(),
{
    if reg.len() == 0 {
        -1
    } else {
        let i = reg_index(reg.drop_last(), key);
        if i >= 0 {
            i
        } else if reg.last().0 == key {
            reg.len() - 1
        } else {
            -1
        }
    }
}

/// Records `path` for `key`, replacing an earlier claim.
pub open spec fn reg_insert(reg: Registry, key: Seq<char>, path: Seq<char>) -> Registry {
    let i = reg_index(reg, key);
    if i >= 0 {
        reg.update(i, (key, path))
    } else {
        reg.push((key, path))
    }
}

pub open spec fn reg_view(v: Seq<(Vec<char>, String)>) -> Registry {
    v.map_values(|p: (Vec<char>, String)| (p.0@, p.1@))
}

proof fn lemma_reg_index(reg: Registry, key: Seq<char>, i: int)
    requires
        0 <= i <= reg.len(),
        forall|j: int| 0 <= j < i ==> (#[trigger] reg[j]).0 != key,
    ensures
        i < reg.len() && reg[i].0 == key ==> reg_index(reg, key) == i,
        i == reg.len() ==> reg_index(reg, key) == -1,
    decreases reg.len(),
{
    if reg.len() > 0 {
        if i < reg.len() {
            if i < reg.len() - 1 {
                lemma_reg_index(reg.drop_last(), key, i);
            } else {
                lemma_reg_index(reg.drop_last(), key, i);
            }
        } else {
            lemma_reg_index(reg.drop_last(), key, i - 1);
        }
    }
}

/// The position of `key` in the registry, if present.
fn registry_find(registry: &Vec<(Vec<char>, String)>, key: &Vec<char>) -> (r: Option<usize>)
    ensures
        r is None <==> reg_index(reg_view(registry@), key@) == -1,
        r matches Some(i) ==> i == reg_index(reg_view(registry@), key@) && i < registry@.len(),
{
    let ghost reg = reg_view(registry@);
    let mut i: usize = 0;
    while i < registry.len()
        invariant
            i <= registry@.len(),
            reg == reg_view(registry@),
            forall|j: int| 0 <= j < i ==> (#[trigger] reg[j]).0 != key@,
        decreases registry.len() - i,
    {
        if same_chars(&registry[i].0, key) {
            proof {
                lemma_reg_index(reg, key@, i as int);
            }
            return Some(i);
        }
        i = i + 1;
    }
    proof {
        lemma_reg_index(reg, key@, i as int);
    }
    None
}

fn same_chars(a: &Vec<char>, b: &Vec<char>) -> (r: bool)
    ensures
        r == (a@ == b@),
{
    if a.len() != b.len() {
        return false;
    }
    let mut i: usize = 0;
    while i < a.len()
        invariant
            i <= a@.len(),
            a@.len() == b@.len(),
            forall|k: int| 0 <= k < i ==> a@[k] == b@[k],
        decreases a.len() - i,
    {
        if a[i] != b[i] {
            return false;
        }
        i = i + 1;
    }
    assert(a@ =~= b@);
    true
}

pub open spec fn is_concept_parent(p: Seq<char>) -> bool {
    p == "DataTemplate"@ || p == "ObjectType"@ || p == "GroupOfProperties"@ || p == "Property"@ || p == "ReferenceDocument"@ || p == "QuantityKind"@ || p == "Dimension"@ || p == "Unit"@
}

pub open spec fn is_subject_parent(p: Seq<char>) -> bool {
    p == "DataTemplate"@ || p == "ObjectType"@ || p == "GroupOfProperties"@
}

pub open spec fn is_known_reference_name(c: Seq<char>) -> bool {
    c == "ReferenceDocumentRef"@ || c == "DictionaryRef"@ || c == "SimilarToRef"@ || c == "ReplacedObjectsRef"@ || c == "HasPartRef"@ || c == "IsSubtypeOfRef"@ || c == "HasObjectTypeRef"@ || c == "HasPropertyRef"@ || c == "HasGroupOfPropertiesRef"@ || c == "IsSpecializationOfRef"@ || c == "IsDependentOnRef"@ || c == "UnitRef"@ || c == "QuantityKindRef"@ || c == "DimensionRef"@
}

/// Which reference children Annex E declares under which parents.
pub open spec fn reference_allowed(parent: Option<Seq<char>>, child: Seq<char>) -> bool {
    ||| (parent matches Some(p) && is_concept_parent(p)) && (child == "ReferenceDocumentRef"@ || child == "DictionaryRef"@ || child == "SimilarToRef"@ || child == "ReplacedObjectsRef"@)
    ||| (parent matches Some(p) && is_subject_parent(p)) && (child == "HasPartRef"@ || child == "IsSubtypeOfRef"@)
    ||| parent == Some("DataTemplate"@) && (child == "HasObjectTypeRef"@ || child == "HasPropertyRef"@ || child == "HasGroupOfPropertiesRef"@)
    ||| parent == Some("GroupOfProperties"@) && child == "HasPropertyRef"@
    ||| parent == Some("Property"@) && (child == "UnitRef"@ || child == "QuantityKindRef"@ || child == "DimensionRef"@ || child == "IsDependentOnRef"@ || child == "IsSpecializationOfRef"@)
    ||| parent == Some("QuantityKind"@) && child == "DimensionRef"@
    ||| parent == Some("Unit"@) && child == "DimensionRef"@
}

pub open spec fn is_known_multilingual_name(c: Seq<char>) -> bool {
    c == "Name"@ || c == "Definition"@ || c == "Description"@ || c == "Example"@ || c == "Symbol"@ || c == "ValueList"@
}

/// Which multilingual-text children Annex E declares under which parents.
pub open spec fn multilingual_allowed(parent: Option<Seq<char>>, child: Seq<char>) -> bool {
    ||| (parent matches Some(p) && is_concept_parent(p)) && (child == "Name"@ || child == "Definition"@ || child == "Description"@ || child == "Example"@)
    ||| parent == Some("Unit"@) && child == "Symbol"@
    ||| parent == Some("PossibleValues"@) && child == "ValueList"@
}

pub open spec fn is_reference_element(e: Element, parent: Option<Seq<char>>) -> bool {
    in_dt(e) && is_known_reference_name(e.spec_local_name()) && reference_allowed(parent, e.spec_local_name())
}

pub open spec fn is_multilingual_text_element(e: Element, parent: Option<Seq<char>>) -> bool {
    in_dt(e) && is_known_multilingual_name(e.spec_local_name()) && multilingual_allowed(parent, e.spec_local_name())
}

fn concept_parent(p: &str) -> (r: bool)
    ensures
        r == is_concept_parent(p@),
{
    str_eq(p, "DataTemplate") || str_eq(p, "ObjectType") || str_eq(p, "GroupOfProperties") || str_eq(p, "Property") || str_eq(p, "ReferenceDocument") || str_eq(p, "QuantityKind") || str_eq(p, "Dimension") || str_eq(p, "Unit")
}

fn subject_parent(p: &str) -> (r: bool)
    ensures
        r == is_subject_parent(p@),
{
    str_eq(p, "DataTemplate") || str_eq(p, "ObjectType") || str_eq(p, "GroupOfProperties")
}

fn known_reference_name(c: &str) -> (r: bool)
    ensures
        r == is_known_reference_name(c@),
{
    str_eq(c, "ReferenceDocumentRef") || str_eq(c, "DictionaryRef") || str_eq(c, "SimilarToRef") || str_eq(c, "ReplacedObjectsRef") || str_eq(c, "HasPartRef") || str_eq(c, "IsSubtypeOfRef") || str_eq(c, "HasObjectTypeRef") || str_eq(c, "HasPropertyRef") || str_eq(c, "HasGroupOfPropertiesRef") || str_eq(c, "IsSpecializationOfRef") || str_eq(c, "IsDependentOnRef") || str_eq(c, "UnitRef") || str_eq(c, "QuantityKindRef") || str_eq(c, "DimensionRef")
}

fn known_multilingual_name(c: &str) -> (r: bool)
    ensures
        r == is_known_multilingual_name(c@),
{
    str_eq(c, "Name") || str_eq(c, "Definition") || str_eq(c, "Description") || str_eq(c, "Example") || str_eq(c, "Symbol") || str_eq(c, "ValueList")
}

fn parent_is(parent: Option<&str>, name: &str) -> (r: bool)
    ensures
        r == (opt_str_view(parent) == Some(name@)),
{
    match parent {
        Some(p) => str_eq(p, name),
        None => false,
    }
}

fn check_reference_allowed(parent: Option<&str>, child: &str) -> (r: bool)
    ensures
        r == reference_allowed(opt_str_view(parent), child@),
{
    let concept = match parent {
        Some(p) => concept_parent(p),
        None => false,
    };
    let subject = match parent {
        Some(p) => subject_parent(p),
        None => false,
    };
    (concept && (str_eq(child, "ReferenceDocumentRef") || str_eq(child, "DictionaryRef") || str_eq(child, "SimilarToRef") || str_eq(child, "ReplacedObjectsRef")))
        || (subject && (str_eq(child, "HasPartRef") || str_eq(child, "IsSubtypeOfRef")))
        || (parent_is(parent, "DataTemplate") && (str_eq(child, "HasObjectTypeRef") || str_eq(child, "HasPropertyRef") || str_eq(child, "HasGroupOfPropertiesRef")))
        || (parent_is(parent, "GroupOfProperties") && str_eq(child, "HasPropertyRef"))
        || (parent_is(parent, "Property") && (str_eq(child, "UnitRef") || str_eq(child, "QuantityKindRef") || str_eq(child, "DimensionRef") || str_eq(child, "IsDependentOnRef") || str_eq(child, "IsSpecializationOfRef")))
        || (parent_is(parent, "QuantityKind") && str_eq(child, "DimensionRef"))
        || (parent_is(parent, "Unit") && str_eq(child, "DimensionRef"))
}

fn check_multilingual_allowed(parent: Option<&str>, child: &str) -> (r: bool)
    ensures
        r == multilingual_allowed(opt_str_view(parent), child@),
{
    let concept = match parent {
        Some(p) => concept_parent(p),
        None => false,
    };
    (concept && (str_eq(child, "Name") || str_eq(child, "Definition") || str_eq(child, "Description") || str_eq(child, "Example")))
        || (parent_is(parent, "Unit") && str_eq(child, "Symbol"))
        || (parent_is(parent, "PossibleValues") && str_eq(child, "ValueList"))
}


pub open spec fn reference_uri_attr(e: Element) -> Option<Seq<char>> {
    attribute_lookup(e.spec_attributes(), Some(NAMESPACE@), "referenceURI"@)
}

/// Whether an element is a reference child or a recognized kind directly
/// under a library or at the top: such elements must carry a `dt:GUID`.
pub open spec fn spec_identity(kind: Option<ElementKind>, parent_kind: Option<ElementKind>) -> bool {
    match parent_kind {
        None => kind matches Some(k) && spec_is_global_root(k),
        Some(ElementKind::Library) => kind is Some,
        _ => false,
    }
}

/// Identity findings: a missing or invalid `dt:GUID`, and a `dt:GUID` that
/// an earlier identity element already claimed (compared ignoring ASCII
/// case), with the registry updated as the element claims it.
#[verifier::opaque]
pub open spec fn guid_findings(e: Element, identity: bool, path: Seq<char>, reg: Registry) -> (Seq<DiagnosticModel>, Registry) {
    match guid_attr(e) {
        None => (
            if identity {
                finding(Severity::Error, DiagnosticCode::MissingGuid, path, "required dt:GUID attribute is missing"@)
            } else {
                Seq::empty()
            },
            reg,
        ),
        Some(v) => {
            let key = v.map_values(|c: char| ascii_lower(c));
            let i = reg_index(reg, key);
            let duplicate = if identity && i >= 0 {
                finding(Severity::Error, DiagnosticCode::DuplicateGuid, path, "GUID duplicates "@ + reg[i].1)
            } else {
                Seq::empty()
            };
            let invalid = if !spec_is_guid(v) {
                finding(
                    Severity::Error,
                    DiagnosticCode::InvalidGuid,
                    path,
                    "dt:GUID does not match the ISO 23387 lexical contract"@,
                )
            } else {
                Seq::empty()
            };
            (duplicate + invalid, if identity { reg_insert(reg, key, path) } else { reg })
        },
    }
}

/// An invalid `dt:<name>` URI attribute.
#[verifier::opaque]
pub open spec fn uri_finding(e: Element, name: Seq<char>, path: Seq<char>) -> Seq<DiagnosticModel> {
    match attribute_lookup(e.spec_attributes(), Some(NAMESPACE@), name) {
        Some(u) => if !spec_is_any_uri(spec_collapse(u)) {
            finding(Severity::Error, DiagnosticCode::InvalidUri, path, "invalid dt:"@ + name + " value "@ + debug_text(u))
        } else {
            Seq::empty()
        },
        None => Seq::empty(),
    }
}

/// Findings on a `ConceptType`-derived element: its creation date, its
/// names and its single definition.
#[verifier::opaque]
pub open spec fn concept_findings(e: Element, path: Seq<char>) -> Seq<DiagnosticModel> {
    let date = match plain_attr(e, "dateOfCreation"@) {
        None => finding(
            Severity::Error,
            DiagnosticCode::MissingCreationDate,
            path,
            "ConceptType-derived element lacks dateOfCreation"@,
        ),
        Some(v) => if !spec_is_datetime(spec_collapse(v)) {
            finding(
                Severity::Error,
                DiagnosticCode::InvalidCreationDate,
                path,
                "dateOfCreation does not match the xs:dateTime lexical contract"@,
            )
        } else {
            Seq::empty()
        },
    };
    let name = if dt_named(children_of(e), "Name"@).len() == 0 {
        finding(Severity::Error, DiagnosticCode::MissingName, path, "ConceptType-derived element lacks a Name"@)
    } else {
        Seq::empty()
    };
    let count = dt_named(children_of(e), "Definition"@).len();
    let definition = if count == 0 {
        finding(
            Severity::Warning,
            DiagnosticCode::MissingDefinition,
            path,
            "ConceptType-derived element lacks its required Definition"@,
        )
    } else if count == 1 {
        Seq::empty()
    } else {
        finding(
            Severity::Warning,
            DiagnosticCode::DuplicateDefinition,
            path,
            "ConceptType-derived element has more than one Definition"@,
        )
    };
    date + name + definition
}

/// A declared reference with neither `dt:GUID` nor `dt:referenceURI`.
#[verifier::opaque]
pub open spec fn reference_finding(e: Element, parent: Option<Seq<char>>, path: Seq<char>) -> Seq<DiagnosticModel> {
    if is_reference_element(e, parent) && guid_attr(e) is None && reference_uri_attr(e) is None {
        finding(
            Severity::Warning,
            DiagnosticCode::EmptyReference,
            path,
            "reference has neither dt:GUID nor dt:referenceURI"@,
        )
    } else {
        Seq::empty()
    }
}

/// A declared multilingual text without a valid `language`.
#[verifier::opaque]
pub open spec fn text_finding(e: Element, parent: Option<Seq<char>>, path: Seq<char>) -> Seq<DiagnosticModel> {
    if is_multilingual_text_element(e, parent) {
        match plain_attr(e, "language"@) {
            None => finding(
                Severity::Error,
                DiagnosticCode::MissingLanguage,
                path,
                "multi-language text lacks its required language attribute"@,
            ),
            Some(l) => if !spec_is_language(spec_collapse(l)) {
                finding(
                    Severity::Error,
                    DiagnosticCode::InvalidLanguage,
                    path,
                    "language does not match the xs:language lexical contract"@,
                )
            } else {
                Seq::empty()
            },
        }
    } else {
        Seq::empty()
    }
}

/// A `dt:DataType` without a name, or with a name outside the vocabulary.
#[verifier::opaque]
pub open spec fn data_type_finding(e: Element, path: Seq<char>) -> Seq<DiagnosticModel> {
    if is_dt(e, "DataType"@) {
        match plain_attr(e, "name"@) {
            None => finding(
                Severity::Warning,
                DiagnosticCode::MissingDataTypeName,
                path,
                "DataType has no name; Annex E permits it but the value is underspecified"@,
            ),
            Some(n) => if !is_known_data_type_name(n) {
                finding(
                    Severity::Warning,
                    DiagnosticCode::UnknownDataType,
                    path,
                    "unknown data-type name "@ + debug_text(n) + " retained"@,
                )
            } else {
                Seq::empty()
            },
        }
    } else {
        Seq::empty()
    }
}

/// The findings on one element itself, in the order they are reported.
pub open spec fn own_findings(
    e: Element,
    parent_kind: Option<ElementKind>,
    parent: Option<Seq<char>>,
    path: Seq<char>,
    reg: Registry,
) -> (Seq<DiagnosticModel>, Registry) {
    let kind = kind_of(e);
    let identity = spec_identity(kind, parent_kind);
    let concept = identity && kind != Some(ElementKind::Library);
    let (guids, reg2) = guid_findings(e, identity, path, reg);
    (
        guids + uri_finding(e, "referenceURI"@, path) + uri_finding(e, "about"@, path) + (if concept {
            concept_findings(e, path)
        } else {
            Seq::empty()
        }) + reference_finding(e, parent, path) + text_finding(e, parent, path) + data_type_finding(e, path),
        reg2,
    )
}

/// The findings on an element and, depth first, on its descendants.
pub open spec fn tree_findings(
    e: Element,
    parent_kind: Option<ElementKind>,
    parent: Option<Seq<char>>,
    parent_path: Seq<char>,
    reg: Registry,
) -> (Seq<DiagnosticModel>, Registry)
    decreases e, 1int, 0int,
{
    let path = parent_path + "/"@ + e.spec_qname();
    let (own, reg1) = own_findings(e, parent_kind, parent, path, reg);
    let (rest, reg2) = nodes_findings(e, kind_of(e), e.spec_local_name(), path, reg1, e.spec_nodes().len() as int);
    (own + rest, reg2)
}

/// The findings on the element children among the first `n` nodes of `e`.
pub open spec fn nodes_findings(
    e: Element,
    kind: Option<ElementKind>,
    local: Seq<char>,
    path: Seq<char>,
    reg: Registry,
    n: int,
) -> (Seq<DiagnosticModel>, Registry)
    decreases e, 0int, n,
{
    if n <= 0 || n > e.spec_nodes().len() {
        (Seq::empty(), reg)
    } else {
        let (prior, reg1) = nodes_findings(e, kind, local, path, reg, n - 1);
        match e.spec_nodes()[n - 1] {
            Node::Element(c) => {
                proof {
                    lemma_child_decreases(e, n - 1);
                }
                let (more, reg2) = tree_findings(c, kind, Some(local), path, reg1);
                (prior + more, reg2)
            },
            _ => (prior, reg1),
        }
    }
}

/// The finding on the root's namespace and kind.
pub open spec fn root_findings(root: Element) -> Seq<DiagnosticModel> {
    if root.spec_namespace() == Some(DRAFT_PLACEHOLDER_NAMESPACE@) {
        finding(
            Severity::Error,
            DiagnosticCode::DraftNamespace,
            "/"@,
            "root element uses the pre-release placeholder namespace, not ISO 23387 edition 2"@,
        )
    } else if root.spec_namespace() != Some(NAMESPACE@) {
        finding(
            Severity::Error,
            DiagnosticCode::WrongRootNamespace,
            "/"@,
            "root element is not in the ISO 23387 edition 2 namespace"@,
        )
    } else if spec_root_kind(root) is None {
        finding(
            Severity::Error,
            DiagnosticCode::UnknownRootElement,
            "/"@,
            "root element is not a recognized ISO 23387 global element"@,
        )
    } else {
        Seq::empty()
    }
}

/// Every finding of `validate` on a document with this root.
pub open spec fn document_findings(root: Element) -> Seq<DiagnosticModel> {
    root_findings(root) + tree_findings(root, None, None, Seq::empty(), Seq::empty()).0
}

fn push_finding(out: &mut Vec<Diagnostic>, severity: Severity, code: DiagnosticCode, path: &str, message: String)
    ensures
        views(final(out)@) == views(old(out)@) + finding(severity, code, path@, message@),
{
    let d = Diagnostic { severity, code, path: String::from_str(path), message };
    let ghost before = out@;
    out.push(d);
    assert(views(out@) =~= views(before) + finding(severity, code, path@, message@));
}

fn push_static(out: &mut Vec<Diagnostic>, severity: Severity, code: DiagnosticCode, path: &str, message: &str)
    ensures
        views(final(out)@) == views(old(out)@) + finding(severity, code, path@, message@),
{
    push_finding(out, severity, code, path, String::from_str(message));
}


fn guid_check(
    e: &Element,
    identity: bool,
    path: &str,
    registry: &mut Vec<(Vec<char>, String)>,
    out: &mut Vec<Diagnostic>,
)
    ensures
        ({
            let (f, reg2) = guid_findings(*e, identity, path@, reg_view(old(registry)@));
            views(final(out)@) == views(old(out)@) + f && reg_view(final(registry)@) == reg2
        }),
{
    reveal(guid_findings);
    let ghost reg = reg_view(registry@);
    let ghost start = views(out@);
    match e.attribute_ns(Some(NAMESPACE), "GUID") {
        None => {
            if identity {
                push_static(out, Severity::Error, DiagnosticCode::MissingGuid, path, "required dt:GUID attribute is missing");
            } else {
                assert(views(out@) =~= start + Seq::<DiagnosticModel>::empty());
            }
        },
        Some(value) => {
            let ghost key_view = value@.map_values(|c: char| ascii_lower(c));
            if identity {
                let key = lower_ascii(value);
                match registry_find(registry, &key) {
                    Some(i) => {
                        let mut message = String::from_str("GUID duplicates ");
                        message.append(registry[i].1.as_str());
                        push_finding(out, Severity::Error, DiagnosticCode::DuplicateGuid, path, message);
                        let ghost before = registry@;
                        registry.set(i, (key, String::from_str(path)));
                        assert(reg_view(registry@) =~= reg_view(before).update(i as int, (key_view, path@)));
                    },
                    None => {
                        let ghost before = registry@;
                        registry.push((key, String::from_str(path)));
                        assert(reg_view(registry@) =~= reg_view(before).push((key_view, path@)));
                        assert(views(out@) =~= start + Seq::<DiagnosticModel>::empty());
                    },
                }
            } else {
                assert(views(out@) =~= start + Seq::<DiagnosticModel>::empty());
            }
            let ghost mid = views(out@);
            if Guid::from_str(value).is_err() {
                push_static(
                    out,
                    Severity::Error,
                    DiagnosticCode::InvalidGuid,
                    path,
                    "dt:GUID does not match the ISO 23387 lexical contract",
                );
            } else {
                assert(views(out@) =~= mid + Seq::<DiagnosticModel>::empty());
            }
            let ghost f = guid_findings(*e, identity, path@, reg).0;
            assert(views(out@) =~= start + f);
        },
    }
}

fn uri_check(e: &Element, name: &str, path: &str, out: &mut Vec<Diagnostic>)
    ensures
        views(final(out)@) == views(old(out)@) + uri_finding(*e, name@, path@),
{
    reveal(uri_finding);
    match e.attribute_ns(Some(NAMESPACE), name) {
        Some(uri) => {
            if AnyUri::from_str(uri).is_err() {
                let mut message = String::from_str("invalid dt:");
                message.append(name);
                message.append(" value ");
                let quoted = debug_quoted(uri);
                message.append(quoted.as_str());
                push_finding(out, Severity::Error, DiagnosticCode::InvalidUri, path, message);
            } else {
                assert(views(out@) =~= views(old(out)@) + Seq::<DiagnosticModel>::empty());
            }
        },
        None => {
            assert(views(out@) =~= views(old(out)@) + Seq::<DiagnosticModel>::empty());
        },
    }
}

fn concept_check(e: &Element, path: &str, out: &mut Vec<Diagnostic>)
    ensures
        views(final(out)@) == views(old(out)@) + concept_findings(*e, path@),
{
    reveal(concept_findings);
    let ghost start = views(out@);
    match e.attribute_ns(None, "dateOfCreation") {
        None => push_static(
            out,
            Severity::Error,
            DiagnosticCode::MissingCreationDate,
            path,
            "ConceptType-derived element lacks dateOfCreation",
        ),
        Some(value) => {
            if DateTime::from_str(value).is_err() {
                push_static(
                    out,
                    Severity::Error,
                    DiagnosticCode::InvalidCreationDate,
                    path,
                    "dateOfCreation does not match the xs:dateTime lexical contract",
                );
            } else {
                assert(views(out@) =~= start + Seq::<DiagnosticModel>::empty());
            }
        },
    }
    let ghost after_date = views(out@);
    let names = dt_children(e, "Name");
    if names.len() == 0 {
        push_static(out, Severity::Error, DiagnosticCode::MissingName, path, "ConceptType-derived element lacks a Name");
    } else {
        assert(views(out@) =~= after_date + Seq::<DiagnosticModel>::empty());
    }
    let ghost after_name = views(out@);
    let definitions = dt_children(e, "Definition");
    if definitions.len() == 0 {
        push_static(
            out,
            Severity::Warning,
            DiagnosticCode::MissingDefinition,
            path,
            "ConceptType-derived element lacks its required Definition",
        );
    } else if definitions.len() == 1 {
        assert(views(out@) =~= after_name + Seq::<DiagnosticModel>::empty());
    } else {
        push_static(
            out,
            Severity::Warning,
            DiagnosticCode::DuplicateDefinition,
            path,
            "ConceptType-derived element has more than one Definition",
        );
    }
    assert(views(out@) =~= start + concept_findings(*e, path@));
}

fn reference_check(e: &Element, parent: Option<&str>, path: &str, out: &mut Vec<Diagnostic>)
    ensures
        views(final(out)@) == views(old(out)@) + reference_finding(*e, opt_str_view(parent), path@),
{
    reveal(reference_finding);
    let local = e.local_name();
    if is_in_dt(e) && known_reference_name(local) && check_reference_allowed(parent, local)
        && e.attribute_ns(Some(NAMESPACE), "GUID").is_none() && e.attribute_ns(Some(NAMESPACE), "referenceURI").is_none() {
        push_static(
            out,
            Severity::Warning,
            DiagnosticCode::EmptyReference,
            path,
            "reference has neither dt:GUID nor dt:referenceURI",
        );
    } else {
        assert(views(out@) =~= views(old(out)@) + Seq::<DiagnosticModel>::empty());
    }
}

fn text_check(e: &Element, parent: Option<&str>, path: &str, out: &mut Vec<Diagnostic>)
    ensures
        views(final(out)@) == views(old(out)@) + text_finding(*e, opt_str_view(parent), path@),
{
    reveal(text_finding);
    let local = e.local_name();
    if is_in_dt(e) && known_multilingual_name(local) && check_multilingual_allowed(parent, local) {
        match e.attribute_ns(None, "language") {
            None => push_static(
                out,
                Severity::Error,
                DiagnosticCode::MissingLanguage,
                path,
                "multi-language text lacks its required language attribute",
            ),
            Some(language) => {
                if Language::from_str(language).is_err() {
                    push_static(
                        out,
                        Severity::Error,
                        DiagnosticCode::InvalidLanguage,
                        path,
                        "language does not match the xs:language lexical contract",
                    );
                } else {
                    assert(views(out@) =~= views(old(out)@) + Seq::<DiagnosticModel>::empty());
                }
            },
        }
    } else {
        assert(views(out@) =~= views(old(out)@) + Seq::<DiagnosticModel>::empty());
    }
}

fn data_type_check(e: &Element, path: &str, out: &mut Vec<Diagnostic>)
    ensures
        views(final(out)@) == views(old(out)@) + data_type_finding(*e, path@),
{
    reveal(data_type_finding);
    if element_is_dt(e, "DataType") {
        match e.attribute_ns(None, "name") {
            None => push_static(
                out,
                Severity::Warning,
                DiagnosticCode::MissingDataTypeName,
                path,
                "DataType has no name; Annex E permits it but the value is underspecified",
            ),
            Some(name) => {
                if matches!(DataTypeName::from(name), DataTypeName::Other(_)) {
                    let mut message = String::from_str("unknown data-type name ");
                    let quoted = debug_quoted(name);
                    message.append(quoted.as_str());
                    message.append(" retained");
                    push_finding(out, Severity::Warning, DiagnosticCode::UnknownDataType, path, message);
                } else {
                    assert(views(out@) =~= views(old(out)@) + Seq::<DiagnosticModel>::empty());
                }
            },
        }
    } else {
        assert(views(out@) =~= views(old(out)@) + Seq::<DiagnosticModel>::empty());
    }
}

fn own_check(
    element: &Element,
    parent_kind: Option<ElementKind>,
    parent: Option<&str>,
    path: &str,
    registry: &mut Vec<(Vec<char>, String)>,
    out: &mut Vec<Diagnostic>,
) -> (kind: Option<ElementKind>)
    ensures
        kind == kind_of(*element),
        ({
            let (f, reg2) = own_findings(*element, parent_kind, opt_str_view(parent), path@, reg_view(old(registry)@));
            views(final(out)@) == views(old(out)@) + f && reg_view(final(registry)@) == reg2
        }),
{
    let ghost start = views(out@);
    let ghost reg0 = reg_view(registry@);
    let kind = ElementKind::from_element(element);
    let identity = match parent_kind {
        None => match kind {
            Some(k) => k.is_global_root(),
            None => false,
        },
        Some(ElementKind::Library) => kind.is_some(),
        _ => false,
    };
    let concept = identity && match kind {
        Some(ElementKind::Library) => false,
        _ => true,
    };
    guid_check(element, identity, path, registry, out);
    let ghost g = views(out@);
    uri_check(element, "referenceURI", path, out);
    uri_check(element, "about", path, out);
    let ghost u = views(out@);
    if concept {
        concept_check(element, path, out);
    } else {
        assert(views(out@) =~= u + Seq::<DiagnosticModel>::empty());
    }
    reference_check(element, parent, path, out);
    text_check(element, parent, path, out);
    data_type_check(element, path, out);
    assert(views(out@) =~= start + own_findings(*element, parent_kind, opt_str_view(parent), path@, reg0).0);
    kind
}

fn validate_element(
    element: &Element,
    parent_kind: Option<ElementKind>,
    parent: Option<&str>,
    parent_path: &str,
    registry: &mut Vec<(Vec<char>, String)>,
    out: &mut Vec<Diagnostic>,
)
    ensures
        ({
            let (f, reg2) = tree_findings(*element, parent_kind, opt_str_view(parent), parent_path@, reg_view(old(registry)@));
            views(final(out)@) == views(old(out)@) + f && reg_view(final(registry)@) == reg2
        }),
    decreases element,
{
    let ghost start = views(out@);
    let ghost reg0 = reg_view(registry@);
    let mut path = String::from_str(parent_path);
    push_char(&mut path, '/');
    path.append(element.qname());
    proof {
        reveal_strlit("/");
        assert(path@ =~= parent_path@ + "/"@ + element.spec_qname());
    }
    let ghost own = own_findings(*element, parent_kind, opt_str_view(parent), path@, reg0);
    let kind = own_check(element, parent_kind, parent, path.as_str(), registry, out);
    let ghost reg1 = reg_view(registry@);
    let nodes = element.nodes();
    let local = element.local_name();
    let mut i: usize = 0;
    assert(views(out@) =~= start + own.0 + nodes_findings(*element, kind, local@, path@, reg1, 0).0);
    while i < nodes.len()
        invariant
            i <= nodes@.len(),
            nodes@ == element.spec_nodes(),
            local@ == element.spec_local_name(),
            kind == kind_of(*element),
            views(out@) == start + own.0 + nodes_findings(*element, kind, local@, path@, reg1, i as int).0,
            reg_view(registry@) == nodes_findings(*element, kind, local@, path@, reg1, i as int).1,
        decreases nodes.len() - i,
    {
        match &nodes[i] {
            Node::Element(child) => {
                proof {
                    lemma_child_decreases(*element, i as int);
                }
                validate_element(child, kind, Some(local), path.as_str(), registry, out);
                assert(views(out@) =~= start + own.0 + nodes_findings(*element, kind, local@, path@, reg1, i + 1).0);
            },
            _ => {
                assert(views(out@) =~= start + own.0 + nodes_findings(*element, kind, local@, path@, reg1, i + 1).0);
            },
        }
        i = i + 1;
    }
    assert(views(out@) =~= start + tree_findings(*element, parent_kind, opt_str_view(parent), parent_path@, reg0).0);
}

impl Document {
    /// Runs the built-in structural checks that do not require the ISO
    /// schema: root namespace and kind, then identity, URI, concept,
    /// reference, multilingual-text and data-type findings depth first.
    pub fn validate(&self) -> (r: Vec<Diagnostic>)
        ensures
            views(r@) == document_findings(self.spec_root()),
    {
        let mut diagnostics: Vec<Diagnostic> = Vec::new();
        let root = self.root();
        let ghost start = views(diagnostics@);
        assert(start =~= Seq::<DiagnosticModel>::empty());
        let draft = match root.namespace_uri() {
            Some(ns) => str_eq(ns, DRAFT_PLACEHOLDER_NAMESPACE),
            None => false,
        };
        if draft {
            push_static(
                &mut diagnostics,
                Severity::Error,
                DiagnosticCode::DraftNamespace,
                "/",
                "root element uses the pre-release placeholder namespace, not ISO 23387 edition 2",
            );
        } else if !is_in_dt(root) {
            push_static(
                &mut diagnostics,
                Severity::Error,
                DiagnosticCode::WrongRootNamespace,
                "/",
                "root element is not in the ISO 23387 edition 2 namespace",
            );
        } else if self.root_kind().is_none() {
            push_static(
                &mut diagnostics,
                Severity::Error,
                DiagnosticCode::UnknownRootElement,
                "/",
                "root element is not a recognized ISO 23387 global element",
            );
        }
        assert(views(diagnostics@) =~= root_findings(*root));
        let mut registry: Vec<(Vec<char>, String)> = Vec::new();
        assert(reg_view(registry@) =~= Seq::<(Seq<char>, Seq<char>)>::empty());
        proof {
            reveal_strlit("");
        }
        validate_element(root, None, None, "", &mut registry, &mut diagnostics);
        diagnostics
    }
}

} // verus!
