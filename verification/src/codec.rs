//! Element codec for the owned ISO 23387 types.
//!
//! Every owned type has `to_element` and `from_element`:
//!
//! * `to_element` builds a `dt:`-qualified element named after the type's
//!   global element (`dt:ObjectType`, `dt:Unit`, ...). It emits no `xmlns`
//!   declarations: the embedding document owns them. Children are written in
//!   declaration order, one group per child name.
//! * `from_element` reads the element's content and ignores its local name,
//!   because standards such as ISO 7817-3 embed ISO 23387 content under their
//!   own unqualified element. The element itself must be ISO 23387 qualified
//!   or unqualified; any other namespace is refused.
//!
//! Decoding fails closed with a structured [`CodecError`] rather than
//! dropping anything: a child the owned model does not represent, including
//! a foreign-namespace extension, is an `UnknownChild`, and an attribute it
//! cannot hold an `UnknownAttribute`.

use vstd::prelude::*;

use crate::document::{attribute_lookup, elements_of, opt_str_view, text_of, Attribute, Element, Node};
use crate::model::{children_of, dt_children, dt_named, element_is_dt, guid_attr, in_dt, is_dt, plain_attr};
use crate::text::{digit, is_digit, is_xml_space, push_char, spec_collapse, str_eq, xml_space};
use crate::value::{
    AnyUri, Base, Base64Binary, Concept, ConceptModel, DataTypeName, DateTime, Decimal, Guid, Language,
    MultiLanguageText, NonNegativeInteger, Rational, Reference, Scale, ValueError, spec_is_any_uri, spec_is_base64,
    spec_is_datetime, spec_is_decimal, spec_is_guid, spec_is_language, spec_is_non_negative_integer, spec_is_rational,
};
use crate::domain::{
    DataTemplateModel, DimensionModel, GroupOfPropertiesModel, PropertyModel, QuantityKindModel,
    ReferenceDocumentModel, SubjectModel, UnitModel, DataTemplate, DataType, DataTypeConstraint, DataValue, Dimension, GroupOfProperties,
    ObjectType, Property, QuantityKind, ReferenceDocument, Subject, Unit, ValueList,
};
use crate::NAMESPACE;
use crate::decodable::{
    concept_valid, data_type_valid, dimension_valid, group_valid, lemma_concept_decodable, lemma_dimension_decodable,
    lemma_group_decodable, lemma_property_decodable, lemma_quantity_kind_decodable, lemma_reference_document_decodable,
    lemma_subject_decodable, lemma_template_decodable, lemma_unit_decodable, property_valid, quantity_kind_valid,
    ref_valid, reference_document_valid, refs_valid, subject_valid, template_valid, text_valid, texts_valid, unit_valid,
};
use crate::round_trip::{
    all_settled, concept_same, concept_settled, data_type_settled, dimension_same, dimension_settled, group_same,
    group_settled, lemma_concept_round_trip, lemma_dimension_round_trip, lemma_group_round_trip,
    lemma_property_round_trip, lemma_quantity_kind_round_trip, lemma_reference_document_round_trip,
    lemma_subject_round_trip, lemma_template_round_trip, lemma_unit_round_trip, property_same, property_settled,
    quantity_kind_same, quantity_kind_settled, ref_settled, reference_document_same, reference_document_settled,
    refs_settled, settled, subject_same, subject_settled, template_same, template_settled, unit_same, unit_settled,
};

verus! {

/// Why decoding an owned value from an element failed.
#[derive(Debug, Clone, Copy, PartialEq, Eq, Hash, Structural)]
#[non_exhaustive]
pub enum CodecErrorKind {
    /// A required attribute is absent.
    MissingAttribute,
    /// A required child element is absent.
    MissingChild,
    /// A child occurs more often than the owned model can hold.
    TooManyChildren,
    /// A child the owned model does not represent (including extensions).
    UnknownChild,
    /// An attribute the owned model does not represent, including a schema
    /// attribute in the wrong namespace (e.g. an unqualified `GUID`).
    UnknownAttribute,
    /// An attribute or text value is outside its lexical space.
    InvalidValue,
    /// Element content where the schema declares simple content, or the reverse.
    UnexpectedContent,
}

/// A structured decoding failure: what went wrong and where.
#[derive(Debug, Clone, PartialEq, Eq)]
pub struct CodecError {
    kind: CodecErrorKind,
    path: String,
    detail: String,
}

impl CodecError {
    pub closed spec fn spec_kind(&self) -> CodecErrorKind {
        self.kind
    }

    pub closed spec fn spec_path(&self) -> Seq<char> {
        self.path@
    }

    pub closed spec fn spec_detail(&self) -> Seq<char> {
        self.detail@
    }

    fn new(kind: CodecErrorKind, path: String, detail: String) -> (r: Self)
        ensures
            r.spec_kind() == kind,
            r.spec_path() == path@,
    {
        CodecError { kind, path, detail }
    }

    /// Stable failure category.
    pub fn kind(&self) -> (r: CodecErrorKind)
        ensures
            r == self.spec_kind(),
    {
        self.kind
    }

    /// Location relative to the decoded element: `Name[2]`, `@GUID`,
    /// `DataType/PossibleValues[1]/ValueList[1]`. Empty for the element itself.
    pub fn path(&self) -> (r: &str)
        ensures
            r@ == self.spec_path(),
    {
        self.path.as_str()
    }

    /// Human-readable detail. Not stable; match on [`CodecError::kind`].
    pub fn detail(&self) -> (r: &str)
        ensures
            r@ == self.spec_detail(),
    {
        self.detail.as_str()
    }

    /// The same failure located below `parent`.
    fn nested(self, parent: &str) -> (r: Self)
        ensures
            r.spec_kind() == self.spec_kind(),
            r.spec_path() == if self.spec_path().len() == 0 {
                parent@
            } else {
                parent@ + seq!['/'] + self.spec_path()
            },
    {
        let mut path = String::from_str(parent);
        if self.path.unicode_len() > 0 {
            push_char(&mut path, '/');
            path.append(self.path.as_str());
        }
        CodecError { kind: self.kind, path, detail: self.detail }
    }
}

fn error(kind: CodecErrorKind, path: &str, detail: &str) -> (r: CodecError)
    ensures
        r.spec_kind() == kind,
        r.spec_path() == path@,
{
    CodecError::new(kind, String::from_str(path), String::from_str(detail))
}

/// The decimal digits of `n`.
pub open spec fn decimal_text(n: nat) -> Seq<char>
    decreases n,
{
    if n < 10 {
        seq![(('0' as u8) + (n as u8)) as char]
    } else {
        decimal_text(n / 10) + seq![(('0' as u8) + ((n % 10) as u8)) as char]
    }
}

pub(crate) fn decimal(n: usize) -> (r: String)
    ensures
        r@ == decimal_text(n as nat),
    decreases n,
{
    let digit = (('0' as u8) + ((n % 10) as u8)) as char;
    if n < 10 {
        let mut s = String::new();
        push_char(&mut s, digit);
        s
    } else {
        let mut s = decimal(n / 10);
        push_char(&mut s, digit);
        s
    }
}

/// `name[index]`.
/// `r` answers a count `n` of children named `name` other than one: none is
/// refused as missing at the element itself, more than one as too many at
/// the second.
pub open spec fn count_refused<T>(r: Result<T, CodecError>, n: nat, name: Seq<char>) -> bool {
    n != 1 ==> if n == 0 {
        refused(r, CodecErrorKind::MissingChild, Seq::empty())
    } else {
        refused(r, CodecErrorKind::TooManyChildren, index_path(name, 2))
    }
}

/// The path of the `i`-th child named `name`, counting from one.
pub open spec fn index_path(name: Seq<char>, i: nat) -> Seq<char> {
    name + seq!['['] + decimal_text(i) + seq![']']
}

fn indexed(name: &str, index: usize) -> (r: String)
    ensures
        r@ == name@ + seq!['['] + decimal_text(index as nat) + seq![']'],
        r@ == index_path(name@, index as nat),
{
    let mut s = String::from_str(name);
    push_char(&mut s, '[');
    let digits = decimal(index);
    s.append(digits.as_str());
    push_char(&mut s, ']');
    s
}

/// `@name`.
fn at_name(name: &str) -> (r: String)
    ensures
        r@ == seq!['@'] + name@,
{
    let mut s = String::new();
    push_char(&mut s, '@');
    s.append(name);
    s
}

fn invalid(path: &str, e: &ValueError) -> (r: CodecError)
    ensures
        r.spec_kind() == CodecErrorKind::InvalidValue,
        r.spec_path() == path@,
{
    CodecError::new(CodecErrorKind::InvalidValue, String::from_str(path), e.message())
}

// ---------------------------------------------------------------------------
// Element shapes
// ---------------------------------------------------------------------------

/// An attribute named `local` in the namespace `ns` (written with prefix
/// `prefix`) whose value is `value`.
pub open spec fn attribute_is(a: Attribute, prefix: Option<Seq<char>>, ns: Option<Seq<char>>, local: Seq<char>, value: Seq<char>) -> bool {
    &&& a.spec_prefix() == prefix
    &&& a.spec_namespace() == ns
    &&& a.spec_local_name() == local
    &&& a.spec_value() == value
    &&& a.spec_qname() == match prefix {
        Some(p) => p + seq![':'] + local,
        None => local,
    }
}

/// A `dt:`-prefixed ISO 23387 element named `local`.
pub open spec fn dt_shaped(e: Element, local: Seq<char>) -> bool {
    is_dt(e, local) && e.spec_prefix() == Some(seq!['d', 't']) && e.spec_qname() == seq!['d', 't', ':'] + local
}

/// Content holding no character data.
pub open spec fn blank_content(nodes: Seq<Node>) -> bool {
    forall|i: int|
        0 <= i < nodes.len() ==> match #[trigger] nodes[i] {
            Node::Text(t) => forall|k: int| 0 <= k < t@.len() ==> is_xml_space(#[trigger] t@[k]),
            Node::CData(t) => forall|k: int| 0 <= k < t@.len() ==> is_xml_space(#[trigger] t@[k]),
            _ => true,
        }
}

/// The element `name` holding multilingual text `v` as written by the codec.
pub open spec fn text_encoding(c: Element, name: Seq<char>, v: MultiLanguageText) -> bool {
    &&& dt_shaped(c, name)
    &&& c.spec_attributes().len() == 1
    &&& attribute_is(c.spec_attributes()[0], None, None, "language"@, v.spec_language()@)
    &&& elements_of(c.spec_nodes()).len() == 0
    &&& text_of(c.spec_nodes()) == v.spec_text()
}

/// The attributes written for a reference: `dt:referenceURI` first, then
/// `dt:GUID`, each when present.
pub open spec fn reference_attributes(attrs: Seq<Attribute>, v: Reference) -> bool {
    let n: int = if v.spec_uri() is Some {
        1
    } else {
        0
    };
    &&& attrs.len() == n + (if v.spec_guid() is Some { 1int } else { 0int })
    &&& v.spec_uri() matches Some(u) ==> attribute_is(attrs[0], Some("dt"@), Some(NAMESPACE@), "referenceURI"@, u@)
    &&& v.spec_guid() matches Some(g) ==> attribute_is(attrs[n as int], Some("dt"@), Some(NAMESPACE@), "GUID"@, g@)
}

/// The element `name` holding reference `v` as written by the codec.
pub open spec fn reference_encoding(c: Element, name: Seq<char>, v: Reference) -> bool {
    &&& dt_shaped(c, name)
    &&& reference_attributes(c.spec_attributes(), v)
    &&& c.spec_nodes().len() == 0
}

/// The element `name` holding simple text `t` as written by the codec.
pub open spec fn simple_encoding(c: Element, name: Seq<char>, t: Seq<char>) -> bool {
    &&& dt_shaped(c, name)
    &&& c.spec_attributes().len() == 0
    &&& elements_of(c.spec_nodes()).len() == 0
    &&& text_of(c.spec_nodes()) == t
}

fn dt_element(local: &str) -> (r: Element)
    ensures
        dt_shaped(r, local@),
        r.spec_attributes().len() == 0,
        r.spec_nodes().len() == 0,
{
    let r = Element::new(Some(NAMESPACE), Some("dt"), local);
    proof {
        reveal_strlit("dt");
        assert("dt"@ =~= seq!['d', 't']);
        assert(r.spec_prefix() == Some(seq!['d', 't']));
        assert(r.spec_qname() =~= seq!['d', 't', ':'] + local@);
        assert(r.spec_namespace() == Some(NAMESPACE@));
        assert(r.spec_local_name() == local@);
    }
    r
}

fn dt_attribute(local: &str, value: &str) -> (r: Attribute)
    ensures
        attribute_is(r, Some("dt"@), Some(NAMESPACE@), local@, value@),
{
    Attribute::new(Some("dt"), local, Some(NAMESPACE), value)
}

fn plain_attribute(local: &str, value: &str) -> (r: Attribute)
    ensures
        attribute_is(r, None, None, local@, value@),
{
    Attribute::new(None, local, None, value)
}

fn multilingual(name: &str, value: &MultiLanguageText) -> (r: Element)
    ensures
        text_encoding(r, name@, *value),
        text_valid(*value),
{
    let e = dt_element(name).with_attribute(plain_attribute("language", value.language()));
    assert(text_of(e.spec_nodes()) =~= Seq::<char>::empty());
    assert(elements_of(e.spec_nodes()) =~= Seq::<Element>::empty());
    let r = e.with_text(value.text());
    assert(r.spec_attributes() =~= seq![r.spec_attributes()[0]]);
    r
}

fn reference(name: &str, value: &Reference) -> (r: Element)
    ensures
        reference_encoding(r, name@, *value),
        ref_valid(*value),
        ref_settled(*value),
{
    let mut element = dt_element(name);
    match value.uri() {
        Some(uri) => {
            element = element.with_attribute(dt_attribute("referenceURI", uri));
        },
        None => {},
    }
    let ghost after_uri = element.spec_attributes();
    match value.guid() {
        Some(guid) => {
            element = element.with_attribute(dt_attribute("GUID", guid.as_str()));
        },
        None => {},
    }
    proof {
        reveal_strlit("dt");
        if value.spec_uri() is Some {
            assert(element.spec_attributes().take(1) == after_uri);
        }
    }
    element
}

fn simple(name: &str, text: &str) -> (r: Element)
    ensures
        simple_encoding(r, name@, text@),
{
    let e = dt_element(name);
    assert(text_of(e.spec_nodes()) =~= Seq::<char>::empty());
    assert(elements_of(e.spec_nodes()) =~= Seq::<Element>::empty());
    e.with_text(text)
}


// ---------------------------------------------------------------------------
// Encoding
// ---------------------------------------------------------------------------

/// Content made only of elements.
pub open spec fn all_elements(nodes: Seq<Node>) -> bool {
    forall|i: int| 0 <= i < nodes.len() ==> (#[trigger] nodes[i]) is Element
}

/// `r` is `e` with children appended: names, namespace and attributes kept,
/// earlier children kept in place.
pub open spec fn extends(r: Element, e: Element, added: int) -> bool {
    &&& r.spec_qname() == e.spec_qname()
    &&& r.spec_prefix() == e.spec_prefix()
    &&& r.spec_local_name() == e.spec_local_name()
    &&& r.spec_namespace() == e.spec_namespace()
    &&& r.spec_attributes() == e.spec_attributes()
    &&& all_elements(e.spec_nodes()) ==> all_elements(r.spec_nodes())
    &&& children_of(r).len() == children_of(e).len() + added
    &&& forall|i: int| 0 <= i < children_of(e).len() ==> #[trigger] children_of(r)[i] == children_of(e)[i]
}

pub open spec fn texts_at(kids: Seq<Element>, at: int, name: Seq<char>, values: Seq<MultiLanguageText>) -> bool {
    &&& 0 <= at
    &&& at + values.len() <= kids.len()
    &&& forall|i: int| 0 <= i < values.len() ==> text_encoding(#[trigger] kids[at + i], name, values[i])
}

pub open spec fn refs_at(kids: Seq<Element>, at: int, name: Seq<char>, values: Seq<Reference>) -> bool {
    &&& 0 <= at
    &&& at + values.len() <= kids.len()
    &&& forall|i: int| 0 <= i < values.len() ==> reference_encoding(#[trigger] kids[at + i], name, values[i])
}

pub open spec fn simples_at(kids: Seq<Element>, at: int, name: Seq<char>, values: Seq<Seq<char>>) -> bool {
    &&& 0 <= at
    &&& at + values.len() <= kids.len()
    &&& forall|i: int| 0 <= i < values.len() ==> simple_encoding(#[trigger] kids[at + i], name, values[i])
}

proof fn lemma_child_push(nodes: Seq<Node>, c: Element)
    ensures
        elements_of(nodes.push(Node::Element(c))) == elements_of(nodes).push(c),
        all_elements(nodes) ==> all_elements(nodes.push(Node::Element(c))),
{
    assert(nodes.push(Node::Element(c)).drop_last() == nodes);
}

fn add_child(e: Element, c: Element) -> (r: Element)
    ensures
        extends(r, e, 1),
        children_of(r)[children_of(e).len() as int] == c,
{
    proof {
        lemma_child_push(e.spec_nodes(), c);
    }
    e.with_child(c)
}

fn add_texts(e: Element, name: &str, values: &[MultiLanguageText]) -> (r: Element)
    ensures
        extends(r, e, values@.len() as int),
        texts_at(children_of(r), children_of(e).len() as int, name@, values@),
        texts_valid(values@),
{
    let mut r = e;
    let mut i: usize = 0;
    while i < values.len()
        invariant
            i <= values@.len(),
            forall|k: int| 0 <= k < i ==> text_valid(#[trigger] values@[k]),
            extends(r, e, i as int),
            texts_at(children_of(r), children_of(e).len() as int, name@, values@.take(i as int)),
        decreases values.len() - i,
    {
        let ghost before = r;
        r = add_child(r, multilingual(name, &values[i]));
        assert forall|k: int| 0 <= k < i + 1 implies text_encoding(#[trigger] children_of(r)[children_of(e).len() + k], name@, values@.take(i + 1)[k]) by {
            if k < i {
                assert(children_of(r)[children_of(e).len() + k] == children_of(before)[children_of(e).len() + k]);
                assert(values@.take(i + 1)[k] == values@.take(i as int)[k]);
            }
        }
        i = i + 1;
    }
    assert(values@.take(values@.len() as int) =~= values@);
    r
}

fn add_refs(e: Element, name: &str, values: &[Reference]) -> (r: Element)
    ensures
        extends(r, e, values@.len() as int),
        refs_at(children_of(r), children_of(e).len() as int, name@, values@),
        refs_valid(values@),
        refs_settled(values@),
{
    let mut r = e;
    let mut i: usize = 0;
    while i < values.len()
        invariant
            i <= values@.len(),
            forall|k: int| 0 <= k < i ==> ref_valid(#[trigger] values@[k]) && ref_settled(values@[k]),
            extends(r, e, i as int),
            refs_at(children_of(r), children_of(e).len() as int, name@, values@.take(i as int)),
        decreases values.len() - i,
    {
        let ghost before = r;
        r = add_child(r, reference(name, &values[i]));
        assert forall|k: int| 0 <= k < i + 1 implies reference_encoding(#[trigger] children_of(r)[children_of(e).len() + k], name@, values@.take(i + 1)[k]) by {
            if k < i {
                assert(children_of(r)[children_of(e).len() + k] == children_of(before)[children_of(e).len() + k]);
                assert(values@.take(i + 1)[k] == values@.take(i as int)[k]);
            }
        }
        i = i + 1;
    }
    assert(values@.take(values@.len() as int) =~= values@);
    r
}

/// Appends one simple element per string.
fn add_strings(e: Element, name: &str, values: &[String]) -> (r: Element)
    ensures
        extends(r, e, values@.len() as int),
        simples_at(children_of(r), children_of(e).len() as int, name@, values@.map_values(|v: String| v@)),
{
    let mut r = e;
    let mut i: usize = 0;
    while i < values.len()
        invariant
            i <= values@.len(),
            extends(r, e, i as int),
            simples_at(children_of(r), children_of(e).len() as int, name@, values@.take(i as int).map_values(|v: String| v@)),
        decreases values.len() - i,
    {
        let ghost before = r;
        r = add_child(r, simple(name, values[i].as_str()));
        assert forall|k: int| 0 <= k < i + 1 implies simple_encoding(#[trigger] children_of(r)[children_of(e).len() + k], name@, values@.take(i + 1).map_values(|v: String| v@)[k]) by {
            if k < i {
                assert(children_of(r)[children_of(e).len() + k] == children_of(before)[children_of(e).len() + k]);
                assert(values@.take(i + 1)[k] == values@.take(i as int)[k]);
            }
        }
        i = i + 1;
    }
    assert(values@.take(values@.len() as int) =~= values@);
    r
}

/// Appends one simple element holding `text`.
fn add_simple(e: Element, name: &str, text: &str) -> (r: Element)
    ensures
        extends(r, e, 1),
        simple_encoding(children_of(r)[children_of(e).len() as int], name@, text@),
{
    add_child(e, simple(name, text))
}


proof fn lemma_keep_texts(r: Element, e: Element, added: int, at: int, name: Seq<char>, values: Seq<MultiLanguageText>)
    requires
        0 <= added,
        extends(r, e, added),
        texts_at(children_of(e), at, name, values),
    ensures
        texts_at(children_of(r), at, name, values),
{
    assert forall|i: int| 0 <= i < values.len() implies text_encoding(#[trigger] children_of(r)[at + i], name, values[i]) by {
        assert(children_of(r)[at + i] == children_of(e)[at + i]);
    }
}

proof fn lemma_keep_refs(r: Element, e: Element, added: int, at: int, name: Seq<char>, values: Seq<Reference>)
    requires
        0 <= added,
        extends(r, e, added),
        refs_at(children_of(e), at, name, values),
    ensures
        refs_at(children_of(r), at, name, values),
{
    assert forall|i: int| 0 <= i < values.len() implies reference_encoding(#[trigger] children_of(r)[at + i], name, values[i]) by {
        assert(children_of(r)[at + i] == children_of(e)[at + i]);
    }
}

proof fn lemma_keep_simples(r: Element, e: Element, added: int, at: int, name: Seq<char>, values: Seq<Seq<char>>)
    requires
        0 <= added,
        extends(r, e, added),
        simples_at(children_of(e), at, name, values),
    ensures
        simples_at(children_of(r), at, name, values),
{
    assert forall|i: int| 0 <= i < values.len() implies simple_encoding(#[trigger] children_of(r)[at + i], name, values[i]) by {
        assert(children_of(r)[at + i] == children_of(e)[at + i]);
    }
}

proof fn lemma_extends_trans(r2: Element, r1: Element, e: Element, a: int, b: int)
    requires
        0 <= a,
        0 <= b,
        extends(r1, e, a),
        extends(r2, r1, b),
    ensures
        extends(r2, e, a + b),
{
    assert forall|i: int| 0 <= i < children_of(e).len() implies #[trigger] children_of(r2)[i] == children_of(e)[i] by {
        assert(children_of(r2)[i] == children_of(r1)[i]);
    }
}

/// The attributes written for a concept: `dt:about` when present, `dt:GUID`
/// and `dateOfCreation`.
pub open spec fn concept_attributes(attrs: Seq<Attribute>, m: ConceptModel) -> bool {
    let n: int = if m.about is Some { 1 } else { 0 };
    &&& attrs.len() == n + 2
    &&& m.about matches Some(a) ==> attribute_is(attrs[0], Some("dt"@), Some(NAMESPACE@), "about"@, a@)
    &&& attribute_is(attrs[n], Some("dt"@), Some(NAMESPACE@), "GUID"@, m.guid@)
    &&& attribute_is(attrs[n + 1], None, None, "dateOfCreation"@, m.date_of_creation@)
}

pub open spec fn lexemes_language(v: Seq<Language>) -> Seq<Seq<char>> {
    v.map_values(|x: Language| x@)
}

pub open spec fn lexemes_string(v: Seq<String>) -> Seq<Seq<char>> {
    v.map_values(|x: String| x@)
}

pub open spec fn lexemes_base64(v: Seq<Base64Binary>) -> Seq<Seq<char>> {
    v.map_values(|x: Base64Binary| x@)
}

pub open spec fn lexemes_count(v: Seq<NonNegativeInteger>) -> Seq<Seq<char>> {
    v.map_values(|x: NonNegativeInteger| x@)
}

/// The first group of `ConceptType` children: names, definitions,
/// reference documents, descriptions and examples.
pub open spec fn concept_head(kids: Seq<Element>, m: ConceptModel, at: int) -> bool {
    let o2 = at + m.names.len();
    let o3 = o2 + m.definitions.len();
    let o4 = o3 + m.reference_document_refs.len();
    let o5 = o4 + m.descriptions.len();
    &&& texts_at(kids, at, "Name"@, m.names)
    &&& texts_at(kids, o2, "Definition"@, m.definitions)
    &&& refs_at(kids, o3, "ReferenceDocumentRef"@, m.reference_document_refs)
    &&& texts_at(kids, o4, "Description"@, m.descriptions)
    &&& texts_at(kids, o5, "Example"@, m.examples)
}

pub open spec fn concept_head_len(m: ConceptModel) -> int {
    (m.names.len() + m.definitions.len() + m.reference_document_refs.len() + m.descriptions.len() + m.examples.len()) as int
}

/// The second group: similar concepts, creator languages, countries,
/// visual representations and versions.
pub open spec fn concept_middle(kids: Seq<Element>, m: ConceptModel, at: int) -> bool {
    let o2 = at + m.similar_to_refs.len();
    let o3 = o2 + m.languages_of_creator.len();
    let o4 = o3 + m.countries_of_origin.len();
    let o5 = o4 + m.visual_representations.len();
    let o6 = o5 + m.major_versions.len();
    &&& refs_at(kids, at, "SimilarToRef"@, m.similar_to_refs)
    &&& simples_at(kids, o2, "LanguageOfCreator"@, lexemes_language(m.languages_of_creator))
    &&& simples_at(kids, o3, "CountryOfOrigin"@, lexemes_string(m.countries_of_origin))
    &&& simples_at(kids, o4, "VisualRepresentation"@, lexemes_base64(m.visual_representations))
    &&& simples_at(kids, o5, "MajorVersion"@, lexemes_count(m.major_versions))
    &&& simples_at(kids, o6, "MinorVersion"@, lexemes_count(m.minor_versions))
}

pub open spec fn concept_middle_len(m: ConceptModel) -> int {
    (m.similar_to_refs.len() + m.languages_of_creator.len() + m.countries_of_origin.len()
        + m.visual_representations.len() + m.major_versions.len() + m.minor_versions.len()) as int
}

/// The last group: statuses, replaced objects, deprecation explanations and
/// dictionary references.
pub open spec fn concept_tail(kids: Seq<Element>, m: ConceptModel, at: int) -> bool {
    let o2 = at + m.statuses.len();
    let o3 = o2 + m.replaced_objects_refs.len();
    let o4 = o3 + m.deprecation_explanations.len();
    &&& simples_at(kids, at, "Status"@, lexemes_string(m.statuses))
    &&& refs_at(kids, o2, "ReplacedObjectsRef"@, m.replaced_objects_refs)
    &&& simples_at(kids, o3, "DeprecationExplanation"@, lexemes_string(m.deprecation_explanations))
    &&& refs_at(kids, o4, "DictionaryRef"@, m.dictionary_refs)
}

pub open spec fn concept_tail_len(m: ConceptModel) -> int {
    (m.statuses.len() + m.replaced_objects_refs.len() + m.deprecation_explanations.len() + m.dictionary_refs.len()) as int
}

/// Every `ConceptType` child of `m`, group by group in declaration order,
/// starting at child `at`.
pub open spec fn concept_layout(kids: Seq<Element>, m: ConceptModel, at: int) -> bool {
    &&& concept_head(kids, m, at)
    &&& concept_middle(kids, m, at + concept_head_len(m))
    &&& concept_tail(kids, m, at + concept_head_len(m) + concept_middle_len(m))
}

pub open spec fn concept_len(m: ConceptModel) -> int {
    concept_head_len(m) + concept_middle_len(m) + concept_tail_len(m)
}

fn language_texts(values: &[Language]) -> (r: Vec<String>)
    ensures
        lexemes_string(r@) == lexemes_language(values@),
        all_lexemes(lexemes_language(values@), |t: Seq<char>| spec_is_language(t)),
        all_settled(lexemes_language(values@)),
{
    let mut out: Vec<String> = Vec::new();
    let mut i: usize = 0;
    while i < values.len()
        invariant
            i <= values@.len(),
            lexemes_string(out@) == lexemes_language(values@.take(i as int)),
            forall|k: int| 0 <= k < i ==> spec_is_language(#[trigger] values@[k]@) && settled(values@[k]@),
        decreases values.len() - i,
    {
        let text = values[i].to_string();
        let ghost before = out@;
        out.push(text);
        assert(lexemes_string(out@) =~= lexemes_string(before).push(values@[i as int]@));
        assert(values@.take(i + 1) =~= values@.take(i as int).push(values@[i as int]));
        assert(lexemes_language(values@.take(i + 1)) =~= lexemes_language(values@.take(i as int)).push(values@[i as int]@));
        i = i + 1;
    }
    assert(values@.take(values@.len() as int) =~= values@);
    out
}

fn base64_texts(values: &[Base64Binary]) -> (r: Vec<String>)
    ensures
        lexemes_string(r@) == lexemes_base64(values@),
        all_lexemes(lexemes_base64(values@), |t: Seq<char>| spec_is_base64(t)),
        all_settled(lexemes_base64(values@)),
{
    let mut out: Vec<String> = Vec::new();
    let mut i: usize = 0;
    while i < values.len()
        invariant
            i <= values@.len(),
            lexemes_string(out@) == lexemes_base64(values@.take(i as int)),
            forall|k: int| 0 <= k < i ==> spec_is_base64(#[trigger] values@[k]@) && settled(values@[k]@),
        decreases values.len() - i,
    {
        let text = values[i].to_string();
        let ghost before = out@;
        out.push(text);
        assert(lexemes_string(out@) =~= lexemes_string(before).push(values@[i as int]@));
        assert(values@.take(i + 1) =~= values@.take(i as int).push(values@[i as int]));
        assert(lexemes_base64(values@.take(i + 1)) =~= lexemes_base64(values@.take(i as int)).push(values@[i as int]@));
        i = i + 1;
    }
    assert(values@.take(values@.len() as int) =~= values@);
    out
}

fn count_texts(values: &[NonNegativeInteger]) -> (r: Vec<String>)
    ensures
        lexemes_string(r@) == lexemes_count(values@),
        all_lexemes(lexemes_count(values@), |t: Seq<char>| spec_is_non_negative_integer(t)),
        all_settled(lexemes_count(values@)),
{
    let mut out: Vec<String> = Vec::new();
    let mut i: usize = 0;
    while i < values.len()
        invariant
            i <= values@.len(),
            lexemes_string(out@) == lexemes_count(values@.take(i as int)),
            forall|k: int| 0 <= k < i ==> spec_is_non_negative_integer(#[trigger] values@[k]@) && settled(values@[k]@),
        decreases values.len() - i,
    {
        let text = values[i].to_string();
        let ghost before = out@;
        out.push(text);
        assert(lexemes_string(out@) =~= lexemes_string(before).push(values@[i as int]@));
        assert(values@.take(i + 1) =~= values@.take(i as int).push(values@[i as int]));
        assert(lexemes_count(values@.take(i + 1)) =~= lexemes_count(values@.take(i as int)).push(values@[i as int]@));
        i = i + 1;
    }
    assert(values@.take(values@.len() as int) =~= values@);
    out
}

fn write_concept_head(e: Element, concept: &Concept) -> (r: Element)
    ensures
        extends(r, e, concept_head_len(concept@)),
        concept_head(children_of(r), concept@, children_of(e).len() as int),
        texts_valid(concept@.names) && texts_valid(concept@.definitions),
        texts_valid(concept@.descriptions) && texts_valid(concept@.examples),
        refs_valid(concept@.reference_document_refs) && refs_settled(concept@.reference_document_refs),
{
    let ghost m = concept@;
    let ghost at = children_of(e).len() as int;
    let r1 = add_texts(e, "Name", concept.names());
    let r2 = add_texts(r1, "Definition", concept.definitions());
    let r3 = add_refs(r2, "ReferenceDocumentRef", concept.reference_document_refs());
    let r4 = add_texts(r3, "Description", concept.descriptions());
    let r5 = add_texts(r4, "Example", concept.examples());
    proof {
        let n1 = m.names.len() as int;
        let n2 = m.definitions.len() as int;
        let n3 = m.reference_document_refs.len() as int;
        let n4 = m.descriptions.len() as int;
        let n5 = m.examples.len() as int;
        lemma_extends_trans(r2, r1, e, n1, n2);
        lemma_extends_trans(r3, r2, e, n1 + n2, n3);
        lemma_extends_trans(r4, r3, e, n1 + n2 + n3, n4);
        lemma_extends_trans(r5, r4, e, n1 + n2 + n3 + n4, n5);
        lemma_extends_trans(r5, r4, r3, n4, n5);
        lemma_extends_trans(r5, r3, r2, n3, n4 + n5);
        lemma_extends_trans(r5, r2, r1, n2, n3 + n4 + n5);
        lemma_keep_texts(r5, r1, n2 + n3 + n4 + n5, at, "Name"@, m.names);
        lemma_keep_texts(r5, r2, n3 + n4 + n5, at + n1, "Definition"@, m.definitions);
        lemma_keep_refs(r5, r3, n4 + n5, at + n1 + n2, "ReferenceDocumentRef"@, m.reference_document_refs);
        lemma_keep_texts(r5, r4, n5, at + n1 + n2 + n3, "Description"@, m.descriptions);
    }
    r5
}

fn write_concept_middle(e: Element, concept: &Concept) -> (r: Element)
    ensures
        extends(r, e, concept_middle_len(concept@)),
        concept_middle(children_of(r), concept@, children_of(e).len() as int),
        refs_valid(concept@.similar_to_refs) && refs_settled(concept@.similar_to_refs),
        all_lexemes(lexemes_language(concept@.languages_of_creator), |t: Seq<char>| spec_is_language(t)),
        all_lexemes(lexemes_base64(concept@.visual_representations), |t: Seq<char>| spec_is_base64(t)),
        all_lexemes(lexemes_count(concept@.major_versions), |t: Seq<char>| spec_is_non_negative_integer(t)),
        all_lexemes(lexemes_count(concept@.minor_versions), |t: Seq<char>| spec_is_non_negative_integer(t)),
        all_settled(lexemes_language(concept@.languages_of_creator)),
        all_settled(lexemes_base64(concept@.visual_representations)),
        all_settled(lexemes_count(concept@.major_versions)),
        all_settled(lexemes_count(concept@.minor_versions)),
{
    let ghost m = concept@;
    let ghost at = children_of(e).len() as int;
    let r1 = add_refs(e, "SimilarToRef", concept.similar_to_refs());
    let languages = language_texts(concept.languages_of_creator());
    let r2 = add_strings(r1, "LanguageOfCreator", languages.as_slice());
    let r3 = add_strings(r2, "CountryOfOrigin", concept.countries_of_origin());
    let pictures = base64_texts(concept.visual_representations());
    let r4 = add_strings(r3, "VisualRepresentation", pictures.as_slice());
    let majors = count_texts(concept.major_versions());
    let r5 = add_strings(r4, "MajorVersion", majors.as_slice());
    let minors = count_texts(concept.minor_versions());
    let r6 = add_strings(r5, "MinorVersion", minors.as_slice());
    proof {
        let n1 = m.similar_to_refs.len() as int;
        let n2 = m.languages_of_creator.len() as int;
        let n3 = m.countries_of_origin.len() as int;
        let n4 = m.visual_representations.len() as int;
        let n5 = m.major_versions.len() as int;
        let n6 = m.minor_versions.len() as int;
        assert(languages@.len() == n2);
        assert(pictures@.len() == n4);
        assert(majors@.len() == n5);
        assert(minors@.len() == n6);
        lemma_extends_trans(r2, r1, e, n1, n2);
        lemma_extends_trans(r3, r2, e, n1 + n2, n3);
        lemma_extends_trans(r4, r3, e, n1 + n2 + n3, n4);
        lemma_extends_trans(r5, r4, e, n1 + n2 + n3 + n4, n5);
        lemma_extends_trans(r6, r5, e, n1 + n2 + n3 + n4 + n5, n6);
        lemma_extends_trans(r6, r5, r4, n5, n6);
        lemma_extends_trans(r6, r4, r3, n4, n5 + n6);
        lemma_extends_trans(r6, r3, r2, n3, n4 + n5 + n6);
        lemma_extends_trans(r6, r2, r1, n2, n3 + n4 + n5 + n6);
        lemma_keep_refs(r6, r1, n2 + n3 + n4 + n5 + n6, at, "SimilarToRef"@, m.similar_to_refs);
        lemma_keep_simples(r6, r2, n3 + n4 + n5 + n6, at + n1, "LanguageOfCreator"@, lexemes_language(m.languages_of_creator));
        lemma_keep_simples(r6, r3, n4 + n5 + n6, at + n1 + n2, "CountryOfOrigin"@, lexemes_string(m.countries_of_origin));
        lemma_keep_simples(r6, r4, n5 + n6, at + n1 + n2 + n3, "VisualRepresentation"@, lexemes_base64(m.visual_representations));
        lemma_keep_simples(r6, r5, n6, at + n1 + n2 + n3 + n4, "MajorVersion"@, lexemes_count(m.major_versions));
    }
    r6
}

fn write_concept_tail(e: Element, concept: &Concept) -> (r: Element)
    ensures
        extends(r, e, concept_tail_len(concept@)),
        concept_tail(children_of(r), concept@, children_of(e).len() as int),
        refs_valid(concept@.replaced_objects_refs) && refs_settled(concept@.replaced_objects_refs),
        refs_valid(concept@.dictionary_refs) && refs_settled(concept@.dictionary_refs),
{
    let ghost m = concept@;
    let ghost at = children_of(e).len() as int;
    let r1 = add_strings(e, "Status", concept.statuses());
    let r2 = add_refs(r1, "ReplacedObjectsRef", concept.replaced_objects_refs());
    let r3 = add_strings(r2, "DeprecationExplanation", concept.deprecation_explanations());
    let r4 = add_refs(r3, "DictionaryRef", concept.dictionary_refs());
    proof {
        let n1 = m.statuses.len() as int;
        let n2 = m.replaced_objects_refs.len() as int;
        let n3 = m.deprecation_explanations.len() as int;
        let n4 = m.dictionary_refs.len() as int;
        lemma_extends_trans(r2, r1, e, n1, n2);
        lemma_extends_trans(r3, r2, e, n1 + n2, n3);
        lemma_extends_trans(r4, r3, e, n1 + n2 + n3, n4);
        lemma_extends_trans(r4, r3, r2, n3, n4);
        lemma_extends_trans(r4, r2, r1, n2, n3 + n4);
        lemma_keep_simples(r4, r1, n2 + n3 + n4, at, "Status"@, lexemes_string(m.statuses));
        lemma_keep_refs(r4, r2, n3 + n4, at + n1, "ReplacedObjectsRef"@, m.replaced_objects_refs);
        lemma_keep_simples(r4, r3, n4, at + n1 + n2, "DeprecationExplanation"@, lexemes_string(m.deprecation_explanations));
    }
    r4
}

/// Appends every `ConceptType` child of `concept` in declaration order.
fn write_concept(e: Element, concept: &Concept) -> (r: Element)
    ensures
        extends(r, e, concept_len(concept@)),
        concept_layout(children_of(r), concept@, children_of(e).len() as int),
        identity_valid(concept@) ==> concept_valid(concept@) && concept_settled(concept@),
{
    let ghost m = concept@;
    let ghost at = children_of(e).len() as int;
    let r1 = write_concept_head(e, concept);
    let r2 = write_concept_middle(r1, concept);
    let r3 = write_concept_tail(r2, concept);
    proof {
        lemma_extends_trans(r2, r1, e, concept_head_len(m), concept_middle_len(m));
        lemma_extends_trans(r3, r2, e, concept_head_len(m) + concept_middle_len(m), concept_tail_len(m));
        lemma_extends_trans(r3, r2, r1, concept_middle_len(m), concept_tail_len(m));
        lemma_keep_head(r3, r1, concept_middle_len(m) + concept_tail_len(m), m, at);
        lemma_keep_middle(r3, r2, concept_tail_len(m), m, at + concept_head_len(m));
    }
    r3
}

proof fn lemma_keep_head(r: Element, e: Element, added: int, m: ConceptModel, at: int)
    requires
        0 <= added,
        extends(r, e, added),
        concept_head(children_of(e), m, at),
    ensures
        concept_head(children_of(r), m, at),
{
    let o2 = at + m.names.len();
    let o3 = o2 + m.definitions.len();
    let o4 = o3 + m.reference_document_refs.len();
    let o5 = o4 + m.descriptions.len();
    lemma_keep_texts(r, e, added, at, "Name"@, m.names);
    lemma_keep_texts(r, e, added, o2, "Definition"@, m.definitions);
    lemma_keep_refs(r, e, added, o3, "ReferenceDocumentRef"@, m.reference_document_refs);
    lemma_keep_texts(r, e, added, o4, "Description"@, m.descriptions);
    lemma_keep_texts(r, e, added, o5, "Example"@, m.examples);
}

proof fn lemma_keep_middle(r: Element, e: Element, added: int, m: ConceptModel, at: int)
    requires
        0 <= added,
        extends(r, e, added),
        concept_middle(children_of(e), m, at),
    ensures
        concept_middle(children_of(r), m, at),
{
    let o2 = at + m.similar_to_refs.len();
    let o3 = o2 + m.languages_of_creator.len();
    let o4 = o3 + m.countries_of_origin.len();
    let o5 = o4 + m.visual_representations.len();
    let o6 = o5 + m.major_versions.len();
    lemma_keep_refs(r, e, added, at, "SimilarToRef"@, m.similar_to_refs);
    lemma_keep_simples(r, e, added, o2, "LanguageOfCreator"@, lexemes_language(m.languages_of_creator));
    lemma_keep_simples(r, e, added, o3, "CountryOfOrigin"@, lexemes_string(m.countries_of_origin));
    lemma_keep_simples(r, e, added, o4, "VisualRepresentation"@, lexemes_base64(m.visual_representations));
    lemma_keep_simples(r, e, added, o5, "MajorVersion"@, lexemes_count(m.major_versions));
    lemma_keep_simples(r, e, added, o6, "MinorVersion"@, lexemes_count(m.minor_versions));
}

proof fn lemma_keep_tail(r: Element, e: Element, added: int, m: ConceptModel, at: int)
    requires
        0 <= added,
        extends(r, e, added),
        concept_tail(children_of(e), m, at),
    ensures
        concept_tail(children_of(r), m, at),
{
    let o2 = at + m.statuses.len();
    let o3 = o2 + m.replaced_objects_refs.len();
    let o4 = o3 + m.deprecation_explanations.len();
    lemma_keep_simples(r, e, added, at, "Status"@, lexemes_string(m.statuses));
    lemma_keep_refs(r, e, added, o2, "ReplacedObjectsRef"@, m.replaced_objects_refs);
    lemma_keep_simples(r, e, added, o3, "DeprecationExplanation"@, lexemes_string(m.deprecation_explanations));
    lemma_keep_refs(r, e, added, o4, "DictionaryRef"@, m.dictionary_refs);
}

proof fn lemma_keep_concept(r: Element, e: Element, added: int, m: ConceptModel, at: int)
    requires
        0 <= added,
        extends(r, e, added),
        concept_layout(children_of(e), m, at),
    ensures
        concept_layout(children_of(r), m, at),
{
    lemma_keep_head(r, e, added, m, at);
    lemma_keep_middle(r, e, added, m, at + concept_head_len(m));
    lemma_keep_tail(r, e, added, m, at + concept_head_len(m) + concept_middle_len(m));
}

/// A `dt:` element named `local` carrying the concept's attributes.
/// The identifier, creation date and `about` URI of a concept are lexemes
/// their value types accept, left as white-space collapsing leaves them.
pub open spec fn identity_valid(m: ConceptModel) -> bool {
    &&& spec_is_guid(m.guid@)
    &&& spec_is_datetime(m.date_of_creation@) && settled(m.date_of_creation@)
    &&& (m.about matches Some(a) ==> spec_is_any_uri(a@) && settled(a@))
}

fn concept_element(local: &str, concept: &Concept) -> (r: Element)
    ensures
        dt_shaped(r, local@),
        concept_attributes(r.spec_attributes(), concept@),
        r.spec_nodes().len() == 0,
        identity_valid(concept@),
{
    let mut element = dt_element(local);
    match concept.about() {
        Some(about) => {
            element = element.with_attribute(dt_attribute("about", about));
        },
        None => {},
    }
    element = element.with_attribute(dt_attribute("GUID", concept.guid().as_str()));
    element.with_attribute(plain_attribute("dateOfCreation", concept.date_of_creation()))
}


/// The decimal spelling of an `xs:int`.
pub open spec fn int_text(n: i32) -> Seq<char> {
    if n < 0 {
        seq!['-'] + decimal_text((-n) as nat)
    } else {
        decimal_text(n as nat)
    }
}

fn int_string(n: i32) -> (r: String)
    ensures
        r@ == int_text(n),
{
    if n < 0 {
        let magnitude = (-(n as i64)) as usize;
        let mut s = String::new();
        push_char(&mut s, '-');
        let digits = decimal(magnitude);
        s.append(digits.as_str());
        s
    } else {
        decimal(n as usize)
    }
}

pub open spec fn constraint_name(c: DataTypeConstraint) -> Seq<char> {
    match c {
        DataTypeConstraint::MinInclusive(_) => "MinInclusive"@,
        DataTypeConstraint::MinExclusive(_) => "MinExclusive"@,
        DataTypeConstraint::MaxInclusive(_) => "MaxInclusive"@,
        DataTypeConstraint::MaxExclusive(_) => "MaxExclusive"@,
    }
}

pub open spec fn constraint_bound(c: DataTypeConstraint) -> Seq<char> {
    match c {
        DataTypeConstraint::MinInclusive(b) => b@,
        DataTypeConstraint::MinExclusive(b) => b@,
        DataTypeConstraint::MaxInclusive(b) => b@,
        DataTypeConstraint::MaxExclusive(b) => b@,
    }
}

/// An empty element `name` whose only attribute is `value`.
pub open spec fn valued_encoding(e: Element, name: Seq<char>, value: Seq<char>) -> bool {
    &&& dt_shaped(e, name)
    &&& e.spec_attributes().len() == 1
    &&& attribute_is(e.spec_attributes()[0], None, None, "value"@, value)
    &&& e.spec_nodes().len() == 0
}

pub open spec fn value_encoding(e: Element, v: DataValue) -> bool {
    &&& dt_shaped(e, "Value"@)
    &&& match v@.order {
        Some(o) => e.spec_attributes().len() == 1 && attribute_is(e.spec_attributes()[0], None, None, "order"@, int_text(o)),
        None => e.spec_attributes().len() == 0,
    }
    &&& elements_of(e.spec_nodes()).len() == 0
    &&& text_of(e.spec_nodes()) == v@.value
}

pub open spec fn value_list_encoding(e: Element, l: ValueList) -> bool {
    &&& dt_shaped(e, "ValueList"@)
    &&& e.spec_attributes().len() == 1
    &&& attribute_is(e.spec_attributes()[0], None, None, "language"@, l@.language@)
    &&& all_elements(e.spec_nodes())
    &&& children_of(e).len() == l@.values.len()
    &&& forall|i: int| 0 <= i < l@.values.len() ==> value_encoding(#[trigger] children_of(e)[i], l@.values[i])
}

pub open spec fn possible_values_encoding(e: Element, l: ValueList) -> bool {
    &&& dt_shaped(e, "PossibleValues"@)
    &&& e.spec_attributes().len() == 0
    &&& all_elements(e.spec_nodes())
    &&& children_of(e).len() == 1
    &&& value_list_encoding(children_of(e)[0], l)
}

/// The `dt:DataType` element written for `m`: its optional `name`, then its
/// bounds, data formats and possible-value lists.
pub open spec fn data_type_encoding(e: Element, m: crate::domain::DataTypeModel) -> bool {
    let c = m.constraints.len() as int;
    let f = m.data_formats.len() as int;
    &&& dt_shaped(e, "DataType"@)
    &&& match m.name {
        Some(n) => e.spec_attributes().len() == 1 && attribute_is(
            e.spec_attributes()[0],
            None,
            None,
            "name"@,
            crate::value::data_type_name_str(n),
        ),
        None => e.spec_attributes().len() == 0,
    }
    &&& all_elements(e.spec_nodes())
    &&& children_of(e).len() == c + f + m.possible_values.len()
    &&& forall|i: int| 0 <= i < c ==> valued_encoding(#[trigger] children_of(e)[i], constraint_name(m.constraints[i]), constraint_bound(m.constraints[i]))
    &&& forall|i: int| 0 <= i < f ==> valued_encoding(#[trigger] children_of(e)[c + i], "DataFormat"@, m.data_formats[i]@)
    &&& forall|i: int| 0 <= i < m.possible_values.len() ==> possible_values_encoding(#[trigger] children_of(e)[c + f + i], m.possible_values[i])
}

fn valued(name: &str, value: &str) -> (r: Element)
    ensures
        valued_encoding(r, name@, value@),
{
    let r = dt_element(name).with_attribute(plain_attribute("value", value));
    assert(r.spec_attributes() =~= seq![r.spec_attributes()[0]]);
    r
}

fn value_element(v: &DataValue) -> (r: Element)
    ensures
        value_encoding(r, *v),
{
    let mut e = dt_element("Value");
    match v.order() {
        Some(order) => {
            let text = int_string(order);
            e = e.with_attribute(plain_attribute("order", text.as_str()));
        },
        None => {},
    }
    assert(text_of(e.spec_nodes()) =~= Seq::<char>::empty());
    assert(elements_of(e.spec_nodes()) =~= Seq::<Element>::empty());
    e.with_text(v.value())
}

fn value_list_element(l: &ValueList) -> (r: Element)
    ensures
        value_list_encoding(r, *l),
        spec_is_language(l@.language@) && settled(l@.language@) && l@.values.len() > 0,
{
    let base = dt_element("ValueList").with_attribute(plain_attribute("language", l.language().as_str()));
    let values = l.values();
    let mut e = base;
    let mut i: usize = 0;
    assert(children_of(base) =~= Seq::<Element>::empty());
    while i < values.len()
        invariant
            i <= values@.len(),
            values@ == l@.values,
            extends(e, base, i as int),
            all_elements(base.spec_nodes()),
            base.spec_attributes().len() == 1,
            attribute_is(base.spec_attributes()[0], None, None, "language"@, l@.language@),
            dt_shaped(base, "ValueList"@),
            children_of(base).len() == 0,
            forall|k: int| 0 <= k < i ==> value_encoding(#[trigger] children_of(e)[k], values@[k]),
        decreases values.len() - i,
    {
        let ghost before = e;
        e = add_child(e, value_element(&values[i]));
        proof {
            lemma_extends_trans(e, before, base, i as int, 1);
            assert forall|k: int| 0 <= k < i + 1 implies value_encoding(#[trigger] children_of(e)[k], values@[k]) by {
                if k < i {
                    assert(children_of(e)[k] == children_of(before)[k]);
                }
            }
        }
        i = i + 1;
    }
    e
}

fn possible_values_element(l: &ValueList) -> (r: Element)
    ensures
        possible_values_encoding(r, *l),
        spec_is_language(l@.language@) && settled(l@.language@) && l@.values.len() > 0,
{
    let base = dt_element("PossibleValues");
    assert(children_of(base) =~= Seq::<Element>::empty());
    add_child(base, value_list_element(l))
}

fn constraint_element(c: &DataTypeConstraint) -> (r: Element)
    ensures
        valued_encoding(r, constraint_name(*c), constraint_bound(*c)),
{
    match c {
        DataTypeConstraint::MinInclusive(b) => valued("MinInclusive", b.as_str()),
        DataTypeConstraint::MinExclusive(b) => valued("MinExclusive", b.as_str()),
        DataTypeConstraint::MaxInclusive(b) => valued("MaxInclusive", b.as_str()),
        DataTypeConstraint::MaxExclusive(b) => valued("MaxExclusive", b.as_str()),
    }
}

fn data_type_element(value: &DataType) -> (r: Element)
    ensures
        data_type_encoding(r, value@),
        data_type_valid(value@) && data_type_settled(value@),
{
    let mut base = dt_element("DataType");
    match value.name() {
        Some(name) => {
            base = base.with_attribute(plain_attribute("name", name.as_str()));
        },
        None => {},
    }
    assert(children_of(base) =~= Seq::<Element>::empty());
    let ghost base_view = base;
    let ghost m = value@;
    let constraints = value.constraints();
    let formats = value.data_formats();
    let lists = value.possible_values();
    let ghost c = constraints@.len() as int;
    let ghost f = formats@.len() as int;
    let mut e = base;
    let mut i: usize = 0;
    while i < constraints.len()
        invariant
            i <= constraints@.len(),
            constraints@ == m.constraints,
            extends(e, base, i as int),
            children_of(base).len() == 0,
            forall|k: int| 0 <= k < i ==> valued_encoding(#[trigger] children_of(e)[k], constraint_name(m.constraints[k]), constraint_bound(m.constraints[k])),
        decreases constraints.len() - i,
    {
        let ghost before = e;
        e = add_child(e, constraint_element(&constraints[i]));
        proof {
            lemma_extends_trans(e, before, base, i as int, 1);
            assert forall|k: int| 0 <= k < i + 1 implies valued_encoding(#[trigger] children_of(e)[k], constraint_name(m.constraints[k]), constraint_bound(m.constraints[k])) by {
                if k < i {
                    assert(children_of(e)[k] == children_of(before)[k]);
                }
            }
        }
        i = i + 1;
    }
    let ghost after_bounds = e;
    let mut j: usize = 0;
    while j < formats.len()
        invariant
            j <= formats@.len(),
            formats@ == m.data_formats,
            constraints@ == m.constraints,
            c == constraints@.len(),
            extends(after_bounds, base, c),
            extends(e, after_bounds, j as int),
            children_of(base).len() == 0,
            forall|k: int| 0 <= k < c ==> valued_encoding(#[trigger] children_of(after_bounds)[k], constraint_name(m.constraints[k]), constraint_bound(m.constraints[k])),
            forall|k: int| 0 <= k < j ==> valued_encoding(#[trigger] children_of(e)[c + k], "DataFormat"@, m.data_formats[k]@),
        decreases formats.len() - j,
    {
        let ghost before = e;
        e = add_child(e, valued("DataFormat", formats[j].as_str()));
        proof {
            lemma_extends_trans(e, before, after_bounds, j as int, 1);
            assert forall|k: int| 0 <= k < j + 1 implies valued_encoding(#[trigger] children_of(e)[c + k], "DataFormat"@, m.data_formats[k]@) by {
                if k < j {
                    assert(children_of(e)[c + k] == children_of(before)[c + k]);
                }
            }
        }
        j = j + 1;
    }
    let ghost after_formats = e;
    let mut k: usize = 0;
    while k < lists.len()
        invariant
            k <= lists@.len(),
            lists@ == m.possible_values,
            formats@ == m.data_formats,
            constraints@ == m.constraints,
            c == constraints@.len(),
            f == formats@.len(),
            extends(after_bounds, base, c),
            extends(after_formats, after_bounds, f),
            extends(e, after_formats, k as int),
            children_of(base).len() == 0,
            forall|x: int| 0 <= x < c ==> valued_encoding(#[trigger] children_of(after_bounds)[x], constraint_name(m.constraints[x]), constraint_bound(m.constraints[x])),
            forall|x: int| 0 <= x < f ==> valued_encoding(#[trigger] children_of(after_formats)[c + x], "DataFormat"@, m.data_formats[x]@),
            forall|x: int| 0 <= x < k ==> possible_values_encoding(#[trigger] children_of(e)[c + f + x], m.possible_values[x]),
            forall|x: int|
                0 <= x < k ==> spec_is_language((#[trigger] m.possible_values[x])@.language@) && settled(
                    m.possible_values[x]@.language@,
                ) && m.possible_values[x]@.values.len() > 0,
        decreases lists.len() - k,
    {
        let ghost before = e;
        e = add_child(e, possible_values_element(&lists[k]));
        proof {
            lemma_extends_trans(e, before, after_formats, k as int, 1);
            assert forall|x: int| 0 <= x < k + 1 implies possible_values_encoding(#[trigger] children_of(e)[c + f + x], m.possible_values[x]) by {
                if x < k {
                    assert(children_of(e)[c + f + x] == children_of(before)[c + f + x]);
                }
            }
        }
        k = k + 1;
    }
    proof {
        lemma_extends_trans(after_formats, after_bounds, base, c, f);
        lemma_extends_trans(e, after_formats, after_bounds, f, m.possible_values.len() as int);
        assert forall|x: int| 0 <= x < c implies valued_encoding(#[trigger] children_of(e)[x], constraint_name(m.constraints[x]), constraint_bound(m.constraints[x])) by {
            assert(children_of(e)[x] == children_of(after_bounds)[x]);
        }
        assert forall|x: int| 0 <= x < f implies valued_encoding(#[trigger] children_of(e)[c + x], "DataFormat"@, m.data_formats[x]@) by {
            assert(children_of(e)[c + x] == children_of(after_formats)[c + x]);
        }
    }
    e
}


/// `e` is the `dt:` element `local` carrying a concept's attributes and,
/// from its first child on, the concept's children.
pub open spec fn concept_encoding(e: Element, local: Seq<char>, m: ConceptModel) -> bool {
    &&& dt_shaped(e, local)
    &&& concept_attributes(e.spec_attributes(), m)
    &&& all_elements(e.spec_nodes())
    &&& concept_layout(children_of(e), m, 0)
}

pub open spec fn subject_layout(kids: Seq<Element>, m: SubjectModel) -> bool {
    let c = concept_len(m.concept@);
    &&& concept_layout(kids, m.concept@, 0)
    &&& refs_at(kids, c, "HasPartRef"@, m.has_part_refs)
    &&& refs_at(kids, c + m.has_part_refs.len(), "IsSubtypeOfRef"@, m.is_subtype_of_refs)
}

pub open spec fn subject_len(m: SubjectModel) -> int {
    concept_len(m.concept@) + m.has_part_refs.len() + m.is_subtype_of_refs.len()
}

/// `e` is the element `local` written for subject `m`, with `extra`
/// children after the subject's own.
pub open spec fn subject_encoding(e: Element, local: Seq<char>, m: SubjectModel, extra: int) -> bool {
    &&& concept_encoding(e, local, m.concept@)
    &&& subject_layout(children_of(e), m)
    &&& children_of(e).len() == subject_len(m) + extra
}

fn write_subject(e: Element, subject: &Subject) -> (r: Element)
    requires
        children_of(e).len() == 0,
    ensures
        extends(r, e, subject_len(subject@)),
        subject_layout(children_of(r), subject@),
        identity_valid(subject@.concept@) ==> subject_valid(subject@) && subject_settled(subject@),
{
    let ghost m = subject@;
    let ghost c = concept_len(m.concept@);
    let r1 = write_concept(e, subject.concept());
    let r2 = add_refs(r1, "HasPartRef", subject.has_part_refs());
    let r3 = add_refs(r2, "IsSubtypeOfRef", subject.is_subtype_of_refs());
    proof {
        let n1 = m.has_part_refs.len() as int;
        let n2 = m.is_subtype_of_refs.len() as int;
        lemma_extends_trans(r2, r1, e, c, n1);
        lemma_extends_trans(r3, r2, e, c + n1, n2);
        lemma_extends_trans(r3, r2, r1, n1, n2);
        lemma_keep_concept(r3, r1, n1 + n2, m.concept@, 0);
        lemma_keep_refs(r3, r2, n2, c, "HasPartRef"@, m.has_part_refs);
    }
    r3
}

proof fn lemma_keep_subject(r: Element, e: Element, added: int, m: SubjectModel)
    requires
        0 <= added,
        extends(r, e, added),
        subject_layout(children_of(e), m),
    ensures
        subject_layout(children_of(r), m),
{
    let c = concept_len(m.concept@);
    lemma_keep_concept(r, e, added, m.concept@, 0);
    lemma_keep_refs(r, e, added, c, "HasPartRef"@, m.has_part_refs);
    lemma_keep_refs(r, e, added, c + m.has_part_refs.len(), "IsSubtypeOfRef"@, m.is_subtype_of_refs);
}

impl Concept {
    /// Encodes this concept as a `ConceptType` element named `local_name`.
    ///
    /// What it writes decodes, and whatever [`Concept::from_element`]
    /// reads from it is this concept, lexeme for lexeme.
    pub fn to_element_named(&self, local_name: &str) -> (r: Element)
        ensures
            concept_encoding(r, local_name@, self@),
            children_of(r).len() == concept_len(self@),
            concept_valid(self@) && concept_settled(self@),
            decoded_frame(r, concept_names()) && concept_readable(r),
            forall|d: ConceptModel| concept_decodes(r, d) ==> concept_same(d, self@),
    {
        let e = concept_element(local_name, self);
        assert(children_of(e) =~= Seq::<Element>::empty());
        let r = write_concept(e, self);
        proof {
            lemma_concept_decodable(r, local_name@, self@);
            assert forall|d: ConceptModel| concept_decodes(r, d) implies concept_same(d, self@) by {
                lemma_concept_round_trip(r, local_name@, self@, d);
            }
        }
        r
    }
}

impl Subject {
    /// Encodes as a global `dt:Subject` element.
    ///
    /// What it writes decodes, and whatever [`Subject::from_element`] reads
    /// from it is this subject, lexeme for lexeme.
    pub fn to_element(&self) -> (r: Element)
        ensures
            subject_encoding(r, "Subject"@, self@, 0),
            subject_valid(self@) && subject_settled(self@),
            decoded_frame(r, subject_names()) && subject_readable(r),
            forall|d: SubjectModel| subject_decodes(r, d) ==> subject_same(d, self@),
    {
        let e = concept_element("Subject", self.concept());
        assert(children_of(e) =~= Seq::<Element>::empty());
        let r = write_subject(e, self);
        proof {
            lemma_subject_decodable(r, "Subject"@, self@);
            assert forall|d: SubjectModel| subject_decodes(r, d) implies subject_same(d, self@) by {
                lemma_subject_round_trip(r, "Subject"@, self@, d);
            }
        }
        r
    }
}

impl ObjectType {
    /// Encodes as a global `dt:ObjectType` element.
    ///
    /// What it writes decodes, and whatever [`ObjectType::from_element`]
    /// reads from it is this object type, lexeme for lexeme.
    pub fn to_element(&self) -> (r: Element)
        ensures
            subject_encoding(r, "ObjectType"@, self@@, 0),
            subject_valid(self@@) && subject_settled(self@@),
            decoded_frame(r, subject_names()) && subject_readable(r),
            forall|d: SubjectModel| subject_decodes(r, d) ==> subject_same(d, self@@),
    {
        let subject = self.subject();
        let e = concept_element("ObjectType", subject.concept());
        assert(children_of(e) =~= Seq::<Element>::empty());
        let r = write_subject(e, subject);
        proof {
            lemma_subject_decodable(r, "ObjectType"@, self@@);
            assert forall|d: SubjectModel| subject_decodes(r, d) implies subject_same(d, self@@) by {
                lemma_subject_round_trip(r, "ObjectType"@, self@@, d);
            }
        }
        r
    }
}

impl GroupOfProperties {
    /// Encodes as a global `dt:GroupOfProperties` element.
    pub fn to_element(&self) -> (r: Element)
        ensures
            subject_encoding(r, "GroupOfProperties"@, self@.subject@, self@.property_refs.len() as int),
            refs_at(children_of(r), subject_len(self@.subject@), "HasPropertyRef"@, self@.property_refs),
            group_settled(self@),
            self@.property_refs.len() > 0 ==> group_valid(self@) && decoded_frame(r, group_names()) && subject_readable(r)
                && references_readable(dt_named(children_of(r), "HasPropertyRef"@)) && dt_named(
                children_of(r),
                "HasPropertyRef"@,
            ).len() > 0,
            forall|d: GroupOfPropertiesModel|
                subject_decodes(r, d.subject@) && refs_decode(dt_named(children_of(r), "HasPropertyRef"@), d.property_refs)
                    ==> group_same(d, self@),
    {
        let ghost m = self@;
        let subject = self.subject();
        let e = concept_element("GroupOfProperties", subject.concept());
        assert(children_of(e) =~= Seq::<Element>::empty());
        let r1 = write_subject(e, subject);
        let r2 = add_refs(r1, "HasPropertyRef", self.property_refs());
        proof {
            lemma_extends_trans(r2, r1, e, subject_len(m.subject@), m.property_refs.len() as int);
            lemma_keep_subject(r2, r1, m.property_refs.len() as int, m.subject@);
            if m.property_refs.len() > 0 {
                lemma_group_decodable(r2, m);
            }
            assert forall|d: GroupOfPropertiesModel|
                subject_decodes(r2, d.subject@) && refs_decode(dt_named(children_of(r2), "HasPropertyRef"@), d.property_refs)
                    implies group_same(d, m) by {
                lemma_group_round_trip(r2, m, d);
            }
        }
        r2
    }
}

/// `m` is the data template decoded from `e`.
pub open spec fn template_decodes(e: Element, m: DataTemplateModel) -> bool {
    let kids = children_of(e);
    &&& subject_decodes(e, m.subject@)
    &&& refs_decode(dt_named(kids, "HasObjectTypeRef"@), m.object_type_refs)
    &&& refs_decode(dt_named(kids, "HasPropertyRef"@), m.property_refs)
    &&& refs_decode(dt_named(kids, "HasGroupOfPropertiesRef"@), m.group_of_properties_refs)
}

impl DataTemplate {
    /// Encodes as a global `dt:DataTemplate` element.
    pub fn to_element(&self) -> (r: Element)
        ensures
            ({
                let m = self@;
                let s = subject_len(m.subject@);
                let o = m.object_type_refs.len() as int;
                let p = m.property_refs.len() as int;
                &&& subject_encoding(r, "DataTemplate"@, m.subject@, o + p + m.group_of_properties_refs.len())
                &&& refs_at(children_of(r), s, "HasObjectTypeRef"@, m.object_type_refs)
                &&& refs_at(children_of(r), s + o, "HasPropertyRef"@, m.property_refs)
                &&& refs_at(children_of(r), s + o + p, "HasGroupOfPropertiesRef"@, m.group_of_properties_refs)
            }),
            template_valid(self@) && template_settled(self@),
            decoded_frame(r, template_names()) && template_readable(r),
            forall|d: DataTemplateModel| template_decodes(r, d) ==> template_same(d, self@),
    {
        let ghost m = self@;
        let subject = self.subject();
        let e = concept_element("DataTemplate", subject.concept());
        assert(children_of(e) =~= Seq::<Element>::empty());
        let r1 = write_subject(e, subject);
        let r2 = add_refs(r1, "HasObjectTypeRef", self.object_type_refs());
        let r3 = add_refs(r2, "HasPropertyRef", self.property_refs());
        let r4 = add_refs(r3, "HasGroupOfPropertiesRef", self.group_of_properties_refs());
        proof {
            let s = subject_len(m.subject@);
            let o = m.object_type_refs.len() as int;
            let p = m.property_refs.len() as int;
            let g = m.group_of_properties_refs.len() as int;
            lemma_extends_trans(r2, r1, e, s, o);
            lemma_extends_trans(r3, r2, e, s + o, p);
            lemma_extends_trans(r4, r3, e, s + o + p, g);
            lemma_extends_trans(r4, r3, r2, p, g);
            lemma_extends_trans(r4, r2, r1, o, p + g);
            lemma_keep_subject(r4, r1, o + p + g, m.subject@);
            lemma_keep_refs(r4, r2, p + g, s, "HasObjectTypeRef"@, m.object_type_refs);
            lemma_keep_refs(r4, r3, g, s + o, "HasPropertyRef"@, m.property_refs);
            lemma_template_decodable(r4, m);
            assert forall|d: DataTemplateModel| template_decodes(r4, d) implies template_same(d, m) by {
                lemma_template_round_trip(r4, m, d);
            }
        }
        r4
    }
}

pub open spec fn opt_seq(o: Option<Reference>) -> Seq<Reference> {
    match o {
        Some(r) => seq![r],
        None => Seq::empty(),
    }
}

/// The property-specific children after the concept's: the data type,
/// symbols, dimension, unit, quantity-kind, dependency and specialization
/// references.
pub open spec fn property_layout(kids: Seq<Element>, m: PropertyModel) -> bool {
    let c = concept_len(m.concept@);
    let o1 = c + 1;
    let o2 = o1 + m.symbols.len();
    let o3 = o2 + m.dimension_refs.len();
    let o4 = o3 + m.unit_refs.len();
    let o5 = o4 + m.quantity_kind_refs.len();
    let o6 = o5 + m.dependency_refs.len();
    &&& c < kids.len()
    &&& data_type_encoding(kids[c], m.data_type@)
    &&& simples_at(kids, o1, "Symbol"@, lexemes_string(m.symbols))
    &&& refs_at(kids, o2, "DimensionRef"@, m.dimension_refs)
    &&& refs_at(kids, o3, "UnitRef"@, m.unit_refs)
    &&& refs_at(kids, o4, "QuantityKindRef"@, m.quantity_kind_refs)
    &&& refs_at(kids, o5, "IsDependentOnRef"@, m.dependency_refs)
    &&& refs_at(kids, o6, "IsSpecializationOfRef"@, opt_seq(m.specialization_ref))
}

pub open spec fn property_len(m: PropertyModel) -> int {
    concept_len(m.concept@) + 1 + m.symbols.len() + m.dimension_refs.len() + m.unit_refs.len()
        + m.quantity_kind_refs.len() + m.dependency_refs.len() + opt_seq(m.specialization_ref).len()
}

impl Property {
    /// Encodes as a global `dt:Property` element.
    pub fn to_element(&self) -> (r: Element)
        ensures
            concept_encoding(r, "Property"@, self@.concept@),
            property_layout(children_of(r), self@),
            children_of(r).len() == property_len(self@),
            property_valid(self@) && property_settled(self@),
            decoded_frame(r, property_names()) && property_readable(r),
            forall|d: PropertyModel| property_decodes(r, d) ==> property_same(d, self@),
    {
        let ghost m = self@;
        let ghost c = concept_len(m.concept@);
        let e = concept_element("Property", self.concept());
        assert(children_of(e) =~= Seq::<Element>::empty());
        let r1 = write_concept(e, self.concept());
        let r2 = add_child(r1, data_type_element(self.data_type()));
        let r3 = add_strings(r2, "Symbol", self.symbols());
        let r4 = add_refs(r3, "DimensionRef", self.dimension_refs());
        let r5 = add_refs(r4, "UnitRef", self.unit_refs());
        let r6 = add_refs(r5, "QuantityKindRef", self.quantity_kind_refs());
        let r7 = add_refs(r6, "IsDependentOnRef", self.dependency_refs());
        let r8 = match self.specialization_ref() {
            Some(x) => add_child(r7, reference("IsSpecializationOfRef", x)),
            None => {
                assert(children_of(r7) =~= children_of(r7));
                r7
            },
        };
        proof {
            let n2 = m.symbols.len() as int;
            let n3 = m.dimension_refs.len() as int;
            let n4 = m.unit_refs.len() as int;
            let n5 = m.quantity_kind_refs.len() as int;
            let n6 = m.dependency_refs.len() as int;
            let n7 = opt_seq(m.specialization_ref).len() as int;
            if m.specialization_ref is None {
                assert(extends(r8, r7, 0));
            } else {
                assert forall|i: int| 0 <= i < n7 implies reference_encoding(#[trigger] children_of(r8)[c + 1 + n2 + n3 + n4 + n5 + n6 + i], "IsSpecializationOfRef"@, opt_seq(m.specialization_ref)[i]) by {
                }
            }
            lemma_extends_trans(r2, r1, e, c, 1);
            lemma_extends_trans(r3, r2, e, c + 1, n2);
            lemma_extends_trans(r4, r3, e, c + 1 + n2, n3);
            lemma_extends_trans(r5, r4, e, c + 1 + n2 + n3, n4);
            lemma_extends_trans(r6, r5, e, c + 1 + n2 + n3 + n4, n5);
            lemma_extends_trans(r7, r6, e, c + 1 + n2 + n3 + n4 + n5, n6);
            lemma_extends_trans(r8, r7, e, c + 1 + n2 + n3 + n4 + n5 + n6, n7);
            lemma_extends_trans(r8, r7, r6, n6, n7);
            lemma_extends_trans(r8, r6, r5, n5, n6 + n7);
            lemma_extends_trans(r8, r5, r4, n4, n5 + n6 + n7);
            lemma_extends_trans(r8, r4, r3, n3, n4 + n5 + n6 + n7);
            lemma_extends_trans(r8, r3, r2, n2, n3 + n4 + n5 + n6 + n7);
            lemma_extends_trans(r8, r2, r1, 1, n2 + n3 + n4 + n5 + n6 + n7);
            lemma_keep_concept(r8, r1, 1 + n2 + n3 + n4 + n5 + n6 + n7, m.concept@, 0);
            assert(children_of(r8)[c] == children_of(r2)[c]);
            lemma_keep_simples(r8, r3, n3 + n4 + n5 + n6 + n7, c + 1, "Symbol"@, lexemes_string(m.symbols));
            lemma_keep_refs(r8, r4, n4 + n5 + n6 + n7, c + 1 + n2, "DimensionRef"@, m.dimension_refs);
            lemma_keep_refs(r8, r5, n5 + n6 + n7, c + 1 + n2 + n3, "UnitRef"@, m.unit_refs);
            lemma_keep_refs(r8, r6, n6 + n7, c + 1 + n2 + n3 + n4, "QuantityKindRef"@, m.quantity_kind_refs);
            lemma_keep_refs(r8, r7, n7, c + 1 + n2 + n3 + n4 + n5, "IsDependentOnRef"@, m.dependency_refs);
            lemma_property_decodable(r8, m);
            assert forall|d: PropertyModel| property_decodes(r8, d) implies property_same(d, m) by {
                lemma_property_round_trip(r8, m, d);
            }
        }
        r8
    }
}

/// `m` is the quantity kind decoded from `e`.
pub open spec fn quantity_kind_decodes(e: Element, m: QuantityKindModel) -> bool {
    let dims = dt_named(children_of(e), "DimensionRef"@);
    &&& concept_decodes(e, m.concept@)
    &&& dims.len() == 1 && reference_decodes(dims[0], m.dimension_ref)
}

impl QuantityKind {
    /// Encodes as a `dt:QuantityKind` element (library member, not a global root).
    pub fn to_element(&self) -> (r: Element)
        ensures
            concept_encoding(r, "QuantityKind"@, self@.concept@),
            children_of(r).len() == concept_len(self@.concept@) + 1,
            reference_encoding(children_of(r)[concept_len(self@.concept@)], "DimensionRef"@, self@.dimension_ref),
            quantity_kind_valid(self@) && quantity_kind_settled(self@),
            decoded_frame(r, quantity_kind_names()) && concept_readable(r),
            references_readable(dt_named(children_of(r), "DimensionRef"@)),
            dt_named(children_of(r), "DimensionRef"@).len() == 1,
            forall|d: QuantityKindModel| quantity_kind_decodes(r, d) ==> quantity_kind_same(d, self@),
    {
        let ghost m = self@;
        let e = concept_element("QuantityKind", self.concept());
        assert(children_of(e) =~= Seq::<Element>::empty());
        let r1 = write_concept(e, self.concept());
        let r2 = add_child(r1, reference("DimensionRef", self.dimension_ref()));
        proof {
            lemma_extends_trans(r2, r1, e, concept_len(m.concept@), 1);
            lemma_keep_concept(r2, r1, 1, m.concept@, 0);
            lemma_quantity_kind_decodable(r2, m);
            assert forall|d: QuantityKindModel| quantity_kind_decodes(r2, d) implies quantity_kind_same(d, m) by {
                lemma_quantity_kind_round_trip(r2, m, d);
            }
        }
        r2
    }
}

/// Exponent element names in the order of [`Dimension::exponents`].
pub open spec fn exponent_name(i: int) -> Seq<char> {
    if i == 0 {
        "DimensionExponentForAmountOfSubstance"@
    } else if i == 1 {
        "DimensionExponentForElectricCurrent"@
    } else if i == 2 {
        "DimensionExponentForLength"@
    } else if i == 3 {
        "DimensionExponentForLuminousIntensity"@
    } else if i == 4 {
        "DimensionExponentForMass"@
    } else if i == 5 {
        "DimensionExponentForThermodynamicTemperature"@
    } else {
        "DimensionExponentForTime"@
    }
}

fn exponent_element_name(i: usize) -> (r: &'static str)
    requires
        i < 7,
    ensures
        r@ == exponent_name(i as int),
{
    if i == 0 {
        "DimensionExponentForAmountOfSubstance"
    } else if i == 1 {
        "DimensionExponentForElectricCurrent"
    } else if i == 2 {
        "DimensionExponentForLength"
    } else if i == 3 {
        "DimensionExponentForLuminousIntensity"
    } else if i == 4 {
        "DimensionExponentForMass"
    } else if i == 5 {
        "DimensionExponentForThermodynamicTemperature"
    } else {
        "DimensionExponentForTime"
    }
}

/// `m` is the dimension decoded from `e`.
pub open spec fn dimension_decodes(e: Element, m: DimensionModel) -> bool {
    &&& concept_decodes(e, m.concept@)
    &&& m.exponents.len() == 7
    &&& forall|i: int| 0 <= i < 7 ==> ({
        let found = dt_named(children_of(e), exponent_name(i));
        found.len() == 1 && (#[trigger] m.exponents[i])@ == spec_collapse(text_of(found[0].spec_nodes()))
    })
}

impl Dimension {
    /// Encodes as a `dt:Dimension` element (library member, not a global root).
    pub fn to_element(&self) -> (r: Element)
        ensures
            concept_encoding(r, "Dimension"@, self@.concept@),
            children_of(r).len() == concept_len(self@.concept@) + 7,
            forall|i: int| 0 <= i < 7 ==> simple_encoding(#[trigger] children_of(r)[concept_len(self@.concept@) + i], exponent_name(i), self@.exponents[i]@),
            dimension_valid(self@) && dimension_settled(self@),
            decoded_frame(r, dimension_names()) && concept_readable(r),
            forall|i: int| 0 <= i < 7 ==> #[trigger] exponent_readable(children_of(r), exponent_name(i)),
            forall|d: DimensionModel| dimension_decodes(r, d) ==> dimension_same(d, self@),
    {
        let ghost m = self@;
        let ghost c = concept_len(m.concept@);
        let e = concept_element("Dimension", self.concept());
        assert(children_of(e) =~= Seq::<Element>::empty());
        let r1 = write_concept(e, self.concept());
        let exponents = self.exponents();
        let mut r = r1;
        let mut i: usize = 0;
        while i < 7
            invariant
                i <= 7,
                exponents@ == m.exponents,
                exponents@.len() == 7,
                extends(r, r1, i as int),
                extends(r1, e, c),
                children_of(e).len() == 0,
                forall|k: int| 0 <= k < i ==> simple_encoding(#[trigger] children_of(r)[c + k], exponent_name(k), m.exponents[k]@),
                forall|k: int| 0 <= k < i ==> spec_is_decimal((#[trigger] m.exponents[k])@) && settled(m.exponents[k]@),
            decreases 7 - i,
        {
            let ghost before = r;
            r = add_simple(r, exponent_element_name(i), exponents[i].as_str());
            proof {
                lemma_extends_trans(r, before, r1, i as int, 1);
                assert forall|k: int| 0 <= k < i + 1 implies simple_encoding(#[trigger] children_of(r)[c + k], exponent_name(k), m.exponents[k]@) by {
                    if k < i {
                        assert(children_of(r)[c + k] == children_of(before)[c + k]);
                    }
                }
            }
            i = i + 1;
        }
        proof {
            lemma_extends_trans(r, r1, e, c, 7);
            lemma_keep_concept(r, r1, 7, m.concept@, 0);
            lemma_dimension_decodable(r, m);
            assert forall|d: DimensionModel| dimension_decodes(r, d) implies dimension_same(d, m) by {
                lemma_dimension_round_trip(r, m, d);
            }
        }
        r
    }
}

/// The unit-specific children after the concept's.
pub open spec fn unit_layout(kids: Seq<Element>, m: UnitModel) -> bool {
    let c = concept_len(m.concept@);
    let d = c + m.symbols.len();
    &&& texts_at(kids, c, "Symbol"@, m.symbols)
    &&& d + 5 <= kids.len()
    &&& reference_encoding(kids[d], "DimensionRef"@, m.dimension_ref)
    &&& simple_encoding(kids[d + 1], "Scale"@, crate::value::scale_str(m.scale))
    &&& simple_encoding(kids[d + 2], "Base"@, crate::value::base_str(m.base))
    &&& simple_encoding(kids[d + 3], "Coefficient"@, m.coefficient@)
    &&& simple_encoding(kids[d + 4], "Offset"@, m.offset@)
}

/// `m` is the unit decoded from `e`.
pub open spec fn unit_decodes(e: Element, m: UnitModel) -> bool {
    let kids = children_of(e);
    let dims = dt_named(kids, "DimensionRef"@);
    let scales = raw_texts(dt_named(kids, "Scale"@));
    let bases = raw_texts(dt_named(kids, "Base"@));
    let coefficients = raw_texts(dt_named(kids, "Coefficient"@));
    let offsets = raw_texts(dt_named(kids, "Offset"@));
    &&& concept_decodes(e, m.concept@)
    &&& texts_decode(dt_named(kids, "Symbol"@), m.symbols)
    &&& dims.len() == 1 && reference_decodes(dims[0], m.dimension_ref)
    &&& scales.len() == 1 && crate::value::scale_str(m.scale) == scales[0]
    &&& bases.len() == 1 && crate::value::base_str(m.base) == bases[0]
    &&& coefficients.len() == 1 && m.coefficient@ == coefficients[0]
    &&& offsets.len() == 1 && m.offset@ == offsets[0]
}

impl Unit {
    /// Encodes as a `dt:Unit` element (library member, not a global root).
    pub fn to_element(&self) -> (r: Element)
        ensures
            concept_encoding(r, "Unit"@, self@.concept@),
            unit_layout(children_of(r), self@),
            children_of(r).len() == concept_len(self@.concept@) + self@.symbols.len() + 5,
            unit_valid(self@) && unit_settled(self@),
            decoded_frame(r, unit_names()) && unit_readable(r),
            forall|d: UnitModel| unit_decodes(r, d) ==> unit_same(d, self@),
    {
        let ghost m = self@;
        let ghost c = concept_len(m.concept@);
        let ghost n = m.symbols.len() as int;
        let e = concept_element("Unit", self.concept());
        assert(children_of(e) =~= Seq::<Element>::empty());
        let r1 = write_concept(e, self.concept());
        let r2 = add_texts(r1, "Symbol", self.symbols());
        let r3 = add_child(r2, reference("DimensionRef", self.dimension_ref()));
        let r4 = add_simple(r3, "Scale", self.scale().as_str());
        let r5 = add_simple(r4, "Base", self.base().as_str());
        let r6 = add_simple(r5, "Coefficient", self.coefficient().as_str());
        let r7 = add_simple(r6, "Offset", self.offset().as_str());
        proof {
            lemma_extends_trans(r2, r1, e, c, n);
            lemma_extends_trans(r3, r2, e, c + n, 1);
            lemma_extends_trans(r4, r3, e, c + n + 1, 1);
            lemma_extends_trans(r5, r4, e, c + n + 2, 1);
            lemma_extends_trans(r6, r5, e, c + n + 3, 1);
            lemma_extends_trans(r7, r6, e, c + n + 4, 1);
            lemma_extends_trans(r7, r6, r5, 1, 1);
            lemma_extends_trans(r7, r5, r4, 1, 2);
            lemma_extends_trans(r7, r4, r3, 1, 3);
            lemma_extends_trans(r7, r3, r2, 1, 4);
            lemma_extends_trans(r7, r2, r1, n, 5);
            lemma_keep_concept(r7, r1, n + 5, m.concept@, 0);
            lemma_keep_texts(r7, r2, 5, c, "Symbol"@, m.symbols);
            assert(children_of(r7)[c + n] == children_of(r3)[c + n]);
            assert(children_of(r7)[c + n + 1] == children_of(r4)[c + n + 1]);
            assert(children_of(r7)[c + n + 2] == children_of(r5)[c + n + 2]);
            assert(children_of(r7)[c + n + 3] == children_of(r6)[c + n + 3]);
            lemma_unit_decodable(r7, m);
            assert forall|d: UnitModel| unit_decodes(r7, d) implies unit_same(d, m) by {
                lemma_unit_round_trip(r7, m, d);
            }
        }
        r7
    }
}

pub open spec fn opt_text<T: View<V = Seq<char>>>(o: Option<T>) -> Seq<Seq<char>> {
    match o {
        Some(x) => seq![x@],
        None => Seq::empty(),
    }
}

/// The reference-document-specific children after the concept's.
pub open spec fn reference_document_layout(kids: Seq<Element>, m: ReferenceDocumentModel) -> bool {
    let c = concept_len(m.concept@);
    let o1 = c + opt_text(m.date_of_publication).len();
    let o2 = o1 + opt_text(m.author).len();
    let o3 = o2 + opt_text(m.isbn).len();
    let o4 = o3 + m.languages.len();
    let o5 = o4 + opt_text(m.publisher).len();
    &&& simples_at(kids, c, "DateOfPublication"@, opt_text(m.date_of_publication))
    &&& simples_at(kids, o1, "Author"@, opt_text(m.author))
    &&& simples_at(kids, o2, "ISBN"@, opt_text(m.isbn))
    &&& simples_at(kids, o3, "Language"@, lexemes_language(m.languages))
    &&& simples_at(kids, o4, "Publisher"@, opt_text(m.publisher))
    &&& simples_at(kids, o5, "URI"@, opt_text(m.uri))
}

pub open spec fn reference_document_len(m: ReferenceDocumentModel) -> int {
    concept_len(m.concept@) + opt_text(m.date_of_publication).len() + opt_text(m.author).len()
        + opt_text(m.isbn).len() + m.languages.len() + opt_text(m.publisher).len() + opt_text(m.uri).len()
}

/// Appends a simple element for an optional value.
fn add_optional(e: Element, name: &str, value: Option<&str>) -> (r: Element)
    ensures
        extends(r, e, if value is Some { 1int } else { 0int }),
        simples_at(children_of(r), children_of(e).len() as int, name@, match value {
            Some(v) => seq![v@],
            None => Seq::<Seq<char>>::empty(),
        }),
{
    match value {
        Some(v) => add_simple(e, name, v),
        None => e,
    }
}


/// `m` is the reference document decoded from `e`.
pub open spec fn reference_document_decodes(e: Element, m: ReferenceDocumentModel) -> bool {
    let kids = children_of(e);
    let dates = raw_texts(dt_named(kids, "DateOfPublication"@));
    let authors = raw_texts(dt_named(kids, "Author"@));
    let isbns = raw_texts(dt_named(kids, "ISBN"@));
    let publishers = raw_texts(dt_named(kids, "Publisher"@));
    let uris = raw_texts(dt_named(kids, "URI"@));
    &&& concept_decodes(e, m.concept@)
    &&& lexemes_language(m.languages) == collapsed_texts(dt_named(kids, "Language"@))
    &&& m.languages.len() > 0
    &&& dates.len() <= 1 && authors.len() <= 1 && isbns.len() <= 1 && publishers.len() <= 1 && uris.len() <= 1
    &&& opt_view_of(m.date_of_publication) == (match single(dates) { Some(t) => Some(spec_collapse(t)), None => None })
    &&& opt_view_of(m.author) == single(authors)
    &&& opt_view_of(m.isbn) == single(isbns)
    &&& opt_view_of(m.publisher) == single(publishers)
    &&& opt_view_of(m.uri) == (match single(uris) { Some(t) => Some(spec_collapse(t)), None => None })
}

impl ReferenceDocument {
    /// Encodes as a `dt:ReferenceDocument` element (library member).
    pub fn to_element(&self) -> (r: Element)
        ensures
            concept_encoding(r, "ReferenceDocument"@, self@.concept@),
            reference_document_layout(children_of(r), self@),
            children_of(r).len() == reference_document_len(self@),
            reference_document_settled(self@),
            self@.languages.len() > 0 ==> reference_document_valid(self@) && decoded_frame(r, reference_document_names())
                && reference_document_readable(r),
            forall|d: ReferenceDocumentModel| reference_document_decodes(r, d) ==> reference_document_same(d, self@),
    {
        let ghost m = self@;
        let ghost c = concept_len(m.concept@);
        let e = concept_element("ReferenceDocument", self.concept());
        assert(children_of(e) =~= Seq::<Element>::empty());
        let r1 = write_concept(e, self.concept());
        let date = match self.date_of_publication() {
            Some(d) => Some(d.as_str()),
            None => None,
        };
        let r2 = add_optional(r1, "DateOfPublication", date);
        let r3 = add_optional(r2, "Author", self.author());
        let r4 = add_optional(r3, "ISBN", self.isbn());
        let languages = language_texts(self.languages());
        let r5 = add_strings(r4, "Language", languages.as_slice());
        let r6 = add_optional(r5, "Publisher", self.publisher());
        let r7 = add_optional(r6, "URI", self.uri());
        proof {
            let n1 = opt_text(m.date_of_publication).len() as int;
            let n2 = opt_text(m.author).len() as int;
            let n3 = opt_text(m.isbn).len() as int;
            let n4 = m.languages.len() as int;
            let n5 = opt_text(m.publisher).len() as int;
            let n6 = opt_text(m.uri).len() as int;
            assert(languages@.len() == n4);
            assert(lexemes_string(languages@) == lexemes_language(m.languages));
            if m.date_of_publication is Some {
                assert(seq![date->0@] =~= opt_text(m.date_of_publication));
            } else {
                assert(Seq::<Seq<char>>::empty() =~= opt_text(m.date_of_publication));
            }
            if m.author is Some {
                assert(seq![m.author->0@] =~= opt_text(m.author));
            } else {
                assert(Seq::<Seq<char>>::empty() =~= opt_text(m.author));
            }
            if m.isbn is Some {
                assert(seq![m.isbn->0@] =~= opt_text(m.isbn));
            } else {
                assert(Seq::<Seq<char>>::empty() =~= opt_text(m.isbn));
            }
            if m.publisher is Some {
                assert(seq![m.publisher->0@] =~= opt_text(m.publisher));
            } else {
                assert(Seq::<Seq<char>>::empty() =~= opt_text(m.publisher));
            }
            if m.uri is Some {
                assert(seq![m.uri->0@] =~= opt_text(m.uri));
            } else {
                assert(Seq::<Seq<char>>::empty() =~= opt_text(m.uri));
            }
            lemma_extends_trans(r2, r1, e, c, n1);
            lemma_extends_trans(r3, r2, e, c + n1, n2);
            lemma_extends_trans(r4, r3, e, c + n1 + n2, n3);
            lemma_extends_trans(r5, r4, e, c + n1 + n2 + n3, n4);
            lemma_extends_trans(r6, r5, e, c + n1 + n2 + n3 + n4, n5);
            lemma_extends_trans(r7, r6, e, c + n1 + n2 + n3 + n4 + n5, n6);
            lemma_extends_trans(r7, r6, r5, n5, n6);
            lemma_extends_trans(r7, r5, r4, n4, n5 + n6);
            lemma_extends_trans(r7, r4, r3, n3, n4 + n5 + n6);
            lemma_extends_trans(r7, r3, r2, n2, n3 + n4 + n5 + n6);
            lemma_extends_trans(r7, r2, r1, n1, n2 + n3 + n4 + n5 + n6);
            lemma_keep_concept(r7, r1, n1 + n2 + n3 + n4 + n5 + n6, m.concept@, 0);
            lemma_keep_simples(r7, r2, n2 + n3 + n4 + n5 + n6, c, "DateOfPublication"@, opt_text(m.date_of_publication));
            lemma_keep_simples(r7, r3, n3 + n4 + n5 + n6, c + n1, "Author"@, opt_text(m.author));
            lemma_keep_simples(r7, r4, n4 + n5 + n6, c + n1 + n2, "ISBN"@, opt_text(m.isbn));
            lemma_keep_simples(r7, r5, n5 + n6, c + n1 + n2 + n3, "Language"@, lexemes_language(m.languages));
            lemma_keep_simples(r7, r6, n6, c + n1 + n2 + n3 + n4, "Publisher"@, opt_text(m.publisher));
            if m.languages.len() > 0 {
                lemma_reference_document_decodable(r7, m);
            }
            assert forall|d: ReferenceDocumentModel| reference_document_decodes(r7, d) implies reference_document_same(d, m) by {
                lemma_reference_document_round_trip(r7, m, d);
            }
        }
        r7
    }
}


// ---------------------------------------------------------------------------
// Decoding
// ---------------------------------------------------------------------------

/// A namespace declaration written as an attribute.
pub open spec fn is_declaration(a: Attribute) -> bool {
    a.spec_qname() == "xmlns"@ || a.spec_prefix() == Some("xmlns"@)
}

/// The attributes an owned element can hold.
#[derive(Clone, Copy)]
pub enum AttributeSet {
    /// `dt:about`, `dt:GUID` and `dateOfCreation`.
    Concept,
    /// `dt:GUID` and `dt:referenceURI`.
    Reference,
    /// `language`.
    Language,
    /// `value`.
    Value,
    /// `name`.
    Name,
    /// `order`.
    Order,
    /// None at all.
    Nothing,
}

pub open spec fn plain_named(a: Attribute, local: Seq<char>) -> bool {
    a.spec_namespace() is None && a.spec_local_name() == local
}

pub open spec fn dt_attribute_named(a: Attribute, local: Seq<char>) -> bool {
    a.spec_namespace() == Some(NAMESPACE@) && a.spec_local_name() == local
}

/// Whether the owned model can hold attribute `a` on an element whose
/// attributes are `set`; namespace declarations are syntax and always pass.
pub open spec fn attr_known(a: Attribute, set: AttributeSet) -> bool {
    is_declaration(a) || match set {
        AttributeSet::Concept => dt_attribute_named(a, "about"@) || dt_attribute_named(a, "GUID"@) || plain_named(
            a,
            "dateOfCreation"@,
        ),
        AttributeSet::Reference => dt_attribute_named(a, "GUID"@) || dt_attribute_named(a, "referenceURI"@),
        AttributeSet::Language => plain_named(a, "language"@),
        AttributeSet::Value => plain_named(a, "value"@),
        AttributeSet::Name => plain_named(a, "name"@),
        AttributeSet::Order => plain_named(a, "order"@),
        AttributeSet::Nothing => false,
    }
}

pub open spec fn attrs_known(attrs: Seq<Attribute>, set: AttributeSet) -> bool {
    forall|i: int| 0 <= i < attrs.len() ==> attr_known(#[trigger] attrs[i], set)
}

fn is_plain(a: &Attribute, local: &str) -> (r: bool)
    ensures
        r == plain_named(*a, local@),
{
    a.namespace_uri().is_none() && str_eq(a.local_name(), local)
}

fn is_dt_attribute(a: &Attribute, local: &str) -> (r: bool)
    ensures
        r == dt_attribute_named(*a, local@),
{
    match a.namespace_uri() {
        Some(ns) => str_eq(ns, NAMESPACE) && str_eq(a.local_name(), local),
        None => false,
    }
}

fn attribute_known(a: &Attribute, set: AttributeSet) -> (r: bool)
    ensures
        r == attr_known(*a, set),
{
    let declaration = str_eq(a.qname(), "xmlns") || match a.prefix() {
        Some(p) => str_eq(p, "xmlns"),
        None => false,
    };
    declaration || match set {
        AttributeSet::Concept => is_dt_attribute(a, "about") || is_dt_attribute(a, "GUID") || is_plain(a, "dateOfCreation"),
        AttributeSet::Reference => is_dt_attribute(a, "GUID") || is_dt_attribute(a, "referenceURI"),
        AttributeSet::Language => is_plain(a, "language"),
        AttributeSet::Value => is_plain(a, "value"),
        AttributeSet::Name => is_plain(a, "name"),
        AttributeSet::Order => is_plain(a, "order"),
        AttributeSet::Nothing => false,
    }
}

/// Refuses any attribute the owned model cannot hold, so decoding never
/// silently drops content.
/// The first attribute from `i` on that `set` does not represent.
pub open spec fn first_unknown(attrs: Seq<Attribute>, set: AttributeSet, i: int) -> Option<int>
    decreases attrs.len() - i,
{
    if i < 0 || i >= attrs.len() {
        None
    } else if !attr_known(attrs[i], set) {
        Some(i)
    } else {
        first_unknown(attrs, set, i + 1)
    }
}

/// The refusal, kind and path, of an element's concept attributes, in the
/// order the decoder checks them: an attribute the model cannot hold, a
/// missing or invalid `GUID`, a missing or invalid `dateOfCreation`, an
/// invalid `about`; `None` where they decode.
pub open spec fn concept_attribute_refusal(e: Element) -> Option<(CodecErrorKind, Seq<char>)> {
    let attrs = e.spec_attributes();
    match first_unknown(attrs, AttributeSet::Concept, 0) {
        Some(i) => Some((CodecErrorKind::UnknownAttribute, seq!['@'] + attrs[i].spec_qname())),
        None => match guid_attr(e) {
            None => Some((CodecErrorKind::MissingAttribute, "@GUID"@)),
            Some(g) => if !spec_is_guid(g) {
                Some((CodecErrorKind::InvalidValue, "@GUID"@))
            } else {
                match plain_attr(e, "dateOfCreation"@) {
                    None => Some((CodecErrorKind::MissingAttribute, "@dateOfCreation"@)),
                    Some(d) => if !spec_is_datetime(spec_collapse(d)) {
                        Some((CodecErrorKind::InvalidValue, "@dateOfCreation"@))
                    } else {
                        match attribute_lookup(attrs, Some(NAMESPACE@), "about"@) {
                            Some(a) => if !spec_is_any_uri(spec_collapse(a)) {
                                Some((CodecErrorKind::InvalidValue, "@about"@))
                            } else {
                                None
                            },
                            None => None,
                        }
                    }
                }
            },
        },
    }
}

/// `r` is the refusal `refusal` names, where it names one.
pub open spec fn answered<T>(r: Result<T, CodecError>, refusal: Option<(CodecErrorKind, Seq<char>)>) -> bool {
    match refusal {
        Some((k, path)) => refused(r, k, path),
        None => true,
    }
}

/// The refusal of a subject's references, once its concept content
/// decodes: that of its `HasPartRef` children, then of its
/// `IsSubtypeOfRef` children.
pub open spec fn subject_refs_refusal(e: Element) -> Option<(CodecErrorKind, Seq<char>)> {
    let kids = children_of(e);
    match references_refusal(dt_named(kids, "HasPartRef"@), "HasPartRef"@) {
        Some(x) => Some(x),
        None => references_refusal(dt_named(kids, "IsSubtypeOfRef"@), "IsSubtypeOfRef"@),
    }
}

/// `r` is the refusal [`concept_attribute_refusal`] names, where it names
/// one.
pub open spec fn concept_refused<T>(r: Result<T, CodecError>, e: Element) -> bool {
    match concept_attribute_refusal(e) {
        Some((k, path)) => refused(r, k, path),
        None => true,
    }
}

fn refuse_unrepresented(e: &Element, set: AttributeSet) -> (r: Result<(), CodecError>)
    ensures
        r is Ok <==> attrs_known(e.spec_attributes(), set),
        r matches Err(x) ==> x.spec_kind() == CodecErrorKind::UnknownAttribute,
        r is Ok <==> first_unknown(e.spec_attributes(), set, 0) is None,
        r matches Err(x) ==> first_unknown(e.spec_attributes(), set, 0) matches Some(i) && x.spec_path() == seq!['@']
            + e.spec_attributes()[i].spec_qname(),
{
    let attributes = e.attributes();
    let mut i: usize = 0;
    while i < attributes.len()
        invariant
            i <= attributes@.len(),
            attributes@ == e.spec_attributes(),
            forall|k: int| 0 <= k < i ==> attr_known(#[trigger] attributes@[k], set),
            first_unknown(attributes@, set, 0) == first_unknown(attributes@, set, i as int),
        decreases attributes.len() - i,
    {
        let a = &attributes[i];
        if !attribute_known(a, set) {
            let path = at_name(a.qname());
            let mut detail = String::from_str("attribute `");
            detail.append(a.local_name());
            detail.append("` is not represented by the owned model");
            return Err(CodecError::new(CodecErrorKind::UnknownAttribute, path, detail));
        }
        i = i + 1;
    }
    Ok(())
}

pub open spec fn all_space(s: Seq<char>) -> bool {
    forall|k: int| 0 <= k < s.len() ==> is_xml_space(#[trigger] s[k])
}

fn only_space(s: &str) -> (r: bool)
    ensures
        r == all_space(s@),
{
    let chars = crate::text::chars_of(s);
    let mut i: usize = 0;
    while i < chars.len()
        invariant
            i <= chars@.len(),
            chars@ == s@,
            forall|k: int| 0 <= k < i ==> is_xml_space(#[trigger] chars@[k]),
        decreases chars.len() - i,
    {
        if !xml_space(chars[i]) {
            return false;
        }
        i = i + 1;
    }
    true
}

/// Refuses character data in element-only content.
fn element_only(e: &Element) -> (r: Result<(), CodecError>)
    ensures
        r is Ok <==> blank_content(e.spec_nodes()),
        r matches Err(x) ==> x.spec_kind() == CodecErrorKind::UnexpectedContent && x.spec_path().len() == 0,
{
    let nodes = e.nodes();
    let mut i: usize = 0;
    while i < nodes.len()
        invariant
            i <= nodes@.len(),
            nodes@ == e.spec_nodes(),
            forall|k: int| 0 <= k < i ==> match #[trigger] nodes@[k] {
                Node::Text(t) => all_space(t@),
                Node::CData(t) => all_space(t@),
                _ => true,
            },
        decreases nodes.len() - i,
    {
        let blank = match &nodes[i] {
            Node::Text(t) => only_space(t.as_str()),
            Node::CData(t) => only_space(t.as_str()),
            _ => true,
        };
        if !blank {
            proof {
                reveal_strlit("");
            }
            return Err(error(CodecErrorKind::UnexpectedContent, "", "character data in element-only content"));
        }
        i = i + 1;
    }
    Ok(())
}

/// Text content of a simple-content element; child elements are refused.
fn simple_text(e: &Element) -> (r: Result<String, CodecError>)
    ensures
        r is Ok <==> children_of(*e).len() == 0,
        r matches Ok(t) ==> t@ == text_of(e.spec_nodes()),
        r matches Err(x) ==> x.spec_kind() == CodecErrorKind::UnexpectedContent && x.spec_path().len() == 0,
{
    if e.children().len() > 0 {
        proof {
            reveal_strlit("");
        }
        return Err(error(CodecErrorKind::UnexpectedContent, "", "element content where simple content is declared"));
    }
    Ok(e.direct_text())
}

/// Refuses child elements and non-white-space text in empty content.
fn empty_content(e: &Element) -> (r: Result<(), CodecError>)
    ensures
        r is Ok <==> children_of(*e).len() == 0 && all_space(text_of(e.spec_nodes())),
        r matches Err(x) ==> x.spec_kind() == CodecErrorKind::UnexpectedContent,
        r is Err ==> refused(r, CodecErrorKind::UnexpectedContent, Seq::empty()),
{
    let text = match simple_text(e) {
        Ok(t) => t,
        Err(x) => return Err(x),
    };
    if only_space(text.as_str()) {
        Ok(())
    } else {
        proof {
            reveal_strlit("");
        }
        Err(error(CodecErrorKind::UnexpectedContent, "", "character data where empty content is declared"))
    }
}

/// `v` is the multilingual text decoded from `c`.
pub open spec fn text_decodes(c: Element, v: MultiLanguageText) -> bool {
    &&& plain_attr(c, "language"@) matches Some(l) && v.spec_language()@ == l
    &&& v.spec_text() == text_of(c.spec_nodes())
}

/// A multilingual-text element the owned model can read.
pub open spec fn text_readable(c: Element) -> bool {
    &&& attrs_known(c.spec_attributes(), AttributeSet::Language)
    &&& plain_attr(c, "language"@) is Some
    &&& children_of(c).len() == 0
    &&& spec_is_language(spec_collapse(plain_attr(c, "language"@)->0))
}

pub open spec fn texts_readable(cs: Seq<Element>) -> bool {
    forall|i: int| 0 <= i < cs.len() ==> text_readable(#[trigger] cs[i])
}

/// The refusal, kind and path, of a multilingual text element, in the
/// order the decoder checks it: an attribute the model cannot hold, a
/// missing `language`, child elements, an invalid `language`; `None` where
/// it decodes.
pub open spec fn text_refusal(c: Element) -> Option<(CodecErrorKind, Seq<char>)> {
    let attrs = c.spec_attributes();
    match first_unknown(attrs, AttributeSet::Language, 0) {
        Some(i) => Some((CodecErrorKind::UnknownAttribute, seq!['@'] + attrs[i].spec_qname())),
        None => match plain_attr(c, "language"@) {
            None => Some((CodecErrorKind::MissingAttribute, "@language"@)),
            Some(l) => if children_of(c).len() > 0 {
                Some((CodecErrorKind::UnexpectedContent, Seq::empty()))
            } else if !spec_is_language(spec_collapse(l)) {
                Some((CodecErrorKind::InvalidValue, "@language"@))
            } else {
                None
            },
        },
    }
}

/// The first of the text children `cs`, from `i` on, that is refused.
pub open spec fn first_bad_text(cs: Seq<Element>, i: int) -> Option<int>
    decreases cs.len() - i,
{
    if i < 0 || i >= cs.len() {
        None
    } else if text_refusal(cs[i]) is Some {
        Some(i)
    } else {
        first_bad_text(cs, i + 1)
    }
}

/// The refusal of the text children `cs` named `name`: that of the first
/// that is refused, below its indexed path.
pub open spec fn texts_refusal(cs: Seq<Element>, name: Seq<char>) -> Option<(CodecErrorKind, Seq<char>)> {
    match first_bad_text(cs, 0) {
        Some(i) => match text_refusal(cs[i]) {
            Some((k, path)) => Some((k, nest_path(index_path(name, (i + 1) as nat), path))),
            None => None,
        },
        None => None,
    }
}

fn read_multilingual(e: &Element) -> (r: Result<MultiLanguageText, CodecError>)
    ensures
        r is Ok <==> text_readable(*e),
        r matches Ok(v) ==> text_decodes(*e, v),
        r is Ok <==> text_refusal(*e) is None,
        text_refusal(*e) matches Some((k, path)) ==> refused(r, k, path),
{
    proof {
        reveal_strlit("language");
        reveal_strlit("@language");
    }
    match refuse_unrepresented(e, AttributeSet::Language) {
        Ok(()) => {},
        Err(x) => return Err(x),
    }
    let language = match e.attribute_ns(None, "language") {
        Some(l) => l,
        None => return Err(error(CodecErrorKind::MissingAttribute, "@language", "required attribute `language` is missing")),
    };
    let text = match simple_text(e) {
        Ok(t) => t,
        Err(x) => return Err(x),
    };
    match MultiLanguageText::new(language, text.as_str()) {
        Ok(v) => Ok(v),
        Err(x) => Err(invalid("@language", &x)),
    }
}

/// `v` is the reference decoded from `c`.
pub open spec fn reference_decodes(c: Element, v: Reference) -> bool {
    &&& match guid_attr(c) {
        Some(g) => v.spec_guid() matches Some(x) && x@ == g,
        None => v.spec_guid() is None,
    }
    &&& match attribute_lookup(c.spec_attributes(), Some(NAMESPACE@), "referenceURI"@) {
        Some(u) => v.spec_uri() matches Some(x) && x@ == spec_collapse(u),
        None => v.spec_uri() is None,
    }
}

/// A reference element the owned model can read.
pub open spec fn reference_readable(c: Element) -> bool {
    &&& attrs_known(c.spec_attributes(), AttributeSet::Reference)
    &&& children_of(c).len() == 0 && all_space(text_of(c.spec_nodes()))
    &&& (guid_attr(c) matches Some(g) ==> spec_is_guid(g))
    &&& (attribute_lookup(c.spec_attributes(), Some(NAMESPACE@), "referenceURI"@) matches Some(u) ==> spec_is_any_uri(
        spec_collapse(u),
    ))
}

pub open spec fn references_readable(cs: Seq<Element>) -> bool {
    forall|i: int| 0 <= i < cs.len() ==> reference_readable(#[trigger] cs[i])
}

/// The refusal, kind and path, of a reference element, in the order the
/// decoder checks it: an attribute the model cannot hold, content, an
/// invalid `GUID`, an invalid `referenceURI`; `None` where it decodes.
pub open spec fn reference_refusal(c: Element) -> Option<(CodecErrorKind, Seq<char>)> {
    let attrs = c.spec_attributes();
    match first_unknown(attrs, AttributeSet::Reference, 0) {
        Some(i) => Some((CodecErrorKind::UnknownAttribute, seq!['@'] + attrs[i].spec_qname())),
        None => if !(children_of(c).len() == 0 && all_space(text_of(c.spec_nodes()))) {
            Some((CodecErrorKind::UnexpectedContent, Seq::empty()))
        } else if guid_attr(c) matches Some(g) && !spec_is_guid(g) {
            Some((CodecErrorKind::InvalidValue, "@GUID"@))
        } else if attribute_lookup(attrs, Some(NAMESPACE@), "referenceURI"@) matches Some(u) && !spec_is_any_uri(
            spec_collapse(u),
        ) {
            Some((CodecErrorKind::InvalidValue, "@referenceURI"@))
        } else {
            None
        },
    }
}

/// `path` below the child at `parent`.
pub open spec fn nest_path(parent: Seq<char>, path: Seq<char>) -> Seq<char> {
    if path.len() == 0 {
        parent
    } else {
        parent + seq!['/'] + path
    }
}

/// The first of the reference children `cs`, from `i` on, that does not
/// decode.
pub open spec fn first_bad_reference(cs: Seq<Element>, i: int) -> Option<int>
    decreases cs.len() - i,
{
    if i < 0 || i >= cs.len() {
        None
    } else if reference_refusal(cs[i]) is Some {
        Some(i)
    } else {
        first_bad_reference(cs, i + 1)
    }
}

/// The refusal of the children `cs` named `name` as references: that of
/// the first that does not decode, below its indexed path.
pub open spec fn references_refusal(cs: Seq<Element>, name: Seq<char>) -> Option<(CodecErrorKind, Seq<char>)> {
    match first_bad_reference(cs, 0) {
        Some(i) => match reference_refusal(cs[i]) {
            Some((k, path)) => Some((k, nest_path(index_path(name, (i + 1) as nat), path))),
            None => None,
        },
        None => None,
    }
}

fn read_reference(e: &Element) -> (r: Result<Reference, CodecError>)
    ensures
        r is Ok <==> reference_readable(*e),
        r matches Ok(v) ==> reference_decodes(*e, v),
        r is Ok <==> reference_refusal(*e) is None,
        reference_refusal(*e) matches Some((k, path)) ==> refused(r, k, path),
{
    proof {
        reveal_strlit("GUID");
        reveal_strlit("@GUID");
        reveal_strlit("referenceURI");
        reveal_strlit("@referenceURI");
    }
    match refuse_unrepresented(e, AttributeSet::Reference) {
        Ok(()) => {},
        Err(x) => return Err(x),
    }
    match empty_content(e) {
        Ok(()) => {},
        Err(x) => return Err(x),
    }
    let guid = match e.attribute_ns(Some(NAMESPACE), "GUID") {
        Some(g) => match Guid::from_str(g) {
            Ok(v) => Some(v),
            Err(x) => return Err(invalid("@GUID", &x)),
        },
        None => None,
    };
    let uri = match e.attribute_ns(Some(NAMESPACE), "referenceURI") {
        Some(u) => match AnyUri::from_str(u) {
            Ok(v) => Some(v),
            Err(x) => return Err(invalid("@referenceURI", &x)),
        },
        None => None,
    };
    Ok(Reference::new(guid, uri))
}

/// The children `cs` decode element-wise to `vs` as multilingual texts.
pub open spec fn texts_decode(cs: Seq<Element>, vs: Seq<MultiLanguageText>) -> bool {
    cs.len() == vs.len() && forall|i: int| 0 <= i < vs.len() ==> text_decodes(#[trigger] cs[i], vs[i])
}

pub open spec fn refs_decode(cs: Seq<Element>, vs: Seq<Reference>) -> bool {
    cs.len() == vs.len() && forall|i: int| 0 <= i < vs.len() ==> reference_decodes(#[trigger] cs[i], vs[i])
}

/// The simple children `cs` hold the texts `ts`.
pub open spec fn texts_of(cs: Seq<Element>, ts: Seq<Seq<char>>) -> bool {
    cs.len() == ts.len() && forall|i: int| 0 <= i < ts.len() ==> text_of((#[trigger] cs[i]).spec_nodes()) == ts[i]
}

/// Every ISO 23387 child named `name`, decoded as multilingual text.
fn read_texts(e: &Element, name: &str) -> (r: Result<Vec<MultiLanguageText>, CodecError>)
    ensures
        r is Ok <==> texts_readable(dt_named(children_of(*e), name@)),
        r matches Ok(v) ==> texts_decode(dt_named(children_of(*e), name@), v@),
        texts_refusal(dt_named(children_of(*e), name@), name@) matches Some((k, path)) ==> refused(r, k, path),
        r is Ok <==> texts_refusal(dt_named(children_of(*e), name@), name@) is None,
{
    let found = dt_children(e, name);
    let ghost cs = dt_named(children_of(*e), name@);
    let mut out: Vec<MultiLanguageText> = Vec::new();
    let mut i: usize = 0;
    while i < found.len()
        invariant
            cs == dt_named(children_of(*e), name@),
            forall|k: int| 0 <= k < i ==> text_readable(#[trigger] cs[k]),
            i <= found@.len(),
            found@.len() == cs.len(),
            forall|k: int| 0 <= k < found@.len() ==> *found@[k] == cs[k],
            out@.len() == i,
            forall|k: int| 0 <= k < i ==> text_decodes(cs[k], #[trigger] out@[k]),
            first_bad_text(cs, 0) == first_bad_text(cs, i as int),
        decreases found.len() - i,
    {
        match read_multilingual(found[i]) {
            Ok(v) => out.push(v),
            Err(x) => {
                assert(!text_readable(cs[i as int]));
                return Err(x.nested(indexed(name, i + 1).as_str()));
            },
        }
        i = i + 1;
    }
    Ok(out)
}

/// Every ISO 23387 child named `name`, decoded as a reference.
fn read_references(e: &Element, name: &str) -> (r: Result<Vec<Reference>, CodecError>)
    ensures
        r is Ok <==> references_readable(dt_named(children_of(*e), name@)),
        r matches Ok(v) ==> refs_decode(dt_named(children_of(*e), name@), v@),
        references_refusal(dt_named(children_of(*e), name@), name@) matches Some((k, path)) ==> refused(r, k, path),
        r is Ok <==> references_refusal(dt_named(children_of(*e), name@), name@) is None,
{
    let found = dt_children(e, name);
    let ghost cs = dt_named(children_of(*e), name@);
    let mut out: Vec<Reference> = Vec::new();
    let mut i: usize = 0;
    while i < found.len()
        invariant
            cs == dt_named(children_of(*e), name@),
            forall|k: int| 0 <= k < i ==> reference_readable(#[trigger] cs[k]),
            i <= found@.len(),
            found@.len() == cs.len(),
            forall|k: int| 0 <= k < found@.len() ==> *found@[k] == cs[k],
            out@.len() == i,
            forall|k: int| 0 <= k < i ==> reference_decodes(cs[k], #[trigger] out@[k]),
            first_bad_reference(cs, 0) == first_bad_reference(cs, i as int),
        decreases found.len() - i,
    {
        match read_reference(found[i]) {
            Ok(v) => out.push(v),
            Err(x) => {
                assert(!reference_readable(cs[i as int]));
                let path = indexed(name, i + 1);
                return Err(x.nested(path.as_str()));
            },
        }
        i = i + 1;
    }
    Ok(out)
}

/// The text of every ISO 23387 child named `name`, which must carry no
/// attributes and no child elements; each with its positional path.
/// A simple-content child the owned model can read: no attributes and no
/// child elements.
pub open spec fn simple_readable(c: Element) -> bool {
    attrs_known(c.spec_attributes(), AttributeSet::Nothing) && children_of(c).len() == 0
}

pub open spec fn simples_readable(cs: Seq<Element>) -> bool {
    forall|i: int| 0 <= i < cs.len() ==> simple_readable(#[trigger] cs[i])
}

/// Every text of `ts` satisfies `valid`.
pub open spec fn all_lexemes(ts: Seq<Seq<char>>, valid: spec_fn(Seq<char>) -> bool) -> bool {
    forall|i: int| 0 <= i < ts.len() ==> valid(#[trigger] ts[i])
}

/// The refusal of a simple-content child: an attribute, then child
/// elements.
pub open spec fn simple_refusal(c: Element) -> Option<(CodecErrorKind, Seq<char>)> {
    match first_unknown(c.spec_attributes(), AttributeSet::Nothing, 0) {
        Some(i) => Some((CodecErrorKind::UnknownAttribute, seq!['@'] + c.spec_attributes()[i].spec_qname())),
        None => if children_of(c).len() > 0 {
            Some((CodecErrorKind::UnexpectedContent, Seq::empty()))
        } else {
            None
        },
    }
}

/// The first of the simple children `cs`, from `i` on, that is refused.
pub open spec fn first_bad_simple(cs: Seq<Element>, i: int) -> Option<int>
    decreases cs.len() - i,
{
    if i < 0 || i >= cs.len() {
        None
    } else if simple_refusal(cs[i]) is Some {
        Some(i)
    } else {
        first_bad_simple(cs, i + 1)
    }
}

/// The refusal of the simple children `cs` named `name`: that of the first
/// refused, below its indexed path.
pub open spec fn simples_refusal(cs: Seq<Element>, name: Seq<char>) -> Option<(CodecErrorKind, Seq<char>)> {
    match first_bad_simple(cs, 0) {
        Some(i) => match simple_refusal(cs[i]) {
            Some((k, path)) => Some((k, nest_path(index_path(name, (i + 1) as nat), path))),
            None => None,
        },
        None => None,
    }
}

/// The first of the texts `ts`, from `i` on, that `valid` refuses.
pub open spec fn first_bad_lexeme(ts: Seq<Seq<char>>, valid: spec_fn(Seq<char>) -> bool, i: int) -> Option<int>
    decreases ts.len() - i,
{
    if i < 0 || i >= ts.len() {
        None
    } else if !valid(ts[i]) {
        Some(i)
    } else {
        first_bad_lexeme(ts, valid, i + 1)
    }
}

/// The refusal of the simple children `cs` named `name` whose texts must
/// satisfy `valid`: that of the first refused child, else an invalid value
/// at the first text `valid` refuses.
pub open spec fn lexemes_refusal(
    cs: Seq<Element>,
    name: Seq<char>,
    valid: spec_fn(Seq<char>) -> bool,
) -> Option<(CodecErrorKind, Seq<char>)> {
    match simples_refusal(cs, name) {
        Some(x) => Some(x),
        None => match first_bad_lexeme(raw_texts(cs), valid, 0) {
            Some(i) => Some((CodecErrorKind::InvalidValue, index_path(name, (i + 1) as nat))),
            None => None,
        },
    }
}

fn read_simple_texts(e: &Element, name: &str) -> (r: Result<Vec<(String, String)>, CodecError>)
    ensures
        r is Ok <==> simples_readable(dt_named(children_of(*e), name@)),
        r is Ok <==> simples_refusal(dt_named(children_of(*e), name@), name@) is None,
        answered(r, simples_refusal(dt_named(children_of(*e), name@), name@)),
        r matches Ok(v) ==> forall|k: int| 0 <= k < v@.len() ==> (#[trigger] v@[k]).0@ == index_path(name@, (k + 1) as nat),
        r matches Ok(v) ==> texts_of(dt_named(children_of(*e), name@), v@.map_values(|p: (String, String)| p.1@)),
{
    let found = dt_children(e, name);
    let ghost cs = dt_named(children_of(*e), name@);
    let mut out: Vec<(String, String)> = Vec::new();
    let mut i: usize = 0;
    while i < found.len()
        invariant
            cs == dt_named(children_of(*e), name@),
            i <= found@.len(),
            found@.len() == cs.len(),
            forall|k: int| 0 <= k < found@.len() ==> *found@[k] == cs[k],
            out@.len() == i,
            forall|k: int| 0 <= k < i ==> text_of(cs[k].spec_nodes()) == (#[trigger] out@[k]).1@,
            forall|k: int| 0 <= k < i ==> simple_readable(#[trigger] cs[k]),
            first_bad_simple(cs, 0) == first_bad_simple(cs, i as int),
            forall|k: int| 0 <= k < i ==> (#[trigger] out@[k]).0@ == index_path(name@, (k + 1) as nat),
        decreases found.len() - i,
    {
        let path = indexed(name, i + 1);
        match refuse_unrepresented(found[i], AttributeSet::Nothing) {
            Ok(()) => {},
            Err(x) => {
                assert(!simple_readable(cs[i as int]));
                return Err(x.nested(path.as_str()));
            },
        }
        match simple_text(found[i]) {
            Ok(t) => out.push((path, t)),
            Err(x) => {
                assert(!simple_readable(cs[i as int]));
                return Err(x.nested(path.as_str()));
            },
        }
        i = i + 1;
    }
    proof {
        let ts = out@.map_values(|p: (String, String)| p.1@);
        assert forall|k: int| 0 <= k < ts.len() implies text_of((#[trigger] cs[k]).spec_nodes()) == ts[k] by {
            assert(ts[k] == out@[k].1@);
        }
    }
    Ok(out)
}


/// The texts held by simple children, in order.
pub open spec fn raw_texts(cs: Seq<Element>) -> Seq<Seq<char>> {
    cs.map_values(|c: Element| text_of(c.spec_nodes()))
}

/// The texts held by simple children after white-space collapsing.
pub open spec fn collapsed_texts(cs: Seq<Element>) -> Seq<Seq<char>> {
    cs.map_values(|c: Element| spec_collapse(text_of(c.spec_nodes())))
}

fn read_strings(e: &Element, name: &str) -> (r: Result<Vec<String>, CodecError>)
    ensures
        r is Ok <==> simples_readable(dt_named(children_of(*e), name@)),
        answered(r, simples_refusal(dt_named(children_of(*e), name@), name@)),
        r matches Ok(v) ==> lexemes_string(v@) == raw_texts(dt_named(children_of(*e), name@)),
{
    let texts = match read_simple_texts(e, name) {
        Ok(t) => t,
        Err(x) => return Err(x),
    };
    let ghost cs = dt_named(children_of(*e), name@);
    let ghost ts = texts@.map_values(|p: (String, String)| p.1@);
    let mut out: Vec<String> = Vec::new();
    let mut i: usize = 0;
    while i < texts.len()
        invariant
            i <= texts@.len(),
            ts == texts@.map_values(|p: (String, String)| p.1@),
            texts_of(cs, ts),
            out@.len() == i,
            forall|k: int| 0 <= k < i ==> (#[trigger] out@[k])@ == ts[k],
        decreases texts.len() - i,
    {
        out.push(texts[i].1.clone());
        i = i + 1;
    }
    proof {
        assert(lexemes_string(out@) =~= raw_texts(cs));
    }
    Ok(out)
}

fn read_languages(e: &Element, name: &str) -> (r: Result<Vec<Language>, CodecError>)
    ensures
        r is Ok <==> simples_readable(dt_named(children_of(*e), name@)) && all_lexemes(
            raw_texts(dt_named(children_of(*e), name@)),
            |t: Seq<char>| spec_is_language(spec_collapse(t)),
        ),
        r matches Ok(v) ==> ({
            let ts = raw_texts(dt_named(children_of(*e), name@));
            v@.len() == ts.len() && forall|i: int| 0 <= i < ts.len() ==> (#[trigger] v@[i])@ == spec_collapse(ts[i])
        }),
        answered(r, lexemes_refusal(dt_named(children_of(*e), name@), name@, |t: Seq<char>| spec_is_language(spec_collapse(t)))),
{
    let texts = match read_simple_texts(e, name) {
        Ok(t) => t,
        Err(x) => return Err(x),
    };
    let ghost cs = dt_named(children_of(*e), name@);
    let ghost ts = texts@.map_values(|p: (String, String)| p.1@);
    let mut out: Vec<Language> = Vec::new();
    let mut i: usize = 0;
    while i < texts.len()
        invariant
            cs == dt_named(children_of(*e), name@),
            i <= texts@.len(),
            ts == texts@.map_values(|p: (String, String)| p.1@),
            texts_of(cs, ts),
            first_bad_lexeme(raw_texts(cs), |t: Seq<char>| spec_is_language(spec_collapse(t)), 0) == first_bad_lexeme(raw_texts(cs), |t: Seq<char>| spec_is_language(spec_collapse(t)), i as int),
            forall|k: int| 0 <= k < texts@.len() ==> (#[trigger] texts@[k]).0@ == index_path(name@, (k + 1) as nat),
            simples_refusal(cs, name@) is None,
            out@.len() == i,
            forall|k: int| 0 <= k < i ==> (#[trigger] out@[k])@ == spec_collapse(ts[k]),
            forall|k: int| 0 <= k < i ==> #[trigger] spec_is_language(spec_collapse(ts[k])),
        decreases texts.len() - i,
    {
        match Language::from_str(texts[i].1.as_str()) {
            Ok(v) => out.push(v),
            Err(x) => {
                proof {
                    assert(raw_texts(cs)[i as int] == ts[i as int]);
                    assert(!spec_is_language(spec_collapse(raw_texts(cs)[i as int])));
                }
                return Err(invalid(texts[i].0.as_str(), &x));
            },
        }
        i = i + 1;
    }
    proof {
        assert(raw_texts(cs) =~= ts);
    }
    Ok(out)
}

fn read_base64s(e: &Element, name: &str) -> (r: Result<Vec<Base64Binary>, CodecError>)
    ensures
        r is Ok <==> simples_readable(dt_named(children_of(*e), name@)) && all_lexemes(
            raw_texts(dt_named(children_of(*e), name@)),
            |t: Seq<char>| spec_is_base64(spec_collapse(t)),
        ),
        r matches Ok(v) ==> ({
            let ts = raw_texts(dt_named(children_of(*e), name@));
            v@.len() == ts.len() && forall|i: int| 0 <= i < ts.len() ==> (#[trigger] v@[i])@ == spec_collapse(ts[i])
        }),
        answered(r, lexemes_refusal(dt_named(children_of(*e), name@), name@, |t: Seq<char>| spec_is_base64(spec_collapse(t)))),
{
    let texts = match read_simple_texts(e, name) {
        Ok(t) => t,
        Err(x) => return Err(x),
    };
    let ghost cs = dt_named(children_of(*e), name@);
    let ghost ts = texts@.map_values(|p: (String, String)| p.1@);
    let mut out: Vec<Base64Binary> = Vec::new();
    let mut i: usize = 0;
    while i < texts.len()
        invariant
            cs == dt_named(children_of(*e), name@),
            i <= texts@.len(),
            ts == texts@.map_values(|p: (String, String)| p.1@),
            texts_of(cs, ts),
            first_bad_lexeme(raw_texts(cs), |t: Seq<char>| spec_is_base64(spec_collapse(t)), 0) == first_bad_lexeme(raw_texts(cs), |t: Seq<char>| spec_is_base64(spec_collapse(t)), i as int),
            forall|k: int| 0 <= k < texts@.len() ==> (#[trigger] texts@[k]).0@ == index_path(name@, (k + 1) as nat),
            simples_refusal(cs, name@) is None,
            out@.len() == i,
            forall|k: int| 0 <= k < i ==> (#[trigger] out@[k])@ == spec_collapse(ts[k]),
            forall|k: int| 0 <= k < i ==> #[trigger] spec_is_base64(spec_collapse(ts[k])),
        decreases texts.len() - i,
    {
        match Base64Binary::from_str(texts[i].1.as_str()) {
            Ok(v) => out.push(v),
            Err(x) => {
                proof {
                    assert(raw_texts(cs)[i as int] == ts[i as int]);
                    assert(!spec_is_base64(spec_collapse(raw_texts(cs)[i as int])));
                }
                return Err(invalid(texts[i].0.as_str(), &x));
            },
        }
        i = i + 1;
    }
    proof {
        assert(raw_texts(cs) =~= ts);
    }
    Ok(out)
}

fn read_counts(e: &Element, name: &str) -> (r: Result<Vec<NonNegativeInteger>, CodecError>)
    ensures
        r is Ok <==> simples_readable(dt_named(children_of(*e), name@)) && all_lexemes(
            raw_texts(dt_named(children_of(*e), name@)),
            |t: Seq<char>| spec_is_non_negative_integer(spec_collapse(t)),
        ),
        r matches Ok(v) ==> ({
            let ts = raw_texts(dt_named(children_of(*e), name@));
            v@.len() == ts.len() && forall|i: int| 0 <= i < ts.len() ==> (#[trigger] v@[i])@ == spec_collapse(ts[i])
        }),
        answered(r, lexemes_refusal(dt_named(children_of(*e), name@), name@, |t: Seq<char>| spec_is_non_negative_integer(spec_collapse(t)))),
{
    let texts = match read_simple_texts(e, name) {
        Ok(t) => t,
        Err(x) => return Err(x),
    };
    let ghost cs = dt_named(children_of(*e), name@);
    let ghost ts = texts@.map_values(|p: (String, String)| p.1@);
    let mut out: Vec<NonNegativeInteger> = Vec::new();
    let mut i: usize = 0;
    while i < texts.len()
        invariant
            cs == dt_named(children_of(*e), name@),
            i <= texts@.len(),
            ts == texts@.map_values(|p: (String, String)| p.1@),
            texts_of(cs, ts),
            first_bad_lexeme(raw_texts(cs), |t: Seq<char>| spec_is_non_negative_integer(spec_collapse(t)), 0) == first_bad_lexeme(raw_texts(cs), |t: Seq<char>| spec_is_non_negative_integer(spec_collapse(t)), i as int),
            forall|k: int| 0 <= k < texts@.len() ==> (#[trigger] texts@[k]).0@ == index_path(name@, (k + 1) as nat),
            simples_refusal(cs, name@) is None,
            out@.len() == i,
            forall|k: int| 0 <= k < i ==> (#[trigger] out@[k])@ == spec_collapse(ts[k]),
            forall|k: int| 0 <= k < i ==> #[trigger] spec_is_non_negative_integer(spec_collapse(ts[k])),
        decreases texts.len() - i,
    {
        match NonNegativeInteger::from_str(texts[i].1.as_str()) {
            Ok(v) => out.push(v),
            Err(x) => {
                proof {
                    assert(raw_texts(cs)[i as int] == ts[i as int]);
                    assert(!spec_is_non_negative_integer(spec_collapse(raw_texts(cs)[i as int])));
                }
                return Err(invalid(texts[i].0.as_str(), &x));
            },
        }
        i = i + 1;
    }
    proof {
        assert(raw_texts(cs) =~= ts);
    }
    Ok(out)
}

fn read_decimals(e: &Element, name: &str) -> (r: Result<Vec<Decimal>, CodecError>)
    ensures
        r is Ok <==> simples_readable(dt_named(children_of(*e), name@)) && all_lexemes(
            raw_texts(dt_named(children_of(*e), name@)),
            |t: Seq<char>| spec_is_decimal(spec_collapse(t)),
        ),
        r matches Ok(v) ==> ({
            let ts = raw_texts(dt_named(children_of(*e), name@));
            v@.len() == ts.len() && forall|i: int| 0 <= i < ts.len() ==> (#[trigger] v@[i])@ == spec_collapse(ts[i])
        }),
        answered(r, lexemes_refusal(dt_named(children_of(*e), name@), name@, |t: Seq<char>| spec_is_decimal(spec_collapse(t)))),
{
    let texts = match read_simple_texts(e, name) {
        Ok(t) => t,
        Err(x) => return Err(x),
    };
    let ghost cs = dt_named(children_of(*e), name@);
    let ghost ts = texts@.map_values(|p: (String, String)| p.1@);
    let mut out: Vec<Decimal> = Vec::new();
    let mut i: usize = 0;
    while i < texts.len()
        invariant
            cs == dt_named(children_of(*e), name@),
            i <= texts@.len(),
            ts == texts@.map_values(|p: (String, String)| p.1@),
            texts_of(cs, ts),
            first_bad_lexeme(raw_texts(cs), |t: Seq<char>| spec_is_decimal(spec_collapse(t)), 0) == first_bad_lexeme(raw_texts(cs), |t: Seq<char>| spec_is_decimal(spec_collapse(t)), i as int),
            forall|k: int| 0 <= k < texts@.len() ==> (#[trigger] texts@[k]).0@ == index_path(name@, (k + 1) as nat),
            simples_refusal(cs, name@) is None,
            out@.len() == i,
            forall|k: int| 0 <= k < i ==> (#[trigger] out@[k])@ == spec_collapse(ts[k]),
            forall|k: int| 0 <= k < i ==> #[trigger] spec_is_decimal(spec_collapse(ts[k])),
        decreases texts.len() - i,
    {
        match Decimal::from_str(texts[i].1.as_str()) {
            Ok(v) => out.push(v),
            Err(x) => {
                proof {
                    assert(raw_texts(cs)[i as int] == ts[i as int]);
                    assert(!spec_is_decimal(spec_collapse(raw_texts(cs)[i as int])));
                }
                return Err(invalid(texts[i].0.as_str(), &x));
            },
        }
        i = i + 1;
    }
    proof {
        assert(raw_texts(cs) =~= ts);
    }
    Ok(out)
}

fn read_rationals(e: &Element, name: &str) -> (r: Result<Vec<Rational>, CodecError>)
    ensures
        r is Ok <==> simples_readable(dt_named(children_of(*e), name@)) && all_lexemes(
            raw_texts(dt_named(children_of(*e), name@)),
            |t: Seq<char>| spec_is_rational(t),
        ),
        r matches Ok(v) ==> ({
            let ts = raw_texts(dt_named(children_of(*e), name@));
            v@.len() == ts.len() && forall|i: int| 0 <= i < ts.len() ==> (#[trigger] v@[i])@ == ts[i]
        }),
        answered(r, lexemes_refusal(dt_named(children_of(*e), name@), name@, |t: Seq<char>| spec_is_rational(t))),
{
    let texts = match read_simple_texts(e, name) {
        Ok(t) => t,
        Err(x) => return Err(x),
    };
    let ghost cs = dt_named(children_of(*e), name@);
    let ghost ts = texts@.map_values(|p: (String, String)| p.1@);
    let mut out: Vec<Rational> = Vec::new();
    let mut i: usize = 0;
    while i < texts.len()
        invariant
            cs == dt_named(children_of(*e), name@),
            i <= texts@.len(),
            ts == texts@.map_values(|p: (String, String)| p.1@),
            texts_of(cs, ts),
            first_bad_lexeme(raw_texts(cs), |t: Seq<char>| spec_is_rational(t), 0) == first_bad_lexeme(raw_texts(cs), |t: Seq<char>| spec_is_rational(t), i as int),
            forall|k: int| 0 <= k < texts@.len() ==> (#[trigger] texts@[k]).0@ == index_path(name@, (k + 1) as nat),
            simples_refusal(cs, name@) is None,
            out@.len() == i,
            forall|k: int| 0 <= k < i ==> (#[trigger] out@[k])@ == ts[k],
            forall|k: int| 0 <= k < i ==> #[trigger] spec_is_rational(ts[k]),
        decreases texts.len() - i,
    {
        match Rational::from_str(texts[i].1.as_str()) {
            Ok(v) => out.push(v),
            Err(x) => {
                proof {
                    assert(raw_texts(cs)[i as int] == ts[i as int]);
                    assert(!spec_is_rational(raw_texts(cs)[i as int]));
                }
                return Err(invalid(texts[i].0.as_str(), &x));
            },
        }
        i = i + 1;
    }
    proof {
        assert(raw_texts(cs) =~= ts);
    }
    Ok(out)
}

fn read_date_times(e: &Element, name: &str) -> (r: Result<Vec<DateTime>, CodecError>)
    ensures
        r is Ok <==> simples_readable(dt_named(children_of(*e), name@)) && all_lexemes(
            raw_texts(dt_named(children_of(*e), name@)),
            |t: Seq<char>| spec_is_datetime(spec_collapse(t)),
        ),
        r matches Ok(v) ==> ({
            let ts = raw_texts(dt_named(children_of(*e), name@));
            v@.len() == ts.len() && forall|i: int| 0 <= i < ts.len() ==> (#[trigger] v@[i])@ == spec_collapse(ts[i])
        }),
        answered(r, lexemes_refusal(dt_named(children_of(*e), name@), name@, |t: Seq<char>| spec_is_datetime(spec_collapse(t)))),
{
    let texts = match read_simple_texts(e, name) {
        Ok(t) => t,
        Err(x) => return Err(x),
    };
    let ghost cs = dt_named(children_of(*e), name@);
    let ghost ts = texts@.map_values(|p: (String, String)| p.1@);
    let mut out: Vec<DateTime> = Vec::new();
    let mut i: usize = 0;
    while i < texts.len()
        invariant
            cs == dt_named(children_of(*e), name@),
            i <= texts@.len(),
            ts == texts@.map_values(|p: (String, String)| p.1@),
            texts_of(cs, ts),
            first_bad_lexeme(raw_texts(cs), |t: Seq<char>| spec_is_datetime(spec_collapse(t)), 0) == first_bad_lexeme(raw_texts(cs), |t: Seq<char>| spec_is_datetime(spec_collapse(t)), i as int),
            forall|k: int| 0 <= k < texts@.len() ==> (#[trigger] texts@[k]).0@ == index_path(name@, (k + 1) as nat),
            simples_refusal(cs, name@) is None,
            out@.len() == i,
            forall|k: int| 0 <= k < i ==> (#[trigger] out@[k])@ == spec_collapse(ts[k]),
            forall|k: int| 0 <= k < i ==> #[trigger] spec_is_datetime(spec_collapse(ts[k])),
        decreases texts.len() - i,
    {
        match DateTime::from_str(texts[i].1.as_str()) {
            Ok(v) => out.push(v),
            Err(x) => {
                proof {
                    assert(raw_texts(cs)[i as int] == ts[i as int]);
                    assert(!spec_is_datetime(spec_collapse(raw_texts(cs)[i as int])));
                }
                return Err(invalid(texts[i].0.as_str(), &x));
            },
        }
        i = i + 1;
    }
    proof {
        assert(raw_texts(cs) =~= ts);
    }
    Ok(out)
}

fn read_uris(e: &Element, name: &str) -> (r: Result<Vec<AnyUri>, CodecError>)
    ensures
        r is Ok <==> simples_readable(dt_named(children_of(*e), name@)) && all_lexemes(
            raw_texts(dt_named(children_of(*e), name@)),
            |t: Seq<char>| spec_is_any_uri(spec_collapse(t)),
        ),
        r matches Ok(v) ==> ({
            let ts = raw_texts(dt_named(children_of(*e), name@));
            v@.len() == ts.len() && forall|i: int| 0 <= i < ts.len() ==> (#[trigger] v@[i])@ == spec_collapse(ts[i])
        }),
{
    let texts = match read_simple_texts(e, name) {
        Ok(t) => t,
        Err(x) => return Err(x),
    };
    let ghost cs = dt_named(children_of(*e), name@);
    let ghost ts = texts@.map_values(|p: (String, String)| p.1@);
    let mut out: Vec<AnyUri> = Vec::new();
    let mut i: usize = 0;
    while i < texts.len()
        invariant
            cs == dt_named(children_of(*e), name@),
            i <= texts@.len(),
            ts == texts@.map_values(|p: (String, String)| p.1@),
            texts_of(cs, ts),
            out@.len() == i,
            forall|k: int| 0 <= k < i ==> (#[trigger] out@[k])@ == spec_collapse(ts[k]),
            forall|k: int| 0 <= k < i ==> #[trigger] spec_is_any_uri(spec_collapse(ts[k])),
        decreases texts.len() - i,
    {
        match AnyUri::from_str(texts[i].1.as_str()) {
            Ok(v) => out.push(v),
            Err(x) => {
                proof {
                    assert(raw_texts(cs)[i as int] == ts[i as int]);
                    assert(!spec_is_any_uri(spec_collapse(raw_texts(cs)[i as int])));
                }
                return Err(invalid(texts[i].0.as_str(), &x));
            },
        }
        i = i + 1;
    }
    proof {
        assert(raw_texts(cs) =~= ts);
    }
    Ok(out)
}


/// Every child of `kids` is an ISO 23387 element named in `names`.
pub open spec fn known_children(kids: Seq<Element>, names: Seq<Seq<char>>) -> bool {
    forall|i: int| 0 <= i < kids.len() ==> in_dt_named(#[trigger] kids[i], names)
}

pub open spec fn in_dt_named(c: Element, names: Seq<Seq<char>>) -> bool {
    crate::model::in_dt(c) && names.contains(c.spec_local_name())
}

pub open spec fn name_views(names: Seq<&str>) -> Seq<Seq<char>> {
    names.map_values(|n: &str| n@)
}

fn name_listed(names: &Vec<&str>, local: &str) -> (r: bool)
    ensures
        r == name_views(names@).contains(local@),
{
    let mut i: usize = 0;
    while i < names.len()
        invariant
            i <= names@.len(),
            forall|k: int| 0 <= k < i ==> names@[k]@ != local@,
        decreases names.len() - i,
    {
        if str_eq(names[i], local) {
            assert(name_views(names@)[i as int] == local@);
            return true;
        }
        i = i + 1;
    }
    assert forall|k: int| 0 <= k < name_views(names@).len() implies name_views(names@)[k] != local@ by {
        assert(name_views(names@)[k] == names@[k]@);
    }
    false
}

/// Fails on the first child the decoder did not read: a foreign element or
/// one whose name is not in `names`.
fn finish(e: &Element, names: &Vec<&str>) -> (r: Result<(), CodecError>)
    ensures
        r is Ok <==> known_children(children_of(*e), name_views(names@)),
        r matches Err(x) ==> x.spec_kind() == CodecErrorKind::UnknownChild,
{
    let children = e.children();
    let mut i: usize = 0;
    while i < children.len()
        invariant
            i <= children@.len(),
            children@.len() == children_of(*e).len(),
            forall|k: int| 0 <= k < children@.len() ==> *children@[k] == children_of(*e)[k],
            forall|k: int| 0 <= k < i ==> in_dt_named(#[trigger] children_of(*e)[k], name_views(names@)),
        decreases children.len() - i,
    {
        let child = children[i];
        if !(crate::model::is_in_dt(child) && name_listed(names, child.local_name())) {
            let mut detail = String::from_str("`");
            detail.append(child.local_name());
            detail.append("` is not represented by the owned model");
            return Err(CodecError::new(CodecErrorKind::UnknownChild, String::from_str(child.qname()), detail));
        }
        i = i + 1;
    }
    Ok(())
}

/// The `ConceptType` child names, in declaration order.
pub open spec fn concept_names() -> Seq<Seq<char>> {
    seq!["Name"@, "Definition"@, "ReferenceDocumentRef"@, "Description"@, "Example"@, "SimilarToRef"@, "LanguageOfCreator"@, "CountryOfOrigin"@, "VisualRepresentation"@, "MajorVersion"@, "MinorVersion"@, "Status"@, "ReplacedObjectsRef"@, "DeprecationExplanation"@, "DictionaryRef"@]
}

fn concept_name_list() -> (r: Vec<&'static str>)
    ensures
        name_views(r@) == concept_names(),
{
    let r = vec!["Name", "Definition", "ReferenceDocumentRef", "Description", "Example", "SimilarToRef", "LanguageOfCreator", "CountryOfOrigin", "VisualRepresentation", "MajorVersion", "MinorVersion", "Status", "ReplacedObjectsRef", "DeprecationExplanation", "DictionaryRef"];
    assert(name_views(r@) =~= concept_names());
    r
}

/// Whether an element may hold ISO 23387 content: qualified or unqualified.
pub open spec fn namespace_acceptable(e: Element) -> bool {
    e.spec_namespace() is None || e.spec_namespace() == Some(NAMESPACE@)
}

fn check_namespace(e: &Element) -> (r: Result<(), CodecError>)
    ensures
        r is Ok <==> namespace_acceptable(*e),
        r matches Err(x) ==> x.spec_kind() == CodecErrorKind::UnexpectedContent && x.spec_path().len() == 0,
{
    match e.namespace_uri() {
        None => Ok(()),
        Some(ns) => {
            if str_eq(ns, NAMESPACE) {
                Ok(())
            } else {
                let mut detail = String::from_str("`");
                detail.append(e.local_name());
                detail.append("` is in namespace ");
                detail.append(ns);
                detail.append(", not ISO 23387");
                proof {
                    reveal_strlit("");
                }
                Err(CodecError::new(CodecErrorKind::UnexpectedContent, String::from_str(""), detail))
            }
        },
    }
}

/// `m` is the concept decoded from `e`'s attributes and children.
pub open spec fn concept_decodes(e: Element, m: ConceptModel) -> bool {
    let kids = children_of(e);
    &&& guid_attr(e) == Some(m.guid@)
    &&& plain_attr(e, "dateOfCreation"@) matches Some(d) && m.date_of_creation@ == spec_collapse(d)
    &&& match attribute_lookup(e.spec_attributes(), Some(NAMESPACE@), "about"@) {
        Some(a) => m.about matches Some(x) && x@ == spec_collapse(a),
        None => m.about is None,
    }
    &&& texts_decode(dt_named(kids, "Name"@), m.names)
    &&& texts_decode(dt_named(kids, "Definition"@), m.definitions)
    &&& refs_decode(dt_named(kids, "ReferenceDocumentRef"@), m.reference_document_refs)
    &&& texts_decode(dt_named(kids, "Description"@), m.descriptions)
    &&& texts_decode(dt_named(kids, "Example"@), m.examples)
    &&& refs_decode(dt_named(kids, "SimilarToRef"@), m.similar_to_refs)
    &&& lexemes_language(m.languages_of_creator) == collapsed_texts(dt_named(kids, "LanguageOfCreator"@))
    &&& lexemes_string(m.countries_of_origin) == raw_texts(dt_named(kids, "CountryOfOrigin"@))
    &&& lexemes_base64(m.visual_representations) == collapsed_texts(dt_named(kids, "VisualRepresentation"@))
    &&& lexemes_count(m.major_versions) == collapsed_texts(dt_named(kids, "MajorVersion"@))
    &&& lexemes_count(m.minor_versions) == collapsed_texts(dt_named(kids, "MinorVersion"@))
    &&& lexemes_string(m.statuses) == raw_texts(dt_named(kids, "Status"@))
    &&& refs_decode(dt_named(kids, "ReplacedObjectsRef"@), m.replaced_objects_refs)
    &&& lexemes_string(m.deprecation_explanations) == raw_texts(dt_named(kids, "DeprecationExplanation"@))
    &&& refs_decode(dt_named(kids, "DictionaryRef"@), m.dictionary_refs)
}

/// Simple children named `name` that the owned model can read, each text
/// meeting `valid`.
pub open spec fn lexemes_readable(kids: Seq<Element>, name: Seq<char>, valid: spec_fn(Seq<char>) -> bool) -> bool {
    simples_readable(dt_named(kids, name)) && all_lexemes(raw_texts(dt_named(kids, name)), valid)
}

/// The concept attributes and children of `e` are all of a shape and a
/// lexical form that the owned model holds.
pub open spec fn concept_readable(e: Element) -> bool {
    let kids = children_of(e);
    &&& attrs_known(e.spec_attributes(), AttributeSet::Concept)
    &&& guid_attr(e) matches Some(g) && spec_is_guid(g)
    &&& plain_attr(e, "dateOfCreation"@) matches Some(d) && spec_is_datetime(spec_collapse(d))
    &&& (attribute_lookup(e.spec_attributes(), Some(NAMESPACE@), "about"@) matches Some(a) ==> spec_is_any_uri(spec_collapse(a)))
    &&& texts_readable(dt_named(kids, "Name"@))
    &&& texts_readable(dt_named(kids, "Definition"@))
    &&& references_readable(dt_named(kids, "ReferenceDocumentRef"@))
    &&& texts_readable(dt_named(kids, "Description"@))
    &&& texts_readable(dt_named(kids, "Example"@))
    &&& references_readable(dt_named(kids, "SimilarToRef"@))
    &&& lexemes_readable(kids, "LanguageOfCreator"@, |t: Seq<char>| spec_is_language(spec_collapse(t)))
    &&& simples_readable(dt_named(kids, "CountryOfOrigin"@))
    &&& lexemes_readable(kids, "VisualRepresentation"@, |t: Seq<char>| spec_is_base64(spec_collapse(t)))
    &&& lexemes_readable(kids, "MajorVersion"@, |t: Seq<char>| spec_is_non_negative_integer(spec_collapse(t)))
    &&& lexemes_readable(kids, "MinorVersion"@, |t: Seq<char>| spec_is_non_negative_integer(spec_collapse(t)))
    &&& simples_readable(dt_named(kids, "Status"@))
    &&& references_readable(dt_named(kids, "ReplacedObjectsRef"@))
    &&& simples_readable(dt_named(kids, "DeprecationExplanation"@))
    &&& references_readable(dt_named(kids, "DictionaryRef"@))
}

fn required_attribute<'a>(e: &'a Element, namespace: Option<&str>, name: &str) -> (r: Result<&'a str, CodecError>)
    ensures
        r matches Ok(v) ==> attribute_lookup(e.spec_attributes(), opt_str_view(namespace), name@) == Some(v@),
        r is Err ==> attribute_lookup(e.spec_attributes(), opt_str_view(namespace), name@) is None,
        r matches Err(x) ==> x.spec_kind() == CodecErrorKind::MissingAttribute,
        r matches Err(x) ==> x.spec_path() == seq!['@'] + name@,
{
    match e.attribute_ns(namespace, name) {
        Some(v) => Ok(v),
        None => {
            let mut detail = String::from_str("required attribute `");
            detail.append(name);
            detail.append("` is missing");
            Err(CodecError::new(CodecErrorKind::MissingAttribute, at_name(name), detail))
        },
    }
}

/// The `j`-th group of a concept's children, in the order the decoder
/// reads them, is of a shape and form the owned model holds.
pub open spec fn concept_group_ok(e: Element, j: int) -> bool {
    let kids = children_of(e);
    if j == 0 {
        texts_readable(dt_named(kids, "Name"@))
    } else if j == 1 {
        texts_readable(dt_named(kids, "Definition"@))
    } else if j == 2 {
        references_readable(dt_named(kids, "ReferenceDocumentRef"@))
    } else if j == 3 {
        texts_readable(dt_named(kids, "Description"@))
    } else if j == 4 {
        texts_readable(dt_named(kids, "Example"@))
    } else if j == 5 {
        references_readable(dt_named(kids, "SimilarToRef"@))
    } else if j == 6 {
        lexemes_readable(kids, "LanguageOfCreator"@, |t: Seq<char>| spec_is_language(spec_collapse(t)))
    } else if j == 7 {
        simples_readable(dt_named(kids, "CountryOfOrigin"@))
    } else if j == 8 {
        lexemes_readable(kids, "VisualRepresentation"@, |t: Seq<char>| spec_is_base64(spec_collapse(t)))
    } else if j == 9 {
        lexemes_readable(kids, "MajorVersion"@, |t: Seq<char>| spec_is_non_negative_integer(spec_collapse(t)))
    } else if j == 10 {
        lexemes_readable(kids, "MinorVersion"@, |t: Seq<char>| spec_is_non_negative_integer(spec_collapse(t)))
    } else if j == 11 {
        simples_readable(dt_named(kids, "Status"@))
    } else if j == 12 {
        references_readable(dt_named(kids, "ReplacedObjectsRef"@))
    } else if j == 13 {
        simples_readable(dt_named(kids, "DeprecationExplanation"@))
    } else {
        references_readable(dt_named(kids, "DictionaryRef"@))
    }
}

/// The refusal of the `j`-th group of a concept's children.
pub open spec fn concept_group_refusal(e: Element, j: int) -> Option<(CodecErrorKind, Seq<char>)> {
    let kids = children_of(e);
    if j == 0 {
        texts_refusal(dt_named(kids, "Name"@), "Name"@)
    } else if j == 1 {
        texts_refusal(dt_named(kids, "Definition"@), "Definition"@)
    } else if j == 2 {
        references_refusal(dt_named(kids, "ReferenceDocumentRef"@), "ReferenceDocumentRef"@)
    } else if j == 3 {
        texts_refusal(dt_named(kids, "Description"@), "Description"@)
    } else if j == 4 {
        texts_refusal(dt_named(kids, "Example"@), "Example"@)
    } else if j == 5 {
        references_refusal(dt_named(kids, "SimilarToRef"@), "SimilarToRef"@)
    } else if j == 6 {
        lexemes_refusal(dt_named(kids, "LanguageOfCreator"@), "LanguageOfCreator"@, |t: Seq<char>| spec_is_language(spec_collapse(t)))
    } else if j == 7 {
        simples_refusal(dt_named(kids, "CountryOfOrigin"@), "CountryOfOrigin"@)
    } else if j == 8 {
        lexemes_refusal(dt_named(kids, "VisualRepresentation"@), "VisualRepresentation"@, |t: Seq<char>| spec_is_base64(spec_collapse(t)))
    } else if j == 9 {
        lexemes_refusal(dt_named(kids, "MajorVersion"@), "MajorVersion"@, |t: Seq<char>| spec_is_non_negative_integer(spec_collapse(t)))
    } else if j == 10 {
        lexemes_refusal(dt_named(kids, "MinorVersion"@), "MinorVersion"@, |t: Seq<char>| spec_is_non_negative_integer(spec_collapse(t)))
    } else if j == 11 {
        simples_refusal(dt_named(kids, "Status"@), "Status"@)
    } else if j == 12 {
        references_refusal(dt_named(kids, "ReplacedObjectsRef"@), "ReplacedObjectsRef"@)
    } else if j == 13 {
        simples_refusal(dt_named(kids, "DeprecationExplanation"@), "DeprecationExplanation"@)
    } else if j == 14 {
        references_refusal(dt_named(kids, "DictionaryRef"@), "DictionaryRef"@)
    } else {
        None
    }
}

/// The concept decoder has read `e` up to its `k`-th group of children
/// without a refusal.
pub open spec fn concept_stage(e: Element, k: int) -> bool {
    concept_attribute_refusal(e) is None && forall|j: int| 0 <= j < k ==> #[trigger] concept_group_ok(e, j)
}

/// `r` answers every group of `e`'s concept children at which the decoder
/// stops with the refusal that group states.
pub open spec fn concept_groups_answered<T>(r: Result<T, CodecError>, e: Element) -> bool {
    forall|j: int| 0 <= j < 15 && #[trigger] concept_stage(e, j) ==> answered(r, concept_group_refusal(e, j))
}

fn read_concept(e: &Element) -> (r: Result<Concept, CodecError>)
    ensures
        r is Ok <==> concept_readable(*e),
        concept_refused(r, *e),
        !attrs_known(e.spec_attributes(), AttributeSet::Concept) ==> refused_kind(r, CodecErrorKind::UnknownAttribute),
        concept_groups_answered(r, *e),
        r matches Ok(c) ==> concept_decodes(*e, c@),
{
    match refuse_unrepresented(e, AttributeSet::Concept) {
        Ok(()) => {},
        Err(x) => return Err(x),
    }
    proof {
        reveal_strlit("GUID");
        reveal_strlit("@GUID");
        reveal_strlit("dateOfCreation");
        reveal_strlit("@dateOfCreation");
        assert(seq!['@'] + "GUID"@ =~= "@GUID"@);
        assert(seq!['@'] + "dateOfCreation"@ =~= "@dateOfCreation"@);
    }
    let guid_text = match required_attribute(e, Some(NAMESPACE), "GUID") {
        Ok(v) => v,
        Err(x) => return Err(x),
    };
    let guid = match Guid::from_str(guid_text) {
        Ok(v) => v,
        Err(x) => return Err(invalid("@GUID", &x)),
    };
    let date_text = match required_attribute(e, None, "dateOfCreation") {
        Ok(v) => v,
        Err(x) => return Err(x),
    };
    let date = match DateTime::from_str(date_text) {
        Ok(v) => v,
        Err(x) => return Err(invalid("@dateOfCreation", &x)),
    };
    let about = match e.attribute_ns(Some(NAMESPACE), "about") {
        Some(a) => match AnyUri::from_str(a) {
            Ok(v) => Some(v),
            Err(x) => return Err(invalid("@about", &x)),
        },
        None => None,
    };
    let names = match read_texts(e, "Name") {
        Ok(v) => v,
        Err(x) => {
            assert(!concept_group_ok(*e, 0));
            return Err(x);
        },
    };
    let definitions = match read_texts(e, "Definition") {
        Ok(v) => v,
        Err(x) => {
            assert(!concept_group_ok(*e, 1));
            return Err(x);
        },
    };
    let reference_documents = match read_references(e, "ReferenceDocumentRef") {
        Ok(v) => v,
        Err(x) => {
            assert(!concept_group_ok(*e, 2));
            return Err(x);
        },
    };
    let descriptions = match read_texts(e, "Description") {
        Ok(v) => v,
        Err(x) => {
            assert(!concept_group_ok(*e, 3));
            return Err(x);
        },
    };
    let examples = match read_texts(e, "Example") {
        Ok(v) => v,
        Err(x) => {
            assert(!concept_group_ok(*e, 4));
            return Err(x);
        },
    };
    let similar = match read_references(e, "SimilarToRef") {
        Ok(v) => v,
        Err(x) => {
            assert(!concept_group_ok(*e, 5));
            return Err(x);
        },
    };
    let languages = match read_languages(e, "LanguageOfCreator") {
        Ok(v) => v,
        Err(x) => {
            assert(!concept_group_ok(*e, 6));
            return Err(x);
        },
    };
    let countries = match read_strings(e, "CountryOfOrigin") {
        Ok(v) => v,
        Err(x) => {
            assert(!concept_group_ok(*e, 7));
            return Err(x);
        },
    };
    let pictures = match read_base64s(e, "VisualRepresentation") {
        Ok(v) => v,
        Err(x) => {
            assert(!concept_group_ok(*e, 8));
            return Err(x);
        },
    };
    let majors = match read_counts(e, "MajorVersion") {
        Ok(v) => v,
        Err(x) => {
            assert(!concept_group_ok(*e, 9));
            return Err(x);
        },
    };
    let minors = match read_counts(e, "MinorVersion") {
        Ok(v) => v,
        Err(x) => {
            assert(!concept_group_ok(*e, 10));
            return Err(x);
        },
    };
    let statuses = match read_strings(e, "Status") {
        Ok(v) => v,
        Err(x) => {
            assert(!concept_group_ok(*e, 11));
            return Err(x);
        },
    };
    let replaced = match read_references(e, "ReplacedObjectsRef") {
        Ok(v) => v,
        Err(x) => {
            assert(!concept_group_ok(*e, 12));
            return Err(x);
        },
    };
    let explanations = match read_strings(e, "DeprecationExplanation") {
        Ok(v) => v,
        Err(x) => {
            assert(!concept_group_ok(*e, 13));
            return Err(x);
        },
    };
    let dictionaries = match read_references(e, "DictionaryRef") {
        Ok(v) => v,
        Err(x) => {
            assert(!concept_group_ok(*e, 14));
            return Err(x);
        },
    };
    proof {
        let kids = children_of(*e);
        assert(lexemes_language(languages@) =~= collapsed_texts(dt_named(kids, "LanguageOfCreator"@)));
        assert(lexemes_base64(pictures@) =~= collapsed_texts(dt_named(kids, "VisualRepresentation"@)));
        assert(lexemes_count(majors@) =~= collapsed_texts(dt_named(kids, "MajorVersion"@)));
        assert(lexemes_count(minors@) =~= collapsed_texts(dt_named(kids, "MinorVersion"@)));
    }
    Ok(
        Concept::assembled(
            guid,
            date,
            about,
            names,
            definitions,
            descriptions,
            examples,
            reference_documents,
            similar,
            replaced,
            dictionaries,
            languages,
            countries,
            pictures,
            majors,
            minors,
            statuses,
            explanations,
        ),
    )
}


// ---------------------------------------------------------------------------
// `xs:int` attribute values
// ---------------------------------------------------------------------------

/// The Unicode `White_Space` characters, which std's `str::trim` removes.
pub open spec fn is_white_space(c: char) -> bool {
    ('\u{9}' <= c && c <= '\u{D}') || c == ' ' || c == '\u{85}' || c == '\u{A0}' || c == '\u{1680}'
        || ('\u{2000}' <= c && c <= '\u{200A}') || c == '\u{2028}' || c == '\u{2029}' || c == '\u{202F}'
        || c == '\u{205F}' || c == '\u{3000}'
}

fn white_space(c: char) -> (r: bool)
    ensures
        r == is_white_space(c),
{
    ('\u{9}' <= c && c <= '\u{D}') || c == ' ' || c == '\u{85}' || c == '\u{A0}' || c == '\u{1680}'
        || ('\u{2000}' <= c && c <= '\u{200A}') || c == '\u{2028}' || c == '\u{2029}' || c == '\u{202F}'
        || c == '\u{205F}' || c == '\u{3000}'
}

/// `s` without leading and trailing white space.
pub open spec fn trimmed(s: Seq<char>) -> Seq<char> {
    let a = first_kept(s, 0);
    let b = last_kept(s, s.len() as int);
    if a < b {
        s.subrange(a, b)
    } else {
        Seq::empty()
    }
}

/// The first position at or after `i` holding a non-white-space character.
pub open spec fn first_kept(s: Seq<char>, i: int) -> int
    decreases s.len() - i,
{
    if i >= s.len() || i < 0 {
        s.len() as int
    } else if is_white_space(s[i]) {
        first_kept(s, i + 1)
    } else {
        i
    }
}

/// One past the last position before `j` holding a non-white-space character.
pub open spec fn last_kept(s: Seq<char>, j: int) -> int
    decreases j,
{
    if j <= 0 || j > s.len() {
        0
    } else if is_white_space(s[j - 1]) {
        last_kept(s, j - 1)
    } else {
        j
    }
}

/// The `xs:int` value of a lexeme: an optional sign, at least one decimal
/// digit, and a value within the 32-bit range.
pub open spec fn int_lexeme(s: Seq<char>) -> Option<i32> {
    let body = crate::value::strip_sign(s);
    let negative = s.len() > 0 && s[0] == '-';
    if body.len() == 0 || !crate::value::all_digits(body) {
        None
    } else {
        let v = if negative {
            -crate::value::digits_value(body)
        } else {
            crate::value::digits_value(body)
        };
        if -2147483648 <= v && v <= 2147483647 {
            Some(v as i32)
        } else {
            None
        }
    }
}

proof fn lemma_digits_grow(s: Seq<char>, k: int)
    requires
        0 <= k < s.len(),
        crate::value::all_digits(s),
    ensures
        crate::value::digits_value(s.take(k + 1)) == crate::value::digits_value(s.take(k)) * 10 + (s[k] as int - '0' as int),
        crate::value::digits_value(s.take(k)) >= 0,
    decreases k,
{
    assert(s.take(k + 1).drop_last() =~= s.take(k));
    if k > 0 {
        assert(is_digit(s[k - 1]));
        lemma_digits_grow(s, k - 1);
    } else {
        assert(s.take(0) =~= Seq::<char>::empty());
    }
}

fn parse_int(v: &Vec<char>) -> (r: Option<i32>)
    ensures
        r == int_lexeme(trimmed(v@)),
{
    let n = v.len();
    let mut a: usize = 0;
    while a < n && white_space(v[a])
        invariant
            a <= n == v@.len(),
            first_kept(v@, 0) == first_kept(v@, a as int),
        decreases n - a,
    {
        a = a + 1;
    }
    let mut b: usize = n;
    while b > a && white_space(v[b - 1])
        invariant
            a <= b <= n == v@.len(),
            last_kept(v@, n as int) == last_kept(v@, b as int),
            a == first_kept(v@, 0),
        decreases b,
    {
        b = b - 1;
    }
    proof {
        if a < b {
            assert(last_kept(v@, b as int) == b);
        } else {
            lemma_last_kept_low(v@, b as int, a as int);
        }
    }
    let ghost s = trimmed(v@);
    if a == b {
        assert(s =~= Seq::<char>::empty());
        return None;
    }
    assert(s =~= v@.subrange(a as int, b as int));
    int_in(v, a, b)
}

/// The `xs:int` value of `v[a..b]`, read as it stands.
pub(crate) fn int_in(v: &Vec<char>, a: usize, b: usize) -> (r: Option<i32>)
    requires
        a <= b <= v@.len(),
    ensures
        r == int_lexeme(v@.subrange(a as int, b as int)),
{
    let ghost s = v@.subrange(a as int, b as int);
    if a == b {
        return None;
    }
    let negative = v[a] == '-';
    let start = if v[a] == '-' || v[a] == '+' {
        a + 1
    } else {
        a
    };
    let ghost body = crate::value::strip_sign(s);
    assert(body =~= v@.subrange(start as int, b as int));
    if start == b {
        return None;
    }
    let mut value: i64 = 0;
    let mut big = false;
    let mut i = start;
    while i < b
        invariant
            start <= i <= b <= v@.len(),
            body == v@.subrange(start as int, b as int),
            s == v@.subrange(a as int, b as int),
            body == crate::value::strip_sign(s),
            s.len() > 0,
            negative == (s[0] == '-'),
            forall|k: int| start <= k < i ==> is_digit(#[trigger] v@[k]),
            !big ==> value == crate::value::digits_value(body.take(i - start)),
            big ==> crate::value::digits_value(body.take(i - start)) > 2147483648,
            0 <= value <= 2147483648,
        decreases b - i,
    {
        if !digit(v[i]) {
            assert(!is_digit(body[i - start]));
            return None;
        }
        proof {
            assert forall|k: int| 0 <= k < (i - start + 1) implies is_digit(#[trigger] body.take(i - start + 1)[k]) by {
                assert(body.take(i - start + 1)[k] == v@[start + k]);
            }
            lemma_digits_grow(body.take(i - start + 1), i - start);
            assert(body.take(i - start + 1).take(i - start) =~= body.take(i - start));
            assert(body.take(i - start + 1).take(i - start + 1) =~= body.take(i - start + 1));
        }
        let d = (v[i] as u32 - '0' as u32) as i64;
        if !big {
            let next = value * 10 + d;
            if next > 2147483648 {
                big = true;
                value = 0;
            } else {
                value = next;
            }
        }
        i = i + 1;
    }
    assert(body.take(body.len() as int) =~= body);
    assert(crate::value::all_digits(body));
    if big {
        return None;
    }
    if negative {
        Some((-value) as i32)
    } else if value <= 2147483647 {
        Some(value as i32)
    } else {
        None
    }
}

proof fn lemma_last_kept_low(s: Seq<char>, j: int, a: int)
    requires
        0 <= a,
        a >= j,
        j <= s.len(),
        last_kept(s, s.len() as int) == last_kept(s, j),
    ensures
        last_kept(s, s.len() as int) <= a,
    decreases j,
{
    lemma_last_kept_bound(s, j);
}

proof fn lemma_last_kept_bound(s: Seq<char>, j: int)
    ensures
        last_kept(s, j) <= if j > 0 { j } else { 0 },
    decreases j,
{
    if j > 0 && j <= s.len() && is_white_space(s[j - 1]) {
        lemma_last_kept_bound(s, j - 1);
    }
}


// ---------------------------------------------------------------------------
// Data types and value lists
// ---------------------------------------------------------------------------

fn at_most_one<T>(name: &str, values: Vec<T>) -> (r: Result<Option<T>, CodecError>)
    ensures
        r is Ok <==> values@.len() <= 1,
        r matches Ok(o) ==> o == (if values@.len() == 1 { Some(values@[0]) } else { None::<T> }),
        r matches Err(x) ==> x.spec_kind() == CodecErrorKind::TooManyChildren,
        r matches Err(x) ==> x.spec_path() == index_path(name@, 2),
{
    let mut values = values;
    if values.len() > 1 {
        let mut detail = String::from_str("`");
        detail.append(name);
        detail.append("` occurs more than once; at most one is declared");
        return Err(CodecError::new(CodecErrorKind::TooManyChildren, indexed(name, 2), detail));
    }
    Ok(values.pop())
}

fn exactly_one<T>(name: &str, values: Vec<T>) -> (r: Result<T, CodecError>)
    ensures
        r is Ok <==> values@.len() == 1,
        r matches Ok(v) ==> v == values@[0],
        r matches Err(x) ==> (x.spec_kind() == CodecErrorKind::TooManyChildren <==> values@.len() > 1),
        r matches Err(x) ==> (x.spec_kind() == CodecErrorKind::MissingChild <==> values@.len() == 0),
        values@.len() == 0 ==> refused(r, CodecErrorKind::MissingChild, Seq::empty()),
        values@.len() > 1 ==> refused(r, CodecErrorKind::TooManyChildren, index_path(name@, 2)),
{
    match at_most_one(name, values) {
        Ok(Some(v)) => Ok(v),
        Ok(None) => {
            let mut detail = String::from_str("required child `");
            detail.append(name);
            detail.append("` is missing");
            proof {
                reveal_strlit("");
            }
            Err(CodecError::new(CodecErrorKind::MissingChild, String::from_str(""), detail))
        },
        Err(x) => Err(x),
    }
}

/// The order attribute of a value: its `xs:int` value after trimming.
pub open spec fn order_of(c: Element) -> Option<i32> {
    match plain_attr(c, "order"@) {
        Some(o) => int_lexeme(trimmed(o)),
        None => None,
    }
}

pub open spec fn value_decodes(c: Element, v: DataValue) -> bool {
    v@.value == text_of(c.spec_nodes()) && v@.order == order_of(c)
}

/// `l` is the value list decoded from `e`.
pub open spec fn value_list_decodes(e: Element, l: crate::domain::ValueListModel) -> bool {
    let values = dt_named(children_of(e), "Value"@);
    &&& plain_attr(e, "language"@) matches Some(x) && l.language@ == spec_collapse(x)
    &&& l.values.len() == values.len()
    &&& values.len() > 0
    &&& forall|i: int| 0 <= i < values.len() ==> value_decodes(#[trigger] values[i], l.values[i])
}

/// A `Value` the owned model can read: at most an `order` attribute, an
/// `xs:int` where present, and simple content.
pub open spec fn value_readable(c: Element) -> bool {
    &&& attrs_known(c.spec_attributes(), AttributeSet::Order)
    &&& (plain_attr(c, "order"@) matches Some(o) ==> int_lexeme(trimmed(o)) is Some)
    &&& children_of(c).len() == 0
}

/// A value list the owned model can read: a valid `language`, element-only
/// content of at least one readable `Value` and nothing else.
pub open spec fn value_list_readable(e: Element) -> bool {
    let values = dt_named(children_of(e), "Value"@);
    &&& attrs_known(e.spec_attributes(), AttributeSet::Language)
    &&& plain_attr(e, "language"@) matches Some(x) && spec_is_language(spec_collapse(x))
    &&& blank_content(e.spec_nodes())
    &&& forall|i: int| 0 <= i < values.len() ==> value_readable(#[trigger] values[i])
    &&& known_children(children_of(e), seq!["Value"@])
    &&& values.len() > 0
}

/// The refusal, kind and path, of a `Value` child, in the order the
/// decoder checks it: an attribute the model cannot hold, an `order` that
/// is no `xs:int`, child elements; `None` where it decodes.
pub open spec fn value_refusal(c: Element) -> Option<(CodecErrorKind, Seq<char>)> {
    let attrs = c.spec_attributes();
    match first_unknown(attrs, AttributeSet::Order, 0) {
        Some(i) => Some((CodecErrorKind::UnknownAttribute, seq!['@'] + attrs[i].spec_qname())),
        None => if plain_attr(c, "order"@) matches Some(o) && int_lexeme(trimmed(o)) is None {
            Some((CodecErrorKind::InvalidValue, "@order"@))
        } else if children_of(c).len() > 0 {
            Some((CodecErrorKind::UnexpectedContent, Seq::empty()))
        } else {
            None
        },
    }
}

/// The first of the `Value` children `cs`, from `i` on, that is refused.
pub open spec fn first_bad_value(cs: Seq<Element>, i: int) -> Option<int>
    decreases cs.len() - i,
{
    if i < 0 || i >= cs.len() {
        None
    } else if value_refusal(cs[i]) is Some {
        Some(i)
    } else {
        first_bad_value(cs, i + 1)
    }
}

/// The refusal, kind and path, of a value list before its children's
/// names are checked, in the order the decoder checks it: an attribute the
/// model cannot hold, a missing or invalid `language`, character data, then
/// the first `Value` that is refused, below its indexed path.
pub open spec fn value_list_refusal(e: Element) -> Option<(CodecErrorKind, Seq<char>)> {
    let attrs = e.spec_attributes();
    let values = dt_named(children_of(e), "Value"@);
    match first_unknown(attrs, AttributeSet::Language, 0) {
        Some(i) => Some((CodecErrorKind::UnknownAttribute, seq!['@'] + attrs[i].spec_qname())),
        None => match plain_attr(e, "language"@) {
            None => Some((CodecErrorKind::MissingAttribute, "@language"@)),
            Some(x) => if !spec_is_language(spec_collapse(x)) {
                Some((CodecErrorKind::InvalidValue, "@language"@))
            } else if !blank_content(e.spec_nodes()) {
                Some((CodecErrorKind::UnexpectedContent, Seq::empty()))
            } else {
                match first_bad_value(values, 0) {
                    Some(i) => match value_refusal(values[i]) {
                        Some((k, path)) => Some((k, nest_path(index_path("Value"@, (i + 1) as nat), path))),
                        None => None,
                    },
                    None => None,
                }
            },
        },
    }
}

fn read_value_list(e: &Element) -> (r: Result<ValueList, CodecError>)
    ensures
        r is Ok <==> value_list_readable(*e),
        answered(r, value_list_refusal(*e)),
        value_list_refusal(*e) is None && !known_children(children_of(*e), seq!["Value"@]) ==> refused_kind(
            r,
            CodecErrorKind::UnknownChild,
        ),
        value_list_refusal(*e) is None && known_children(children_of(*e), seq!["Value"@]) && dt_named(
            children_of(*e),
            "Value"@,
        ).len() == 0 ==> refused(r, CodecErrorKind::MissingChild, Seq::empty()),
        !attrs_known(e.spec_attributes(), AttributeSet::Language) ==> refused_kind(r, CodecErrorKind::UnknownAttribute),
        attrs_known(e.spec_attributes(), AttributeSet::Language) && attribute_lookup(
            e.spec_attributes(),
            None,
            "language"@,
        ) is None ==> refused_kind(r, CodecErrorKind::MissingAttribute),
        r matches Ok(l) ==> value_list_decodes(*e, l@),
{
    proof {
        reveal_strlit("language");
        reveal_strlit("@language");
    }
    match refuse_unrepresented(e, AttributeSet::Language) {
        Ok(()) => {},
        Err(x) => return Err(x),
    }
    let language_text = match required_attribute(e, None, "language") {
        Ok(v) => v,
        Err(x) => return Err(x),
    };
    let language = match Language::from_str(language_text) {
        Ok(v) => v,
        Err(x) => return Err(invalid("@language", &x)),
    };
    match element_only(e) {
        Ok(()) => {},
        Err(x) => return Err(x),
    }
    let found = dt_children(e, "Value");
    let ghost cs = dt_named(children_of(*e), "Value"@);
    let mut values: Vec<DataValue> = Vec::new();
    let mut i: usize = 0;
    while i < found.len()
        invariant
            i <= found@.len(),
            found@.len() == cs.len(),
            forall|k: int| 0 <= k < found@.len() ==> *found@[k] == cs[k],
            cs == dt_named(children_of(*e), "Value"@),
            values@.len() == i,
            forall|k: int| 0 <= k < i ==> value_decodes(cs[k], #[trigger] values@[k]),
            forall|k: int| 0 <= k < i ==> value_readable(#[trigger] cs[k]),
            attrs_known(e.spec_attributes(), AttributeSet::Language),
            attribute_lookup(e.spec_attributes(), None, "language"@) is Some,
            first_bad_value(cs, 0) == first_bad_value(cs, i as int),
            value_list_refusal(*e) == match first_bad_value(cs, 0) {
                Some(j) => match value_refusal(cs[j]) {
                    Some((k, path)) => Some((k, nest_path(index_path("Value"@, (j + 1) as nat), path))),
                    None => None,
                },
                None => None::<(CodecErrorKind, Seq<char>)>,
            },
        decreases found.len() - i,
    {
        let child = found[i];
        let path = indexed("Value", i + 1);
        match refuse_unrepresented(child, AttributeSet::Order) {
            Ok(()) => {},
            Err(x) => {
                assert(!value_readable(cs[i as int]));
                return Err(x.nested(path.as_str()))
            },
        }
        let order = match child.attribute_ns(None, "order") {
            Some(o) => {
                let chars = crate::text::chars_of(o);
                match parse_int(&chars) {
                    Some(n) => Some(n),
                    None => {
                        let mut bad = path.clone();
                        bad.append("/@order");
                        proof {
                            reveal_strlit("/@order");
                            reveal_strlit("@order");
                            assert(bad@ =~= nest_path(index_path("Value"@, (i + 1) as nat), "@order"@));
                        }
                        let mut detail = String::from_str("`");
                        detail.append(o);
                        detail.append("` is not an xs:int");
                        assert(!value_readable(cs[i as int]));
                        return Err(CodecError::new(CodecErrorKind::InvalidValue, bad, detail));
                    },
                }
            },
            None => None,
        };
        let text = match simple_text(child) {
            Ok(t) => t,
            Err(x) => {
                assert(!value_readable(cs[i as int]));
                return Err(x.nested(path.as_str()))
            },
        };
        values.push(DataValue::new(text.as_str(), order));
        i = i + 1;
    }
    let names = vec!["Value"];
    assert(name_views(names@) =~= seq!["Value"@]);
    match finish(e, &names) {
        Ok(()) => {},
        Err(x) => return Err(x),
    }
    if values.len() == 0 {
        proof {
            reveal_strlit("");
        }
        return Err(error(CodecErrorKind::MissingChild, "", "a value list requires at least one `Value`"));
    }
    Ok(ValueList::assembled(language, values))
}

pub open spec fn is_constraint_name(n: Seq<char>) -> bool {
    n == "MinInclusive"@ || n == "MinExclusive"@ || n == "MaxInclusive"@ || n == "MaxExclusive"@
}

/// The bound children of a data type, in document order.
pub open spec fn constraint_children(kids: Seq<Element>) -> Seq<Element>
    decreases kids.len(),
{
    if kids.len() == 0 {
        Seq::empty()
    } else if in_dt(kids.last()) && is_constraint_name(kids.last().spec_local_name()) {
        constraint_children(kids.drop_last()).push(kids.last())
    } else {
        constraint_children(kids.drop_last())
    }
}

pub open spec fn constraint_decodes(c: Element, k: DataTypeConstraint) -> bool {
    constraint_name(k) == c.spec_local_name() && plain_attr(c, "value"@) == Some(constraint_bound(k))
}

/// The value lists held by a run of `PossibleValues` children, in order.
pub open spec fn value_lists(pvs: Seq<Element>) -> Seq<Element>
    decreases pvs.len(),
{
    if pvs.len() == 0 {
        Seq::empty()
    } else {
        value_lists(pvs.drop_last()) + dt_named(children_of(pvs.last()), "ValueList"@)
    }
}

/// `m` is the data type decoded from `e`.
pub open spec fn data_type_decodes(e: Element, m: crate::domain::DataTypeModel) -> bool {
    let kids = children_of(e);
    let bounds = constraint_children(kids);
    let formats = dt_named(kids, "DataFormat"@);
    let lists = value_lists(dt_named(kids, "PossibleValues"@));
    &&& match plain_attr(e, "name"@) {
        Some(n) => m.name matches Some(k) && crate::value::data_type_name_str(k) == n,
        None => m.name is None,
    }
    &&& m.constraints.len() == bounds.len()
    &&& forall|i: int| 0 <= i < bounds.len() ==> constraint_decodes(#[trigger] bounds[i], m.constraints[i])
    &&& m.data_formats.len() == formats.len()
    &&& forall|i: int| 0 <= i < formats.len() ==> plain_attr(#[trigger] formats[i], "value"@) == Some(m.data_formats[i]@)
    &&& m.possible_values.len() == lists.len()
    &&& forall|i: int| 0 <= i < lists.len() ==> value_list_decodes(#[trigger] lists[i], m.possible_values[i]@)
}

fn constraint_from(local: &str, bound: &str) -> (r: Option<DataTypeConstraint>)
    ensures
        r is Some <==> is_constraint_name(local@),
        r matches Some(k) ==> constraint_name(k) == local@ && constraint_bound(k) == bound@,
{
    let value = String::from_str(bound);
    if str_eq(local, "MinInclusive") {
        Some(DataTypeConstraint::MinInclusive(value))
    } else if str_eq(local, "MinExclusive") {
        Some(DataTypeConstraint::MinExclusive(value))
    } else if str_eq(local, "MaxInclusive") {
        Some(DataTypeConstraint::MaxInclusive(value))
    } else if str_eq(local, "MaxExclusive") {
        Some(DataTypeConstraint::MaxExclusive(value))
    } else {
        None
    }
}

fn is_bound_name(local: &str) -> (r: bool)
    ensures
        r == is_constraint_name(local@),
{
    str_eq(local, "MinInclusive") || str_eq(local, "MinExclusive") || str_eq(local, "MaxInclusive") || str_eq(
        local,
        "MaxExclusive",
    )
}

/// A required `value` attribute of a child at `path`.
fn required_value<'a>(child: &'a Element, path: &str) -> (r: Result<&'a str, CodecError>)
    ensures
        r is Ok <==> plain_attr(*child, "value"@) is Some,
        r matches Ok(v) ==> plain_attr(*child, "value"@) == Some(v@),
{
    match child.attribute_ns(None, "value") {
        Some(v) => Ok(v),
        None => {
            let mut bad = String::from_str(path);
            bad.append("/@value");
            Err(CodecError::new(CodecErrorKind::MissingAttribute, bad, String::from_str("a bound without `value` cannot be represented")))
        },
    }
}

/// A child holding a bound or a format: a `value` attribute and nothing else.
pub open spec fn valued_readable(c: Element) -> bool {
    &&& attrs_known(c.spec_attributes(), AttributeSet::Value)
    &&& plain_attr(c, "value"@) is Some
    &&& children_of(c).len() == 0
    &&& all_space(text_of(c.spec_nodes()))
}

/// Every bound among `kids` is readable.
pub open spec fn bounds_readable(kids: Seq<Element>) -> bool {
    forall|i: int| 0 <= i < kids.len() && in_dt(#[trigger] kids[i]) && is_constraint_name(kids[i].spec_local_name()) ==> valued_readable(kids[i])
}

fn read_constraints(e: &Element) -> (r: Result<Vec<DataTypeConstraint>, CodecError>)
    ensures
        r is Ok <==> bounds_readable(children_of(*e)),
        r matches Ok(v) ==> ({
            let bounds = constraint_children(children_of(*e));
            v@.len() == bounds.len() && forall|i: int| 0 <= i < bounds.len() ==> constraint_decodes(#[trigger] bounds[i], v@[i])
        }),
{
    let children = e.children();
    let ghost all = children_of(*e);
    let mut out: Vec<DataTypeConstraint> = Vec::new();
    let mut i: usize = 0;
    while i < children.len()
        invariant
            i <= children@.len(),
            all == children_of(*e),
            children@.len() == all.len(),
            forall|k: int| 0 <= k < children@.len() ==> *children@[k] == all[k],
            out@.len() == constraint_children(all.take(i as int)).len(),
            forall|k: int| 0 <= k < out@.len() ==> constraint_decodes(#[trigger] constraint_children(all.take(i as int))[k], out@[k]),
            forall|k: int| 0 <= k < i && in_dt(#[trigger] all[k]) && is_constraint_name(all[k].spec_local_name()) ==> valued_readable(all[k]),
        decreases children.len() - i,
    {
        assert(all.take(i + 1).drop_last() == all.take(i as int));
        assert(all.take(i + 1).last() == all[i as int]);
        let child = children[i];
        if crate::model::is_in_dt(child) && is_bound_name(child.local_name()) {
            let path = indexed(child.local_name(), i + 1);
            match refuse_unrepresented(child, AttributeSet::Value) {
                Ok(()) => {},
                Err(x) => {
                    assert(!valued_readable(all[i as int]) && in_dt(all[i as int]));
                    return Err(x.nested(path.as_str()))
                },
            }
            let bound = match required_value(child, path.as_str()) {
                Ok(v) => v,
                Err(x) => {
                    assert(!valued_readable(all[i as int]) && in_dt(all[i as int]));
                    return Err(x)
                },
            };
            match simple_text(child) {
                Ok(_) => {},
                Err(x) => {
                    assert(!valued_readable(all[i as int]) && in_dt(all[i as int]));
                    return Err(x.nested(path.as_str()))
                },
            }
            match empty_content(child) {
                Ok(()) => {},
                Err(x) => {
                    assert(!valued_readable(all[i as int]) && in_dt(all[i as int]));
                    return Err(x.nested(path.as_str()))
                },
            }
            match constraint_from(child.local_name(), bound) {
                Some(k) => out.push(k),
                None => {},
            }
        }
        i = i + 1;
    }
    assert(all.take(all.len() as int) == all);
    Ok(out)
}

fn read_formats(e: &Element) -> (r: Result<Vec<String>, CodecError>)
    ensures
        r is Ok <==> forall|i: int| 0 <= i < dt_named(children_of(*e), "DataFormat"@).len()
            ==> valued_readable(#[trigger] dt_named(children_of(*e), "DataFormat"@)[i]),
        r matches Ok(v) ==> ({
            let formats = dt_named(children_of(*e), "DataFormat"@);
            v@.len() == formats.len() && forall|i: int| 0 <= i < formats.len() ==> plain_attr(#[trigger] formats[i], "value"@) == Some(v@[i]@)
        }),
{
    let found = dt_children(e, "DataFormat");
    let ghost cs = dt_named(children_of(*e), "DataFormat"@);
    let mut out: Vec<String> = Vec::new();
    let mut i: usize = 0;
    while i < found.len()
        invariant
            i <= found@.len(),
            found@.len() == cs.len(),
            forall|k: int| 0 <= k < found@.len() ==> *found@[k] == cs[k],
            cs == dt_named(children_of(*e), "DataFormat"@),
            out@.len() == i,
            forall|k: int| 0 <= k < i ==> plain_attr(#[trigger] cs[k], "value"@) == Some(out@[k]@),
            forall|k: int| 0 <= k < i ==> valued_readable(#[trigger] cs[k]),
        decreases found.len() - i,
    {
        let child = found[i];
        let path = indexed("DataFormat", i + 1);
        match refuse_unrepresented(child, AttributeSet::Value) {
            Ok(()) => {},
            Err(x) => {
                assert(!valued_readable(cs[i as int]));
                return Err(x.nested(path.as_str()))
            },
        }
        match empty_content(child) {
            Ok(()) => {},
            Err(x) => {
                assert(!valued_readable(cs[i as int]));
                return Err(x.nested(path.as_str()))
            },
        }
        let format = match required_value(child, path.as_str()) {
            Ok(v) => v,
            Err(x) => {
                assert(!valued_readable(cs[i as int]));
                return Err(x)
            },
        };
        out.push(String::from_str(format));
        i = i + 1;
    }
    Ok(out)
}

/// A `PossibleValues` child the owned model can read: element-only content
/// of readable value lists.
pub open spec fn possible_values_readable(p: Element) -> bool {
    let lists = dt_named(children_of(p), "ValueList"@);
    &&& attrs_known(p.spec_attributes(), AttributeSet::Nothing)
    &&& blank_content(p.spec_nodes())
    &&& forall|j: int| 0 <= j < lists.len() ==> value_list_readable(#[trigger] lists[j])
    &&& known_children(children_of(p), seq!["ValueList"@])
}

fn read_possible_values(e: &Element) -> (r: Result<Vec<ValueList>, CodecError>)
    ensures
        r is Ok <==> forall|i: int| 0 <= i < dt_named(children_of(*e), "PossibleValues"@).len()
            ==> possible_values_readable(#[trigger] dt_named(children_of(*e), "PossibleValues"@)[i]),
        r matches Ok(v) ==> ({
            let lists = value_lists(dt_named(children_of(*e), "PossibleValues"@));
            v@.len() == lists.len() && forall|i: int| 0 <= i < lists.len() ==> value_list_decodes(#[trigger] lists[i], v@[i]@)
        }),
{
    let found = dt_children(e, "PossibleValues");
    let ghost pvs = dt_named(children_of(*e), "PossibleValues"@);
    let mut out: Vec<ValueList> = Vec::new();
    let mut i: usize = 0;
    while i < found.len()
        invariant
            i <= found@.len(),
            found@.len() == pvs.len(),
            forall|k: int| 0 <= k < found@.len() ==> *found@[k] == pvs[k],
            pvs == dt_named(children_of(*e), "PossibleValues"@),
            out@.len() == value_lists(pvs.take(i as int)).len(),
            forall|k: int| 0 <= k < out@.len() ==> value_list_decodes(#[trigger] value_lists(pvs.take(i as int))[k], out@[k]@),
            forall|k: int| 0 <= k < i ==> possible_values_readable(#[trigger] pvs[k]),
        decreases found.len() - i,
    {
        let possible = found[i];
        let path = indexed("PossibleValues", i + 1);
        match refuse_unrepresented(possible, AttributeSet::Nothing) {
            Ok(()) => {},
            Err(x) => {
                assert(!possible_values_readable(pvs[i as int]));
                return Err(x.nested(path.as_str()))
            },
        }
        match element_only(possible) {
            Ok(()) => {},
            Err(x) => {
                assert(!possible_values_readable(pvs[i as int]));
                return Err(x.nested(path.as_str()))
            },
        }
        let lists = dt_children(possible, "ValueList");
        let ghost inner = dt_named(children_of(*possible), "ValueList"@);
        let ghost prior = value_lists(pvs.take(i as int));
        assert(pvs.take(i + 1).drop_last() == pvs.take(i as int));
        assert(pvs.take(i + 1).last() == *possible);
        assert(value_lists(pvs.take(i + 1)) == prior + inner);
        let mut j: usize = 0;
        while j < lists.len()
            invariant
                j <= lists@.len(),
                lists@.len() == inner.len(),
                forall|k: int| 0 <= k < lists@.len() ==> *lists@[k] == inner[k],
                out@.len() == prior.len() + j,
                forall|k: int| 0 <= k < prior.len() ==> value_list_decodes(#[trigger] prior[k], out@[k]@),
                forall|k: int| 0 <= k < j ==> value_list_decodes(inner[k], #[trigger] out@[prior.len() + k]@),
                forall|k: int| 0 <= k < j ==> value_list_readable(#[trigger] inner[k]),
                i < pvs.len(),
                pvs == dt_named(children_of(*e), "PossibleValues"@),
                *possible == pvs[i as int],
                inner == dt_named(children_of(*possible), "ValueList"@),
            decreases lists.len() - j,
        {
            let mut nested = path.clone();
            push_char(&mut nested, '/');
            let inner_path = indexed("ValueList", j + 1);
            nested.append(inner_path.as_str());
            match read_value_list(lists[j]) {
                Ok(l) => out.push(l),
                Err(x) => {
                    assert(!value_list_readable(inner[j as int]));
                    assert(!possible_values_readable(pvs[i as int]));
                    return Err(x.nested(nested.as_str()));
                },
            }
            j = j + 1;
        }
        let names = vec!["ValueList"];
        assert(name_views(names@) =~= seq!["ValueList"@]);
        match finish(possible, &names) {
            Ok(()) => {},
            Err(x) => {
                assert(!possible_values_readable(pvs[i as int]));
                return Err(x.nested(path.as_str()))
            },
        }
        proof {
            let all = prior + inner;
            assert forall|k: int| 0 <= k < out@.len() implies value_list_decodes(#[trigger] all[k], out@[k]@) by {
                if k >= prior.len() {
                    assert(all[k] == inner[k - prior.len()]);
                    assert(out@[prior.len() + (k - prior.len())] == out@[k]);
                }
            }
        }
        i = i + 1;
    }
    assert(pvs.take(pvs.len() as int) == pvs);
    Ok(out)
}

/// The child names of `DataTypeType`.
pub open spec fn data_type_names() -> Seq<Seq<char>> {
    seq!["MinInclusive"@, "MinExclusive"@, "MaxInclusive"@, "MaxExclusive"@, "DataFormat"@, "PossibleValues"@]
}

/// A data type the owned model can read.
pub open spec fn data_type_readable(e: Element) -> bool {
    let kids = children_of(e);
    let formats = dt_named(kids, "DataFormat"@);
    let pvs = dt_named(kids, "PossibleValues"@);
    &&& attrs_known(e.spec_attributes(), AttributeSet::Name)
    &&& blank_content(e.spec_nodes())
    &&& bounds_readable(kids)
    &&& forall|i: int| 0 <= i < formats.len() ==> valued_readable(#[trigger] formats[i])
    &&& forall|i: int| 0 <= i < pvs.len() ==> possible_values_readable(#[trigger] pvs[i])
    &&& known_children(kids, data_type_names())
}

fn read_data_type(e: &Element) -> (r: Result<DataType, CodecError>)
    ensures
        r is Ok <==> data_type_readable(*e),
        !attrs_known(e.spec_attributes(), AttributeSet::Name) ==> refused_kind(r, CodecErrorKind::UnknownAttribute),
        attrs_known(e.spec_attributes(), AttributeSet::Name) && !blank_content(e.spec_nodes()) ==> refused(
            r,
            CodecErrorKind::UnexpectedContent,
            Seq::empty(),
        ),
        r matches Ok(d) ==> data_type_decodes(*e, d@),
{
    match refuse_unrepresented(e, AttributeSet::Name) {
        Ok(()) => {},
        Err(x) => return Err(x),
    }
    match element_only(e) {
        Ok(()) => {},
        Err(x) => return Err(x),
    }
    let name = match e.attribute_ns(None, "name") {
        Some(n) => Some(DataTypeName::from(n)),
        None => None,
    };
    let constraints = match read_constraints(e) {
        Ok(v) => v,
        Err(x) => return Err(x),
    };
    let formats = match read_formats(e) {
        Ok(v) => v,
        Err(x) => return Err(x),
    };
    let lists = match read_possible_values(e) {
        Ok(v) => v,
        Err(x) => return Err(x),
    };
    let names = vec!["MinInclusive", "MinExclusive", "MaxInclusive", "MaxExclusive", "DataFormat", "PossibleValues"];
    assert(name_views(names@) =~= data_type_names());
    match finish(e, &names) {
        Ok(()) => {},
        Err(x) => return Err(x),
    }
    Ok(DataType::assembled(name, constraints, formats, lists))
}


// ---------------------------------------------------------------------------
// Owned decoders
// ---------------------------------------------------------------------------

/// The frame every decoder checks: the namespace, the absence of character
/// data, and, once the content is read, the absence of unread children.
pub open spec fn decoded_frame(e: Element, names: Seq<Seq<char>>) -> bool {
    namespace_acceptable(e) && blank_content(e.spec_nodes()) && known_children(children_of(e), names)
}

/// The element may hold ISO 23387 content and holds no character data.
pub open spec fn frame_open(e: Element) -> bool {
    namespace_acceptable(e) && blank_content(e.spec_nodes())
}

/// `r` is a refusal of the given kind at the given path.
pub open spec fn refused<T>(r: Result<T, CodecError>, kind: CodecErrorKind, path: Seq<char>) -> bool {
    r matches Err(x) && x.spec_kind() == kind && x.spec_path() =~= path
}

/// `r` is a refusal of the given kind.
pub open spec fn refused_kind<T>(r: Result<T, CodecError>, kind: CodecErrorKind) -> bool {
    r matches Err(x) && x.spec_kind() == kind
}

fn open_frame(e: &Element) -> (r: Result<(), CodecError>)
    ensures
        r is Ok <==> frame_open(*e),
        !namespace_acceptable(*e) ==> (r matches Err(x) && x.spec_kind() == CodecErrorKind::UnexpectedContent),
        r is Err ==> refused(r, CodecErrorKind::UnexpectedContent, Seq::empty()),
{
    match check_namespace(e) {
        Ok(()) => {},
        Err(x) => return Err(x),
    }
    element_only(e)
}

fn with_names(base: Vec<&'static str>, more: Vec<&'static str>) -> (r: Vec<&'static str>)
    ensures
        name_views(r@) == name_views(base@) + name_views(more@),
{
    let mut r = base;
    let mut more = more;
    let ghost b = r@;
    let ghost m = more@;
    r.append(&mut more);
    assert(name_views(r@) =~= name_views(b) + name_views(m));
    r
}

pub open spec fn subject_names() -> Seq<Seq<char>> {
    concept_names() + seq!["HasPartRef"@, "IsSubtypeOfRef"@]
}

fn subject_name_list() -> (r: Vec<&'static str>)
    ensures
        name_views(r@) == subject_names(),
{
    let more = vec!["HasPartRef", "IsSubtypeOfRef"];
    assert(name_views(more@) =~= seq!["HasPartRef"@, "IsSubtypeOfRef"@]);
    with_names(concept_name_list(), more)
}

/// `m` is the subject decoded from `e`.
pub open spec fn subject_decodes(e: Element, m: SubjectModel) -> bool {
    &&& concept_decodes(e, m.concept@)
    &&& refs_decode(dt_named(children_of(e), "HasPartRef"@), m.has_part_refs)
    &&& refs_decode(dt_named(children_of(e), "IsSubtypeOfRef"@), m.is_subtype_of_refs)
}

/// The subject content of `e` is of a shape and form the owned model holds.
pub open spec fn subject_readable(e: Element) -> bool {
    &&& concept_readable(e)
    &&& references_readable(dt_named(children_of(e), "HasPartRef"@))
    &&& references_readable(dt_named(children_of(e), "IsSubtypeOfRef"@))
}

fn read_subject(e: &Element) -> (r: Result<Subject, CodecError>)
    ensures
        r is Ok <==> subject_readable(*e),
        concept_refused(r, *e),
        !attrs_known(e.spec_attributes(), AttributeSet::Concept) ==> refused_kind(r, CodecErrorKind::UnknownAttribute),
        concept_readable(*e) ==> answered(r, subject_refs_refusal(*e)),
        concept_groups_answered(r, *e),
        r matches Ok(s) ==> subject_decodes(*e, s@),
{
    let concept = match read_concept(e) {
        Ok(c) => c,
        Err(x) => return Err(x),
    };
    let parts = match read_references(e, "HasPartRef") {
        Ok(v) => v,
        Err(x) => return Err(x),
    };
    let supertypes = match read_references(e, "IsSubtypeOfRef") {
        Ok(v) => v,
        Err(x) => return Err(x),
    };
    Ok(Subject::assembled(concept, parts, supertypes))
}

impl Concept {
    /// Decodes plain `ConceptType` content (any element name).
    pub fn from_element(element: &Element) -> (r: Result<Self, CodecError>)
        ensures
            !namespace_acceptable(*element) ==> (r matches Err(x) && x.spec_kind() == CodecErrorKind::UnexpectedContent),
            r is Ok <==> decoded_frame(*element, concept_names()) && concept_readable(*element),
            !frame_open(*element) ==> refused(r, CodecErrorKind::UnexpectedContent, Seq::empty()),
            frame_open(*element) ==> concept_refused(r, *element),
            frame_open(*element) ==> concept_groups_answered(r, *element),
            frame_open(*element) && (concept_readable(*element)) && !known_children(children_of(*element), concept_names()) ==> refused_kind(
                r,
                CodecErrorKind::UnknownChild,
            ),
            r matches Ok(c) ==> concept_decodes(*element, c@) && decoded_frame(*element, concept_names()),
    {
        match open_frame(element) {
            Ok(()) => {},
            Err(x) => return Err(x),
        }
        let concept = match read_concept(element) {
            Ok(c) => c,
            Err(x) => return Err(x),
        };
        match finish(element, &concept_name_list()) {
            Ok(()) => Ok(concept),
            Err(x) => Err(x),
        }
    }
}

impl Subject {
    /// Decodes `SubjectType` content (any element name).
    pub fn from_element(element: &Element) -> (r: Result<Self, CodecError>)
        ensures
            !namespace_acceptable(*element) ==> (r matches Err(x) && x.spec_kind() == CodecErrorKind::UnexpectedContent),
            r is Ok <==> decoded_frame(*element, subject_names()) && subject_readable(*element),
            !frame_open(*element) ==> refused(r, CodecErrorKind::UnexpectedContent, Seq::empty()),
            frame_open(*element) ==> concept_refused(r, *element),
            frame_open(*element) ==> concept_groups_answered(r, *element),
            frame_open(*element) && concept_readable(*element) ==> answered(r, subject_refs_refusal(*element)),
            frame_open(*element) && (subject_readable(*element)) && !known_children(children_of(*element), subject_names()) ==> refused_kind(
                r,
                CodecErrorKind::UnknownChild,
            ),
            r matches Ok(s) ==> subject_decodes(*element, s@) && decoded_frame(*element, subject_names()),
    {
        match open_frame(element) {
            Ok(()) => {},
            Err(x) => return Err(x),
        }
        let subject = match read_subject(element) {
            Ok(s) => s,
            Err(x) => return Err(x),
        };
        match finish(element, &subject_name_list()) {
            Ok(()) => Ok(subject),
            Err(x) => Err(x),
        }
    }
}

impl ObjectType {
    /// Decodes `ObjectTypeType` content (any element name).
    pub fn from_element(element: &Element) -> (r: Result<Self, CodecError>)
        ensures
            !namespace_acceptable(*element) ==> (r matches Err(x) && x.spec_kind() == CodecErrorKind::UnexpectedContent),
            r is Ok <==> decoded_frame(*element, subject_names()) && subject_readable(*element),
            !frame_open(*element) ==> refused(r, CodecErrorKind::UnexpectedContent, Seq::empty()),
            frame_open(*element) ==> concept_refused(r, *element),
            frame_open(*element) ==> concept_groups_answered(r, *element),
            frame_open(*element) && concept_readable(*element) ==> answered(r, subject_refs_refusal(*element)),
            frame_open(*element) && (subject_readable(*element)) && !known_children(children_of(*element), subject_names()) ==> refused_kind(
                r,
                CodecErrorKind::UnknownChild,
            ),
            r matches Ok(o) ==> subject_decodes(*element, o@@) && decoded_frame(*element, subject_names()),
    {
        match Subject::from_element(element) {
            Ok(s) => Ok(ObjectType::new(s)),
            Err(x) => Err(x),
        }
    }
}

pub open spec fn group_names() -> Seq<Seq<char>> {
    subject_names() + seq!["HasPropertyRef"@]
}

impl GroupOfProperties {
    /// Decodes `GroupOfPropertiesType` content (any element name); at least
    /// one `HasPropertyRef` is required.
    pub fn from_element(element: &Element) -> (r: Result<Self, CodecError>)
        ensures
            !namespace_acceptable(*element) ==> (r matches Err(x) && x.spec_kind() == CodecErrorKind::UnexpectedContent),
            r is Ok <==> decoded_frame(*element, group_names()) && subject_readable(*element) && references_readable(
                dt_named(children_of(*element), "HasPropertyRef"@),
            ) && dt_named(children_of(*element), "HasPropertyRef"@).len() > 0,
            !frame_open(*element) ==> refused(r, CodecErrorKind::UnexpectedContent, Seq::empty()),
            frame_open(*element) ==> concept_refused(r, *element),
            frame_open(*element) ==> concept_groups_answered(r, *element),
            frame_open(*element) && concept_readable(*element) ==> answered(r, subject_refs_refusal(*element)),
            frame_open(*element) && (subject_readable(*element) && references_readable(
                dt_named(children_of(*element), "HasPropertyRef"@),
            ) && dt_named(children_of(*element), "HasPropertyRef"@).len() > 0) && !known_children(children_of(*element), group_names()) ==> refused_kind(
                r,
                CodecErrorKind::UnknownChild,
            ),
            frame_open(*element) && subject_readable(*element) && references_readable(
                dt_named(children_of(*element), "HasPropertyRef"@),
            ) && dt_named(children_of(*element), "HasPropertyRef"@).len() == 0 ==> refused(
                r,
                CodecErrorKind::MissingChild,
                Seq::empty(),
            ),
            r matches Ok(g) ==> subject_decodes(*element, g@.subject@) && refs_decode(
                dt_named(children_of(*element), "HasPropertyRef"@),
                g@.property_refs,
            ) && decoded_frame(*element, group_names()),
    {
        match open_frame(element) {
            Ok(()) => {},
            Err(x) => return Err(x),
        }
        let subject = match read_subject(element) {
            Ok(s) => s,
            Err(x) => return Err(x),
        };
        let refs = match read_references(element, "HasPropertyRef") {
            Ok(v) => v,
            Err(x) => return Err(x),
        };
        if refs.len() == 0 {
            proof {
                reveal_strlit("");
            }
            return Err(error(CodecErrorKind::MissingChild, "", "required child `HasPropertyRef` is missing"));
        }
        let more = vec!["HasPropertyRef"];
        assert(name_views(more@) =~= seq!["HasPropertyRef"@]);
        let names = with_names(subject_name_list(), more);
        match finish(element, &names) {
            Ok(()) => Ok(GroupOfProperties::assembled(subject, refs)),
            Err(x) => Err(x),
        }
    }
}

pub open spec fn template_names() -> Seq<Seq<char>> {
    subject_names() + seq!["HasObjectTypeRef"@, "HasPropertyRef"@, "HasGroupOfPropertiesRef"@]
}

/// The template content of `e` is of a shape and form the owned model holds.
pub open spec fn template_readable(e: Element) -> bool {
    let kids = children_of(e);
    &&& subject_readable(e)
    &&& references_readable(dt_named(kids, "HasObjectTypeRef"@))
    &&& references_readable(dt_named(kids, "HasPropertyRef"@))
    &&& references_readable(dt_named(kids, "HasGroupOfPropertiesRef"@))
}

impl DataTemplate {
    /// Decodes `DataTemplateType` content (any element name).
    pub fn from_element(element: &Element) -> (r: Result<Self, CodecError>)
        ensures
            !namespace_acceptable(*element) ==> (r matches Err(x) && x.spec_kind() == CodecErrorKind::UnexpectedContent),
            r is Ok <==> decoded_frame(*element, template_names()) && template_readable(*element),
            !frame_open(*element) ==> refused(r, CodecErrorKind::UnexpectedContent, Seq::empty()),
            frame_open(*element) ==> concept_refused(r, *element),
            frame_open(*element) ==> concept_groups_answered(r, *element),
            frame_open(*element) && concept_readable(*element) ==> answered(r, subject_refs_refusal(*element)),
            frame_open(*element) && (template_readable(*element)) && !known_children(children_of(*element), template_names()) ==> refused_kind(
                r,
                CodecErrorKind::UnknownChild,
            ),
            r matches Ok(t) ==> template_decodes(*element, t@) && decoded_frame(*element, template_names()),
    {
        match open_frame(element) {
            Ok(()) => {},
            Err(x) => return Err(x),
        }
        let subject = match read_subject(element) {
            Ok(s) => s,
            Err(x) => return Err(x),
        };
        let object_types = match read_references(element, "HasObjectTypeRef") {
            Ok(v) => v,
            Err(x) => return Err(x),
        };
        let properties = match read_references(element, "HasPropertyRef") {
            Ok(v) => v,
            Err(x) => return Err(x),
        };
        let groups = match read_references(element, "HasGroupOfPropertiesRef") {
            Ok(v) => v,
            Err(x) => return Err(x),
        };
        let more = vec!["HasObjectTypeRef", "HasPropertyRef", "HasGroupOfPropertiesRef"];
        assert(name_views(more@) =~= seq!["HasObjectTypeRef"@, "HasPropertyRef"@, "HasGroupOfPropertiesRef"@]);
        let names = with_names(subject_name_list(), more);
        match finish(element, &names) {
            Ok(()) => Ok(DataTemplate::assembled(subject, object_types, properties, groups)),
            Err(x) => Err(x),
        }
    }
}

pub open spec fn property_names() -> Seq<Seq<char>> {
    concept_names() + seq![
        "DataType"@,
        "Symbol"@,
        "DimensionRef"@,
        "UnitRef"@,
        "QuantityKindRef"@,
        "IsDependentOnRef"@,
        "IsSpecializationOfRef"@,
    ]
}

/// `m` is the property decoded from `e`.
pub open spec fn property_decodes(e: Element, m: PropertyModel) -> bool {
    let kids = children_of(e);
    let specializations = dt_named(kids, "IsSpecializationOfRef"@);
    &&& concept_decodes(e, m.concept@)
    &&& dt_named(kids, "DataType"@).len() == 1
    &&& data_type_decodes(dt_named(kids, "DataType"@)[0], m.data_type@)
    &&& lexemes_string(m.symbols) == raw_texts(dt_named(kids, "Symbol"@))
    &&& refs_decode(dt_named(kids, "DimensionRef"@), m.dimension_refs)
    &&& refs_decode(dt_named(kids, "UnitRef"@), m.unit_refs)
    &&& refs_decode(dt_named(kids, "QuantityKindRef"@), m.quantity_kind_refs)
    &&& refs_decode(dt_named(kids, "IsDependentOnRef"@), m.dependency_refs)
    &&& specializations.len() <= 1
    &&& match m.specialization_ref {
        Some(x) => specializations.len() == 1 && reference_decodes(specializations[0], x),
        None => specializations.len() == 0,
    }
}

/// The property content of `e` is of a shape and form the owned model
/// holds: exactly one readable `DataType` and at most one specialization.
pub open spec fn property_readable(e: Element) -> bool {
    let kids = children_of(e);
    &&& concept_readable(e)
    &&& dt_named(kids, "DataType"@).len() == 1
    &&& data_type_readable(dt_named(kids, "DataType"@)[0])
    &&& simples_readable(dt_named(kids, "Symbol"@))
    &&& references_readable(dt_named(kids, "DimensionRef"@))
    &&& references_readable(dt_named(kids, "UnitRef"@))
    &&& references_readable(dt_named(kids, "QuantityKindRef"@))
    &&& references_readable(dt_named(kids, "IsDependentOnRef"@))
    &&& references_readable(dt_named(kids, "IsSpecializationOfRef"@))
    &&& dt_named(kids, "IsSpecializationOfRef"@).len() <= 1
}

impl Property {
    /// Decodes `PropertyType` content (any element name); exactly one
    /// `DataType` and at most one `IsSpecializationOfRef` are accepted.
    pub fn from_element(element: &Element) -> (r: Result<Self, CodecError>)
        ensures
            !namespace_acceptable(*element) ==> (r matches Err(x) && x.spec_kind() == CodecErrorKind::UnexpectedContent),
            r is Ok <==> decoded_frame(*element, property_names()) && property_readable(*element),
            !frame_open(*element) ==> refused(r, CodecErrorKind::UnexpectedContent, Seq::empty()),
            frame_open(*element) ==> concept_refused(r, *element),
            frame_open(*element) ==> concept_groups_answered(r, *element),
            frame_open(*element) && (property_readable(*element)) && !known_children(children_of(*element), property_names()) ==> refused_kind(
                r,
                CodecErrorKind::UnknownChild,
            ),
            frame_open(*element) && concept_readable(*element) && dt_named(children_of(*element), "DataType"@).len() == 0
                ==> refused(r, CodecErrorKind::MissingChild, Seq::empty()),
            frame_open(*element) && concept_readable(*element) && dt_named(children_of(*element), "DataType"@).len() > 1
                ==> refused(r, CodecErrorKind::TooManyChildren, index_path("DataType"@, 2)),
            frame_open(*element) && concept_readable(*element) && dt_named(children_of(*element), "DataType"@).len() == 1
                && !attrs_known(dt_named(children_of(*element), "DataType"@)[0].spec_attributes(), AttributeSet::Name)
                ==> refused_kind(r, CodecErrorKind::UnknownAttribute),
            frame_open(*element) && concept_readable(*element) && dt_named(children_of(*element), "DataType"@).len() == 1
                && attrs_known(dt_named(children_of(*element), "DataType"@)[0].spec_attributes(), AttributeSet::Name)
                && !blank_content(dt_named(children_of(*element), "DataType"@)[0].spec_nodes()) ==> refused(
                r,
                CodecErrorKind::UnexpectedContent,
                index_path("DataType"@, 1),
            ),
            r matches Ok(p) ==> property_decodes(*element, p@) && decoded_frame(*element, property_names()),
    {
        match open_frame(element) {
            Ok(()) => {},
            Err(x) => return Err(x),
        }
        let concept = match read_concept(element) {
            Ok(c) => c,
            Err(x) => return Err(x),
        };
        let found = dt_children(element, "DataType");
        let data_type_element = match exactly_one("DataType", found) {
            Ok(d) => d,
            Err(x) => return Err(x),
        };
        let data_type = match read_data_type(data_type_element) {
            Ok(d) => d,
            Err(x) => return Err(x.nested(indexed("DataType", 1).as_str())),
        };
        let symbols = match read_strings(element, "Symbol") {
            Ok(v) => v,
            Err(x) => return Err(x),
        };
        let dimensions = match read_references(element, "DimensionRef") {
            Ok(v) => v,
            Err(x) => return Err(x),
        };
        let units = match read_references(element, "UnitRef") {
            Ok(v) => v,
            Err(x) => return Err(x),
        };
        let quantity_kinds = match read_references(element, "QuantityKindRef") {
            Ok(v) => v,
            Err(x) => return Err(x),
        };
        let dependencies = match read_references(element, "IsDependentOnRef") {
            Ok(v) => v,
            Err(x) => return Err(x),
        };
        let specializations = match read_references(element, "IsSpecializationOfRef") {
            Ok(v) => v,
            Err(x) => return Err(x),
        };
        let ghost specialization_view = specializations@;
        let specialization = match at_most_one("IsSpecializationOfRef", specializations) {
            Ok(v) => v,
            Err(x) => return Err(x),
        };
        let more = vec!["DataType", "Symbol", "DimensionRef", "UnitRef", "QuantityKindRef", "IsDependentOnRef", "IsSpecializationOfRef"];
        assert(name_views(more@) =~= seq![
            "DataType"@,
            "Symbol"@,
            "DimensionRef"@,
            "UnitRef"@,
            "QuantityKindRef"@,
            "IsDependentOnRef"@,
            "IsSpecializationOfRef"@,
        ]);
        let names = with_names(concept_name_list(), more);
        match finish(element, &names) {
            Ok(()) => {},
            Err(x) => return Err(x),
        }
        Ok(
            Property::assembled(
                concept,
                data_type,
                symbols,
                dimensions,
                units,
                quantity_kinds,
                dependencies,
                specialization,
            ),
        )
    }
}

pub open spec fn quantity_kind_names() -> Seq<Seq<char>> {
    concept_names() + seq!["DimensionRef"@]
}

impl QuantityKind {
    /// Decodes `QuantityKindType` content (any element name); exactly one
    /// `DimensionRef` is required.
    pub fn from_element(element: &Element) -> (r: Result<Self, CodecError>)
        ensures
            !namespace_acceptable(*element) ==> (r matches Err(x) && x.spec_kind() == CodecErrorKind::UnexpectedContent),
            r is Ok <==> decoded_frame(*element, quantity_kind_names()) && concept_readable(*element) && references_readable(
                dt_named(children_of(*element), "DimensionRef"@),
            ) && dt_named(children_of(*element), "DimensionRef"@).len() == 1,
            !frame_open(*element) ==> refused(r, CodecErrorKind::UnexpectedContent, Seq::empty()),
            frame_open(*element) ==> concept_refused(r, *element),
            frame_open(*element) ==> concept_groups_answered(r, *element),
            frame_open(*element) && (concept_readable(*element) && references_readable(
                dt_named(children_of(*element), "DimensionRef"@),
            ) && dt_named(children_of(*element), "DimensionRef"@).len() == 1) && !known_children(children_of(*element), quantity_kind_names()) ==> refused_kind(
                r,
                CodecErrorKind::UnknownChild,
            ),
            frame_open(*element) && concept_readable(*element) && references_readable(
                dt_named(children_of(*element), "DimensionRef"@),
            ) ==> count_refused(r, dt_named(children_of(*element), "DimensionRef"@).len(), "DimensionRef"@),
            r matches Ok(q) ==> quantity_kind_decodes(*element, q@) && decoded_frame(*element, quantity_kind_names()),
    {
        match open_frame(element) {
            Ok(()) => {},
            Err(x) => return Err(x),
        }
        let concept = match read_concept(element) {
            Ok(c) => c,
            Err(x) => return Err(x),
        };
        let dimensions = match read_references(element, "DimensionRef") {
            Ok(v) => v,
            Err(x) => return Err(x),
        };
        let ghost dims = dimensions@;
        let dimension = match exactly_one("DimensionRef", dimensions) {
            Ok(d) => d,
            Err(x) => return Err(x),
        };
        let more = vec!["DimensionRef"];
        assert(name_views(more@) =~= seq!["DimensionRef"@]);
        let names = with_names(concept_name_list(), more);
        match finish(element, &names) {
            Ok(()) => Ok(QuantityKind::new(concept, dimension)),
            Err(x) => Err(x),
        }
    }
}


pub open spec fn dimension_names() -> Seq<Seq<char>> {
    concept_names() + seq!["DimensionExponentForAmountOfSubstance"@, "DimensionExponentForElectricCurrent"@, "DimensionExponentForLength"@, "DimensionExponentForLuminousIntensity"@, "DimensionExponentForMass"@, "DimensionExponentForThermodynamicTemperature"@, "DimensionExponentForTime"@]
}

/// Exactly one exponent named `name`, holding an `xs:decimal`.
pub open spec fn exponent_readable(kids: Seq<Element>, name: Seq<char>) -> bool {
    lexemes_readable(kids, name, |t: Seq<char>| spec_is_decimal(spec_collapse(t))) && dt_named(kids, name).len() == 1
}

impl Dimension {
    /// Decodes `DimensionType` content (any element name); each of the seven
    /// exponents is required exactly once.
    pub fn from_element(element: &Element) -> (r: Result<Self, CodecError>)
        ensures
            !namespace_acceptable(*element) ==> (r matches Err(x) && x.spec_kind() == CodecErrorKind::UnexpectedContent),
            r is Ok <==> decoded_frame(*element, dimension_names()) && concept_readable(*element) && forall|i: int|
                0 <= i < 7 ==> #[trigger] exponent_readable(children_of(*element), exponent_name(i)),
            !frame_open(*element) ==> refused(r, CodecErrorKind::UnexpectedContent, Seq::empty()),
            frame_open(*element) ==> concept_refused(r, *element),
            frame_open(*element) ==> concept_groups_answered(r, *element),
            frame_open(*element) && (concept_readable(*element) && forall|i: int|
                0 <= i < 7 ==> #[trigger] exponent_readable(children_of(*element), exponent_name(i))) && !known_children(children_of(*element), dimension_names()) ==> refused_kind(
                r,
                CodecErrorKind::UnknownChild,
            ),
            r matches Ok(d) ==> dimension_decodes(*element, d@) && decoded_frame(*element, dimension_names()),
    {
        match open_frame(element) {
            Ok(()) => {},
            Err(x) => return Err(x),
        }
        let concept = match read_concept(element) {
            Ok(c) => c,
            Err(x) => return Err(x),
        };
        let found0 = match read_decimals(element, "DimensionExponentForAmountOfSubstance") {
            Ok(v) => v,
            Err(x) => {
                assert(!exponent_readable(children_of(*element), exponent_name(0)));
                return Err(x);
            },
        };
        let ghost seen0 = found0@;
        let e0 = match exactly_one("DimensionExponentForAmountOfSubstance", found0) {
            Ok(v) => v,
            Err(x) => {
                assert(!exponent_readable(children_of(*element), exponent_name(0)));
                return Err(x);
            },
        };
        let found1 = match read_decimals(element, "DimensionExponentForElectricCurrent") {
            Ok(v) => v,
            Err(x) => {
                assert(!exponent_readable(children_of(*element), exponent_name(1)));
                return Err(x);
            },
        };
        let ghost seen1 = found1@;
        let e1 = match exactly_one("DimensionExponentForElectricCurrent", found1) {
            Ok(v) => v,
            Err(x) => {
                assert(!exponent_readable(children_of(*element), exponent_name(1)));
                return Err(x);
            },
        };
        let found2 = match read_decimals(element, "DimensionExponentForLength") {
            Ok(v) => v,
            Err(x) => {
                assert(!exponent_readable(children_of(*element), exponent_name(2)));
                return Err(x);
            },
        };
        let ghost seen2 = found2@;
        let e2 = match exactly_one("DimensionExponentForLength", found2) {
            Ok(v) => v,
            Err(x) => {
                assert(!exponent_readable(children_of(*element), exponent_name(2)));
                return Err(x);
            },
        };
        let found3 = match read_decimals(element, "DimensionExponentForLuminousIntensity") {
            Ok(v) => v,
            Err(x) => {
                assert(!exponent_readable(children_of(*element), exponent_name(3)));
                return Err(x);
            },
        };
        let ghost seen3 = found3@;
        let e3 = match exactly_one("DimensionExponentForLuminousIntensity", found3) {
            Ok(v) => v,
            Err(x) => {
                assert(!exponent_readable(children_of(*element), exponent_name(3)));
                return Err(x);
            },
        };
        let found4 = match read_decimals(element, "DimensionExponentForMass") {
            Ok(v) => v,
            Err(x) => {
                assert(!exponent_readable(children_of(*element), exponent_name(4)));
                return Err(x);
            },
        };
        let ghost seen4 = found4@;
        let e4 = match exactly_one("DimensionExponentForMass", found4) {
            Ok(v) => v,
            Err(x) => {
                assert(!exponent_readable(children_of(*element), exponent_name(4)));
                return Err(x);
            },
        };
        let found5 = match read_decimals(element, "DimensionExponentForThermodynamicTemperature") {
            Ok(v) => v,
            Err(x) => {
                assert(!exponent_readable(children_of(*element), exponent_name(5)));
                return Err(x);
            },
        };
        let ghost seen5 = found5@;
        let e5 = match exactly_one("DimensionExponentForThermodynamicTemperature", found5) {
            Ok(v) => v,
            Err(x) => {
                assert(!exponent_readable(children_of(*element), exponent_name(5)));
                return Err(x);
            },
        };
        let found6 = match read_decimals(element, "DimensionExponentForTime") {
            Ok(v) => v,
            Err(x) => {
                assert(!exponent_readable(children_of(*element), exponent_name(6)));
                return Err(x);
            },
        };
        let ghost seen6 = found6@;
        let e6 = match exactly_one("DimensionExponentForTime", found6) {
            Ok(v) => v,
            Err(x) => {
                assert(!exponent_readable(children_of(*element), exponent_name(6)));
                return Err(x);
            },
        };
        let more = vec!["DimensionExponentForAmountOfSubstance", "DimensionExponentForElectricCurrent", "DimensionExponentForLength", "DimensionExponentForLuminousIntensity", "DimensionExponentForMass", "DimensionExponentForThermodynamicTemperature", "DimensionExponentForTime"];
        assert(name_views(more@) =~= seq!["DimensionExponentForAmountOfSubstance"@, "DimensionExponentForElectricCurrent"@, "DimensionExponentForLength"@, "DimensionExponentForLuminousIntensity"@, "DimensionExponentForMass"@, "DimensionExponentForThermodynamicTemperature"@, "DimensionExponentForTime"@]);
        let names = with_names(concept_name_list(), more);
        match finish(element, &names) {
            Ok(()) => {},
            Err(x) => return Err(x),
        }
        let exponents = [e0, e1, e2, e3, e4, e5, e6];
        proof {
            assert forall|i: int| 0 <= i < 7 implies ({
                let found = dt_named(children_of(*element), exponent_name(i));
                found.len() == 1 && (#[trigger] exponents@[i])@ == spec_collapse(text_of(found[0].spec_nodes()))
            }) by {
                if i == 0 {
                } else if i == 1 {
                } else if i == 2 {
                } else if i == 3 {
                } else if i == 4 {
                } else if i == 5 {
                } else {
                }
            }
        }
        Ok(Dimension::new(concept, exponents))
    }
}

pub open spec fn unit_names() -> Seq<Seq<char>> {
    concept_names() + seq!["Symbol"@, "DimensionRef"@, "Scale"@, "Base"@, "Coefficient"@, "Offset"@]
}

/// The unit content of `e` is of a shape and form the owned model holds:
/// one dimension, scale, base, coefficient and offset each.
pub open spec fn unit_readable(e: Element) -> bool {
    let kids = children_of(e);
    &&& concept_readable(e)
    &&& texts_readable(dt_named(kids, "Symbol"@))
    &&& references_readable(dt_named(kids, "DimensionRef"@))
    &&& dt_named(kids, "DimensionRef"@).len() == 1
    &&& simples_readable(dt_named(kids, "Scale"@))
    &&& dt_named(kids, "Scale"@).len() == 1
    &&& simples_readable(dt_named(kids, "Base"@))
    &&& dt_named(kids, "Base"@).len() == 1
    &&& lexemes_readable(kids, "Coefficient"@, |t: Seq<char>| spec_is_rational(t))
    &&& dt_named(kids, "Coefficient"@).len() == 1
    &&& lexemes_readable(kids, "Offset"@, |t: Seq<char>| spec_is_rational(t))
    &&& dt_named(kids, "Offset"@).len() == 1
}

/// The unit decoder has read `e` up to the count of its `k`-th
/// exactly-once child (dimension, scale, base, coefficient, offset) without
/// a refusal.
pub open spec fn unit_stage(e: Element, k: int) -> bool {
    let kids = children_of(e);
    &&& frame_open(e)
    &&& concept_readable(e)
    &&& texts_readable(dt_named(kids, "Symbol"@))
    &&& references_readable(dt_named(kids, "DimensionRef"@))
    &&& (k >= 1 ==> dt_named(kids, "DimensionRef"@).len() == 1 && simples_readable(dt_named(kids, "Scale"@)))
    &&& (k >= 2 ==> dt_named(kids, "Scale"@).len() == 1 && simples_readable(dt_named(kids, "Base"@)))
    &&& (k >= 3 ==> dt_named(kids, "Base"@).len() == 1 && lexemes_readable(
        kids,
        "Coefficient"@,
        |t: Seq<char>| spec_is_rational(t),
    ))
    &&& (k >= 4 ==> dt_named(kids, "Coefficient"@).len() == 1 && lexemes_readable(
        kids,
        "Offset"@,
        |t: Seq<char>| spec_is_rational(t),
    ))
}

impl Unit {
    /// Decodes `UnitType` content (any element name); the dimension, scale,
    /// base, coefficient and offset are each required exactly once.
    pub fn from_element(element: &Element) -> (r: Result<Self, CodecError>)
        ensures
            !namespace_acceptable(*element) ==> (r matches Err(x) && x.spec_kind() == CodecErrorKind::UnexpectedContent),
            r is Ok <==> decoded_frame(*element, unit_names()) && unit_readable(*element),
            !frame_open(*element) ==> refused(r, CodecErrorKind::UnexpectedContent, Seq::empty()),
            frame_open(*element) ==> concept_refused(r, *element),
            frame_open(*element) ==> concept_groups_answered(r, *element),
            frame_open(*element) && (unit_readable(*element)) && !known_children(children_of(*element), unit_names()) ==> refused_kind(
                r,
                CodecErrorKind::UnknownChild,
            ),
            unit_stage(*element, 0) ==> count_refused(r, dt_named(children_of(*element), "DimensionRef"@).len(), "DimensionRef"@),
            unit_stage(*element, 1) ==> count_refused(r, dt_named(children_of(*element), "Scale"@).len(), "Scale"@),
            unit_stage(*element, 2) ==> count_refused(r, dt_named(children_of(*element), "Base"@).len(), "Base"@),
            unit_stage(*element, 3) ==> count_refused(r, dt_named(children_of(*element), "Coefficient"@).len(), "Coefficient"@),
            unit_stage(*element, 4) ==> count_refused(r, dt_named(children_of(*element), "Offset"@).len(), "Offset"@),
            r matches Ok(u) ==> unit_decodes(*element, u@) && decoded_frame(*element, unit_names()),
    {
        match open_frame(element) {
            Ok(()) => {},
            Err(x) => return Err(x),
        }
        let concept = match read_concept(element) {
            Ok(c) => c,
            Err(x) => return Err(x),
        };
        let symbols = match read_texts(element, "Symbol") {
            Ok(v) => v,
            Err(x) => return Err(x),
        };
        let dimensions = match read_references(element, "DimensionRef") {
            Ok(v) => v,
            Err(x) => return Err(x),
        };
        let ghost dims = dimensions@;
        let dimension = match exactly_one("DimensionRef", dimensions) {
            Ok(v) => v,
            Err(x) => return Err(x),
        };
        let scales = match read_strings(element, "Scale") {
            Ok(v) => v,
            Err(x) => return Err(x),
        };
        let ghost scale_texts = scales@;
        assert(lexemes_string(scale_texts).len() == scale_texts.len());
        let scale = match exactly_one("Scale", scales) {
            Ok(v) => v,
            Err(x) => return Err(x),
        };
        let bases = match read_strings(element, "Base") {
            Ok(v) => v,
            Err(x) => return Err(x),
        };
        let ghost base_texts = bases@;
        assert(lexemes_string(base_texts).len() == base_texts.len());
        let base = match exactly_one("Base", bases) {
            Ok(v) => v,
            Err(x) => return Err(x),
        };
        let coefficients = match read_rationals(element, "Coefficient") {
            Ok(v) => v,
            Err(x) => return Err(x),
        };
        let ghost coefficient_values = coefficients@;
        let coefficient = match exactly_one("Coefficient", coefficients) {
            Ok(v) => v,
            Err(x) => return Err(x),
        };
        let offsets = match read_rationals(element, "Offset") {
            Ok(v) => v,
            Err(x) => return Err(x),
        };
        let ghost offset_values = offsets@;
        let offset = match exactly_one("Offset", offsets) {
            Ok(v) => v,
            Err(x) => return Err(x),
        };
        let more = vec!["Symbol", "DimensionRef", "Scale", "Base", "Coefficient", "Offset"];
        assert(name_views(more@) =~= seq!["Symbol"@, "DimensionRef"@, "Scale"@, "Base"@, "Coefficient"@, "Offset"@]);
        let names = with_names(concept_name_list(), more);
        match finish(element, &names) {
            Ok(()) => {},
            Err(x) => return Err(x),
        }
        proof {
            assert(lexemes_string(scale_texts)[0] == scale@);
            assert(lexemes_string(base_texts)[0] == base@);
        }
        Ok(
            Unit::assembled(
                concept,
                symbols,
                dimension,
                Scale::from(scale.as_str()),
                Base::from(base.as_str()),
                coefficient,
                offset,
            ),
        )
    }
}

pub open spec fn reference_document_names() -> Seq<Seq<char>> {
    concept_names() + seq!["Language"@, "DateOfPublication"@, "Author"@, "ISBN"@, "Publisher"@, "URI"@]
}

/// A list of at most one text, as an optional value.
pub open spec fn single(ts: Seq<Seq<char>>) -> Option<Seq<char>> {
    if ts.len() == 1 {
        Some(ts[0])
    } else {
        None
    }
}

pub open spec fn opt_view_of<T: View<V = Seq<char>>>(o: Option<T>) -> Option<Seq<char>> {
    match o {
        Some(x) => Some(x@),
        None => None,
    }
}

/// The reference document content of `e` is of a shape and form the owned
/// model holds: at least one language and at most one of each other child.
pub open spec fn reference_document_readable(e: Element) -> bool {
    let kids = children_of(e);
    &&& concept_readable(e)
    &&& lexemes_readable(kids, "Language"@, |t: Seq<char>| spec_is_language(spec_collapse(t)))
    &&& dt_named(kids, "Language"@).len() > 0
    &&& lexemes_readable(kids, "DateOfPublication"@, |t: Seq<char>| spec_is_datetime(spec_collapse(t)))
    &&& dt_named(kids, "DateOfPublication"@).len() <= 1
    &&& simples_readable(dt_named(kids, "Author"@))
    &&& dt_named(kids, "Author"@).len() <= 1
    &&& simples_readable(dt_named(kids, "ISBN"@))
    &&& dt_named(kids, "ISBN"@).len() <= 1
    &&& simples_readable(dt_named(kids, "Publisher"@))
    &&& dt_named(kids, "Publisher"@).len() <= 1
    &&& lexemes_readable(kids, "URI"@, |t: Seq<char>| spec_is_any_uri(spec_collapse(t)))
    &&& dt_named(kids, "URI"@).len() <= 1
}

impl ReferenceDocument {
    /// Decodes `ReferenceDocumentType` content (any element name); at least
    /// one `Language` is required and the other children occur at most once.
    #[verifier::rlimit(50)]
    #[verifier::spinoff_prover]
    pub fn from_element(element: &Element) -> (r: Result<Self, CodecError>)
        ensures
            !namespace_acceptable(*element) ==> (r matches Err(x) && x.spec_kind() == CodecErrorKind::UnexpectedContent),
            r is Ok <==> decoded_frame(*element, reference_document_names()) && reference_document_readable(*element),
            !frame_open(*element) ==> refused(r, CodecErrorKind::UnexpectedContent, Seq::empty()),
            frame_open(*element) ==> concept_refused(r, *element),
            frame_open(*element) ==> concept_groups_answered(r, *element),
            frame_open(*element) && (reference_document_readable(*element)) && !known_children(children_of(*element), reference_document_names()) ==> refused_kind(
                r,
                CodecErrorKind::UnknownChild,
            ),
            frame_open(*element) && concept_readable(*element) && lexemes_readable(
                children_of(*element),
                "Language"@,
                |t: Seq<char>| spec_is_language(spec_collapse(t)),
            ) && dt_named(children_of(*element), "Language"@).len() == 0 ==> refused(
                r,
                CodecErrorKind::MissingChild,
                Seq::empty(),
            ),
            r matches Ok(d) ==> reference_document_decodes(*element, d@) && decoded_frame(*element, reference_document_names()),
    {
        match open_frame(element) {
            Ok(()) => {},
            Err(x) => return Err(x),
        }
        let concept = match read_concept(element) {
            Ok(c) => c,
            Err(x) => return Err(x),
        };
        let languages = match read_languages(element, "Language") {
            Ok(v) => v,
            Err(x) => return Err(x),
        };
        if languages.len() == 0 {
            proof {
                reveal_strlit("");
            }
            return Err(error(CodecErrorKind::MissingChild, "", "required child `Language` is missing"));
        }
        let dates = match read_date_times(element, "DateOfPublication") {
            Ok(v) => v,
            Err(x) => return Err(x),
        };
        let ghost date_values = dates@;
        let date = match at_most_one("DateOfPublication", dates) {
            Ok(v) => v,
            Err(x) => return Err(x),
        };
        let authors = match read_strings(element, "Author") {
            Ok(v) => v,
            Err(x) => return Err(x),
        };
        let ghost author_values = authors@;
        assert(lexemes_string(author_values).len() == author_values.len());
        let author = match at_most_one("Author", authors) {
            Ok(v) => v,
            Err(x) => return Err(x),
        };
        let isbns = match read_strings(element, "ISBN") {
            Ok(v) => v,
            Err(x) => return Err(x),
        };
        let ghost isbn_values = isbns@;
        assert(lexemes_string(isbn_values).len() == isbn_values.len());
        let isbn = match at_most_one("ISBN", isbns) {
            Ok(v) => v,
            Err(x) => return Err(x),
        };
        let publishers = match read_strings(element, "Publisher") {
            Ok(v) => v,
            Err(x) => return Err(x),
        };
        let ghost publisher_values = publishers@;
        assert(lexemes_string(publisher_values).len() == publisher_values.len());
        let publisher = match at_most_one("Publisher", publishers) {
            Ok(v) => v,
            Err(x) => return Err(x),
        };
        let uris = match read_uris(element, "URI") {
            Ok(v) => v,
            Err(x) => return Err(x),
        };
        let ghost uri_values = uris@;
        let uri = match at_most_one("URI", uris) {
            Ok(v) => v,
            Err(x) => return Err(x),
        };
        let more = vec!["Language", "DateOfPublication", "Author", "ISBN", "Publisher", "URI"];
        assert(name_views(more@) =~= seq!["Language"@, "DateOfPublication"@, "Author"@, "ISBN"@, "Publisher"@, "URI"@]);
        let names = with_names(concept_name_list(), more);
        match finish(element, &names) {
            Ok(()) => {},
            Err(x) => return Err(x),
        }
        proof {
            let kids = children_of(*element);
            assert(lexemes_language(languages@) =~= collapsed_texts(dt_named(kids, "Language"@)));
            if author_values.len() == 1 {
                assert(lexemes_string(author_values)[0] == author_values[0]@);
            }
            if isbn_values.len() == 1 {
                assert(lexemes_string(isbn_values)[0] == isbn_values[0]@);
            }
            if publisher_values.len() == 1 {
                assert(lexemes_string(publisher_values)[0] == publisher_values[0]@);
            }
        }
        Ok(ReferenceDocument::assembled(concept, languages, date, author, isbn, publisher, uri))
    }
}

/// Decoding reads an element's namespace, attributes and content, never its
/// own name: two elements that differ in name alone are accepted or refused
/// alike and decode to the same values.
pub proof fn lemma_decoding_ignores_the_name(a: Element, b: Element)
    requires
        a.spec_namespace() == b.spec_namespace(),
        a.spec_attributes() == b.spec_attributes(),
        a.spec_nodes() == b.spec_nodes(),
    ensures
        forall|names: Seq<Seq<char>>| decoded_frame(a, names) == decoded_frame(b, names),
        frame_open(a) == frame_open(b),
        concept_readable(a) == concept_readable(b),
        subject_readable(a) == subject_readable(b),
        template_readable(a) == template_readable(b),
        property_readable(a) == property_readable(b),
        unit_readable(a) == unit_readable(b),
        reference_document_readable(a) == reference_document_readable(b),
        forall|m: ConceptModel| concept_decodes(a, m) == concept_decodes(b, m),
        forall|m: SubjectModel| subject_decodes(a, m) == subject_decodes(b, m),
        forall|m: DataTemplateModel| template_decodes(a, m) == template_decodes(b, m),
        forall|m: PropertyModel| property_decodes(a, m) == property_decodes(b, m),
        forall|m: UnitModel| unit_decodes(a, m) == unit_decodes(b, m),
        forall|m: ReferenceDocumentModel| reference_document_decodes(a, m) == reference_document_decodes(b, m),
{
    assert(children_of(a) == children_of(b));
    assert(guid_attr(a) == guid_attr(b));
}

} // verus!
