//! Decoding what the encoder writes succeeds: the element written for an
//! owned value whose lexemes are valid is one the decoders accept, frame,
//! attributes, children and lexical forms alike.

use vstd::prelude::*;
use crate::codec::{
    all_lexemes, attrs_known, attr_known, blank_content, concept_attributes, concept_encoding, concept_layout,
    concept_len, concept_names, concept_readable, decoded_frame, in_dt_named, known_children, lexemes_base64,
    lexemes_count, lexemes_language, lexemes_readable, lexemes_string, namespace_acceptable, raw_texts,
    reference_encoding, reference_readable, references_readable, refs_at, simple_encoding, simple_readable,
    simples_at, simples_readable, text_encoding, text_readable, texts_at, texts_readable, all_elements,
    AttributeSet, subject_encoding, subject_len, subject_names, subject_readable, group_names, template_names,
    template_readable, quantity_kind_names, dimension_names, exponent_name, exponent_readable, unit_layout,
    unit_names, unit_readable, reference_document_layout, reference_document_len, reference_document_names,
    reference_document_readable, opt_text, valued_encoding, valued_readable, value_encoding, value_readable,
    value_list_encoding, value_list_readable, possible_values_encoding, possible_values_readable, data_type_encoding,
    data_type_names, data_type_readable, constraint_name, constraint_bound, is_constraint_name, int_text,
    property_layout, property_len, property_names, property_readable, opt_seq,
};
use crate::document::{attribute_lookup, elements_of, text_of, Element, Node};
use crate::model::{children_of, dt_named, guid_attr, in_dt, is_dt, plain_attr};
use crate::round_trip::{
    ascending, lemma_concept_names_distinct, lemma_concept_runs, lemma_find_segment, lemma_segments,
    lemma_simples_faithful, concept_offsets, concept_settled, settled, ref_settled,
    refs_settled, all_settled, subject_settled, group_settled, template_settled, quantity_kind_settled,
    dimension_settled, unit_settled, reference_document_settled, exponent_names, lemma_refs_named, lemma_texts_named,
    lemma_simples_named, lemma_subject_names_distinct, lemma_group_names_distinct, lemma_template_names_distinct,
    lemma_quantity_kind_names_distinct, lemma_dimension_names_distinct, lemma_unit_names_distinct,
    lemma_reference_document_names_distinct, lemma_named_run, lemma_int_text, lemma_property_names_distinct,
    data_type_settled, property_settled,
};
use crate::domain::{
    DataTypeModel, PropertyModel, ValueList, DataTemplateModel, DimensionModel, GroupOfPropertiesModel, QuantityKindModel, ReferenceDocumentModel, SubjectModel,
    UnitModel,
};
use crate::text::spec_collapse;
use crate::value::{
    spec_is_any_uri, spec_is_base64, spec_is_datetime, spec_is_guid, spec_is_language, spec_is_non_negative_integer,
    spec_is_decimal, spec_is_rational, ConceptModel, MultiLanguageText, Reference,
};
use crate::NAMESPACE;

verus! {

// ---------------------------------------------------------------------------
// Valid lexemes
// ---------------------------------------------------------------------------

/// A text whose language tag, collapsed, the value types accept.
pub open spec fn text_valid(v: MultiLanguageText) -> bool {
    spec_is_language(spec_collapse(v.spec_language()@))
}

/// A reference whose identifier and URI, where present, the value types
/// accept.
pub open spec fn ref_valid(v: Reference) -> bool {
    &&& (v.spec_guid() matches Some(g) ==> spec_is_guid(g@))
    &&& (v.spec_uri() matches Some(u) ==> spec_is_any_uri(u@))
}

pub open spec fn texts_valid(v: Seq<MultiLanguageText>) -> bool {
    forall|i: int| 0 <= i < v.len() ==> text_valid(#[trigger] v[i])
}

pub open spec fn refs_valid(v: Seq<Reference>) -> bool {
    forall|i: int| 0 <= i < v.len() ==> ref_valid(#[trigger] v[i])
}

/// A concept every lexeme of which its value type accepts, as the type
/// invariant of each value type guarantees of every value built at run time.
pub open spec fn concept_valid(m: ConceptModel) -> bool {
    &&& spec_is_guid(m.guid@)
    &&& spec_is_datetime(m.date_of_creation@)
    &&& (m.about matches Some(a) ==> spec_is_any_uri(a@))
    &&& texts_valid(m.names) && texts_valid(m.definitions)
    &&& texts_valid(m.descriptions) && texts_valid(m.examples)
    &&& refs_valid(m.reference_document_refs) && refs_valid(m.similar_to_refs)
    &&& refs_valid(m.replaced_objects_refs) && refs_valid(m.dictionary_refs)
    &&& all_lexemes(lexemes_language(m.languages_of_creator), |t: Seq<char>| spec_is_language(t))
    &&& all_lexemes(lexemes_base64(m.visual_representations), |t: Seq<char>| spec_is_base64(t))
    &&& all_lexemes(lexemes_count(m.major_versions), |t: Seq<char>| spec_is_non_negative_integer(t))
    &&& all_lexemes(lexemes_count(m.minor_versions), |t: Seq<char>| spec_is_non_negative_integer(t))
}

// ---------------------------------------------------------------------------
// Single children and runs
// ---------------------------------------------------------------------------

/// Content made of elements only holds no character data.
pub proof fn lemma_elements_blank(nodes: Seq<Node>)
    requires
        all_elements(nodes),
    ensures
        blank_content(nodes),
{
    assert forall|i: int| 0 <= i < nodes.len() implies match #[trigger] nodes[i] {
        Node::Text(t) => forall|k: int| 0 <= k < t@.len() ==> crate::text::is_xml_space(#[trigger] t@[k]),
        Node::CData(t) => forall|k: int| 0 <= k < t@.len() ==> crate::text::is_xml_space(#[trigger] t@[k]),
        _ => true,
    } by {
        assert(nodes[i] is Element);
    }
}

/// The element written for a valid text is one the decoder reads.
pub proof fn lemma_text_readable(c: Element, name: Seq<char>, m: MultiLanguageText)
    requires
        text_encoding(c, name, m),
        text_valid(m),
    ensures
        text_readable(c),
{
    reveal_strlit("language");
    let attrs = c.spec_attributes();
    assert(attr_known(attrs[0], AttributeSet::Language));
    assert(plain_attr(c, "language"@) == Some(m.spec_language()@));
}

/// The element written for a valid reference is one the decoder reads.
pub proof fn lemma_ref_readable(c: Element, name: Seq<char>, m: Reference)
    requires
        reference_encoding(c, name, m),
        ref_settled(m),
        ref_valid(m),
    ensures
        reference_readable(c),
{
    reveal_strlit("GUID");
    reveal_strlit("referenceURI");
    let attrs = c.spec_attributes();
    assert(elements_of(c.spec_nodes()) =~= Seq::<Element>::empty());
    assert(text_of(c.spec_nodes()) =~= Seq::<char>::empty());
    assert(attrs_known(attrs, AttributeSet::Reference)) by {
        assert forall|i: int| 0 <= i < attrs.len() implies attr_known(#[trigger] attrs[i], AttributeSet::Reference) by {}
    }
    if m.spec_uri() is Some {
        assert(attrs[0].spec_local_name() != "GUID"@);
        assert(guid_attr(c) == attribute_lookup(attrs.drop_first(), Some(NAMESPACE@), "GUID"@));
        if m.spec_guid() is Some {
            assert(attrs.drop_first()[0] == attrs[1]);
        } else {
            assert(attrs.drop_first().len() == 0);
        }
        assert(settled(m.spec_uri()->0@));
    } else if m.spec_guid() is Some {
        assert(attrs[0].spec_local_name() != "referenceURI"@);
        assert(attribute_lookup(attrs, Some(NAMESPACE@), "referenceURI"@) == attribute_lookup(
            attrs.drop_first(),
            Some(NAMESPACE@),
            "referenceURI"@,
        ));
        assert(attrs.drop_first().len() == 0);
    } else {
        assert(attrs.len() == 0);
    }
}

/// A run of valid texts as written is read.
pub proof fn lemma_texts_readable(kids: Seq<Element>, at: int, name: Seq<char>, m: Seq<MultiLanguageText>)
    requires
        texts_at(kids, at, name, m),
        texts_valid(m),
    ensures
        texts_readable(kids.subrange(at, at + m.len())),
{
    assert forall|i: int| 0 <= i < m.len() implies text_readable(#[trigger] kids.subrange(at, at + m.len())[i]) by {
        assert(kids.subrange(at, at + m.len())[i] == kids[at + i]);
        lemma_text_readable(kids[at + i], name, m[i]);
    }
}

/// A run of valid references as written is read.
pub proof fn lemma_refs_readable(kids: Seq<Element>, at: int, name: Seq<char>, m: Seq<Reference>)
    requires
        refs_at(kids, at, name, m),
        refs_settled(m),
        refs_valid(m),
    ensures
        references_readable(kids.subrange(at, at + m.len())),
{
    assert forall|i: int| 0 <= i < m.len() implies reference_readable(#[trigger] kids.subrange(at, at + m.len())[i]) by {
        assert(kids.subrange(at, at + m.len())[i] == kids[at + i]);
        lemma_ref_readable(kids[at + i], name, m[i]);
    }
}

/// A run of simple children as written is read, its texts as written.
pub proof fn lemma_simples_readable(kids: Seq<Element>, at: int, name: Seq<char>, m: Seq<Seq<char>>)
    requires
        simples_at(kids, at, name, m),
    ensures
        simples_readable(kids.subrange(at, at + m.len())),
        raw_texts(kids.subrange(at, at + m.len())) =~= m,
{
    lemma_simples_faithful(kids, at, name, m);
    assert forall|i: int| 0 <= i < m.len() implies simple_readable(#[trigger] kids.subrange(at, at + m.len())[i]) by {
        assert(kids.subrange(at, at + m.len())[i] == kids[at + i]);
        assert(simple_encoding(kids[at + i], name, m[i]));
    }
}

/// Settled lexemes that meet `valid` meet it after collapsing too.
pub proof fn lemma_settled_lexemes(m: Seq<Seq<char>>, valid: spec_fn(Seq<char>) -> bool)
    requires
        all_settled(m),
        all_lexemes(m, valid),
    ensures
        all_lexemes(m, |t: Seq<char>| valid(spec_collapse(t))),
{
    assert forall|i: int| 0 <= i < m.len() implies #[trigger] valid(spec_collapse(m[i])) by {
        assert(settled(m[i]));
        assert(valid(m[i]));
    }
}

// ---------------------------------------------------------------------------
// Frames
// ---------------------------------------------------------------------------

/// Children laid out in consecutive runs, run `k` named `names[k]`, that
/// fill the whole content are all known under `names`.
pub proof fn lemma_known_runs(kids: Seq<Element>, names: Seq<Seq<char>>, off: Seq<int>)
    requires
        off.len() == names.len() + 1,
        off[0] == 0,
        ascending(off),
        off.last() == kids.len(),
        forall|k: int, i: int| 0 <= k < names.len() && off[k] <= i < off[k + 1] ==> #[trigger] is_dt(kids[i], names[k]),
    ensures
        known_children(kids, names),
{
    assert forall|i: int| 0 <= i < kids.len() implies in_dt_named(#[trigger] kids[i], names) by {
        let k = lemma_find_segment(off, i);
        assert(is_dt(kids[i], names[k]));
        assert(names[k] == kids[i].spec_local_name());
    }
}

/// A concept's attributes as written are all known, with their values.
pub proof fn lemma_concept_attributes_readable(e: Element, m: ConceptModel)
    requires
        concept_attributes(e.spec_attributes(), m),
    ensures
        attrs_known(e.spec_attributes(), AttributeSet::Concept),
        guid_attr(e) == Some(m.guid@),
        plain_attr(e, "dateOfCreation"@) == Some(m.date_of_creation@),
        attribute_lookup(e.spec_attributes(), Some(NAMESPACE@), "about"@) == (match m.about {
            Some(a) => Some(a@),
            None => None::<Seq<char>>,
        }),
{
    reveal_strlit("GUID");
    reveal_strlit("about");
    reveal_strlit("dateOfCreation");
    let attrs = e.spec_attributes();
    let rest = attrs.drop_first();
    let tail = rest.drop_first();
    assert forall|i: int| 0 <= i < attrs.len() implies attr_known(#[trigger] attrs[i], AttributeSet::Concept) by {}
    if m.about is Some {
        assert(rest[0] == attrs[1] && rest[1] == attrs[2]);
        assert(tail[0] == attrs[2]);
        assert(attribute_lookup(attrs, Some(NAMESPACE@), "GUID"@) == attribute_lookup(rest, Some(NAMESPACE@), "GUID"@));
        assert(attribute_lookup(attrs, None, "dateOfCreation"@) == attribute_lookup(rest, None, "dateOfCreation"@));
        assert(attribute_lookup(rest, None, "dateOfCreation"@) == attribute_lookup(tail, None, "dateOfCreation"@));
    } else {
        assert(rest[0] == attrs[1]);
        assert(tail.len() == 0);
        assert(attribute_lookup(attrs, None, "dateOfCreation"@) == attribute_lookup(rest, None, "dateOfCreation"@));
        assert(attribute_lookup(attrs, Some(NAMESPACE@), "about"@) == attribute_lookup(rest, Some(NAMESPACE@), "about"@));
        assert(attribute_lookup(rest, Some(NAMESPACE@), "about"@) == attribute_lookup(tail, Some(NAMESPACE@), "about"@));
    }
}

// ---------------------------------------------------------------------------
// Concepts
// ---------------------------------------------------------------------------

/// The concept content the encoder lays out for a valid concept, with no
/// later child carrying a concept child's name, is content the decoder
/// reads.
pub proof fn lemma_concept_content_readable(e: Element, m: ConceptModel)
    requires
        concept_attributes(e.spec_attributes(), m),
        concept_layout(children_of(e), m, 0),
        concept_settled(m),
        concept_valid(m),
        forall|k: int, i: int|
            0 <= k < 15 && concept_len(m) <= i < children_of(e).len() ==> !#[trigger] is_dt(
                children_of(e)[i],
                concept_names()[k],
            ),
    ensures
        concept_readable(e),
{
    let kids = children_of(e);
    let off = concept_offsets(m);
    let n = concept_names();
    lemma_concept_attributes_readable(e, m);
    lemma_concept_runs(kids, m);
    lemma_concept_names_distinct();
    lemma_segments(kids, n, off);
    assert(dt_named(kids, n[0]) =~= kids.subrange(off[0], off[1]));
    assert(dt_named(kids, n[1]) =~= kids.subrange(off[1], off[2]));
    assert(dt_named(kids, n[2]) =~= kids.subrange(off[2], off[3]));
    assert(dt_named(kids, n[3]) =~= kids.subrange(off[3], off[4]));
    assert(dt_named(kids, n[4]) =~= kids.subrange(off[4], off[5]));
    assert(dt_named(kids, n[5]) =~= kids.subrange(off[5], off[6]));
    assert(dt_named(kids, n[6]) =~= kids.subrange(off[6], off[7]));
    assert(dt_named(kids, n[7]) =~= kids.subrange(off[7], off[8]));
    assert(dt_named(kids, n[8]) =~= kids.subrange(off[8], off[9]));
    assert(dt_named(kids, n[9]) =~= kids.subrange(off[9], off[10]));
    assert(dt_named(kids, n[10]) =~= kids.subrange(off[10], off[11]));
    assert(dt_named(kids, n[11]) =~= kids.subrange(off[11], off[12]));
    assert(dt_named(kids, n[12]) =~= kids.subrange(off[12], off[13]));
    assert(dt_named(kids, n[13]) =~= kids.subrange(off[13], off[14]));
    assert(dt_named(kids, n[14]) =~= kids.subrange(off[14], off[15]));
    lemma_texts_readable(kids, off[0], n[0], m.names);
    lemma_texts_readable(kids, off[1], n[1], m.definitions);
    lemma_refs_readable(kids, off[2], n[2], m.reference_document_refs);
    lemma_texts_readable(kids, off[3], n[3], m.descriptions);
    lemma_texts_readable(kids, off[4], n[4], m.examples);
    lemma_refs_readable(kids, off[5], n[5], m.similar_to_refs);
    lemma_simples_readable(kids, off[6], n[6], lexemes_language(m.languages_of_creator));
    lemma_simples_readable(kids, off[7], n[7], lexemes_string(m.countries_of_origin));
    lemma_simples_readable(kids, off[8], n[8], lexemes_base64(m.visual_representations));
    lemma_simples_readable(kids, off[9], n[9], lexemes_count(m.major_versions));
    lemma_simples_readable(kids, off[10], n[10], lexemes_count(m.minor_versions));
    lemma_simples_readable(kids, off[11], n[11], lexemes_string(m.statuses));
    lemma_refs_readable(kids, off[12], n[12], m.replaced_objects_refs);
    lemma_simples_readable(kids, off[13], n[13], lexemes_string(m.deprecation_explanations));
    lemma_refs_readable(kids, off[14], n[14], m.dictionary_refs);
    lemma_settled_lexemes(lexemes_language(m.languages_of_creator), |t: Seq<char>| spec_is_language(t));
    lemma_settled_lexemes(lexemes_base64(m.visual_representations), |t: Seq<char>| spec_is_base64(t));
    lemma_settled_lexemes(lexemes_count(m.major_versions), |t: Seq<char>| spec_is_non_negative_integer(t));
    lemma_settled_lexemes(lexemes_count(m.minor_versions), |t: Seq<char>| spec_is_non_negative_integer(t));
    assert(settled(m.date_of_creation@));
    if m.about is Some {
        assert(settled(m.about->0@));
    }
}

/// Decoding the element [`Concept::to_element_named`] writes for a valid
/// concept succeeds: its frame, attributes and children are all accepted.
pub proof fn lemma_concept_decodable(e: Element, local: Seq<char>, m: ConceptModel)
    requires
        concept_encoding(e, local, m),
        children_of(e).len() == concept_len(m),
        concept_settled(m),
        concept_valid(m),
    ensures
        decoded_frame(e, concept_names()),
        concept_readable(e),
{
    let kids = children_of(e);
    lemma_concept_content_readable(e, m);
    lemma_elements_blank(e.spec_nodes());
    lemma_concept_runs(kids, m);
    lemma_known_runs(kids, concept_names(), concept_offsets(m));
}

/// The whole content the encoder writes for a valid concept followed by
/// runs named `after` lies within the decoder's frame, its concept part is
/// read, and each later name finds exactly its run.
pub proof fn lemma_concept_frame(e: Element, local: Seq<char>, m: ConceptModel, after: Seq<Seq<char>>, off_after: Seq<int>)
    requires
        concept_encoding(e, local, m),
        concept_settled(m),
        concept_valid(m),
        off_after.len() == after.len() + 1,
        off_after[0] == concept_len(m),
        ascending(off_after),
        off_after.last() == children_of(e).len(),
        forall|k: int, i: int|
            0 <= k < after.len() && off_after[k] <= i < off_after[k + 1] ==> #[trigger] is_dt(children_of(e)[i], after[k]),
        (concept_names() + after).no_duplicates(),
    ensures
        decoded_frame(e, concept_names() + after),
        concept_readable(e),
        forall|k: int|
            0 <= k < after.len() ==> #[trigger] dt_named(children_of(e), after[k]) =~= children_of(e).subrange(
                off_after[k],
                off_after[k + 1],
            ),
{
    let kids = children_of(e);
    let full = concept_names() + after;
    let off = concept_offsets(m);
    crate::round_trip::lemma_all_runs(kids, m, after, off_after);
    lemma_concept_content_readable(e, m);
    lemma_elements_blank(e.spec_nodes());
    lemma_concept_runs(kids, m);
    assert forall|i: int| 0 <= i < kids.len() implies in_dt_named(#[trigger] kids[i], full) by {
        if i < concept_len(m) {
            let k = lemma_find_segment(off, i);
            assert(is_dt(kids[i], concept_names()[k]));
            assert(full[k] == concept_names()[k]);
        } else {
            let j = lemma_find_segment(off_after, i);
            assert(is_dt(kids[i], after[j]));
            assert(full[15 + j] == after[j]);
        }
    }
}

/// Children known under `a` are known under any list holding every name of
/// `a`.
pub proof fn lemma_known_within(kids: Seq<Element>, a: Seq<Seq<char>>, b: Seq<Seq<char>>)
    requires
        known_children(kids, a),
        forall|i: int| 0 <= i < a.len() ==> b.contains(#[trigger] a[i]),
    ensures
        known_children(kids, b),
{
    assert forall|i: int| 0 <= i < kids.len() implies in_dt_named(#[trigger] kids[i], b) by {
        assert(in_dt_named(kids[i], a));
        let j = choose|j: int| 0 <= j < a.len() && a[j] == kids[i].spec_local_name();
        assert(b.contains(a[j]));
    }
}

// ---------------------------------------------------------------------------
// Subjects, object types, groups, data templates, quantity kinds
// ---------------------------------------------------------------------------

pub open spec fn subject_valid(m: SubjectModel) -> bool {
    concept_valid(m.concept@) && refs_valid(m.has_part_refs) && refs_valid(m.is_subtype_of_refs)
}

/// Decoding the element written for a valid subject, or object type,
/// succeeds.
pub proof fn lemma_subject_decodable(e: Element, local: Seq<char>, m: SubjectModel)
    requires
        subject_encoding(e, local, m, 0),
        subject_settled(m),
        subject_valid(m),
    ensures
        decoded_frame(e, subject_names()),
        subject_readable(e),
{
    let kids = children_of(e);
    let c = concept_len(m.concept@);
    let h = m.has_part_refs.len() as int;
    let t = m.is_subtype_of_refs.len() as int;
    let after = seq!["HasPartRef"@, "IsSubtypeOfRef"@];
    let off_after = seq![c, c + h, c + h + t];
    lemma_subject_names_distinct();
    lemma_refs_named(kids, c, after[0], m.has_part_refs);
    lemma_refs_named(kids, c + h, after[1], m.is_subtype_of_refs);
    lemma_concept_frame(e, local, m.concept@, after, off_after);
    assert(dt_named(kids, after[0]) =~= kids.subrange(c, c + h));
    assert(dt_named(kids, after[1]) =~= kids.subrange(c + h, c + h + t));
    lemma_refs_readable(kids, c, after[0], m.has_part_refs);
    lemma_refs_readable(kids, c + h, after[1], m.is_subtype_of_refs);
    assert(concept_names() + after =~= subject_names());
}

/// A group holds at least one property reference, as its constructor
/// requires.
pub open spec fn group_valid(m: GroupOfPropertiesModel) -> bool {
    subject_valid(m.subject@) && refs_valid(m.property_refs) && m.property_refs.len() > 0
}

/// Decoding the element written for a valid group of properties succeeds.
pub proof fn lemma_group_decodable(e: Element, m: GroupOfPropertiesModel)
    requires
        subject_encoding(e, "GroupOfProperties"@, m.subject@, m.property_refs.len() as int),
        refs_at(children_of(e), subject_len(m.subject@), "HasPropertyRef"@, m.property_refs),
        group_settled(m),
        group_valid(m),
    ensures
        decoded_frame(e, group_names()),
        subject_readable(e),
        references_readable(dt_named(children_of(e), "HasPropertyRef"@)),
        dt_named(children_of(e), "HasPropertyRef"@).len() > 0,
{
    let kids = children_of(e);
    let s = m.subject@;
    let c = concept_len(s.concept@);
    let h = s.has_part_refs.len() as int;
    let t = s.is_subtype_of_refs.len() as int;
    let p = m.property_refs.len() as int;
    let after = seq!["HasPartRef"@, "IsSubtypeOfRef"@, "HasPropertyRef"@];
    let off_after = seq![c, c + h, c + h + t, c + h + t + p];
    lemma_group_names_distinct();
    lemma_refs_named(kids, c, after[0], s.has_part_refs);
    lemma_refs_named(kids, c + h, after[1], s.is_subtype_of_refs);
    lemma_refs_named(kids, c + h + t, after[2], m.property_refs);
    lemma_concept_frame(e, "GroupOfProperties"@, s.concept@, after, off_after);
    assert(dt_named(kids, after[0]) =~= kids.subrange(c, c + h));
    assert(dt_named(kids, after[1]) =~= kids.subrange(c + h, c + h + t));
    assert(dt_named(kids, after[2]) =~= kids.subrange(c + h + t, c + h + t + p));
    lemma_refs_readable(kids, c, after[0], s.has_part_refs);
    lemma_refs_readable(kids, c + h, after[1], s.is_subtype_of_refs);
    lemma_refs_readable(kids, c + h + t, after[2], m.property_refs);
    assert(concept_names() + after =~= group_names());
}

pub open spec fn template_valid(m: DataTemplateModel) -> bool {
    &&& subject_valid(m.subject@)
    &&& refs_valid(m.object_type_refs) && refs_valid(m.property_refs)
    &&& refs_valid(m.group_of_properties_refs)
}

/// Decoding the element written for a valid data template succeeds.
pub proof fn lemma_template_decodable(e: Element, m: DataTemplateModel)
    requires
        ({
            let s = subject_len(m.subject@);
            let o = m.object_type_refs.len() as int;
            let p = m.property_refs.len() as int;
            &&& subject_encoding(e, "DataTemplate"@, m.subject@, o + p + m.group_of_properties_refs.len())
            &&& refs_at(children_of(e), s, "HasObjectTypeRef"@, m.object_type_refs)
            &&& refs_at(children_of(e), s + o, "HasPropertyRef"@, m.property_refs)
            &&& refs_at(children_of(e), s + o + p, "HasGroupOfPropertiesRef"@, m.group_of_properties_refs)
        }),
        template_settled(m),
        template_valid(m),
    ensures
        decoded_frame(e, template_names()),
        template_readable(e),
{
    let kids = children_of(e);
    let s = m.subject@;
    let c = concept_len(s.concept@);
    let h = s.has_part_refs.len() as int;
    let t = s.is_subtype_of_refs.len() as int;
    let o = m.object_type_refs.len() as int;
    let p = m.property_refs.len() as int;
    let g = m.group_of_properties_refs.len() as int;
    let after = seq!["HasPartRef"@, "IsSubtypeOfRef"@, "HasObjectTypeRef"@, "HasPropertyRef"@, "HasGroupOfPropertiesRef"@];
    let off_after = seq![c, c + h, c + h + t, c + h + t + o, c + h + t + o + p, c + h + t + o + p + g];
    lemma_template_names_distinct();
    lemma_refs_named(kids, c, after[0], s.has_part_refs);
    lemma_refs_named(kids, c + h, after[1], s.is_subtype_of_refs);
    lemma_refs_named(kids, c + h + t, after[2], m.object_type_refs);
    lemma_refs_named(kids, c + h + t + o, after[3], m.property_refs);
    lemma_refs_named(kids, c + h + t + o + p, after[4], m.group_of_properties_refs);
    lemma_concept_frame(e, "DataTemplate"@, s.concept@, after, off_after);
    assert(dt_named(kids, after[0]) =~= kids.subrange(off_after[0], off_after[1]));
    assert(dt_named(kids, after[1]) =~= kids.subrange(off_after[1], off_after[2]));
    assert(dt_named(kids, after[2]) =~= kids.subrange(off_after[2], off_after[3]));
    assert(dt_named(kids, after[3]) =~= kids.subrange(off_after[3], off_after[4]));
    assert(dt_named(kids, after[4]) =~= kids.subrange(off_after[4], off_after[5]));
    lemma_refs_readable(kids, off_after[0], after[0], s.has_part_refs);
    lemma_refs_readable(kids, off_after[1], after[1], s.is_subtype_of_refs);
    lemma_refs_readable(kids, off_after[2], after[2], m.object_type_refs);
    lemma_refs_readable(kids, off_after[3], after[3], m.property_refs);
    lemma_refs_readable(kids, off_after[4], after[4], m.group_of_properties_refs);
    assert(concept_names() + after =~= template_names());
}

pub open spec fn quantity_kind_valid(m: QuantityKindModel) -> bool {
    concept_valid(m.concept@) && ref_valid(m.dimension_ref)
}

/// Decoding the element written for a valid quantity kind succeeds.
pub proof fn lemma_quantity_kind_decodable(e: Element, m: QuantityKindModel)
    requires
        concept_encoding(e, "QuantityKind"@, m.concept@),
        children_of(e).len() == concept_len(m.concept@) + 1,
        reference_encoding(children_of(e)[concept_len(m.concept@)], "DimensionRef"@, m.dimension_ref),
        quantity_kind_settled(m),
        quantity_kind_valid(m),
    ensures
        decoded_frame(e, quantity_kind_names()),
        concept_readable(e),
        references_readable(dt_named(children_of(e), "DimensionRef"@)),
        dt_named(children_of(e), "DimensionRef"@).len() == 1,
{
    let kids = children_of(e);
    let c = concept_len(m.concept@);
    let after = seq!["DimensionRef"@];
    let off_after = seq![c, c + 1];
    lemma_quantity_kind_names_distinct();
    lemma_concept_frame(e, "QuantityKind"@, m.concept@, after, off_after);
    assert(dt_named(kids, after[0]) =~= kids.subrange(c, c + 1));
    assert(kids.subrange(c, c + 1)[0] == kids[c]);
    lemma_ref_readable(kids[c], after[0], m.dimension_ref);
    assert(concept_names() + after =~= quantity_kind_names());
}

// ---------------------------------------------------------------------------
// Dimensions, units, reference documents
// ---------------------------------------------------------------------------

pub open spec fn dimension_valid(m: DimensionModel) -> bool {
    &&& concept_valid(m.concept@)
    &&& m.exponents.len() == 7
    &&& forall|i: int| 0 <= i < 7 ==> spec_is_decimal(#[trigger] m.exponents[i]@)
}

/// Decoding the element written for a valid dimension succeeds.
pub proof fn lemma_dimension_decodable(e: Element, m: DimensionModel)
    requires
        concept_encoding(e, "Dimension"@, m.concept@),
        children_of(e).len() == concept_len(m.concept@) + 7,
        forall|i: int|
            0 <= i < 7 ==> simple_encoding(
                #[trigger] children_of(e)[concept_len(m.concept@) + i],
                exponent_name(i),
                m.exponents[i]@,
            ),
        dimension_settled(m),
        dimension_valid(m),
    ensures
        decoded_frame(e, dimension_names()),
        concept_readable(e),
        forall|i: int| 0 <= i < 7 ==> #[trigger] exponent_readable(children_of(e), exponent_name(i)),
{
    let kids = children_of(e);
    let c = concept_len(m.concept@);
    let after = exponent_names();
    let off_after = seq![c, c + 1, c + 2, c + 3, c + 4, c + 5, c + 6, c + 7];
    lemma_dimension_names_distinct();
    assert forall|k: int| 0 <= k < 7 implies #[trigger] after[k] == exponent_name(k) by {}
    assert forall|k: int, i: int| 0 <= k < after.len() && off_after[k] <= i < off_after[k + 1] implies #[trigger] is_dt(
        kids[i],
        after[k],
    ) by {
        assert(i == c + k);
        assert(simple_encoding(kids[c + k], exponent_name(k), m.exponents[k]@));
    }
    lemma_concept_frame(e, "Dimension"@, m.concept@, after, off_after);
    assert forall|i: int| 0 <= i < 7 implies #[trigger] exponent_readable(kids, exponent_name(i)) by {
        assert(after[i] == exponent_name(i));
        assert(dt_named(kids, after[i]) =~= kids.subrange(off_after[i], off_after[i + 1]));
        let run = kids.subrange(c + i, c + i + 1);
        assert(run[0] == kids[c + i]);
        assert(simple_encoding(kids[c + i], exponent_name(i), m.exponents[i]@));
        assert(settled(m.exponents[i]@));
        assert(spec_is_decimal(m.exponents[i]@));
        assert(simple_readable(run[0]));
        assert(raw_texts(run)[0] == m.exponents[i]@);
    }
    assert(concept_names() + after =~= dimension_names());
}

pub open spec fn unit_valid(m: UnitModel) -> bool {
    &&& concept_valid(m.concept@)
    &&& texts_valid(m.symbols)
    &&& ref_valid(m.dimension_ref)
    &&& spec_is_rational(m.coefficient@)
    &&& spec_is_rational(m.offset@)
}

/// Decoding the element written for a valid unit succeeds.
pub proof fn lemma_unit_decodable(e: Element, m: UnitModel)
    requires
        concept_encoding(e, "Unit"@, m.concept@),
        unit_layout(children_of(e), m),
        children_of(e).len() == concept_len(m.concept@) + m.symbols.len() + 5,
        unit_settled(m),
        unit_valid(m),
    ensures
        decoded_frame(e, unit_names()),
        unit_readable(e),
{
    let kids = children_of(e);
    let c = concept_len(m.concept@);
    let n = m.symbols.len() as int;
    let after = seq!["Symbol"@, "DimensionRef"@, "Scale"@, "Base"@, "Coefficient"@, "Offset"@];
    let off_after = seq![c, c + n, c + n + 1, c + n + 2, c + n + 3, c + n + 4, c + n + 5];
    lemma_unit_names_distinct();
    lemma_texts_named(kids, c, after[0], m.symbols);
    lemma_concept_frame(e, "Unit"@, m.concept@, after, off_after);
    assert(dt_named(kids, after[0]) =~= kids.subrange(c, c + n));
    lemma_texts_readable(kids, c, after[0], m.symbols);
    assert(dt_named(kids, after[1]) =~= kids.subrange(c + n, c + n + 1));
    assert(kids.subrange(c + n, c + n + 1)[0] == kids[c + n]);
    lemma_ref_readable(kids[c + n], after[1], m.dimension_ref);
    assert(dt_named(kids, after[2]) =~= kids.subrange(c + n + 1, c + n + 2));
    assert(kids.subrange(c + n + 1, c + n + 2)[0] == kids[c + n + 1]);
    assert(dt_named(kids, after[3]) =~= kids.subrange(c + n + 2, c + n + 3));
    assert(kids.subrange(c + n + 2, c + n + 3)[0] == kids[c + n + 2]);
    assert(dt_named(kids, after[4]) =~= kids.subrange(c + n + 3, c + n + 4));
    assert(kids.subrange(c + n + 3, c + n + 4)[0] == kids[c + n + 3]);
    assert(raw_texts(kids.subrange(c + n + 3, c + n + 4))[0] == m.coefficient@);
    assert(dt_named(kids, after[5]) =~= kids.subrange(c + n + 4, c + n + 5));
    assert(kids.subrange(c + n + 4, c + n + 5)[0] == kids[c + n + 4]);
    assert(raw_texts(kids.subrange(c + n + 4, c + n + 5))[0] == m.offset@);
    assert(concept_names() + after =~= unit_names());
}

/// A reference document holds at least one language, as its constructor
/// requires.
pub open spec fn reference_document_valid(m: ReferenceDocumentModel) -> bool {
    &&& concept_valid(m.concept@)
    &&& m.languages.len() > 0
    &&& all_lexemes(lexemes_language(m.languages), |t: Seq<char>| spec_is_language(t))
    &&& (m.date_of_publication matches Some(x) ==> spec_is_datetime(x@))
    &&& (m.uri matches Some(x) ==> spec_is_any_uri(x@))
}

/// Decoding the element written for a valid reference document succeeds.
pub proof fn lemma_reference_document_decodable(e: Element, m: ReferenceDocumentModel)
    requires
        concept_encoding(e, "ReferenceDocument"@, m.concept@),
        reference_document_layout(children_of(e), m),
        children_of(e).len() == reference_document_len(m),
        reference_document_settled(m),
        reference_document_valid(m),
    ensures
        decoded_frame(e, reference_document_names()),
        reference_document_readable(e),
{
    let kids = children_of(e);
    let c = concept_len(m.concept@);
    let o1 = c + opt_text(m.date_of_publication).len();
    let o2 = o1 + opt_text(m.author).len();
    let o3 = o2 + opt_text(m.isbn).len();
    let o4 = o3 + m.languages.len();
    let o5 = o4 + opt_text(m.publisher).len();
    let o6 = o5 + opt_text(m.uri).len();
    let after = seq!["DateOfPublication"@, "Author"@, "ISBN"@, "Language"@, "Publisher"@, "URI"@];
    let off_after = seq![c, o1, o2, o3, o4, o5, o6];
    lemma_reference_document_names_distinct();
    lemma_simples_named(kids, c, after[0], opt_text(m.date_of_publication));
    lemma_simples_named(kids, o1, after[1], opt_text(m.author));
    lemma_simples_named(kids, o2, after[2], opt_text(m.isbn));
    lemma_simples_named(kids, o3, after[3], lexemes_language(m.languages));
    lemma_simples_named(kids, o4, after[4], opt_text(m.publisher));
    lemma_simples_named(kids, o5, after[5], opt_text(m.uri));
    lemma_concept_frame(e, "ReferenceDocument"@, m.concept@, after, off_after);
    assert(dt_named(kids, after[0]) =~= kids.subrange(c, o1));
    assert(dt_named(kids, after[1]) =~= kids.subrange(o1, o2));
    assert(dt_named(kids, after[2]) =~= kids.subrange(o2, o3));
    assert(dt_named(kids, after[3]) =~= kids.subrange(o3, o4));
    assert(dt_named(kids, after[4]) =~= kids.subrange(o4, o5));
    assert(dt_named(kids, after[5]) =~= kids.subrange(o5, o6));
    lemma_simples_readable(kids, c, after[0], opt_text(m.date_of_publication));
    lemma_simples_readable(kids, o1, after[1], opt_text(m.author));
    lemma_simples_readable(kids, o2, after[2], opt_text(m.isbn));
    lemma_simples_readable(kids, o3, after[3], lexemes_language(m.languages));
    lemma_simples_readable(kids, o4, after[4], opt_text(m.publisher));
    lemma_simples_readable(kids, o5, after[5], opt_text(m.uri));
    lemma_settled_lexemes(lexemes_language(m.languages), |t: Seq<char>| spec_is_language(t));
    if m.date_of_publication is Some {
        assert(settled(m.date_of_publication->0@));
    }
    if m.uri is Some {
        assert(settled(m.uri->0@));
    }
    let full = concept_names() + after;
    assert forall|i: int| 0 <= i < full.len() implies reference_document_names().contains(#[trigger] full[i]) by {
        let r = reference_document_names();
        if i < 15 {
            assert(r[i] == full[i]);
        } else if i == 15 {
            assert(r[16] == full[i]);
        } else if i == 16 {
            assert(r[17] == full[i]);
        } else if i == 17 {
            assert(r[18] == full[i]);
        } else if i == 18 {
            assert(r[15] == full[i]);
        } else if i == 19 {
            assert(r[19] == full[i]);
        } else {
            assert(r[20] == full[i]);
        }
    }
    lemma_known_within(kids, full, reference_document_names());
}

// ---------------------------------------------------------------------------
// Data types and properties
// ---------------------------------------------------------------------------

/// A data type whose value lists each hold a valid language and at least
/// one value, as the value-list constructor requires.
pub open spec fn data_type_valid(m: DataTypeModel) -> bool {
    forall|i: int|
        0 <= i < m.possible_values.len() ==> spec_is_language((#[trigger] m.possible_values[i])@.language@)
            && m.possible_values[i]@.values.len() > 0
}

/// An element carrying one `value` attribute and nothing else is read.
pub proof fn lemma_valued_readable(e: Element, name: Seq<char>, value: Seq<char>)
    requires
        valued_encoding(e, name, value),
    ensures
        valued_readable(e),
{
    reveal_strlit("value");
    assert(attr_known(e.spec_attributes()[0], AttributeSet::Value));
    assert(plain_attr(e, "value"@) == Some(value));
    assert(elements_of(e.spec_nodes()) =~= Seq::<Element>::empty());
    assert(text_of(e.spec_nodes()) =~= Seq::<char>::empty());
}

/// The element written for a value list with a valid, settled language and
/// at least one value is read.
pub proof fn lemma_value_list_readable(e: Element, l: ValueList)
    requires
        value_list_encoding(e, l),
        settled(l@.language@),
        spec_is_language(l@.language@),
        l@.values.len() > 0,
    ensures
        value_list_readable(e),
{
    reveal_strlit("language");
    reveal_strlit("order");
    let kids = children_of(e);
    assert(attr_known(e.spec_attributes()[0], AttributeSet::Language));
    assert(plain_attr(e, "language"@) == Some(l@.language@));
    lemma_elements_blank(e.spec_nodes());
    assert forall|i: int| 0 <= i < kids.len() implies is_dt(#[trigger] kids[i], "Value"@) by {
        assert(value_encoding(kids[i], l@.values[i]));
    }
    lemma_named_run(kids, "Value"@, 0, kids.len() as int);
    assert(kids.subrange(0, kids.len() as int) =~= kids);
    assert forall|i: int| 0 <= i < kids.len() implies value_readable(#[trigger] kids[i]) by {
        let c = kids[i];
        assert(value_encoding(c, l@.values[i]));
        match l@.values[i]@.order {
            Some(o) => {
                assert(attr_known(c.spec_attributes()[0], AttributeSet::Order));
                assert(plain_attr(c, "order"@) == Some(int_text(o)));
                lemma_int_text(o);
            },
            None => {},
        }
    }
    assert forall|i: int| 0 <= i < kids.len() implies in_dt_named(#[trigger] kids[i], seq!["Value"@]) by {
        assert(is_dt(kids[i], "Value"@));
        assert(seq!["Value"@][0] == "Value"@);
    }
}

/// The element the encoder writes for a valid data type is read.
pub proof fn lemma_data_type_readable(e: Element, m: DataTypeModel)
    requires
        data_type_encoding(e, m),
        data_type_settled(m),
        data_type_valid(m),
    ensures
        data_type_readable(e),
{
    reveal_strlit("MinInclusive");
    reveal_strlit("MinExclusive");
    reveal_strlit("MaxInclusive");
    reveal_strlit("MaxExclusive");
    reveal_strlit("DataFormat");
    reveal_strlit("PossibleValues");
    reveal_strlit("ValueList");
    reveal_strlit("name");
    assert("MinInclusive"@.len() == 12 && "MinExclusive"@.len() == 12);
    assert("MaxInclusive"@.len() == 12 && "MaxExclusive"@.len() == 12);
    assert("DataFormat"@.len() == 10 && "PossibleValues"@.len() == 14);
    let kids = children_of(e);
    let c = m.constraints.len() as int;
    let f = m.data_formats.len() as int;
    let p = m.possible_values.len() as int;
    let names = data_type_names();
    if m.name is Some {
        assert(attr_known(e.spec_attributes()[0], AttributeSet::Name));
    }
    lemma_elements_blank(e.spec_nodes());
    assert forall|i: int| 0 <= i < c implies in_dt(#[trigger] kids[i]) && is_constraint_name(kids[i].spec_local_name()) by {
        assert(valued_encoding(kids[i], constraint_name(m.constraints[i]), constraint_bound(m.constraints[i])));
    }
    assert forall|i: int| c <= i < c + f implies #[trigger] is_dt(kids[i], "DataFormat"@) by {
        assert(valued_encoding(kids[c + (i - c)], "DataFormat"@, m.data_formats[i - c]@));
    }
    assert forall|i: int| c + f <= i < kids.len() implies #[trigger] is_dt(kids[i], "PossibleValues"@) by {
        assert(possible_values_encoding(kids[c + f + (i - c - f)], m.possible_values[i - c - f]));
    }
    assert forall|i: int| 0 <= i < kids.len() && in_dt(#[trigger] kids[i]) && is_constraint_name(kids[i].spec_local_name()) implies valued_readable(kids[i]) by {
        if i < c {
            lemma_valued_readable(kids[i], constraint_name(m.constraints[i]), constraint_bound(m.constraints[i]));
        } else if i < c + f {
            assert(is_dt(kids[i], "DataFormat"@));
        } else {
            assert(is_dt(kids[i], "PossibleValues"@));
        }
    }
    assert forall|i: int| 0 <= i < kids.len() && !(c <= i < c + f) implies !#[trigger] is_dt(kids[i], "DataFormat"@) by {
        if i >= c + f {
            assert(is_dt(kids[i], "PossibleValues"@));
        } else {
            assert(is_constraint_name(kids[i].spec_local_name()));
        }
    }
    assert forall|i: int| 0 <= i < kids.len() && !(c + f <= i < c + f + p) implies !#[trigger] is_dt(kids[i], "PossibleValues"@) by {
        if c <= i < c + f {
            assert(is_dt(kids[i], "DataFormat"@));
        } else {
            assert(is_constraint_name(kids[i].spec_local_name()));
        }
    }
    lemma_named_run(kids, "DataFormat"@, c, c + f);
    let formats = kids.subrange(c, c + f);
    assert forall|i: int| 0 <= i < formats.len() implies valued_readable(#[trigger] formats[i]) by {
        assert(formats[i] == kids[c + i]);
        lemma_valued_readable(kids[c + i], "DataFormat"@, m.data_formats[i]@);
    }
    lemma_named_run(kids, "PossibleValues"@, c + f, c + f + p);
    let pvs = kids.subrange(c + f, c + f + p);
    assert forall|i: int| 0 <= i < pvs.len() implies possible_values_readable(#[trigger] pvs[i]) by {
        assert(pvs[i] == kids[c + f + i]);
        assert(possible_values_encoding(kids[c + f + i], m.possible_values[i]));
        let inner = children_of(pvs[i]);
        assert(value_list_encoding(inner[0], m.possible_values[i]));
        lemma_named_run(inner, "ValueList"@, 0, 1);
        assert(inner.subrange(0, 1) =~= seq![inner[0]]);
        assert(settled(m.possible_values[i]@.language@));
        lemma_value_list_readable(inner[0], m.possible_values[i]);
        lemma_elements_blank(pvs[i].spec_nodes());
        assert(dt_named(inner, "ValueList"@)[0] == inner[0]);
        assert(in_dt_named(inner[0], seq!["ValueList"@])) by {
            assert(seq!["ValueList"@][0] == "ValueList"@);
        }
    }
    assert forall|i: int| 0 <= i < kids.len() implies in_dt_named(#[trigger] kids[i], names) by {
        if i < c {
            let n = kids[i].spec_local_name();
            if n == "MinInclusive"@ {
                assert(names[0] == n);
            } else if n == "MinExclusive"@ {
                assert(names[1] == n);
            } else if n == "MaxInclusive"@ {
                assert(names[2] == n);
            } else {
                assert(names[3] == n);
            }
        } else if i < c + f {
            assert(is_dt(kids[i], "DataFormat"@));
            assert(names[4] == "DataFormat"@);
        } else {
            assert(is_dt(kids[i], "PossibleValues"@));
            assert(names[5] == "PossibleValues"@);
        }
    }
}

pub open spec fn property_valid(m: PropertyModel) -> bool {
    &&& concept_valid(m.concept@)
    &&& data_type_valid(m.data_type@)
    &&& refs_valid(m.dimension_refs) && refs_valid(m.unit_refs)
    &&& refs_valid(m.quantity_kind_refs) && refs_valid(m.dependency_refs)
    &&& refs_valid(opt_seq(m.specialization_ref))
}

/// Decoding the element written for a valid property succeeds.
pub proof fn lemma_property_decodable(e: Element, m: PropertyModel)
    requires
        concept_encoding(e, "Property"@, m.concept@),
        property_layout(children_of(e), m),
        children_of(e).len() == property_len(m),
        property_settled(m),
        property_valid(m),
    ensures
        decoded_frame(e, property_names()),
        property_readable(e),
{
    let kids = children_of(e);
    let c = concept_len(m.concept@);
    let o1 = c + 1;
    let o2 = o1 + m.symbols.len();
    let o3 = o2 + m.dimension_refs.len();
    let o4 = o3 + m.unit_refs.len();
    let o5 = o4 + m.quantity_kind_refs.len();
    let o6 = o5 + m.dependency_refs.len();
    let o7 = o6 + opt_seq(m.specialization_ref).len();
    let after = seq!["DataType"@, "Symbol"@, "DimensionRef"@, "UnitRef"@, "QuantityKindRef"@, "IsDependentOnRef"@, "IsSpecializationOfRef"@];
    let off_after = seq![c, o1, o2, o3, o4, o5, o6, o7];
    lemma_property_names_distinct();
    assert(is_dt(kids[c], after[0]));
    lemma_simples_named(kids, o1, after[1], lexemes_string(m.symbols));
    lemma_refs_named(kids, o2, after[2], m.dimension_refs);
    lemma_refs_named(kids, o3, after[3], m.unit_refs);
    lemma_refs_named(kids, o4, after[4], m.quantity_kind_refs);
    lemma_refs_named(kids, o5, after[5], m.dependency_refs);
    lemma_refs_named(kids, o6, after[6], opt_seq(m.specialization_ref));
    lemma_concept_frame(e, "Property"@, m.concept@, after, off_after);
    assert(dt_named(kids, after[0]) =~= kids.subrange(c, o1));
    assert(kids.subrange(c, o1)[0] == kids[c]);
    lemma_data_type_readable(kids[c], m.data_type@);
    assert(dt_named(kids, after[1]) =~= kids.subrange(o1, o2));
    lemma_simples_readable(kids, o1, after[1], lexemes_string(m.symbols));
    assert(dt_named(kids, after[2]) =~= kids.subrange(o2, o3));
    lemma_refs_readable(kids, o2, after[2], m.dimension_refs);
    assert(dt_named(kids, after[3]) =~= kids.subrange(o3, o4));
    lemma_refs_readable(kids, o3, after[3], m.unit_refs);
    assert(dt_named(kids, after[4]) =~= kids.subrange(o4, o5));
    lemma_refs_readable(kids, o4, after[4], m.quantity_kind_refs);
    assert(dt_named(kids, after[5]) =~= kids.subrange(o5, o6));
    lemma_refs_readable(kids, o5, after[5], m.dependency_refs);
    assert(dt_named(kids, after[6]) =~= kids.subrange(o6, o7));
    lemma_refs_readable(kids, o6, after[6], opt_seq(m.specialization_ref));
    assert(concept_names() + after =~= property_names());
}

} // verus!
