//! What decoding gives back of what encoding writes: the owned types are
//! read back from their own elements with every attribute, child and
//! lexeme intact.

use vstd::prelude::*;
use crate::codec::{
    concept_attributes, concept_decodes, concept_encoding, concept_layout, concept_len, concept_names, lexemes_base64, lexemes_count, lexemes_language,
    lexemes_string, constraint_bound, constraint_children, constraint_decodes, constraint_name, data_type_decodes,
    data_type_encoding, decimal_text, first_kept, int_lexeme, int_text, is_constraint_name, is_white_space, last_kept,
    opt_seq, possible_values_encoding, property_decodes, property_layout, property_len, trimmed, valued_encoding,
    value_decodes, value_encoding, value_list_decodes, value_list_encoding, value_lists, dimension_decodes, exponent_name, opt_text, opt_view_of, reference_document_decodes,
    reference_document_layout, reference_document_len, unit_decodes, unit_layout, quantity_kind_decodes, subject_decodes, subject_encoding, subject_layout, subject_len, template_decodes,
    collapsed_texts, raw_texts, reference_decodes, reference_encoding, refs_at, refs_decode, simple_encoding, simples_at,
    text_decodes,
    text_encoding, texts_at, texts_decode,
};
use crate::document::{attribute_lookup, text_of, Element};
use crate::model::{children_of, dt_named, guid_attr, in_dt, is_dt, plain_attr};
use crate::text::{is_digit, spec_collapse};
use crate::value::{all_digits, data_type_name_str, digits_value};
use crate::value::{ConceptModel, MultiLanguageText, Reference};
use crate::domain::{
    DataTypeConstraint, DataTypeModel, PropertyModel, ValueList, ValueListModel,
    DataTemplateModel, DimensionModel, GroupOfPropertiesModel, QuantityKindModel, ReferenceDocumentModel, SubjectModel,
    UnitModel,
};
use crate::NAMESPACE;

verus! {

/// A lexeme that white-space collapsing leaves as it is; every validated
/// lexeme is stored this way.
pub open spec fn settled(s: Seq<char>) -> bool {
    spec_collapse(s) == s
}

/// Two multilingual texts with the same language and text.
pub open spec fn text_same(a: MultiLanguageText, b: MultiLanguageText) -> bool {
    a.spec_language()@ == b.spec_language()@ && a.spec_text() == b.spec_text()
}

/// Two references with the same identifier and URI lexemes.
pub open spec fn ref_same(a: Reference, b: Reference) -> bool {
    &&& (a.spec_guid() is Some <==> b.spec_guid() is Some)
    &&& (a.spec_guid() is Some ==> a.spec_guid()->0@ == b.spec_guid()->0@)
    &&& (a.spec_uri() is Some <==> b.spec_uri() is Some)
    &&& (a.spec_uri() is Some ==> a.spec_uri()->0@ == b.spec_uri()->0@)
}

pub open spec fn texts_same(a: Seq<MultiLanguageText>, b: Seq<MultiLanguageText>) -> bool {
    a.len() == b.len() && forall|i: int| 0 <= i < a.len() ==> text_same(#[trigger] a[i], b[i])
}

pub open spec fn refs_same(a: Seq<Reference>, b: Seq<Reference>) -> bool {
    a.len() == b.len() && forall|i: int| 0 <= i < a.len() ==> ref_same(#[trigger] a[i], b[i])
}

/// A reference whose URI lexeme, if any, is settled.
pub open spec fn ref_settled(v: Reference) -> bool {
    v.spec_uri() matches Some(u) ==> settled(u@)
}


pub open spec fn refs_settled(v: Seq<Reference>) -> bool {
    forall|i: int| 0 <= i < v.len() ==> ref_settled(#[trigger] v[i])
}

pub open spec fn all_settled(v: Seq<Seq<char>>) -> bool {
    forall|i: int| 0 <= i < v.len() ==> settled(#[trigger] v[i])
}

/// The element the encoder writes for a text decodes to the same text.
pub proof fn lemma_text_faithful(c: Element, name: Seq<char>, m: MultiLanguageText, d: MultiLanguageText)
    requires
        text_encoding(c, name, m),
        text_decodes(c, d),
    ensures
        text_same(d, m),
{
    assert(plain_attr(c, "language"@) == Some(m.spec_language()@));
}

/// The element the encoder writes for a reference decodes to the same
/// reference.
pub proof fn lemma_ref_faithful(c: Element, name: Seq<char>, m: Reference, d: Reference)
    requires
        reference_encoding(c, name, m),
        ref_settled(m),
        reference_decodes(c, d),
    ensures
        ref_same(d, m),
{
    reveal_strlit("GUID");
    reveal_strlit("referenceURI");
    let attrs = c.spec_attributes();
    if m.spec_uri() is Some {
        assert(attrs[0].spec_local_name() == "referenceURI"@);
        assert(attrs[0].spec_local_name() != "GUID"@);
        assert(guid_attr(c) == attribute_lookup(attrs.drop_first(), Some(NAMESPACE@), "GUID"@));
        if m.spec_guid() is Some {
            assert(attrs.drop_first()[0] == attrs[1]);
        } else {
            assert(attrs.drop_first().len() == 0);
        }
    } else if m.spec_guid() is Some {
        assert(attrs[0].spec_local_name() == "GUID"@);
        assert(attrs[0].spec_local_name() != "referenceURI"@);
        assert(attribute_lookup(attrs, Some(NAMESPACE@), "referenceURI"@) == attribute_lookup(
            attrs.drop_first(),
            Some(NAMESPACE@),
            "referenceURI"@,
        ));
        assert(attrs.drop_first().len() == 0);
    }
}

/// A run of children named `name`, with no other child so named, is all
/// that `dt_named` finds.
pub proof fn lemma_named_run(kids: Seq<Element>, name: Seq<char>, a: int, b: int)
    requires
        0 <= a <= b <= kids.len(),
        forall|i: int| a <= i < b ==> is_dt(#[trigger] kids[i], name),
        forall|i: int| 0 <= i < kids.len() && !(a <= i < b) ==> !is_dt(#[trigger] kids[i], name),
    ensures
        dt_named(kids, name) =~= kids.subrange(a, b),
    decreases kids.len(),
{
    if kids.len() > 0 {
        let n = kids.len() - 1;
        let rest = kids.drop_last();
        if b == kids.len() && a < b {
            lemma_named_run(rest, name, a, b - 1);
            assert(is_dt(kids[n], name));
            assert(rest.subrange(a, b - 1).push(kids[n]) =~= kids.subrange(a, b));
        } else {
            let b2 = if b == kids.len() {
                b - 1
            } else {
                b
            };
            let a2 = if a > n {
                n
            } else {
                a
            };
            assert(!is_dt(kids[n], name));
            assert forall|i: int| a2 <= i < b2 implies is_dt(#[trigger] rest[i], name) by {
                assert(rest[i] == kids[i]);
            }
            assert forall|i: int| 0 <= i < rest.len() && !(a2 <= i < b2) implies !is_dt(#[trigger] rest[i], name) by {
                assert(rest[i] == kids[i]);
            }
            lemma_named_run(rest, name, a2, b2);
            assert(rest.subrange(a2, b2) =~= kids.subrange(a, b));
        }
    } else {
        assert(kids.subrange(a, b) =~= Seq::<Element>::empty());
    }
}

/// Decoding a run of text elements gives back the texts written.
pub proof fn lemma_texts_faithful(kids: Seq<Element>, at: int, name: Seq<char>, m: Seq<MultiLanguageText>, d: Seq<MultiLanguageText>)
    requires
        texts_at(kids, at, name, m),
        texts_decode(kids.subrange(at, at + m.len()), d),
    ensures
        texts_same(d, m),
{
    assert forall|i: int| 0 <= i < d.len() implies text_same(#[trigger] d[i], m[i]) by {
        assert(kids.subrange(at, at + m.len())[i] == kids[at + i]);
        lemma_text_faithful(kids[at + i], name, m[i], d[i]);
    }
}

/// Decoding a run of reference elements gives back the references written.
pub proof fn lemma_refs_faithful(kids: Seq<Element>, at: int, name: Seq<char>, m: Seq<Reference>, d: Seq<Reference>)
    requires
        refs_at(kids, at, name, m),
        refs_settled(m),
        refs_decode(kids.subrange(at, at + m.len()), d),
    ensures
        refs_same(d, m),
{
    assert forall|i: int| 0 <= i < d.len() implies ref_same(#[trigger] d[i], m[i]) by {
        assert(kids.subrange(at, at + m.len())[i] == kids[at + i]);
        lemma_ref_faithful(kids[at + i], name, m[i], d[i]);
    }
}

/// The texts of a run of simple elements are the texts written.
pub proof fn lemma_simples_faithful(kids: Seq<Element>, at: int, name: Seq<char>, m: Seq<Seq<char>>)
    requires
        simples_at(kids, at, name, m),
    ensures
        raw_texts(kids.subrange(at, at + m.len())) =~= m,
        all_settled(m) ==> collapsed_texts(kids.subrange(at, at + m.len())) =~= m,
{
    assert forall|i: int| 0 <= i < m.len() implies raw_texts(kids.subrange(at, at + m.len()))[i] == m[i] by {
        assert(kids.subrange(at, at + m.len())[i] == kids[at + i]);
    }
    if all_settled(m) {
        assert forall|i: int| 0 <= i < m.len() implies collapsed_texts(kids.subrange(at, at + m.len()))[i] == m[i] by {
            assert(kids.subrange(at, at + m.len())[i] == kids[at + i]);
            assert(settled(m[i]));
        }
    }
}

/// Offsets that never decrease.
pub open spec fn ascending(off: Seq<int>) -> bool {
    forall|i: int, j: int| 0 <= i <= j < off.len() ==> off[i] <= off[j]
}

/// Every position from the first offset up to the last lies in a segment.
pub proof fn lemma_find_segment(off: Seq<int>, i: int) -> (k: int)
    requires
        off.len() >= 1,
        ascending(off),
        off[0] <= i < off.last(),
    ensures
        0 <= k < off.len() - 1,
        off[k] <= i < off[k + 1],
    decreases off.len(),
{
    let n = off.len() - 1;
    if i >= off[n - 1] {
        n - 1
    } else {
        let shorter = off.drop_last();
        assert(ascending(shorter)) by {
            assert forall|a: int, b: int| 0 <= a <= b < shorter.len() implies shorter[a] <= shorter[b] by {
                assert(shorter[a] == off[a] && shorter[b] == off[b]);
            }
        }
        let k = lemma_find_segment(shorter, i);
        assert(shorter[k] == off[k] && shorter[k + 1] == off[k + 1]);
        k
    }
}

/// Children laid out as consecutive runs, run `k` named `names[k]`, with
/// distinct names and nothing after the runs under those names: each name
/// finds exactly its run.
pub proof fn lemma_segments(kids: Seq<Element>, names: Seq<Seq<char>>, off: Seq<int>)
    requires
        off.len() == names.len() + 1,
        off[0] == 0,
        ascending(off),
        off.last() <= kids.len(),
        names.no_duplicates(),
        forall|k: int, i: int| 0 <= k < names.len() && off[k] <= i < off[k + 1] ==> #[trigger] is_dt(kids[i], names[k]),
        forall|k: int, i: int| 0 <= k < names.len() && off.last() <= i < kids.len() ==> !#[trigger] is_dt(kids[i], names[k]),
    ensures
        forall|k: int| 0 <= k < names.len() ==> #[trigger] dt_named(kids, names[k]) =~= kids.subrange(off[k], off[k + 1]),
{
    assert forall|k: int| 0 <= k < names.len() implies #[trigger] dt_named(kids, names[k]) =~= kids.subrange(off[k], off[k + 1]) by {
        assert(off[0] <= off[k] <= off[k + 1] <= off.last());
        assert forall|i: int| 0 <= i < kids.len() && !(off[k] <= i < off[k + 1]) implies !is_dt(#[trigger] kids[i], names[k]) by {
            if i < off.last() {
                let j = lemma_find_segment(off, i);
                assert(is_dt(kids[i], names[j]));
                if j == k {
                    assert(false);
                }
                assert(names[j] != names[k]);
            }
        }
        lemma_named_run(kids, names[k], off[k], off[k + 1]);
    }
}

pub proof fn lemma_texts_named(kids: Seq<Element>, at: int, name: Seq<char>, m: Seq<MultiLanguageText>)
    requires
        texts_at(kids, at, name, m),
    ensures
        forall|i: int| at <= i < at + m.len() ==> is_dt(#[trigger] kids[i], name),
{
    assert forall|i: int| at <= i < at + m.len() implies is_dt(#[trigger] kids[i], name) by {
        assert(text_encoding(kids[at + (i - at)], name, m[i - at]));
    }
}

pub proof fn lemma_refs_named(kids: Seq<Element>, at: int, name: Seq<char>, m: Seq<Reference>)
    requires
        refs_at(kids, at, name, m),
    ensures
        forall|i: int| at <= i < at + m.len() ==> is_dt(#[trigger] kids[i], name),
{
    assert forall|i: int| at <= i < at + m.len() implies is_dt(#[trigger] kids[i], name) by {
        assert(reference_encoding(kids[at + (i - at)], name, m[i - at]));
    }
}

pub proof fn lemma_simples_named(kids: Seq<Element>, at: int, name: Seq<char>, m: Seq<Seq<char>>)
    requires
        simples_at(kids, at, name, m),
    ensures
        forall|i: int| at <= i < at + m.len() ==> is_dt(#[trigger] kids[i], name),
{
    assert forall|i: int| at <= i < at + m.len() implies is_dt(#[trigger] kids[i], name) by {
        assert(simple_encoding(kids[at + (i - at)], name, m[i - at]));
    }
}


// ---------------------------------------------------------------------------
// Concepts
// ---------------------------------------------------------------------------

/// Where each `ConceptType` child run starts, in declaration order, and
/// where the last ends.
pub open spec fn concept_offsets(m: ConceptModel) -> Seq<int> {
    let o1 = m.names.len() as int;
    let o2 = o1 + m.definitions.len();
    let o3 = o2 + m.reference_document_refs.len();
    let o4 = o3 + m.descriptions.len();
    let o5 = o4 + m.examples.len();
    let o6 = o5 + m.similar_to_refs.len();
    let o7 = o6 + m.languages_of_creator.len();
    let o8 = o7 + m.countries_of_origin.len();
    let o9 = o8 + m.visual_representations.len();
    let o10 = o9 + m.major_versions.len();
    let o11 = o10 + m.minor_versions.len();
    let o12 = o11 + m.statuses.len();
    let o13 = o12 + m.replaced_objects_refs.len();
    let o14 = o13 + m.deprecation_explanations.len();
    let o15 = o14 + m.dictionary_refs.len();
    seq![0, o1, o2, o3, o4, o5, o6, o7, o8, o9, o10, o11, o12, o13, o14, o15]
}

/// Two concepts with the same attributes and children, lexeme for lexeme.
pub open spec fn concept_same(a: ConceptModel, b: ConceptModel) -> bool {
    &&& a.guid@ == b.guid@
    &&& a.date_of_creation@ == b.date_of_creation@
    &&& (a.about is Some <==> b.about is Some)
    &&& (a.about is Some ==> a.about->0@ == b.about->0@)
    &&& texts_same(a.names, b.names)
    &&& texts_same(a.definitions, b.definitions)
    &&& refs_same(a.reference_document_refs, b.reference_document_refs)
    &&& texts_same(a.descriptions, b.descriptions)
    &&& texts_same(a.examples, b.examples)
    &&& refs_same(a.similar_to_refs, b.similar_to_refs)
    &&& lexemes_language(a.languages_of_creator) == lexemes_language(b.languages_of_creator)
    &&& lexemes_string(a.countries_of_origin) == lexemes_string(b.countries_of_origin)
    &&& lexemes_base64(a.visual_representations) == lexemes_base64(b.visual_representations)
    &&& lexemes_count(a.major_versions) == lexemes_count(b.major_versions)
    &&& lexemes_count(a.minor_versions) == lexemes_count(b.minor_versions)
    &&& lexemes_string(a.statuses) == lexemes_string(b.statuses)
    &&& refs_same(a.replaced_objects_refs, b.replaced_objects_refs)
    &&& lexemes_string(a.deprecation_explanations) == lexemes_string(b.deprecation_explanations)
    &&& refs_same(a.dictionary_refs, b.dictionary_refs)
}

/// A concept whose collapsed lexemes are settled, as every validated
/// value's are.
pub open spec fn concept_settled(m: ConceptModel) -> bool {
    &&& settled(m.date_of_creation@)
    &&& (m.about matches Some(a) ==> settled(a@))
    &&& refs_settled(m.reference_document_refs) && refs_settled(m.similar_to_refs)
    &&& refs_settled(m.replaced_objects_refs) && refs_settled(m.dictionary_refs)
    &&& all_settled(lexemes_language(m.languages_of_creator))
    &&& all_settled(lexemes_base64(m.visual_representations))
    &&& all_settled(lexemes_count(m.major_versions))
    &&& all_settled(lexemes_count(m.minor_versions))
}

pub proof fn lemma_concept_names_distinct()
    ensures
        concept_names().no_duplicates(),
        concept_names().len() == 15,
{
    reveal_strlit("Name");
    reveal_strlit("Definition");
    reveal_strlit("ReferenceDocumentRef");
    reveal_strlit("Description");
    reveal_strlit("Example");
    reveal_strlit("SimilarToRef");
    reveal_strlit("LanguageOfCreator");
    reveal_strlit("CountryOfOrigin");
    reveal_strlit("VisualRepresentation");
    reveal_strlit("MajorVersion");
    reveal_strlit("MinorVersion");
    reveal_strlit("Status");
    reveal_strlit("ReplacedObjectsRef");
    reveal_strlit("DeprecationExplanation");
    reveal_strlit("DictionaryRef");
    let n = concept_names();
    assert forall|i: int, j: int| 0 <= i < n.len() && 0 <= j < n.len() && i != j implies n[i] != n[j] by {
        if n[i] == n[j] {
            assert(n[i].len() == n[j].len());
            assert(n[i][0] == n[j][0]);
            assert(n[i][1] == n[j][1]);
            assert(n[i][2] == n[j][2]);
        }
    }
}

/// The concept's runs are its children from the first on, each named as
/// declared.
pub proof fn lemma_concept_runs(kids: Seq<Element>, m: ConceptModel)
    requires
        concept_layout(kids, m, 0),
    ensures
        ascending(concept_offsets(m)),
        concept_offsets(m).len() == 16,
        concept_offsets(m)[0] == 0,
        concept_offsets(m).last() == concept_len(m),
        concept_len(m) <= kids.len(),
        forall|k: int, i: int|
            0 <= k < 15 && concept_offsets(m)[k] <= i < concept_offsets(m)[k + 1] ==> #[trigger] is_dt(
                kids[i],
                concept_names()[k],
            ),
{
    let off = concept_offsets(m);
    let n = concept_names();
    lemma_texts_named(kids, off[0], n[0], m.names);
    lemma_texts_named(kids, off[1], n[1], m.definitions);
    lemma_refs_named(kids, off[2], n[2], m.reference_document_refs);
    lemma_texts_named(kids, off[3], n[3], m.descriptions);
    lemma_texts_named(kids, off[4], n[4], m.examples);
    lemma_refs_named(kids, off[5], n[5], m.similar_to_refs);
    lemma_simples_named(kids, off[6], n[6], lexemes_language(m.languages_of_creator));
    lemma_simples_named(kids, off[7], n[7], lexemes_string(m.countries_of_origin));
    lemma_simples_named(kids, off[8], n[8], lexemes_base64(m.visual_representations));
    lemma_simples_named(kids, off[9], n[9], lexemes_count(m.major_versions));
    lemma_simples_named(kids, off[10], n[10], lexemes_count(m.minor_versions));
    lemma_simples_named(kids, off[11], n[11], lexemes_string(m.statuses));
    lemma_refs_named(kids, off[12], n[12], m.replaced_objects_refs);
    lemma_simples_named(kids, off[13], n[13], lexemes_string(m.deprecation_explanations));
    lemma_refs_named(kids, off[14], n[14], m.dictionary_refs);
    assert(ascending(off));
}

/// Decoding the attributes the encoder writes for a concept gives them back.
pub proof fn lemma_concept_attributes_faithful(e: Element, m: ConceptModel, d: ConceptModel)
    requires
        concept_attributes(e.spec_attributes(), m),
        settled(m.date_of_creation@),
        m.about matches Some(a) ==> settled(a@),
        guid_attr(e) == Some(d.guid@),
        plain_attr(e, "dateOfCreation"@) matches Some(x) && d.date_of_creation@ == spec_collapse(x),
        match attribute_lookup(e.spec_attributes(), Some(NAMESPACE@), "about"@) {
            Some(a) => d.about matches Some(x) && x@ == spec_collapse(a),
            None => d.about is None,
        },
    ensures
        d.guid@ == m.guid@,
        d.date_of_creation@ == m.date_of_creation@,
        d.about is Some <==> m.about is Some,
        d.about is Some ==> d.about->0@ == m.about->0@,
{
    reveal_strlit("GUID");
    reveal_strlit("about");
    reveal_strlit("dateOfCreation");
    let attrs = e.spec_attributes();
    let rest = attrs.drop_first();
    let tail = rest.drop_first();
    if m.about is Some {
        assert(rest[0] == attrs[1] && rest[1] == attrs[2]);
        assert(tail[0] == attrs[2]);
        assert(attribute_lookup(attrs, Some(NAMESPACE@), "about"@) == Some(attrs[0].spec_value()));
        assert(attribute_lookup(attrs, Some(NAMESPACE@), "GUID"@) == attribute_lookup(rest, Some(NAMESPACE@), "GUID"@));
        assert(attribute_lookup(attrs, None, "dateOfCreation"@) == attribute_lookup(rest, None, "dateOfCreation"@));
        assert(attribute_lookup(rest, None, "dateOfCreation"@) == attribute_lookup(tail, None, "dateOfCreation"@));
    } else {
        assert(rest[0] == attrs[1]);
        assert(tail.len() == 0);
        assert(attribute_lookup(attrs, None, "dateOfCreation"@) == attribute_lookup(rest, None, "dateOfCreation"@));
        assert(attribute_lookup(attrs, Some(NAMESPACE@), "about"@) == attribute_lookup(rest, Some(NAMESPACE@), "about"@));
        assert(attribute_lookup(rest, Some(NAMESPACE@), "about"@) == attribute_lookup(tail, Some(NAMESPACE@), "about"@));
    }
}


/// The concept read from an element whose concept children the encoder
/// laid out, followed by children of other names, is the concept written.
pub proof fn lemma_concept_faithful(e: Element, m: ConceptModel, d: ConceptModel)
    requires
        concept_attributes(e.spec_attributes(), m),
        concept_layout(children_of(e), m, 0),
        concept_settled(m),
        concept_decodes(e, d),
        forall|k: int, i: int|
            0 <= k < 15 && concept_len(m) <= i < children_of(e).len() ==> !#[trigger] is_dt(
                children_of(e)[i],
                concept_names()[k],
            ),
    ensures
        concept_same(d, m),
{
    let kids = children_of(e);
    let off = concept_offsets(m);
    let n = concept_names();
    lemma_concept_runs(kids, m);
    lemma_concept_names_distinct();
    lemma_segments(kids, n, off);
    assert(dt_named(kids, n[0]) =~= kids.subrange(off[0], off[1]));
    assert(dt_named(kids, n[1]) =~= kids.subrange(off[1], off[2]));
    assert(dt_named(kids, n[2]) =~= kids.subrange(off[2], off[3]));
    assert(dt_named(kids, n[3]) =~= kids.subrange(off[3], off[4]));
    assert(dt_named(kids, n[4]) =~= kids.subrange(off[4], off[5]));
    assert(dt_named(kids, n[5]) =~= kids.subrange(off[5], off[6]));
    assert(dt_named(kids, n[6]) =~= kids.subrange(off[6], off[7]));
    assert(dt_named(kids, n[7]) =~= kids.subrange(off[7], off[8]));
    assert(dt_named(kids, n[8]) =~= kids.subrange(off[8], off[9]));
    assert(dt_named(kids, n[9]) =~= kids.subrange(off[9], off[10]));
    assert(dt_named(kids, n[10]) =~= kids.subrange(off[10], off[11]));
    assert(dt_named(kids, n[11]) =~= kids.subrange(off[11], off[12]));
    assert(dt_named(kids, n[12]) =~= kids.subrange(off[12], off[13]));
    assert(dt_named(kids, n[13]) =~= kids.subrange(off[13], off[14]));
    assert(dt_named(kids, n[14]) =~= kids.subrange(off[14], off[15]));
    lemma_texts_faithful(kids, off[0], n[0], m.names, d.names);
    lemma_texts_faithful(kids, off[1], n[1], m.definitions, d.definitions);
    lemma_refs_faithful(kids, off[2], n[2], m.reference_document_refs, d.reference_document_refs);
    lemma_texts_faithful(kids, off[3], n[3], m.descriptions, d.descriptions);
    lemma_texts_faithful(kids, off[4], n[4], m.examples, d.examples);
    lemma_refs_faithful(kids, off[5], n[5], m.similar_to_refs, d.similar_to_refs);
    lemma_simples_faithful(kids, off[6], n[6], lexemes_language(m.languages_of_creator));
    lemma_simples_faithful(kids, off[7], n[7], lexemes_string(m.countries_of_origin));
    lemma_simples_faithful(kids, off[8], n[8], lexemes_base64(m.visual_representations));
    lemma_simples_faithful(kids, off[9], n[9], lexemes_count(m.major_versions));
    lemma_simples_faithful(kids, off[10], n[10], lexemes_count(m.minor_versions));
    lemma_simples_faithful(kids, off[11], n[11], lexemes_string(m.statuses));
    lemma_refs_faithful(kids, off[12], n[12], m.replaced_objects_refs, d.replaced_objects_refs);
    lemma_simples_faithful(kids, off[13], n[13], lexemes_string(m.deprecation_explanations));
    lemma_refs_faithful(kids, off[14], n[14], m.dictionary_refs, d.dictionary_refs);
    lemma_concept_attributes_faithful(e, m, d);
}

/// A concept read back from the element [`Concept::to_element_named`]
/// writes has the same attributes and children, lexeme for lexeme.
pub proof fn lemma_concept_round_trip(e: Element, local: Seq<char>, m: ConceptModel, d: ConceptModel)
    requires
        concept_encoding(e, local, m),
        children_of(e).len() == concept_len(m),
        concept_settled(m),
        concept_decodes(e, d),
    ensures
        concept_same(d, m),
{
    lemma_concept_faithful(e, m, d);
}


/// The runs after a concept's, named `after`, are what `dt_named` finds for
/// those names, and none of their children carries a concept child's name.
pub proof fn lemma_all_runs(kids: Seq<Element>, m: ConceptModel, after: Seq<Seq<char>>, off_after: Seq<int>)
    requires
        concept_layout(kids, m, 0),
        off_after.len() == after.len() + 1,
        off_after[0] == concept_len(m),
        ascending(off_after),
        off_after.last() == kids.len(),
        forall|k: int, i: int|
            0 <= k < after.len() && off_after[k] <= i < off_after[k + 1] ==> #[trigger] is_dt(kids[i], after[k]),
        (concept_names() + after).no_duplicates(),
    ensures
        forall|k: int, i: int|
            0 <= k < 15 && concept_len(m) <= i < kids.len() ==> !#[trigger] is_dt(kids[i], concept_names()[k]),
        forall|k: int|
            0 <= k < after.len() ==> #[trigger] dt_named(kids, after[k]) =~= kids.subrange(off_after[k], off_after[k + 1]),
{
    lemma_concept_runs(kids, m);
    lemma_concept_names_distinct();
    let full = concept_names() + after;
    let off = concept_offsets(m) + off_after.drop_first();
    assert(off.len() == full.len() + 1);
    assert forall|a: int, b: int| 0 <= a <= b < off.len() implies off[a] <= off[b] by {
        if b < 16 {
            assert(off[a] == concept_offsets(m)[a] && off[b] == concept_offsets(m)[b]);
        } else if a < 16 {
            assert(off[a] == concept_offsets(m)[a]);
            assert(off[b] == off_after[b - 15]);
            assert(concept_offsets(m)[a] <= concept_offsets(m)[15]);
        } else {
            assert(off[a] == off_after[a - 15] && off[b] == off_after[b - 15]);
        }
    }
    assert forall|k: int, i: int| 0 <= k < full.len() && off[k] <= i < off[k + 1] implies #[trigger] is_dt(kids[i], full[k]) by {
        if k < 15 {
            assert(full[k] == concept_names()[k]);
            assert(off[k] == concept_offsets(m)[k] && off[k + 1] == concept_offsets(m)[k + 1]);
        } else {
            assert(full[k] == after[k - 15]);
            assert(off[k] == off_after[k - 15] && off[k + 1] == off_after[k - 14]);
        }
    }
    assert(off.last() == off_after.last());
    lemma_segments(kids, full, off);
    assert forall|k: int| 0 <= k < after.len() implies #[trigger] dt_named(kids, after[k]) =~= kids.subrange(
        off_after[k],
        off_after[k + 1],
    ) by {
        assert(full[15 + k] == after[k]);
        assert(off[15 + k] == off_after[k] && off[16 + k] == off_after[k + 1]);
    }
    assert forall|k: int, i: int| 0 <= k < 15 && concept_len(m) <= i < kids.len() implies !#[trigger] is_dt(
        kids[i],
        concept_names()[k],
    ) by {
        let j = lemma_find_segment(off_after, i);
        assert(is_dt(kids[i], after[j]));
        assert(full[15 + j] == after[j] && full[k] == concept_names()[k]);
        assert(full[15 + j] != full[k]);
    }
}


/// Two lists without repeats and without a common member concatenate to a
/// list without repeats.
pub proof fn lemma_concat_distinct(a: Seq<Seq<char>>, b: Seq<Seq<char>>)
    requires
        a.no_duplicates(),
        forall|i: int, j: int| 0 <= i < b.len() && 0 <= j < b.len() && i != j ==> b[i] != b[j],
        forall|i: int, j: int| 0 <= i < a.len() && 0 <= j < b.len() ==> a[i] != b[j],
    ensures
        (a + b).no_duplicates(),
{
    let c = a + b;
    assert forall|i: int, j: int| 0 <= i < c.len() && 0 <= j < c.len() && i != j implies c[i] != c[j] by {
        if i < a.len() && j < a.len() {
            assert(c[i] == a[i] && c[j] == a[j]);
        } else if i < a.len() {
            assert(c[i] == a[i] && c[j] == b[j - a.len()]);
        } else if j < a.len() {
            assert(c[i] == b[i - a.len()] && c[j] == a[j]);
        } else {
            assert(c[i] == b[i - a.len()] && c[j] == b[j - a.len()]);
        }
    }
}

/// The subject child names are distinct.
pub proof fn lemma_subject_names_distinct()
    ensures
        (concept_names() + seq!["HasPartRef"@, "IsSubtypeOfRef"@]).no_duplicates(),
{
    reveal_strlit("Name");
    reveal_strlit("Definition");
    reveal_strlit("ReferenceDocumentRef");
    reveal_strlit("Description");
    reveal_strlit("Example");
    reveal_strlit("SimilarToRef");
    reveal_strlit("LanguageOfCreator");
    reveal_strlit("CountryOfOrigin");
    reveal_strlit("VisualRepresentation");
    reveal_strlit("MajorVersion");
    reveal_strlit("MinorVersion");
    reveal_strlit("Status");
    reveal_strlit("ReplacedObjectsRef");
    reveal_strlit("DeprecationExplanation");
    reveal_strlit("DictionaryRef");
    reveal_strlit("HasPartRef");
    reveal_strlit("IsSubtypeOfRef");
    lemma_concept_names_distinct();
    let a = concept_names();
    let b = seq!["HasPartRef"@, "IsSubtypeOfRef"@];
    assert forall|i: int, j: int| 0 <= i < b.len() && 0 <= j < b.len() && i != j implies b[i] != b[j] by {
        if b[i] == b[j] {
            assert(b[i].len() == b[j].len());
            assert(b[i][0] == b[j][0]);
            assert(b[i][1] == b[j][1]);
            assert(b[i][2] == b[j][2]);
            if b[i].len() > 20 {
                assert(b[i][20] == b[j][20]);
            }
        }
    }
    assert forall|i: int, j: int| 0 <= i < a.len() && 0 <= j < b.len() implies a[i] != b[j] by {
        if a[i] == b[j] {
            assert(a[i].len() == b[j].len());
            assert(a[i][0] == b[j][0]);
            assert(a[i][1] == b[j][1]);
            assert(a[i][2] == b[j][2]);
        }
    }
    lemma_concat_distinct(a, b);
}

/// The group child names are distinct.
pub proof fn lemma_group_names_distinct()
    ensures
        (concept_names() + seq!["HasPartRef"@, "IsSubtypeOfRef"@, "HasPropertyRef"@]).no_duplicates(),
{
    reveal_strlit("Name");
    reveal_strlit("Definition");
    reveal_strlit("ReferenceDocumentRef");
    reveal_strlit("Description");
    reveal_strlit("Example");
    reveal_strlit("SimilarToRef");
    reveal_strlit("LanguageOfCreator");
    reveal_strlit("CountryOfOrigin");
    reveal_strlit("VisualRepresentation");
    reveal_strlit("MajorVersion");
    reveal_strlit("MinorVersion");
    reveal_strlit("Status");
    reveal_strlit("ReplacedObjectsRef");
    reveal_strlit("DeprecationExplanation");
    reveal_strlit("DictionaryRef");
    reveal_strlit("HasPartRef");
    reveal_strlit("IsSubtypeOfRef");
    reveal_strlit("HasPropertyRef");
    lemma_concept_names_distinct();
    let a = concept_names();
    let b = seq!["HasPartRef"@, "IsSubtypeOfRef"@, "HasPropertyRef"@];
    assert forall|i: int, j: int| 0 <= i < b.len() && 0 <= j < b.len() && i != j implies b[i] != b[j] by {
        if b[i] == b[j] {
            assert(b[i].len() == b[j].len());
            assert(b[i][0] == b[j][0]);
            assert(b[i][1] == b[j][1]);
            assert(b[i][2] == b[j][2]);
            if b[i].len() > 20 {
                assert(b[i][20] == b[j][20]);
            }
        }
    }
    assert forall|i: int, j: int| 0 <= i < a.len() && 0 <= j < b.len() implies a[i] != b[j] by {
        if a[i] == b[j] {
            assert(a[i].len() == b[j].len());
            assert(a[i][0] == b[j][0]);
            assert(a[i][1] == b[j][1]);
            assert(a[i][2] == b[j][2]);
        }
    }
    lemma_concat_distinct(a, b);
}

/// The template child names are distinct.
pub proof fn lemma_template_names_distinct()
    ensures
        (concept_names() + seq!["HasPartRef"@, "IsSubtypeOfRef"@, "HasObjectTypeRef"@, "HasPropertyRef"@, "HasGroupOfPropertiesRef"@]).no_duplicates(),
{
    reveal_strlit("Name");
    reveal_strlit("Definition");
    reveal_strlit("ReferenceDocumentRef");
    reveal_strlit("Description");
    reveal_strlit("Example");
    reveal_strlit("SimilarToRef");
    reveal_strlit("LanguageOfCreator");
    reveal_strlit("CountryOfOrigin");
    reveal_strlit("VisualRepresentation");
    reveal_strlit("MajorVersion");
    reveal_strlit("MinorVersion");
    reveal_strlit("Status");
    reveal_strlit("ReplacedObjectsRef");
    reveal_strlit("DeprecationExplanation");
    reveal_strlit("DictionaryRef");
    reveal_strlit("HasPartRef");
    reveal_strlit("IsSubtypeOfRef");
    reveal_strlit("HasObjectTypeRef");
    reveal_strlit("HasPropertyRef");
    reveal_strlit("HasGroupOfPropertiesRef");
    lemma_concept_names_distinct();
    let a = concept_names();
    let b = seq!["HasPartRef"@, "IsSubtypeOfRef"@, "HasObjectTypeRef"@, "HasPropertyRef"@, "HasGroupOfPropertiesRef"@];
    assert forall|i: int, j: int| 0 <= i < b.len() && 0 <= j < b.len() && i != j implies b[i] != b[j] by {
        if b[i] == b[j] {
            assert(b[i].len() == b[j].len());
            assert(b[i][0] == b[j][0]);
            assert(b[i][1] == b[j][1]);
            assert(b[i][2] == b[j][2]);
            if b[i].len() > 20 {
                assert(b[i][20] == b[j][20]);
            }
        }
    }
    assert forall|i: int, j: int| 0 <= i < a.len() && 0 <= j < b.len() implies a[i] != b[j] by {
        if a[i] == b[j] {
            assert(a[i].len() == b[j].len());
            assert(a[i][0] == b[j][0]);
            assert(a[i][1] == b[j][1]);
            assert(a[i][2] == b[j][2]);
        }
    }
    lemma_concat_distinct(a, b);
}

/// The quantity-kind child names are distinct.
pub proof fn lemma_quantity_kind_names_distinct()
    ensures
        (concept_names() + seq!["DimensionRef"@]).no_duplicates(),
{
    reveal_strlit("Name");
    reveal_strlit("Definition");
    reveal_strlit("ReferenceDocumentRef");
    reveal_strlit("Description");
    reveal_strlit("Example");
    reveal_strlit("SimilarToRef");
    reveal_strlit("LanguageOfCreator");
    reveal_strlit("CountryOfOrigin");
    reveal_strlit("VisualRepresentation");
    reveal_strlit("MajorVersion");
    reveal_strlit("MinorVersion");
    reveal_strlit("Status");
    reveal_strlit("ReplacedObjectsRef");
    reveal_strlit("DeprecationExplanation");
    reveal_strlit("DictionaryRef");
    reveal_strlit("DimensionRef");
    lemma_concept_names_distinct();
    let a = concept_names();
    let b = seq!["DimensionRef"@];
    assert forall|i: int, j: int| 0 <= i < b.len() && 0 <= j < b.len() && i != j implies b[i] != b[j] by {
        if b[i] == b[j] {
            assert(b[i].len() == b[j].len());
            assert(b[i][0] == b[j][0]);
            assert(b[i][1] == b[j][1]);
            assert(b[i][2] == b[j][2]);
            if b[i].len() > 20 {
                assert(b[i][20] == b[j][20]);
            }
        }
    }
    assert forall|i: int, j: int| 0 <= i < a.len() && 0 <= j < b.len() implies a[i] != b[j] by {
        if a[i] == b[j] {
            assert(a[i].len() == b[j].len());
            assert(a[i][0] == b[j][0]);
            assert(a[i][1] == b[j][1]);
            assert(a[i][2] == b[j][2]);
        }
    }
    lemma_concat_distinct(a, b);
}

/// The dimension child names are distinct.
pub proof fn lemma_dimension_names_distinct()
    ensures
        (concept_names() + seq!["DimensionExponentForAmountOfSubstance"@, "DimensionExponentForElectricCurrent"@, "DimensionExponentForLength"@, "DimensionExponentForLuminousIntensity"@, "DimensionExponentForMass"@, "DimensionExponentForThermodynamicTemperature"@, "DimensionExponentForTime"@]).no_duplicates(),
{
    reveal_strlit("Name");
    reveal_strlit("Definition");
    reveal_strlit("ReferenceDocumentRef");
    reveal_strlit("Description");
    reveal_strlit("Example");
    reveal_strlit("SimilarToRef");
    reveal_strlit("LanguageOfCreator");
    reveal_strlit("CountryOfOrigin");
    reveal_strlit("VisualRepresentation");
    reveal_strlit("MajorVersion");
    reveal_strlit("MinorVersion");
    reveal_strlit("Status");
    reveal_strlit("ReplacedObjectsRef");
    reveal_strlit("DeprecationExplanation");
    reveal_strlit("DictionaryRef");
    reveal_strlit("DimensionExponentForAmountOfSubstance");
    reveal_strlit("DimensionExponentForElectricCurrent");
    reveal_strlit("DimensionExponentForLength");
    reveal_strlit("DimensionExponentForLuminousIntensity");
    reveal_strlit("DimensionExponentForMass");
    reveal_strlit("DimensionExponentForThermodynamicTemperature");
    reveal_strlit("DimensionExponentForTime");
    lemma_concept_names_distinct();
    let a = concept_names();
    let b = seq!["DimensionExponentForAmountOfSubstance"@, "DimensionExponentForElectricCurrent"@, "DimensionExponentForLength"@, "DimensionExponentForLuminousIntensity"@, "DimensionExponentForMass"@, "DimensionExponentForThermodynamicTemperature"@, "DimensionExponentForTime"@];
    assert forall|i: int, j: int| 0 <= i < b.len() && 0 <= j < b.len() && i != j implies b[i] != b[j] by {
        if b[i] == b[j] {
            assert(b[i].len() == b[j].len());
            assert(b[i][0] == b[j][0]);
            assert(b[i][1] == b[j][1]);
            assert(b[i][2] == b[j][2]);
            if b[i].len() > 20 {
                assert(b[i][20] == b[j][20]);
            }
        }
    }
    assert forall|i: int, j: int| 0 <= i < a.len() && 0 <= j < b.len() implies a[i] != b[j] by {
        if a[i] == b[j] {
            assert(a[i].len() == b[j].len());
            assert(a[i][0] == b[j][0]);
            assert(a[i][1] == b[j][1]);
            assert(a[i][2] == b[j][2]);
        }
    }
    lemma_concat_distinct(a, b);
}

/// The unit child names are distinct.
pub proof fn lemma_unit_names_distinct()
    ensures
        (concept_names() + seq!["Symbol"@, "DimensionRef"@, "Scale"@, "Base"@, "Coefficient"@, "Offset"@]).no_duplicates(),
{
    reveal_strlit("Name");
    reveal_strlit("Definition");
    reveal_strlit("ReferenceDocumentRef");
    reveal_strlit("Description");
    reveal_strlit("Example");
    reveal_strlit("SimilarToRef");
    reveal_strlit("LanguageOfCreator");
    reveal_strlit("CountryOfOrigin");
    reveal_strlit("VisualRepresentation");
    reveal_strlit("MajorVersion");
    reveal_strlit("MinorVersion");
    reveal_strlit("Status");
    reveal_strlit("ReplacedObjectsRef");
    reveal_strlit("DeprecationExplanation");
    reveal_strlit("DictionaryRef");
    reveal_strlit("Symbol");
    reveal_strlit("DimensionRef");
    reveal_strlit("Scale");
    reveal_strlit("Base");
    reveal_strlit("Coefficient");
    reveal_strlit("Offset");
    lemma_concept_names_distinct();
    let a = concept_names();
    let b = seq!["Symbol"@, "DimensionRef"@, "Scale"@, "Base"@, "Coefficient"@, "Offset"@];
    assert forall|i: int, j: int| 0 <= i < b.len() && 0 <= j < b.len() && i != j implies b[i] != b[j] by {
        if b[i] == b[j] {
            assert(b[i].len() == b[j].len());
            assert(b[i][0] == b[j][0]);
            assert(b[i][1] == b[j][1]);
            assert(b[i][2] == b[j][2]);
            if b[i].len() > 20 {
                assert(b[i][20] == b[j][20]);
            }
        }
    }
    assert forall|i: int, j: int| 0 <= i < a.len() && 0 <= j < b.len() implies a[i] != b[j] by {
        if a[i] == b[j] {
            assert(a[i].len() == b[j].len());
            assert(a[i][0] == b[j][0]);
            assert(a[i][1] == b[j][1]);
            assert(a[i][2] == b[j][2]);
        }
    }
    lemma_concat_distinct(a, b);
}

/// The reference-document child names are distinct.
pub proof fn lemma_reference_document_names_distinct()
    ensures
        (concept_names() + seq!["DateOfPublication"@, "Author"@, "ISBN"@, "Language"@, "Publisher"@, "URI"@]).no_duplicates(),
{
    reveal_strlit("Name");
    reveal_strlit("Definition");
    reveal_strlit("ReferenceDocumentRef");
    reveal_strlit("Description");
    reveal_strlit("Example");
    reveal_strlit("SimilarToRef");
    reveal_strlit("LanguageOfCreator");
    reveal_strlit("CountryOfOrigin");
    reveal_strlit("VisualRepresentation");
    reveal_strlit("MajorVersion");
    reveal_strlit("MinorVersion");
    reveal_strlit("Status");
    reveal_strlit("ReplacedObjectsRef");
    reveal_strlit("DeprecationExplanation");
    reveal_strlit("DictionaryRef");
    reveal_strlit("DateOfPublication");
    reveal_strlit("Author");
    reveal_strlit("ISBN");
    reveal_strlit("Language");
    reveal_strlit("Publisher");
    reveal_strlit("URI");
    lemma_concept_names_distinct();
    let a = concept_names();
    let b = seq!["DateOfPublication"@, "Author"@, "ISBN"@, "Language"@, "Publisher"@, "URI"@];
    assert forall|i: int, j: int| 0 <= i < b.len() && 0 <= j < b.len() && i != j implies b[i] != b[j] by {
        if b[i] == b[j] {
            assert(b[i].len() == b[j].len());
            assert(b[i][0] == b[j][0]);
            assert(b[i][1] == b[j][1]);
            assert(b[i][2] == b[j][2]);
            if b[i].len() > 20 {
                assert(b[i][20] == b[j][20]);
            }
        }
    }
    assert forall|i: int, j: int| 0 <= i < a.len() && 0 <= j < b.len() implies a[i] != b[j] by {
        if a[i] == b[j] {
            assert(a[i].len() == b[j].len());
            assert(a[i][0] == b[j][0]);
            assert(a[i][1] == b[j][1]);
            assert(a[i][2] == b[j][2]);
        }
    }
    lemma_concat_distinct(a, b);
}

/// The property child names are distinct.
pub proof fn lemma_property_names_distinct()
    ensures
        (concept_names() + seq!["DataType"@, "Symbol"@, "DimensionRef"@, "UnitRef"@, "QuantityKindRef"@, "IsDependentOnRef"@, "IsSpecializationOfRef"@]).no_duplicates(),
{
    reveal_strlit("Name");
    reveal_strlit("Definition");
    reveal_strlit("ReferenceDocumentRef");
    reveal_strlit("Description");
    reveal_strlit("Example");
    reveal_strlit("SimilarToRef");
    reveal_strlit("LanguageOfCreator");
    reveal_strlit("CountryOfOrigin");
    reveal_strlit("VisualRepresentation");
    reveal_strlit("MajorVersion");
    reveal_strlit("MinorVersion");
    reveal_strlit("Status");
    reveal_strlit("ReplacedObjectsRef");
    reveal_strlit("DeprecationExplanation");
    reveal_strlit("DictionaryRef");
    reveal_strlit("DataType");
    reveal_strlit("Symbol");
    reveal_strlit("DimensionRef");
    reveal_strlit("UnitRef");
    reveal_strlit("QuantityKindRef");
    reveal_strlit("IsDependentOnRef");
    reveal_strlit("IsSpecializationOfRef");
    lemma_concept_names_distinct();
    let a = concept_names();
    let b = seq!["DataType"@, "Symbol"@, "DimensionRef"@, "UnitRef"@, "QuantityKindRef"@, "IsDependentOnRef"@, "IsSpecializationOfRef"@];
    assert forall|i: int, j: int| 0 <= i < b.len() && 0 <= j < b.len() && i != j implies b[i] != b[j] by {
        if b[i] == b[j] {
            assert(b[i].len() == b[j].len());
            assert(b[i][0] == b[j][0]);
            assert(b[i][1] == b[j][1]);
            assert(b[i][2] == b[j][2]);
            if b[i].len() > 20 {
                assert(b[i][20] == b[j][20]);
            }
        }
    }
    assert forall|i: int, j: int| 0 <= i < a.len() && 0 <= j < b.len() implies a[i] != b[j] by {
        if a[i] == b[j] {
            assert(a[i].len() == b[j].len());
            assert(a[i][0] == b[j][0]);
            assert(a[i][1] == b[j][1]);
            assert(a[i][2] == b[j][2]);
        }
    }
    lemma_concat_distinct(a, b);
}


// ---------------------------------------------------------------------------
// Subjects, object types, groups, data templates, quantity kinds
// ---------------------------------------------------------------------------

pub open spec fn subject_same(a: SubjectModel, b: SubjectModel) -> bool {
    &&& concept_same(a.concept@, b.concept@)
    &&& refs_same(a.has_part_refs, b.has_part_refs)
    &&& refs_same(a.is_subtype_of_refs, b.is_subtype_of_refs)
}

pub open spec fn subject_settled(m: SubjectModel) -> bool {
    concept_settled(m.concept@) && refs_settled(m.has_part_refs) && refs_settled(m.is_subtype_of_refs)
}

/// The subject part of an element laid out by the encoder, with `after`
/// naming the runs past the concept's and `off_after` where they lie.
proof fn lemma_subject_part(e: Element, m: SubjectModel, d: SubjectModel, after: Seq<Seq<char>>, off_after: Seq<int>)
    requires
        concept_attributes(e.spec_attributes(), m.concept@),
        subject_layout(children_of(e), m),
        subject_settled(m),
        subject_decodes(e, d),
        after.len() >= 2,
        after[0] == "HasPartRef"@,
        after[1] == "IsSubtypeOfRef"@,
        off_after.len() == after.len() + 1,
        off_after[0] == concept_len(m.concept@),
        off_after[1] == concept_len(m.concept@) + m.has_part_refs.len(),
        off_after[2] == concept_len(m.concept@) + m.has_part_refs.len() + m.is_subtype_of_refs.len(),
        ascending(off_after),
        off_after.last() == children_of(e).len(),
        forall|k: int, i: int|
            0 <= k < after.len() && off_after[k] <= i < off_after[k + 1] ==> #[trigger] is_dt(children_of(e)[i], after[k]),
        (concept_names() + after).no_duplicates(),
    ensures
        subject_same(d, m),
        forall|k: int|
            0 <= k < after.len() ==> #[trigger] dt_named(children_of(e), after[k]) =~= children_of(e).subrange(
                off_after[k],
                off_after[k + 1],
            ),
{
    let kids = children_of(e);
    lemma_all_runs(kids, m.concept@, after, off_after);
    lemma_concept_faithful(e, m.concept@, d.concept@);
    assert(dt_named(kids, after[0]) =~= kids.subrange(off_after[0], off_after[1]));
    assert(dt_named(kids, after[1]) =~= kids.subrange(off_after[1], off_after[2]));
    lemma_refs_faithful(kids, off_after[0], after[0], m.has_part_refs, d.has_part_refs);
    lemma_refs_faithful(kids, off_after[1], after[1], m.is_subtype_of_refs, d.is_subtype_of_refs);
}

/// A subject, or an object type, read back from the element the encoder
/// writes for it has the same attributes and children, lexeme for lexeme.
pub proof fn lemma_subject_round_trip(e: Element, local: Seq<char>, m: SubjectModel, d: SubjectModel)
    requires
        subject_encoding(e, local, m, 0),
        subject_settled(m),
        subject_decodes(e, d),
    ensures
        subject_same(d, m),
{
    let kids = children_of(e);
    let c = concept_len(m.concept@);
    let h = m.has_part_refs.len() as int;
    let t = m.is_subtype_of_refs.len() as int;
    let after = seq!["HasPartRef"@, "IsSubtypeOfRef"@];
    let off_after = seq![c, c + h, c + h + t];
    lemma_subject_names_distinct();
    lemma_refs_named(kids, c, after[0], m.has_part_refs);
    lemma_refs_named(kids, c + h, after[1], m.is_subtype_of_refs);
    lemma_subject_part(e, m, d, after, off_after);
}

pub open spec fn group_same(a: GroupOfPropertiesModel, b: GroupOfPropertiesModel) -> bool {
    subject_same(a.subject@, b.subject@) && refs_same(a.property_refs, b.property_refs)
}

pub open spec fn group_settled(m: GroupOfPropertiesModel) -> bool {
    subject_settled(m.subject@) && refs_settled(m.property_refs)
}

/// A group of properties read back from the element the encoder writes
/// for it has the same attributes and children, lexeme for lexeme.
pub proof fn lemma_group_round_trip(e: Element, m: GroupOfPropertiesModel, d: GroupOfPropertiesModel)
    requires
        subject_encoding(e, "GroupOfProperties"@, m.subject@, m.property_refs.len() as int),
        refs_at(children_of(e), subject_len(m.subject@), "HasPropertyRef"@, m.property_refs),
        group_settled(m),
        subject_decodes(e, d.subject@),
        refs_decode(dt_named(children_of(e), "HasPropertyRef"@), d.property_refs),
    ensures
        group_same(d, m),
{
    let kids = children_of(e);
    let s = m.subject@;
    let c = concept_len(s.concept@);
    let h = s.has_part_refs.len() as int;
    let t = s.is_subtype_of_refs.len() as int;
    let p = m.property_refs.len() as int;
    let after = seq!["HasPartRef"@, "IsSubtypeOfRef"@, "HasPropertyRef"@];
    let off_after = seq![c, c + h, c + h + t, c + h + t + p];
    lemma_group_names_distinct();
    lemma_refs_named(kids, c, after[0], s.has_part_refs);
    lemma_refs_named(kids, c + h, after[1], s.is_subtype_of_refs);
    lemma_refs_named(kids, c + h + t, after[2], m.property_refs);
    lemma_subject_part(e, s, d.subject@, after, off_after);
    assert(dt_named(kids, after[2]) =~= kids.subrange(off_after[2], off_after[3]));
    lemma_refs_faithful(kids, c + h + t, after[2], m.property_refs, d.property_refs);
}

pub open spec fn template_same(a: DataTemplateModel, b: DataTemplateModel) -> bool {
    &&& subject_same(a.subject@, b.subject@)
    &&& refs_same(a.object_type_refs, b.object_type_refs)
    &&& refs_same(a.property_refs, b.property_refs)
    &&& refs_same(a.group_of_properties_refs, b.group_of_properties_refs)
}

pub open spec fn template_settled(m: DataTemplateModel) -> bool {
    &&& subject_settled(m.subject@)
    &&& refs_settled(m.object_type_refs) && refs_settled(m.property_refs)
    &&& refs_settled(m.group_of_properties_refs)
}

/// A data template read back from the element the encoder writes for it
/// has the same attributes and children, lexeme for lexeme.
pub proof fn lemma_template_round_trip(e: Element, m: DataTemplateModel, d: DataTemplateModel)
    requires
        ({
            let s = subject_len(m.subject@);
            let o = m.object_type_refs.len() as int;
            let p = m.property_refs.len() as int;
            &&& subject_encoding(e, "DataTemplate"@, m.subject@, o + p + m.group_of_properties_refs.len())
            &&& refs_at(children_of(e), s, "HasObjectTypeRef"@, m.object_type_refs)
            &&& refs_at(children_of(e), s + o, "HasPropertyRef"@, m.property_refs)
            &&& refs_at(children_of(e), s + o + p, "HasGroupOfPropertiesRef"@, m.group_of_properties_refs)
        }),
        template_settled(m),
        template_decodes(e, d),
    ensures
        template_same(d, m),
{
    let kids = children_of(e);
    let s = m.subject@;
    let c = concept_len(s.concept@);
    let h = s.has_part_refs.len() as int;
    let t = s.is_subtype_of_refs.len() as int;
    let o = m.object_type_refs.len() as int;
    let p = m.property_refs.len() as int;
    let g = m.group_of_properties_refs.len() as int;
    let after = seq!["HasPartRef"@, "IsSubtypeOfRef"@, "HasObjectTypeRef"@, "HasPropertyRef"@, "HasGroupOfPropertiesRef"@];
    let off_after = seq![c, c + h, c + h + t, c + h + t + o, c + h + t + o + p, c + h + t + o + p + g];
    lemma_template_names_distinct();
    lemma_refs_named(kids, c, after[0], s.has_part_refs);
    lemma_refs_named(kids, c + h, after[1], s.is_subtype_of_refs);
    lemma_refs_named(kids, c + h + t, after[2], m.object_type_refs);
    lemma_refs_named(kids, c + h + t + o, after[3], m.property_refs);
    lemma_refs_named(kids, c + h + t + o + p, after[4], m.group_of_properties_refs);
    lemma_subject_part(e, s, d.subject@, after, off_after);
    assert(dt_named(kids, after[2]) =~= kids.subrange(off_after[2], off_after[3]));
    assert(dt_named(kids, after[3]) =~= kids.subrange(off_after[3], off_after[4]));
    assert(dt_named(kids, after[4]) =~= kids.subrange(off_after[4], off_after[5]));
    lemma_refs_faithful(kids, off_after[2], after[2], m.object_type_refs, d.object_type_refs);
    lemma_refs_faithful(kids, off_after[3], after[3], m.property_refs, d.property_refs);
    lemma_refs_faithful(kids, off_after[4], after[4], m.group_of_properties_refs, d.group_of_properties_refs);
}

pub open spec fn quantity_kind_same(a: QuantityKindModel, b: QuantityKindModel) -> bool {
    concept_same(a.concept@, b.concept@) && ref_same(a.dimension_ref, b.dimension_ref)
}

pub open spec fn quantity_kind_settled(m: QuantityKindModel) -> bool {
    concept_settled(m.concept@) && ref_settled(m.dimension_ref)
}

/// A quantity kind read back from the element the encoder writes for it
/// has the same attributes and children, lexeme for lexeme.
pub proof fn lemma_quantity_kind_round_trip(e: Element, m: QuantityKindModel, d: QuantityKindModel)
    requires
        concept_encoding(e, "QuantityKind"@, m.concept@),
        children_of(e).len() == concept_len(m.concept@) + 1,
        reference_encoding(children_of(e)[concept_len(m.concept@)], "DimensionRef"@, m.dimension_ref),
        quantity_kind_settled(m),
        quantity_kind_decodes(e, d),
    ensures
        quantity_kind_same(d, m),
{
    let kids = children_of(e);
    let c = concept_len(m.concept@);
    let after = seq!["DimensionRef"@];
    let off_after = seq![c, c + 1];
    lemma_quantity_kind_names_distinct();
    lemma_all_runs(kids, m.concept@, after, off_after);
    lemma_concept_faithful(e, m.concept@, d.concept@);
    assert(dt_named(kids, after[0]) =~= kids.subrange(c, c + 1));
    assert(kids.subrange(c, c + 1)[0] == kids[c]);
    lemma_ref_faithful(kids[c], after[0], m.dimension_ref, d.dimension_ref);
}


// ---------------------------------------------------------------------------
// Dimensions, units, reference documents
// ---------------------------------------------------------------------------

pub open spec fn dimension_same(a: DimensionModel, b: DimensionModel) -> bool {
    &&& concept_same(a.concept@, b.concept@)
    &&& a.exponents.len() == b.exponents.len()
    &&& forall|i: int| 0 <= i < a.exponents.len() ==> (#[trigger] a.exponents[i])@ == b.exponents[i]@
}

pub open spec fn dimension_settled(m: DimensionModel) -> bool {
    &&& concept_settled(m.concept@)
    &&& m.exponents.len() == 7
    &&& forall|i: int| 0 <= i < 7 ==> settled((#[trigger] m.exponents[i])@)
}

pub open spec fn exponent_names() -> Seq<Seq<char>> {
    seq![
        "DimensionExponentForAmountOfSubstance"@,
        "DimensionExponentForElectricCurrent"@,
        "DimensionExponentForLength"@,
        "DimensionExponentForLuminousIntensity"@,
        "DimensionExponentForMass"@,
        "DimensionExponentForThermodynamicTemperature"@,
        "DimensionExponentForTime"@,
    ]
}

/// A dimension read back from the element the encoder writes for it has
/// the same attributes and children, lexeme for lexeme.
pub proof fn lemma_dimension_round_trip(e: Element, m: DimensionModel, d: DimensionModel)
    requires
        concept_encoding(e, "Dimension"@, m.concept@),
        children_of(e).len() == concept_len(m.concept@) + 7,
        forall|i: int|
            0 <= i < 7 ==> simple_encoding(
                #[trigger] children_of(e)[concept_len(m.concept@) + i],
                exponent_name(i),
                m.exponents[i]@,
            ),
        dimension_settled(m),
        dimension_decodes(e, d),
    ensures
        dimension_same(d, m),
{
    let kids = children_of(e);
    let c = concept_len(m.concept@);
    let after = exponent_names();
    let off_after = seq![c, c + 1, c + 2, c + 3, c + 4, c + 5, c + 6, c + 7];
    lemma_dimension_names_distinct();
    assert forall|k: int| 0 <= k < 7 implies #[trigger] after[k] == exponent_name(k) by {}
    assert forall|k: int, i: int| 0 <= k < after.len() && off_after[k] <= i < off_after[k + 1] implies #[trigger] is_dt(
        kids[i],
        after[k],
    ) by {
        assert(i == c + k);
        assert(simple_encoding(kids[c + k], exponent_name(k), m.exponents[k]@));
    }
    lemma_all_runs(kids, m.concept@, after, off_after);
    lemma_concept_faithful(e, m.concept@, d.concept@);
    assert forall|i: int| 0 <= i < 7 implies (#[trigger] d.exponents[i])@ == m.exponents[i]@ by {
        assert(dt_named(kids, after[i]) =~= kids.subrange(off_after[i], off_after[i + 1]));
        assert(kids.subrange(c + i, c + i + 1)[0] == kids[c + i]);
        assert(simple_encoding(kids[c + i], exponent_name(i), m.exponents[i]@));
        assert(settled(m.exponents[i]@));
    }
}

pub open spec fn unit_same(a: UnitModel, b: UnitModel) -> bool {
    &&& concept_same(a.concept@, b.concept@)
    &&& texts_same(a.symbols, b.symbols)
    &&& ref_same(a.dimension_ref, b.dimension_ref)
    &&& crate::value::scale_str(a.scale) == crate::value::scale_str(b.scale)
    &&& crate::value::base_str(a.base) == crate::value::base_str(b.base)
    &&& a.coefficient@ == b.coefficient@
    &&& a.offset@ == b.offset@
}

pub open spec fn unit_settled(m: UnitModel) -> bool {
    concept_settled(m.concept@) && ref_settled(m.dimension_ref)
}

/// A unit read back from the element the encoder writes for it has the
/// same attributes and children, lexeme for lexeme.
pub proof fn lemma_unit_round_trip(e: Element, m: UnitModel, d: UnitModel)
    requires
        concept_encoding(e, "Unit"@, m.concept@),
        unit_layout(children_of(e), m),
        children_of(e).len() == concept_len(m.concept@) + m.symbols.len() + 5,
        unit_settled(m),
        unit_decodes(e, d),
    ensures
        unit_same(d, m),
{
    let kids = children_of(e);
    let c = concept_len(m.concept@);
    let n = m.symbols.len() as int;
    let after = seq!["Symbol"@, "DimensionRef"@, "Scale"@, "Base"@, "Coefficient"@, "Offset"@];
    let off_after = seq![c, c + n, c + n + 1, c + n + 2, c + n + 3, c + n + 4, c + n + 5];
    lemma_unit_names_distinct();
    lemma_texts_named(kids, c, after[0], m.symbols);
    lemma_all_runs(kids, m.concept@, after, off_after);
    lemma_concept_faithful(e, m.concept@, d.concept@);
    assert(dt_named(kids, after[0]) =~= kids.subrange(c, c + n));
    lemma_texts_faithful(kids, c, after[0], m.symbols, d.symbols);
    assert(dt_named(kids, after[1]) =~= kids.subrange(c + n, c + n + 1));
    assert(kids.subrange(c + n, c + n + 1)[0] == kids[c + n]);
    lemma_ref_faithful(kids[c + n], after[1], m.dimension_ref, d.dimension_ref);
    assert(dt_named(kids, after[2]) =~= kids.subrange(c + n + 1, c + n + 2));
    assert(kids.subrange(c + n + 1, c + n + 2)[0] == kids[c + n + 1]);
    assert(dt_named(kids, after[3]) =~= kids.subrange(c + n + 2, c + n + 3));
    assert(kids.subrange(c + n + 2, c + n + 3)[0] == kids[c + n + 2]);
    assert(dt_named(kids, after[4]) =~= kids.subrange(c + n + 3, c + n + 4));
    assert(kids.subrange(c + n + 3, c + n + 4)[0] == kids[c + n + 3]);
    assert(dt_named(kids, after[5]) =~= kids.subrange(c + n + 4, c + n + 5));
    assert(kids.subrange(c + n + 4, c + n + 5)[0] == kids[c + n + 4]);
}

pub open spec fn reference_document_same(a: ReferenceDocumentModel, b: ReferenceDocumentModel) -> bool {
    &&& concept_same(a.concept@, b.concept@)
    &&& lexemes_language(a.languages) == lexemes_language(b.languages)
    &&& opt_view_of(a.date_of_publication) == opt_view_of(b.date_of_publication)
    &&& opt_view_of(a.author) == opt_view_of(b.author)
    &&& opt_view_of(a.isbn) == opt_view_of(b.isbn)
    &&& opt_view_of(a.publisher) == opt_view_of(b.publisher)
    &&& opt_view_of(a.uri) == opt_view_of(b.uri)
}

pub open spec fn reference_document_settled(m: ReferenceDocumentModel) -> bool {
    &&& concept_settled(m.concept@)
    &&& all_settled(lexemes_language(m.languages))
    &&& (m.date_of_publication matches Some(x) ==> settled(x@))
    &&& (m.uri matches Some(x) ==> settled(x@))
}

/// A reference document read back from the element the encoder writes for
/// it has the same attributes and children, lexeme for lexeme.
pub proof fn lemma_reference_document_round_trip(e: Element, m: ReferenceDocumentModel, d: ReferenceDocumentModel)
    requires
        concept_encoding(e, "ReferenceDocument"@, m.concept@),
        reference_document_layout(children_of(e), m),
        children_of(e).len() == reference_document_len(m),
        reference_document_settled(m),
        reference_document_decodes(e, d),
    ensures
        reference_document_same(d, m),
{
    let kids = children_of(e);
    let c = concept_len(m.concept@);
    let o1 = c + opt_text(m.date_of_publication).len();
    let o2 = o1 + opt_text(m.author).len();
    let o3 = o2 + opt_text(m.isbn).len();
    let o4 = o3 + m.languages.len();
    let o5 = o4 + opt_text(m.publisher).len();
    let o6 = o5 + opt_text(m.uri).len();
    let after = seq!["DateOfPublication"@, "Author"@, "ISBN"@, "Language"@, "Publisher"@, "URI"@];
    let off_after = seq![c, o1, o2, o3, o4, o5, o6];
    lemma_reference_document_names_distinct();
    lemma_simples_named(kids, c, after[0], opt_text(m.date_of_publication));
    lemma_simples_named(kids, o1, after[1], opt_text(m.author));
    lemma_simples_named(kids, o2, after[2], opt_text(m.isbn));
    lemma_simples_named(kids, o3, after[3], lexemes_language(m.languages));
    lemma_simples_named(kids, o4, after[4], opt_text(m.publisher));
    lemma_simples_named(kids, o5, after[5], opt_text(m.uri));
    lemma_all_runs(kids, m.concept@, after, off_after);
    lemma_concept_faithful(e, m.concept@, d.concept@);
    assert(dt_named(kids, after[0]) =~= kids.subrange(c, o1));
    assert(dt_named(kids, after[1]) =~= kids.subrange(o1, o2));
    assert(dt_named(kids, after[2]) =~= kids.subrange(o2, o3));
    assert(dt_named(kids, after[3]) =~= kids.subrange(o3, o4));
    assert(dt_named(kids, after[4]) =~= kids.subrange(o4, o5));
    assert(dt_named(kids, after[5]) =~= kids.subrange(o5, o6));
    lemma_simples_faithful(kids, c, after[0], opt_text(m.date_of_publication));
    lemma_simples_faithful(kids, o1, after[1], opt_text(m.author));
    lemma_simples_faithful(kids, o2, after[2], opt_text(m.isbn));
    lemma_simples_faithful(kids, o3, after[3], lexemes_language(m.languages));
    lemma_simples_faithful(kids, o4, after[4], opt_text(m.publisher));
    lemma_simples_faithful(kids, o5, after[5], opt_text(m.uri));
}


// ---------------------------------------------------------------------------
// Data types and properties
// ---------------------------------------------------------------------------

/// The decimal digits of a number read back as that number.
pub proof fn lemma_decimal_text(n: nat)
    ensures
        decimal_text(n).len() >= 1,
        all_digits(decimal_text(n)),
        digits_value(decimal_text(n)) == n,
    decreases n,
{
    let s = decimal_text(n);
    if n < 10 {
        assert(s.drop_last() =~= Seq::<char>::empty());
        assert(is_digit(s[0]));
        assert(s.last() as int - '0' as int == n);
        assert(digits_value(Seq::<char>::empty()) == 0);
    } else {
        lemma_decimal_text(n / 10);
        let p = decimal_text(n / 10);
        assert(s.drop_last() =~= p);
        vstd::arithmetic::div_mod::lemma_fundamental_div_mod(n as int, 10);
        assert(s.last() as int - '0' as int == n % 10);
        assert forall|i: int| 0 <= i < s.len() implies is_digit(#[trigger] s[i]) by {
            if i < p.len() {
                assert(s[i] == p[i]);
            }
        }
    }
}

/// A sequence whose ends are not white space is its own trimmed form.
pub proof fn lemma_trimmed_plain(s: Seq<char>)
    requires
        s.len() > 0,
        !is_white_space(s[0]),
        !is_white_space(s.last()),
    ensures
        trimmed(s) == s,
{
    assert(first_kept(s, 0) == 0);
    assert(last_kept(s, s.len() as int) == s.len());
    assert(s.subrange(0, s.len() as int) =~= s);
}

/// A written order reads back as itself.
pub proof fn lemma_int_text(o: i32)
    ensures
        int_lexeme(trimmed(int_text(o))) == Some(o),
{
    let s = int_text(o);
    if o < 0 {
        let k = (-o) as nat;
        lemma_decimal_text(k);
        let d = decimal_text(k);
        assert(s.drop_first() =~= d);
        assert(is_digit(d[0]) && is_digit(d.last()));
        assert(s.last() == d.last());
        lemma_trimmed_plain(s);
    } else {
        lemma_decimal_text(o as nat);
        assert(is_digit(s[0]) && is_digit(s.last()));
        lemma_trimmed_plain(s);
    }
}

/// The bound children of a data type are its leading constraint-named
/// children.
pub proof fn lemma_constraint_run(kids: Seq<Element>, c: int)
    requires
        0 <= c <= kids.len(),
        forall|i: int| 0 <= i < c ==> in_dt(#[trigger] kids[i]) && is_constraint_name(kids[i].spec_local_name()),
        forall|i: int| c <= i < kids.len() ==> !(in_dt(#[trigger] kids[i]) && is_constraint_name(kids[i].spec_local_name())),
    ensures
        constraint_children(kids) =~= kids.take(c),
    decreases kids.len(),
{
    if kids.len() > 0 {
        let rest = kids.drop_last();
        if c == kids.len() {
            assert forall|i: int| 0 <= i < c - 1 implies in_dt(#[trigger] rest[i]) && is_constraint_name(rest[i].spec_local_name()) by {
                assert(rest[i] == kids[i]);
            }
            lemma_constraint_run(rest, c - 1);
            assert(rest.take(c - 1).push(kids.last()) =~= kids.take(c));
        } else {
            assert forall|i: int| 0 <= i < c implies in_dt(#[trigger] rest[i]) && is_constraint_name(rest[i].spec_local_name()) by {
                assert(rest[i] == kids[i]);
            }
            assert forall|i: int| c <= i < rest.len() implies !(in_dt(#[trigger] rest[i]) && is_constraint_name(rest[i].spec_local_name())) by {
                assert(rest[i] == kids[i]);
            }
            lemma_constraint_run(rest, c);
            assert(rest.take(c) =~= kids.take(c));
        }
    }
}

/// The value lists of a run of `PossibleValues` elements with one list
/// each are those lists, in order.
pub proof fn lemma_value_lists(pvs: Seq<Element>)
    requires
        forall|i: int| 0 <= i < pvs.len() ==> #[trigger] dt_named(children_of(pvs[i]), "ValueList"@) =~= seq![children_of(pvs[i])[0]],
    ensures
        value_lists(pvs).len() == pvs.len(),
        forall|i: int| 0 <= i < pvs.len() ==> #[trigger] value_lists(pvs)[i] == children_of(pvs[i])[0],
    decreases pvs.len(),
{
    if pvs.len() > 0 {
        let rest = pvs.drop_last();
        assert forall|i: int| 0 <= i < rest.len() implies #[trigger] dt_named(children_of(rest[i]), "ValueList"@) =~= seq![children_of(rest[i])[0]] by {
            assert(rest[i] == pvs[i]);
        }
        lemma_value_lists(rest);
        assert(dt_named(children_of(pvs.last()), "ValueList"@) =~= seq![children_of(pvs[pvs.len() - 1])[0]]);
        assert forall|i: int| 0 <= i < pvs.len() implies #[trigger] value_lists(pvs)[i] == children_of(pvs[i])[0] by {
            if i < rest.len() {
                assert(rest[i] == pvs[i]);
            }
        }
    }
}

pub open spec fn value_list_same(a: ValueListModel, b: ValueListModel) -> bool {
    &&& a.language@ == b.language@
    &&& a.values.len() == b.values.len()
    &&& forall|i: int| 0 <= i < a.values.len() ==> (#[trigger] a.values[i])@ == b.values[i]@
}

pub open spec fn constraint_same(a: DataTypeConstraint, b: DataTypeConstraint) -> bool {
    constraint_name(a) == constraint_name(b) && constraint_bound(a) == constraint_bound(b)
}

pub open spec fn data_type_same(a: DataTypeModel, b: DataTypeModel) -> bool {
    &&& (a.name is Some <==> b.name is Some)
    &&& (a.name is Some ==> data_type_name_str(a.name->0) == data_type_name_str(b.name->0))
    &&& a.constraints.len() == b.constraints.len()
    &&& forall|i: int| 0 <= i < a.constraints.len() ==> constraint_same(#[trigger] a.constraints[i], b.constraints[i])
    &&& lexemes_string(a.data_formats) == lexemes_string(b.data_formats)
    &&& a.possible_values.len() == b.possible_values.len()
    &&& forall|i: int| 0 <= i < a.possible_values.len() ==> value_list_same((#[trigger] a.possible_values[i])@, b.possible_values[i]@)
}

pub open spec fn data_type_settled(m: DataTypeModel) -> bool {
    forall|i: int| 0 <= i < m.possible_values.len() ==> settled((#[trigger] m.possible_values[i])@.language@)
}

/// A value list read back from the element the encoder writes for it.
proof fn lemma_value_list_faithful(e: Element, l: ValueList, d: ValueListModel)
    requires
        value_list_encoding(e, l),
        settled(l@.language@),
        value_list_decodes(e, d),
    ensures
        value_list_same(d, l@),
{
    let kids = children_of(e);
    assert(plain_attr(e, "language"@) == Some(l@.language@));
    assert forall|i: int| 0 <= i < kids.len() implies is_dt(#[trigger] kids[i], "Value"@) by {
        assert(value_encoding(kids[i], l@.values[i]));
    }
    lemma_named_run(kids, "Value"@, 0, kids.len() as int);
    assert(kids.subrange(0, kids.len() as int) =~= kids);
    assert forall|i: int| 0 <= i < d.values.len() implies (#[trigger] d.values[i])@ == l@.values[i]@ by {
        let c = kids[i];
        assert(value_encoding(c, l@.values[i]));
        assert(value_decodes(c, d.values[i]));
        match l@.values[i]@.order {
            Some(o) => {
                assert(plain_attr(c, "order"@) == Some(int_text(o)));
                lemma_int_text(o);
            },
            None => {},
        }
    }
}

/// A data type read back from the element the encoder writes for it.
pub proof fn lemma_data_type_faithful(e: Element, m: DataTypeModel, d: DataTypeModel)
    requires
        data_type_encoding(e, m),
        data_type_settled(m),
        data_type_decodes(e, d),
    ensures
        data_type_same(d, m),
{
    reveal_strlit("MinInclusive");
    reveal_strlit("MinExclusive");
    reveal_strlit("MaxInclusive");
    reveal_strlit("MaxExclusive");
    reveal_strlit("DataFormat");
    reveal_strlit("PossibleValues");
    reveal_strlit("ValueList");
    assert("MinInclusive"@.len() == 12 && "MinExclusive"@.len() == 12);
    assert("MaxInclusive"@.len() == 12 && "MaxExclusive"@.len() == 12);
    assert("DataFormat"@.len() == 10 && "PossibleValues"@.len() == 14);
    let kids = children_of(e);
    let c = m.constraints.len() as int;
    let f = m.data_formats.len() as int;
    let p = m.possible_values.len() as int;
    if m.name is Some {
        assert(plain_attr(e, "name"@) == Some(data_type_name_str(m.name->0)));
    }
    assert forall|i: int| 0 <= i < c implies in_dt(#[trigger] kids[i]) && is_constraint_name(kids[i].spec_local_name()) by {
        assert(valued_encoding(kids[i], constraint_name(m.constraints[i]), constraint_bound(m.constraints[i])));
    }
    assert forall|i: int| c <= i < c + f implies #[trigger] is_dt(kids[i], "DataFormat"@) by {
        assert(valued_encoding(kids[c + (i - c)], "DataFormat"@, m.data_formats[i - c]@));
    }
    assert forall|i: int| c + f <= i < kids.len() implies #[trigger] is_dt(kids[i], "PossibleValues"@) by {
        assert(possible_values_encoding(kids[c + f + (i - c - f)], m.possible_values[i - c - f]));
    }
    assert forall|i: int| c <= i < kids.len() implies !(in_dt(#[trigger] kids[i]) && is_constraint_name(kids[i].spec_local_name())) by {
        if i < c + f {
            assert(is_dt(kids[i], "DataFormat"@));
        } else {
            assert(is_dt(kids[i], "PossibleValues"@));
        }
    }
    assert forall|i: int| 0 <= i < kids.len() && !(c <= i < c + f) implies !#[trigger] is_dt(kids[i], "DataFormat"@) by {
        if i >= c + f {
            assert(is_dt(kids[i], "PossibleValues"@));
        } else {
            assert(is_constraint_name(kids[i].spec_local_name()));
        }
    }
    assert forall|i: int| 0 <= i < kids.len() && !(c + f <= i < c + f + p) implies !#[trigger] is_dt(kids[i], "PossibleValues"@) by {
        if c <= i < c + f {
            assert(is_dt(kids[i], "DataFormat"@));
        }
    }
    lemma_constraint_run(kids, c);
    assert forall|i: int| 0 <= i < c implies constraint_same(#[trigger] d.constraints[i], m.constraints[i]) by {
        assert(kids.take(c)[i] == kids[i]);
        assert(valued_encoding(kids[i], constraint_name(m.constraints[i]), constraint_bound(m.constraints[i])));
        assert(constraint_decodes(kids[i], d.constraints[i]));
    }
    lemma_named_run(kids, "DataFormat"@, c, c + f);
    assert forall|i: int| 0 <= i < f implies (#[trigger] d.data_formats[i])@ == m.data_formats[i]@ by {
        assert(kids.subrange(c, c + f)[i] == kids[c + i]);
        assert(valued_encoding(kids[c + i], "DataFormat"@, m.data_formats[i]@));
    }
    assert(lexemes_string(d.data_formats) =~= lexemes_string(m.data_formats));
    lemma_named_run(kids, "PossibleValues"@, c + f, c + f + p);
    let pvs = kids.subrange(c + f, c + f + p);
    assert forall|i: int| 0 <= i < pvs.len() implies #[trigger] dt_named(children_of(pvs[i]), "ValueList"@) =~= seq![children_of(pvs[i])[0]] by {
        assert(pvs[i] == kids[c + f + i]);
        assert(possible_values_encoding(kids[c + f + i], m.possible_values[i]));
        let inner = children_of(pvs[i]);
        assert(value_list_encoding(inner[0], m.possible_values[i]));
        lemma_named_run(inner, "ValueList"@, 0, 1);
        assert(inner.subrange(0, 1) =~= seq![inner[0]]);
    }
    lemma_value_lists(pvs);
    assert forall|i: int| 0 <= i < p implies value_list_same((#[trigger] d.possible_values[i])@, m.possible_values[i]@) by {
        assert(pvs[i] == kids[c + f + i]);
        assert(possible_values_encoding(kids[c + f + i], m.possible_values[i]));
        assert(settled(m.possible_values[i]@.language@));
        assert(dt_named(kids, "PossibleValues"@) == pvs);
        assert(value_lists(pvs)[i] == children_of(pvs[i])[0]);
        assert(value_list_decodes(value_lists(dt_named(kids, "PossibleValues"@))[i], d.possible_values[i]@));
        lemma_value_list_faithful(children_of(pvs[i])[0], m.possible_values[i], d.possible_values[i]@);
    }
}

pub open spec fn opt_ref_same(a: Option<Reference>, b: Option<Reference>) -> bool {
    (a is Some <==> b is Some) && (a is Some ==> ref_same(a->0, b->0))
}

pub open spec fn property_same(a: PropertyModel, b: PropertyModel) -> bool {
    &&& concept_same(a.concept@, b.concept@)
    &&& data_type_same(a.data_type@, b.data_type@)
    &&& lexemes_string(a.symbols) == lexemes_string(b.symbols)
    &&& refs_same(a.dimension_refs, b.dimension_refs)
    &&& refs_same(a.unit_refs, b.unit_refs)
    &&& refs_same(a.quantity_kind_refs, b.quantity_kind_refs)
    &&& refs_same(a.dependency_refs, b.dependency_refs)
    &&& opt_ref_same(a.specialization_ref, b.specialization_ref)
}

pub open spec fn property_settled(m: PropertyModel) -> bool {
    &&& concept_settled(m.concept@)
    &&& data_type_settled(m.data_type@)
    &&& refs_settled(m.dimension_refs) && refs_settled(m.unit_refs)
    &&& refs_settled(m.quantity_kind_refs) && refs_settled(m.dependency_refs)
    &&& refs_settled(opt_seq(m.specialization_ref))
}

/// A property read back from the element the encoder writes for it has
/// the same attributes, data type and children, lexeme for lexeme.
pub proof fn lemma_property_round_trip(e: Element, m: PropertyModel, d: PropertyModel)
    requires
        concept_encoding(e, "Property"@, m.concept@),
        property_layout(children_of(e), m),
        children_of(e).len() == property_len(m),
        property_settled(m),
        property_decodes(e, d),
    ensures
        property_same(d, m),
{
    let kids = children_of(e);
    let c = concept_len(m.concept@);
    let o1 = c + 1;
    let o2 = o1 + m.symbols.len();
    let o3 = o2 + m.dimension_refs.len();
    let o4 = o3 + m.unit_refs.len();
    let o5 = o4 + m.quantity_kind_refs.len();
    let o6 = o5 + m.dependency_refs.len();
    let o7 = o6 + opt_seq(m.specialization_ref).len();
    let after = seq!["DataType"@, "Symbol"@, "DimensionRef"@, "UnitRef"@, "QuantityKindRef"@, "IsDependentOnRef"@, "IsSpecializationOfRef"@];
    let off_after = seq![c, o1, o2, o3, o4, o5, o6, o7];
    lemma_property_names_distinct();
    assert(is_dt(kids[c], after[0]));
    lemma_simples_named(kids, o1, after[1], lexemes_string(m.symbols));
    lemma_refs_named(kids, o2, after[2], m.dimension_refs);
    lemma_refs_named(kids, o3, after[3], m.unit_refs);
    lemma_refs_named(kids, o4, after[4], m.quantity_kind_refs);
    lemma_refs_named(kids, o5, after[5], m.dependency_refs);
    lemma_refs_named(kids, o6, after[6], opt_seq(m.specialization_ref));
    lemma_all_runs(kids, m.concept@, after, off_after);
    lemma_concept_faithful(e, m.concept@, d.concept@);
    assert(dt_named(kids, after[0]) =~= kids.subrange(c, o1));
    assert(kids.subrange(c, o1)[0] == kids[c]);
    lemma_data_type_faithful(kids[c], m.data_type@, d.data_type@);
    assert(dt_named(kids, after[1]) =~= kids.subrange(o1, o2));
    lemma_simples_faithful(kids, o1, after[1], lexemes_string(m.symbols));
    assert(dt_named(kids, after[2]) =~= kids.subrange(o2, o3));
    lemma_refs_faithful(kids, o2, after[2], m.dimension_refs, d.dimension_refs);
    assert(dt_named(kids, after[3]) =~= kids.subrange(o3, o4));
    lemma_refs_faithful(kids, o3, after[3], m.unit_refs, d.unit_refs);
    assert(dt_named(kids, after[4]) =~= kids.subrange(o4, o5));
    lemma_refs_faithful(kids, o4, after[4], m.quantity_kind_refs, d.quantity_kind_refs);
    assert(dt_named(kids, after[5]) =~= kids.subrange(o5, o6));
    lemma_refs_faithful(kids, o5, after[5], m.dependency_refs, d.dependency_refs);
    assert(dt_named(kids, after[6]) =~= kids.subrange(o6, o7));
    let spec_found = kids.subrange(o6, o7);
    if let Some(x) = m.specialization_ref {
        assert(spec_found[0] == kids[o6]);
        assert(opt_seq(m.specialization_ref)[0] == x);
        assert(reference_encoding(kids[o6 + 0], after[6], opt_seq(m.specialization_ref)[0]));
        assert(ref_settled(opt_seq(m.specialization_ref)[0]));
        lemma_ref_faithful(kids[o6], after[6], x, d.specialization_ref->0);
    }
}


} // verus!
