//! Bounded, namespace-aware XML 1.0 reader.
//!
//! The reader rejects malformed markup, DTDs, undeclared entities and
//! prefixes, illegal namespace bindings, invalid characters, and XML other
//! than version 1.0 in UTF-8, and enforces byte, depth, node and
//! per-element attribute budgets. Every node it produces records the source
//! characters it was read from, so the exact writer can replay them.

use std::sync::Arc;

use vstd::prelude::*;

use crate::document::{
    exact_list, exact_node, lemma_exact_list_push, lemma_list_read_push, lemma_list_within_push, lemma_list_count_push, lemma_node_count, lemma_tree_read, lemma_within_budget, list_count, list_read, list_within, opt_str_view, opt_string_view, opt_view, span_text, then, Attribute, Document, Element,
    ExactWriteError, Node, Span, XmlDeclaration, escape_attr, escape_attr_char, escape_text, escape_text_char,
};
use crate::text::{
    chars_of, digit, hex, is_digit, is_hex, is_xml_char, is_xml_space, push_char, str_eq, string_of,
    xml_char, xml_space,
};

verus! {

/// The namespace bound to the reserved `xml` prefix.
pub const XML_NAMESPACE: &'static str = "http://www.w3.org/XML/1998/namespace";

/// The namespace of namespace declarations, which may never be bound.
pub const XMLNS_NAMESPACE: &'static str = "http://www.w3.org/2000/xmlns/";

/// Resource limits enforced while parsing.
#[derive(Debug, Clone, Copy, PartialEq, Eq)]
pub struct ParseOptions {
    /// Largest accepted input, in bytes.
    pub max_bytes: usize,
    /// Deepest accepted element nesting; the root is at depth one.
    pub max_depth: usize,
    /// Largest accepted number of nodes of any kind.
    pub max_nodes: usize,
    /// Largest accepted number of attributes on one element, namespace
    /// declarations included.
    pub max_attributes_per_element: usize,
}

/// The budgets [`ParseOptions::defaults`] sets.
pub open spec fn default_options() -> ParseOptions {
    ParseOptions {
        max_bytes: 67108864usize,
        max_depth: 256usize,
        max_nodes: 1000000usize,
        max_attributes_per_element: 256usize,
    }
}

impl ParseOptions {
    /// Conservative production defaults.
    pub fn defaults() -> (r: Self)
        ensures
            r.max_bytes == 64 * 1024 * 1024,
            r.max_depth == 256,
            r.max_nodes == 1_000_000,
            r.max_attributes_per_element == 256,
            r == default_options(),
    {
        ParseOptions {
            max_bytes: 64 * 1024 * 1024,
            max_depth: 256,
            max_nodes: 1_000_000,
            max_attributes_per_element: 256,
        }
    }
}

impl Default for ParseOptions {
    fn default() -> (r: Self)
        ensures
            r.max_bytes == 64 * 1024 * 1024,
            r.max_depth == 256,
            r.max_nodes == 1_000_000,
            r.max_attributes_per_element == 256,
    {
        ParseOptions::defaults()
    }
}

/// Why an input was rejected.
#[derive(Debug, Clone, Copy, PartialEq, Eq, Hash)]
#[non_exhaustive]
pub enum ParseErrorKind {
    /// The input exceeds `max_bytes`.
    InputTooLarge,
    /// Elements nest deeper than `max_depth`.
    DepthLimit,
    /// The document holds more than `max_nodes` nodes.
    NodeLimit,
    /// An element carries more than `max_attributes_per_element` attributes.
    AttributeLimit,
    /// A document type declaration is present.
    DoctypeForbidden,
    /// An entity reference names no predefined entity.
    UnknownEntity,
    /// A malformed entity or character reference.
    InvalidReference,
    /// A prefix without an in-scope namespace declaration.
    UndeclaredPrefix,
    /// A qualified name with an empty part or more than one colon.
    MalformedQName,
    /// A name that does not match the XML `Name` production.
    InvalidName,
    /// A character outside the XML 1.0 `Char` production.
    InvalidCharacter,
    /// Two attributes with the same qualified or expanded name.
    DuplicateAttribute,
    /// An illegal binding of the reserved `xml` or `xmlns` names.
    ReservedNamespace,
    /// An XML declaration for a version other than 1.0.
    UnsupportedVersion,
    /// An XML declaration naming an encoding other than UTF-8.
    UnsupportedEncoding,
    /// A malformed XML declaration.
    InvalidDeclaration,
    /// The input ends inside markup or before the root element closes.
    UnexpectedEnd,
    /// An end tag that does not match its start tag.
    MismatchedEndTag,
    /// Character data or a second element outside the root element.
    ContentOutsideRoot,
    /// Any other violation of the XML grammar.
    Syntax,
}

/// A rejected input: what was wrong and the character offset where it was found.
#[derive(Debug, Clone, PartialEq, Eq)]
pub struct ParseError {
    kind: ParseErrorKind,
    position: usize,
}

impl ParseError {
    pub closed spec fn spec_kind(&self) -> ParseErrorKind {
        self.kind
    }

    pub closed spec fn spec_position(&self) -> usize {
        self.position
    }

    pub fn kind(&self) -> (r: ParseErrorKind)
        ensures
            r == self.spec_kind(),
    {
        self.kind
    }

    /// Character offset at which the problem was found.
    pub fn position(&self) -> (r: usize)
        ensures
            r == self.spec_position(),
    {
        self.position
    }
}

fn fail<T>(kind: ParseErrorKind, position: usize) -> (r: Result<T, ParseError>)
    ensures
        r matches Err(e) && e.spec_kind() == kind && e.spec_position() == position,
{
    Err(ParseError { kind, position })
}

/// `p` is the position of the first character of `s` that XML 1.0 does not
/// allow.
pub open spec fn first_invalid_char(s: Seq<char>, p: int) -> bool {
    &&& 0 <= p < s.len()
    &&& !is_xml_char(s[p])
    &&& forall|k: int| 0 <= k < p ==> is_xml_char(#[trigger] s[k])
}

/// A result that is not the input-size refusal, which only the entry point
/// produces.
pub open spec fn size_free<T>(r: Result<T, ParseError>) -> bool {
    r matches Err(e) ==> e.spec_kind() != ParseErrorKind::InputTooLarge
}

// ---------------------------------------------------------------------------
// Character classes
// ---------------------------------------------------------------------------

/// XML 1.0 `NameStartChar`, without the colon.
pub open spec fn is_name_start(c: char) -> bool {
    ('A' <= c && c <= 'Z') || c == '_' || ('a' <= c && c <= 'z') || ('\u{C0}' <= c && c <= '\u{D6}')
        || ('\u{D8}' <= c && c <= '\u{F6}') || ('\u{F8}' <= c && c <= '\u{2FF}') || ('\u{370}' <= c
        && c <= '\u{37D}') || ('\u{37F}' <= c && c <= '\u{1FFF}') || ('\u{200C}' <= c && c
        <= '\u{200D}') || ('\u{2070}' <= c && c <= '\u{218F}') || ('\u{2C00}' <= c && c
        <= '\u{2FEF}') || ('\u{3001}' <= c && c <= '\u{D7FF}') || ('\u{F900}' <= c && c
        <= '\u{FDCF}') || ('\u{FDF0}' <= c && c <= '\u{FFFD}') || ('\u{10000}' <= c && c
        <= '\u{EFFFF}')
}

/// XML 1.0 `NameChar` (the colon included).
pub open spec fn is_name_char(c: char) -> bool {
    c == ':' || is_name_start(c) || c == '-' || c == '.' || ('0' <= c && c <= '9') || c == '\u{B7}'
        || ('\u{300}' <= c && c <= '\u{36F}') || ('\u{203F}' <= c && c <= '\u{2040}')
}

fn name_start(c: char) -> (r: bool)
    ensures
        r == is_name_start(c),
{
    ('A' <= c && c <= 'Z') || c == '_' || ('a' <= c && c <= 'z') || ('\u{C0}' <= c && c <= '\u{D6}')
        || ('\u{D8}' <= c && c <= '\u{F6}') || ('\u{F8}' <= c && c <= '\u{2FF}') || ('\u{370}' <= c
        && c <= '\u{37D}') || ('\u{37F}' <= c && c <= '\u{1FFF}') || ('\u{200C}' <= c && c
        <= '\u{200D}') || ('\u{2070}' <= c && c <= '\u{218F}') || ('\u{2C00}' <= c && c
        <= '\u{2FEF}') || ('\u{3001}' <= c && c <= '\u{D7FF}') || ('\u{F900}' <= c && c
        <= '\u{FDCF}') || ('\u{FDF0}' <= c && c <= '\u{FFFD}') || ('\u{10000}' <= c && c
        <= '\u{EFFFF}')
}

fn name_char(c: char) -> (r: bool)
    ensures
        r == is_name_char(c),
{
    c == ':' || name_start(c) || c == '-' || c == '.' || ('0' <= c && c <= '9') || c == '\u{B7}'
        || ('\u{300}' <= c && c <= '\u{36F}') || ('\u{203F}' <= c && c <= '\u{2040}')
}

// ---------------------------------------------------------------------------
// Scanning helpers
// ---------------------------------------------------------------------------

fn at(v: &Vec<char>, pos: usize, c: char) -> (r: bool)
    ensures
        r == (pos < v.len() && v@[pos as int] == c),
{
    pos < v.len() && v[pos] == c
}

/// Whether `lit` occurs at `pos`.
fn looking_at(v: &Vec<char>, pos: usize, lit: &[char]) -> (r: bool)
    ensures
        r == (pos + lit@.len() <= v.len() && v@.subrange(pos as int, pos + lit@.len()) == lit@),
{
    if pos > v.len() || lit.len() > v.len() - pos {
        return false;
    }
    let mut i: usize = 0;
    while i < lit.len()
        invariant
            i <= lit@.len(),
            pos + lit@.len() <= v.len(),
            forall|k: int| 0 <= k < i ==> v@[pos + k] == lit@[k],
        decreases lit.len() - i,
    {
        if v[pos + i] != lit[i] {
            assert(v@.subrange(pos as int, pos + lit@.len())[i as int] != lit@[i as int]);
            return false;
        }
        i = i + 1;
    }
    assert(v@.subrange(pos as int, pos + lit@.len()) =~= lit@);
    true
}

/// Whether `v[a..b]` spells `lit`.
fn range_is(v: &Vec<char>, a: usize, b: usize, lit: &[char]) -> (r: bool)
    requires
        a <= b <= v.len(),
    ensures
        r == (v@.subrange(a as int, b as int) == lit@),
{
    if b - a != lit.len() {
        assert(v@.subrange(a as int, b as int).len() != lit@.len());
        return false;
    }
    looking_at(v, a, lit)
}

/// Whether `v[a..b]` and `v[c..d]` hold the same characters.
fn same_range(v: &Vec<char>, a: usize, b: usize, c: usize, d: usize) -> (r: bool)
    requires
        a <= b <= v.len(),
        c <= d <= v.len(),
    ensures
        r == (v@.subrange(a as int, b as int) == v@.subrange(c as int, d as int)),
{
    if b - a != d - c {
        assert(v@.subrange(a as int, b as int).len() != v@.subrange(c as int, d as int).len());
        return false;
    }
    let mut i: usize = 0;
    while i < b - a
        invariant
            a <= b <= v.len(),
            c <= d <= v.len(),
            b - a == d - c,
            i <= b - a,
            forall|k: int| 0 <= k < i ==> #[trigger] v@[a + k] == v@[c + k],
        decreases b - a - i,
    {
        if v[a + i] != v[c + i] {
            assert(v@.subrange(a as int, b as int)[i as int] != v@.subrange(c as int, d as int)[i as int]);
            return false;
        }
        i = i + 1;
    }
    assert forall|k: int| 0 <= k < b - a implies v@.subrange(a as int, b as int)[k] == v@.subrange(c as int, d as int)[k] by {
        assert(v@[a + k] == v@[c + k]);
    }
    assert(v@.subrange(a as int, b as int) =~= v@.subrange(c as int, d as int));
    true
}

/// Whether the characters of `p` equal `v[a..b]`.
fn chars_match(p: &Vec<char>, v: &Vec<char>, a: usize, b: usize) -> (r: bool)
    requires
        a <= b <= v.len(),
    ensures
        r == (p@ == v@.subrange(a as int, b as int)),
{
    if p.len() != b - a {
        assert(p@.len() != v@.subrange(a as int, b as int).len());
        return false;
    }
    let mut i: usize = 0;
    while i < p.len()
        invariant
            a <= b <= v.len(),
            p@.len() == b - a,
            i <= p@.len(),
            forall|k: int| 0 <= k < i ==> p@[k] == v@[a + k],
        decreases p.len() - i,
    {
        if p[i] != v[a + i] {
            assert(p@[i as int] != v@.subrange(a as int, b as int)[i as int]);
            return false;
        }
        i = i + 1;
    }
    assert(p@ =~= v@.subrange(a as int, b as int));
    true
}

/// The end of the white-space run starting at `pos`.
fn skip_ws(v: &Vec<char>, pos: usize) -> (r: usize)
    requires
        pos <= v.len(),
    ensures
        pos <= r <= v.len(),
        r == v.len() || !is_xml_space(v@[r as int]),
        forall|k: int| pos <= k < r ==> is_xml_space(#[trigger] v@[k]),
        r == space_run_end(v@, pos as int),
{
    let mut p = pos;
    while p < v.len() && xml_space(v[p])
        invariant
            pos <= p <= v.len(),
            forall|k: int| pos <= k < p ==> is_xml_space(#[trigger] v@[k]),
            space_run_end(v@, pos as int) == space_run_end(v@, p as int),
        decreases v.len() - p,
    {
        p = p + 1;
    }
    p
}

/// The end of the run of name characters starting at `pos`.
fn scan_name(v: &Vec<char>, pos: usize) -> (r: usize)
    requires
        pos <= v.len(),
    ensures
        pos <= r <= v.len(),
        r == name_run_end(v@, pos as int),
{
    let mut p = pos;
    while p < v.len() && name_char(v[p])
        invariant
            pos <= p <= v.len(),
            name_run_end(v@, pos as int) == name_run_end(v@, p as int),
        decreases v.len() - p,
    {
        p = p + 1;
    }
    p
}

/// The end of the run of name characters in `s` from `from`.
pub open spec fn name_run_end(s: Seq<char>, from: int) -> int
    decreases s.len() - from,
{
    if 0 <= from < s.len() && is_name_char(s[from]) {
        name_run_end(s, from + 1)
    } else {
        from
    }
}

/// `s[a..b]` is a prefixed name whose only colon is at `c`, with both parts
/// starting as names do.
pub open spec fn sole_colon(s: Seq<char>, a: int, b: int, c: int) -> bool {
    &&& a < c && c + 1 < b && b <= s.len()
    &&& s[c] == ':'
    &&& forall|k: int| a <= k < b && k != c ==> s[k] != ':'
    &&& is_name_start(s[a])
    &&& is_name_start(s[c + 1])
}

/// The end of the run of white space in `s` from `from`.
pub open spec fn space_run_end(s: Seq<char>, from: int) -> int
    decreases s.len() - from,
{
    if 0 <= from < s.len() && is_xml_space(s[from]) {
        space_run_end(s, from + 1)
    } else {
        from
    }
}

/// After optional white space at `from`, the start tag closes, as `>` or
/// `/>`, without an attribute.
pub open spec fn tag_closes_bare(s: Seq<char>, from: int) -> bool {
    let t = space_run_end(s, from);
    t < s.len() && (s[t] == '>' || (s[t] == '/' && t + 1 < s.len() && s[t + 1] == '>'))
}

/// The start tag at `pos` carries no attribute, and its name has a prefix,
/// other than `xml`, that no declaration in `scope` binds.
pub open spec fn bare_tag_prefix_unbound(s: Seq<char>, pos: int, scope: Bindings) -> bool {
    let b = name_run_end(s, pos + 1);
    &&& tag_closes_bare(s, b)
    &&& exists|c: int|
        #[trigger] sole_colon(s, pos + 1, b, c) && s.subrange(pos + 1, c) != seq!['x', 'm', 'l'] && bound_uri(
            scope,
            s.subrange(pos + 1, c),
        ) is None
}

/// The first colon in `s[a..b]`, if any.
pub open spec fn first_colon(s: Seq<char>, a: int, b: int) -> Option<int>
    decreases b - a,
{
    if a >= b {
        None
    } else if s[a] == ':' {
        Some(a)
    } else {
        first_colon(s, a + 1, b)
    }
}

/// `s[a..b]` read as a qualified name: `Some` of the colon's position
/// (`None` for an unprefixed name) when the name is non-empty, holds at
/// most one colon, neither part is empty and each part starts as a name
/// does; `None` otherwise.
pub open spec fn qname_split(s: Seq<char>, a: int, b: int) -> Option<Option<int>> {
    if a >= b {
        None
    } else {
        match first_colon(s, a, b) {
            None => if is_name_start(s[a]) {
                Some(None)
            } else {
                None
            },
            Some(c) => if first_colon(s, c + 1, b) is Some || c == a || c + 1 == b || !is_name_start(s[a])
                || !is_name_start(s[c + 1]) {
                None
            } else {
                Some(Some(c))
            },
        }
    }
}

/// One of the attributes in `acc` has the name `s[q..ne]`.
pub open spec fn repeats_name(s: Seq<char>, acc: Seq<Written>, q: int, ne: int) -> bool {
    exists|k: int| 0 <= k < acc.len() && s.subrange((#[trigger] acc[k]).start as int, acc[k].end as int) == s.subrange(q, ne)
}

/// The attributes of a start tag from `p`, after `acc` (those read
/// already), up to and including its `>` or `/>`, with at most `max` of
/// them: the attributes, the position after the tag, and whether it was an
/// empty-element tag; `None` where the tag is malformed, repeats a name or
/// carries more than `max` attributes.
pub open spec fn attrs_scan(s: Seq<char>, p: int, acc: Seq<Written>, max: int) -> Option<(Seq<Written>, int, bool)>
    decreases s.len() - p,
{
    let q = space_run_end(s, p);
    if p < 0 || p > s.len() || q >= s.len() {
        None
    } else if s[q] == '>' {
        Some((acc, q + 1, false))
    } else if s[q] == '/' {
        if q + 1 < s.len() && s[q + 1] == '>' {
            Some((acc, q + 2, true))
        } else {
            None
        }
    } else if q == p {
        None
    } else {
        let ne = name_run_end(s, q);
        match qname_split(s, q, ne) {
            None => None,
            Some(colon) => if repeats_name(s, acc, q, ne) {
                None
            } else if acc.len() >= max || !eq_at(s, ne) {
                None
            } else {
                let f = space_run_end(s, space_run_end(s, ne) + 1);
                match attr_value_at(s, f) {
                    Some((val, end)) => if p < end <= s.len() {
                        attrs_scan(
                            s,
                            end,
                            acc.push(
                                Written {
                                    start: q as usize,
                                    end: ne as usize,
                                    colon: match colon {
                                        Some(c) => Some(c as usize),
                                        None => None,
                                    },
                                    value: val,
                                },
                            ),
                            max,
                        )
                    } else {
                        None
                    },
                    None => None,
                }
            },
        }
    }
}

/// Reading the attributes of a start tag from `p` as [`attrs_scan`] does,
/// after `acc`, the first refusal met is an attribute beyond the `max`
/// that a start tag may carry.
pub open spec fn attrs_limit_refused(s: Seq<char>, p: int, acc: Seq<Written>, max: int) -> bool
    decreases s.len() - p,
{
    let q = space_run_end(s, p);
    if p < 0 || p > s.len() || q >= s.len() || s[q] == '>' || s[q] == '/' || q == p {
        false
    } else {
        let ne = name_run_end(s, q);
        match qname_split(s, q, ne) {
            None => false,
            Some(colon) => if repeats_name(s, acc, q, ne) {
                false
            } else if acc.len() >= max {
                true
            } else if !eq_at(s, ne) {
                false
            } else {
                let f = space_run_end(s, space_run_end(s, ne) + 1);
                match attr_value_at(s, f) {
                    Some((val, end)) => p < end <= s.len() && attrs_limit_refused(
                        s,
                        end,
                        acc.push(
                            Written {
                                start: q as usize,
                                end: ne as usize,
                                colon: match colon {
                                    Some(c) => Some(c as usize),
                                    None => None,
                                },
                                value: val,
                            },
                        ),
                        max,
                    ),
                    None => false,
                }
            },
        }
    }
}

/// Reading the attributes of a start tag from `p` as [`attrs_scan`] does,
/// after `acc`, the first refusal met is an unknown entity in an attribute
/// value.
pub open spec fn attrs_entity_refused(s: Seq<char>, p: int, acc: Seq<Written>, max: int) -> bool
    decreases s.len() - p,
{
    let q = space_run_end(s, p);
    if p < 0 || p > s.len() || q >= s.len() || s[q] == '>' || s[q] == '/' || q == p {
        false
    } else {
        let ne = name_run_end(s, q);
        match qname_split(s, q, ne) {
            None => false,
            Some(colon) => if repeats_name(s, acc, q, ne) {
                false
            } else if acc.len() >= max || !eq_at(s, ne) {
                false
            } else {
                let f = space_run_end(s, space_run_end(s, ne) + 1);
                match attr_value_at(s, f) {
                    Some((val, end)) => p < end <= s.len() && attrs_entity_refused(
                        s,
                        end,
                        acc.push(
                            Written {
                                start: q as usize,
                                end: ne as usize,
                                colon: match colon {
                                    Some(c) => Some(c as usize),
                                    None => None,
                                },
                                value: val,
                            },
                        ),
                        max,
                    ),
                    None => attr_value_entity_refused(s, f),
                }
            },
        }
    }
}

/// `s[a..b]` holds two colons or more.
pub open spec fn two_colons(s: Seq<char>, a: int, b: int) -> bool {
    exists|i: int, j: int| a <= i < j < b && s[i] == ':' && s[j] == ':'
}

/// Checks `v[a..b]` as a qualified name and returns the colon position.
fn split_qname(v: &Vec<char>, a: usize, b: usize) -> (r: Result<Option<usize>, ParseError>)
    requires
        a <= b <= v.len(),
    ensures
        size_free(r),
        r matches Ok(Some(c)) ==> a < c && c + 1 < b && v@[c as int] == ':',
        r matches Ok(None) ==> a < b,
        two_colons(v@, a as int, b as int) ==> (r matches Err(e) && e.spec_kind() == ParseErrorKind::MalformedQName),
        forall|c: int| sole_colon(v@, a as int, b as int, c) ==> r == Ok::<Option<usize>, ParseError>(Some(c as usize)),
        r is Ok <==> qname_split(v@, a as int, b as int) is Some,
        r matches Ok(Some(c)) ==> qname_split(v@, a as int, b as int) == Some(Some(c as int)),
        r matches Ok(None) ==> qname_split(v@, a as int, b as int) == Some(None::<int>),
{
    if a == b {
        return fail(ParseErrorKind::InvalidName, a);
    }
    let mut colon: Option<usize> = None;
    let mut i = a;
    while i < b
        invariant
            a <= i <= b <= v.len(),
            colon matches Some(c) ==> a <= c < i && v@[c as int] == ':',
            colon matches Some(c) ==> forall|k: int| a <= k < i && k != c ==> v@[k] != ':',
            colon is None ==> forall|k: int| a <= k < i ==> v@[k] != ':',
            colon is None ==> first_colon(v@, a as int, b as int) == first_colon(v@, i as int, b as int),
            colon matches Some(c) ==> first_colon(v@, a as int, b as int) == Some(c as int) && first_colon(
                v@,
                c + 1,
                b as int,
            ) == first_colon(v@, i as int, b as int),
        decreases b - i,
    {
        if v[i] == ':' {
            if colon.is_some() {
                return fail(ParseErrorKind::MalformedQName, i);
            }
            colon = Some(i);
        }
        i = i + 1;
    }
    match colon {
        Some(c) => {
            if c == a || c + 1 == b {
                return fail(ParseErrorKind::MalformedQName, c);
            }
            if !name_start(v[a]) || !name_start(v[c + 1]) {
                return fail(ParseErrorKind::InvalidName, a);
            }
            Ok(Some(c))
        },
        None => {
            if !name_start(v[a]) {
                return fail(ParseErrorKind::InvalidName, a);
            }
            Ok(None)
        },
    }
}

/// The character with code point `n`, if there is one: std `char::from_u32`
/// returns `None` exactly for surrogates and values above U+10FFFF.
#[verifier::external_body]
fn char_from_u32(n: u32) -> (r: Option<char>)
    ensures
        r matches Some(c) ==> c as int == n as int,
        r is Some <==> (n < 0xD800 || (0xE000 <= n && n <= 0x10FFFF)),
{
    char::from_u32(n)
}

// ---------------------------------------------------------------------------
// References and character data
// ---------------------------------------------------------------------------

/// A digit of a decimal or a hexadecimal character reference.
pub open spec fn is_ref_digit(c: char, hexadecimal: bool) -> bool {
    if hexadecimal {
        is_hex(c)
    } else {
        is_digit(c)
    }
}

/// The value of a hexadecimal digit.
pub open spec fn hex_value(c: char) -> int {
    if '0' <= c && c <= '9' {
        c as int - '0' as int
    } else if 'a' <= c && c <= 'f' {
        c as int - 'a' as int + 10
    } else {
        c as int - 'A' as int + 10
    }
}

/// The number the digits `d` spell, in base 16 or 10.
pub open spec fn number_of(d: Seq<char>, hexadecimal: bool) -> int
    decreases d.len(),
{
    if d.len() == 0 {
        0
    } else {
        number_of(d.drop_last(), hexadecimal) * (if hexadecimal { 16int } else { 10int }) + hex_value(d.last())
    }
}

/// The end of the run of reference digits in `s` from `from`.
pub open spec fn digit_run_end(s: Seq<char>, from: int, hexadecimal: bool) -> int
    decreases s.len() - from,
{
    if 0 <= from < s.len() && is_ref_digit(s[from], hexadecimal) {
        digit_run_end(s, from + 1, hexadecimal)
    } else {
        from
    }
}

/// The character a predefined entity name stands for.
pub open spec fn entity_char(name: Seq<char>) -> Option<char> {
    if name == seq!['l', 't'] {
        Some('<')
    } else if name == seq!['g', 't'] {
        Some('>')
    } else if name == seq!['a', 'm', 'p'] {
        Some('&')
    } else if name == seq!['a', 'p', 'o', 's'] {
        Some('\'')
    } else if name == seq!['q', 'u', 'o', 't'] {
        Some('"')
    } else {
        None
    }
}

/// Whether `n` is a Unicode scalar value.
pub open spec fn is_scalar(n: int) -> bool {
    (0 <= n < 0xD800) || (0xE000 <= n <= 0x10FFFF)
}

/// The code point the reference starting with `&` at `pos` stands for, and
/// the position after its `;`: a predefined entity or a decimal or
/// hexadecimal character reference to an XML character.
pub open spec fn reference_at(s: Seq<char>, pos: int) -> Option<(int, int)> {
    if pos + 1 < s.len() && s[pos + 1] == '#' {
        let hexadecimal = pos + 2 < s.len() && s[pos + 2] == 'x';
        let digits = if hexadecimal { pos + 3 } else { pos + 2 };
        let end = digit_run_end(s, digits, hexadecimal);
        let n = number_of(s.subrange(digits, end), hexadecimal);
        if end == digits || !(end < s.len() && s[end] == ';') || !is_scalar(n) || !is_xml_char(n as char) {
            None
        } else {
            Some((n, end + 1))
        }
    } else {
        let end = name_run_end(s, pos + 1);
        if end == pos + 1 || !(end < s.len() && s[end] == ';') {
            None
        } else {
            match entity_char(s.subrange(pos + 1, end)) {
                Some(c) => Some((c as int, end + 1)),
                None => None,
            }
        }
    }
}

fn ref_digit(c: char, hexadecimal: bool) -> (r: bool)
    ensures
        r == is_ref_digit(c, hexadecimal),
{
    if hexadecimal {
        hex(c)
    } else {
        digit(c)
    }
}

/// The value of a hexadecimal digit.
fn digit_value(c: char) -> (r: u32)
    requires
        is_hex(c),
    ensures
        r < 16,
        r == hex_value(c),
{
    if '0' <= c && c <= '9' {
        (c as u32) - ('0' as u32)
    } else if 'a' <= c && c <= 'f' {
        (c as u32) - ('a' as u32) + 10
    } else {
        (c as u32) - ('A' as u32) + 10
    }
}

/// Decodes the entity or character reference that starts at `pos`.
///
/// The five predefined entities and decimal or hexadecimal character
/// references are accepted; any other entity name is unknown, and a
/// character reference must denote an XML character.
/// At `pos` stands a well-formed entity reference `&name;` whose name is
/// none of the five predefined entities.
pub open spec fn unknown_entity_at(s: Seq<char>, pos: int) -> bool {
    let end = name_run_end(s, pos + 1);
    &&& 0 <= pos && pos + 1 <= s.len()
    &&& !(pos + 1 < s.len() && s[pos + 1] == '#')
    &&& end > pos + 1
    &&& end < s.len() && s[end] == ';'
    &&& entity_char(s.subrange(pos + 1, end)) is None
}

/// Reading character data from `p` as [`chardata_from`] does, the first
/// refusal met is an unknown entity.
pub open spec fn chardata_entity_refused(s: Seq<char>, p: int) -> bool
    decreases s.len() - p,
{
    if p < 0 || p >= s.len() || s[p] == '<' {
        false
    } else if s[p] == '&' {
        unknown_entity_at(s, p) || match reference_at(s, p) {
            Some((n, q)) => {
                proof {
                    lemma_reference_bounds(s, p);
                }
                chardata_entity_refused(s, q)
            },
            None => false,
        }
    } else if s[p] == '\r' {
        chardata_entity_refused(s, if p + 1 < s.len() && s[p + 1] == '\n' { p + 2 } else { p + 1 })
    } else if s[p] == ']' && p + 3 <= s.len() && s.subrange(p, p + 3) == seq![']', ']', '>'] {
        false
    } else {
        chardata_entity_refused(s, p + 1)
    }
}

fn parse_reference(v: &Vec<char>, pos: usize) -> (r: Result<(char, usize), ParseError>)
    requires
        pos < v.len(),
        v@[pos as int] == '&',
    ensures
        unknown_entity_at(v@, pos as int) ==> (r matches Err(e) && e.spec_kind() == ParseErrorKind::UnknownEntity),
        r matches Ok((c, end)) ==> pos < end <= v.len() && is_xml_char(c),
        r is Ok <==> reference_at(v@, pos as int) is Some,
        r matches Ok((c, end)) ==> reference_at(v@, pos as int) == Some((c as int, end as int)),
        size_free(r),
{
    let start = pos + 1;
    if at(v, start, '#') {
        let mut p = start + 1;
        let hexadecimal = at(v, p, 'x');
        if hexadecimal {
            p = p + 1;
        }
        let digits = p;
        let mut value: u32 = 0;
        let mut too_big = false;
        assert(v@.subrange(digits as int, digits as int) =~= Seq::<char>::empty());
        while p < v.len() && ref_digit(v[p], hexadecimal)
            invariant
                digits <= p <= v.len(),
                value <= 0x10FFFF,
                digit_run_end(v@, digits as int, hexadecimal) == digit_run_end(v@, p as int, hexadecimal),
                !too_big ==> value == number_of(v@.subrange(digits as int, p as int), hexadecimal),
                too_big ==> number_of(v@.subrange(digits as int, p as int), hexadecimal) > 0x10FFFF,
                number_of(v@.subrange(digits as int, p as int), hexadecimal) >= 0,
            decreases v.len() - p,
        {
            let d = digit_value(v[p]);
            proof {
                let before = v@.subrange(digits as int, p as int);
                assert(v@.subrange(digits as int, p + 1).drop_last() =~= before);
                assert(v@.subrange(digits as int, p + 1).last() == v@[p as int]);
            }
            if !too_big {
                let next = if hexadecimal {
                    value * 16 + d
                } else {
                    value * 10 + d
                };
                if next > 0x10FFFF {
                    too_big = true;
                    value = 0;
                } else {
                    value = next;
                }
            }
            p = p + 1;
        }
        if p == digits || !at(v, p, ';') {
            return fail(ParseErrorKind::InvalidReference, pos);
        }
        if too_big {
            return fail(ParseErrorKind::InvalidCharacter, pos);
        }
        match char_from_u32(value) {
            Some(c) => {
                assert(c as int == value as int);
                assert(((value as int) as char) == c);
                if xml_char(c) {
                    Ok((c, p + 1))
                } else {
                    fail(ParseErrorKind::InvalidCharacter, pos)
                }
            },
            None => fail(ParseErrorKind::InvalidCharacter, pos),
        }
    } else {
        let end = scan_name(v, start);
        if end == start || !at(v, end, ';') {
            return fail(ParseErrorKind::InvalidReference, pos);
        }
        let ghost name = v@.subrange(start as int, end as int);
        let lt = ['l', 't'];
        let gt = ['g', 't'];
        let amp = ['a', 'm', 'p'];
        let apos = ['a', 'p', 'o', 's'];
        let quot = ['q', 'u', 'o', 't'];
        assert(lt@ =~= seq!['l', 't'] && gt@ =~= seq!['g', 't'] && amp@ =~= seq!['a', 'm', 'p']);
        assert(apos@ =~= seq!['a', 'p', 'o', 's'] && quot@ =~= seq!['q', 'u', 'o', 't']);
        let c = if range_is(v, start, end, &lt) {
            '<'
        } else if range_is(v, start, end, &gt) {
            '>'
        } else if range_is(v, start, end, &amp) {
            '&'
        } else if range_is(v, start, end, &apos) {
            '\''
        } else if range_is(v, start, end, &quot) {
            '"'
        } else {
            return fail(ParseErrorKind::UnknownEntity, pos);
        };
        assert(entity_char(name) == Some(c));
        Ok((c, end + 1))
    }
}

proof fn lemma_name_run_end(s: Seq<char>, from: int)
    requires
        0 <= from,
    ensures
        from <= name_run_end(s, from),
        name_run_end(s, from) <= s.len() || name_run_end(s, from) == from,
    decreases s.len() - from,
{
    if 0 <= from < s.len() && is_name_char(s[from]) {
        lemma_name_run_end(s, from + 1);
    }
}

proof fn lemma_digit_run_end(s: Seq<char>, from: int, hexadecimal: bool)
    requires
        0 <= from,
    ensures
        from <= digit_run_end(s, from, hexadecimal),
        digit_run_end(s, from, hexadecimal) <= s.len() || digit_run_end(s, from, hexadecimal) == from,
    decreases s.len() - from,
{
    if 0 <= from < s.len() && is_ref_digit(s[from], hexadecimal) {
        lemma_digit_run_end(s, from + 1, hexadecimal);
    }
}

/// Where the reference at `pos` ends, if it is one.
pub open spec fn reference_end(s: Seq<char>, pos: int) -> int {
    match reference_at(s, pos) {
        Some((_, q)) => q,
        None => pos,
    }
}

/// No character a reference spans is `<`.
proof fn lemma_reference_no_open(s: Seq<char>, pos: int)
    requires
        0 <= pos < s.len(),
        s[pos] == '&',
        reference_at(s, pos) is Some,
    ensures
        forall|k: int| pos <= k < reference_end(s, pos) ==> s[k] != '<',
{
    lemma_reference_bounds(s, pos);
    lemma_name_run_chars(s, pos + 1);
    lemma_digit_run_chars(s, pos + 2, false);
    lemma_digit_run_chars(s, pos + 3, true);
}

proof fn lemma_name_run_chars(s: Seq<char>, from: int)
    requires
        0 <= from,
    ensures
        forall|k: int| from <= k < name_run_end(s, from) ==> is_name_char(#[trigger] s[k]),
    decreases s.len() - from,
{
    if 0 <= from < s.len() && is_name_char(s[from]) {
        lemma_name_run_chars(s, from + 1);
    }
}

proof fn lemma_digit_run_chars(s: Seq<char>, from: int, hexadecimal: bool)
    requires
        0 <= from,
    ensures
        forall|k: int| from <= k < digit_run_end(s, from, hexadecimal) ==> is_ref_digit(#[trigger] s[k], hexadecimal),
    decreases s.len() - from,
{
    if 0 <= from < s.len() && is_ref_digit(s[from], hexadecimal) {
        lemma_digit_run_chars(s, from + 1, hexadecimal);
    }
}

/// A reference ends after its start and within the input.
pub proof fn lemma_reference_bounds(s: Seq<char>, pos: int)
    requires
        0 <= pos,
        reference_at(s, pos) is Some,
    ensures
        pos < reference_end(s, pos) <= s.len(),
{
    lemma_name_run_end(s, pos + 1);
    lemma_digit_run_end(s, pos + 2, false);
    lemma_digit_run_end(s, pos + 3, true);
}

/// `c` before the text `o`, if there is one.
pub open spec fn prepend(c: char, o: Option<Seq<char>>) -> Option<Seq<char>> {
    match o {
        Some(t) => Some(seq![c] + t),
        None => None,
    }
}

/// What the character data of `s` from `p` up to the next `<` or the end
/// reads as: references replaced by their characters and each line end
/// by `\n`; `None` where a reference is refused or `]]>` occurs.
pub open spec fn chardata_from(s: Seq<char>, p: int) -> Option<Seq<char>>
    decreases s.len() - p,
{
    if p < 0 || p >= s.len() || s[p] == '<' {
        Some(Seq::empty())
    } else if s[p] == '&' {
        match reference_at(s, p) {
            Some((n, q)) => {
                proof {
                    lemma_reference_bounds(s, p);
                }
                prepend(n as char, chardata_from(s, q))
            },
            None => None,
        }
    } else if s[p] == '\r' {
        prepend('\n', chardata_from(s, if p + 1 < s.len() && s[p + 1] == '\n' { p + 2 } else { p + 1 }))
    } else if s[p] == ']' && p + 3 <= s.len() && s.subrange(p, p + 3) == seq![']', ']', '>'] {
        None
    } else {
        prepend(s[p], chardata_from(s, p + 1))
    }
}

/// Character data from `pos` up to the next `<` or the end of input, with
/// references decoded and line ends normalized to `\n`.
fn parse_chardata(v: &Vec<char>, pos: usize) -> (r: Result<(String, usize), ParseError>)
    requires
        pos < v.len(),
        v@[pos as int] != '<',
    ensures
        r matches Ok((s, end)) ==> pos < end <= v.len() && (end == v.len() || v@[end as int] == '<'),
        r is Ok <==> chardata_from(v@, pos as int) is Some,
        r matches Ok((s, end)) ==> chardata_from(v@, pos as int) == Some(s@) && forall|k: int|
            pos <= k < end ==> v@[k] != '<',
        size_free(r),
        chardata_entity_refused(v@, pos as int) ==> (r matches Err(e) && e.spec_kind() == ParseErrorKind::UnknownEntity),
{
    let mut out = String::new();
    let mut p = pos;
    let close = [']', ']', '>'];
    assert(close@ =~= seq![']', ']', '>']);
    while p < v.len() && v[p] != '<'
        invariant
            pos <= p <= v.len(),
            p == pos || v@[pos as int] != '<',
            v@[pos as int] != '<',
            pos < v.len(),
            close@ == seq![']', ']', '>'],
            chardata_from(v@, pos as int) == (match chardata_from(v@, p as int) {
                Some(t) => Some(out@ + t),
                None => None,
            }),
            forall|k: int| pos <= k < p ==> v@[k] != '<',
            chardata_entity_refused(v@, pos as int) == chardata_entity_refused(v@, p as int),
        decreases v.len() - p,
    {
        let c = v[p];
        let ghost before = out@;
        if c == '&' {
            let (d, q) = match parse_reference(v, p) {
                Ok(x) => x,
                Err(e) => return Err(e),
            };
            proof {
                assert(((d as int) as char) == d);
                lemma_reference_no_open(v@, p as int);
            }
            push_char(&mut out, d);
            proof {
                assert(before + (seq![d] + chardata_from(v@, q as int)->0) =~= out@ + chardata_from(v@, q as int)->0);
            }
            p = q;
        } else if c == '\r' {
            push_char(&mut out, '\n');
            if at(v, p + 1, '\n') {
                p = p + 2;
            } else {
                p = p + 1;
            }
        } else if c == ']' && looking_at(v, p, &close) {
            return fail(ParseErrorKind::Syntax, p);
        } else {
            push_char(&mut out, c);
            p = p + 1;
        }
    }
    Ok((out, p))
}

/// `c` before the value `o`, if there is one, keeping its end.
pub open spec fn prepend_value(c: char, o: Option<(Seq<char>, int)>) -> Option<(Seq<char>, int)> {
    match o {
        Some((t, e)) => Some((seq![c] + t, e)),
        None => None,
    }
}

/// What an attribute value of `s` from `p`, after its opening `quote`,
/// reads as, with the position after its closing quote: references
/// replaced by their characters and each white-space character (a `\r\n`
/// pair once) by a space; `None` where a `<` or a refused reference occurs
/// or the quote is never closed.
pub open spec fn attr_from(s: Seq<char>, p: int, quote: char) -> Option<(Seq<char>, int)>
    decreases s.len() - p,
{
    if p < 0 || p >= s.len() {
        None
    } else if s[p] == quote {
        Some((Seq::empty(), p + 1))
    } else if s[p] == '<' {
        None
    } else if s[p] == '&' {
        match reference_at(s, p) {
            Some((n, q)) => {
                proof {
                    lemma_reference_bounds(s, p);
                }
                prepend_value(n as char, attr_from(s, q, quote))
            },
            None => None,
        }
    } else if s[p] == '\r' {
        prepend_value(' ', attr_from(s, if p + 1 < s.len() && s[p + 1] == '\n' { p + 2 } else { p + 1 }, quote))
    } else if s[p] == '\n' || s[p] == '\t' {
        prepend_value(' ', attr_from(s, p + 1, quote))
    } else {
        prepend_value(s[p], attr_from(s, p + 1, quote))
    }
}

/// The quoted attribute value starting at `pos`, read.
pub open spec fn attr_value_at(s: Seq<char>, pos: int) -> Option<(Seq<char>, int)> {
    if 0 <= pos < s.len() && (s[pos] == '"' || s[pos] == '\'') {
        attr_from(s, pos + 1, s[pos])
    } else {
        None
    }
}

/// `v[a..b]` with `\r\n` and lone `\r` replaced by `\n`.
/// `s` with `\r\n` and lone `\r` replaced by `\n`.
pub open spec fn line_ends(s: Seq<char>) -> Seq<char>
    decreases s.len(),
{
    if s.len() == 0 {
        Seq::empty()
    } else if s[0] == '\r' {
        seq!['\n'] + line_ends(s.skip(if s.len() > 1 && s[1] == '\n' { 2 } else { 1 }))
    } else {
        seq![s[0]] + line_ends(s.drop_first())
    }
}

/// Text without carriage returns has its line ends as they are.
pub proof fn lemma_line_ends_plain(s: Seq<char>)
    requires
        forall|i: int| 0 <= i < s.len() ==> s[i] != '\r',
    ensures
        line_ends(s) == s,
    decreases s.len(),
{
    if s.len() > 0 {
        lemma_line_ends_plain(s.drop_first());
        assert(seq![s[0]] + s.drop_first() =~= s);
    }
}

fn normalized(v: &Vec<char>, a: usize, b: usize) -> (r: String)
    requires
        a <= b <= v.len(),
    ensures
        r@ == line_ends(v@.subrange(a as int, b as int)),
{
    let mut out = String::new();
    let mut p = a;
    while p < b
        invariant
            a <= p <= b <= v.len(),
            line_ends(v@.subrange(a as int, b as int)) == out@ + line_ends(v@.subrange(p as int, b as int)),
        decreases b - p,
    {
        let ghost before = out@;
        let ghost rest = v@.subrange(p as int, b as int);
        assert(rest[0] == v@[p as int]);
        if v[p] == '\r' {
            push_char(&mut out, '\n');
            if p + 1 < b && v[p + 1] == '\n' {
                assert(rest[1] == v@[p + 1]);
                assert(rest.skip(2) =~= v@.subrange(p + 2, b as int));
                p = p + 2;
            } else {
                assert(rest.skip(1) =~= v@.subrange(p + 1, b as int));
                p = p + 1;
            }
            assert(before + (seq!['\n'] + line_ends(v@.subrange(p as int, b as int))) =~= out@ + line_ends(
                v@.subrange(p as int, b as int),
            ));
        } else {
            push_char(&mut out, v[p]);
            assert(rest.drop_first() =~= v@.subrange(p + 1, b as int));
            p = p + 1;
            assert(before + (seq![v@[p - 1]] + line_ends(v@.subrange(p as int, b as int))) =~= out@ + line_ends(
                v@.subrange(p as int, b as int),
            ));
        }
    }
    assert(v@.subrange(b as int, b as int) =~= Seq::<char>::empty());
    assert(out@ + Seq::<char>::empty() =~= out@);
    out
}

/// Whether `lit` occurs in `s` at `p`.
pub open spec fn occurs_at(s: Seq<char>, p: int, lit: Seq<char>) -> bool {
    0 <= p && p + lit.len() <= s.len() && s.subrange(p, p + lit.len()) == lit
}

/// The first position at or after `from`, before the end, where `lit`
/// occurs.
pub open spec fn first_at(s: Seq<char>, from: int, lit: Seq<char>) -> Option<int>
    decreases s.len() - from,
{
    if from < 0 || from >= s.len() {
        None
    } else if occurs_at(s, from, lit) {
        Some(from)
    } else {
        first_at(s, from + 1, lit)
    }
}

/// The first position at or after `from` where `lit` occurs.
fn find(v: &Vec<char>, from: usize, lit: &[char]) -> (r: Option<usize>)
    requires
        from <= v.len(),
        lit@.len() > 0,
    ensures
        r matches Some(q) ==> from <= q && q + lit@.len() <= v.len() && v@.subrange(q as int, q + lit@.len()) == lit@,
        match r {
            Some(q) => first_at(v@, from as int, lit@) == Some(q as int),
            None => first_at(v@, from as int, lit@) is None,
        },
{
    let mut p = from;
    while p < v.len()
        invariant
            from <= p <= v.len(),
            first_at(v@, from as int, lit@) == first_at(v@, p as int, lit@),
        decreases v.len() - p,
    {
        if looking_at(v, p, lit) {
            return Some(p);
        }
        p = p + 1;
    }
    None
}

// ---------------------------------------------------------------------------
// Markup other than elements
// ---------------------------------------------------------------------------

/// What the comment whose `<!--` starts at `pos` holds, line ends
/// normalized, and the position after its `-->`; `None` where it is not
/// closed or holds `--`.
pub open spec fn comment_at(s: Seq<char>, pos: int) -> Option<(Seq<char>, int)> {
    match first_at(s, pos + 4, seq!['-', '-']) {
        Some(q) => if q + 2 < s.len() && s[q + 2] == '>' {
            Some((line_ends(s.subrange(pos + 4, q)), q + 3))
        } else {
            None
        },
        None => None,
    }
}

/// A comment starting at `pos` with `<!--`.
fn parse_comment(v: &Vec<char>, pos: usize) -> (r: Result<(Node, usize), ParseError>)
    requires
        pos + 4 <= v.len(),
    ensures
        r matches Ok((n, end)) ==> pos < end <= v.len() && n is Comment,
        r is Ok <==> comment_at(v@, pos as int) is Some,
        r matches Ok((Node::Comment(t), end)) ==> comment_at(v@, pos as int) == Some((t@, end as int)),
        size_free(r),
{
    let a = pos + 4;
    let mut p = a;
    while p < v.len()
        invariant
            a <= p <= v.len(),
            pos + 4 == a,
            first_at(v@, a as int, seq!['-', '-']) == first_at(v@, p as int, seq!['-', '-']),
        decreases v.len() - p,
    {
        if v[p] == '-' && at(v, p + 1, '-') {
            assert(occurs_at(v@, p as int, seq!['-', '-'])) by {
                assert(v@.subrange(p as int, p + 2) =~= seq!['-', '-']);
            }
            if at(v, p + 2, '>') {
                return Ok((Node::Comment(normalized(v, a, p)), p + 3));
            }
            return fail(ParseErrorKind::Syntax, p);
        }
        assert(!occurs_at(v@, p as int, seq!['-', '-'])) by {
            if occurs_at(v@, p as int, seq!['-', '-']) {
                assert(v@.subrange(p as int, p + 2)[0] == v@[p as int]);
                assert(v@.subrange(p as int, p + 2)[1] == v@[p + 1]);
            }
        }
        p = p + 1;
    }
    fail(ParseErrorKind::UnexpectedEnd, pos)
}

/// What the CDATA section whose `<![CDATA[` starts at `pos` holds, line
/// ends normalized, and the position after its `]]>`.
pub open spec fn cdata_at(s: Seq<char>, pos: int) -> Option<(Seq<char>, int)> {
    match first_at(s, pos + 9, seq![']', ']', '>']) {
        Some(q) => Some((line_ends(s.subrange(pos + 9, q)), q + 3)),
        None => None,
    }
}

/// A CDATA section starting at `pos` with `<![CDATA[`.
fn parse_cdata(v: &Vec<char>, pos: usize) -> (r: Result<(Node, usize), ParseError>)
    requires
        pos + 9 <= v.len(),
    ensures
        r matches Ok((n, end)) ==> pos < end <= v.len() && n is CData,
        r is Ok <==> cdata_at(v@, pos as int) is Some,
        r matches Ok((Node::CData(t), end)) ==> cdata_at(v@, pos as int) == Some((t@, end as int)),
        size_free(r),
{
    let close = [']', ']', '>'];
    assert(close@ =~= seq![']', ']', '>']);
    match find(v, pos + 9, &close) {
        Some(q) => Ok((Node::CData(normalized(v, pos + 9, q)), q + 3)),
        None => fail(ParseErrorKind::UnexpectedEnd, pos),
    }
}

/// Whether `t` spells `xml` in any letter case.
pub open spec fn is_reserved_target(t: Seq<char>) -> bool {
    t.len() == 3 && (t[0] == 'x' || t[0] == 'X') && (t[1] == 'm' || t[1] == 'M') && (t[2] == 'l' || t[2] == 'L')
}

/// What the processing instruction whose `<?` starts at `pos` holds, line
/// ends normalized, and the position after its `?>`: a target name other
/// than `xml`, then either `?>` or white space and data up to the first `?>`.
pub open spec fn pi_at(s: Seq<char>, pos: int) -> Option<(Seq<char>, int)> {
    let a = pos + 2;
    let e = name_run_end(s, a);
    if e == a || !is_name_start(s[a]) || is_reserved_target(s.subrange(a, e)) {
        None
    } else if occurs_at(s, e, seq!['?', '>']) {
        Some((line_ends(s.subrange(a, e)), e + 2))
    } else if e < s.len() && is_xml_space(s[e]) {
        match first_at(s, e, seq!['?', '>']) {
            Some(q) => Some((line_ends(s.subrange(a, q)), q + 2)),
            None => None,
        }
    } else {
        None
    }
}

/// Whether `v[a..b]` spells `xml` in any letter case.
fn reserved_target(v: &Vec<char>, a: usize, b: usize) -> (r: bool)
    requires
        a <= b <= v.len(),
    ensures
        r == is_reserved_target(v@.subrange(a as int, b as int)),
{
    b - a == 3 && (v[a] == 'x' || v[a] == 'X') && (v[a + 1] == 'm' || v[a + 1] == 'M') && (v[a + 2]
        == 'l' || v[a + 2] == 'L')
}

/// A processing instruction starting at `pos` with `<?`. Its content is
/// the target and data exactly as written between `<?` and `?>`.
fn parse_pi(v: &Vec<char>, pos: usize) -> (r: Result<(Node, usize), ParseError>)
    requires
        pos + 2 <= v.len(),
    ensures
        r matches Ok((n, end)) ==> pos < end <= v.len() && n is ProcessingInstruction,
        r is Ok <==> pi_at(v@, pos as int) is Some,
        r matches Ok((Node::ProcessingInstruction(t), end)) ==> pi_at(v@, pos as int) == Some((t@, end as int)),
        size_free(r),
{
    let a = pos + 2;
    let e = scan_name(v, a);
    if e == a || !name_start(v[a]) {
        return fail(ParseErrorKind::InvalidName, a);
    }
    if reserved_target(v, a, e) {
        return fail(ParseErrorKind::Syntax, a);
    }
    let end_mark = ['?', '>'];
    assert(end_mark@ =~= seq!['?', '>']);
    if looking_at(v, e, &end_mark) {
        return Ok((Node::ProcessingInstruction(normalized(v, a, e)), e + 2));
    }
    if e < v.len() && xml_space(v[e]) {
        match find(v, e, &end_mark) {
            Some(q) => Ok((Node::ProcessingInstruction(normalized(v, a, q)), q + 2)),
            None => fail(ParseErrorKind::UnexpectedEnd, pos),
        }
    } else if e == v.len() {
        fail(ParseErrorKind::UnexpectedEnd, pos)
    } else {
        fail(ParseErrorKind::Syntax, e)
    }
}

/// An attribute value in single or double quotes starting at `pos`, with
/// references decoded and every white-space character replaced by a space
/// (a `\r\n` pair counts once).
/// Reading an attribute value from `p`, after its opening `quote`, as
/// [`attr_from`] does, the first refusal met is an unknown entity.
pub open spec fn attr_entity_refused(s: Seq<char>, p: int, quote: char) -> bool
    decreases s.len() - p,
{
    if p < 0 || p >= s.len() || s[p] == quote || s[p] == '<' {
        false
    } else if s[p] == '&' {
        unknown_entity_at(s, p) || match reference_at(s, p) {
            Some((n, q)) => {
                proof {
                    lemma_reference_bounds(s, p);
                }
                attr_entity_refused(s, q, quote)
            },
            None => false,
        }
    } else if s[p] == '\r' {
        attr_entity_refused(s, if p + 1 < s.len() && s[p + 1] == '\n' { p + 2 } else { p + 1 }, quote)
    } else {
        attr_entity_refused(s, p + 1, quote)
    }
}

/// Reading the quoted attribute value at `pos` as [`attr_value_at`] does,
/// the first refusal met is an unknown entity.
pub open spec fn attr_value_entity_refused(s: Seq<char>, pos: int) -> bool {
    0 <= pos < s.len() && (s[pos] == '"' || s[pos] == '\'') && attr_entity_refused(s, pos + 1, s[pos])
}

fn parse_attr_value(v: &Vec<char>, pos: usize) -> (r: Result<(String, usize), ParseError>)
    requires
        pos <= v.len(),
    ensures
        r matches Ok((s, end)) ==> pos < end <= v.len(),
        r is Ok <==> attr_value_at(v@, pos as int) is Some,
        r matches Ok((s, end)) ==> attr_value_at(v@, pos as int) == Some((s@, end as int)),
        attr_value_entity_refused(v@, pos as int) ==> (r matches Err(e) && e.spec_kind() == ParseErrorKind::UnknownEntity),
        size_free(r),
{
    if pos == v.len() {
        return fail(ParseErrorKind::UnexpectedEnd, pos);
    }
    let quote = v[pos];
    if quote != '"' && quote != '\'' {
        return fail(ParseErrorKind::Syntax, pos);
    }
    let mut out = String::new();
    let mut p = pos + 1;
    while p < v.len()
        invariant
            pos < p <= v.len(),
            quote == v@[pos as int],
            quote == '"' || quote == '\'',
            attr_value_at(v@, pos as int) == (match attr_from(v@, p as int, quote) {
                Some((t, e)) => Some((out@ + t, e)),
                None => None,
            }),
            attr_value_entity_refused(v@, pos as int) == attr_entity_refused(v@, p as int, quote),
        decreases v.len() - p,
    {
        let c = v[p];
        let ghost before = out@;
        if c == quote {
            assert(out@ + Seq::<char>::empty() =~= out@);
            return Ok((out, p + 1));
        } else if c == '<' {
            return fail(ParseErrorKind::Syntax, p);
        } else if c == '&' {
            let (d, q) = match parse_reference(v, p) {
                Ok(x) => x,
                Err(e) => return Err(e),
            };
            proof {
                assert(((d as int) as char) == d);
            }
            push_char(&mut out, d);
            proof {
                match attr_from(v@, q as int, quote) {
                    Some((t, e)) => {
                        assert(before + (seq![d] + t) =~= out@ + t);
                    },
                    None => {},
                }
            }
            p = q;
        } else if c == '\r' {
            push_char(&mut out, ' ');
            if at(v, p + 1, '\n') {
                p = p + 2;
            } else {
                p = p + 1;
            }
        } else if c == '\n' || c == '\t' {
            push_char(&mut out, ' ');
            p = p + 1;
        } else {
            push_char(&mut out, c);
            p = p + 1;
        }
    }
    fail(ParseErrorKind::UnexpectedEnd, pos)
}

// ---------------------------------------------------------------------------
// XML declaration
// ---------------------------------------------------------------------------

/// `S? = S?` at `pos`; the position after it. A missing `=` is reported
/// as `kind`.
fn parse_eq(v: &Vec<char>, pos: usize, kind: ParseErrorKind) -> (r: Result<usize, ParseError>)
    requires
        pos <= v.len(),
        kind != ParseErrorKind::InputTooLarge,
    ensures
        r matches Ok(end) ==> pos < end <= v.len(),
        size_free(r),
        r is Ok <==> eq_at(v@, pos as int),
        r matches Ok(end) ==> end == space_run_end(v@, space_run_end(v@, pos as int) + 1),
{
    let p = skip_ws(v, pos);
    if !at(v, p, '=') {
        return fail(kind, p);
    }
    Ok(skip_ws(v, p + 1))
}

/// After optional white space at `pos` stands `=`.
pub open spec fn eq_at(s: Seq<char>, pos: int) -> bool {
    space_run_end(s, pos) < s.len() && s[space_run_end(s, pos)] == '='
}

/// The first position at or after `p` holding `c`, or the end of `s`.
pub open spec fn char_from(s: Seq<char>, p: int, c: char) -> int
    decreases s.len() - p,
{
    if p < 0 || p >= s.len() || s[p] == c {
        p
    } else {
        char_from(s, p + 1, c)
    }
}

/// A quoted pseudo-attribute value at `pos`: the value's range and the
/// position after the closing quote.
pub open spec fn quoted_at(s: Seq<char>, pos: int) -> Option<(int, int, int)> {
    if 0 <= pos < s.len() && (s[pos] == '"' || s[pos] == '\'') && char_from(s, pos + 1, s[pos]) < s.len() {
        Some((pos + 1, char_from(s, pos + 1, s[pos]), char_from(s, pos + 1, s[pos]) + 1))
    } else {
        None
    }
}

/// The optional pseudo-attribute `name` of an XML declaration after `p`,
/// preceded by white space and with a value `ok` admits: the position after
/// it (`p` where it is absent), or `None` where it is malformed.
pub open spec fn pseudo_attribute(s: Seq<char>, p: int, name: Seq<char>, ok: spec_fn(Seq<char>) -> bool) -> Option<int> {
    let q = space_run_end(s, p);
    if q > p && occurs_at(s, q, name) {
        if !eq_at(s, q + name.len()) {
            None
        } else {
            match quoted_at(s, space_run_end(s, space_run_end(s, q + name.len()) + 1)) {
                Some((a, b, end)) => if ok(s.subrange(a, b)) {
                    Some(end)
                } else {
                    None
                },
                None => None,
            }
        }
    } else {
        Some(p)
    }
}

/// Where the XML declaration at the start of `s` ends: version 1.0, an
/// optional UTF-8 encoding, an optional `yes` or `no` standalone, and `?>`;
/// `None` where the reader refuses it.
pub open spec fn declaration_end(s: Seq<char>) -> Option<int> {
    let p = space_run_end(s, 5);
    if p == 5 || !occurs_at(s, p, seq!['v', 'e', 'r', 's', 'i', 'o', 'n']) || !eq_at(s, p + 7) {
        None
    } else {
        match quoted_at(s, space_run_end(s, space_run_end(s, p + 7) + 1)) {
            Some((a, b, p2)) => if s.subrange(a, b) != seq!['1', '.', '0'] {
                None
            } else {
                match pseudo_attribute(s, p2, seq!['e', 'n', 'c', 'o', 'd', 'i', 'n', 'g'], |t: Seq<char>| is_utf8_label(t)) {
                    Some(p3) => match pseudo_attribute(
                        s,
                        p3,
                        seq!['s', 't', 'a', 'n', 'd', 'a', 'l', 'o', 'n', 'e'],
                        |t: Seq<char>| t == seq!['y', 'e', 's'] || t == seq!['n', 'o'],
                    ) {
                        Some(p4) => if occurs_at(s, space_run_end(s, p4), seq!['?', '>']) {
                            Some(space_run_end(s, p4) + 2)
                        } else {
                            None
                        },
                        None => None,
                    },
                    None => None,
                }
            },
            None => None,
        }
    }
}

/// A quoted pseudo-attribute value at `pos`: the value's range and the
/// position after the closing quote.
fn parse_quoted(v: &Vec<char>, pos: usize) -> (r: Result<(usize, usize, usize), ParseError>)
    requires
        pos <= v.len(),
    ensures
        r matches Ok((a, b, end)) ==> pos < a <= b < end <= v.len(),
        size_free(r),
        r is Ok <==> quoted_at(v@, pos as int) is Some,
        r matches Ok((a, b, end)) ==> quoted_at(v@, pos as int) == Some((a as int, b as int, end as int)),
{
    if pos == v.len() || (v[pos] != '"' && v[pos] != '\'') {
        return fail(ParseErrorKind::InvalidDeclaration, pos);
    }
    let quote = v[pos];
    let mut p = pos + 1;
    while p < v.len() && v[p] != quote
        invariant
            pos < p <= v.len(),
            quote == v@[pos as int],
            char_from(v@, pos + 1, quote) == char_from(v@, p as int, quote),
        decreases v.len() - p,
    {
        p = p + 1;
    }
    if p == v.len() {
        return fail(ParseErrorKind::UnexpectedEnd, pos);
    }
    Ok((pos + 1, p, p + 1))
}

/// Whether `t` names UTF-8, letter case ignored.
pub open spec fn is_utf8_label(t: Seq<char>) -> bool {
    t.len() == 5 && (t[0] == 'u' || t[0] == 'U') && (t[1] == 't' || t[1] == 'T') && (t[2] == 'f' || t[2] == 'F')
        && t[3] == '-' && t[4] == '8'
}

/// Whether `v[a..b]` names UTF-8 (letter case ignored).
fn utf8_label(v: &Vec<char>, a: usize, b: usize) -> (r: bool)
    requires
        a <= b <= v.len(),
    ensures
        r == is_utf8_label(v@.subrange(a as int, b as int)),
{
    b - a == 5 && (v[a] == 'u' || v[a] == 'U') && (v[a + 1] == 't' || v[a + 1] == 'T') && (v[a + 2]
        == 'f' || v[a + 2] == 'F') && v[a + 3] == '-' && v[a + 4] == '8'
}

/// The optional `encoding` of an XML declaration after `p`, which must name
/// UTF-8.
fn parse_encoding(v: &Vec<char>, p: usize) -> (r: Result<(Option<String>, usize), ParseError>)
    requires
        p <= v.len(),
    ensures
        size_free(r),
        r is Ok <==> pseudo_attribute(v@, p as int, seq!['e', 'n', 'c', 'o', 'd', 'i', 'n', 'g'], |t: Seq<char>| is_utf8_label(t)) is Some,
        r matches Ok((x, end)) ==> p <= end <= v.len() && pseudo_attribute(
            v@,
            p as int,
            seq!['e', 'n', 'c', 'o', 'd', 'i', 'n', 'g'],
            |t: Seq<char>| is_utf8_label(t),
        ) == Some(end as int),
{
    let name = ['e', 'n', 'c', 'o', 'd', 'i', 'n', 'g'];
    assert(name@ =~= seq!['e', 'n', 'c', 'o', 'd', 'i', 'n', 'g']);
    let q = skip_ws(v, p);
    if q > p && looking_at(v, q, &name) {
        let r = match parse_eq(v, q + 8, ParseErrorKind::InvalidDeclaration) {
            Ok(x) => x,
            Err(e) => return Err(e),
        };
        let (a, b, end) = match parse_quoted(v, r) {
            Ok(x) => x,
            Err(e) => return Err(e),
        };
        if !utf8_label(v, a, b) {
            return fail(ParseErrorKind::UnsupportedEncoding, a);
        }
        Ok((Some(string_of(v.as_slice(), a, b)), end))
    } else {
        Ok((None, p))
    }
}

/// The optional `standalone` of an XML declaration after `p`, which must be
/// `yes` or `no`.
fn parse_standalone(v: &Vec<char>, p: usize) -> (r: Result<(Option<String>, usize), ParseError>)
    requires
        p <= v.len(),
    ensures
        size_free(r),
        r is Ok <==> pseudo_attribute(
            v@,
            p as int,
            seq!['s', 't', 'a', 'n', 'd', 'a', 'l', 'o', 'n', 'e'],
            |t: Seq<char>| t == seq!['y', 'e', 's'] || t == seq!['n', 'o'],
        ) is Some,
        r matches Ok((x, end)) ==> p <= end <= v.len() && pseudo_attribute(
            v@,
            p as int,
            seq!['s', 't', 'a', 'n', 'd', 'a', 'l', 'o', 'n', 'e'],
            |t: Seq<char>| t == seq!['y', 'e', 's'] || t == seq!['n', 'o'],
        ) == Some(end as int),
{
    let name = ['s', 't', 'a', 'n', 'd', 'a', 'l', 'o', 'n', 'e'];
    let yes = ['y', 'e', 's'];
    let no = ['n', 'o'];
    assert(name@ =~= seq!['s', 't', 'a', 'n', 'd', 'a', 'l', 'o', 'n', 'e']);
    assert(yes@ =~= seq!['y', 'e', 's']);
    assert(no@ =~= seq!['n', 'o']);
    let q = skip_ws(v, p);
    if q > p && looking_at(v, q, &name) {
        let r = match parse_eq(v, q + 10, ParseErrorKind::InvalidDeclaration) {
            Ok(x) => x,
            Err(e) => return Err(e),
        };
        let (a, b, end) = match parse_quoted(v, r) {
            Ok(x) => x,
            Err(e) => return Err(e),
        };
        if !range_is(v, a, b, &yes) && !range_is(v, a, b, &no) {
            return fail(ParseErrorKind::InvalidDeclaration, a);
        }
        Ok((Some(string_of(v.as_slice(), a, b)), end))
    } else {
        Ok((None, p))
    }
}

/// The XML declaration at the start of the input.
fn parse_declaration(v: &Vec<char>) -> (r: Result<(XmlDeclaration, usize), ParseError>)
    requires
        5 <= v.len(),
    ensures
        r matches Ok((d, end)) ==> 0 < end <= v.len(),
        size_free(r),
        r is Ok <==> declaration_end(v@) is Some,
        r matches Ok((d, end)) ==> declaration_end(v@) == Some(end as int),
{
    let version_name = ['v', 'e', 'r', 's', 'i', 'o', 'n'];
    let one_zero = ['1', '.', '0'];
    let close = ['?', '>'];
    assert(version_name@ =~= seq!['v', 'e', 'r', 's', 'i', 'o', 'n']);
    assert(one_zero@ =~= seq!['1', '.', '0']);
    assert(close@ =~= seq!['?', '>']);
    let p = skip_ws(v, 5);
    if p == 5 || !looking_at(v, p, &version_name) {
        return fail(ParseErrorKind::InvalidDeclaration, p);
    }
    let p = match parse_eq(v, p + 7, ParseErrorKind::InvalidDeclaration) {
        Ok(x) => x,
        Err(e) => return Err(e),
    };
    let (a, b, p) = match parse_quoted(v, p) {
        Ok(x) => x,
        Err(e) => return Err(e),
    };
    if !range_is(v, a, b, &one_zero) {
        return fail(ParseErrorKind::UnsupportedVersion, a);
    }
    let version = string_of(v.as_slice(), a, b);
    let (encoding, p) = match parse_encoding(v, p) {
        Ok(x) => x,
        Err(e) => return Err(e),
    };
    let (standalone, p) = match parse_standalone(v, p) {
        Ok(x) => x,
        Err(e) => return Err(e),
    };
    let q = skip_ws(v, p);
    if !looking_at(v, q, &close) {
        return fail(ParseErrorKind::InvalidDeclaration, q);
    }
    Ok((XmlDeclaration { version, encoding, standalone }, q + 2))
}

// ---------------------------------------------------------------------------
// Elements
// ---------------------------------------------------------------------------

/// Appending a node whose exact text continues a replayed range extends the
/// range.
proof fn lemma_extend(
    nodes: Seq<Node>,
    spans: Seq<Option<Span>>,
    node: Node,
    span: Option<Span>,
    src: Seq<char>,
    a: int,
    p: int,
    q: int,
)
    requires
        nodes.len() == spans.len(),
        0 <= a <= p <= q <= src.len(),
        exact_list(nodes, spans, src, nodes.len() as int) == Ok::<Seq<char>, ExactWriteError>(src.subrange(a, p)),
        exact_node(node, span, src) == Ok::<Seq<char>, ExactWriteError>(src.subrange(p, q)),
    ensures
        exact_list(nodes.push(node), spans.push(span), src, nodes.len() + 1int) == Ok::<Seq<char>, ExactWriteError>(
            src.subrange(a, q),
        ),
{
    lemma_exact_list_push(nodes, spans, node, span, src);
    assert(src.subrange(a, p) + src.subrange(p, q) =~= src.subrange(a, q));
}

/// `v[a..b]` as characters.
fn chars_range(v: &Vec<char>, a: usize, b: usize) -> (r: Vec<char>)
    requires
        a <= b <= v.len(),
    ensures
        r@ == v@.subrange(a as int, b as int),
{
    let mut out: Vec<char> = Vec::new();
    let mut i = a;
    while i < b
        invariant
            a <= i <= b <= v.len(),
            out@ == v@.subrange(a as int, i as int),
        decreases b - i,
    {
        out.push(v[i]);
        assert(v@.subrange(a as int, i + 1) =~= v@.subrange(a as int, i as int).push(v@[i as int]));
        i = i + 1;
    }
    out
}

fn ns_str(ns: &Option<Arc<String>>) -> (r: Option<&str>)
    ensures
        opt_str_view(r) == opt_view(*ns),
{
    match ns {
        Some(a) => Some(a.as_str()),
        None => None,
    }
}

/// The reserved namespace names, which no prefix may be bound to.
pub open spec fn is_reserved_namespace(value: Seq<char>) -> bool {
    value == XML_NAMESPACE@ || value == XMLNS_NAMESPACE@
}

fn reserved_namespace(value: &str) -> (r: bool)
    ensures
        r == is_reserved_namespace(value@),
{
    str_eq(value, XML_NAMESPACE) || str_eq(value, XMLNS_NAMESPACE)
}

/// One namespace declaration in scope.
struct Binding {
    /// The declared prefix; `None` for the default namespace.
    prefix: Option<Vec<char>>,
    /// The bound namespace; `None` where the default namespace was undeclared.
    uri: Option<Arc<String>>,
}

/// A binding as characters: the prefix, or `None` for the default
/// namespace, and the namespace bound.
spec fn binding_view(b: Binding) -> (Option<Seq<char>>, Option<Seq<char>>) {
    (
        match b.prefix {
            Some(p) => Some(p@),
            None => None,
        },
        opt_view(b.uri),
    )
}

spec fn scope_view(bindings: Seq<Binding>) -> Seq<(Option<Seq<char>>, Option<Seq<char>>)> {
    bindings.map_values(|b: Binding| binding_view(b))
}

/// The namespace the innermost declaration of `prefix` in `scope` binds.
pub open spec fn bound_uri(scope: Seq<(Option<Seq<char>>, Option<Seq<char>>)>, prefix: Seq<char>) -> Option<Seq<char>>
    decreases scope.len(),
{
    if scope.len() == 0 {
        None
    } else if scope.last().0 == Some(prefix) {
        scope.last().1
    } else {
        bound_uri(scope.drop_last(), prefix)
    }
}

/// The default namespace the innermost default declaration in `scope`
/// binds; `None` where there is none or it was undeclared.
pub open spec fn default_uri(scope: Seq<(Option<Seq<char>>, Option<Seq<char>>)>) -> Option<Seq<char>>
    decreases scope.len(),
{
    if scope.len() == 0 {
        None
    } else if scope.last().0 is None {
        scope.last().1
    } else {
        default_uri(scope.drop_last())
    }
}

/// An attribute as written, before namespace resolution.
struct RawAttribute {
    start: usize,
    end: usize,
    colon: Option<usize>,
    value: String,
    value_start: usize,
}

/// An attribute as written: its name is the run of name characters at
/// `start`, and its value what the quoted literal at `value_start` reads as.
spec fn raw_read(r: RawAttribute, v: Seq<char>) -> bool {
    &&& r.end == name_run_end(v, r.start as int)
    &&& attr_value_at(v, r.value_start as int) matches Some((val, _)) && val == r.value@
}

/// An attribute as written, as the specifications read it: its name's
/// range, the position of the colon in it, if any, and its value.
pub struct Written {
    pub start: usize,
    pub end: usize,
    pub colon: Option<usize>,
    pub value: Seq<char>,
}

spec fn written(r: RawAttribute) -> Written {
    Written { start: r.start, end: r.end, colon: r.colon, value: r.value@ }
}

spec fn written_all(raw: Seq<RawAttribute>) -> Seq<Written> {
    raw.map_values(|r: RawAttribute| written(r))
}

spec fn written_ok(r: Written, n: int) -> bool {
    &&& r.start < r.end <= n
    &&& r.colon matches Some(c) ==> r.start < c && c + 1 < r.end
}

spec fn raw_ok(r: RawAttribute, n: int) -> bool {
    written_ok(written(r), n)
}

pub type Scope = Seq<(Option<Seq<char>>, Option<Seq<char>>)>;

/// The scope after one attribute as written: a default namespace
/// declaration binds or undeclares the default namespace, an `xmlns:p`
/// declaration binds `p`, `xmlns:xml` must name the XML namespace and binds
/// nothing; reserved names and empty prefixed declarations are refused.
pub open spec fn declare_step(v: Seq<char>, item: Written, scope: Scope) -> Result<Scope, ParseErrorKind> {
    let xmlns = seq!['x', 'm', 'l', 'n', 's'];
    let value = item.value;
    if v.subrange(item.start as int, item.end as int) == xmlns {
        if value.len() == 0 {
            Ok(scope.push((None, None)))
        } else if is_reserved_namespace(value) {
            Err(ParseErrorKind::ReservedNamespace)
        } else {
            Ok(scope.push((None, Some(value))))
        }
    } else {
        match item.colon {
            Some(c) => if v.subrange(item.start as int, c as int) == xmlns {
                let local = v.subrange(c + 1, item.end as int);
                if local == xmlns {
                    Err(ParseErrorKind::ReservedNamespace)
                } else if local == seq!['x', 'm', 'l'] {
                    if value != XML_NAMESPACE@ {
                        Err(ParseErrorKind::ReservedNamespace)
                    } else {
                        Ok(scope)
                    }
                } else if value.len() == 0 {
                    Err(ParseErrorKind::Syntax)
                } else if is_reserved_namespace(value) {
                    Err(ParseErrorKind::ReservedNamespace)
                } else {
                    Ok(scope.push((Some(local), Some(value))))
                }
            } else {
                Ok(scope)
            },
            None => Ok(scope),
        }
    }
}

/// The scope after the first `n` attributes as written, and the first
/// refusal with the start of the attribute refused, if any.
pub open spec fn declare_outcome(v: Seq<char>, raw: Seq<Written>, n: int, scope: Scope) -> (Scope, Option<(ParseErrorKind, int)>)
    decreases n,
{
    if n <= 0 || n > raw.len() {
        (scope, None)
    } else {
        let (s, e) = declare_outcome(v, raw, n - 1, scope);
        if e is Some {
            (s, e)
        } else {
            match declare_step(v, raw[n - 1], s) {
                Ok(s2) => (s2, None),
                Err(k) => (s, Some((k, raw[n - 1].start as int))),
            }
        }
    }
}

proof fn lemma_declare_refusal_stays(v: Seq<char>, raw: Seq<Written>, i: int, n: int, scope: Scope)
    requires
        1 <= i <= n <= raw.len(),
        declare_outcome(v, raw, i, scope).1 is Some,
    ensures
        declare_outcome(v, raw, n, scope) == declare_outcome(v, raw, i, scope),
    decreases n - i,
{
    if i < n {
        lemma_declare_refusal_stays(v, raw, i, n - 1, scope);
    }
}

/// An attribute's qualified name, prefix, local name, namespace and value.
pub open spec fn attribute_view(a: Attribute) -> (Seq<char>, Option<Seq<char>>, Seq<char>, Option<Seq<char>>, Seq<char>) {
    (a.spec_qname(), a.spec_prefix(), a.spec_local_name(), a.spec_namespace(), a.spec_value())
}

/// A resolved attribute keeps the name and the value it was written with.
proof fn lemma_resolved_as_written(
    v: Seq<char>,
    raw: Seq<Written>,
    n: int,
    scope: Scope,
    xml_ns: Seq<char>,
    xmlns_ns: Seq<char>,
)
    requires
        0 <= n <= raw.len(),
        resolve_outcome(v, raw, n, scope, xml_ns, xmlns_ns) is Ok,
    ensures
        resolve_outcome(v, raw, n, scope, xml_ns, xmlns_ns) matches Ok(attrs) && attrs.len() == n && forall|k: int|
            0 <= k < n ==> (#[trigger] attrs[k]).0 == v.subrange(raw[k].start as int, raw[k].end as int)
                && attrs[k].4 == raw[k].value && resolve_step(v, raw[k], scope, xml_ns, xmlns_ns) == Ok::<
                (Seq<char>, Option<Seq<char>>, Seq<char>, Option<Seq<char>>, Seq<char>),
                ParseErrorKind,
            >(attrs[k]),
    decreases n,
{
    if n > 0 {
        lemma_resolved_as_written(v, raw, n - 1, scope, xml_ns, xmlns_ns);
        let attrs = resolve_outcome(v, raw, n - 1, scope, xml_ns, xmlns_ns)->Ok_0;
        let a = resolve_step(v, raw[n - 1], scope, xml_ns, xmlns_ns)->Ok_0;
        assert(resolve_outcome(v, raw, n, scope, xml_ns, xmlns_ns) == Ok::<
            Seq<(Seq<char>, Option<Seq<char>>, Seq<char>, Option<Seq<char>>, Seq<char>)>,
            (ParseErrorKind, int),
        >(attrs.push(a)));
        assert forall|k: int| 0 <= k < n implies (#[trigger] attrs.push(a)[k]).0 == v.subrange(
            raw[k].start as int,
            raw[k].end as int,
        ) && attrs.push(a)[k].4 == raw[k].value && resolve_step(v, raw[k], scope, xml_ns, xmlns_ns) == Ok::<
            (Seq<char>, Option<Seq<char>>, Seq<char>, Option<Seq<char>>, Seq<char>),
            ParseErrorKind,
        >(attrs.push(a)[k]) by {
            if k < n - 1 {
                assert(attrs.push(a)[k] == attrs[k]);
            }
        }
    }
}

/// A declaration step that succeeds binds what the attribute it reads
/// declares.
proof fn lemma_declared_step(
    v: Seq<char>,
    item: Written,
    scope: Scope,
    a: Attribute,
    rs: Scope,
    xml_ns: Seq<char>,
    xmlns_ns: Seq<char>,
)
    requires
        written_ok(item, v.len() as int),
        resolve_step(v, item, rs, xml_ns, xmlns_ns) == Ok::<
            (Seq<char>, Option<Seq<char>>, Seq<char>, Option<Seq<char>>, Seq<char>),
            ParseErrorKind,
        >(attribute_view(a)),
        declare_step(v, item, scope) is Ok,
    ensures
        declare_step(v, item, scope) == Ok::<Scope, ParseErrorKind>(declared_by(a, scope)),
{
}

/// The namespace resolution of an attribute as written is the namespace
/// its prefix names in `scope`.
proof fn lemma_attribute_namespace(v: Seq<char>, item: Written, scope: Scope, a: Attribute)
    requires
        written_ok(item, v.len() as int),
        resolve_step(v, item, scope, XML_NAMESPACE@, XMLNS_NAMESPACE@) == Ok::<
            (Seq<char>, Option<Seq<char>>, Seq<char>, Option<Seq<char>>, Seq<char>),
            ParseErrorKind,
        >(attribute_view(a)),
    ensures
        a.spec_namespace() == attribute_namespace(a, scope),
{
}

/// Declaring the attributes as written, when nothing is refused, extends
/// the scope by what the resolved attributes declare.
proof fn lemma_declared_as_written(
    v: Seq<char>,
    raw: Seq<Written>,
    n: int,
    scope: Scope,
    attrs: Seq<Attribute>,
    rs: Scope,
    xml_ns: Seq<char>,
    xmlns_ns: Seq<char>,
)
    requires
        0 <= n <= raw.len(),
        n <= attrs.len(),
        declare_outcome(v, raw, n, scope).1 is None,
        forall|k: int| 0 <= k < raw.len() ==> written_ok(#[trigger] raw[k], v.len() as int),
        forall|k: int|
            0 <= k < n ==> resolve_step(v, #[trigger] raw[k], rs, xml_ns, xmlns_ns) == Ok::<
                (Seq<char>, Option<Seq<char>>, Seq<char>, Option<Seq<char>>, Seq<char>),
                ParseErrorKind,
            >(attribute_view(attrs[k])),
    ensures
        declare_outcome(v, raw, n, scope).0 == scope_after(attrs, n, scope),
        declare_outcome(v, raw, n, scope).0.len() >= scope.len(),
        declare_outcome(v, raw, n, scope).0.subrange(0, scope.len() as int) == scope,
    decreases n,
{
    if n > 0 {
        if declare_outcome(v, raw, n - 1, scope).1 is Some {
            lemma_declare_refusal_stays(v, raw, n - 1, n, scope);
        }
        lemma_declared_as_written(v, raw, n - 1, scope, attrs, rs, xml_ns, xmlns_ns);
        let before = declare_outcome(v, raw, n - 1, scope).0;
        assert(written_ok(raw[n - 1], v.len() as int));
        lemma_declared_step(v, raw[n - 1], before, attrs[n - 1], rs, xml_ns, xmlns_ns);
        let after = declared_by(attrs[n - 1], before);
        assert(after.subrange(0, scope.len() as int) =~= before.subrange(0, scope.len() as int));
    }
}

/// One attribute as written, resolved against `scope`: `xmlns` and
/// `xmlns:*` are in the namespace of namespace declarations, `xml:*` in the
/// XML namespace, another prefix in the namespace it is bound to, and an
/// unprefixed name in none; an unbound prefix is refused.
pub open spec fn resolve_step(
    v: Seq<char>,
    item: Written,
    scope: Scope,
    xml_ns: Seq<char>,
    xmlns_ns: Seq<char>,
) -> Result<(Seq<char>, Option<Seq<char>>, Seq<char>, Option<Seq<char>>, Seq<char>), ParseErrorKind> {
    let xmlns = seq!['x', 'm', 'l', 'n', 's'];
    let qname = v.subrange(item.start as int, item.end as int);
    if qname == xmlns {
        Ok((qname, None, qname, Some(xmlns_ns), item.value))
    } else {
        match item.colon {
            None => Ok((qname, None, qname, None, item.value)),
            Some(c) => {
                let prefix = v.subrange(item.start as int, c as int);
                let namespace = if prefix == xmlns {
                    Some(xmlns_ns)
                } else if prefix == seq!['x', 'm', 'l'] {
                    Some(xml_ns)
                } else {
                    bound_uri(scope, prefix)
                };
                if namespace is None {
                    Err(ParseErrorKind::UndeclaredPrefix)
                } else {
                    Ok((qname, Some(prefix), v.subrange(c + 1, item.end as int), namespace, item.value))
                }
            },
        }
    }
}

/// The first `n` attributes resolved, or the first refusal with the start
/// of the attribute refused: an unbound prefix, or a namespaced attribute
/// whose namespace and local name an earlier one has.
pub open spec fn resolve_outcome(
    v: Seq<char>,
    raw: Seq<Written>,
    n: int,
    scope: Scope,
    xml_ns: Seq<char>,
    xmlns_ns: Seq<char>,
) -> Result<Seq<(Seq<char>, Option<Seq<char>>, Seq<char>, Option<Seq<char>>, Seq<char>)>, (ParseErrorKind, int)>
    decreases n,
{
    if n <= 0 || n > raw.len() {
        Ok(Seq::empty())
    } else {
        match resolve_outcome(v, raw, n - 1, scope, xml_ns, xmlns_ns) {
            Err(x) => Err(x),
            Ok(attrs) => match resolve_step(v, raw[n - 1], scope, xml_ns, xmlns_ns) {
                Err(k) => Err((k, raw[n - 1].start as int)),
                Ok(a) => if a.3 is Some && exists|j: int| 0 <= j < attrs.len() && #[trigger] attrs[j].3 == a.3 && attrs[j].2 == a.2 {
                    Err((ParseErrorKind::DuplicateAttribute, raw[n - 1].start as int))
                } else {
                    Ok(attrs.push(a))
                },
            },
        }
    }
}

proof fn lemma_resolve_refusal_stays(
    v: Seq<char>,
    raw: Seq<Written>,
    i: int,
    n: int,
    scope: Scope,
    xml_ns: Seq<char>,
    xmlns_ns: Seq<char>,
)
    requires
        1 <= i <= n <= raw.len(),
        resolve_outcome(v, raw, i, scope, xml_ns, xmlns_ns) is Err,
    ensures
        resolve_outcome(v, raw, n, scope, xml_ns, xmlns_ns) == resolve_outcome(v, raw, i, scope, xml_ns, xmlns_ns),
    decreases n - i,
{
    if i < n {
        lemma_resolve_refusal_stays(v, raw, i, n - 1, scope, xml_ns, xmlns_ns);
    }
}

/// Parsing state shared along one document: the node count and the
/// namespace declarations in scope, innermost last.
struct Reader {
    nodes: usize,
    bindings: Vec<Binding>,
    xml_namespace: Arc<String>,
    xmlns_namespace: Arc<String>,
}

impl Reader {
    fn count_node(&mut self, options: &ParseOptions, pos: usize) -> (r: Result<(), ParseError>)
        ensures
            size_free(r),
            r is Ok <==> old(self).nodes < options.max_nodes,
            r matches Err(e) ==> e.spec_kind() == ParseErrorKind::NodeLimit && e.spec_position() == pos,
            final(self).nodes == if old(self).nodes < options.max_nodes {
                old(self).nodes + 1
            } else {
                old(self).nodes as int
            },
            final(self).bindings == old(self).bindings,
            final(self).xml_namespace == old(self).xml_namespace,
            final(self).xmlns_namespace == old(self).xmlns_namespace,
    {
        if self.nodes >= options.max_nodes {
            return fail(ParseErrorKind::NodeLimit, pos);
        }
        self.nodes = self.nodes + 1;
        Ok(())
    }

    /// The namespace bound to the prefix `v[a..b]`, if it is declared.
    fn lookup_prefix(&self, v: &Vec<char>, a: usize, b: usize) -> (r: Option<Arc<String>>)
        requires
            a <= b <= v.len(),
        ensures
            opt_view(r) == if v@.subrange(a as int, b as int) == seq!['x', 'm', 'l'] {
                Some(self.xml_namespace@)
            } else {
                bound_uri(scope_view(self.bindings@), v@.subrange(a as int, b as int))
            },
    {
        let xml = ['x', 'm', 'l'];
        assert(xml@ =~= seq!['x', 'm', 'l']);
        if range_is(v, a, b, &xml) {
            return Some(self.xml_namespace.clone());
        }
        let ghost name = v@.subrange(a as int, b as int);
        let ghost scope = scope_view(self.bindings@);
        let mut i = self.bindings.len();
        assert(scope.take(i as int) =~= scope);
        while i > 0
            invariant
                i <= self.bindings@.len(),
                a <= b <= v.len(),
                name == v@.subrange(a as int, b as int),
                scope == scope_view(self.bindings@),
                name != seq!['x', 'm', 'l'],
                bound_uri(scope, name) == bound_uri(scope.take(i as int), name),
            decreases i,
        {
            i = i - 1;
            proof {
                assert(scope.take(i + 1).drop_last() =~= scope.take(i as int));
                assert(scope.take(i + 1).last() == binding_view(self.bindings@[i as int]));
            }
            match &self.bindings[i].prefix {
                Some(p) => {
                    if chars_match(p, v, a, b) {
                        proof {
                            assert(binding_view(self.bindings@[i as int]).0 == Some(name));
                        }
                        return match &self.bindings[i].uri {
                    Some(u) => Some(u.clone()),
                    None => None,
                };
                    }
                },
                None => {},
            }
        }
        None
    }

    /// The default namespace in scope.
    fn default_namespace(&self) -> (r: Option<Arc<String>>)
        ensures
            opt_view(r) == default_uri(scope_view(self.bindings@)),
    {
        let ghost scope = scope_view(self.bindings@);
        let mut i = self.bindings.len();
        assert(scope.take(i as int) =~= scope);
        while i > 0
            invariant
                i <= self.bindings@.len(),
                scope == scope_view(self.bindings@),
                default_uri(scope) == default_uri(scope.take(i as int)),
            decreases i,
        {
            i = i - 1;
            proof {
                assert(scope.take(i + 1).drop_last() =~= scope.take(i as int));
                assert(scope.take(i + 1).last() == binding_view(self.bindings@[i as int]));
            }
            if self.bindings[i].prefix.is_none() {
                return match &self.bindings[i].uri {
                    Some(u) => Some(u.clone()),
                    None => None,
                };
            }
        }
        None
    }
}

impl Reader {
    /// The start tag's attributes, up to and including `>` or `/>`: the
    /// attributes as written, the position after the tag, and whether the
    /// tag was an empty-element tag.
    fn parse_attributes(v: &Vec<char>, from: usize, options: &ParseOptions) -> (r: Result<
        (Vec<RawAttribute>, usize, bool),
        ParseError,
    >)
        requires
            from <= v.len(),
        ensures
            r matches Ok((raw, end, empty)) ==> from < end <= v.len() && forall|k: int|
                0 <= k < raw@.len() ==> raw_ok(#[trigger] raw@[k], v.len() as int),
            r matches Ok((raw, end, empty)) ==> forall|k: int|
                0 <= k < raw@.len() ==> raw_read(#[trigger] raw@[k], v@) && from <= raw@[k].start && raw@[k].value_start
                    < end,
            r matches Ok((raw, end, empty)) ==> raw@.len() <= options.max_attributes_per_element,
            tag_closes_bare(v@, from as int) ==> (r matches Ok((raw, end, empty)) && raw@.len() == 0),
            r is Ok <==> attrs_scan(v@, from as int, Seq::empty(), options.max_attributes_per_element as int) is Some,
            r matches Ok((raw, end, empty)) ==> attrs_scan(
                v@,
                from as int,
                Seq::empty(),
                options.max_attributes_per_element as int,
            ) == Some((written_all(raw@), end as int, empty)),
            attrs_limit_refused(v@, from as int, Seq::empty(), options.max_attributes_per_element as int) ==> (r matches Err(
                e,
            ) && e.spec_kind() == ParseErrorKind::AttributeLimit),
            attrs_entity_refused(v@, from as int, Seq::empty(), options.max_attributes_per_element as int) ==> (r matches Err(
                e,
            ) && e.spec_kind() == ParseErrorKind::UnknownEntity),
            size_free(r),
    {
        assert(written_all(Seq::<RawAttribute>::empty()) =~= Seq::<Written>::empty());
        let mut raw: Vec<RawAttribute> = Vec::new();
        let mut p = from;
        loop
            invariant
                from <= p <= v.len(),
                forall|k: int| 0 <= k < raw@.len() ==> raw_ok(#[trigger] raw@[k], v.len() as int),
                forall|k: int|
                    0 <= k < raw@.len() ==> raw_read(#[trigger] raw@[k], v@) && from <= raw@[k].start
                        && raw@[k].value_start < p,
                raw@.len() <= options.max_attributes_per_element,
                tag_closes_bare(v@, from as int) ==> p == from && raw@.len() == 0,
                attrs_scan(v@, from as int, Seq::empty(), options.max_attributes_per_element as int) == attrs_scan(
                    v@,
                    p as int,
                    written_all(raw@),
                    options.max_attributes_per_element as int,
                ),
                attrs_limit_refused(v@, from as int, Seq::empty(), options.max_attributes_per_element as int)
                    == attrs_limit_refused(v@, p as int, written_all(raw@), options.max_attributes_per_element as int),
                attrs_entity_refused(v@, from as int, Seq::empty(), options.max_attributes_per_element as int)
                    == attrs_entity_refused(v@, p as int, written_all(raw@), options.max_attributes_per_element as int),
            decreases v.len() - p,
        {
            let q = skip_ws(v, p);
            if q == v.len() {
                return fail(ParseErrorKind::UnexpectedEnd, q);
            }
            if v[q] == '>' {
                return Ok((raw, q + 1, false));
            }
            if v[q] == '/' {
                if at(v, q + 1, '>') {
                    return Ok((raw, q + 2, true));
                }
                return fail(ParseErrorKind::Syntax, q);
            }
            if q == p {
                return fail(ParseErrorKind::Syntax, q);
            }
            let ne = scan_name(v, q);
            let colon = match split_qname(v, q, ne) {
                Ok(c) => c,
                Err(e) => return Err(e),
            };
            let mut k: usize = 0;
            while k < raw.len()
                invariant
                    k <= raw@.len(),
                    q < ne <= v.len(),
                    forall|j: int| 0 <= j < raw@.len() ==> raw_ok(#[trigger] raw@[j], v.len() as int),
                    !tag_closes_bare(v@, from as int),
                    p <= v.len(),
                    attrs_scan(v@, from as int, Seq::empty(), options.max_attributes_per_element as int) == attrs_scan(
                        v@,
                        p as int,
                        written_all(raw@),
                        options.max_attributes_per_element as int,
                    ),
                    attrs_limit_refused(v@, from as int, Seq::empty(), options.max_attributes_per_element as int)
                        == attrs_limit_refused(v@, p as int, written_all(raw@), options.max_attributes_per_element as int),
                    attrs_entity_refused(v@, from as int, Seq::empty(), options.max_attributes_per_element as int)
                        == attrs_entity_refused(v@, p as int, written_all(raw@), options.max_attributes_per_element as int),
                    q == space_run_end(v@, p as int),
                    q < v.len(),
                    v@[q as int] != '>' && v@[q as int] != '/',
                    q != p,
                    ne == name_run_end(v@, q as int),
                    qname_split(v@, q as int, ne as int) is Some,
                    forall|j: int|
                        0 <= j < k ==> v@.subrange(raw@[j].start as int, raw@[j].end as int) != v@.subrange(
                            q as int,
                            ne as int,
                        ),
                decreases raw.len() - k,
            {
                assert(raw_ok(raw@[k as int], v.len() as int));
                if same_range(v, raw[k].start, raw[k].end, q, ne) {
                    assert(written_all(raw@)[k as int] == written(raw@[k as int]));
                    assert(repeats_name(v@, written_all(raw@), q as int, ne as int));
                    return fail(ParseErrorKind::DuplicateAttribute, q);
                }
                k = k + 1;
            }
            assert(!repeats_name(v@, written_all(raw@), q as int, ne as int)) by {
                assert forall|j: int| 0 <= j < raw@.len() implies v@.subrange(
                    (#[trigger] written_all(raw@)[j]).start as int,
                    written_all(raw@)[j].end as int,
                ) != v@.subrange(q as int, ne as int) by {
                    assert(written_all(raw@)[j] == written(raw@[j]));
                }
            }
            if raw.len() >= options.max_attributes_per_element {
                return fail(ParseErrorKind::AttributeLimit, q);
            }
            let e = match parse_eq(v, ne, ParseErrorKind::Syntax) {
                Ok(x) => x,
                Err(e) => return Err(e),
            };
            let (value, end) = match parse_attr_value(v, e) {
                Ok(x) => x,
                Err(e) => return Err(e),
            };
            let item = RawAttribute { start: q, end: ne, colon, value, value_start: e };
            assert(raw_ok(item, v.len() as int));
            assert(raw_read(item, v@));
            let ghost before = raw@;
            raw.push(item);
            assert(written_all(raw@) =~= written_all(before).push(written(item)));
            p = end;
        }
    }

    /// Brings the namespace declarations among `raw` into scope.
    fn declare_namespaces(&mut self, v: &Vec<char>, raw: &Vec<RawAttribute>) -> (r: Result<(), ParseError>)
        requires
            forall|k: int| 0 <= k < raw@.len() ==> raw_ok(#[trigger] raw@[k], v.len() as int),
        ensures
            size_free(r),
            scope_view(final(self).bindings@) == declare_outcome(v@, written_all(raw@), raw@.len() as int, scope_view(old(self).bindings@)).0,
            r is Err <==> declare_outcome(v@, written_all(raw@), raw@.len() as int, scope_view(old(self).bindings@)).1 is Some,
            r matches Err(e) ==> declare_outcome(v@, written_all(raw@), raw@.len() as int, scope_view(old(self).bindings@)).1 == Some(
                (e.spec_kind(), e.spec_position() as int),
            ),
            final(self).nodes == old(self).nodes,
            final(self).xml_namespace == old(self).xml_namespace,
            final(self).xmlns_namespace == old(self).xmlns_namespace,
    {
        let ghost start = scope_view(self.bindings@);
        let xmlns = ['x', 'm', 'l', 'n', 's'];
        let xml = ['x', 'm', 'l'];
        assert(xmlns@ =~= seq!['x', 'm', 'l', 'n', 's'] && xml@ =~= seq!['x', 'm', 'l']);
        let mut i: usize = 0;
        while i < raw.len()
            invariant
                i <= raw@.len(),
                forall|k: int| 0 <= k < raw@.len() ==> raw_ok(#[trigger] raw@[k], v.len() as int),
                xmlns@ == seq!['x', 'm', 'l', 'n', 's'],
                xml@ == seq!['x', 'm', 'l'],
                start == scope_view(old(self).bindings@),
                declare_outcome(v@, written_all(raw@), i as int, start).1 is None,
                scope_view(self.bindings@) == declare_outcome(v@, written_all(raw@), i as int, start).0,
                self.nodes == old(self).nodes,
                self.xml_namespace == old(self).xml_namespace,
                self.xmlns_namespace == old(self).xmlns_namespace,
            decreases raw.len() - i,
        {
            let item = &raw[i];
            assert(raw_ok(raw@[i as int], v.len() as int));
            let value = item.value.as_str();
            let ghost before = self.bindings@;
            proof {
                if declare_outcome(v@, written_all(raw@), i + 1, start).1 is Some {
                    lemma_declare_refusal_stays(v@, written_all(raw@), i + 1, raw@.len() as int, start);
                }
            }
            if range_is(v, item.start, item.end, &xmlns) {
                if value.unicode_len() == 0 {
                    self.bindings.push(Binding { prefix: None, uri: None });
                } else if reserved_namespace(value) {
                    return fail(ParseErrorKind::ReservedNamespace, item.start);
                } else {
                    self.bindings.push(
                        Binding { prefix: None, uri: Some(Arc::new(item.value.clone())) },
                    );
                }
            } else if let Some(c) = item.colon {
                if range_is(v, item.start, c, &xmlns) {
                    if range_is(v, c + 1, item.end, &xmlns) {
                        return fail(ParseErrorKind::ReservedNamespace, item.start);
                    } else if range_is(v, c + 1, item.end, &xml) {
                        if !str_eq(value, XML_NAMESPACE) {
                            return fail(ParseErrorKind::ReservedNamespace, item.start);
                        }
                    } else if value.unicode_len() == 0 {
                        return fail(ParseErrorKind::Syntax, item.start);
                    } else if reserved_namespace(value) {
                        return fail(ParseErrorKind::ReservedNamespace, item.start);
                    } else {
                        let prefix = chars_range(v, c + 1, item.end);
                        self.bindings.push(
                            Binding { prefix: Some(prefix), uri: Some(Arc::new(item.value.clone())) },
                        );
                    }
                }
            }
            proof {
                assert(scope_view(self.bindings@) =~= declare_outcome(v@, written_all(raw@), i + 1, start).0);
            }
            i = i + 1;
        }
        Ok(())
    }

    /// Resolves the attributes as written against the declarations in scope
    /// and rejects two attributes with one expanded name.
    fn resolve_attributes(&self, v: &Vec<char>, raw: &Vec<RawAttribute>) -> (r: Result<Vec<Attribute>, ParseError>)
        requires
            forall|k: int| 0 <= k < raw@.len() ==> raw_ok(#[trigger] raw@[k], v.len() as int),
        ensures
            size_free(r),
            match resolve_outcome(
                v@,
                written_all(raw@),
                raw@.len() as int,
                scope_view(self.bindings@),
                self.xml_namespace@,
                self.xmlns_namespace@,
            ) {
                Ok(attrs) => r matches Ok(out) && out@.map_values(|a: Attribute| attribute_view(a)) == attrs,
                Err((k, p)) => r matches Err(e) && e.spec_kind() == k && e.spec_position() == p,
            },
    {
        let ghost scope = scope_view(self.bindings@);
        let ghost xml_ns = self.xml_namespace@;
        let ghost xmlns_ns = self.xmlns_namespace@;
        let xmlns = ['x', 'm', 'l', 'n', 's'];
        assert(xmlns@ =~= seq!['x', 'm', 'l', 'n', 's']);
        let mut attributes: Vec<Attribute> = Vec::new();
        let mut i: usize = 0;
        assert(attributes@.map_values(|a: Attribute| attribute_view(a)) =~= Seq::empty());
        while i < raw.len()
            invariant
                i <= raw@.len(),
                forall|k: int| 0 <= k < raw@.len() ==> raw_ok(#[trigger] raw@[k], v.len() as int),
                xmlns@ == seq!['x', 'm', 'l', 'n', 's'],
                scope == scope_view(self.bindings@),
                xml_ns == self.xml_namespace@,
                xmlns_ns == self.xmlns_namespace@,
                resolve_outcome(v@, written_all(raw@), i as int, scope, xml_ns, xmlns_ns) == Ok::<
                    Seq<(Seq<char>, Option<Seq<char>>, Seq<char>, Option<Seq<char>>, Seq<char>)>,
                    (ParseErrorKind, int),
                >(attributes@.map_values(|a: Attribute| attribute_view(a))),
            decreases raw.len() - i,
        {
            let item = &raw[i];
            assert(raw_ok(raw@[i as int], v.len() as int));
            proof {
                if resolve_outcome(v@, written_all(raw@), i + 1, scope, xml_ns, xmlns_ns) is Err {
                    lemma_resolve_refusal_stays(v@, written_all(raw@), i + 1, raw@.len() as int, scope, xml_ns, xmlns_ns);
                }
            }
            let ghost views = attributes@.map_values(|a: Attribute| attribute_view(a));
            let qname = string_of(v.as_slice(), item.start, item.end);
            let (prefix, local, namespace) = if range_is(v, item.start, item.end, &xmlns) {
                (None, string_of(v.as_slice(), item.start, item.end), Some(self.xmlns_namespace.clone()))
            } else {
                match item.colon {
                    None => (None, string_of(v.as_slice(), item.start, item.end), None),
                    Some(c) => {
                        let namespace = if range_is(v, item.start, c, &xmlns) {
                            Some(self.xmlns_namespace.clone())
                        } else {
                            match self.lookup_prefix(v, item.start, c) {
                                Some(ns) => Some(ns),
                                None => return fail(ParseErrorKind::UndeclaredPrefix, item.start),
                            }
                        };
                        (
                            Some(string_of(v.as_slice(), item.start, c)),
                            string_of(v.as_slice(), c + 1, item.end),
                            namespace,
                        )
                    },
                }
            };
            let ghost this = (qname@, opt_string_view(prefix), local@, opt_view(namespace), item.value@);
            assert(resolve_step(v@, written(raw@[i as int]), scope, xml_ns, xmlns_ns) == Ok::<
                (Seq<char>, Option<Seq<char>>, Seq<char>, Option<Seq<char>>, Seq<char>),
                ParseErrorKind,
            >(this));
            if namespace.is_some() {
                let mut j: usize = 0;
                while j < attributes.len()
                    invariant
                        j <= attributes@.len(),
                        views == attributes@.map_values(|a: Attribute| attribute_view(a)),
                        this.3 is Some,
                        this.3 == opt_view(namespace),
                        this.2 == local@,
                        forall|k: int| 0 <= k < j ==> !(views[k].3 == this.3 && views[k].2 == this.2),
                        i < raw@.len(),
                        resolve_outcome(v@, written_all(raw@), i as int, scope, xml_ns, xmlns_ns) == Ok::<
                            Seq<(Seq<char>, Option<Seq<char>>, Seq<char>, Option<Seq<char>>, Seq<char>)>,
                            (ParseErrorKind, int),
                        >(views),
                        resolve_step(v@, written(raw@[i as int]), scope, xml_ns, xmlns_ns) == Ok::<
                            (Seq<char>, Option<Seq<char>>, Seq<char>, Option<Seq<char>>, Seq<char>),
                            ParseErrorKind,
                        >(this),
                        item.start == raw@[i as int].start,
                        resolve_outcome(v@, written_all(raw@), i + 1, scope, xml_ns, xmlns_ns) is Err ==> resolve_outcome(
                            v@,
                            written_all(raw@),
                            raw@.len() as int,
                            scope,
                            xml_ns,
                            xmlns_ns,
                        ) == resolve_outcome(v@, written_all(raw@), i + 1, scope, xml_ns, xmlns_ns),
                        scope == scope_view(self.bindings@),
                        xml_ns == self.xml_namespace@,
                        xmlns_ns == self.xmlns_namespace@,
                    decreases attributes.len() - j,
                {
                    if attributes[j].is_named(ns_str(&namespace), local.as_str()) {
                        assert(views[j as int].3 == this.3 && views[j as int].2 == this.2);
                        return fail(ParseErrorKind::DuplicateAttribute, item.start);
                    }
                    j = j + 1;
                }
            }
            let value = item.value.clone();
            let attribute = Attribute::parsed(qname, prefix, local, namespace, value);
            attributes.push(attribute);
            proof {
                assert(attribute_view(attribute) == this);
                assert(attributes@.map_values(|a: Attribute| attribute_view(a)) =~= views.push(this));
            }
            i = i + 1;
        }
        Ok(attributes)
    }

    /// The element whose start tag begins at `pos`, at nesting `depth`.
    #[verifier::spinoff_prover]
    #[verifier::rlimit(100)]
    fn parse_element(&mut self, v: &Vec<char>, pos: usize, depth: usize, options: &ParseOptions) -> (r: Result<
        (Element, usize),
        ParseError,
    >)
        requires
            pos < v.len(),
            1 <= depth <= options.max_depth,
            old(self).xml_namespace@ == XML_NAMESPACE@,
            old(self).xmlns_namespace@ == XMLNS_NAMESPACE@,
        ensures
            r matches Ok((e, end)) ==> pos < end <= v.len() && e.exact_text(v@) == Ok::<
                Seq<char>,
                ExactWriteError,
            >(v@.subrange(pos as int, end as int)),
            r matches Ok((e, end)) ==> e.tree_read(v@, scope_view(old(self).bindings@)),
            r matches Ok((e, end)) ==> e.within_budget(
                options.max_depth - depth + 1,
                options.max_attributes_per_element as int,
            ),
            r matches Ok((e, end)) ==> final(self).nodes == old(self).nodes + e.node_count() && final(self).nodes
                <= options.max_nodes,
            old(self).nodes < options.max_nodes && two_colons(v@, pos + 1, name_run_end(v@, pos + 1)) ==> (r matches Err(
                e,
            ) && e.spec_kind() == ParseErrorKind::MalformedQName),
            old(self).nodes < options.max_nodes && bare_tag_prefix_unbound(v@, pos as int, scope_view(old(self).bindings@))
                ==> (r matches Err(e) && e.spec_kind() == ParseErrorKind::UndeclaredPrefix),
            r is Ok ==> scope_view(final(self).bindings@) == scope_view(old(self).bindings@),
            final(self).xml_namespace == old(self).xml_namespace,
            final(self).xmlns_namespace == old(self).xmlns_namespace,
            size_free(r),
            r is Ok <==> element_accepts(
                v@,
                pos as int,
                depth as int,
                scope_view(old(self).bindings@),
                old(self).nodes as int,
                *options,
            ) is Some,
            r matches Ok((e, end)) ==> element_accepts(
                v@,
                pos as int,
                depth as int,
                scope_view(old(self).bindings@),
                old(self).nodes as int,
                *options,
            ) == Some((end as int, final(self).nodes as int)),
            element_depth_refused(
                v@,
                pos as int,
                depth as int,
                scope_view(old(self).bindings@),
                old(self).nodes as int,
                *options,
            ) ==> (r matches Err(e) && e.spec_kind() == ParseErrorKind::DepthLimit),
            element_entity_refused(
                v@,
                pos as int,
                depth as int,
                scope_view(old(self).bindings@),
                old(self).nodes as int,
                *options,
            ) ==> (r matches Err(e) && e.spec_kind() == ParseErrorKind::UnknownEntity),
            element_mismatch_refused(
                v@,
                pos as int,
                depth as int,
                scope_view(old(self).bindings@),
                old(self).nodes as int,
                *options,
            ) ==> (r matches Err(e) && e.spec_kind() == ParseErrorKind::MismatchedEndTag),
            element_nodes_refused(
                v@,
                pos as int,
                depth as int,
                scope_view(old(self).bindings@),
                old(self).nodes as int,
                *options,
            ) ==> (r matches Err(e) && e.spec_kind() == ParseErrorKind::NodeLimit),
            element_tag_refusal(
                v@,
                pos as int,
                depth as int,
                scope_view(old(self).bindings@),
                old(self).nodes as int,
                *options,
            ) matches Some(k) ==> (r matches Err(e) && e.spec_kind() == k),
        decreases options.max_depth - depth,
    {
        let ghost outer = scope_view(self.bindings@);
        let ghost counted = self.nodes;
        let ghost goal = element_accepts(v@, pos as int, depth as int, outer, counted as int, *options);
        let ghost deep = element_depth_refused(v@, pos as int, depth as int, outer, counted as int, *options);
        let ghost entity = element_entity_refused(v@, pos as int, depth as int, outer, counted as int, *options);
        let ghost mismatch = element_mismatch_refused(v@, pos as int, depth as int, outer, counted as int, *options);
        let ghost too_many = element_nodes_refused(v@, pos as int, depth as int, outer, counted as int, *options);
        let ghost tagged = element_tag_refusal(v@, pos as int, depth as int, outer, counted as int, *options);
        proof {
            reveal(element_tag_refusal);
            reveal(content_tag_refusal);
            reveal(element_nodes_refused);
            reveal(content_nodes_refused);
            reveal(element_mismatch_refused);
            reveal(content_mismatch_refused);
            reveal(element_entity_refused);
            reveal(content_entity_refused);
            reveal(element_accepts);
            reveal(content_accepts);
            reveal(element_depth_refused);
            reveal(content_depth_refused);
        }
        match self.count_node(options, pos) {
            Ok(()) => {},
            Err(e) => return Err(e),
        }
        let a = pos + 1;
        let b = scan_name(v, a);
        let colon = match split_qname(v, a, b) {
            Ok(c) => c,
            Err(e) => return Err(e),
        };
        let (raw, tag_end, empty) = match Reader::parse_attributes(v, b, options) {
            Ok(x) => x,
            Err(e) => return Err(e),
        };
        let saved = self.bindings.len();
        match self.declare_namespaces(v, &raw) {
            Ok(()) => {},
            Err(e) => return Err(e),
        }
        let namespace = match colon {
            Some(c) => match self.lookup_prefix(v, a, c) {
                Some(ns) => Some(ns),
                None => return fail(ParseErrorKind::UndeclaredPrefix, pos),
            },
            None => self.default_namespace(),
        };
        let attributes = match self.resolve_attributes(v, &raw) {
            Ok(x) => x,
            Err(e) => return Err(e),
        };
        let ghost inner = scope_view(self.bindings@);
        proof {
            let scope = scope_view(self.bindings@);
            lemma_resolved_as_written(v@, written_all(raw@), raw@.len() as int, scope, self.xml_namespace@, self.xmlns_namespace@);
            let views = attributes@.map_values(|x: Attribute| attribute_view(x));
            assert forall|k: int| 0 <= k < raw@.len() implies resolve_step(
                v@,
                #[trigger] written_all(raw@)[k],
                scope,
                XML_NAMESPACE@,
                XMLNS_NAMESPACE@,
            ) == Ok::<
                (Seq<char>, Option<Seq<char>>, Seq<char>, Option<Seq<char>>, Seq<char>),
                ParseErrorKind,
            >(attribute_view(attributes@[k])) by {
                assert(views[k] == attribute_view(attributes@[k]));
            }
            lemma_declared_as_written(
                v@,
                written_all(raw@),
                raw@.len() as int,
                outer,
                attributes@,
                scope,
                XML_NAMESPACE@,
                XMLNS_NAMESPACE@,
            );
            assert(inner == scope_after(attributes@, attributes@.len() as int, outer));
            assert forall|i: int| 0 <= i < attributes@.len() implies (#[trigger] attributes@[i]).spec_namespace()
                == attribute_namespace(attributes@[i], inner) by {
                assert(raw_ok(raw@[i], v.len() as int));
                assert(written_all(raw@)[i] == written(raw@[i]));
                lemma_attribute_namespace(v@, written(raw@[i]), inner, attributes@[i]);
            }
            assert forall|i: int| 0 <= i < attributes@.len() implies exists|q: int, e: int|
                #![trigger name_run_end(v@, q), attr_value_at(v@, e)]
                {
                    &&& pos < q
                    &&& e < tag_end
                    &&& (#[trigger] attributes@[i]).spec_qname() == v@.subrange(q, name_run_end(v@, q))
                    &&& attr_value_at(v@, e) matches Some((val, _)) && val == attributes@[i].spec_value()
                } by {
                assert(views[i] == attribute_view(attributes@[i]));
                assert(raw_read(raw@[i], v@));
                let q = raw@[i].start as int;
                let e = raw@[i].value_start as int;
                assert(name_run_end(v@, q) == raw@[i].end);
                assert(attr_value_at(v@, e) matches Some((val, _)) && val == attributes@[i].spec_value());
            }
        }
        proof {
            let colon_at: Option<int> = match colon {
                Some(c) => Some(c as int),
                None => None,
            };
            assert(qname_split(v@, a as int, b as int) == Some(colon_at));
            assert(written_all(raw@).len() == raw@.len());
            assert(declare_outcome(v@, written_all(raw@), raw@.len() as int, outer).1 is None);
            assert(goal == if empty {
                Some((tag_end as int, counted + 1))
            } else {
                content_accepts(v@, tag_end as int, depth as int, a as int, b as int, inner, counted + 1, *options)
            });
            assert(too_many == if empty {
                false
            } else {
                content_nodes_refused(v@, tag_end as int, depth as int, a as int, b as int, inner, counted + 1, *options)
            });
            assert(mismatch == if empty {
                false
            } else {
                content_mismatch_refused(v@, tag_end as int, depth as int, a as int, b as int, inner, counted + 1, *options)
            });
            assert(entity == if empty {
                false
            } else {
                content_entity_refused(v@, tag_end as int, depth as int, a as int, b as int, inner, counted + 1, *options)
            });
            assert(deep == if empty {
                false
            } else {
                content_depth_refused(v@, tag_end as int, depth as int, a as int, b as int, inner, counted + 1, *options)
            });
            assert(tagged == if empty {
                None
            } else {
                content_tag_refusal(v@, tag_end as int, depth as int, a as int, b as int, inner, counted + 1, *options)
            });
        }
        let qname = string_of(v.as_slice(), a, b);
        let (prefix, local) = match colon {
            Some(c) => (Some(string_of(v.as_slice(), a, c)), string_of(v.as_slice(), c + 1, b)),
            None => (None, string_of(v.as_slice(), a, b)),
        };
        let open_span = Some(Span { start: pos, end: tag_end });
        proof {
            match colon {
                Some(c) => {
                    assert(opt_string_view(prefix).unwrap() + seq![':'] + local@ =~= qname@);
                },
                None => {},
            }
        }
        assert(names_read(qname@, opt_string_view(prefix), local@, open_span, v@));
        assert(attrs_read(attributes@, open_span, v@));
        assert(names_resolved(opt_string_view(prefix), opt_view(namespace), attributes@, outer));
        assert(saved == outer.len());
        let mut nodes: Vec<Node> = Vec::new();
        let mut spans: Vec<Option<Span>> = Vec::new();
        if empty {
            self.bindings.truncate(saved);
            let element = Element::assembled(
                qname,
                prefix,
                local,
                namespace,
                attributes,
                nodes,
                spans,
                true,
                open_span,
                None,
            );
            assert(element.exact_text(v@) == span_text(v@, open_span));
            proof {
                lemma_tree_read(element, v@, outer);
                lemma_within_budget(element, options.max_depth - depth + 1, options.max_attributes_per_element as int);
                lemma_node_count(element);
                assert(scope_view(self.bindings@) =~= inner.subrange(0, saved as int));
            }
            return Ok((element, tag_end));
        }
        let mut p = tag_end;
        assert(v@.subrange(tag_end as int, tag_end as int) =~= Seq::<char>::empty());
        let comment_open = ['<', '!', '-', '-'];
        let cdata_open = ['<', '!', '[', 'C', 'D', 'A', 'T', 'A', '['];
        let pi_open = ['<', '?'];
        assert(comment_open@ =~= seq!['<', '!', '-', '-']);
        assert(cdata_open@ =~= seq!['<', '!', '[', 'C', 'D', 'A', 'T', 'A', '[']);
        assert(pi_open@ =~= seq!['<', '?']);
        loop
            invariant
                goal == content_accepts(v@, p as int, depth as int, a as int, b as int, inner, self.nodes as int, *options),
                goal == element_accepts(v@, pos as int, depth as int, outer, counted as int, *options),
                deep == content_depth_refused(v@, p as int, depth as int, a as int, b as int, inner, self.nodes as int, *options),
                deep == element_depth_refused(v@, pos as int, depth as int, outer, counted as int, *options),
                entity == content_entity_refused(v@, p as int, depth as int, a as int, b as int, inner, self.nodes as int, *options),
                entity == element_entity_refused(v@, pos as int, depth as int, outer, counted as int, *options),
                mismatch == content_mismatch_refused(v@, p as int, depth as int, a as int, b as int, inner, self.nodes as int, *options),
                mismatch == element_mismatch_refused(v@, pos as int, depth as int, outer, counted as int, *options),
                too_many == content_nodes_refused(v@, p as int, depth as int, a as int, b as int, inner, self.nodes as int, *options),
                too_many == element_nodes_refused(v@, pos as int, depth as int, outer, counted as int, *options),
                tagged == content_tag_refusal(v@, p as int, depth as int, a as int, b as int, inner, self.nodes as int, *options),
                tagged == element_tag_refusal(v@, pos as int, depth as int, outer, counted as int, *options),
                comment_open@ == seq!['<', '!', '-', '-'],
                cdata_open@ == seq!['<', '!', '[', 'C', 'D', 'A', 'T', 'A', '['],
                pi_open@ == seq!['<', '?'],
                pos < a <= b < tag_end <= p <= v.len(),
                1 <= depth <= options.max_depth,
                nodes@.len() == spans@.len(),
                exact_list(nodes@, spans@, v@, nodes@.len() as int) == Ok::<Seq<char>, ExactWriteError>(
                    v@.subrange(tag_end as int, p as int),
                ),
                open_span == Some(Span { start: pos, end: tag_end }),
                list_read(nodes@, spans@, v@, inner, nodes@.len() as int),
                names_read(qname@, opt_string_view(prefix), local@, open_span, v@),
                attrs_read(attributes@, open_span, v@),
                names_resolved(opt_string_view(prefix), opt_view(namespace), attributes@, outer),
                inner == scope_after(attributes@, attributes@.len() as int, outer),
                scope_view(self.bindings@) == inner,
                saved == outer.len(),
                outer == scope_view(old(self).bindings@),
                inner.len() >= outer.len(),
                inner.subrange(0, outer.len() as int) == outer,
                self.xml_namespace@ == XML_NAMESPACE@,
                self.xmlns_namespace@ == XMLNS_NAMESPACE@,
                self.xml_namespace == old(self).xml_namespace,
                self.xmlns_namespace == old(self).xmlns_namespace,
                list_within(nodes@, options.max_depth - depth, options.max_attributes_per_element as int, nodes@.len() as int),
                attributes@.len() <= options.max_attributes_per_element,
                self.nodes == counted + 1 + list_count(nodes@, nodes@.len() as int),
                !two_colons(v@, pos + 1, name_run_end(v@, pos + 1)),
                !bare_tag_prefix_unbound(v@, pos as int, outer),
                self.nodes <= options.max_nodes,
                counted == old(self).nodes,
            decreases v.len() - p,
        {
            proof {
                reveal(element_accepts);
                reveal(content_accepts);
                reveal(element_depth_refused);
                reveal(content_depth_refused);
                reveal(element_entity_refused);
                reveal(content_entity_refused);
                reveal(element_mismatch_refused);
                reveal(content_mismatch_refused);
                reveal(element_nodes_refused);
                reveal(content_nodes_refused);
                reveal(element_tag_refusal);
                reveal(content_tag_refusal);
            }
            if p == v.len() {
                return fail(ParseErrorKind::UnexpectedEnd, pos);
            }
            if v[p] == '<' {
                if at(v, p + 1, '/') {
                    let e = scan_name(v, p + 2);
                    if !same_range(v, a, b, p + 2, e) {
                        return fail(ParseErrorKind::MismatchedEndTag, p);
                    }
                    let q = skip_ws(v, e);
                    if q == v.len() {
                        return fail(ParseErrorKind::UnexpectedEnd, q);
                    }
                    if v[q] != '>' {
                        return fail(ParseErrorKind::Syntax, q);
                    }
                    self.bindings.truncate(saved);
                    let close_span = Some(Span { start: p, end: q + 1 });
                    let ghost content = nodes@;
                    let ghost content_spans = spans@;
                    let element = Element::assembled(
                        qname,
                        prefix,
                        local,
                        namespace,
                        attributes,
                        nodes,
                        spans,
                        false,
                        open_span,
                        close_span,
                    );
                    assert(element.exact_text(v@) == then(
                        then(span_text(v@, open_span), exact_list(content, content_spans, v@, content.len() as int)),
                        span_text(v@, close_span),
                    ));
                    assert(v@.subrange(pos as int, tag_end as int) + v@.subrange(tag_end as int, p as int)
                        + v@.subrange(p as int, q + 1) =~= v@.subrange(pos as int, q + 1));
                    proof {
                        lemma_tree_read(element, v@, outer);
                        lemma_within_budget(element, options.max_depth - depth + 1, options.max_attributes_per_element as int);
                        lemma_node_count(element);
                        assert(scope_view(self.bindings@) =~= inner.subrange(0, saved as int));
                    }
                    return Ok((element, q + 1));
                }
                if looking_at(v, p, &comment_open) {
                    match self.count_node(options, p) {
                        Ok(()) => {},
                        Err(e) => return Err(e),
                    }
                    let (node, q) = match parse_comment(v, p) {
                        Ok(x) => x,
                        Err(e) => return Err(e),
                    };
                    let span = Some(Span { start: p, end: q });
                    proof {
                        lemma_extend(nodes@, spans@, node, span, v@, tag_end as int, p as int, q as int);
                        lemma_list_read_push(nodes@, spans@, node, span, v@, inner);
                        lemma_list_within_push(nodes@, node, options.max_depth - depth, options.max_attributes_per_element as int);
                        lemma_list_count_push(nodes@, node);
                    }
                    nodes.push(node);
                    spans.push(span);
                    p = q;
                } else if looking_at(v, p, &cdata_open) {
                    match self.count_node(options, p) {
                        Ok(()) => {},
                        Err(e) => return Err(e),
                    }
                    let (node, q) = match parse_cdata(v, p) {
                        Ok(x) => x,
                        Err(e) => return Err(e),
                    };
                    let span = Some(Span { start: p, end: q });
                    proof {
                        lemma_extend(nodes@, spans@, node, span, v@, tag_end as int, p as int, q as int);
                        lemma_list_read_push(nodes@, spans@, node, span, v@, inner);
                        lemma_list_within_push(nodes@, node, options.max_depth - depth, options.max_attributes_per_element as int);
                        lemma_list_count_push(nodes@, node);
                    }
                    nodes.push(node);
                    spans.push(span);
                    p = q;
                } else if looking_at(v, p, &pi_open) {
                    match self.count_node(options, p) {
                        Ok(()) => {},
                        Err(e) => return Err(e),
                    }
                    let (node, q) = match parse_pi(v, p) {
                        Ok(x) => x,
                        Err(e) => return Err(e),
                    };
                    let span = Some(Span { start: p, end: q });
                    proof {
                        lemma_extend(nodes@, spans@, node, span, v@, tag_end as int, p as int, q as int);
                        lemma_list_read_push(nodes@, spans@, node, span, v@, inner);
                        lemma_list_within_push(nodes@, node, options.max_depth - depth, options.max_attributes_per_element as int);
                        lemma_list_count_push(nodes@, node);
                    }
                    nodes.push(node);
                    spans.push(span);
                    p = q;
                } else if at(v, p + 1, '!') {
                    return fail(ParseErrorKind::Syntax, p);
                } else {
                    if depth >= options.max_depth {
                        return fail(ParseErrorKind::DepthLimit, p);
                    }
                    let (child, q) = match self.parse_element(v, p, depth + 1, options) {
                        Ok(x) => x,
                        Err(e) => return Err(e),
                    };
                    let node = Node::Element(child);
                    proof {
                        lemma_extend(nodes@, spans@, node, None, v@, tag_end as int, p as int, q as int);
                        lemma_list_read_push(nodes@, spans@, node, None, v@, inner);
                        lemma_list_within_push(nodes@, node, options.max_depth - depth, options.max_attributes_per_element as int);
                        lemma_list_count_push(nodes@, node);
                    }
                    nodes.push(node);
                    spans.push(None);
                    p = q;
                }
            } else {
                match self.count_node(options, p) {
                    Ok(()) => {},
                    Err(e) => return Err(e),
                }
                let (text, q) = match parse_chardata(v, p) {
                    Ok(x) => x,
                    Err(e) => return Err(e),
                };
                let node = Node::Text(text);
                let span = Some(Span { start: p, end: q });
                proof {
                    lemma_lt_from(v@, p as int, q as int);
                    lemma_extend(nodes@, spans@, node, span, v@, tag_end as int, p as int, q as int);
                        lemma_list_read_push(nodes@, spans@, node, span, v@, inner);
                        lemma_list_within_push(nodes@, node, options.max_depth - depth, options.max_attributes_per_element as int);
                        lemma_list_count_push(nodes@, node);
                }
                nodes.push(node);
                spans.push(span);
                p = q;
            }
        }
    }
}

impl Reader {
    /// White space, comments and processing instructions outside the root
    /// element. Before the root (`before_root`) the run ends at the root's
    /// start tag; after it, at the end of the input.
    fn parse_misc(&mut self, v: &Vec<char>, pos: usize, before_root: bool, options: &ParseOptions) -> (r: Result<
        (Vec<Node>, Vec<Option<Span>>, usize),
        ParseError,
    >)
        requires
            pos <= v.len(),
            old(self).nodes <= options.max_nodes,
        ensures
            r matches Ok((nodes, spans, end)) ==> final(self).nodes == old(self).nodes + nodes@.len()
                && final(self).nodes <= options.max_nodes,
            r matches Ok((nodes, spans, end)) ==> {
                &&& pos <= end <= v.len()
                &&& nodes@.len() == spans@.len()
                &&& exact_list(nodes@, spans@, v@, nodes@.len() as int) == Ok::<Seq<char>, ExactWriteError>(
                    v@.subrange(pos as int, end as int),
                )
                &&& before_root ==> end < v.len()
                &&& !before_root ==> end == v.len()
                &&& misc_read(nodes@, spans@, v@)
            },
            size_free(r),
            final(self).bindings == old(self).bindings,
            final(self).xml_namespace == old(self).xml_namespace,
            final(self).xmlns_namespace == old(self).xmlns_namespace,
            before_root && prolog_reaches_doctype(v@, pos as int, old(self).nodes as int, options.max_nodes as int, false)
                ==> (r matches Err(e) && e.spec_kind() == ParseErrorKind::DoctypeForbidden && occurs_at(
                v@,
                e.spec_position() as int,
                seq!['<', '!', 'D', 'O', 'C', 'T', 'Y', 'P', 'E'],
            )),
            before_root ==> match prolog_end(v@, pos as int, old(self).nodes as int, options.max_nodes as int, false) {
                Some((q, c)) => r matches Ok((nodes, spans, end)) && end == q && final(self).nodes == c,
                None => r is Err,
            },
            !before_root ==> match epilog_end(v@, pos as int, old(self).nodes as int, options.max_nodes as int, false) {
                Some(c) => r is Ok && final(self).nodes == c,
                None => r is Err,
            },
    {
        let ghost closes = epilog_end(v@, pos as int, self.nodes as int, options.max_nodes as int, false);
        let ghost ends = prolog_end(v@, pos as int, self.nodes as int, options.max_nodes as int, false);
        let ghost reaches = prolog_reaches_doctype(v@, pos as int, self.nodes as int, options.max_nodes as int, false);
        let comment_open = ['<', '!', '-', '-'];
        let pi_open = ['<', '?'];
        let doctype_open = ['<', '!', 'D', 'O', 'C', 'T', 'Y', 'P', 'E'];
        assert(comment_open@ =~= seq!['<', '!', '-', '-']);
        assert(pi_open@ =~= seq!['<', '?']);
        assert(doctype_open@ =~= seq!['<', '!', 'D', 'O', 'C', 'T', 'Y', 'P', 'E']);
        let mut nodes: Vec<Node> = Vec::new();
        let mut spans: Vec<Option<Span>> = Vec::new();
        let mut p = pos;
        assert(v@.subrange(pos as int, pos as int) =~= Seq::<char>::empty());
        loop
            invariant
                pos <= p <= v.len(),
                nodes@.len() == spans@.len(),
                exact_list(nodes@, spans@, v@, nodes@.len() as int) == Ok::<Seq<char>, ExactWriteError>(
                    v@.subrange(pos as int, p as int),
                ),
                misc_read(nodes@, spans@, v@),
                self.nodes == old(self).nodes + nodes@.len(),
                self.nodes <= options.max_nodes,
                reaches == prolog_reaches_doctype(v@, pos as int, old(self).nodes as int, options.max_nodes as int, false),
                reaches == prolog_reaches_doctype(v@, p as int, self.nodes as int, options.max_nodes as int, false),
                ends == prolog_end(v@, pos as int, old(self).nodes as int, options.max_nodes as int, false),
                ends == prolog_end(v@, p as int, self.nodes as int, options.max_nodes as int, false),
                closes == epilog_end(v@, pos as int, old(self).nodes as int, options.max_nodes as int, false),
                closes == epilog_end(v@, p as int, self.nodes as int, options.max_nodes as int, false),
                comment_open@ == seq!['<', '!', '-', '-'],
                pi_open@ == seq!['<', '?'],
                doctype_open@ == seq!['<', '!', 'D', 'O', 'C', 'T', 'Y', 'P', 'E'],
                self.bindings == old(self).bindings,
                self.xml_namespace == old(self).xml_namespace,
                self.xmlns_namespace == old(self).xmlns_namespace,
            decreases v.len() - p,
        {
            proof {
                reveal(prolog_end);
                reveal(epilog_end);
                reveal(prolog_reaches_doctype);
            }
            if p == v.len() {
                if before_root {
                    return fail(ParseErrorKind::UnexpectedEnd, p);
                }
                return Ok((nodes, spans, p));
            }
            let (node, q) = if xml_space(v[p]) {
                let q = skip_ws(v, p);
                (Node::Text(normalized(v, p, q)), q)
            } else if v[p] != '<' {
                return fail(ParseErrorKind::ContentOutsideRoot, p);
            } else if looking_at(v, p, &comment_open) {
                match parse_comment(v, p) {
                    Ok(x) => x,
                    Err(e) => return Err(e),
                }
            } else if looking_at(v, p, &pi_open) {
                match parse_pi(v, p) {
                    Ok(x) => x,
                    Err(e) => return Err(e),
                }
            } else if looking_at(v, p, &doctype_open) {
                return fail(ParseErrorKind::DoctypeForbidden, p);
            } else if at(v, p + 1, '!') {
                return fail(ParseErrorKind::Syntax, p);
            } else if before_root {
                return Ok((nodes, spans, p));
            } else {
                return fail(ParseErrorKind::ContentOutsideRoot, p);
            };
            let ghost counted = self.nodes;
            match self.count_node(options, p) {
                Ok(()) => {},
                Err(e) => return Err(e),
            }
            proof {
                if is_xml_space(v@[p as int]) {
                    lemma_space_run(v@, p + 1, q as int, counted + 1, options.max_nodes as int);
                    lemma_space_run_end(v@, p + 1, q as int, counted + 1, options.max_nodes as int);
                    lemma_space_run_epilog(v@, p + 1, q as int, counted + 1, options.max_nodes as int);
                }
            }
            assert(closes == epilog_end(v@, q as int, self.nodes as int, options.max_nodes as int, false));
            assert(ends == prolog_end(v@, q as int, self.nodes as int, options.max_nodes as int, false));
            assert(reaches == prolog_reaches_doctype(v@, q as int, self.nodes as int, options.max_nodes as int, false));
            let span = Some(Span { start: p, end: q });
            assert(misc_reads(node, span, v@));
            proof {
                lemma_extend(nodes@, spans@, node, span, v@, pos as int, p as int, q as int);
                assert forall|k: int| 0 <= k < nodes@.len() + 1 implies misc_reads(
                    #[trigger] nodes@.push(node)[k],
                    spans@.push(span)[k],
                    v@,
                ) by {
                    if k < nodes@.len() {
                        assert(nodes@.push(node)[k] == nodes@[k]);
                        assert(spans@.push(span)[k] == spans@[k]);
                    }
                }
            }
            nodes.push(node);
            spans.push(span);
            p = q;
        }
    }
}

impl Document {
    /// Parses `xml` with the default [`ParseOptions`].
    pub fn parse(xml: &str) -> (r: Result<Document, ParseError>)
        ensures
            xml.len() > 64 * 1024 * 1024 <==> (r matches Err(e) && e.spec_kind()
                == ParseErrorKind::InputTooLarge),
            r matches Ok(d) ==> d.spec_source() == Some(xml@) && d.exact_text() == Ok::<
                Seq<char>,
                ExactWriteError,
            >(xml@),
            r matches Ok(d) ==> {
                &&& d.spec_root().tree_read(xml@, Seq::empty())
                &&& misc_read(d.spec_prolog(), d.spec_prolog_spans(), xml@)
                &&& misc_read(d.spec_epilog(), d.spec_epilog_spans(), xml@)
            },
            r matches Ok(d) ==> d.spec_root().within_budget(256, 256) && d.spec_prolog().len() + d.spec_root().node_count()
                + d.spec_epilog().len() <= 1_000_000,
            xml.len() <= 64 * 1024 * 1024 && (exists|k: int| 0 <= k < xml@.len() && !is_xml_char(#[trigger] xml@[k])) ==> (r matches Err(
                e,
            ) && e.spec_kind() == ParseErrorKind::InvalidCharacter && first_invalid_char(xml@, e.spec_position() as int)),
            xml.len() <= 64 * 1024 * 1024 && (forall|k: int| 0 <= k < xml@.len() ==> is_xml_char(#[trigger] xml@[k]))
                && !starts_with_declaration(xml@) && prolog_reaches_doctype(xml@, 0, 0, 1_000_000, false) ==> (r matches Err(e)
                && e.spec_kind() == ParseErrorKind::DoctypeForbidden && occurs_at(
                xml@,
                e.spec_position() as int,
                seq!['<', '!', 'D', 'O', 'C', 'T', 'Y', 'P', 'E'],
            )),
            xml.len() <= 64 * 1024 * 1024 && (forall|k: int| 0 <= k < xml@.len() ==> is_xml_char(#[trigger] xml@[k]))
                && root_name_malformed(xml@, default_options()) ==> (r matches Err(e) && e.spec_kind()
                == ParseErrorKind::MalformedQName),
            xml.len() <= 64 * 1024 * 1024 && (forall|k: int| 0 <= k < xml@.len() ==> is_xml_char(#[trigger] xml@[k]))
                && root_prefix_undeclared(xml@, default_options()) ==> (r matches Err(e) && e.spec_kind()
                == ParseErrorKind::UndeclaredPrefix),
            r is Ok <==> xml.len() <= 64 * 1024 * 1024 && (forall|k: int| 0 <= k < xml@.len() ==> is_xml_char(#[trigger] xml@[k]))
                && document_accepts(xml@, default_options()),
            xml.len() <= 64 * 1024 * 1024 && (forall|k: int| 0 <= k < xml@.len() ==> is_xml_char(#[trigger] xml@[k]))
                && document_depth_refused(xml@, default_options()) ==> (r matches Err(e) && e.spec_kind()
                == ParseErrorKind::DepthLimit),
            xml.len() <= 64 * 1024 * 1024 && (forall|k: int| 0 <= k < xml@.len() ==> is_xml_char(#[trigger] xml@[k]))
                && document_entity_refused(xml@, default_options()) ==> (r matches Err(e) && e.spec_kind()
                == ParseErrorKind::UnknownEntity),
            xml.len() <= 64 * 1024 * 1024 && (forall|k: int| 0 <= k < xml@.len() ==> is_xml_char(#[trigger] xml@[k]))
                && document_mismatch_refused(xml@, default_options()) ==> (r matches Err(e) && e.spec_kind()
                == ParseErrorKind::MismatchedEndTag),
            xml.len() <= 64 * 1024 * 1024 && (forall|k: int| 0 <= k < xml@.len() ==> is_xml_char(#[trigger] xml@[k]))
                && document_nodes_refused(xml@, default_options()) ==> (r matches Err(e) && e.spec_kind()
                == ParseErrorKind::NodeLimit),
            xml.len() <= 64 * 1024 * 1024 && (forall|i: int| 0 <= i < xml@.len() ==> is_xml_char(#[trigger] xml@[i]))
                && document_tag_refusal(xml@, default_options()) is Some ==> (r matches Err(e) && Some(e.spec_kind())
                == document_tag_refusal(xml@, default_options())),
    {
        Document::parse_with_options(xml, ParseOptions::defaults())
    }

    /// Parses `xml` as a strict, namespace-well-formed XML 1.0 document in
    /// UTF-8 within the given budgets.
    ///
    /// Inputs over `max_bytes` are refused before any other check. A parsed
    /// document retains its input, and its exact serialization replays that
    /// input character for character.
    #[verifier::spinoff_prover]
    #[verifier::rlimit(60)]
    pub fn parse_with_options(xml: &str, options: ParseOptions) -> (r: Result<Document, ParseError>)
        ensures
            xml.len() > options.max_bytes <==> (r matches Err(e) && e.spec_kind()
                == ParseErrorKind::InputTooLarge),
            r matches Ok(d) ==> d.spec_source() == Some(xml@) && d.exact_text() == Ok::<
                Seq<char>,
                ExactWriteError,
            >(xml@),
            r is Ok ==> forall|k: int| 0 <= k < xml@.len() ==> is_xml_char(#[trigger] xml@[k]),
            r matches Ok(d) ==> {
                &&& d.spec_root().tree_read(xml@, Seq::empty())
                &&& misc_read(d.spec_prolog(), d.spec_prolog_spans(), xml@)
                &&& misc_read(d.spec_epilog(), d.spec_epilog_spans(), xml@)
            },
            r matches Ok(d) ==> d.spec_root().within_budget(
                options.max_depth as int,
                options.max_attributes_per_element as int,
            ) && d.spec_prolog().len() + d.spec_root().node_count() + d.spec_epilog().len() <= options.max_nodes,
            xml.len() <= options.max_bytes && (exists|k: int| 0 <= k < xml@.len() && !is_xml_char(#[trigger] xml@[k])) ==> (r matches Err(
                e,
            ) && e.spec_kind() == ParseErrorKind::InvalidCharacter && first_invalid_char(xml@, e.spec_position() as int)),
            xml.len() <= options.max_bytes && (forall|k: int| 0 <= k < xml@.len() ==> is_xml_char(#[trigger] xml@[k]))
                && !starts_with_declaration(xml@) && prolog_reaches_doctype(xml@, 0, 0, options.max_nodes as int, false) ==> (r matches Err(e)
                && e.spec_kind() == ParseErrorKind::DoctypeForbidden && occurs_at(
                xml@,
                e.spec_position() as int,
                seq!['<', '!', 'D', 'O', 'C', 'T', 'Y', 'P', 'E'],
            )),
            xml.len() <= options.max_bytes && (forall|k: int| 0 <= k < xml@.len() ==> is_xml_char(#[trigger] xml@[k]))
                && root_name_malformed(xml@, options) ==> (r matches Err(e) && e.spec_kind()
                == ParseErrorKind::MalformedQName),
            xml.len() <= options.max_bytes && (forall|k: int| 0 <= k < xml@.len() ==> is_xml_char(#[trigger] xml@[k]))
                && root_prefix_undeclared(xml@, options) ==> (r matches Err(e) && e.spec_kind()
                == ParseErrorKind::UndeclaredPrefix),
            r is Ok <==> xml.len() <= options.max_bytes && (forall|k: int| 0 <= k < xml@.len() ==> is_xml_char(#[trigger] xml@[k]))
                && document_accepts(xml@, options),
            xml.len() <= options.max_bytes && (forall|k: int| 0 <= k < xml@.len() ==> is_xml_char(#[trigger] xml@[k]))
                && document_depth_refused(xml@, options) ==> (r matches Err(e) && e.spec_kind() == ParseErrorKind::DepthLimit),
            xml.len() <= options.max_bytes && (forall|k: int| 0 <= k < xml@.len() ==> is_xml_char(#[trigger] xml@[k]))
                && document_entity_refused(xml@, options) ==> (r matches Err(e) && e.spec_kind()
                == ParseErrorKind::UnknownEntity),
            xml.len() <= options.max_bytes && (forall|k: int| 0 <= k < xml@.len() ==> is_xml_char(#[trigger] xml@[k]))
                && document_mismatch_refused(xml@, options) ==> (r matches Err(e) && e.spec_kind()
                == ParseErrorKind::MismatchedEndTag),
            xml.len() <= options.max_bytes && (forall|k: int| 0 <= k < xml@.len() ==> is_xml_char(#[trigger] xml@[k]))
                && document_nodes_refused(xml@, options) ==> (r matches Err(e) && e.spec_kind() == ParseErrorKind::NodeLimit),
            xml.len() <= options.max_bytes && (forall|i: int| 0 <= i < xml@.len() ==> is_xml_char(#[trigger] xml@[i]))
                && document_tag_refusal(xml@, options) is Some ==> (r matches Err(e) && Some(e.spec_kind())
                == document_tag_refusal(xml@, options)),
    {
        if xml.len() > options.max_bytes {
            return fail(ParseErrorKind::InputTooLarge, 0);
        }
        let v = chars_of(xml);
        let mut i: usize = 0;
        while i < v.len()
            invariant
                i <= v.len(),
                xml.len() <= options.max_bytes,
                v@ == xml@,
                forall|k: int| 0 <= k < i ==> is_xml_char(#[trigger] v@[k]),
            decreases v.len() - i,
        {
            if !xml_char(v[i]) {
                return fail(ParseErrorKind::InvalidCharacter, i);
            }
            i = i + 1;
        }
        Document::read_document(xml, &v, &options)
    }

    /// The document that `v`, the characters of `xml`, all of them allowed
    /// by XML 1.0, spells.
    #[verifier::spinoff_prover]
    #[verifier::rlimit(100)]
    fn read_document(xml: &str, v: &Vec<char>, options: &ParseOptions) -> (r: Result<Document, ParseError>)
        requires
            v@ == xml@,
            forall|k: int| 0 <= k < xml@.len() ==> is_xml_char(#[trigger] xml@[k]),
        ensures
            size_free(r),
            r matches Ok(d) ==> d.spec_source() == Some(xml@) && d.exact_text() == Ok::<
                Seq<char>,
                ExactWriteError,
            >(xml@),
            r matches Ok(d) ==> {
                &&& d.spec_root().tree_read(xml@, Seq::empty())
                &&& misc_read(d.spec_prolog(), d.spec_prolog_spans(), xml@)
                &&& misc_read(d.spec_epilog(), d.spec_epilog_spans(), xml@)
            },
            r matches Ok(d) ==> d.spec_root().within_budget(
                options.max_depth as int,
                options.max_attributes_per_element as int,
            ) && d.spec_prolog().len() + d.spec_root().node_count() + d.spec_epilog().len() <= options.max_nodes,
            !starts_with_declaration(xml@) && prolog_reaches_doctype(xml@, 0, 0, options.max_nodes as int, false) ==> (r matches Err(
                e,
            ) && e.spec_kind() == ParseErrorKind::DoctypeForbidden && occurs_at(
                xml@,
                e.spec_position() as int,
                seq!['<', '!', 'D', 'O', 'C', 'T', 'Y', 'P', 'E'],
            )),
            root_name_malformed(xml@, *options) ==> (r matches Err(e) && e.spec_kind() == ParseErrorKind::MalformedQName),
            root_prefix_undeclared(xml@, *options) ==> (r matches Err(e) && e.spec_kind()
                == ParseErrorKind::UndeclaredPrefix),
            r is Ok <==> document_accepts(xml@, *options),
            document_depth_refused(xml@, *options) ==> (r matches Err(e) && e.spec_kind() == ParseErrorKind::DepthLimit),
            document_entity_refused(xml@, *options) ==> (r matches Err(e) && e.spec_kind() == ParseErrorKind::UnknownEntity),
            document_mismatch_refused(xml@, *options) ==> (r matches Err(e) && e.spec_kind()
                == ParseErrorKind::MismatchedEndTag),
            document_nodes_refused(xml@, *options) ==> (r matches Err(e) && e.spec_kind() == ParseErrorKind::NodeLimit),
            document_tag_refusal(xml@, *options) matches Some(k) ==> (r matches Err(e) && e.spec_kind() == k),
    {
        let mut reader = Reader {
            nodes: 0,
            bindings: Vec::new(),
            xml_namespace: Arc::new(String::from_str(XML_NAMESPACE)),
            xmlns_namespace: Arc::new(String::from_str(XMLNS_NAMESPACE)),
        };
        assert(scope_view(reader.bindings@) =~= Seq::<(Option<Seq<char>>, Option<Seq<char>>)>::empty());
        let mut p: usize = 0;
        let mut declaration: Option<XmlDeclaration> = None;
        let mut declaration_span: Option<Span> = None;
        let declaration_open = ['<', '?', 'x', 'm', 'l'];
        assert(declaration_open@ =~= seq!['<', '?', 'x', 'm', 'l']);
        if looking_at(v, 0, &declaration_open) && 5 < v.len() && xml_space(v[5]) {
            let (d, end) = match parse_declaration(v) {
                Ok(x) => x,
                Err(e) => return Err(e),
            };
            declaration = Some(d);
            declaration_span = Some(Span { start: 0, end });
            p = end;
        }
        assert(declaration is Some ==> span_text(v@, declaration_span) == Ok::<Seq<char>, ExactWriteError>(
            v@.subrange(0, p as int),
        ));
        assert(declaration is None ==> p == 0 && v@.subrange(0, 0) =~= Seq::<char>::empty());
        let (prolog, prolog_spans, root_start) = match reader.parse_misc(v, p, true, options) {
            Ok(x) => x,
            Err(e) => return Err(e),
        };
        if options.max_depth == 0 {
            return fail(ParseErrorKind::DepthLimit, root_start);
        }
        let (root, root_end) = match reader.parse_element(v, root_start, 1, options) {
            Ok(x) => x,
            Err(e) => return Err(e),
        };
        let (epilog, epilog_spans, end) = match reader.parse_misc(v, root_end, false, options) {
            Ok(x) => x,
            Err(e) => return Err(e),
        };
        let ghost prolog_view = prolog@;
        let ghost prolog_spans_view = prolog_spans@;
        let ghost epilog_view = epilog@;
        let ghost epilog_spans_view = epilog_spans@;
        let ghost root_view = root;
        let source = String::from_str(xml);
        let document = Document::parsed(
            declaration,
            prolog,
            prolog_spans,
            root,
            epilog,
            epilog_spans,
            Some(source),
            declaration_span,
        );
        proof {
            assert(v@.subrange(0, p as int) + v@.subrange(p as int, root_start as int) + v@.subrange(
                root_start as int,
                root_end as int,
            ) + v@.subrange(root_end as int, end as int) =~= v@);
        }
        Ok(document)
    }
}

// ---------------------------------------------------------------------------
// What the reader gives back of what the writer escapes
// ---------------------------------------------------------------------------

/// Escaping a concatenation escapes each part.
pub proof fn lemma_escape_text_concat(a: Seq<char>, b: Seq<char>)
    ensures
        escape_text(a + b) == escape_text(a) + escape_text(b),
    decreases b.len(),
{
    if b.len() == 0 {
        assert(a + b =~= a);
        assert(escape_text(b) =~= Seq::<char>::empty());
        assert(escape_text(a) + escape_text(b) =~= escape_text(a));
    } else {
        lemma_escape_text_concat(a, b.drop_last());
        assert((a + b).drop_last() =~= a + b.drop_last());
        assert(escape_text(a) + escape_text(b.drop_last()) + escape_text_char(b.last()) =~= escape_text(a) + escape_text(b));
    }
}

pub proof fn lemma_escape_attr_concat(a: Seq<char>, b: Seq<char>)
    ensures
        escape_attr(a + b) == escape_attr(a) + escape_attr(b),
    decreases b.len(),
{
    if b.len() == 0 {
        assert(a + b =~= a);
        assert(escape_attr(b) =~= Seq::<char>::empty());
        assert(escape_attr(a) + escape_attr(b) =~= escape_attr(a));
    } else {
        lemma_escape_attr_concat(a, b.drop_last());
        assert((a + b).drop_last() =~= a + b.drop_last());
        assert(escape_attr(a) + escape_attr(b.drop_last()) + escape_attr_char(b.last()) =~= escape_attr(a) + escape_attr(b));
    }
}

/// Escaped text holds neither `<` nor `>`.
pub proof fn lemma_escape_text_plain(t: Seq<char>)
    ensures
        forall|i: int| 0 <= i < escape_text(t).len() ==> escape_text(t)[i] != '<' && escape_text(t)[i] != '>',
    decreases t.len(),
{
    reveal_strlit("&amp;");
    reveal_strlit("&lt;");
    reveal_strlit("&gt;");
    reveal_strlit("&#13;");
    if t.len() > 0 {
        lemma_escape_text_plain(t.drop_last());
        let a = escape_text(t.drop_last());
        let b = escape_text_char(t.last());
        assert forall|i: int| 0 <= i < escape_text(t).len() implies escape_text(t)[i] != '<' && escape_text(t)[i] != '>' by {
            if i >= a.len() {
                assert(escape_text(t)[i] == b[i - a.len()]);
            } else {
                assert(escape_text(t)[i] == a[i]);
            }
        }
    }
}

/// The first escaped character of `t` and the rest, escaped.
proof fn lemma_escape_text_first(t: Seq<char>)
    requires
        t.len() > 0,
    ensures
        escape_text(t) == escape_text_char(t[0]) + escape_text(t.drop_first()),
{
    lemma_escape_text_concat(seq![t[0]], t.drop_first());
    assert(seq![t[0]] + t.drop_first() =~= t);
    assert(seq![t[0]].drop_last() =~= Seq::<char>::empty());
    assert(escape_text(Seq::<char>::empty()) + escape_text_char(t[0]) =~= escape_text_char(t[0]));
}

proof fn lemma_escape_attr_first(t: Seq<char>)
    requires
        t.len() > 0,
    ensures
        escape_attr(t) == escape_attr_char(t[0]) + escape_attr(t.drop_first()),
{
    lemma_escape_attr_concat(seq![t[0]], t.drop_first());
    assert(seq![t[0]] + t.drop_first() =~= t);
    assert(seq![t[0]].drop_last() =~= Seq::<char>::empty());
    assert(escape_attr(Seq::<char>::empty()) + escape_attr_char(t[0]) =~= escape_attr_char(t[0]));
}

/// A single digit spells its own value.
proof fn lemma_number_of_single(x: char, hexadecimal: bool)
    ensures
        number_of(seq![x], hexadecimal) == hex_value(x),
{
    let d = seq![x];
    assert(d.drop_last() =~= Seq::<char>::empty());
    assert(number_of(Seq::<char>::empty(), hexadecimal) == 0);
    assert(d.last() == x);
    assert(0 * (if hexadecimal { 16int } else { 10int }) == 0);
}

/// A predefined entity reference of the writer's reads as its character.
proof fn lemma_entity_at(s: Seq<char>, p: int, name: Seq<char>, c: char)
    requires
        0 <= p,
        p + name.len() + 2 <= s.len(),
        s[p] == '&',
        s.subrange(p + 1, p + 1 + name.len()) == name,
        s[p + 1 + name.len()] == ';',
        name.len() > 0,
        name[0] != '#',
        forall|i: int| 0 <= i < name.len() ==> is_name_char(#[trigger] name[i]),
        entity_char(name) == Some(c),
    ensures
        reference_at(s, p) == Some((c as int, p + name.len() + 2)),
{
    assert(s[p + 1] == name[0]);
    assert forall|i: int| 0 <= i <= name.len() implies #[trigger] name_run_end(s, p + 1 + i) == p + 1 + name.len() by {
        lemma_name_run_from(s, p + 1, name, i);
    }
    assert(name_run_end(s, p + 1 + 0) == p + 1 + name.len());
}

proof fn lemma_name_run_from(s: Seq<char>, a: int, name: Seq<char>, i: int)
    requires
        0 <= a,
        0 <= i <= name.len(),
        a + name.len() < s.len(),
        s.subrange(a, a + name.len()) == name,
        !is_name_char(s[a + name.len()]),
        forall|k: int| 0 <= k < name.len() ==> is_name_char(#[trigger] name[k]),
    ensures
        name_run_end(s, a + i) == a + name.len(),
    decreases name.len() - i,
{
    if i < name.len() {
        assert(s[a + i] == name[i]);
        lemma_name_run_from(s, a, name, i + 1);
    }
}

/// A character reference of the writer's, `&#` then `digits` then `;`,
/// reads as the number the digits spell.
proof fn lemma_char_ref_at(s: Seq<char>, p: int, digits: Seq<char>, hexadecimal: bool, c: char)
    requires
        0 <= p,
        p + digits.len() + 3 + (if hexadecimal { 1int } else { 0int }) <= s.len(),
        s[p] == '&',
        s[p + 1] == '#',
        hexadecimal ==> s[p + 2] == 'x',
        !hexadecimal ==> digits.len() > 0 && digits[0] != 'x',
        digits.len() > 0,
        ({
            let start = if hexadecimal { p + 3 } else { p + 2 };
            &&& s.subrange(start, start + digits.len()) == digits
            &&& s[start + digits.len()] == ';'
        }),
        forall|i: int| 0 <= i < digits.len() ==> is_ref_digit(#[trigger] digits[i], hexadecimal),
        number_of(digits, hexadecimal) == c as int,
        is_xml_char(c),
    ensures
        reference_at(s, p) == Some((c as int, p + digits.len() + 3 + (if hexadecimal { 1int } else { 0int }))),
{
    let start = if hexadecimal { p + 3 } else { p + 2 };
    if !hexadecimal {
        assert(s[p + 2] == digits[0]);
    }
    assert forall|i: int| 0 <= i <= digits.len() implies #[trigger] digit_run_end(s, start + i, hexadecimal) == start + digits.len() by {
        lemma_digit_run_from(s, start, digits, hexadecimal, i);
    }
    assert(digit_run_end(s, start + 0, hexadecimal) == start + digits.len());
    assert(((c as int) as char) == c);
}

proof fn lemma_digit_run_from(s: Seq<char>, a: int, digits: Seq<char>, hexadecimal: bool, i: int)
    requires
        0 <= a,
        0 <= i <= digits.len(),
        a + digits.len() < s.len(),
        s.subrange(a, a + digits.len()) == digits,
        s[a + digits.len()] == ';',
        forall|k: int| 0 <= k < digits.len() ==> is_ref_digit(#[trigger] digits[k], hexadecimal),
    ensures
        digit_run_end(s, a + i, hexadecimal) == a + digits.len(),
    decreases digits.len() - i,
{
    if i < digits.len() {
        assert(s[a + i] == digits[i]);
        lemma_digit_run_from(s, a, digits, hexadecimal, i + 1);
    }
}

/// Character data the writer escapes reads back as the text it escaped, up
/// to the `<` that follows it or the end of input.
pub proof fn lemma_text_read_back(s: Seq<char>, p: int, t: Seq<char>)
    requires
        0 <= p,
        p + escape_text(t).len() <= s.len(),
        s.subrange(p, p + escape_text(t).len()) == escape_text(t),
        p + escape_text(t).len() == s.len() || s[p + escape_text(t).len()] == '<',
    ensures
        chardata_from(s, p) == Some(t),
    decreases t.len(),
{
    reveal_strlit("&amp;");
    reveal_strlit("&lt;");
    reveal_strlit("&gt;");
    reveal_strlit("&#13;");
    if t.len() == 0 {
        assert(escape_text(t) =~= Seq::<char>::empty());
    } else {
        let l = escape_text(t).len();
        let rest = t.drop_first();
        let e0 = escape_text_char(t[0]);
        let n0 = e0.len() as int;
        lemma_escape_text_first(t);
        assert(s.subrange(p, p + n0) =~= e0) by {
            assert forall|i: int| 0 <= i < n0 implies s.subrange(p, p + n0)[i] == e0[i] by {
                assert(s[p + i] == escape_text(t)[i]);
            }
        }
        assert(s.subrange(p + n0, p + n0 + escape_text(rest).len()) =~= escape_text(rest)) by {
            assert forall|i: int| 0 <= i < escape_text(rest).len() implies s.subrange(p + n0, p + n0 + escape_text(rest).len())[i] == escape_text(rest)[i] by {
                assert(s[p + n0 + i] == escape_text(t)[n0 + i]);
            }
        }
        lemma_text_read_back(s, p + n0, rest);
        assert(seq![t[0]] + rest =~= t);
        let c = t[0];
        assert(s[p] == e0[0]);
        if c == '&' {
            assert(s.subrange(p + 1, p + 4) =~= seq!['a', 'm', 'p']) by {
                assert(s[p + 1] == e0[1] && s[p + 2] == e0[2] && s[p + 3] == e0[3]);
            }
            assert(s[p + 4] == e0[4]);
            lemma_entity_at(s, p, seq!['a', 'm', 'p'], '&');
        } else if c == '<' {
            assert(s.subrange(p + 1, p + 3) =~= seq!['l', 't']) by {
                assert(s[p + 1] == e0[1] && s[p + 2] == e0[2]);
            }
            assert(s[p + 3] == e0[3]);
            lemma_entity_at(s, p, seq!['l', 't'], '<');
        } else if c == '>' {
            assert(s.subrange(p + 1, p + 3) =~= seq!['g', 't']) by {
                assert(s[p + 1] == e0[1] && s[p + 2] == e0[2]);
            }
            assert(s[p + 3] == e0[3]);
            lemma_entity_at(s, p, seq!['g', 't'], '>');
        } else if c == '\r' {
            assert(s[p + 1] == e0[1]);
            assert(s.subrange(p + 2, p + 4) =~= seq!['1', '3']) by {
                assert(s[p + 2] == e0[2] && s[p + 3] == e0[3]);
            }
            assert(s[p + 4] == e0[4]);
            let d = seq!['1', '3'];
            assert(d.drop_last() =~= seq!['1']);
            assert(seq!['1'].drop_last() =~= Seq::<char>::empty());
            assert(hex_value('1') == 1 && hex_value('3') == 3);
            lemma_number_of_single('1', false);
            assert(number_of(d, false) == number_of(seq!['1'], false) * 10 + hex_value('3'));
            assert(number_of(d, false) == 13);
            lemma_char_ref_at(s, p, d, false, '\r');
        } else {
            if c == ']' && p + 3 <= s.len() && s.subrange(p, p + 3) == seq![']', ']', '>'] {
                lemma_escape_text_plain(t);
                assert(s[p + 2] == '>');
                if p + 2 < p + l {
                    assert(s[p + 2] == escape_text(t)[2]);
                } else if p + 1 < p + l {
                    assert(s[p + 2] == '<');
                } else {
                    assert(s[p + 1] == '<');
                }
            }
        }
    }
}

/// An attribute value the writer escapes between double quotes reads back
/// as the value it escaped, ending after the closing quote.
pub proof fn lemma_attribute_read_back(s: Seq<char>, p: int, t: Seq<char>)
    requires
        0 <= p,
        p + escape_attr(t).len() + 2 <= s.len(),
        s[p] == '"',
        s.subrange(p + 1, p + 1 + escape_attr(t).len()) == escape_attr(t),
        s[p + 1 + escape_attr(t).len()] == '"',
    ensures
        attr_value_at(s, p) == Some((t, p + escape_attr(t).len() + 2)),
{
    lemma_attr_read_back(s, p + 1, t);
}

proof fn lemma_attr_read_back(s: Seq<char>, p: int, t: Seq<char>)
    requires
        0 <= p,
        p + escape_attr(t).len() < s.len(),
        s.subrange(p, p + escape_attr(t).len()) == escape_attr(t),
        s[p + escape_attr(t).len()] == '"',
    ensures
        attr_from(s, p, '"') == Some((t, p + escape_attr(t).len() + 1)),
    decreases t.len(),
{
    reveal_strlit("&amp;");
    reveal_strlit("&lt;");
    reveal_strlit("&quot;");
    reveal_strlit("&#x9;");
    reveal_strlit("&#xA;");
    reveal_strlit("&#xD;");
    if t.len() == 0 {
        assert(escape_attr(t) =~= Seq::<char>::empty());
    } else {
        let rest = t.drop_first();
        let e0 = escape_attr_char(t[0]);
        let n0 = e0.len() as int;
        lemma_escape_attr_first(t);
        assert(s.subrange(p + n0, p + n0 + escape_attr(rest).len()) =~= escape_attr(rest)) by {
            assert forall|i: int| 0 <= i < escape_attr(rest).len() implies s.subrange(p + n0, p + n0 + escape_attr(rest).len())[i] == escape_attr(rest)[i] by {
                assert(s[p + n0 + i] == escape_attr(t)[n0 + i]);
            }
        }
        lemma_attr_read_back(s, p + n0, rest);
        assert(seq![t[0]] + rest =~= t);
        let c = t[0];
        assert forall|i: int| 0 <= i < n0 implies s[p + i] == #[trigger] e0[i] by {
            assert(s[p + i] == escape_attr(t)[i]);
        }
        assert(s[p] == e0[0]);
        if c == '&' {
            assert(s.subrange(p + 1, p + 4) =~= seq!['a', 'm', 'p']) by {
                assert(s[p + 1] == e0[1] && s[p + 2] == e0[2] && s[p + 3] == e0[3]);
            }
            assert(s[p + 4] == e0[4]);
            lemma_entity_at(s, p, seq!['a', 'm', 'p'], '&');
        } else if c == '<' {
            assert(s.subrange(p + 1, p + 3) =~= seq!['l', 't']) by {
                assert(s[p + 1] == e0[1] && s[p + 2] == e0[2]);
            }
            assert(s[p + 3] == e0[3]);
            lemma_entity_at(s, p, seq!['l', 't'], '<');
        } else if c == '"' {
            assert(s.subrange(p + 1, p + 5) =~= seq!['q', 'u', 'o', 't']) by {
                assert(s[p + 1] == e0[1] && s[p + 2] == e0[2] && s[p + 3] == e0[3] && s[p + 4] == e0[4]);
            }
            assert(s[p + 5] == e0[5]);
            lemma_entity_at(s, p, seq!['q', 'u', 'o', 't'], '"');
        } else if c == '\t' || c == '\n' || c == '\r' {
            let h = if c == '\t' { '9' } else if c == '\n' { 'A' } else { 'D' };
            assert(s[p + 1] == e0[1] && s[p + 2] == e0[2]);
            assert(s.subrange(p + 3, p + 4) =~= seq![h]) by {
                assert(s[p + 3] == e0[3]);
            }
            assert(s[p + 4] == e0[4]);
            assert(seq![h].drop_last() =~= Seq::<char>::empty());
            lemma_number_of_single(h, true);
            assert(number_of(seq![h], true) == c as int);
            lemma_char_ref_at(s, p, seq![h], true, c);
        }
    }
}

/// An element's qualified name is the name its start tag at the open span
/// spells, split into prefix and local name at its colon.
pub open spec fn names_read(
    qname: Seq<char>,
    prefix: Option<Seq<char>>,
    local: Seq<char>,
    open: Option<Span>,
    src: Seq<char>,
) -> bool {
    match open {
        Some(o) => {
            &&& qname == src.subrange(o.start + 1, name_run_end(src, o.start + 1))
            &&& crate::document::qualified_name(prefix, local) == qname
        },
        None => false,
    }
}

/// The in-scope namespace declarations, innermost last: each a prefix
/// (`None` for the default namespace) and the namespace it binds (`None`
/// where the default namespace is undeclared).
pub type Bindings = Seq<(Option<Seq<char>>, Option<Seq<char>>)>;

/// The scope after one attribute of a start tag: `xmlns` binds or undeclares
/// the default namespace, `xmlns:p` binds `p`, `xmlns:xml` binds nothing
/// new, and any other attribute leaves the scope as it is.
pub open spec fn declared_by(a: Attribute, scope: Bindings) -> Bindings {
    if a.spec_qname() == seq!['x', 'm', 'l', 'n', 's'] {
        scope.push((None, if a.spec_value().len() == 0 { None } else { Some(a.spec_value()) }))
    } else if a.spec_prefix() == Some(seq!['x', 'm', 'l', 'n', 's']) && a.spec_local_name() != seq!['x', 'm', 'l'] {
        scope.push((Some(a.spec_local_name()), Some(a.spec_value())))
    } else {
        scope
    }
}

/// The scope after the first `n` attributes of a start tag.
pub open spec fn scope_after(attrs: Seq<Attribute>, n: int, scope: Bindings) -> Bindings
    decreases n,
{
    if n <= 0 || n > attrs.len() {
        scope
    } else {
        declared_by(attrs[n - 1], scope_after(attrs, n - 1, scope))
    }
}

/// The namespace a prefix names in `scope`: `xml` and `xmlns` their fixed
/// namespaces, any other prefix the one its innermost declaration binds.
pub open spec fn prefix_namespace(prefix: Seq<char>, scope: Bindings) -> Option<Seq<char>> {
    if prefix == seq!['x', 'm', 'l', 'n', 's'] {
        Some(XMLNS_NAMESPACE@)
    } else if prefix == seq!['x', 'm', 'l'] {
        Some(XML_NAMESPACE@)
    } else {
        bound_uri(scope, prefix)
    }
}

/// The namespace of an attribute in `scope`: `xmlns` is in the namespace of
/// namespace declarations, an unprefixed attribute in none.
pub open spec fn attribute_namespace(a: Attribute, scope: Bindings) -> Option<Seq<char>> {
    if a.spec_qname() == seq!['x', 'm', 'l', 'n', 's'] {
        Some(XMLNS_NAMESPACE@)
    } else {
        match a.spec_prefix() {
            Some(p) => prefix_namespace(p, scope),
            None => None,
        }
    }
}

/// An element in `scope` (the declarations of its ancestors) is in the
/// namespace its prefix, or the default namespace, names once its own
/// declarations are in scope, and so is each of its attributes.
pub open spec fn names_resolved(
    prefix: Option<Seq<char>>,
    namespace: Option<Seq<char>>,
    attrs: Seq<Attribute>,
    scope: Bindings,
) -> bool {
    let inner = scope_after(attrs, attrs.len() as int, scope);
    &&& namespace == match prefix {
        Some(p) => if p == seq!['x', 'm', 'l'] { Some(XML_NAMESPACE@) } else { bound_uri(inner, p) },
        None => default_uri(inner),
    }
    &&& forall|i: int| 0 <= i < attrs.len() ==> (#[trigger] attrs[i]).spec_namespace() == attribute_namespace(attrs[i], inner)
}

/// Each attribute of an element holds the name and the value of an
/// attribute written in its start tag at the open span.
pub open spec fn attrs_read(attrs: Seq<Attribute>, open: Option<Span>, src: Seq<char>) -> bool {
    match open {
        Some(o) => forall|i: int|
            0 <= i < attrs.len() ==> exists|q: int, e: int|
                #![trigger name_run_end(src, q), attr_value_at(src, e)]
                {
                    &&& o.start < q
                    &&& e < o.end
                    &&& (#[trigger] attrs[i]).spec_qname() == src.subrange(q, name_run_end(src, q))
                    &&& attr_value_at(src, e) matches Some((val, _)) && val == attrs[i].spec_value()
                },
        None => false,
    }
}

/// A leaf node below an element holds what its span reads as: character
/// data with references decoded and line ends normalized, or the content of
/// a comment, CDATA section or processing instruction.
pub open spec fn leaf_reads(node: Node, span: Option<Span>, src: Seq<char>) -> bool {
    match span {
        Some(s) => match node {
            Node::Text(t) => chardata_from(src, s.start as int) == Some(t@),
            Node::CData(t) => cdata_at(src, s.start as int) == Some((t@, s.end as int)),
            Node::Comment(t) => comment_at(src, s.start as int) == Some((t@, s.end as int)),
            Node::ProcessingInstruction(t) => pi_at(src, s.start as int) == Some((t@, s.end as int)),
            Node::Element(_) => true,
        },
        None => false,
    }
}

/// A node outside the root holds what its span reads as: a non-empty run of
/// white space with line ends normalized, a comment or a processing
/// instruction.
pub open spec fn misc_reads(node: Node, span: Option<Span>, src: Seq<char>) -> bool {
    match span {
        Some(s) => match node {
            Node::Text(t) => {
                &&& s.start < s.end <= src.len()
                &&& forall|i: int| s.start <= i < s.end ==> is_xml_space(#[trigger] src[i])
                &&& t@ == line_ends(src.subrange(s.start as int, s.end as int))
            },
            Node::Comment(t) => comment_at(src, s.start as int) == Some((t@, s.end as int)),
            Node::ProcessingInstruction(t) => pi_at(src, s.start as int) == Some((t@, s.end as int)),
            _ => false,
        },
        None => false,
    }
}

/// The first `<` at or after `p`, or the end of `s`.
pub open spec fn lt_from(s: Seq<char>, p: int) -> int
    decreases s.len() - p,
{
    if p < 0 || p >= s.len() || s[p] == '<' {
        p
    } else {
        lt_from(s, p + 1)
    }
}

proof fn lemma_lt_from(s: Seq<char>, p: int, q: int)
    requires
        0 <= p <= q <= s.len(),
        forall|k: int| p <= k < q ==> s[k] != '<',
        q == s.len() || s[q] == '<',
    ensures
        lt_from(s, p) == q,
    decreases q - p,
{
    if p < q {
        lemma_lt_from(s, p + 1, q);
    }
}

/// The element whose start tag begins at `pos`, at nesting `depth`, in the
/// namespace scope `scope`, with `count` nodes taken already: where it ends
/// and how many nodes are taken then; `None` where the reader refuses it.
#[verifier::opaque]
pub open spec fn element_accepts(
    s: Seq<char>,
    pos: int,
    depth: int,
    scope: Bindings,
    count: int,
    options: ParseOptions,
) -> Option<(int, int)>
    decreases options.max_depth - depth, s.len() - pos, 1int,
{
    if pos < 0 || pos >= s.len() || count >= options.max_nodes || depth < 1 || depth > options.max_depth {
        None
    } else {
        let a = pos + 1;
        let b = name_run_end(s, a);
        match qname_split(s, a, b) {
            None => None,
            Some(colon) => match attrs_scan(s, b, Seq::empty(), options.max_attributes_per_element as int) {
                None => None,
                Some((raws, tag_end, empty)) => {
                    let inner = declare_outcome(s, raws, raws.len() as int, scope).0;
                    if declare_outcome(s, raws, raws.len() as int, scope).1 is Some {
                        None
                    } else if (match colon {
                        Some(c) => s.subrange(a, c) != seq!['x', 'm', 'l'] && bound_uri(inner, s.subrange(a, c)) is None,
                        None => false,
                    }) {
                        None
                    } else if resolve_outcome(s, raws, raws.len() as int, inner, XML_NAMESPACE@, XMLNS_NAMESPACE@) is Err {
                        None
                    } else if empty {
                        Some((tag_end, count + 1))
                    } else if tag_end <= pos || tag_end > s.len() {
                        None
                    } else {
                        content_accepts(s, tag_end, depth, a, b, inner, count + 1, options)
                    }
                },
            },
        }
    }
}

/// The content of an element named `s[a..b]` from `p` up to and including
/// its end tag: where the end tag ends and how many nodes are taken then;
/// `None` where the reader refuses it.
#[verifier::opaque]
pub open spec fn content_accepts(
    s: Seq<char>,
    p: int,
    depth: int,
    a: int,
    b: int,
    scope: Bindings,
    count: int,
    options: ParseOptions,
) -> Option<(int, int)>
    decreases options.max_depth - depth, s.len() - p, 0int,
{
    if p < 0 || p >= s.len() {
        None
    } else if s[p] == '<' {
        if p + 1 < s.len() && s[p + 1] == '/' {
            let e = name_run_end(s, p + 2);
            let q = space_run_end(s, e);
            if s.subrange(a, b) == s.subrange(p + 2, e) && q < s.len() && s[q] == '>' {
                Some((q + 1, count))
            } else {
                None
            }
        } else if occurs_at(s, p, seq!['<', '!', '-', '-']) {
            match comment_at(s, p) {
                Some((_, q)) => if p < q <= s.len() && count < options.max_nodes {
                    content_accepts(s, q, depth, a, b, scope, count + 1, options)
                } else {
                    None
                },
                None => None,
            }
        } else if occurs_at(s, p, seq!['<', '!', '[', 'C', 'D', 'A', 'T', 'A', '[']) {
            match cdata_at(s, p) {
                Some((_, q)) => if p < q <= s.len() && count < options.max_nodes {
                    content_accepts(s, q, depth, a, b, scope, count + 1, options)
                } else {
                    None
                },
                None => None,
            }
        } else if occurs_at(s, p, seq!['<', '?']) {
            match pi_at(s, p) {
                Some((_, q)) => if p < q <= s.len() && count < options.max_nodes {
                    content_accepts(s, q, depth, a, b, scope, count + 1, options)
                } else {
                    None
                },
                None => None,
            }
        } else if p + 1 < s.len() && s[p + 1] == '!' {
            None
        } else if depth >= options.max_depth {
            None
        } else {
            match element_accepts(s, p, depth + 1, scope, count, options) {
                Some((q, c)) => if p < q <= s.len() {
                    content_accepts(s, q, depth, a, b, scope, c, options)
                } else {
                    None
                },
                None => None,
            }
        }
    } else if count < options.max_nodes && chardata_from(s, p) is Some && p < lt_from(s, p) <= s.len() {
        content_accepts(s, lt_from(s, p), depth, a, b, scope, count + 1, options)
    } else {
        None
    }
}

/// Where the root's start tag begins, in an input without an XML
/// declaration whose run before the root is well-formed and leaves the
/// budgets room for the root.
pub open spec fn root_start(s: Seq<char>, options: ParseOptions) -> Option<int> {
    if starts_with_declaration(s) || options.max_depth == 0 {
        None
    } else {
        match prolog_end(s, 0, 0, options.max_nodes as int, false) {
            Some((q, c)) => if c < options.max_nodes {
                Some(q)
            } else {
                None
            },
            None => None,
        }
    }
}

/// The root's name, found where [`root_start`] says, holds two colons.
pub open spec fn root_name_malformed(s: Seq<char>, options: ParseOptions) -> bool {
    root_start(s, options) matches Some(q) && two_colons(s, q + 1, name_run_end(s, q + 1))
}

/// The root's start tag, found where [`root_start`] says, carries no
/// attribute, and its name has a prefix, other than `xml`, that nothing
/// declares.
pub open spec fn root_prefix_undeclared(s: Seq<char>, options: ParseOptions) -> bool {
    root_start(s, options) matches Some(q) && bare_tag_prefix_unbound(s, q, Seq::empty())
}

/// Reading the element whose start tag begins at `pos` as
/// [`element_accepts`] does, the first refusal met is that an element
/// nests deeper than the depth budget.
#[verifier::opaque]
pub open spec fn element_depth_refused(
    s: Seq<char>,
    pos: int,
    depth: int,
    scope: Bindings,
    count: int,
    options: ParseOptions,
) -> bool
    decreases options.max_depth - depth, s.len() - pos, 1int,
{
    if pos < 0 || pos >= s.len() || count >= options.max_nodes || depth < 1 || depth > options.max_depth {
        false
    } else {
        let a = pos + 1;
        let b = name_run_end(s, a);
        match qname_split(s, a, b) {
            None => false,
            Some(colon) => match attrs_scan(s, b, Seq::empty(), options.max_attributes_per_element as int) {
                None => false,
                Some((raws, tag_end, empty)) => {
                    let inner = declare_outcome(s, raws, raws.len() as int, scope).0;
                    if declare_outcome(s, raws, raws.len() as int, scope).1 is Some {
                        false
                    } else if (match colon {
                        Some(c) => s.subrange(a, c) != seq!['x', 'm', 'l'] && bound_uri(inner, s.subrange(a, c)) is None,
                        None => false,
                    }) {
                        false
                    } else if resolve_outcome(s, raws, raws.len() as int, inner, XML_NAMESPACE@, XMLNS_NAMESPACE@) is Err {
                        false
                    } else if empty || tag_end <= pos || tag_end > s.len() {
                        false
                    } else {
                        content_depth_refused(s, tag_end, depth, a, b, inner, count + 1, options)
                    }
                },
            },
        }
    }
}

/// Reading the content from `p` as [`content_accepts`] does, the first
/// refusal met is that an element nests deeper than the depth budget.
#[verifier::opaque]
pub open spec fn content_depth_refused(
    s: Seq<char>,
    p: int,
    depth: int,
    a: int,
    b: int,
    scope: Bindings,
    count: int,
    options: ParseOptions,
) -> bool
    decreases options.max_depth - depth, s.len() - p, 0int,
{
    if p < 0 || p >= s.len() {
        false
    } else if s[p] == '<' {
        if p + 1 < s.len() && s[p + 1] == '/' {
            false
        } else if occurs_at(s, p, seq!['<', '!', '-', '-']) {
            match comment_at(s, p) {
                Some((_, q)) => p < q <= s.len() && count < options.max_nodes && content_depth_refused(
                    s,
                    q,
                    depth,
                    a,
                    b,
                    scope,
                    count + 1,
                    options,
                ),
                None => false,
            }
        } else if occurs_at(s, p, seq!['<', '!', '[', 'C', 'D', 'A', 'T', 'A', '[']) {
            match cdata_at(s, p) {
                Some((_, q)) => p < q <= s.len() && count < options.max_nodes && content_depth_refused(
                    s,
                    q,
                    depth,
                    a,
                    b,
                    scope,
                    count + 1,
                    options,
                ),
                None => false,
            }
        } else if occurs_at(s, p, seq!['<', '?']) {
            match pi_at(s, p) {
                Some((_, q)) => p < q <= s.len() && count < options.max_nodes && content_depth_refused(
                    s,
                    q,
                    depth,
                    a,
                    b,
                    scope,
                    count + 1,
                    options,
                ),
                None => false,
            }
        } else if p + 1 < s.len() && s[p + 1] == '!' {
            false
        } else if depth >= options.max_depth {
            true
        } else if element_depth_refused(s, p, depth + 1, scope, count, options) {
            true
        } else {
            match element_accepts(s, p, depth + 1, scope, count, options) {
                Some((q, c)) => p < q <= s.len() && content_depth_refused(s, q, depth, a, b, scope, c, options),
                None => false,
            }
        }
    } else {
        count < options.max_nodes && chardata_from(s, p) is Some && p < lt_from(s, p) <= s.len()
            && content_depth_refused(s, lt_from(s, p), depth, a, b, scope, count + 1, options)
    }
}

/// Reading the element whose start tag begins at `pos` as
/// [`element_accepts`] does, the refusal met first, where it is met in a
/// start tag and is one of these: more attributes than the per-element
/// budget (`AttributeLimit`), a namespace declaration that binds a reserved
/// prefix or namespace (`ReservedNamespace`), or an element or attribute
/// name whose prefix no declaration in scope binds (`UndeclaredPrefix`).
#[verifier::opaque]
pub open spec fn element_tag_refusal(
    s: Seq<char>,
    pos: int,
    depth: int,
    scope: Bindings,
    count: int,
    options: ParseOptions,
) -> Option<ParseErrorKind>
    decreases options.max_depth - depth, s.len() - pos, 1int,
{
    if pos < 0 || pos >= s.len() || count >= options.max_nodes || depth < 1 || depth > options.max_depth {
        None
    } else {
        let a = pos + 1;
        let b = name_run_end(s, a);
        match qname_split(s, a, b) {
            None => None,
            Some(colon) => match attrs_scan(s, b, Seq::empty(), options.max_attributes_per_element as int) {
                None => if attrs_limit_refused(s, b, Seq::empty(), options.max_attributes_per_element as int) {
                    Some(ParseErrorKind::AttributeLimit)
                } else {
                    None
                },
                Some((raws, tag_end, empty)) => {
                    let inner = declare_outcome(s, raws, raws.len() as int, scope).0;
                    if declare_outcome(s, raws, raws.len() as int, scope).1 is Some {
                        match declare_outcome(s, raws, raws.len() as int, scope).1 {
                            Some((k, _)) => if k == ParseErrorKind::ReservedNamespace {
                                Some(k)
                            } else {
                                None
                            },
                            None => None,
                        }
                    } else if (match colon {
                        Some(c) => s.subrange(a, c) != seq!['x', 'm', 'l'] && bound_uri(inner, s.subrange(a, c)) is None,
                        None => false,
                    }) {
                        Some(ParseErrorKind::UndeclaredPrefix)
                    } else if resolve_outcome(s, raws, raws.len() as int, inner, XML_NAMESPACE@, XMLNS_NAMESPACE@) is Err {
                        match resolve_outcome(s, raws, raws.len() as int, inner, XML_NAMESPACE@, XMLNS_NAMESPACE@) {
                            Err((k, _)) => if k == ParseErrorKind::UndeclaredPrefix {
                                Some(k)
                            } else {
                                None
                            },
                            Ok(_) => None,
                        }
                    } else if empty || tag_end <= pos || tag_end > s.len() {
                        None
                    } else {
                        content_tag_refusal(s, tag_end, depth, a, b, inner, count + 1, options)
                    }
                },
            },
        }
    }
}

/// Reading the content from `p` as [`content_accepts`] does, the refusal
/// met first, where it is one that [`element_tag_refusal`] names.
#[verifier::opaque]
pub open spec fn content_tag_refusal(
    s: Seq<char>,
    p: int,
    depth: int,
    a: int,
    b: int,
    scope: Bindings,
    count: int,
    options: ParseOptions,
) -> Option<ParseErrorKind>
    decreases options.max_depth - depth, s.len() - p, 0int,
{
    if p < 0 || p >= s.len() {
        None
    } else if s[p] == '<' {
        if p + 1 < s.len() && s[p + 1] == '/' {
            None
        } else if occurs_at(s, p, seq!['<', '!', '-', '-']) {
            match comment_at(s, p) {
                Some((_, q)) => if p < q <= s.len() && count < options.max_nodes {
                    content_tag_refusal(s, q, depth, a, b, scope, count + 1, options)
                } else {
                    None
                },
                None => None,
            }
        } else if occurs_at(s, p, seq!['<', '!', '[', 'C', 'D', 'A', 'T', 'A', '[']) {
            match cdata_at(s, p) {
                Some((_, q)) => if p < q <= s.len() && count < options.max_nodes {
                    content_tag_refusal(s, q, depth, a, b, scope, count + 1, options)
                } else {
                    None
                },
                None => None,
            }
        } else if occurs_at(s, p, seq!['<', '?']) {
            match pi_at(s, p) {
                Some((_, q)) => if p < q <= s.len() && count < options.max_nodes {
                    content_tag_refusal(s, q, depth, a, b, scope, count + 1, options)
                } else {
                    None
                },
                None => None,
            }
        } else if p + 1 < s.len() && s[p + 1] == '!' {
            None
        } else if depth >= options.max_depth {
            None
        } else if element_tag_refusal(s, p, depth + 1, scope, count, options) is Some {
            element_tag_refusal(s, p, depth + 1, scope, count, options)
        } else {
            match element_accepts(s, p, depth + 1, scope, count, options) {
                Some((q, c)) => if p < q <= s.len() {
                    content_tag_refusal(s, q, depth, a, b, scope, c, options)
                } else {
                    None
                },
                None => None,
            }
        }
    } else if count < options.max_nodes && chardata_from(s, p) is Some && p < lt_from(s, p) <= s.len() {
        content_tag_refusal(s, lt_from(s, p), depth, a, b, scope, count + 1, options)
    } else {
        None
    }
}

/// Reading `s` as [`document_accepts`] does, the refusal met first, at the
/// root or below it, where it is one that [`element_tag_refusal`] names.
pub open spec fn document_tag_refusal(s: Seq<char>, options: ParseOptions) -> Option<ParseErrorKind> {
    let start = if starts_with_declaration(s) {
        declaration_end(s)
    } else {
        Some(0int)
    };
    match start {
        None => None,
        Some(p) => match prolog_end(s, p, 0, options.max_nodes as int, false) {
            None => None,
            Some((q, c)) => if options.max_depth >= 1 {
                element_tag_refusal(s, q, 1, Seq::empty(), c, options)
            } else {
                None
            },
        },
    }
}

/// Reading `s` as [`document_accepts`] does, the first refusal met is that
/// the root, or an element below it, nests deeper than the depth budget.
pub open spec fn document_depth_refused(s: Seq<char>, options: ParseOptions) -> bool {
    let start = if starts_with_declaration(s) {
        declaration_end(s)
    } else {
        Some(0int)
    };
    match start {
        None => false,
        Some(p) => match prolog_end(s, p, 0, options.max_nodes as int, false) {
            None => false,
            Some((q, c)) => options.max_depth == 0 || element_depth_refused(s, q, 1, Seq::empty(), c, options),
        },
    }
}

/// Reading the element whose start tag begins at `pos` as
/// [`element_accepts`] does, the first refusal met is an entity reference,
/// in character data or in an attribute value, that names no predefined
/// entity.
#[verifier::opaque]
pub open spec fn element_entity_refused(
    s: Seq<char>,
    pos: int,
    depth: int,
    scope: Bindings,
    count: int,
    options: ParseOptions,
) -> bool
    decreases options.max_depth - depth, s.len() - pos, 1int,
{
    if pos < 0 || pos >= s.len() || count >= options.max_nodes || depth < 1 || depth > options.max_depth {
        false
    } else {
        let a = pos + 1;
        let b = name_run_end(s, a);
        match qname_split(s, a, b) {
            None => false,
            Some(colon) => match attrs_scan(s, b, Seq::empty(), options.max_attributes_per_element as int) {
                None => attrs_entity_refused(s, b, Seq::empty(), options.max_attributes_per_element as int),
                Some((raws, tag_end, empty)) => {
                    let inner = declare_outcome(s, raws, raws.len() as int, scope).0;
                    if declare_outcome(s, raws, raws.len() as int, scope).1 is Some {
                        false
                    } else if (match colon {
                        Some(c) => s.subrange(a, c) != seq!['x', 'm', 'l'] && bound_uri(inner, s.subrange(a, c)) is None,
                        None => false,
                    }) {
                        false
                    } else if resolve_outcome(s, raws, raws.len() as int, inner, XML_NAMESPACE@, XMLNS_NAMESPACE@) is Err {
                        false
                    } else if empty || tag_end <= pos || tag_end > s.len() {
                        false
                    } else {
                        content_entity_refused(s, tag_end, depth, a, b, inner, count + 1, options)
                    }
                },
            },
        }
    }
}

/// Reading the content from `p` as [`content_accepts`] does, the first
/// refusal met is an entity reference, in character data or in an
/// attribute value, that names no predefined entity.
#[verifier::opaque]
pub open spec fn content_entity_refused(
    s: Seq<char>,
    p: int,
    depth: int,
    a: int,
    b: int,
    scope: Bindings,
    count: int,
    options: ParseOptions,
) -> bool
    decreases options.max_depth - depth, s.len() - p, 0int,
{
    if p < 0 || p >= s.len() {
        false
    } else if s[p] == '<' {
        if p + 1 < s.len() && s[p + 1] == '/' {
            false
        } else if occurs_at(s, p, seq!['<', '!', '-', '-']) {
            match comment_at(s, p) {
                Some((_, q)) => p < q <= s.len() && count < options.max_nodes && content_entity_refused(
                    s,
                    q,
                    depth,
                    a,
                    b,
                    scope,
                    count + 1,
                    options,
                ),
                None => false,
            }
        } else if occurs_at(s, p, seq!['<', '!', '[', 'C', 'D', 'A', 'T', 'A', '[']) {
            match cdata_at(s, p) {
                Some((_, q)) => p < q <= s.len() && count < options.max_nodes && content_entity_refused(
                    s,
                    q,
                    depth,
                    a,
                    b,
                    scope,
                    count + 1,
                    options,
                ),
                None => false,
            }
        } else if occurs_at(s, p, seq!['<', '?']) {
            match pi_at(s, p) {
                Some((_, q)) => p < q <= s.len() && count < options.max_nodes && content_entity_refused(
                    s,
                    q,
                    depth,
                    a,
                    b,
                    scope,
                    count + 1,
                    options,
                ),
                None => false,
            }
        } else if p + 1 < s.len() && s[p + 1] == '!' {
            false
        } else if depth >= options.max_depth {
            false
        } else if element_entity_refused(s, p, depth + 1, scope, count, options) {
            true
        } else {
            match element_accepts(s, p, depth + 1, scope, count, options) {
                Some((q, c)) => p < q <= s.len() && content_entity_refused(s, q, depth, a, b, scope, c, options),
                None => false,
            }
        }
    } else {
        count < options.max_nodes && (chardata_entity_refused(s, p) || (chardata_from(s, p) is Some && p < lt_from(
            s,
            p,
        ) <= s.len() && content_entity_refused(s, lt_from(s, p), depth, a, b, scope, count + 1, options)))
    }
}

/// Reading `s` as [`document_accepts`] does, the first refusal met is an
/// entity reference, in character data or in an attribute value of the root
/// or of an element below it, that names no predefined entity.
pub open spec fn document_entity_refused(s: Seq<char>, options: ParseOptions) -> bool {
    let start = if starts_with_declaration(s) {
        declaration_end(s)
    } else {
        Some(0int)
    };
    match start {
        None => false,
        Some(p) => match prolog_end(s, p, 0, options.max_nodes as int, false) {
            None => false,
            Some((q, c)) => options.max_depth >= 1 && element_entity_refused(s, q, 1, Seq::empty(), c, options),
        },
    }
}

/// Reading the element whose start tag begins at `pos` as
/// [`element_accepts`] does, the first refusal met is an end tag whose
/// name is not that of the element it closes.
#[verifier::opaque]
pub open spec fn element_mismatch_refused(
    s: Seq<char>,
    pos: int,
    depth: int,
    scope: Bindings,
    count: int,
    options: ParseOptions,
) -> bool
    decreases options.max_depth - depth, s.len() - pos, 1int,
{
    if pos < 0 || pos >= s.len() || count >= options.max_nodes || depth < 1 || depth > options.max_depth {
        false
    } else {
        let a = pos + 1;
        let b = name_run_end(s, a);
        match qname_split(s, a, b) {
            None => false,
            Some(colon) => match attrs_scan(s, b, Seq::empty(), options.max_attributes_per_element as int) {
                None => false,
                Some((raws, tag_end, empty)) => {
                    let inner = declare_outcome(s, raws, raws.len() as int, scope).0;
                    if declare_outcome(s, raws, raws.len() as int, scope).1 is Some {
                        false
                    } else if (match colon {
                        Some(c) => s.subrange(a, c) != seq!['x', 'm', 'l'] && bound_uri(inner, s.subrange(a, c)) is None,
                        None => false,
                    }) {
                        false
                    } else if resolve_outcome(s, raws, raws.len() as int, inner, XML_NAMESPACE@, XMLNS_NAMESPACE@) is Err {
                        false
                    } else if empty || tag_end <= pos || tag_end > s.len() {
                        false
                    } else {
                        content_mismatch_refused(s, tag_end, depth, a, b, inner, count + 1, options)
                    }
                },
            },
        }
    }
}

/// Reading the content from `p` as [`content_accepts`] does, the first
/// refusal met is an end tag whose name is not that of the element it
/// closes.
#[verifier::opaque]
pub open spec fn content_mismatch_refused(
    s: Seq<char>,
    p: int,
    depth: int,
    a: int,
    b: int,
    scope: Bindings,
    count: int,
    options: ParseOptions,
) -> bool
    decreases options.max_depth - depth, s.len() - p, 0int,
{
    if p < 0 || p >= s.len() {
        false
    } else if s[p] == '<' {
        if p + 1 < s.len() && s[p + 1] == '/' {
            s.subrange(a, b) != s.subrange(p + 2, name_run_end(s, p + 2))
        } else if occurs_at(s, p, seq!['<', '!', '-', '-']) {
            match comment_at(s, p) {
                Some((_, q)) => p < q <= s.len() && count < options.max_nodes && content_mismatch_refused(
                    s,
                    q,
                    depth,
                    a,
                    b,
                    scope,
                    count + 1,
                    options,
                ),
                None => false,
            }
        } else if occurs_at(s, p, seq!['<', '!', '[', 'C', 'D', 'A', 'T', 'A', '[']) {
            match cdata_at(s, p) {
                Some((_, q)) => p < q <= s.len() && count < options.max_nodes && content_mismatch_refused(
                    s,
                    q,
                    depth,
                    a,
                    b,
                    scope,
                    count + 1,
                    options,
                ),
                None => false,
            }
        } else if occurs_at(s, p, seq!['<', '?']) {
            match pi_at(s, p) {
                Some((_, q)) => p < q <= s.len() && count < options.max_nodes && content_mismatch_refused(
                    s,
                    q,
                    depth,
                    a,
                    b,
                    scope,
                    count + 1,
                    options,
                ),
                None => false,
            }
        } else if p + 1 < s.len() && s[p + 1] == '!' {
            false
        } else if depth >= options.max_depth {
            false
        } else if element_mismatch_refused(s, p, depth + 1, scope, count, options) {
            true
        } else {
            match element_accepts(s, p, depth + 1, scope, count, options) {
                Some((q, c)) => p < q <= s.len() && content_mismatch_refused(s, q, depth, a, b, scope, c, options),
                None => false,
            }
        }
    } else {
        count < options.max_nodes && chardata_from(s, p) is Some && p < lt_from(s, p) <= s.len()
            && content_mismatch_refused(s, lt_from(s, p), depth, a, b, scope, count + 1, options)
    }
}

/// Reading `s` as [`document_accepts`] does, the first refusal met is an
/// end tag, at the root or below it, whose name is not that of the element
/// it closes.
pub open spec fn document_mismatch_refused(s: Seq<char>, options: ParseOptions) -> bool {
    let start = if starts_with_declaration(s) {
        declaration_end(s)
    } else {
        Some(0int)
    };
    match start {
        None => false,
        Some(p) => match prolog_end(s, p, 0, options.max_nodes as int, false) {
            None => false,
            Some((q, c)) => options.max_depth >= 1 && element_mismatch_refused(s, q, 1, Seq::empty(), c, options),
        },
    }
}

/// Reading the element whose start tag begins at `pos` as
/// [`element_accepts`] does, the first refusal met is that the document
/// holds more nodes than the node budget.
#[verifier::opaque]
pub open spec fn element_nodes_refused(
    s: Seq<char>,
    pos: int,
    depth: int,
    scope: Bindings,
    count: int,
    options: ParseOptions,
) -> bool
    decreases options.max_depth - depth, s.len() - pos, 1int,
{
    if pos < 0 || pos >= s.len() || depth < 1 || depth > options.max_depth {
        false
    } else if count >= options.max_nodes {
        true
    } else {
        let a = pos + 1;
        let b = name_run_end(s, a);
        match qname_split(s, a, b) {
            None => false,
            Some(colon) => match attrs_scan(s, b, Seq::empty(), options.max_attributes_per_element as int) {
                None => false,
                Some((raws, tag_end, empty)) => {
                    let inner = declare_outcome(s, raws, raws.len() as int, scope).0;
                    if declare_outcome(s, raws, raws.len() as int, scope).1 is Some {
                        false
                    } else if (match colon {
                        Some(c) => s.subrange(a, c) != seq!['x', 'm', 'l'] && bound_uri(inner, s.subrange(a, c)) is None,
                        None => false,
                    }) {
                        false
                    } else if resolve_outcome(s, raws, raws.len() as int, inner, XML_NAMESPACE@, XMLNS_NAMESPACE@) is Err {
                        false
                    } else if empty || tag_end <= pos || tag_end > s.len() {
                        false
                    } else {
                        content_nodes_refused(s, tag_end, depth, a, b, inner, count + 1, options)
                    }
                },
            },
        }
    }
}

/// Reading the content from `p` as [`content_accepts`] does, the first
/// refusal met is that the document holds more nodes than the node budget.
#[verifier::opaque]
pub open spec fn content_nodes_refused(
    s: Seq<char>,
    p: int,
    depth: int,
    a: int,
    b: int,
    scope: Bindings,
    count: int,
    options: ParseOptions,
) -> bool
    decreases options.max_depth - depth, s.len() - p, 0int,
{
    if p < 0 || p >= s.len() {
        false
    } else if s[p] == '<' {
        if p + 1 < s.len() && s[p + 1] == '/' {
            false
        } else if occurs_at(s, p, seq!['<', '!', '-', '-']) {
            count >= options.max_nodes || match comment_at(s, p) {
                Some((_, q)) => p < q <= s.len() && count < options.max_nodes && content_nodes_refused(
                    s,
                    q,
                    depth,
                    a,
                    b,
                    scope,
                    count + 1,
                    options,
                ),
                None => false,
            }
        } else if occurs_at(s, p, seq!['<', '!', '[', 'C', 'D', 'A', 'T', 'A', '[']) {
            count >= options.max_nodes || match cdata_at(s, p) {
                Some((_, q)) => p < q <= s.len() && count < options.max_nodes && content_nodes_refused(
                    s,
                    q,
                    depth,
                    a,
                    b,
                    scope,
                    count + 1,
                    options,
                ),
                None => false,
            }
        } else if occurs_at(s, p, seq!['<', '?']) {
            count >= options.max_nodes || match pi_at(s, p) {
                Some((_, q)) => p < q <= s.len() && count < options.max_nodes && content_nodes_refused(
                    s,
                    q,
                    depth,
                    a,
                    b,
                    scope,
                    count + 1,
                    options,
                ),
                None => false,
            }
        } else if p + 1 < s.len() && s[p + 1] == '!' {
            false
        } else if depth >= options.max_depth {
            false
        } else if element_nodes_refused(s, p, depth + 1, scope, count, options) {
            true
        } else {
            match element_accepts(s, p, depth + 1, scope, count, options) {
                Some((q, c)) => p < q <= s.len() && content_nodes_refused(s, q, depth, a, b, scope, c, options),
                None => false,
            }
        }
    } else {
        count >= options.max_nodes || (chardata_from(s, p) is Some && p < lt_from(s, p) <= s.len()
            && content_nodes_refused(s, lt_from(s, p), depth, a, b, scope, count + 1, options))
    }
}

/// Reading `s` as [`document_accepts`] does, the first refusal met is that
/// the root, or its content, takes more nodes than the node budget.
pub open spec fn document_nodes_refused(s: Seq<char>, options: ParseOptions) -> bool {
    let start = if starts_with_declaration(s) {
        declaration_end(s)
    } else {
        Some(0int)
    };
    match start {
        None => false,
        Some(p) => match prolog_end(s, p, 0, options.max_nodes as int, false) {
            None => false,
            Some((q, c)) => options.max_depth >= 1 && element_nodes_refused(s, q, 1, Seq::empty(), c, options),
        },
    }
}

/// The reader accepts the characters `s`, all of them allowed by XML 1.0,
/// within the budgets of `options`: an optional XML declaration, a
/// well-formed run of white space, comments and processing instructions,
/// one root element with its content, and another such run to the end.
pub open spec fn document_accepts(s: Seq<char>, options: ParseOptions) -> bool {
    let start = if starts_with_declaration(s) {
        declaration_end(s)
    } else {
        Some(0int)
    };
    match start {
        None => false,
        Some(p) => match prolog_end(s, p, 0, options.max_nodes as int, false) {
            None => false,
            Some((q, c)) => options.max_depth >= 1 && match element_accepts(s, q, 1, Seq::empty(), c, options) {
                None => false,
                Some((e, c2)) => epilog_end(s, e, c2, options.max_nodes as int, false) is Some,
            },
        },
    }
}

/// The input opens with an XML declaration.
pub open spec fn starts_with_declaration(s: Seq<char>) -> bool {
    occurs_at(s, 0, seq!['<', '?', 'x', 'm', 'l']) && 5 < s.len() && is_xml_space(s[5])
}

/// Before the root, the run of white space, comments and processing
/// instructions from `p` is well-formed and within a budget of `max` nodes
/// (`count` of them taken already), and ends at a document type
/// declaration. `in_space` tells whether `p` is inside a white-space run
/// that has been counted.
#[verifier::opaque]
pub open spec fn prolog_reaches_doctype(s: Seq<char>, p: int, count: int, max: int, in_space: bool) -> bool
    decreases s.len() - p,
{
    if p < 0 || p >= s.len() {
        false
    } else if is_xml_space(s[p]) {
        if in_space {
            prolog_reaches_doctype(s, p + 1, count, max, true)
        } else {
            count < max && prolog_reaches_doctype(s, p + 1, count + 1, max, true)
        }
    } else if s[p] != '<' {
        false
    } else if occurs_at(s, p, seq!['<', '!', '-', '-']) {
        comment_at(s, p) matches Some((_, q)) && p < q <= s.len() && count < max && prolog_reaches_doctype(
            s,
            q,
            count + 1,
            max,
            false,
        )
    } else if occurs_at(s, p, seq!['<', '?']) {
        pi_at(s, p) matches Some((_, q)) && p < q <= s.len() && count < max && prolog_reaches_doctype(
            s,
            q,
            count + 1,
            max,
            false,
        )
    } else {
        occurs_at(s, p, seq!['<', '!', 'D', 'O', 'C', 'T', 'Y', 'P', 'E'])
    }
}

/// Where the run of white space, comments and processing instructions
/// before the root, from `p`, ends at the root's start tag within a budget
/// of `max` nodes (`count` of them taken already): the start tag's position
/// and the number of nodes taken then.
#[verifier::opaque]
pub open spec fn prolog_end(s: Seq<char>, p: int, count: int, max: int, in_space: bool) -> Option<(int, int)>
    decreases s.len() - p,
{
    if p < 0 || p >= s.len() {
        None
    } else if is_xml_space(s[p]) {
        if in_space {
            prolog_end(s, p + 1, count, max, true)
        } else if count < max {
            prolog_end(s, p + 1, count + 1, max, true)
        } else {
            None
        }
    } else if s[p] != '<' {
        None
    } else if occurs_at(s, p, seq!['<', '!', '-', '-']) {
        match comment_at(s, p) {
            Some((_, q)) => if p < q <= s.len() && count < max {
                prolog_end(s, q, count + 1, max, false)
            } else {
                None
            },
            None => None,
        }
    } else if occurs_at(s, p, seq!['<', '?']) {
        match pi_at(s, p) {
            Some((_, q)) => if p < q <= s.len() && count < max {
                prolog_end(s, q, count + 1, max, false)
            } else {
                None
            },
            None => None,
        }
    } else if occurs_at(s, p, seq!['<', '!', 'D', 'O', 'C', 'T', 'Y', 'P', 'E']) {
        None
    } else if p + 1 < s.len() && s[p + 1] == '!' {
        None
    } else {
        Some((p, count))
    }
}

/// The run of white space, comments and processing instructions after the
/// root, from `p` to the end of the input, within a budget of `max` nodes
/// (`count` of them taken already): the number of nodes taken at the end;
/// `None` where the reader refuses it.
#[verifier::opaque]
pub open spec fn epilog_end(s: Seq<char>, p: int, count: int, max: int, in_space: bool) -> Option<int>
    decreases s.len() - p,
{
    if p < 0 || p > s.len() {
        None
    } else if p == s.len() {
        Some(count)
    } else if is_xml_space(s[p]) {
        if in_space {
            epilog_end(s, p + 1, count, max, true)
        } else if count < max {
            epilog_end(s, p + 1, count + 1, max, true)
        } else {
            None
        }
    } else if s[p] != '<' {
        None
    } else if occurs_at(s, p, seq!['<', '!', '-', '-']) {
        match comment_at(s, p) {
            Some((_, q)) => if p < q <= s.len() && count < max {
                epilog_end(s, q, count + 1, max, false)
            } else {
                None
            },
            None => None,
        }
    } else if occurs_at(s, p, seq!['<', '?']) {
        match pi_at(s, p) {
            Some((_, q)) => if p < q <= s.len() && count < max {
                epilog_end(s, q, count + 1, max, false)
            } else {
                None
            },
            None => None,
        }
    } else {
        None
    }
}

proof fn lemma_space_run_epilog(s: Seq<char>, p: int, q: int, count: int, max: int)
    requires
        0 <= p <= q <= s.len(),
        forall|k: int| p <= k < q ==> is_xml_space(#[trigger] s[k]),
        q == s.len() || !is_xml_space(s[q]),
    ensures
        epilog_end(s, p, count, max, true) == epilog_end(s, q, count, max, false),
    decreases q - p,
{
    reveal(epilog_end);
    if p < q {
        lemma_space_run_epilog(s, p + 1, q, count, max);
    }
}

/// Inside a counted white-space run, where the run before the root ends is
/// decided where the white space ends.
proof fn lemma_space_run_end(s: Seq<char>, p: int, q: int, count: int, max: int)
    requires
        0 <= p <= q <= s.len(),
        forall|k: int| p <= k < q ==> is_xml_space(#[trigger] s[k]),
        q == s.len() || !is_xml_space(s[q]),
    ensures
        prolog_end(s, p, count, max, true) == prolog_end(s, q, count, max, false),
    decreases q - p,
{
    reveal(prolog_end);
    if p < q {
        lemma_space_run_end(s, p + 1, q, count, max);
    }
}

/// Inside a counted white-space run, reaching a document type declaration
/// is decided where the run ends.
proof fn lemma_space_run(s: Seq<char>, p: int, q: int, count: int, max: int)
    requires
        0 <= p <= q <= s.len(),
        forall|k: int| p <= k < q ==> is_xml_space(#[trigger] s[k]),
        q == s.len() || !is_xml_space(s[q]),
    ensures
        prolog_reaches_doctype(s, p, count, max, true) == prolog_reaches_doctype(s, q, count, max, false),
    decreases q - p,
{
    reveal(prolog_reaches_doctype);
    if p < q {
        lemma_space_run(s, p + 1, q, count, max);
    }
}

/// Every node of a list outside the root reads as its span.
pub open spec fn misc_read(nodes: Seq<Node>, spans: Seq<Option<Span>>, src: Seq<char>) -> bool {
    nodes.len() == spans.len() && forall|k: int| 0 <= k < nodes.len() ==> misc_reads(#[trigger] nodes[k], spans[k], src)
}

/// The first occurrence of `lit` at or after `from` is at `q` when there is
/// none before it.
pub proof fn lemma_first_at(s: Seq<char>, from: int, q: int, lit: Seq<char>)
    requires
        0 <= from <= q < s.len(),
        forall|i: int| from <= i < q ==> !occurs_at(s, i, lit),
        occurs_at(s, q, lit),
    ensures
        first_at(s, from, lit) == Some(q),
    decreases q - from,
{
    if from < q {
        lemma_first_at(s, from + 1, q, lit);
    }
}

/// A comment the writer writes, `<!--` then its content then `-->`, reads
/// back as that content, provided the content is one a comment can hold:
/// no `--`, no final `-`, and line ends already normalized.
pub proof fn lemma_comment_read_back(s: Seq<char>, pos: int, c: Seq<char>)
    requires
        0 <= pos,
        pos + c.len() + 7 <= s.len(),
        s.subrange(pos, pos + 4) == seq!['<', '!', '-', '-'],
        s.subrange(pos + 4, pos + 4 + c.len()) == c,
        s.subrange(pos + 4 + c.len(), pos + c.len() + 7) == seq!['-', '-', '>'],
        forall|i: int| 0 <= i < c.len() - 1 ==> !(c[i] == '-' && #[trigger] c[i + 1] == '-'),
        c.len() == 0 || c.last() != '-',
        forall|i: int| 0 <= i < c.len() ==> c[i] != '\r',
    ensures
        comment_at(s, pos) == Some((c, pos + c.len() + 7)),
{
    let a = pos + 4;
    let q = a + c.len();
    let dd = seq!['-', '-'];
    assert(s[q] == '-' && s[q + 1] == '-' && s[q + 2] == '>') by {
        assert(s.subrange(q, pos + c.len() + 7)[0] == s[q]);
        assert(s.subrange(q, pos + c.len() + 7)[1] == s[q + 1]);
        assert(s.subrange(q, pos + c.len() + 7)[2] == s[q + 2]);
    }
    assert(occurs_at(s, q, dd)) by {
        assert(s.subrange(q, q + 2) =~= dd);
    }
    assert forall|i: int| a <= i < q implies !occurs_at(s, i, dd) by {
        if occurs_at(s, i, dd) {
            assert(s.subrange(i, i + 2)[0] == s[i] && s.subrange(i, i + 2)[1] == s[i + 1]);
            assert(s[i] == c[i - a]);
            if i + 1 < q {
                assert(s[i + 1] == c[i + 1 - a]);
                assert(c[(i - a) + 1] == '-');
            } else {
                assert(c.last() == c[i - a]);
            }
        }
    }
    lemma_first_at(s, a, q, dd);
    lemma_line_ends_plain(c);
}

/// A CDATA section the writer writes reads back as its content, provided
/// the content holds no `]]>` and its line ends are already normalized.
pub proof fn lemma_cdata_read_back(s: Seq<char>, pos: int, c: Seq<char>)
    requires
        0 <= pos,
        pos + c.len() + 12 <= s.len(),
        s.subrange(pos + 9, pos + 9 + c.len()) == c,
        s.subrange(pos + 9 + c.len(), pos + c.len() + 12) == seq![']', ']', '>'],
        forall|i: int| 0 <= i ==> !occurs_at(c, i, seq![']', ']', '>']),
        forall|i: int| 0 <= i < c.len() ==> c[i] != '\r',
    ensures
        cdata_at(s, pos) == Some((c, pos + c.len() + 12)),
{
    let a = pos + 9;
    let q = a + c.len();
    let close = seq![']', ']', '>'];
    assert(s[q] == ']' && s[q + 1] == ']' && s[q + 2] == '>') by {
        assert(s.subrange(q, pos + c.len() + 12)[0] == s[q]);
        assert(s.subrange(q, pos + c.len() + 12)[1] == s[q + 1]);
        assert(s.subrange(q, pos + c.len() + 12)[2] == s[q + 2]);
    }
    assert(occurs_at(s, q, close)) by {
        assert(s.subrange(q, q + 3) =~= close);
    }
    assert forall|i: int| a <= i < q implies !occurs_at(s, i, close) by {
        if occurs_at(s, i, close) {
            assert(s.subrange(i, i + 3)[0] == s[i] && s.subrange(i, i + 3)[1] == s[i + 1] && s.subrange(i, i + 3)[2] == s[i + 2]);
            if i + 3 <= q {
                assert(c.subrange(i - a, i - a + 3) =~= close) by {
                    assert(s[i] == c[i - a] && s[i + 1] == c[i - a + 1] && s[i + 2] == c[i - a + 2]);
                }
                assert(occurs_at(c, i - a, close));
            }
        }
    }
    lemma_first_at(s, a, q, close);
    lemma_line_ends_plain(c);
}

/// A processing instruction the writer writes, `<?` then its content then
/// `?>`, reads back as that content, provided the content is one an
/// instruction can hold: a target name of `k` characters other than `xml`,
/// ending the content or followed by white space, no `?>`, and line ends
/// already normalized.
pub proof fn lemma_pi_read_back(s: Seq<char>, pos: int, c: Seq<char>, k: int)
    requires
        0 <= pos,
        pos + c.len() + 4 <= s.len(),
        s.subrange(pos + 2, pos + 2 + c.len()) == c,
        s.subrange(pos + 2 + c.len(), pos + c.len() + 4) == seq!['?', '>'],
        0 < k <= c.len(),
        is_name_start(c[0]),
        forall|i: int| 0 <= i < k ==> is_name_char(#[trigger] c[i]),
        k == c.len() || is_xml_space(c[k]),
        !is_reserved_target(c.subrange(0, k)),
        forall|i: int| 0 <= i ==> !occurs_at(c, i, seq!['?', '>']),
        forall|i: int| 0 <= i < c.len() ==> c[i] != '\r',
    ensures
        pi_at(s, pos) == Some((c, pos + c.len() + 4)),
{
    let a = pos + 2;
    let q = a + c.len();
    let mark = seq!['?', '>'];
    assert(s[q] == '?' && s[q + 1] == '>') by {
        assert(s.subrange(q, pos + c.len() + 4)[0] == s[q]);
        assert(s.subrange(q, pos + c.len() + 4)[1] == s[q + 1]);
    }
    assert(occurs_at(s, q, mark)) by {
        assert(s.subrange(q, q + 2) =~= mark);
    }
    assert(s[a] == c[0]);
    assert(!is_name_char(s[a + k])) by {
        if k < c.len() {
            assert(s[a + k] == c[k]);
        }
    }
    assert(s.subrange(a, a + k) =~= c.subrange(0, k)) by {
        assert forall|i: int| 0 <= i < k implies s.subrange(a, a + k)[i] == c.subrange(0, k)[i] by {
            assert(s[a + i] == c[i]);
        }
    }
    assert forall|i: int| 0 <= i <= k implies #[trigger] name_run_end(s, a + i) == a + k by {
        lemma_name_run_from(s, a, c.subrange(0, k), i);
    }
    assert(name_run_end(s, a + 0) == a + k);
    lemma_line_ends_plain(c);
    if k < c.len() {
        assert(s[a + k] == c[k]);
        assert(!occurs_at(s, a + k, mark)) by {
            if occurs_at(s, a + k, mark) {
                assert(s.subrange(a + k, a + k + 2)[0] == s[a + k]);
            }
        }
        assert forall|i: int| a + k <= i < q implies !occurs_at(s, i, mark) by {
            if occurs_at(s, i, mark) {
                assert(s.subrange(i, i + 2)[0] == s[i] && s.subrange(i, i + 2)[1] == s[i + 1]);
                if i + 2 <= q {
                    assert(c.subrange(i - a, i - a + 2) =~= mark) by {
                        assert(s[i] == c[i - a] && s[i + 1] == c[i - a + 1]);
                    }
                    assert(occurs_at(c, i - a, mark));
                }
            }
        }
        lemma_first_at(s, a + k, q, mark);
    }
}

} // verus!
