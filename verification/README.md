# openbim-dt

ISO 23387 edition 2 data-template contracts with a bounded, namespace-aware
XML 1.0 reader and writer, written in Verus; see below for what the
proofs cover of the reader.

Layout of `src/`:

- `text`, `value` — characters, white-space collapsing and the validated
  lexical types (GUID, language, date-time, decimal, rational, base64, URI…).
- `document`, `parser` — the XML tree, the semantic and the exact writers, and
  the strict reader with its resource limits.
- `model` — typed views of the ISO 23387 roots and the built-in diagnostics.
- `domain`, `codec` — the owned types and their encoders and decoders.
- `schema`, `pattern`, `conformance` — the edition 2 content model as tables,
  the regular-expression subset of its facets, and schema validation.
- `round_trip`, `decodable` — the laws of the codec: what the encoder writes
  decodes, and decodes to the same value.
- `cli` — the decisions of the `inspect`, `validate` and `rewrite` commands.

`app/` holds the command-line program: argument handling, file I/O and the
atomic replacement of the output file.

## What the proofs cover of the XML reader

Proved of `Document::parse` / `parse_with_options`:

- they accept exactly the inputs within the byte budget whose characters XML
  1.0 allows and that `document_accepts` describes: an optional XML
  declaration (version 1.0, UTF-8, `standalone` yes or no), white space,
  comments and processing instructions around one root element, start tags
  whose attributes are well-formed, distinct and within the attribute budget,
  namespace declarations that are legal and prefixes that are bound, content
  made of character data with valid references, CDATA sections, comments,
  processing instructions and child elements, matching end tags, and the
  depth and node budgets;
- inputs over the byte budget are refused with `InputTooLarge`, and only they;
- within the budget, an input holding a character XML 1.0 does not allow is
  refused with `InvalidCharacter` at the first such position;
- in an input without an XML declaration whose white space, comments and
  processing instructions before the root are well-formed and within the node
  budget, a document type declaration there is refused with
  `DoctypeForbidden`, a root name with two colons with `MalformedQName`, and a
  root start tag without attributes whose prefix nothing declares with
  `UndeclaredPrefix`;
- where the first refusal met in reading order, at the root or below it, is
  an element nested too deep, an unknown entity in character data or in an
  attribute value, an end tag that does not match, a node over the node
  budget, a start tag with more attributes than the per-element budget, a
  namespace declaration that binds a reserved prefix or namespace, or an
  element or attribute prefix that nothing declares, the refusal is
  `DepthLimit`, `UnknownEntity`, `MismatchedEndTag`, `NodeLimit`,
  `AttributeLimit`, `ReservedNamespace` or `UndeclaredPrefix`;
- a parsed document keeps its input, and its exact serialization replays that
  input character for character;
- every node holds what its part of the input reads as: element and
  attribute names are the names their start tags spell, attribute values and
  character data are decoded and normalized from the input, and CDATA
  sections, comments, processing instructions and the white space outside
  the root are what the input holds;
- every element and attribute is in the namespace its prefix (or the default
  namespace) names under the declarations in scope;
- a parsed document stays within the depth, node and per-element attribute
  budgets;
- what the writer escapes, the reader decodes back (the `lemma_*_read_back`
  laws).

Not proved: the kind of the other refusals (malformed tags and attributes,
duplicate attributes, character references to characters XML does not
allow, and refusals in the XML declaration), the position of most
refusals, and that parsing the semantic serialization of a whole document
gives back an equal document (only its leaves are proved to read back: text,
attribute values, comments, CDATA sections and processing instructions).
Those behaviours are covered by the tests only.

## What the proofs cover of the decoders

Each `from_element` states when it succeeds and what it decodes, and, for a
refused element, the kind and path of the refusal for: a foreign namespace
or character data in element-only content; the concept attributes (an
attribute the model cannot hold, a missing or invalid `GUID` or
`dateOfCreation`, an invalid `about`); the multilingual, reference, simple
and lexical child groups of a concept and a subject (such as
`Name[2]/@language`, `HasPartRef[1]/@GUID`, `MajorVersion[1]` or
`Status[1]`); the exactly-once children of a property, quantity kind and
unit (`MissingChild`, `TooManyChildren` at `DataType[2]`);
and children the model cannot hold. A value list states the kind and path
of each of its refusals (such as `MissingChild` for a list without a
`Value`, or `InvalidValue` at `Value[1]/@order`); the refusals below a
data type's own attributes and content (its bounds, formats and value lists
as seen from the data type and the property that hold them), the symbols of
a unit, and the path of an unknown child are covered by the tests only.

Each `to_element` (and `Concept::to_element_named`) states that what it
writes decodes and that whatever the matching `from_element` reads from it
is the value written, lexeme for lexeme. A group of properties, and a
reference document, decode when they hold at least one property reference,
or one language, as their constructors require.
