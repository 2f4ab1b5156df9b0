//! Lossless, namespace-aware XML tree used by ISO 23387 documents.
//!
//! Two serializers are provided:
//!
//! * [`Document::to_xml_string`] rebuilds the document from the semantic tree;
//!   equivalent syntax is normalized (quote style, character-reference
//!   spelling, white space inside tags).
//! * [`Document::to_xml_string_exact`] replays the retained source spans and
//!   reproduces the parsed text exactly, failing closed when span provenance
//!   is unavailable.

use std::sync::Arc;

use vstd::prelude::*;

use crate::text::str_eq;

verus! {

/// Half-open range of character positions in the retained source text.
#[derive(Debug, Clone, Copy)]
pub struct Span {
    pub start: usize,
    pub end: usize,
}

/// Source provenance carried beside semantic content.
///
/// Provenance never distinguishes two values: `==` on a `Trace` is always
/// true, so structures that carry one compare by content alone.
#[derive(Debug, Clone)]
pub struct Trace<T>(pub T);

impl<T> PartialEq for Trace<T> {
    fn eq(&self, other: &Self) -> (r: bool) {
        true
    }
}

impl<T> vstd::std_specs::cmp::PartialEqSpecImpl for Trace<T> {
    open spec fn obeys_eq_spec() -> bool {
        true
    }

    open spec fn eq_spec(&self, other: &Self) -> bool {
        true
    }
}

impl<T> Eq for Trace<T> {

}

/// XML declaration values retained by the document model.
#[derive(Debug, Clone, PartialEq, Eq)]
pub struct XmlDeclaration {
    pub version: String,
    pub encoding: Option<String>,
    pub standalone: Option<String>,
}

/// An optional namespace URI as characters.
pub open spec fn opt_view(v: Option<Arc<String>>) -> Option<Seq<char>> {
    match v {
        Some(s) => Some(s@),
        None => None,
    }
}

pub open spec fn opt_string_view(v: Option<String>) -> Option<Seq<char>> {
    match v {
        Some(s) => Some(s@),
        None => None,
    }
}

pub open spec fn opt_str_view(v: Option<&str>) -> Option<Seq<char>> {
    match v {
        Some(s) => Some(s@),
        None => None,
    }
}

/// `prefix:local`, or `local` without a prefix.
pub open spec fn qualified_name(prefix: Option<Seq<char>>, local: Seq<char>) -> Seq<char> {
    match prefix {
        Some(p) => p + seq![':'] + local,
        None => local,
    }
}

/// One XML attribute with both lexical and resolved namespace identity.
#[derive(Debug, Clone, PartialEq, Eq)]
pub struct Attribute {
    qname: String,
    prefix: Option<String>,
    local_name: String,
    namespace_uri: Option<Arc<String>>,
    value: String,
}

impl Attribute {
    pub closed spec fn spec_qname(&self) -> Seq<char> {
        self.qname@
    }

    pub closed spec fn spec_prefix(&self) -> Option<Seq<char>> {
        opt_string_view(self.prefix)
    }

    pub closed spec fn spec_local_name(&self) -> Seq<char> {
        self.local_name@
    }

    pub closed spec fn spec_namespace(&self) -> Option<Seq<char>> {
        opt_view(self.namespace_uri)
    }

    pub closed spec fn spec_value(&self) -> Seq<char> {
        self.value@
    }

    pub(crate) fn parsed(
        qname: String,
        prefix: Option<String>,
        local_name: String,
        namespace_uri: Option<Arc<String>>,
        value: String,
    ) -> (r: Self)
        ensures
            r.spec_qname() == qname@,
            r.spec_prefix() == opt_string_view(prefix),
            r.spec_local_name() == local_name@,
            r.spec_namespace() == opt_view(namespace_uri),
            r.spec_value() == value@,
    {
        Attribute { qname, prefix, local_name, namespace_uri, value }
    }

    /// Builds an attribute; its qualified name is `prefix:local_name`.
    pub fn new(prefix: Option<&str>, local_name: &str, namespace_uri: Option<&str>, value: &str) -> (r: Self)
        ensures
            r.spec_prefix() == opt_str_view(prefix),
            r.spec_local_name() == local_name@,
            r.spec_qname() == qualified_name(opt_str_view(prefix), local_name@),
            r.spec_namespace() == opt_str_view(namespace_uri),
            r.spec_value() == value@,
    {
        let (qname, prefix) = qualify(prefix, local_name);
        let namespace_uri = match namespace_uri {
            Some(ns) => Some(Arc::new(String::from_str(ns))),
            None => None,
        };
        Attribute { qname, prefix, local_name: String::from_str(local_name), namespace_uri, value: String::from_str(value) }
    }

    pub fn qname(&self) -> (r: &str)
        ensures
            r@ == self.spec_qname(),
    {
        self.qname.as_str()
    }

    pub fn prefix(&self) -> (r: Option<&str>)
        ensures
            opt_str_view(r) == self.spec_prefix(),
    {
        match &self.prefix {
            Some(p) => Some(p.as_str()),
            None => None,
        }
    }

    pub fn local_name(&self) -> (r: &str)
        ensures
            r@ == self.spec_local_name(),
    {
        self.local_name.as_str()
    }

    pub fn namespace_uri(&self) -> (r: Option<&str>)
        ensures
            opt_str_view(r) == self.spec_namespace(),
    {
        match &self.namespace_uri {
            Some(ns) => Some(ns.as_str()),
            None => None,
        }
    }

    pub fn value(&self) -> (r: &str)
        ensures
            r@ == self.spec_value(),
    {
        self.value.as_str()
    }

    /// Whether this attribute has namespace `namespace_uri` and local name `local_name`.
    pub fn is_named(&self, namespace_uri: Option<&str>, local_name: &str) -> (r: bool)
        ensures
            r == (self.spec_namespace() == opt_str_view(namespace_uri) && self.spec_local_name()
                == local_name@),
    {
        same_namespace(&self.namespace_uri, namespace_uri) && str_eq(self.local_name.as_str(), local_name)
    }
}

/// Compares a stored namespace with a requested one.
pub fn same_namespace(stored: &Option<Arc<String>>, wanted: Option<&str>) -> (r: bool)
    ensures
        r == (opt_view(*stored) == opt_str_view(wanted)),
{
    match (stored, wanted) {
        (Some(a), Some(b)) => str_eq(a.as_str(), b),
        (None, None) => true,
        _ => false,
    }
}

/// Builds `prefix:local` (or `local`) and the owned prefix.
pub fn qualify(prefix: Option<&str>, local: &str) -> (r: (String, Option<String>))
    ensures
        r.0@ == qualified_name(opt_str_view(prefix), local@),
        opt_string_view(r.1) == opt_str_view(prefix),
{
    match prefix {
        Some(p) => {
            let q = String::from_str(p).concat(":").concat(local);
            proof {
                reveal_strlit(":");
            }
            (q, Some(String::from_str(p)))
        },
        None => (String::from_str(local), None),
    }
}

/// XML node kinds retained by the document model.
#[derive(Debug, PartialEq, Eq)]
pub enum Node {
    Element(Element),
    Text(String),
    CData(String),
    Comment(String),
    /// Complete processing-instruction content: target plus optional data.
    ProcessingInstruction(String),
}

impl Node {
    pub fn as_element(&self) -> (r: Option<&Element>)
        ensures
            r == match *self {
                Node::Element(e) => Some(&e),
                _ => None::<&Element>,
            },
    {
        match self {
            Node::Element(element) => Some(element),
            _ => None,
        }
    }
}

/// An XML element retaining names, namespace resolution, attributes, and order.
///
/// Equality compares semantic identity and content only: source spans and
/// the empty-element spelling are provenance.
#[derive(Debug, PartialEq, Eq)]
pub struct Element {
    qname: String,
    prefix: Option<String>,
    local_name: String,
    namespace_uri: Option<Arc<String>>,
    attributes: Vec<Attribute>,
    nodes: Vec<Node>,
    spans: Trace<Vec<Option<Span>>>,
    empty_style: Trace<bool>,
    open_span: Trace<Option<Span>>,
    close_span: Trace<Option<Span>>,
}

impl Clone for Element {
    fn clone(&self) -> (r: Self)
        decreases self,
    {
        let mut nodes: Vec<Node> = Vec::new();
        let mut i: usize = 0;
        while i < self.nodes.len()
            invariant
                i <= self.nodes@.len(),
            decreases self.nodes.len() - i,
        {
            let node = match &self.nodes[i] {
                Node::Element(c) => {
                    proof {
                        lemma_child_decreases(*self, i as int);
                    }
                    Node::Element(c.clone())
                },
                Node::Text(t) => Node::Text(t.clone()),
                Node::CData(t) => Node::CData(t.clone()),
                Node::Comment(t) => Node::Comment(t.clone()),
                Node::ProcessingInstruction(t) => Node::ProcessingInstruction(t.clone()),
            };
            nodes.push(node);
            i = i + 1;
        }
        Element {
            qname: self.qname.clone(),
            prefix: self.prefix.clone(),
            local_name: self.local_name.clone(),
            namespace_uri: self.namespace_uri.clone(),
            attributes: self.attributes.clone(),
            nodes,
            spans: self.spans.clone(),
            empty_style: self.empty_style.clone(),
            open_span: self.open_span.clone(),
            close_span: self.close_span.clone(),
        }
    }
}

impl Clone for Node {
    fn clone(&self) -> (r: Self) {
        match self {
            Node::Element(e) => Node::Element(e.clone()),
            Node::Text(t) => Node::Text(t.clone()),
            Node::CData(t) => Node::CData(t.clone()),
            Node::Comment(t) => Node::Comment(t.clone()),
            Node::ProcessingInstruction(t) => Node::ProcessingInstruction(t.clone()),
        }
    }
}

/// A child element lies below its parent in the structural order, so
/// definitions over a tree may recurse from an element into its children.
pub proof fn lemma_child_decreases(e: Element, i: int)
    requires
        0 <= i < e.spec_nodes().len(),
    ensures
        e.spec_nodes()[i] matches Node::Element(c) ==> decreases_to!(e => c),
{
    assert(decreases_to!(e => e.nodes));
    assert(decreases_to!(e.nodes => e.nodes@));
    assert(decreases_to!(e.nodes@ => e.nodes@[i]));
    if let Node::Element(c) = e.nodes@[i] {
        assert(decreases_to!(e.nodes@[i] => c));
    }
}

/// The element children of a node list, in order.
pub open spec fn elements_of(nodes: Seq<Node>) -> Seq<Element>
    decreases nodes.len(),
{
    if nodes.len() == 0 {
        Seq::empty()
    } else {
        match nodes.last() {
            Node::Element(e) => elements_of(nodes.drop_last()).push(e),
            _ => elements_of(nodes.drop_last()),
        }
    }
}

/// Concatenated text and CDATA content of a node list.
pub open spec fn text_of(nodes: Seq<Node>) -> Seq<char>
    decreases nodes.len(),
{
    if nodes.len() == 0 {
        Seq::empty()
    } else {
        match nodes.last() {
            Node::Text(t) => text_of(nodes.drop_last()) + t@,
            Node::CData(t) => text_of(nodes.drop_last()) + t@,
            _ => text_of(nodes.drop_last()),
        }
    }
}

/// The value of the first attribute named (`namespace`, `local`).
pub open spec fn attribute_lookup(attrs: Seq<Attribute>, namespace: Option<Seq<char>>, local: Seq<char>) -> Option<Seq<char>>
    decreases attrs.len(),
{
    if attrs.len() == 0 {
        None
    } else if attrs[0].spec_namespace() == namespace && attrs[0].spec_local_name() == local {
        Some(attrs[0].spec_value())
    } else {
        attribute_lookup(attrs.drop_first(), namespace, local)
    }
}

impl Element {
    pub closed spec fn spec_qname(&self) -> Seq<char> {
        self.qname@
    }

    pub closed spec fn spec_prefix(&self) -> Option<Seq<char>> {
        opt_string_view(self.prefix)
    }

    pub closed spec fn spec_local_name(&self) -> Seq<char> {
        self.local_name@
    }

    pub closed spec fn spec_namespace(&self) -> Option<Seq<char>> {
        opt_view(self.namespace_uri)
    }

    pub closed spec fn spec_attributes(&self) -> Seq<Attribute> {
        self.attributes@
    }

    pub closed spec fn spec_nodes(&self) -> Seq<Node> {
        self.nodes@
    }

    pub closed spec fn spec_spans(&self) -> Seq<Option<Span>> {
        self.spans.0@
    }

    pub closed spec fn spec_empty_style(&self) -> bool {
        self.empty_style.0
    }

    pub closed spec fn spec_open_span(&self) -> Option<Span> {
        self.open_span.0
    }

    pub closed spec fn spec_close_span(&self) -> Option<Span> {
        self.close_span.0
    }

    pub(crate) fn parsed(
        qname: String,
        prefix: Option<String>,
        local_name: String,
        namespace_uri: Option<Arc<String>>,
        attributes: Vec<Attribute>,
        empty_style: bool,
        open_span: Option<Span>,
    ) -> (r: Self)
        ensures
            r.spec_qname() == qname@,
            r.spec_prefix() == opt_string_view(prefix),
            r.spec_local_name() == local_name@,
            r.spec_namespace() == opt_view(namespace_uri),
            r.spec_attributes() == attributes@,
            r.spec_nodes() == Seq::<Node>::empty(),
            r.spec_spans() == Seq::<Option<Span>>::empty(),
            r.spec_empty_style() == empty_style,
            r.spec_open_span() == open_span,
            r.spec_close_span() == None::<Span>,
    {
        Element {
            qname,
            prefix,
            local_name,
            namespace_uri,
            attributes,
            nodes: Vec::new(),
            spans: Trace(Vec::new()),
            empty_style: Trace(empty_style),
            open_span: Trace(open_span),
            close_span: Trace(None),
        }
    }

    /// Assembles a parsed element from its parts.
    pub(crate) fn assembled(
        qname: String,
        prefix: Option<String>,
        local_name: String,
        namespace_uri: Option<Arc<String>>,
        attributes: Vec<Attribute>,
        nodes: Vec<Node>,
        spans: Vec<Option<Span>>,
        empty_style: bool,
        open_span: Option<Span>,
        close_span: Option<Span>,
    ) -> (r: Self)
        ensures
            r.spec_qname() == qname@,
            r.spec_prefix() == opt_string_view(prefix),
            r.spec_local_name() == local_name@,
            r.spec_namespace() == opt_view(namespace_uri),
            r.spec_attributes() == attributes@,
            r.spec_nodes() == nodes@,
            r.spec_spans() == spans@,
            r.spec_empty_style() == empty_style,
            r.spec_open_span() == open_span,
            r.spec_close_span() == close_span,
            forall|src: Seq<char>| #[trigger] r.exact_text(src) == match close_span {
                None => if nodes@.len() == 0 {
                    span_text(src, open_span)
                } else {
                    then(span_text(src, open_span), Err(ExactWriteError::MissingSpan))
                },
                Some(_) => then(
                    then(span_text(src, open_span), exact_list(nodes@, spans@, src, nodes@.len() as int)),
                    span_text(src, close_span),
                ),
            },
    {
        Element {
            qname,
            prefix,
            local_name,
            namespace_uri,
            attributes,
            nodes,
            spans: Trace(spans),
            empty_style: Trace(empty_style),
            open_span: Trace(open_span),
            close_span: Trace(close_span),
        }
    }

    pub(crate) fn set_close_span(&mut self, span: Option<Span>)
        ensures
            final(self).spec_close_span() == span,
            final(self).spec_qname() == old(self).spec_qname(),
            final(self).spec_prefix() == old(self).spec_prefix(),
            final(self).spec_local_name() == old(self).spec_local_name(),
            final(self).spec_namespace() == old(self).spec_namespace(),
            final(self).spec_attributes() == old(self).spec_attributes(),
            final(self).spec_nodes() == old(self).spec_nodes(),
            final(self).spec_spans() == old(self).spec_spans(),
            final(self).spec_empty_style() == old(self).spec_empty_style(),
            final(self).spec_open_span() == old(self).spec_open_span(),
    {
        self.close_span = Trace(span);
    }

    /// Appends a node with its source span (no coalescing).
    pub(crate) fn push_raw(&mut self, node: Node, span: Option<Span>)
        ensures
            final(self).spec_nodes() == old(self).spec_nodes().push(node),
            final(self).spec_spans() == old(self).spec_spans().push(span),
            final(self).spec_qname() == old(self).spec_qname(),
            final(self).spec_prefix() == old(self).spec_prefix(),
            final(self).spec_local_name() == old(self).spec_local_name(),
            final(self).spec_namespace() == old(self).spec_namespace(),
            final(self).spec_attributes() == old(self).spec_attributes(),
            final(self).spec_empty_style() == old(self).spec_empty_style(),
            final(self).spec_open_span() == old(self).spec_open_span(),
            final(self).spec_close_span() == old(self).spec_close_span(),
    {
        self.nodes.push(node);
        self.spans.0.push(span);
    }

    /// Puts `leading` before the existing attributes.
    pub(crate) fn with_leading_attributes(self, leading: Vec<Attribute>) -> (r: Self)
        ensures
            r.spec_attributes() == leading@ + self.spec_attributes(),
            r.spec_nodes() == self.spec_nodes(),
            r.spec_qname() == self.spec_qname(),
            r.spec_prefix() == self.spec_prefix(),
            r.spec_local_name() == self.spec_local_name(),
            r.spec_namespace() == self.spec_namespace(),
            r.spec_empty_style() == self.spec_empty_style(),
    {
        let mut element = self;
        let mut attributes = leading;
        let ghost first = attributes@;
        let ghost rest = element.attributes@;
        attributes.append(&mut element.attributes);
        element.attributes = attributes;
        assert(element.attributes@ =~= first + rest);
        element
    }

    /// Builds an element with no attributes or content; its qualified name is
    /// `prefix:local_name`.
    pub fn new(namespace_uri: Option<&str>, prefix: Option<&str>, local_name: &str) -> (r: Self)
        ensures
            r.spec_prefix() == opt_str_view(prefix),
            r.spec_local_name() == local_name@,
            r.spec_qname() == qualified_name(opt_str_view(prefix), local_name@),
            r.spec_namespace() == opt_str_view(namespace_uri),
            r.spec_attributes() == Seq::<Attribute>::empty(),
            r.spec_nodes() == Seq::<Node>::empty(),
            r.spec_open_span() is None,
            r.spec_close_span() is None,
    {
        let (qname, prefix) = qualify(prefix, local_name);
        let namespace_uri = match namespace_uri {
            Some(ns) => Some(Arc::new(String::from_str(ns))),
            None => None,
        };
        Element::parsed(qname, prefix, String::from_str(local_name), namespace_uri, Vec::new(), true, None)
    }

    /// Appends an attribute.
    pub fn with_attribute(self, attribute: Attribute) -> (r: Self)
        ensures
            r.spec_attributes() == self.spec_attributes().push(attribute),
            r.spec_nodes() == self.spec_nodes(),
            r.spec_spans() == self.spec_spans(),
            r.spec_qname() == self.spec_qname(),
            r.spec_prefix() == self.spec_prefix(),
            r.spec_local_name() == self.spec_local_name(),
            r.spec_namespace() == self.spec_namespace(),
            r.spec_empty_style() == self.spec_empty_style(),
            r.spec_open_span() == self.spec_open_span(),
            r.spec_close_span() == self.spec_close_span(),
    {
        let mut element = self;
        element.attributes.push(attribute);
        element
    }

    /// Appends a child element.
    pub fn with_child(self, child: Element) -> (r: Self)
        ensures
            r.spec_nodes() == self.spec_nodes().push(Node::Element(child)),
            r.spec_attributes() == self.spec_attributes(),
            r.spec_qname() == self.spec_qname(),
            r.spec_prefix() == self.spec_prefix(),
            r.spec_local_name() == self.spec_local_name(),
            r.spec_namespace() == self.spec_namespace(),
    {
        let mut element = self;
        element.push_raw(Node::Element(child), None);
        element
    }

    /// Appends text, merging it into a directly preceding text node.
    pub fn with_text(self, text: &str) -> (r: Self)
        ensures
            text_of(r.spec_nodes()) == text_of(self.spec_nodes()) + text@,
            self.spec_nodes().len() > 0 && self.spec_nodes().last() is Text ==> {
                &&& r.spec_nodes().len() == self.spec_nodes().len()
                &&& r.spec_nodes().drop_last() == self.spec_nodes().drop_last()
                &&& r.spec_nodes().last() matches Node::Text(t) && self.spec_nodes().last() matches Node::Text(u)
                    && t@ == u@ + text@
                &&& r.spec_spans() == if self.spec_nodes().len() <= self.spec_spans().len() {
                    self.spec_spans().update(self.spec_nodes().len() - 1, None)
                } else {
                    self.spec_spans()
                }
            },
            !(self.spec_nodes().len() > 0 && self.spec_nodes().last() is Text) ==> {
                &&& r.spec_nodes().len() == self.spec_nodes().len() + 1
                &&& r.spec_nodes().drop_last() == self.spec_nodes()
                &&& r.spec_nodes().last() matches Node::Text(t) && t@ == text@
                &&& r.spec_spans() == self.spec_spans().push(None)
            },
            elements_of(r.spec_nodes()) == elements_of(self.spec_nodes()),
            r.spec_attributes() == self.spec_attributes(),
            r.spec_qname() == self.spec_qname(),
            r.spec_prefix() == self.spec_prefix(),
            r.spec_local_name() == self.spec_local_name(),
            r.spec_namespace() == self.spec_namespace(),
    {
        let mut element = self;
        let n = element.nodes.len();
        if n > 0 {
            if let Node::Text(existing) = &element.nodes[n - 1] {
                let merged = existing.clone().concat(text);
                let ghost before = element.nodes@;
                element.nodes.set(n - 1, Node::Text(merged));
                if n - 1 < element.spans.0.len() {
                    element.spans.0.set(n - 1, None);
                }
                assert(element.nodes@.drop_last() == before.drop_last());
                return element;
            }
        }
        element.push_raw(Node::Text(String::from_str(text)), None);
        proof {
            assert(element.nodes@.drop_last() == self.nodes@);
        }
        element
    }

    pub fn qname(&self) -> (r: &str)
        ensures
            r@ == self.spec_qname(),
    {
        self.qname.as_str()
    }

    pub fn prefix(&self) -> (r: Option<&str>)
        ensures
            opt_str_view(r) == self.spec_prefix(),
    {
        match &self.prefix {
            Some(p) => Some(p.as_str()),
            None => None,
        }
    }

    pub fn local_name(&self) -> (r: &str)
        ensures
            r@ == self.spec_local_name(),
    {
        self.local_name.as_str()
    }

    pub fn namespace_uri(&self) -> (r: Option<&str>)
        ensures
            opt_str_view(r) == self.spec_namespace(),
    {
        match &self.namespace_uri {
            Some(ns) => Some(ns.as_str()),
            None => None,
        }
    }

    pub(crate) fn namespace_arc(&self) -> (r: &Option<Arc<String>>)
        ensures
            opt_view(*r) == self.spec_namespace(),
    {
        &self.namespace_uri
    }

    pub fn attributes(&self) -> (r: &[Attribute])
        ensures
            r@ == self.spec_attributes(),
    {
        self.attributes.as_slice()
    }

    pub fn nodes(&self) -> (r: &[Node])
        ensures
            r@ == self.spec_nodes(),
    {
        self.nodes.as_slice()
    }

    pub(crate) fn spans(&self) -> (r: &[Option<Span>])
        ensures
            r@ == self.spec_spans(),
    {
        self.spans.0.as_slice()
    }

    pub(crate) fn open_span(&self) -> (r: Option<Span>)
        ensures
            r == self.spec_open_span(),
    {
        self.open_span.0
    }

    pub(crate) fn close_span(&self) -> (r: Option<Span>)
        ensures
            r == self.spec_close_span(),
    {
        self.close_span.0
    }

    /// Whether the source used an empty-element tag such as `<dt:Property/>`.
    pub fn was_empty_element(&self) -> (r: bool)
        ensures
            r == self.spec_empty_style(),
    {
        self.empty_style.0
    }

    /// Direct child elements in document order.
    pub fn children(&self) -> (r: Vec<&Element>)
        ensures
            r@.len() == elements_of(self.spec_nodes()).len(),
            forall|i: int| 0 <= i < r@.len() ==> *r@[i] == elements_of(self.spec_nodes())[i],
    {
        let mut out: Vec<&Element> = Vec::new();
        let mut i: usize = 0;
        while i < self.nodes.len()
            invariant
                i <= self.nodes@.len(),
                out@.len() == elements_of(self.nodes@.take(i as int)).len(),
                forall|k: int| 0 <= k < out@.len() ==> *out@[k] == elements_of(self.nodes@.take(i as int))[k],
            decreases self.nodes.len() - i,
        {
            assert(self.nodes@.take(i + 1).drop_last() == self.nodes@.take(i as int));
            assert(self.nodes@.take(i + 1).last() == self.nodes@[i as int]);
            if let Node::Element(e) = &self.nodes[i] {
                out.push(e);
            }
            i = i + 1;
        }
        assert(self.nodes@.take(self.nodes@.len() as int) == self.nodes@);
        out
    }

    /// Finds an attribute value by resolved namespace URI and local name.
    pub fn attribute_ns(&self, namespace_uri: Option<&str>, local_name: &str) -> (r: Option<&str>)
        ensures
            opt_str_view(r) == attribute_lookup(self.spec_attributes(), opt_str_view(namespace_uri), local_name@),
    {
        let mut i: usize = 0;
        assert(self.attributes@.skip(0) == self.attributes@);
        while i < self.attributes.len()
            invariant
                i <= self.attributes@.len(),
                attribute_lookup(self.attributes@, opt_str_view(namespace_uri), local_name@)
                    == attribute_lookup(self.attributes@.skip(i as int), opt_str_view(namespace_uri), local_name@),
            decreases self.attributes.len() - i,
        {
            let attribute = &self.attributes[i];
            assert(self.attributes@.skip(i as int)[0] == *attribute);
            assert(self.attributes@.skip(i as int).drop_first() == self.attributes@.skip(i + 1));
            if attribute.is_named(namespace_uri, local_name) {
                return Some(attribute.value());
            }
            i = i + 1;
        }
        None
    }

    /// Direct text and CDATA content, preserving order.
    pub fn direct_text(&self) -> (r: String)
        ensures
            r@ == text_of(self.spec_nodes()),
    {
        let mut result = String::new();
        let mut i: usize = 0;
        while i < self.nodes.len()
            invariant
                i <= self.nodes@.len(),
                result@ == text_of(self.nodes@.take(i as int)),
            decreases self.nodes.len() - i,
        {
            assert(self.nodes@.take(i + 1).drop_last() == self.nodes@.take(i as int));
            assert(self.nodes@.take(i + 1).last() == self.nodes@[i as int]);
            match &self.nodes[i] {
                Node::Text(value) => {
                    result.append(value.as_str());
                },
                Node::CData(value) => {
                    result.append(value.as_str());
                },
                _ => {},
            }
            i = i + 1;
        }
        assert(self.nodes@.take(self.nodes@.len() as int) == self.nodes@);
        result
    }
}

// ---------------------------------------------------------------------------
// Exact replay of retained source spans
// ---------------------------------------------------------------------------

/// Why a byte-exact reserialization could not be produced.
#[derive(Debug, Clone, Copy, PartialEq, Eq)]
pub enum ExactWriteError {
    /// The document does not retain its parse input.
    NoSource,
    /// A retained construct has no recorded source span.
    MissingSpan,
    /// A recorded span does not address a range of the source.
    SpanOutOfRange,
}

/// The source text a span addresses.
pub open spec fn span_text(src: Seq<char>, span: Option<Span>) -> Result<Seq<char>, ExactWriteError> {
    match span {
        None => Err(ExactWriteError::MissingSpan),
        Some(s) => if s.start <= s.end && s.end <= src.len() {
            Ok(src.subrange(s.start as int, s.end as int))
        } else {
            Err(ExactWriteError::SpanOutOfRange)
        },
    }
}

/// Concatenation that keeps the first failure.
pub open spec fn then(a: Result<Seq<char>, ExactWriteError>, b: Result<Seq<char>, ExactWriteError>) -> Result<Seq<char>, ExactWriteError> {
    match a {
        Err(e) => Err(e),
        Ok(x) => match b {
            Err(e) => Err(e),
            Ok(y) => Ok(x + y),
        },
    }
}

/// The span recorded for position `i`, if any.
pub open spec fn span_at(spans: Seq<Option<Span>>, i: int) -> Option<Span> {
    if 0 <= i < spans.len() {
        spans[i]
    } else {
        None
    }
}

impl Element {
    /// The exact source text of this element: its start tag, replayed
    /// content and end tag, or its single empty-element tag.
    pub closed spec fn exact_text(&self, src: Seq<char>) -> Result<Seq<char>, ExactWriteError>
        decreases self, 1int, 0int,
    {
        let open = span_text(src, self.open_span.0);
        match self.close_span.0 {
            None => if self.nodes@.len() == 0 {
                open
            } else {
                then(open, Err(ExactWriteError::MissingSpan))
            },
            Some(_) => then(
                then(open, exact_list(self.nodes@, self.spans.0@, src, self.nodes@.len() as int)),
                span_text(src, self.close_span.0),
            ),
        }
    }
}

/// The exact source text of the first `n` nodes of a list.
pub open spec fn exact_list(nodes: Seq<Node>, spans: Seq<Option<Span>>, src: Seq<char>, n: int) -> Result<Seq<char>, ExactWriteError>
    decreases nodes, 0int, n,
{
    if n <= 0 || n > nodes.len() {
        Ok(Seq::empty())
    } else {
        let prior = exact_list(nodes, spans, src, n - 1);
        match nodes[n - 1] {
            Node::Element(c) => then(prior, c.exact_text(src)),
            _ => then(prior, span_text(src, span_at(spans, n - 1))),
        }
    }
}

/// The first `n` nodes of a list hold what their source reads as, in the
/// namespace scope `scope`: each leaf what its span reads as, each element
/// its names, attributes, namespaces and, recursively, its content.
pub open spec fn list_read(
    nodes: Seq<Node>,
    spans: Seq<Option<Span>>,
    src: Seq<char>,
    scope: crate::parser::Bindings,
    n: int,
) -> bool
    decreases nodes, 0int, n,
{
    if n <= 0 || n > nodes.len() {
        true
    } else {
        list_read(nodes, spans, src, scope, n - 1) && match nodes[n - 1] {
            Node::Element(c) => c.tree_read(src, scope),
            other => crate::parser::leaf_reads(other, span_at(spans, n - 1), src),
        }
    }
}

impl Element {
    /// This element, read in the namespace scope of its ancestors: its
    /// names and attributes are what its start tag spells, its namespaces
    /// those the declarations in scope bind, and its content holds what its
    /// source reads as.
    pub closed spec fn tree_read(&self, src: Seq<char>, scope: crate::parser::Bindings) -> bool
        decreases self, 1int, 0int,
    {
        &&& crate::parser::names_read(self.qname@, opt_string_view(self.prefix), self.local_name@, self.open_span.0, src)
        &&& crate::parser::attrs_read(self.attributes@, self.open_span.0, src)
        &&& crate::parser::names_resolved(opt_string_view(self.prefix), opt_view(self.namespace_uri), self.attributes@, scope)
        &&& list_read(
            self.nodes@,
            self.spans.0@,
            src,
            crate::parser::scope_after(self.attributes@, self.attributes@.len() as int, scope),
            self.nodes@.len() as int,
        )
    }
}

/// What [`Element::tree_read`] asks of an element.
pub proof fn lemma_tree_read(e: Element, src: Seq<char>, scope: crate::parser::Bindings)
    ensures
        e.tree_read(src, scope) == {
            &&& crate::parser::names_read(e.spec_qname(), e.spec_prefix(), e.spec_local_name(), e.spec_open_span(), src)
            &&& crate::parser::attrs_read(e.spec_attributes(), e.spec_open_span(), src)
            &&& crate::parser::names_resolved(e.spec_prefix(), e.spec_namespace(), e.spec_attributes(), scope)
            &&& list_read(
                e.spec_nodes(),
                e.spec_spans(),
                src,
                crate::parser::scope_after(e.spec_attributes(), e.spec_attributes().len() as int, scope),
                e.spec_nodes().len() as int,
            )
        },
{
}

proof fn lemma_list_read_prefix(
    nodes: Seq<Node>,
    spans: Seq<Option<Span>>,
    node: Node,
    span: Option<Span>,
    src: Seq<char>,
    scope: crate::parser::Bindings,
    k: int,
)
    requires
        nodes.len() == spans.len(),
        0 <= k <= nodes.len(),
    ensures
        list_read(nodes.push(node), spans.push(span), src, scope, k) == list_read(nodes, spans, src, scope, k),
    decreases k,
{
    if k > 0 {
        lemma_list_read_prefix(nodes, spans, node, span, src, scope, k - 1);
        assert(nodes.push(node)[k - 1] == nodes[k - 1]);
        assert(span_at(spans.push(span), k - 1) == span_at(spans, k - 1));
    }
}

/// Appending a node that reads as its source keeps a list reading as its
/// source.
pub proof fn lemma_list_read_push(
    nodes: Seq<Node>,
    spans: Seq<Option<Span>>,
    node: Node,
    span: Option<Span>,
    src: Seq<char>,
    scope: crate::parser::Bindings,
)
    requires
        nodes.len() == spans.len(),
        list_read(nodes, spans, src, scope, nodes.len() as int),
        match node {
            Node::Element(c) => c.tree_read(src, scope),
            other => crate::parser::leaf_reads(other, span, src),
        },
    ensures
        list_read(nodes.push(node), spans.push(span), src, scope, nodes.len() + 1int),
{
    lemma_list_read_prefix(nodes, spans, node, span, src, scope, nodes.len() as int);
    assert(nodes.push(node)[nodes.len() as int] == node);
    assert(span_at(spans.push(span), nodes.len() as int) == span);
}

/// The elements among the first `n` nodes of a list nest at most `depth`
/// deep, with at most `attrs` attributes on each.
pub open spec fn list_within(nodes: Seq<Node>, depth: int, attrs: int, n: int) -> bool
    decreases nodes, 0int, n,
{
    if n <= 0 || n > nodes.len() {
        true
    } else {
        list_within(nodes, depth, attrs, n - 1) && match nodes[n - 1] {
            Node::Element(c) => c.within_budget(depth, attrs),
            _ => true,
        }
    }
}

impl Element {
    /// This element and those below it nest at most `depth` deep, this
    /// element counting as one, with at most `attrs` attributes on each.
    pub closed spec fn within_budget(&self, depth: int, attrs: int) -> bool
        decreases self, 1int, 0int,
    {
        &&& depth >= 1
        &&& self.attributes@.len() <= attrs
        &&& list_within(self.nodes@, depth - 1, attrs, self.nodes@.len() as int)
    }
}

/// The number of nodes among the first `n` of a list, counting every node
/// below an element too.
pub open spec fn list_count(nodes: Seq<Node>, n: int) -> nat
    decreases nodes, 0int, n,
{
    if n <= 0 || n > nodes.len() {
        0
    } else {
        list_count(nodes, n - 1) + match nodes[n - 1] {
            Node::Element(c) => c.node_count(),
            _ => 1nat,
        }
    }
}

impl Element {
    /// The number of nodes of this element's tree, the element included.
    pub closed spec fn node_count(&self) -> nat
        decreases self, 1int, 0int,
    {
        1 + list_count(self.nodes@, self.nodes@.len() as int)
    }
}

/// What [`Element::node_count`] counts.
pub proof fn lemma_node_count(e: Element)
    ensures
        e.node_count() == 1 + list_count(e.spec_nodes(), e.spec_nodes().len() as int),
{
}

proof fn lemma_list_count_prefix(nodes: Seq<Node>, node: Node, k: int)
    requires
        0 <= k <= nodes.len(),
    ensures
        list_count(nodes.push(node), k) == list_count(nodes, k),
    decreases k,
{
    if k > 0 {
        lemma_list_count_prefix(nodes, node, k - 1);
        assert(nodes.push(node)[k - 1] == nodes[k - 1]);
    }
}

/// Appending a node adds its count to a list's.
pub proof fn lemma_list_count_push(nodes: Seq<Node>, node: Node)
    ensures
        list_count(nodes.push(node), nodes.len() + 1int) == list_count(nodes, nodes.len() as int) + match node {
            Node::Element(c) => c.node_count(),
            _ => 1nat,
        },
{
    lemma_list_count_prefix(nodes, node, nodes.len() as int);
    assert(nodes.push(node)[nodes.len() as int] == node);
}

/// What [`Element::within_budget`] asks of an element.
pub proof fn lemma_within_budget(e: Element, depth: int, attrs: int)
    ensures
        e.within_budget(depth, attrs) == {
            &&& depth >= 1
            &&& e.spec_attributes().len() <= attrs
            &&& list_within(e.spec_nodes(), depth - 1, attrs, e.spec_nodes().len() as int)
        },
{
}

proof fn lemma_list_within_prefix(nodes: Seq<Node>, node: Node, depth: int, attrs: int, k: int)
    requires
        0 <= k <= nodes.len(),
    ensures
        list_within(nodes.push(node), depth, attrs, k) == list_within(nodes, depth, attrs, k),
    decreases k,
{
    if k > 0 {
        lemma_list_within_prefix(nodes, node, depth, attrs, k - 1);
        assert(nodes.push(node)[k - 1] == nodes[k - 1]);
    }
}

/// Appending a node within the budget keeps a list within it.
pub proof fn lemma_list_within_push(nodes: Seq<Node>, node: Node, depth: int, attrs: int)
    requires
        list_within(nodes, depth, attrs, nodes.len() as int),
        node matches Node::Element(c) ==> c.within_budget(depth, attrs),
    ensures
        list_within(nodes.push(node), depth, attrs, nodes.len() + 1int),
{
    lemma_list_within_prefix(nodes, node, depth, attrs, nodes.len() as int);
    assert(nodes.push(node)[nodes.len() as int] == node);
}

/// The exact text of a node at a given span.
pub open spec fn exact_node(node: Node, span: Option<Span>, src: Seq<char>) -> Result<Seq<char>, ExactWriteError> {
    match node {
        Node::Element(c) => c.exact_text(src),
        _ => span_text(src, span),
    }
}

proof fn lemma_exact_list_prefix(nodes: Seq<Node>, spans: Seq<Option<Span>>, node: Node, span: Option<Span>, src: Seq<char>, k: int)
    requires
        nodes.len() == spans.len(),
        0 <= k <= nodes.len(),
    ensures
        exact_list(nodes.push(node), spans.push(span), src, k) == exact_list(nodes, spans, src, k),
    decreases k,
{
    if k > 0 {
        lemma_exact_list_prefix(nodes, spans, node, span, src, k - 1);
        assert(nodes.push(node)[k - 1] == nodes[k - 1]);
        assert(span_at(spans.push(span), k - 1) == span_at(spans, k - 1));
    }
}

/// Appending a node appends its exact text.
pub proof fn lemma_exact_list_push(nodes: Seq<Node>, spans: Seq<Option<Span>>, node: Node, span: Option<Span>, src: Seq<char>)
    requires
        nodes.len() == spans.len(),
    ensures
        exact_list(nodes.push(node), spans.push(span), src, nodes.len() + 1int) == then(
            exact_list(nodes, spans, src, nodes.len() as int),
            exact_node(node, span, src),
        ),
{
    lemma_exact_list_prefix(nodes, spans, node, span, src, nodes.len() as int);
    assert(nodes.push(node)[nodes.len() as int] == node);
    assert(span_at(spans.push(span), nodes.len() as int) == span);
}

fn push_span(output: &mut String, source: &str, span: Option<Span>) -> (r: Result<(), ExactWriteError>)
    ensures
        match span_text(source@, span) {
            Ok(t) => r is Ok && final(output)@ == old(output)@ + t,
            Err(e) => r == Err::<(), ExactWriteError>(e),
        },
{
    match span {
        None => Err(ExactWriteError::MissingSpan),
        Some(s) => {
            let length = source.unicode_len();
            if s.start <= s.end && s.end <= length {
                output.append(source.substring_char(s.start, s.end));
                Ok(())
            } else {
                Err(ExactWriteError::SpanOutOfRange)
            }
        },
    }
}

fn push_element(output: &mut String, source: &str, element: &Element) -> (r: Result<(), ExactWriteError>)
    ensures
        match element.exact_text(source@) {
            Ok(t) => r is Ok && final(output)@ == old(output)@ + t,
            Err(e) => r == Err::<(), ExactWriteError>(e),
        },
    decreases element,
{
    let ghost start = output@;
    let opened = push_span(output, source, element.open_span.0);
    if let Err(e) = opened {
        return Err(e);
    }
    if element.close_span.0.is_none() {
        if element.nodes.len() == 0 {
            return Ok(());
        }
        return Err(ExactWriteError::MissingSpan);
    }
    let ghost after_open = output@;
    assert(after_open.subrange(start.len() as int, after_open.len() as int) =~= span_text(source@, element.open_span.0)->Ok_0);
    let mut i: usize = 0;
    while i < element.nodes.len()
        invariant
            i <= element.nodes@.len(),
            element.close_span.0 is Some,
            span_text(source@, element.open_span.0) == Ok::<Seq<char>, ExactWriteError>(after_open.subrange(start.len() as int, after_open.len() as int)),
            after_open == start + after_open.subrange(start.len() as int, after_open.len() as int),
            start == old(output)@,
            exact_list(element.nodes@, element.spans.0@, source@, i as int) matches Ok(t) && output@ == after_open + t,
        decreases element.nodes.len() - i,
    {
        let ghost before = output@;
        let ghost t = exact_list(element.nodes@, element.spans.0@, source@, i as int)->Ok_0;
        let ghost expected = match element.nodes@[i as int] {
            Node::Element(c) => c.exact_text(source@),
            _ => span_text(source@, span_at(element.spans.0@, i as int)),
        };
        let pushed = match &element.nodes[i] {
            Node::Element(child) => {
                assert(decreases_to!(element => element.nodes));
                assert(decreases_to!(element.nodes => element.nodes@));
                assert(decreases_to!(element.nodes@ => element.nodes@[i as int]));
                push_element(output, source, child)
            },
            _ => {
                let span = if i < element.spans.0.len() {
                    element.spans.0[i]
                } else {
                    None
                };
                push_span(output, source, span)
            },
        };
        assert(exact_list(element.nodes@, element.spans.0@, source@, i + 1) == then(Ok(t), expected));
        if let Err(e) = pushed {
            proof {
                lemma_exact_list_err(element.nodes@, element.spans.0@, source@, i + 1, element.nodes@.len() as int);
            }
            return Err(e);
        }
        proof {
            let piece = expected->Ok_0;
            assert(output@ =~= after_open + (t + piece));
        }
        i = i + 1;
    }
    assert(exact_list(element.nodes@, element.spans.0@, source@, element.nodes@.len() as int) is Ok);
    push_span(output, source, element.close_span.0)
}

// ---------------------------------------------------------------------------
// Semantic serialization
// ---------------------------------------------------------------------------

/// Escaping of one character of text content.
pub open spec fn escape_text_char(c: char) -> Seq<char> {
    if c == '&' {
        "&amp;"@
    } else if c == '<' {
        "&lt;"@
    } else if c == '>' {
        "&gt;"@
    } else if c == '\r' {
        "&#13;"@
    } else {
        seq![c]
    }
}

/// Escaping of one character of a double-quoted attribute value.
pub open spec fn escape_attr_char(c: char) -> Seq<char> {
    if c == '&' {
        "&amp;"@
    } else if c == '<' {
        "&lt;"@
    } else if c == '"' {
        "&quot;"@
    } else if c == '\t' {
        "&#x9;"@
    } else if c == '\n' {
        "&#xA;"@
    } else if c == '\r' {
        "&#xD;"@
    } else {
        seq![c]
    }
}

pub open spec fn escape_text(s: Seq<char>) -> Seq<char>
    decreases s.len(),
{
    if s.len() == 0 {
        Seq::empty()
    } else {
        escape_text(s.drop_last()) + escape_text_char(s.last())
    }
}

pub open spec fn escape_attr(s: Seq<char>) -> Seq<char>
    decreases s.len(),
{
    if s.len() == 0 {
        Seq::empty()
    } else {
        escape_attr(s.drop_last()) + escape_attr_char(s.last())
    }
}

/// ` name="value"` for every attribute, in order.
pub open spec fn attributes_xml(attrs: Seq<Attribute>) -> Seq<char>
    decreases attrs.len(),
{
    if attrs.len() == 0 {
        Seq::empty()
    } else {
        let a = attrs.last();
        attributes_xml(attrs.drop_last()) + " "@ + a.spec_qname() + "=\""@ + escape_attr(a.spec_value()) + "\""@
    }
}

/// The serialization of a node that is not an element.
pub open spec fn leaf_xml(node: Node) -> Seq<char> {
    match node {
        Node::Text(v) => escape_text(v@),
        Node::CData(v) => "<![CDATA["@ + v@ + "]]>"@,
        Node::Comment(v) => "<!--"@ + v@ + "-->"@,
        Node::ProcessingInstruction(v) => "<?"@ + v@ + "?>"@,
        Node::Element(_) => Seq::empty(),
    }
}

impl Element {
    /// The semantic serialization of this element.
    pub closed spec fn xml_text(&self) -> Seq<char>
        decreases self, 1int, 0int,
    {
        let head = "<"@ + self.qname@ + attributes_xml(self.attributes@);
        if self.empty_style.0 && self.nodes@.len() == 0 {
            head + "/>"@
        } else {
            head + ">"@ + self.xml_nodes(self.nodes@.len() as int) + "</"@ + self.qname@ + ">"@
        }
    }

    /// The semantic serialization of the first `n` child nodes.
    pub closed spec fn xml_nodes(&self, n: int) -> Seq<char>
        decreases self, 0int, n,
    {
        if n <= 0 || n > self.nodes@.len() {
            Seq::empty()
        } else {
            match self.nodes@[n - 1] {
                Node::Element(c) => self.xml_nodes(n - 1) + c.xml_text(),
                other => self.xml_nodes(n - 1) + leaf_xml(other),
            }
        }
    }
}

/// The semantic serialization of the first `n` nodes of a document-level list.
pub open spec fn list_xml(nodes: Seq<Node>, n: int) -> Seq<char>
    decreases n,
{
    if n <= 0 || n > nodes.len() {
        Seq::empty()
    } else {
        match nodes[n - 1] {
            Node::Element(c) => list_xml(nodes, n - 1) + c.xml_text(),
            other => list_xml(nodes, n - 1) + leaf_xml(other),
        }
    }
}

/// `<?xml version="…" encoding="…" standalone="…"?>`.
pub open spec fn declaration_xml(d: XmlDeclaration) -> Seq<char> {
    let encoding = match d.encoding {
        Some(e) => " encoding=\""@ + e@ + "\""@,
        None => Seq::empty(),
    };
    let standalone = match d.standalone {
        Some(s) => " standalone=\""@ + s@ + "\""@,
        None => Seq::empty(),
    };
    "<?xml version=\""@ + d.version@ + "\""@ + encoding + standalone + "?>"@
}

fn push_escaped_text(output: &mut String, value: &str)
    ensures
        final(output)@ == old(output)@ + escape_text(value@),
{
    let chars = crate::text::chars_of(value);
    let mut i: usize = 0;
    while i < chars.len()
        invariant
            i <= chars@.len(),
            chars@ == value@,
            output@ == old(output)@ + escape_text(chars@.take(i as int)),
        decreases chars.len() - i,
    {
        let c = chars[i];
        assert(chars@.take(i + 1).drop_last() == chars@.take(i as int));
        assert(chars@.take(i + 1).last() == c);
        let ghost before = output@;
        if c == '&' {
            output.append("&amp;");
        } else if c == '<' {
            output.append("&lt;");
        } else if c == '>' {
            output.append("&gt;");
        } else if c == '\r' {
            output.append("&#13;");
        } else {
            crate::text::push_char(output, c);
        }
        assert(output@ =~= before + escape_text_char(c));
        i = i + 1;
    }
    assert(chars@.take(chars@.len() as int) == chars@);
}

fn push_escaped_attr(output: &mut String, value: &str)
    ensures
        final(output)@ == old(output)@ + escape_attr(value@),
{
    let chars = crate::text::chars_of(value);
    let mut i: usize = 0;
    while i < chars.len()
        invariant
            i <= chars@.len(),
            chars@ == value@,
            output@ == old(output)@ + escape_attr(chars@.take(i as int)),
        decreases chars.len() - i,
    {
        let c = chars[i];
        assert(chars@.take(i + 1).drop_last() == chars@.take(i as int));
        assert(chars@.take(i + 1).last() == c);
        let ghost before = output@;
        if c == '&' {
            output.append("&amp;");
        } else if c == '<' {
            output.append("&lt;");
        } else if c == '"' {
            output.append("&quot;");
        } else if c == '\t' {
            output.append("&#x9;");
        } else if c == '\n' {
            output.append("&#xA;");
        } else if c == '\r' {
            output.append("&#xD;");
        } else {
            crate::text::push_char(output, c);
        }
        assert(output@ =~= before + escape_attr_char(c));
        i = i + 1;
    }
    assert(chars@.take(chars@.len() as int) == chars@);
}

fn push_leaf(output: &mut String, node: &Node)
    requires
        !(node is Element),
    ensures
        final(output)@ == old(output)@ + leaf_xml(*node),
{
    let ghost start = output@;
    match node {
        Node::Text(v) => push_escaped_text(output, v.as_str()),
        Node::CData(v) => {
            output.append("<![CDATA[");
            output.append(v.as_str());
            output.append("]]>");
            assert(output@ =~= start + leaf_xml(*node));
        },
        Node::Comment(v) => {
            output.append("<!--");
            output.append(v.as_str());
            output.append("-->");
            assert(output@ =~= start + leaf_xml(*node));
        },
        Node::ProcessingInstruction(v) => {
            output.append("<?");
            output.append(v.as_str());
            output.append("?>");
            assert(output@ =~= start + leaf_xml(*node));
        },
        Node::Element(_) => {},
    }
}

fn write_element(output: &mut String, element: &Element)
    ensures
        final(output)@ == old(output)@ + element.xml_text(),
    decreases element,
{
    let ghost start = output@;
    output.append("<");
    output.append(element.qname.as_str());
    let mut k: usize = 0;
    while k < element.attributes.len()
        invariant
            k <= element.attributes@.len(),
            output@ == start + "<"@ + element.qname@ + attributes_xml(element.attributes@.take(k as int)),
        decreases element.attributes.len() - k,
    {
        let a = &element.attributes[k];
        let ghost before = output@;
        output.append(" ");
        output.append(a.qname.as_str());
        output.append("=\"");
        push_escaped_attr(output, a.value.as_str());
        output.append("\"");
        assert(element.attributes@.take(k + 1).drop_last() == element.attributes@.take(k as int));
        assert(element.attributes@.take(k + 1).last() == *a);
        assert(output@ =~= before + " "@ + a.spec_qname() + "=\""@ + escape_attr(a.spec_value()) + "\""@);
        k = k + 1;
    }
    assert(element.attributes@.take(element.attributes@.len() as int) == element.attributes@);
    let ghost head = output@;
    if element.empty_style.0 && element.nodes.len() == 0 {
        output.append("/>");
        return;
    }
    output.append(">");
    let ghost body_start = output@;
    let mut i: usize = 0;
    while i < element.nodes.len()
        invariant
            i <= element.nodes@.len(),
            output@ == body_start + element.xml_nodes(i as int),
        decreases element.nodes.len() - i,
    {
        let ghost before = output@;
        match &element.nodes[i] {
            Node::Element(child) => {
                assert(decreases_to!(element => element.nodes));
                assert(decreases_to!(element.nodes => element.nodes@));
                assert(decreases_to!(element.nodes@ => element.nodes@[i as int]));
                write_element(output, child);
            },
            other => push_leaf(output, other),
        }
        assert(output@ =~= body_start + element.xml_nodes(i + 1));
        i = i + 1;
    }
    output.append("</");
    output.append(element.qname.as_str());
    output.append(">");
    assert(output@ =~= start + element.xml_text());
}

fn write_list(output: &mut String, nodes: &Vec<Node>)
    ensures
        final(output)@ == old(output)@ + list_xml(nodes@, nodes@.len() as int),
{
    let ghost start = output@;
    let mut i: usize = 0;
    while i < nodes.len()
        invariant
            i <= nodes@.len(),
            output@ == start + list_xml(nodes@, i as int),
        decreases nodes.len() - i,
    {
        match &nodes[i] {
            Node::Element(child) => write_element(output, child),
            other => push_leaf(output, other),
        }
        assert(output@ =~= start + list_xml(nodes@, i + 1));
        i = i + 1;
    }
}

fn write_declaration(output: &mut String, d: &XmlDeclaration)
    ensures
        final(output)@ == old(output)@ + declaration_xml(*d),
{
    let ghost start = output@;
    output.append("<?xml version=\"");
    output.append(d.version.as_str());
    output.append("\"");
    let ghost mid = output@;
    match &d.encoding {
        Some(e) => {
            output.append(" encoding=\"");
            output.append(e.as_str());
            output.append("\"");
        },
        None => {},
    }
    let ghost mid2 = output@;
    match &d.standalone {
        Some(s) => {
            output.append(" standalone=\"");
            output.append(s.as_str());
            output.append("\"");
        },
        None => {},
    }
    output.append("?>");
    assert(output@ =~= start + declaration_xml(*d));
}

/// XML serialization failure of the semantic writer. Writing into memory
/// does not fail, so no value of this type is produced.
#[derive(Debug, Clone, Copy, PartialEq, Eq)]
pub enum WriteError {
    Xml,
    Utf8,
}

// ---------------------------------------------------------------------------
// Document
// ---------------------------------------------------------------------------

/// A well-formed XML document with one root element.
///
/// Equality is semantic: declaration, prolog, root and epilog. Retained
/// source text and spans are provenance and do not participate.
#[derive(Debug, Clone, PartialEq, Eq)]
pub struct Document {
    declaration: Option<XmlDeclaration>,
    prolog: Vec<Node>,
    prolog_spans: Trace<Vec<Option<Span>>>,
    root: Element,
    epilog: Vec<Node>,
    epilog_spans: Trace<Vec<Option<Span>>>,
    source: Trace<Option<String>>,
    declaration_span: Trace<Option<Span>>,
}

impl Document {
    pub closed spec fn spec_declaration(&self) -> Option<XmlDeclaration> {
        self.declaration
    }

    pub closed spec fn spec_prolog(&self) -> Seq<Node> {
        self.prolog@
    }

    pub closed spec fn spec_root(&self) -> Element {
        self.root
    }

    pub closed spec fn spec_epilog(&self) -> Seq<Node> {
        self.epilog@
    }

    pub closed spec fn spec_source(&self) -> Option<Seq<char>> {
        opt_string_view(self.source.0)
    }

    /// Where in the source each prolog node stands.
    pub closed spec fn spec_prolog_spans(&self) -> Seq<Option<Span>> {
        self.prolog_spans.0@
    }

    /// Where in the source each epilog node stands.
    pub closed spec fn spec_epilog_spans(&self) -> Seq<Option<Span>> {
        self.epilog_spans.0@
    }

    /// The exact replay of the retained source, or why it is unavailable.
    pub closed spec fn exact_text(&self) -> Result<Seq<char>, ExactWriteError> {
        match self.source.0 {
            None => Err(ExactWriteError::NoSource),
            Some(s) => {
                let src = s@;
                let declaration = if self.declaration is Some {
                    span_text(src, self.declaration_span.0)
                } else {
                    Ok(Seq::empty())
                };
                then(
                    then(
                        then(declaration, exact_list(self.prolog@, self.prolog_spans.0@, src, self.prolog@.len() as int)),
                        self.root.exact_text(src),
                    ),
                    exact_list(self.epilog@, self.epilog_spans.0@, src, self.epilog@.len() as int),
                )
            },
        }
    }

    /// The semantic serialization: declaration, prolog, root, epilog.
    pub closed spec fn xml_text(&self) -> Seq<char> {
        let head = match self.declaration {
            Some(d) => declaration_xml(d),
            None => Seq::empty(),
        };
        head + list_xml(self.prolog@, self.prolog@.len() as int) + self.root.xml_text() + list_xml(self.epilog@, self.epilog@.len() as int)
    }

    pub(crate) fn parsed(
        declaration: Option<XmlDeclaration>,
        prolog: Vec<Node>,
        prolog_spans: Vec<Option<Span>>,
        root: Element,
        epilog: Vec<Node>,
        epilog_spans: Vec<Option<Span>>,
        source: Option<String>,
        declaration_span: Option<Span>,
    ) -> (r: Self)
        ensures
            r.spec_declaration() == declaration,
            r.spec_prolog() == prolog@,
            r.spec_prolog_spans() == prolog_spans@,
            r.spec_root() == root,
            r.spec_epilog() == epilog@,
            r.spec_epilog_spans() == epilog_spans@,
            r.spec_source() == opt_string_view(source),
            r.exact_text() == match source {
                None => Err(ExactWriteError::NoSource),
                Some(s) => then(
                    then(
                        then(
                            if declaration is Some {
                                span_text(s@, declaration_span)
                            } else {
                                Ok(Seq::empty())
                            },
                            exact_list(prolog@, prolog_spans@, s@, prolog@.len() as int),
                        ),
                        root.exact_text(s@),
                    ),
                    exact_list(epilog@, epilog_spans@, s@, epilog@.len() as int),
                ),
            },
    {
        Document {
            declaration,
            prolog,
            prolog_spans: Trace(prolog_spans),
            root,
            epilog,
            epilog_spans: Trace(epilog_spans),
            source: Trace(source),
            declaration_span: Trace(declaration_span),
        }
    }

    pub fn declaration(&self) -> (r: Option<&XmlDeclaration>)
        ensures
            r == match self.spec_declaration() {
                Some(d) => Some(&d),
                None => None::<&XmlDeclaration>,
            },
    {
        match &self.declaration {
            Some(d) => Some(d),
            None => None,
        }
    }

    pub fn prolog(&self) -> (r: &[Node])
        ensures
            r@ == self.spec_prolog(),
    {
        self.prolog.as_slice()
    }

    pub fn root(&self) -> (r: &Element)
        ensures
            *r == self.spec_root(),
    {
        &self.root
    }

    pub fn epilog(&self) -> (r: &[Node])
        ensures
            r@ == self.spec_epilog(),
    {
        self.epilog.as_slice()
    }

    /// The exact text this document was parsed from, when it is still retained.
    pub fn source(&self) -> (r: Option<&str>)
        ensures
            opt_str_view(r) == self.spec_source(),
    {
        match &self.source.0 {
            Some(s) => Some(s.as_str()),
            None => None,
        }
    }

    /// Drops the retained source text, keeping the semantic tree.
    pub fn without_source(self) -> (r: Self)
        ensures
            r.spec_source() is None,
            r.spec_declaration() == self.spec_declaration(),
            r.spec_prolog() == self.spec_prolog(),
            r.spec_root() == self.spec_root(),
            r.spec_epilog() == self.spec_epilog(),
            r.exact_text() == Err::<Seq<char>, ExactWriteError>(ExactWriteError::NoSource),
    {
        let mut document = self;
        document.source = Trace(None);
        document
    }

    /// Separates the root element.
    pub(crate) fn take_root(self) -> (r: Element)
        ensures
            r == self.spec_root(),
    {
        self.root
    }

    /// Serializes the semantic XML tree; equivalent syntax may be normalized.
    pub fn to_xml_string(&self) -> (r: Result<String, WriteError>)
        ensures
            r matches Ok(s) && s@ == self.xml_text(),
    {
        let mut output = String::new();
        match &self.declaration {
            Some(d) => write_declaration(&mut output, d),
            None => {},
        }
        write_list(&mut output, &self.prolog);
        write_element(&mut output, &self.root);
        write_list(&mut output, &self.epilog);
        assert(output@ =~= self.xml_text());
        Ok(output)
    }

    /// Reproduces the parsed document exactly from retained source spans,
    /// failing rather than normalizing when provenance is missing.
    pub fn to_xml_string_exact(&self) -> (r: Result<String, ExactWriteError>)
        ensures
            match self.exact_text() {
                Ok(t) => r matches Ok(s) && s@ == t,
                Err(e) => r == Err::<String, ExactWriteError>(e),
            },
    {
        let source = match &self.source.0 {
            Some(s) => s.as_str(),
            None => {
                return Err(ExactWriteError::NoSource);
            },
        };
        let mut output = String::new();
        if self.declaration.is_some() {
            push_span(&mut output, source, self.declaration_span.0)?;
        }
        push_list(&mut output, source, &self.prolog, &self.prolog_spans.0)?;
        push_element(&mut output, source, &self.root)?;
        push_list(&mut output, source, &self.epilog, &self.epilog_spans.0)?;
        Ok(output)
    }
}

fn push_list(output: &mut String, source: &str, nodes: &Vec<Node>, spans: &Vec<Option<Span>>) -> (r: Result<(), ExactWriteError>)
    ensures
        match exact_list(nodes@, spans@, source@, nodes@.len() as int) {
            Ok(t) => r is Ok && final(output)@ == old(output)@ + t,
            Err(e) => r == Err::<(), ExactWriteError>(e),
        },
{
    let ghost start = output@;
    let mut i: usize = 0;
    while i < nodes.len()
        invariant
            i <= nodes@.len(),
            exact_list(nodes@, spans@, source@, i as int) matches Ok(t) && output@ == start + t,
            start == old(output)@,
        decreases nodes.len() - i,
    {
        let ghost t = exact_list(nodes@, spans@, source@, i as int)->Ok_0;
        let ghost expected = match nodes@[i as int] {
            Node::Element(c) => c.exact_text(source@),
            _ => span_text(source@, span_at(spans@, i as int)),
        };
        let pushed = match &nodes[i] {
            Node::Element(child) => push_element(output, source, child),
            _ => {
                let span = if i < spans.len() {
                    spans[i]
                } else {
                    None
                };
                push_span(output, source, span)
            },
        };
        assert(exact_list(nodes@, spans@, source@, i + 1) == then(Ok(t), expected));
        if let Err(e) = pushed {
            proof {
                lemma_exact_list_err(nodes@, spans@, source@, i + 1, nodes@.len() as int);
            }
            return Err(e);
        }
        assert(output@ =~= start + (t + expected->Ok_0));
        i = i + 1;
    }
    Ok(())
}

proof fn lemma_exact_list_err(nodes: Seq<Node>, spans: Seq<Option<Span>>, src: Seq<char>, k: int, m: int)
    requires
        0 <= k <= m <= nodes.len(),
        exact_list(nodes, spans, src, k) is Err,
    ensures
        exact_list(nodes, spans, src, m) == exact_list(nodes, spans, src, k),
    decreases m - k,
{
    if m > k {
        lemma_exact_list_err(nodes, spans, src, k, m - 1);
    }
}

} // verus!
