//! Namespace declarations for trees built in memory.
//!
//! Elements built with [`Element::new`](crate::Element::new) carry resolved
//! namespaces but no `xmlns` attributes; [`Document::standalone`] adds the
//! declarations their prefixes need so the document can be written and read
//! back on its own.

use vstd::prelude::*;

use crate::document::{lemma_child_decreases, opt_str_view, Attribute, Document, Element, Node};
use crate::parser::XMLNS_NAMESPACE;
use crate::text::str_eq;

verus! {

/// A prefix (or the default namespace, `None`) and the namespace it must
/// be bound to.
pub type Binding = (Option<Seq<char>>, Seq<char>);

/// The prefixes that are bound by definition and never declared.
pub open spec fn reserved_prefix(p: Option<Seq<char>>) -> bool {
    p == Some("xml"@) || p == Some("xmlns"@)
}

/// The bindings attributes rely on: one per prefixed attribute in a
/// namespace.
pub open spec fn attribute_bindings(attrs: Seq<Attribute>) -> Seq<Binding>
    decreases attrs.len(),
{
    if attrs.len() == 0 {
        Seq::empty()
    } else {
        let prior = attribute_bindings(attrs.drop_last());
        let a = attrs.last();
        match (a.spec_prefix(), a.spec_namespace()) {
            (Some(p), Some(ns)) => if reserved_prefix(Some(p)) {
                prior
            } else {
                prior.push((Some(p), ns))
            },
            _ => prior,
        }
    }
}

/// The bindings an element relies on: its own name's, then its attributes'.
pub open spec fn own_bindings(e: Element) -> Seq<Binding> {
    let head: Seq<Binding> = match e.spec_namespace() {
        Some(ns) => if reserved_prefix(e.spec_prefix()) {
            Seq::empty()
        } else {
            seq![(e.spec_prefix(), ns)]
        },
        None => Seq::empty(),
    };
    head + attribute_bindings(e.spec_attributes())
}

/// The bindings a tree relies on, in document order.
pub open spec fn tree_bindings(e: Element) -> Seq<Binding>
    decreases e, 1int, 0int,
{
    own_bindings(e) + node_bindings(e, e.spec_nodes().len() as int)
}

/// The bindings the element children among the first `n` nodes rely on.
pub open spec fn node_bindings(e: Element, n: int) -> Seq<Binding>
    decreases e, 0int, n,
{
    if n <= 0 || n > e.spec_nodes().len() {
        Seq::empty()
    } else {
        let prior = node_bindings(e, n - 1);
        match e.spec_nodes()[n - 1] {
            Node::Element(c) => {
                proof {
                    lemma_child_decreases(e, n - 1);
                }
                prior + tree_bindings(c)
            },
            _ => prior,
        }
    }
}

/// Whether an attribute declares prefix `p` (`None`: the default namespace).
pub open spec fn declares(a: Attribute, p: Option<Seq<char>>) -> bool {
    match p {
        None => a.spec_prefix() is None && a.spec_local_name() == "xmlns"@,
        Some(x) => a.spec_prefix() == Some("xmlns"@) && a.spec_local_name() == x,
    }
}

pub open spec fn declared(attrs: Seq<Attribute>, p: Option<Seq<char>>) -> bool {
    exists|i: int| 0 <= i < attrs.len() && declares(#[trigger] attrs[i], p)
}

pub open spec fn has_prefix(bs: Seq<Binding>, p: Option<Seq<char>>) -> bool {
    exists|i: int| 0 <= i < bs.len() && (#[trigger] bs[i]).0 == p
}

/// The bindings still to declare: the first one of each prefix that `attrs`
/// does not already declare.
pub open spec fn needed(bs: Seq<Binding>, attrs: Seq<Attribute>) -> Seq<Binding>
    decreases bs.len(),
{
    if bs.len() == 0 {
        Seq::empty()
    } else {
        let prior = needed(bs.drop_last(), attrs);
        let b = bs.last();
        if has_prefix(prior, b.0) || declared(attrs, b.0) {
            prior
        } else {
            prior.push(b)
        }
    }
}

/// `a` is the namespace declaration of binding `b`.
pub open spec fn declaration_of(a: Attribute, b: Binding) -> bool {
    &&& a.spec_namespace() == Some(XMLNS_NAMESPACE@)
    &&& a.spec_value() == b.1
    &&& match b.0 {
        None => a.spec_prefix() is None && a.spec_local_name() == "xmlns"@ && a.spec_qname() == "xmlns"@,
        Some(p) => a.spec_prefix() == Some("xmlns"@) && a.spec_local_name() == p && a.spec_qname() == "xmlns"@
            + seq![':'] + p,
    }
}

fn reserved(p: Option<&str>) -> (r: bool)
    ensures
        r == reserved_prefix(opt_str_view(p)),
{
    match p {
        Some(x) => str_eq(x, "xml") || str_eq(x, "xmlns"),
        None => false,
    }
}

fn binding_of(p: Option<&str>, ns: &str) -> (r: (Option<String>, String))
    ensures
        (match r.0 {
            Some(s) => Some(s@),
            None => None,
        }) == opt_str_view(p),
        r.1@ == ns@,
{
    let prefix = match p {
        Some(x) => Some(String::from_str(x)),
        None => None,
    };
    (prefix, String::from_str(ns))
}

pub open spec fn binding_views(v: Seq<(Option<String>, String)>) -> Seq<Binding> {
    v.map_values(
        |b: (Option<String>, String)|
            (
                match b.0 {
                    Some(s) => Some(s@),
                    None => None,
                },
                b.1@,
            ),
    )
}

fn push_binding(out: &mut Vec<(Option<String>, String)>, p: Option<&str>, ns: &str)
    ensures
        binding_views(final(out)@) == binding_views(old(out)@).push((opt_str_view(p), ns@)),
{
    let b = binding_of(p, ns);
    let ghost before = out@;
    out.push(b);
    assert(binding_views(out@) =~= binding_views(before).push((opt_str_view(p), ns@)));
}

fn collect_own(e: &Element, out: &mut Vec<(Option<String>, String)>)
    ensures
        binding_views(final(out)@) == binding_views(old(out)@) + own_bindings(*e),
{
    let ghost start = binding_views(out@);
    match e.namespace_uri() {
        Some(ns) => {
            if !reserved(e.prefix()) {
                push_binding(out, e.prefix(), ns);
            }
        },
        None => {},
    }
    let ghost head = binding_views(out@);
    let attributes = e.attributes();
    let mut i: usize = 0;
    assert(attributes@.take(0) =~= Seq::<Attribute>::empty());
    while i < attributes.len()
        invariant
            i <= attributes@.len(),
            attributes@ == e.spec_attributes(),
            binding_views(out@) == head + attribute_bindings(attributes@.take(i as int)),
        decreases attributes.len() - i,
    {
        let a = &attributes[i];
        assert(attributes@.take(i + 1).drop_last() == attributes@.take(i as int));
        assert(attributes@.take(i + 1).last() == *a);
        let ghost before = binding_views(out@);
        match (a.prefix(), a.namespace_uri()) {
            (Some(p), Some(ns)) => {
                if !reserved(Some(p)) {
                    push_binding(out, Some(p), ns);
                    assert(binding_views(out@) =~= head + attribute_bindings(attributes@.take(i + 1)));
                }
            },
            _ => {},
        }
        i = i + 1;
    }
    assert(attributes@.take(attributes@.len() as int) == attributes@);
    assert(binding_views(out@) =~= start + own_bindings(*e));
}

fn collect_tree(e: &Element, out: &mut Vec<(Option<String>, String)>)
    ensures
        binding_views(final(out)@) == binding_views(old(out)@) + tree_bindings(*e),
    decreases e,
{
    let ghost start = binding_views(out@);
    collect_own(e, out);
    let ghost own = binding_views(out@);
    let nodes = e.nodes();
    let mut i: usize = 0;
    assert(binding_views(out@) =~= own + node_bindings(*e, 0));
    while i < nodes.len()
        invariant
            i <= nodes@.len(),
            nodes@ == e.spec_nodes(),
            own == start + own_bindings(*e),
            binding_views(out@) == own + node_bindings(*e, i as int),
        decreases nodes.len() - i,
    {
        match &nodes[i] {
            Node::Element(child) => {
                proof {
                    lemma_child_decreases(*e, i as int);
                }
                collect_tree(child, out);
                assert(binding_views(out@) =~= own + node_bindings(*e, i + 1));
            },
            _ => {
                assert(binding_views(out@) =~= own + node_bindings(*e, i + 1));
            },
        }
        i = i + 1;
    }
    assert(binding_views(out@) =~= start + tree_bindings(*e));
}

fn same_prefix(a: &Option<String>, b: &Option<String>) -> (r: bool)
    ensures
        r == ((match a {
            Some(s) => Some(s@),
            None => None::<Seq<char>>,
        }) == (match b {
            Some(s) => Some(s@),
            None => None::<Seq<char>>,
        })),
{
    match (a, b) {
        (Some(x), Some(y)) => str_eq(x.as_str(), y.as_str()),
        (None, None) => true,
        _ => false,
    }
}

fn declares_prefix(a: &Attribute, p: &Option<String>) -> (r: bool)
    ensures
        r == declares(*a, match p {
            Some(s) => Some(s@),
            None => None,
        }),
{
    match p {
        None => a.prefix().is_none() && str_eq(a.local_name(), "xmlns"),
        Some(x) => match a.prefix() {
            Some(ap) => str_eq(ap, "xmlns") && str_eq(a.local_name(), x.as_str()),
            None => false,
        },
    }
}

fn is_declared(attrs: &[Attribute], p: &Option<String>) -> (r: bool)
    ensures
        r == declared(attrs@, match p {
            Some(s) => Some(s@),
            None => None,
        }),
{
    let mut i: usize = 0;
    while i < attrs.len()
        invariant
            i <= attrs@.len(),
            forall|k: int| 0 <= k < i ==> !declares(#[trigger] attrs@[k], match p {
                Some(s) => Some(s@),
                None => None,
            }),
        decreases attrs.len() - i,
    {
        if declares_prefix(&attrs[i], p) {
            return true;
        }
        i = i + 1;
    }
    false
}

fn listed(bs: &Vec<(Option<String>, String)>, p: &Option<String>) -> (r: bool)
    ensures
        r == has_prefix(binding_views(bs@), match p {
            Some(s) => Some(s@),
            None => None,
        }),
{
    let ghost views = binding_views(bs@);
    let mut i: usize = 0;
    while i < bs.len()
        invariant
            i <= bs@.len(),
            views == binding_views(bs@),
            forall|k: int| 0 <= k < i ==> (#[trigger] views[k]).0 != (match p {
                Some(s) => Some(s@),
                None => None::<Seq<char>>,
            }),
        decreases bs.len() - i,
    {
        if same_prefix(&bs[i].0, p) {
            assert(views[i as int].0 == (match p {
                Some(s) => Some(s@),
                None => None::<Seq<char>>,
            }));
            return true;
        }
        i = i + 1;
    }
    false
}

fn declaration(b: &(Option<String>, String)) -> (r: Attribute)
    ensures
        declaration_of(r, binding_views(seq![*b])[0]),
{
    proof {
        reveal_strlit("xmlns");
    }
    let r = match &b.0 {
        None => Attribute::new(None, "xmlns", Some(XMLNS_NAMESPACE), b.1.as_str()),
        Some(p) => Attribute::new(Some("xmlns"), p.as_str(), Some(XMLNS_NAMESPACE), b.1.as_str()),
    };
    r
}

impl Document {
    /// A document whose root is `root`, with the `xmlns` declarations its
    /// tree relies on added in front of the root's attributes: for each
    /// prefix (and the default namespace) the first binding in document
    /// order that the root does not already declare. The document has no
    /// XML declaration, no prolog or epilog and no retained source.
    #[verifier::spinoff_prover]
    #[verifier::rlimit(40)]
    pub fn standalone(root: Element) -> (r: Document)
        ensures
            ({
                let decls = needed(tree_bindings(root), root.spec_attributes());
                let attrs = r.spec_root().spec_attributes();
                &&& attrs.len() == decls.len() + root.spec_attributes().len()
                &&& forall|i: int| 0 <= i < decls.len() ==> declaration_of(#[trigger] attrs[i], decls[i])
                &&& attrs.subrange(decls.len() as int, attrs.len() as int) == root.spec_attributes()
            }),
            r.spec_root().spec_nodes() == root.spec_nodes(),
            r.spec_root().spec_qname() == root.spec_qname(),
            r.spec_root().spec_prefix() == root.spec_prefix(),
            r.spec_root().spec_local_name() == root.spec_local_name(),
            r.spec_root().spec_namespace() == root.spec_namespace(),
            r.spec_declaration() is None,
            r.spec_prolog().len() == 0,
            r.spec_epilog().len() == 0,
            r.spec_source() is None,
    {
        let mut bindings: Vec<(Option<String>, String)> = Vec::new();
        assert(binding_views(bindings@) =~= Seq::<Binding>::empty());
        collect_tree(&root, &mut bindings);
        assert(binding_views(bindings@) =~= tree_bindings(root));
        let ghost all = tree_bindings(root);
        let mut kept: Vec<(Option<String>, String)> = Vec::new();
        let mut i: usize = 0;
        assert(all.take(0) =~= Seq::<Binding>::empty());
        assert(binding_views(kept@) =~= Seq::<Binding>::empty());
        while i < bindings.len()
            invariant
                i <= bindings@.len(),
                all == binding_views(bindings@),
                binding_views(kept@) == needed(all.take(i as int), root.spec_attributes()),
            decreases bindings.len() - i,
        {
            assert(all.take(i + 1).drop_last() == all.take(i as int));
            assert(all.take(i + 1).last() == all[i as int]);
            assert(all[i as int].0 == (match bindings@[i as int].0 {
                Some(s) => Some(s@),
                None => None::<Seq<char>>,
            }));
            if !listed(&kept, &bindings[i].0) && !is_declared(root.attributes(), &bindings[i].0) {
                let b = (bindings[i].0.clone(), bindings[i].1.clone());
                let ghost before = kept@;
                kept.push(b);
                assert(binding_views(kept@) =~= binding_views(before).push(all[i as int]));
            }
            i = i + 1;
        }
        assert(all.take(all.len() as int) == all);
        let ghost decls = binding_views(kept@);
        let mut attributes: Vec<Attribute> = Vec::new();
        let mut j: usize = 0;
        while j < kept.len()
            invariant
                j <= kept@.len(),
                decls == binding_views(kept@),
                attributes@.len() == j,
                forall|k: int| 0 <= k < j ==> declaration_of(#[trigger] attributes@[k], decls[k]),
            decreases kept.len() - j,
        {
            let a = declaration(&kept[j]);
            assert(binding_views(seq![kept@[j as int]])[0] == decls[j as int]);
            attributes.push(a);
            j = j + 1;
        }
        let ghost old_attrs = root.spec_attributes();
        let root = root.with_leading_attributes(attributes);
        assert(root.spec_attributes().subrange(decls.len() as int, root.spec_attributes().len() as int) =~= old_attrs);
        Document::parsed(None, Vec::new(), Vec::new(), root, Vec::new(), Vec::new(), None, None)
    }
}

} // verus!
