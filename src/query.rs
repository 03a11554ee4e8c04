use crate::tree::{bfs_order, Attribute, IterNodes, Node, NodeData};
use html5ever::driver::ParseOpts;
use html5ever::parse_document;
use html5ever::rcdom::{Handle, Node as RcNode, NodeData as RcNodeData, RcDom};
use html5ever::tendril::TendrilSink;
use html5ever::tree_builder::TreeBuilderOpts;
use vstd::prelude::*;
use vstd::string::*;

verus! {

/// std's I/O error, which html5ever reports a failed read with.
#[verifier::external_type_specification]
#[verifier::external_body]
pub struct ExIoError(std::io::Error);

/// A node of html5ever's reference-counted tree, read only while it is copied.
#[verifier::external_type_specification]
#[verifier::external_body]
pub struct ExRcNode(RcNode);

/// The tree that html5ever builds from a document's text, or none where it
/// reports an error.
pub uninterp spec fn parsed_document(content: Seq<char>) -> Option<Node>;

/// The text with its leading and trailing whitespace removed.
pub uninterp spec fn trim_of(s: Seq<char>) -> Seq<char>;

/// The text in lower case.
pub uninterp spec fn lower_of(s: Seq<char>) -> Seq<char>;

/// Copies one node of html5ever's reference-counted tree, with its subtree,
/// into a `Node`: an element keeps its namespace, local name and attributes,
/// a text node its contents; every other kind of node becomes `Other`.
#[verifier::external_body]
fn node_of_handle(h: &Handle) -> Node {
    let data = match &h.data {
        RcNodeData::Element { name, attrs, .. } => NodeData::Element {
            ns: name.ns.to_string(),
            local: name.local.to_string(),
            attrs: attrs.borrow().iter().map(|a| Attribute {
                ns: a.name.ns.to_string(),
                local: a.name.local.to_string(),
                value: a.value.to_string(),
            }).collect(),
        },
        RcNodeData::Text { contents } => NodeData::Text { contents: contents.borrow().to_string() },
        _ => NodeData::Other,
    };
    Node { data, children: h.children.borrow().iter().map(|c| node_of_handle(c)).collect() }
}

/// Relies on html5ever's `parse_document` with its `RcDom` sink (doctype
/// dropped): the tree depends on the text alone. The tree it builds is copied
/// by `node_of_handle`.
#[verifier::external_body]
pub fn parse_dom(content: String) -> (r: Result<Node, std::io::Error>)
    ensures
        r is Ok <==> parsed_document(content@) is Some,
        r is Ok ==> r->Ok_0 == parsed_document(content@)->Some_0,
{
    let opts = ParseOpts {
        tree_builder: TreeBuilderOpts { drop_doctype: true, ..Default::default() },
        ..Default::default()
    };
    let mut data: &[u8] = content.as_bytes();
    parse_document(RcDom::default(), opts).from_utf8().read_from(&mut data).map(
        |dom| node_of_handle(&dom.document),
    )
}

/// Relies on `str::trim`: whitespace removed at both ends.
#[verifier::external_body]
fn trim_str(s: &str) -> (r: &str)
    ensures
        r@ == trim_of(s@),
{
    s.trim()
}

/// Relies on `str::to_lowercase`.
#[verifier::external_body]
fn lowercase(s: &str) -> (r: String)
    ensures
        r@ == lower_of(s@),
{
    s.to_lowercase()
}

/// The text held by an optional string.
pub open spec fn opt_view(o: Option<String>) -> Option<Seq<char>> {
    match o {
        Some(s) => Some(s@),
        None => None,
    }
}

/// The HTML namespace.
pub open spec fn html_ns() -> Seq<char> {
    "http://www.w3.org/1999/xhtml"@
}

/// The lower-cased local name of an element of the HTML namespace; none for
/// elements of other namespaces and for other nodes.
pub open spec fn node_name(n: Node) -> Option<Seq<char>> {
    match n.data {
        NodeData::Element { ns, local, .. } => if ns@ == html_ns() {
            Some(lower_of(local@))
        } else {
            None
        },
        _ => None,
    }
}

/// Whether an attribute has no namespace and the local name `name`.
pub open spec fn attr_matches(a: Attribute, name: Seq<char>) -> bool {
    a.ns@.len() == 0 && a.local@ == name
}

/// The value of the first attribute of `attrs` that matches `name`.
pub open spec fn first_attr(attrs: Seq<Attribute>, name: Seq<char>) -> Option<Seq<char>>
    decreases attrs.len(),
{
    if attrs.len() == 0 {
        None
    } else if attr_matches(attrs[0], name) {
        Some(attrs[0].value@)
    } else {
        first_attr(attrs.drop_first(), name)
    }
}

/// The value of the attribute `name` (no namespace) of an element; none for
/// other nodes.
pub open spec fn attr_value(n: Node, name: Seq<char>) -> Option<Seq<char>> {
    match n.data {
        NodeData::Element { attrs, .. } => first_attr(attrs@, name),
        _ => None,
    }
}

/// What one node adds to the text content: a space and its trimmed text.
pub open spec fn text_piece(n: Node) -> Seq<char> {
    match n.data {
        NodeData::Text { contents } => seq![' '] + trim_of(contents@),
        _ => Seq::empty(),
    }
}

/// The pieces of the nodes of `s`, in order.
pub open spec fn text_pieces(s: Seq<Node>) -> Seq<char>
    decreases s.len(),
{
    if s.len() == 0 {
        Seq::empty()
    } else {
        text_pieces(s.drop_last()) + text_piece(s.last())
    }
}

/// The text of a subtree: its text nodes' trimmed contents, in traversal
/// order, joined by spaces and trimmed.
pub open spec fn text_content(n: Node) -> Seq<char> {
    trim_of(text_pieces(bfs_order(n)))
}

/// An element outside the HTML namespace has no tag name, whatever its local
/// name.
pub proof fn lemma_foreign_element_has_no_tag(n: Node)
    requires
        n.data is Element,
        n.data->Element_ns@ != html_ns(),
    ensures
        node_name(n) is None,
{
}

/// An attribute is not found where no attribute of the element has both no
/// namespace and the name asked for: it is absent, or only present in
/// another namespace.
pub proof fn lemma_attr_absent(n: Node, name: Seq<char>)
    requires
        n.data is Element,
        forall|i: int|
            0 <= i < n.data->Element_attrs@.len() ==> !attr_matches(
                #[trigger] n.data->Element_attrs@[i],
                name,
            ),
    ensures
        attr_value(n, name) is None,
{
    lemma_first_attr_absent(n.data->Element_attrs@, name);
}

proof fn lemma_first_attr_absent(attrs: Seq<Attribute>, name: Seq<char>)
    requires
        forall|i: int| 0 <= i < attrs.len() ==> !attr_matches(#[trigger] attrs[i], name),
    ensures
        first_attr(attrs, name) is None,
    decreases attrs.len(),
{
    if attrs.len() > 0 {
        assert(!attr_matches(attrs[0], name));
        assert forall|i: int| 0 <= i < attrs.drop_first().len() implies !attr_matches(
            #[trigger] attrs.drop_first()[i],
            name,
        ) by {
            assert(attrs.drop_first()[i] == attrs[i + 1]);
        }
        lemma_first_attr_absent(attrs.drop_first(), name);
    }
}

/// The tag name of an element of the HTML namespace.
pub fn get_node_name(node: &Node) -> (r: Option<String>)
    ensures
        opt_view(r) == node_name(*node),
{
    match &node.data {
        NodeData::Element { ns, local, .. } => {
            let html = String::from_str("http://www.w3.org/1999/xhtml");
            if *ns == html {
                Some(lowercase(local.as_str()))
            } else {
                None
            }
        },
        _ => None,
    }
}

/// The value of the attribute `name` (no namespace) of an element.
pub fn get_attr(node: &Node, name: &str) -> (r: Option<String>)
    ensures
        opt_view(r) == attr_value(*node, name@),
{
    match &node.data {
        NodeData::Element { attrs, .. } => {
            let wanted = String::from_str(name);
            let no_ns = String::new();
            let mut i: usize = 0;
            assert(attrs@.subrange(0, attrs@.len() as int) =~= attrs@);
            while i < attrs.len()
                invariant
                    0 <= i <= attrs@.len(),
                    wanted@ == name@,
                    no_ns@ == Seq::<char>::empty(),
                    attr_value(*node, name@) == first_attr(attrs@, name@),
                    first_attr(attrs@, name@) == first_attr(attrs@.subrange(i as int, attrs@.len() as int), name@),
                decreases attrs@.len() - i,
            {
                let a = &attrs[i];
                let ghost rest = attrs@.subrange(i as int, attrs@.len() as int);
                assert(rest[0] == *a);
                assert(rest.drop_first() =~= attrs@.subrange(i + 1, attrs@.len() as int));
                let same_ns = a.ns == no_ns;
                let same_name = a.local == wanted;
                assert(a.ns@.len() == 0 ==> a.ns@ =~= no_ns@);
                assert(attr_matches(rest[0], name@) <==> same_ns && same_name);
                if same_ns && same_name {
                    assert(first_attr(rest, name@) == Some(a.value@));
                    let v = a.value.clone();
                    return Some(v);
                }
                assert(first_attr(rest, name@) == first_attr(rest.drop_first(), name@));
                i = i + 1;
            }
            None
        },
        _ => None,
    }
}

/// The text content of the subtree rooted at `node`.
pub fn get_text_content(node: &Node) -> (r: String)
    ensures
        r@ == text_content(*node),
{
    let mut r = String::new();
    let mut it = IterNodes::from(node);
    let ghost seen: Seq<Node> = Seq::empty();
    loop
        invariant
            seen + it.remaining() == bfs_order(*node),
            r@ == text_pieces(seen),
        ensures
            r@ == text_pieces(bfs_order(*node)),
        decreases it.remaining().len(),
    {
        let ghost before = it.remaining();
        match it.next() {
            None => {
                assert(seen =~= bfs_order(*node));
                break;
            },
            Some(n) => {
                proof {
                    assert(seen + before =~= seen.push(before[0]) + before.drop_first());
                    let old_seen = seen;
                    seen = seen.push(*n);
                    assert(seen.drop_last() =~= old_seen);
                    reveal_strlit(" ");
                }
                if let NodeData::Text { contents } = &n.data {
                    r.append(" ");
                    let t = trim_str(contents.as_str());
                    r.append(t);
                }
            },
        }
    }
    let t = trim_str(r.as_str());
    t.to_owned()
}

} // verus!
