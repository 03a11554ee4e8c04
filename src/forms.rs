use crate::query::{attr_value, get_attr, get_node_name, node_name, opt_view};
use crate::tree::{bfs_order, IterNodes, Node};
use vstd::prelude::*;
use vstd::string::*;

verus! {

/// The attributes `name`, `id` and `value` of a form control, each absent
/// where the element does not carry it.
pub type ControlFields = (Option<Seq<char>>, Option<Seq<char>>, Option<Seq<char>>);

/// A control of an HTML form.
pub enum FormElement {
    Input { name: Option<String>, id: Option<String>, value: Option<String> },
}

impl FormElement {
    /// The control's `name`, `id` and `value`.
    pub open spec fn fields(&self) -> ControlFields {
        match self {
            FormElement::Input { name, id, value } => (opt_view(*name), opt_view(*id), opt_view(*value)),
        }
    }

    /// The control's `name` attribute.
    pub fn name(&self) -> (r: &Option<String>)
        ensures
            opt_view(*r) == self.fields().0,
    {
        match self {
            FormElement::Input { name, .. } => name,
        }
    }

    /// The control's `id` attribute.
    pub fn id(&self) -> (r: &Option<String>)
        ensures
            opt_view(*r) == self.fields().1,
    {
        match self {
            FormElement::Input { id, .. } => id,
        }
    }

    /// The control's `value` attribute.
    pub fn value(&self) -> (r: &Option<String>)
        ensures
            opt_view(*r) == self.fields().2,
    {
        match self {
            FormElement::Input { value, .. } => value,
        }
    }
}

/// Whether a node is an HTML element with the tag name `tag`.
pub open spec fn has_tag(n: Node, tag: Seq<char>) -> bool {
    node_name(n) == Some(tag)
}

/// The form elements of the tree rooted at `root`, in traversal order.
pub open spec fn forms_of(root: Node) -> Seq<Node> {
    bfs_order(root).filter(|n: Node| has_tag(n, "form"@))
}

/// The fields of an `input` element.
pub open spec fn input_fields(n: Node) -> ControlFields {
    (attr_value(n, "name"@), attr_value(n, "id"@), attr_value(n, "value"@))
}

/// The fields of the input elements of the tree rooted at `root`, in
/// traversal order.
pub open spec fn inputs_of(root: Node) -> Seq<ControlFields> {
    bfs_order(root).filter(|n: Node| has_tag(n, "input"@)).map_values(|n: Node| input_fields(n))
}

/// The nodes that a list of references points to.
pub open spec fn deref_all(s: Seq<&Node>) -> Seq<Node> {
    s.map_values(|r: &Node| *r)
}

/// Whether `name` is present and equal to `tag`.
pub(crate) fn is_named(name: &Option<String>, tag: &String) -> (r: bool)
    ensures
        r == (opt_view(*name) == Some(tag@)),
{
    match name {
        Some(n) => *n == *tag,
        None => false,
    }
}

/// Every `form` element of the tree rooted at `node`, in traversal order.
pub fn find_forms<'a>(node: &'a Node) -> (r: Vec<&'a Node>)
    ensures
        deref_all(r@) == forms_of(*node),
{
    let form = String::from_str("form");
    let mut r: Vec<&'a Node> = Vec::new();
    let mut it = IterNodes::from(node);
    let ghost seen: Seq<Node> = Seq::empty();
    let ghost pred = |n: Node| has_tag(n, "form"@);
    loop
        invariant
            seen + it.remaining() == bfs_order(*node),
            deref_all(r@) == seen.filter(pred),
            form@ == "form"@,
            pred == (|n: Node| has_tag(n, "form"@)),
        ensures
            deref_all(r@) == bfs_order(*node).filter(pred),
        decreases it.remaining().len(),
    {
        let ghost before = it.remaining();
        match it.next() {
            None => {
                assert(seen =~= bfs_order(*node));
                break;
            },
            Some(n) => {
                let ghost old_seen = seen;
                let ghost old_r = deref_all(r@);
                proof {
                    assert(seen + before =~= seen.push(before[0]) + before.drop_first());
                    seen = seen.push(*n);
                    assert(seen.drop_last() =~= old_seen);
                    reveal(Seq::filter);
                }
                let name = get_node_name(n);
                if is_named(&name, &form) {
                    r.push(n);
                    assert(deref_all(r@) =~= old_r.push(*n));
                } else {
                    assert(deref_all(r@) =~= old_r);
                }
            },
        }
    }
    r
}

/// Every `input` element of the tree rooted at `node`, in traversal order,
/// with the attributes it carries.
pub fn find_inputs(node: &Node) -> (r: Vec<FormElement>)
    ensures
        r@.map_values(|e: FormElement| e.fields()) == inputs_of(*node),
{
    let input = String::from_str("input");
    let mut r: Vec<FormElement> = Vec::new();
    let mut it = IterNodes::from(node);
    let ghost seen: Seq<Node> = Seq::empty();
    let ghost pred = |n: Node| has_tag(n, "input"@);
    let ghost f = |n: Node| input_fields(n);
    loop
        invariant
            seen + it.remaining() == bfs_order(*node),
            r@.map_values(|e: FormElement| e.fields()) == seen.filter(pred).map_values(f),
            input@ == "input"@,
            pred == (|n: Node| has_tag(n, "input"@)),
            f == (|n: Node| input_fields(n)),
        ensures
            r@.map_values(|e: FormElement| e.fields()) == bfs_order(*node).filter(pred).map_values(
                f,
            ),
        decreases it.remaining().len(),
    {
        let ghost before = it.remaining();
        match it.next() {
            None => {
                assert(seen =~= bfs_order(*node));
                break;
            },
            Some(n) => {
                let ghost old_seen = seen;
                let ghost old_r = r@.map_values(|e: FormElement| e.fields());
                proof {
                    assert(seen + before =~= seen.push(before[0]) + before.drop_first());
                    seen = seen.push(*n);
                    assert(seen.drop_last() =~= old_seen);
                    reveal(Seq::filter);
                }
                let name = get_node_name(n);
                if is_named(&name, &input) {
                    let a_name = get_attr(n, "name");
                    let a_id = get_attr(n, "id");
                    let a_value = get_attr(n, "value");
                    r.push(FormElement::Input { name: a_name, id: a_id, value: a_value });
                    assert(seen.filter(pred) == old_seen.filter(pred).push(*n));
                    assert(r@.map_values(|e: FormElement| e.fields()) =~= old_r.push(input_fields(*n)));
                    assert(seen.filter(pred).map_values(f) =~= old_seen.filter(pred).map_values(f).push(f(*n)));
                } else {
                    assert(r@.map_values(|e: FormElement| e.fields()) =~= old_r);
                }
            },
        }
    }
    r
}

} // verus!
