//! The HTML node model and its serialization.
//!
//! A tree is built from two node kinds: a leaf, which carries text and no
//! children, and a parent, which wraps an ordered run of child nodes in a
//! mandatory tag. Rendering is a pure recursive descent; a leaf without a
//! tag passes its text through verbatim, and attribute collections render in
//! their canonical key-sorted form.

use vstd::prelude::*;

use crate::attributes::spec_attrs_html;
use crate::attributes::HTMLAttributes;

verus! {

/// An HTML element without children: a tag, its text, and its attributes.
/// A missing tag means the text renders verbatim.
#[derive(Debug, PartialEq)]
pub struct LeafNode {
    pub tag: Option<String>,
    pub value: String,
    pub attributes: Option<HTMLAttributes>,
}

/// An HTML element wrapping an ordered run of child nodes. The tag is
/// mandatory: a parent always produces a wrapping element.
#[derive(Debug, PartialEq)]
pub struct ParentNode {
    pub tag: String,
    pub children: Vec<HTMLChildNode>,
    pub attributes: Option<HTMLAttributes>,
}

/// One node of an HTML tree: the closed set of node kinds.
#[derive(Debug, PartialEq)]
pub enum HTMLChildNode {
    Leaf(LeafNode),
    Parent(ParentNode),
}

/// The opening tag `<t>`, or `<t ATTRS>` when attributes are present.
pub open spec fn spec_open_tag(tag: Seq<char>, attributes: Option<HTMLAttributes>) -> Seq<char> {
    match attributes {
        None => seq!['<'] + tag + seq!['>'],
        Some(a) => seq!['<'] + tag + seq![' '] + spec_attrs_html(a@) + seq!['>'],
    }
}

/// The closing tag `</t>`.
pub open spec fn spec_close_tag(tag: Seq<char>) -> Seq<char> {
    seq!['<', '/'] + tag + seq!['>']
}

/// What a leaf renders to: its text alone when it has no tag, the text
/// wrapped in the tag otherwise.
pub open spec fn spec_leaf_html(l: LeafNode) -> Seq<char> {
    match l.tag {
        None => l.value@,
        Some(t) => spec_open_tag(t@, l.attributes) + l.value@ + spec_close_tag(t@),
    }
}

/// What a node renders to.
pub open spec fn spec_child_html(n: HTMLChildNode) -> Seq<char>
    decreases n,
{
    match n {
        HTMLChildNode::Leaf(l) => spec_leaf_html(l),
        HTMLChildNode::Parent(p) => spec_parent_html(p),
    }
}

/// What a parent renders to: the opening tag, every child in order with no
/// separator, and the matching closing tag.
pub open spec fn spec_parent_html(p: ParentNode) -> Seq<char>
    decreases p,
{
    spec_open_tag(p.tag@, p.attributes) + spec_children_html(p.children@) + spec_close_tag(p.tag@)
}

/// The concatenation of the renderings of a run of nodes.
pub open spec fn spec_children_html(s: Seq<HTMLChildNode>) -> Seq<char>
    decreases s,
{
    if s.len() == 0 {
        Seq::empty()
    } else {
        spec_children_html(s.drop_last()) + spec_child_html(s.last())
    }
}

/// The capability of serializing to an HTML string.
pub trait ToHtmlString {
    /// The string this node serializes to.
    spec fn spec_html(&self) -> Seq<char>;

    /// Serializes to an HTML string.
    fn into_html(&self) -> (r: String)
        ensures
            r@ == self.spec_html(),
    ;
}

/// Renders a leaf: text alone without a tag, wrapped text otherwise.
fn render_leaf(l: &LeafNode) -> (r: String)
    ensures
        r@ == spec_leaf_html(*l),
{
    match &l.tag {
        None => l.value.clone(),
        Some(t) => {
            let mut out = String::new();
            out.append("<");
            out.append(t.as_str());
            match &l.attributes {
                Some(a) => {
                    out.append(" ");
                    let ah = a.to_html();
                    out.append(ah.as_str());
                },
                None => {},
            }
            out.append(">");
            out.append(l.value.as_str());
            out.append("</");
            out.append(t.as_str());
            out.append(">");
            proof {
                reveal_strlit("<");
                reveal_strlit(">");
                reveal_strlit(" ");
                reveal_strlit("</");
                assert("<"@ =~= seq!['<']);
                assert(">"@ =~= seq!['>']);
                assert(" "@ =~= seq![' ']);
                assert("</"@ =~= seq!['<', '/']);
                assert(out@ =~= spec_leaf_html(*l));
            }
            out
        },
    }
}

/// Renders one node of either kind.
fn render_child(n: &HTMLChildNode) -> (r: String)
    ensures
        r@ == spec_child_html(*n),
    decreases *n,
{
    match n {
        HTMLChildNode::Leaf(l) => render_leaf(l),
        HTMLChildNode::Parent(p) => render_parent(p),
    }
}

/// Renders a parent: opening tag, children in order, closing tag.
fn render_parent(p: &ParentNode) -> (r: String)
    ensures
        r@ == spec_parent_html(*p),
    decreases *p,
{
    let mut out = String::new();
    out.append("<");
    out.append(p.tag.as_str());
    match &p.attributes {
        Some(a) => {
            out.append(" ");
            let ah = a.to_html();
            out.append(ah.as_str());
        },
        None => {},
    }
    out.append(">");
    proof {
        reveal_strlit("<");
        reveal_strlit(">");
        reveal_strlit(" ");
        assert("<"@ =~= seq!['<']);
        assert(">"@ =~= seq!['>']);
        assert(" "@ =~= seq![' ']);
        assert(out@ =~= spec_open_tag(p.tag@, p.attributes));
        assert(p.children@.take(0) =~= Seq::<HTMLChildNode>::empty());
    }
    let ghost open_s = out@;
    let mut i: usize = 0;
    while i < p.children.len()
        invariant
            i <= p.children@.len(),
            open_s == spec_open_tag(p.tag@, p.attributes),
            out@ == open_s + spec_children_html(p.children@.take(i as int)),
        decreases p.children@.len() - i,
    {
        proof {
            assert(decreases_to!(*p => p.children@[i as int]));
        }
        let cs = render_child(&p.children[i]);
        out.append(cs.as_str());
        proof {
            let t = p.children@.take(i + 1);
            assert(t.drop_last() =~= p.children@.take(i as int));
            assert(t.last() == p.children@[i as int]);
            assert(out@ =~= open_s + spec_children_html(t));
        }
        i += 1;
    }
    proof {
        assert(p.children@.take(p.children@.len() as int) =~= p.children@);
    }
    out.append("</");
    out.append(p.tag.as_str());
    out.append(">");
    proof {
        reveal_strlit("</");
        reveal_strlit(">");
        assert("</"@ =~= seq!['<', '/']);
        assert(out@ =~= spec_parent_html(*p));
    }
    out
}

impl ToHtmlString for LeafNode {
    open spec fn spec_html(&self) -> Seq<char> {
        spec_leaf_html(*self)
    }

    fn into_html(&self) -> (r: String) {
        render_leaf(self)
    }
}

impl ToHtmlString for ParentNode {
    open spec fn spec_html(&self) -> Seq<char> {
        spec_parent_html(*self)
    }

    fn into_html(&self) -> (r: String) {
        render_parent(self)
    }
}

impl ToHtmlString for HTMLChildNode {
    open spec fn spec_html(&self) -> Seq<char> {
        spec_child_html(*self)
    }

    fn into_html(&self) -> (r: String) {
        render_child(self)
    }
}

} // verus!
