//! Typed text spans and their lowering to HTML leaf nodes.
//!
//! A text span is a contiguous run of inline text tagged with one style.
//! Each style lowers to exactly one leaf node: a fixed tag, the span's text,
//! and for links and images an attribute collection built from the span's
//! destination.

use vstd::prelude::*;

use crate::attributes::HTMLAttributes;
use crate::nodes::LeafNode;

verus! {

/// The closed set of text styles. The delimited styles are found by the
/// tokenizer; links and images are constructed directly by callers.
#[derive(Debug, PartialEq, Eq, Clone, Copy)]
pub enum TextType {
    Normal,
    Bold,
    Italic,
    Code,
    Link,
    Image,
}

/// A parsing rule: the style it produces and the delimiter markers that
/// open and close a span of that style, tried in listed order.
#[derive(Debug, PartialEq)]
pub struct MarkdownDelimiter {
    pub name: TextType,
    pub delimiters: Vec<String>,
}

/// The character sequences of a run of marker strings.
pub open spec fn marker_views(delimiters: Seq<String>) -> Seq<Seq<char>> {
    delimiters.map_values(|s: String| s@)
}

/// Every marker in the run is a nonempty string.
pub open spec fn delimiters_wf(delimiters: Seq<String>) -> bool {
    forall|i: int| 0 <= i < delimiters.len() ==> (#[trigger] delimiters[i])@.len() > 0
}

impl MarkdownDelimiter {
    /// Every marker is a nonempty string.
    pub open spec fn wf(&self) -> bool {
        delimiters_wf(self.delimiters@)
    }
}

impl TextType {
    /// The delimiter rule of this style, or `None` for the styles that no
    /// delimiter introduces.
    pub fn get_delimiter(&self) -> (r: Option<MarkdownDelimiter>)
        ensures
            match *self {
                TextType::Bold => r matches Some(d) && d.name == TextType::Bold && d.wf()
                    && marker_views(d.delimiters@) =~= seq!["**"@, "__"@],
                TextType::Italic => r matches Some(d) && d.name == TextType::Italic && d.wf()
                    && marker_views(d.delimiters@) =~= seq!["*"@, "_"@],
                TextType::Code => r matches Some(d) && d.name == TextType::Code && d.wf()
                    && marker_views(d.delimiters@) =~= seq!["`"@],
                _ => r is None,
            },
    {
        match self {
            TextType::Bold => {
                let d = MarkdownDelimiter {
                    name: TextType::Bold,
                    delimiters: vec!["**".to_owned(), "__".to_owned()],
                };
                proof {
                    reveal_strlit("**");
                    reveal_strlit("__");
                }
                Some(d)
            },
            TextType::Italic => {
                let d = MarkdownDelimiter {
                    name: TextType::Italic,
                    delimiters: vec!["*".to_owned(), "_".to_owned()],
                };
                proof {
                    reveal_strlit("*");
                    reveal_strlit("_");
                }
                Some(d)
            },
            TextType::Code => {
                let d = MarkdownDelimiter {
                    name: TextType::Code,
                    delimiters: vec!["`".to_owned()],
                };
                proof {
                    reveal_strlit("`");
                }
                Some(d)
            },
            _ => None,
        }
    }
}

/// A text span: its text, its style, and for links and images the
/// destination URL.
#[derive(Debug, PartialEq, Clone)]
pub struct TextNode {
    pub content: String,
    pub text_type: TextType,
    pub url: Option<String>,
}

/// The abstract content of a text span.
pub ghost struct SpanView {
    pub content: Seq<char>,
    pub text_type: TextType,
    pub url: Option<Seq<char>>,
}

impl View for TextNode {
    type V = SpanView;

    open spec fn view(&self) -> SpanView {
        SpanView {
            content: self.content@,
            text_type: self.text_type,
            url: match self.url {
                None => None,
                Some(u) => Some(u@),
            },
        }
    }
}

/// The destination of a span, with a missing one read as the empty string.
pub open spec fn spec_url_of(n: TextNode) -> Seq<char> {
    match n.url {
        None => Seq::empty(),
        Some(u) => u@,
    }
}

/// The lowering table: which leaf each style produces. Links carry their
/// destination as `href`; images move their text into `alt` and render an
/// empty body.
pub open spec fn spec_lowered(n: TextNode, l: LeafNode) -> bool {
    match n.text_type {
        TextType::Normal => l.tag is None && l.value@ == n.content@ && l.attributes is None,
        TextType::Bold => (l.tag matches Some(t) && t@ == "b"@) && l.value@ == n.content@
            && l.attributes is None,
        TextType::Italic => (l.tag matches Some(t) && t@ == "i"@) && l.value@ == n.content@
            && l.attributes is None,
        TextType::Code => (l.tag matches Some(t) && t@ == "code"@) && l.value@ == n.content@
            && l.attributes is None,
        TextType::Link => (l.tag matches Some(t) && t@ == "a"@) && l.value@ == n.content@ && (
        l.attributes matches Some(a) && a.wf() && a.to_map() == Map::<Seq<char>, Seq<char>>::empty()
            .insert("href"@, spec_url_of(n))),
        TextType::Image => (l.tag matches Some(t) && t@ == "img"@) && l.value@ == Seq::<
            char,
        >::empty() && (l.attributes matches Some(a) && a.wf() && a.to_map() == Map::<
            Seq<char>,
            Seq<char>,
        >::empty().insert("href"@, spec_url_of(n)).insert("alt"@, n.content@)),
    }
}

impl TextNode {
    /// Lowers this span to its leaf node, following the lowering table.
    pub fn into_html_node(&self) -> (r: LeafNode)
        ensures
            spec_lowered(*self, r),
    {
        match self.text_type {
            TextType::Normal => LeafNode {
                tag: None,
                value: self.content.clone(),
                attributes: None,
            },
            TextType::Bold => LeafNode {
                tag: Some("b".to_owned()),
                value: self.content.clone(),
                attributes: None,
            },
            TextType::Italic => LeafNode {
                tag: Some("i".to_owned()),
                value: self.content.clone(),
                attributes: None,
            },
            TextType::Code => LeafNode {
                tag: Some("code".to_owned()),
                value: self.content.clone(),
                attributes: None,
            },
            TextType::Link => {
                let url = match &self.url {
                    Some(u) => u.clone(),
                    None => String::new(),
                };
                let mut attrs = HTMLAttributes::new();
                attrs.insert("href".to_owned(), url);
                LeafNode {
                    tag: Some("a".to_owned()),
                    value: self.content.clone(),
                    attributes: Some(attrs),
                }
            },
            TextType::Image => {
                let url = match &self.url {
                    Some(u) => u.clone(),
                    None => String::new(),
                };
                let mut attrs = HTMLAttributes::new();
                attrs.insert("href".to_owned(), url);
                attrs.insert("alt".to_owned(), self.content.clone());
                LeafNode {
                    tag: Some("img".to_owned()),
                    value: String::new(),
                    attributes: Some(attrs),
                }
            },
        }
    }
}

} // verus!

