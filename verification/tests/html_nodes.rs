use inline_html::attributes::HTMLAttributes;
use inline_html::nodes::HTMLChildNode;
use inline_html::nodes::LeafNode;
use inline_html::nodes::ParentNode;
use inline_html::nodes::ToHtmlString;

fn attrs(pairs: &[(&str, &str)]) -> HTMLAttributes {
    let mut a = HTMLAttributes::new();
    for (k, v) in pairs {
        a.insert(String::from(*k), String::from(*v));
    }
    a
}

#[test]
fn html_node_test_html_attribute_to_string() {
    let test_cases = vec![
        (
            "Test One Attribute to html string",
            attrs(&[("href", "https://www.google.com"), ("target", "_blank")]),
            String::from("href=\"https://www.google.com\" target=\"_blank\""),
        ),
        (
            "Test multiple attributes to html string",
            attrs(&[("href", "https://www.google.com")]),
            String::from("href=\"https://www.google.com\""),
        ),
    ];

    for (title, value, expected) in test_cases.iter() {
        assert_eq!(
            &value.to_html(),
            expected,
            "\"{}\" test failed for input: {:?} and expexted: {}",
            title,
            value,
            expected
        );
    }
}

fn sample_children() -> Vec<HTMLChildNode> {
    vec![
        HTMLChildNode::Leaf(LeafNode {
            tag: Some(String::from("b")),
            value: String::from("Bold text"),
            attributes: None,
        }),
        HTMLChildNode::Leaf(LeafNode {
            tag: None,
            value: String::from("Normal text"),
            attributes: None,
        }),
        HTMLChildNode::Leaf(LeafNode {
            tag: Some(String::from("i")),
            value: String::from("italic text"),
            attributes: None,
        }),
        HTMLChildNode::Leaf(LeafNode {
            tag: None,
            value: String::from("Normal text"),
            attributes: None,
        }),
    ]
}

fn parent_node_cases() -> Vec<(&'static str, ParentNode, String)> {
    vec![
        (
            "Test parent with no attr to html string",
            ParentNode {
                tag: String::from("p"),
                children: sample_children(),
                attributes: None,
            },
            String::from("<p><b>Bold text</b>Normal text<i>italic text</i>Normal text</p>"),
        ),
        (
            "Test parent with attributes to html string",
            ParentNode {
                tag: String::from("a"),
                children: sample_children(),
                attributes: Some(attrs(&[
                    ("href", "https://www.google.com"),
                    ("target", "_blank"),
                ])),
            },
            String::from(
                "<a href=\"https://www.google.com\" target=\"_blank\"><b>Bold text</b>Normal text<i>italic text</i>Normal text</a>",
            ),
        ),
        (
            "Test parent with parent to html string",
            ParentNode {
                tag: String::from("p"),
                children: vec![
                    HTMLChildNode::Leaf(LeafNode {
                        tag: Some(String::from("b")),
                        value: String::from("Bold text"),
                        attributes: None,
                    }),
                    HTMLChildNode::Parent(ParentNode {
                        tag: String::from("a"),
                        children: vec![HTMLChildNode::Leaf(LeafNode {
                            tag: None,
                            value: String::from("Anchor text"),
                            attributes: None,
                        })],
                        attributes: Some(attrs(&[
                            ("href", "https://www.google.com"),
                            ("target", "_blank"),
                        ])),
                    }),
                    HTMLChildNode::Leaf(LeafNode {
                        tag: Some(String::from("i")),
                        value: String::from("italic text"),
                        attributes: None,
                    }),
                    HTMLChildNode::Leaf(LeafNode {
                        tag: None,
                        value: String::from("Normal text"),
                        attributes: None,
                    }),
                ],
                attributes: None,
            },
            String::from(
                "<p><b>Bold text</b><a href=\"https://www.google.com\" target=\"_blank\">Anchor text</a><i>italic text</i>Normal text</p>",
            ),
        ),
    ]
}

#[test]
fn html_node_test_parent_node_to_html() {
    for (title, input, expected) in parent_node_cases().iter() {
        assert_eq!(
            &input.into_html(),
            expected,
            "\"{}\" test failed for input: {:?} and expexted: {}",
            title,
            input,
            expected
        );
    }
}

#[test]
fn parent_node_test_parent_node_to_html() {
    for (title, input, expected) in parent_node_cases().iter() {
        assert_eq!(
            &input.into_html(),
            expected,
            "\"{}\" test failed for input: {:?} and expexted: {}",
            title,
            input,
            expected
        );
    }
}

fn leaf_node_cases() -> Vec<(&'static str, LeafNode, String)> {
    vec![
        (
            "Test Leaf Node with a tag",
            LeafNode {
                tag: Some(String::from("p")),
                value: String::from("This is a paragraph of text."),
                attributes: None,
            },
            String::from("<p>This is a paragraph of text.</p>"),
        ),
        (
            "Test Leaf Node without a tag",
            LeafNode {
                tag: None,
                value: String::from("This is plain text."),
                attributes: None,
            },
            String::from("This is plain text."),
        ),
        (
            "Test Leaf Node with tag and attributes",
            LeafNode {
                tag: Some(String::from("a")),
                value: String::from("Click me!"),
                attributes: Some(attrs(&[
                    ("href", "https://www.google.com"),
                    ("target", "_blank"),
                ])),
            },
            String::from("<a href=\"https://www.google.com\" target=\"_blank\">Click me!</a>"),
        ),
    ]
}

#[test]
fn leaf_node_test_new_leaf_node() {}

#[test]
fn leaf_node_test_leaf_node_to_html() {
    for (title, input, expected) in leaf_node_cases().iter() {
        assert_eq!(
            &input.into_html(),
            expected,
            "\"{}\" test failed for input: {:?} and expexted: {}",
            title,
            input,
            expected
        );
    }
}

#[test]
fn html_nodes_test_html_attribute_to_string() {
    let test_cases = vec![
        (
            "Test One Attribute to html string",
            attrs(&[("href", "https://www.google.com"), ("target", "_blank")]),
            String::from("href=\"https://www.google.com\" target=\"_blank\""),
        ),
        (
            "Test multiple attributes to html string",
            attrs(&[("href", "https://www.google.com")]),
            String::from("href=\"https://www.google.com\""),
        ),
    ];

    for (title, value, expected) in test_cases.iter() {
        assert_eq!(
            &value.to_html(),
            expected,
            "\"{}\" test failed for input: {:?} and expexted: {}",
            title,
            value,
            expected
        );
    }
}

#[test]
fn html_nodes_test_new_leaf_node() {}

#[test]
fn html_nodes_test_leaf_node_to_html() {
    for (title, input, expected) in leaf_node_cases().iter() {
        assert_eq!(
            &input.into_html(),
            expected,
            "\"{}\" test failed for input: {:?} and expexted: {}",
            title,
            input,
            expected
        );
    }
}
