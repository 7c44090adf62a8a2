use inline_html::attributes::HTMLAttributes;
use inline_html::nodes::LeafNode;
use inline_html::text::TextNode;
use inline_html::text::TextType;

fn attrs(pairs: &[(&str, &str)]) -> HTMLAttributes {
    let mut a = HTMLAttributes::new();
    for (k, v) in pairs {
        a.insert(String::from(*k), String::from(*v));
    }
    a
}

#[test]
fn test_text_node_into_html_node() {
    let test_cases = vec![
        (
            "Test normal text text node type",
            TextNode {
                content: String::from("Normal Text Type"),
                text_type: TextType::Normal,
                url: None,
            },
            LeafNode {
                tag: None,
                value: String::from("Normal Text Type"),
                attributes: None,
            },
        ),
        (
            "Test bold text node type",
            TextNode {
                content: String::from("Bold Text Type"),
                text_type: TextType::Bold,
                url: None,
            },
            LeafNode {
                tag: Some(String::from("b")),
                value: String::from("Bold Text Type"),
                attributes: None,
            },
        ),
        (
            "Test italic text node type",
            TextNode {
                content: String::from("Italic Text Type"),
                text_type: TextType::Italic,
                url: None,
            },
            LeafNode {
                tag: Some(String::from("i")),
                value: String::from("Italic Text Type"),
                attributes: None,
            },
        ),
        (
            "Test code node type",
            TextNode {
                content: String::from("const code = \"foo\""),
                text_type: TextType::Code,
                url: None,
            },
            LeafNode {
                tag: Some(String::from("code")),
                value: String::from("const code = \"foo\""),
                attributes: None,
            },
        ),
        (
            "Test anchor node type",
            TextNode {
                content: String::from("About Us"),
                text_type: TextType::Link,
                url: Some(String::from("https://google.com")),
            },
            LeafNode {
                tag: Some(String::from("a")),
                value: String::from("About Us"),
                attributes: Some(attrs(&[("href", "https://google.com")])),
            },
        ),
        (
            "Test image node type",
            TextNode {
                content: String::from("Two kittens playing with yarn"),
                text_type: TextType::Image,
                url: Some(String::from("https://placeholder.cdn.com")),
            },
            LeafNode {
                tag: Some(String::from("img")),
                value: String::from(""),
                attributes: Some(attrs(&[
                    ("href", "https://placeholder.cdn.com"),
                    ("alt", "Two kittens playing with yarn"),
                ])),
            },
        ),
    ];

    for (title, input, expected) in test_cases.iter() {
        assert_eq!(
            &input.into_html_node(),
            expected,
            "\"{}\" test failed for input: {:?} and expexted: {:?}",
            title,
            input,
            expected
        );
    }
}

#[test]
fn parse_deliminator() {}
