use inline_html::text::MarkdownDelimiter;
use inline_html::text::TextNode;
use inline_html::text::TextType;
use inline_html::tokenizer::tokenize;

fn plain(s: &str) -> TextNode {
    TextNode {
        content: String::from(s),
        text_type: TextType::Normal,
        url: None,
    }
}

fn styled(s: &str, style: TextType) -> TextNode {
    TextNode {
        content: String::from(s),
        text_type: style,
        url: None,
    }
}

fn rule(style: TextType) -> MarkdownDelimiter {
    style.get_delimiter().unwrap()
}

#[test]
fn tokenize_bold_pair() {
    let spans = tokenize("Hello **world**", &vec![rule(TextType::Bold)]);
    assert_eq!(
        spans,
        vec![plain("Hello "), styled("world", TextType::Bold)]
    );
}

#[test]
fn tokenize_two_italic_pairs() {
    let spans = tokenize("a *b* c *d*", &vec![rule(TextType::Italic)]);
    assert_eq!(
        spans,
        vec![
            plain("a "),
            styled("b", TextType::Italic),
            plain(" c "),
            styled("d", TextType::Italic),
        ]
    );
}

#[test]
fn tokenize_unbalanced_marker_stays_literal() {
    let spans = tokenize("a **b", &vec![rule(TextType::Bold)]);
    assert_eq!(spans, vec![plain("a **b")]);
}

#[test]
fn tokenize_without_markers_is_one_plain_span() {
    let rules = vec![
        rule(TextType::Bold),
        rule(TextType::Italic),
        rule(TextType::Code),
    ];
    let spans = tokenize("nothing to split here", &rules);
    assert_eq!(spans, vec![plain("nothing to split here")]);
}

#[test]
fn tokenize_empty_text_yields_no_spans() {
    let rules = vec![rule(TextType::Bold)];
    let spans = tokenize("", &rules);
    assert_eq!(spans, Vec::<TextNode>::new());
}

#[test]
fn tokenize_adjacent_markers_keep_empty_styled_span() {
    let spans = tokenize("****", &vec![rule(TextType::Bold)]);
    assert_eq!(spans, vec![styled("", TextType::Bold)]);
}

#[test]
fn tokenize_second_listed_marker() {
    let spans = tokenize("__deep__ end", &vec![rule(TextType::Bold)]);
    assert_eq!(
        spans,
        vec![styled("deep", TextType::Bold), plain(" end")]
    );
}

#[test]
fn tokenize_applies_rules_in_order() {
    let rules = vec![
        rule(TextType::Bold),
        rule(TextType::Italic),
        rule(TextType::Code),
    ];
    let spans = tokenize("see **bold**, *lean*, and `code`", &rules);
    assert_eq!(
        spans,
        vec![
            plain("see "),
            styled("bold", TextType::Bold),
            plain(", "),
            styled("lean", TextType::Italic),
            plain(", and "),
            styled("code", TextType::Code),
        ]
    );
}

#[test]
fn tokenize_round_trip_drops_only_markers() {
    let rules = vec![rule(TextType::Bold), rule(TextType::Italic)];
    let spans = tokenize("x **y** *z* tail", &rules);
    let joined: String = spans.iter().map(|s| s.content.as_str()).collect::<Vec<_>>().join("");
    assert_eq!(joined, "x y z tail");
}

#[test]
fn split_node_on_delimiter_passes_styled_nodes_through() {
    let node = styled("kept **as is**", TextType::Code);
    let out = node.split_node_on_delimiter(&rule(TextType::Bold));
    assert_eq!(out, vec![styled("kept **as is**", TextType::Code)]);
}

#[test]
fn split_node_on_delimiter_splits_plain_nodes() {
    let node = plain("a `b` c");
    let out = node.split_node_on_delimiter(&rule(TextType::Code));
    assert_eq!(
        out,
        vec![plain("a "), styled("b", TextType::Code), plain(" c")]
    );
}

#[test]
fn get_delimiter_covers_every_style() {
    let bold = rule(TextType::Bold);
    assert_eq!(bold.name, TextType::Bold);
    assert_eq!(bold.delimiters, vec![String::from("**"), String::from("__")]);
    let italic = rule(TextType::Italic);
    assert_eq!(italic.name, TextType::Italic);
    assert_eq!(italic.delimiters, vec![String::from("*"), String::from("_")]);
    let code = rule(TextType::Code);
    assert_eq!(code.name, TextType::Code);
    assert_eq!(code.delimiters, vec![String::from("`")]);
    assert_eq!(TextType::Normal.get_delimiter(), None);
    assert_eq!(TextType::Link.get_delimiter(), None);
    assert_eq!(TextType::Image.get_delimiter(), None);
}
