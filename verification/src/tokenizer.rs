//! The inline delimiter tokenizer.
//!
//! Given raw text and an ordered run of delimiter rules, the tokenizer
//! splits the text into typed spans. One rule at a time, each span still
//! tagged `Normal` is scanned with the first listed marker of the rule that
//! occurs in it; marker occurrences are paired up strictly in document
//! order, each pair yielding the text before the opening marker, a styled
//! span of the text strictly between the markers, and a remainder that is
//! scanned again. Malformed input never fails: a final unmatched marker
//! stays as literal text in the last `Normal` span.

use vstd::prelude::*;

use crate::text::delimiters_wf;
use crate::text::marker_views;
use crate::text::MarkdownDelimiter;
use crate::text::SpanView;
use crate::text::TextNode;
use crate::text::TextType;

verus! {

/// Marker `m` occurs in `s` at position `i`.
pub open spec fn marker_at(s: Seq<char>, m: Seq<char>, i: int) -> bool {
    &&& 0 <= i
    &&& i + m.len() <= s.len()
    &&& s.subrange(i, i + m.len() as int) == m
}

/// The first position at or after `i` where the nonempty marker `m` occurs
/// in `s`, if any.
pub open spec fn spec_find(s: Seq<char>, m: Seq<char>, i: int) -> Option<int>
    decreases s.len() - i,
{
    if m.len() == 0 || i + m.len() > s.len() {
        None
    } else if marker_at(s, m, i) {
        Some(i)
    } else {
        spec_find(s, m, i + 1)
    }
}

/// The index of the first listed marker at or after index `k` that occurs
/// in `s`, if any.
pub open spec fn spec_pick_from(s: Seq<char>, markers: Seq<Seq<char>>, k: int) -> Option<int>
    decreases markers.len() - k,
{
    if !(0 <= k < markers.len()) {
        None
    } else if spec_find(s, markers[k], 0) is Some {
        Some(k)
    } else {
        spec_pick_from(s, markers, k + 1)
    }
}

/// A span of plain text.
pub open spec fn spec_plain(content: Seq<char>) -> SpanView {
    SpanView { content, text_type: TextType::Normal, url: None }
}

/// A styled span.
pub open spec fn spec_styled(content: Seq<char>, style: TextType) -> SpanView {
    SpanView { content, text_type: style, url: None }
}

/// Splitting one run of plain text with one rule. The first listed marker
/// that occurs is chosen; its occurrences are paired in document order. A
/// pair yields the text before the opening marker (when nonempty), a styled
/// span of the text strictly between the markers, and the split remainder.
/// Text without a matched pair stays as one plain span, a final unmatched
/// marker included.
pub open spec fn spec_split(content: Seq<char>, style: TextType, markers: Seq<Seq<char>>) -> Seq<
    SpanView,
>
    decreases content.len(),
{
    match spec_pick_from(content, markers, 0) {
        None => seq![spec_plain(content)],
        Some(k) => {
            let m = markers[k];
            match spec_find(content, m, 0) {
                None => seq![spec_plain(content)],
                Some(i) => match spec_find(content, m, i + m.len()) {
                    None => seq![spec_plain(content)],
                    Some(j) => {
                        let before = content.subrange(0, i);
                        let inner = content.subrange(i + m.len(), j);
                        let rest = content.subrange(j + m.len(), content.len() as int);
                        let head = if before.len() > 0 {
                            seq![spec_plain(before)]
                        } else {
                            Seq::empty()
                        };
                        let tail = if rest.len() > 0 && rest.len() < content.len() {
                            spec_split(rest, style, markers)
                        } else {
                            Seq::empty()
                        };
                        head + seq![spec_styled(inner, style)] + tail
                    },
                },
            }
        },
    }
}

/// Splitting one span: plain spans are split by the rule, styled spans pass
/// through untouched.
pub open spec fn spec_split_span(span: SpanView, style: TextType, markers: Seq<Seq<char>>) -> Seq<
    SpanView,
> {
    if span.text_type == TextType::Normal {
        spec_split(span.content, style, markers)
    } else {
        seq![span]
    }
}

/// Applying one rule to every span of an accumulated run, in order.
pub open spec fn spec_apply_rule(
    spans: Seq<SpanView>,
    style: TextType,
    markers: Seq<Seq<char>>,
) -> Seq<SpanView>
    decreases spans.len(),
{
    if spans.len() == 0 {
        Seq::empty()
    } else {
        spec_apply_rule(spans.drop_last(), style, markers) + spec_split_span(
            spans.last(),
            style,
            markers,
        )
    }
}

/// Applying a run of rules, one after the other.
pub open spec fn spec_apply_rules(spans: Seq<SpanView>, rules: Seq<MarkdownDelimiter>) -> Seq<
    SpanView,
>
    decreases rules.len(),
{
    if rules.len() == 0 {
        spans
    } else {
        spec_apply_rules(
            spec_apply_rule(spans, rules[0].name, marker_views(rules[0].delimiters@)),
            rules.drop_first(),
        )
    }
}

/// The whole tokenization: empty text yields no spans; otherwise the text
/// starts as one plain span and every rule is applied in order.
pub open spec fn spec_tokenize(text: Seq<char>, rules: Seq<MarkdownDelimiter>) -> Seq<SpanView> {
    if text.len() == 0 {
        Seq::empty()
    } else {
        spec_apply_rules(seq![spec_plain(text)], rules)
    }
}

/// The abstract contents of a run of text spans.
pub open spec fn span_views(spans: Seq<TextNode>) -> Seq<SpanView> {
    spans.map_values(|t: TextNode| t@)
}

/// Every rule in the run has only nonempty markers.
pub open spec fn rules_wf(rules: Seq<MarkdownDelimiter>) -> bool {
    forall|i: int| 0 <= i < rules.len() ==> (#[trigger] rules[i]).wf()
}

/// No listed marker occurs, so none is picked.
pub proof fn lemma_pick_from_none(s: Seq<char>, markers: Seq<Seq<char>>, k: int)
    requires
        forall|j: int| 0 <= j < markers.len() ==> spec_find(s, #[trigger] markers[j], 0) is None,
    ensures
        spec_pick_from(s, markers, k) is None,
    decreases markers.len() - k,
{
    if 0 <= k < markers.len() {
        lemma_pick_from_none(s, markers, k + 1);
    }
}

/// The contents of a single span are its content.
pub proof fn lemma_contents_singleton(v: SpanView)
    ensures
        spec_contents(seq![v]) == v.content,
{
    let one = seq![v];
    assert(one.drop_last() =~= Seq::<SpanView>::empty());
    assert(spec_contents(Seq::<SpanView>::empty()) == Seq::<char>::empty());
    assert(spec_contents(one) =~= v.content);
}

/// Applying a rule to a single span splits just that span.
pub proof fn lemma_apply_rule_singleton(v: SpanView, style: TextType, markers: Seq<Seq<char>>)
    ensures
        spec_apply_rule(seq![v], style, markers) == spec_split_span(v, style, markers),
{
    let one = seq![v];
    assert(one.drop_last() =~= Seq::<SpanView>::empty());
    assert(spec_apply_rule(Seq::<SpanView>::empty(), style, markers) == Seq::<SpanView>::empty());
    assert(spec_apply_rule(one, style, markers) =~= spec_split_span(v, style, markers));
}

/// Stripping a run of one span strips just that span.
pub proof fn lemma_strip_spans_singleton(v: SpanView, markers: Seq<Seq<char>>)
    ensures
        spec_strip_spans(seq![v], markers) == (if v.text_type == TextType::Normal {
            spec_strip(v.content, markers)
        } else {
            v.content
        }),
{
    let one = seq![v];
    assert(one.drop_last() =~= Seq::<SpanView>::empty());
    assert(spec_strip_spans(Seq::<SpanView>::empty(), markers) == Seq::<char>::empty());
    assert(spec_strip_spans(one, markers) =~= (if v.text_type == TextType::Normal {
        spec_strip(v.content, markers)
    } else {
        v.content
    }));
}

/// Text in which no marker of any rule occurs tokenizes to a single plain
/// span equal to the input.
pub proof fn lemma_tokenize_without_markers(text: Seq<char>, rules: Seq<MarkdownDelimiter>)
    requires
        text.len() > 0,
        forall|i: int, j: int|
            0 <= i < rules.len() && 0 <= j < rules[i].delimiters@.len() ==> spec_find(
                text,
                (#[trigger] rules[i].delimiters@[j])@,
                0,
            ) is None,
    ensures
        spec_tokenize(text, rules) == seq![spec_plain(text)],
    decreases rules.len(),
{
    let one = seq![spec_plain(text)];
    if rules.len() == 0 {
    } else {
        let ms = marker_views(rules[0].delimiters@);
        assert forall|j: int| 0 <= j < ms.len() implies spec_find(text, #[trigger] ms[j], 0)
            is None by {
            assert(ms[j] == rules[0].delimiters@[j]@);
        };
        lemma_pick_from_none(text, ms, 0);
        assert(spec_split(text, rules[0].name, ms) == one);
        lemma_apply_rule_singleton(spec_plain(text), rules[0].name, ms);
        assert(spec_apply_rule(one, rules[0].name, ms) == one);
        assert forall|i: int, j: int|
            0 <= i < rules.drop_first().len() && 0 <= j
                < rules.drop_first()[i].delimiters@.len() implies spec_find(
            text,
            (#[trigger] rules.drop_first()[i].delimiters@[j])@,
            0,
        ) is None by {
            assert(rules.drop_first()[i] == rules[i + 1]);
        };
        lemma_tokenize_without_markers(text, rules.drop_first());
        assert(spec_apply_rules(one, rules) == spec_apply_rules(
            spec_apply_rule(one, rules[0].name, ms),
            rules.drop_first(),
        ));
    }
}

/// The concatenated contents of a run of spans.
pub open spec fn spec_contents(spans: Seq<SpanView>) -> Seq<char>
    decreases spans.len(),
{
    if spans.len() == 0 {
        Seq::empty()
    } else {
        spec_contents(spans.drop_last()) + spans.last().content
    }
}

/// Contents concatenate over runs of spans.
pub proof fn lemma_contents_concat(a: Seq<SpanView>, b: Seq<SpanView>)
    ensures
        spec_contents(a + b) == spec_contents(a) + spec_contents(b),
    decreases b.len(),
{
    if b.len() == 0 {
        assert(a + b =~= a);
        assert(spec_contents(a) + spec_contents(b) =~= spec_contents(a));
    } else {
        assert((a + b).drop_last() =~= a + b.drop_last());
        assert((a + b).last() == b.last());
        lemma_contents_concat(a, b.drop_last());
        assert(spec_contents(a) + spec_contents(b.drop_last()) + b.last().content =~= spec_contents(
            a,
        ) + (spec_contents(b.drop_last()) + b.last().content));
    }
}

/// The text with each matched pair of delimiter markers deleted, pairing
/// occurrences the same way the splitter does.
pub open spec fn spec_strip(content: Seq<char>, markers: Seq<Seq<char>>) -> Seq<char>
    decreases content.len(),
{
    match spec_pick_from(content, markers, 0) {
        None => content,
        Some(k) => {
            let m = markers[k];
            match spec_find(content, m, 0) {
                None => content,
                Some(i) => match spec_find(content, m, i + m.len()) {
                    None => content,
                    Some(j) => {
                        let before = content.subrange(0, i);
                        let inner = content.subrange(i + m.len(), j);
                        let rest = content.subrange(j + m.len(), content.len() as int);
                        before + inner + (if rest.len() > 0 && rest.len() < content.len() {
                            spec_strip(rest, markers)
                        } else {
                            Seq::empty()
                        })
                    },
                },
            }
        },
    }
}

/// Round trip of one splitting pass: concatenating the contents of the
/// spans the splitter returns reconstructs the text with the matched
/// delimiter markers removed.
pub proof fn lemma_split_round_trip(content: Seq<char>, style: TextType, markers: Seq<Seq<char>>)
    ensures
        spec_contents(spec_split(content, style, markers)) == spec_strip(content, markers),
    decreases content.len(),
{
    lemma_contents_singleton(spec_plain(content));
    match spec_pick_from(content, markers, 0) {
        None => {},
        Some(k) => {
            let m = markers[k];
            match spec_find(content, m, 0) {
                None => {},
                Some(i) => match spec_find(content, m, i + m.len()) {
                    None => {},
                    Some(j) => {
                        let before = content.subrange(0, i);
                        let inner = content.subrange(i + m.len(), j);
                        let rest = content.subrange(j + m.len(), content.len() as int);
                        let head = if before.len() > 0 {
                            seq![spec_plain(before)]
                        } else {
                            Seq::<SpanView>::empty()
                        };
                        let mid = seq![spec_styled(inner, style)];
                        let tail = if rest.len() > 0 && rest.len() < content.len() {
                            spec_split(rest, style, markers)
                        } else {
                            Seq::<SpanView>::empty()
                        };
                        if rest.len() > 0 && rest.len() < content.len() {
                            lemma_split_round_trip(rest, style, markers);
                        }
                        lemma_contents_concat(head + mid, tail);
                        lemma_contents_concat(head, mid);
                        if before.len() > 0 {
                            lemma_contents_singleton(spec_plain(before));
                        }
                        assert(spec_contents(head) =~= before);
                        lemma_contents_singleton(spec_styled(inner, style));
                        assert(spec_contents(mid) =~= inner);
                        assert(spec_contents(spec_split(content, style, markers)) =~= spec_strip(
                            content,
                            markers,
                        ));
                    },
                },
            }
        },
    }
}

/// What one rule's pass leaves of a run of spans: plain contents stripped
/// of matched markers, styled contents untouched.
pub open spec fn spec_strip_spans(spans: Seq<SpanView>, markers: Seq<Seq<char>>) -> Seq<char>
    decreases spans.len(),
{
    if spans.len() == 0 {
        Seq::empty()
    } else {
        spec_strip_spans(spans.drop_last(), markers) + (if spans.last().text_type
            == TextType::Normal {
            spec_strip(spans.last().content, markers)
        } else {
            spans.last().content
        })
    }
}

/// Round trip of one rule applied to a whole run: concatenating the
/// contents afterwards reconstructs the previous contents with the matched
/// markers of the rule removed from the plain spans.
pub proof fn lemma_apply_rule_round_trip(
    spans: Seq<SpanView>,
    style: TextType,
    markers: Seq<Seq<char>>,
)
    ensures
        spec_contents(spec_apply_rule(spans, style, markers)) == spec_strip_spans(spans, markers),
    decreases spans.len(),
{
    if spans.len() > 0 {
        lemma_apply_rule_round_trip(spans.drop_last(), style, markers);
        lemma_contents_concat(
            spec_apply_rule(spans.drop_last(), style, markers),
            spec_split_span(spans.last(), style, markers),
        );
        if spans.last().text_type == TextType::Normal {
            lemma_split_round_trip(spans.last().content, style, markers);
        } else {
            lemma_contents_singleton(spans.last());
        }
    }
}

/// Round trip of the whole tokenization under a single rule: concatenating
/// the contents of `tokenize`'s spans reconstructs the text with the
/// matched delimiter markers removed.
pub proof fn lemma_tokenize_round_trip(text: Seq<char>, rule: MarkdownDelimiter)
    ensures
        spec_contents(spec_tokenize(text, seq![rule])) == spec_strip(
            text,
            marker_views(rule.delimiters@),
        ),
{
    let ms = marker_views(rule.delimiters@);
    let one = seq![spec_plain(text)];
    if text.len() == 0 {
        assert(spec_pick_from(text, ms, 0) is None) by {
            lemma_pick_from_none(text, ms, 0);
        }
    } else {
        let rules = seq![rule];
        assert(rules[0] == rule);
        assert(rules.drop_first() =~= Seq::<MarkdownDelimiter>::empty());
        assert(spec_apply_rules(
            spec_apply_rule(one, rule.name, ms),
            Seq::<MarkdownDelimiter>::empty(),
        ) == spec_apply_rule(one, rule.name, ms));
        assert(spec_tokenize(text, rules) == spec_apply_rule(one, rule.name, ms));
        lemma_apply_rule_round_trip(one, rule.name, ms);
        lemma_strip_spans_singleton(spec_plain(text), ms);
        assert(spec_strip_spans(one, ms) == spec_strip(text, ms));
    }
}

/// A found position lies at or after the start and carries the marker.
pub proof fn lemma_spec_find_some(s: Seq<char>, m: Seq<char>, i: int, r: int)
    requires
        spec_find(s, m, i) == Some(r),
    ensures
        i <= r,
        marker_at(s, m, r),
        m.len() > 0,
    decreases s.len() - i,
{
    if m.len() == 0 || i + m.len() > s.len() {
    } else if marker_at(s, m, i) {
    } else {
        lemma_spec_find_some(s, m, i + 1, r);
    }
}

/// Whether marker `m` occurs at position `i` of `s`.
fn marker_matches_at(s: &str, m: &str, i: usize, s_len: usize, m_len: usize) -> (r: bool)
    requires
        s_len == s@.len(),
        m_len == m@.len(),
        i + m_len <= s_len,
    ensures
        r == marker_at(s@, m@, i as int),
{
    let mut k: usize = 0;
    while k < m_len
        invariant
            k <= m_len,
            s_len == s@.len(),
            m_len == m@.len(),
            i + m_len <= s_len,
            forall|t: int| 0 <= t < k ==> s@[i + t] == m@[t],
        decreases m_len - k,
    {
        if s.get_char(i + k) != m.get_char(k) {
            proof {
                if marker_at(s@, m@, i as int) {
                    assert(s@.subrange(i as int, i + m@.len() as int)[k as int] == s@[i + k]);
                }
            }
            return false;
        }
        k += 1;
    }
    proof {
        assert(s@.subrange(i as int, i + m@.len() as int) =~= m@);
    }
    true
}

/// The first position at or after `from` where `m` occurs in `s`.
fn find_marker_from(s: &str, m: &str, from: usize) -> (r: Option<usize>)
    requires
        m@.len() > 0,
    ensures
        match r {
            Some(i) => spec_find(s@, m@, from as int) == Some(i as int),
            None => spec_find(s@, m@, from as int) is None,
        },
{
    let s_len = s.unicode_len();
    let m_len = m.unicode_len();
    if m_len > s_len {
        return None;
    }
    let mut i = from;
    while i <= s_len - m_len
        invariant
            m@.len() > 0,
            s_len == s@.len(),
            m_len == m@.len(),
            m_len <= s_len,
            from <= i,
            spec_find(s@, m@, from as int) == spec_find(s@, m@, i as int),
        decreases s_len - i,
    {
        if marker_matches_at(s, m, i, s_len, m_len) {
            return Some(i);
        }
        i += 1;
    }
    None
}

/// The index of the first listed marker that occurs in `s`.
fn pick_marker(delimiters: &Vec<String>, s: &str) -> (r: Option<usize>)
    requires
        delimiters_wf(delimiters@),
    ensures
        match r {
            Some(k) => k < delimiters@.len() && spec_pick_from(
                s@,
                marker_views(delimiters@),
                0,
            ) == Some(k as int),
            None => spec_pick_from(s@, marker_views(delimiters@), 0) is None,
        },
{
    let ghost ms = marker_views(delimiters@);
    let mut k: usize = 0;
    while k < delimiters.len()
        invariant
            k <= delimiters@.len(),
            delimiters_wf(delimiters@),
            ms == marker_views(delimiters@),
            spec_pick_from(s@, ms, 0) == spec_pick_from(s@, ms, k as int),
        decreases delimiters@.len() - k,
    {
        let found = find_marker_from(s, delimiters[k].as_str(), 0);
        if found.is_some() {
            return Some(k);
        }
        k += 1;
    }
    None
}

/// One plain span holding the whole text, untouched.
fn plain_run(content: &str) -> (r: Vec<TextNode>)
    ensures
        span_views(r@) == seq![spec_plain(content@)],
{
    let mut out: Vec<TextNode> = Vec::new();
    out.push(TextNode { content: content.to_owned(), text_type: TextType::Normal, url: None });
    proof {
        assert(span_views(out@) =~= seq![spec_plain(content@)]);
    }
    out
}

/// Splits one run of plain text with one rule's markers.
fn split_content(content: &str, style: TextType, delimiters: &Vec<String>) -> (r: Vec<TextNode>)
    requires
        delimiters_wf(delimiters@),
    ensures
        span_views(r@) == spec_split(content@, style, marker_views(delimiters@)),
    decreases content@.len(),
{
    let ghost ms = marker_views(delimiters@);
    let s_len = content.unicode_len();
    match pick_marker(delimiters, content) {
        None => plain_run(content),
        Some(k) => {
            let m = delimiters[k].as_str();
            let m_len = m.unicode_len();
            match find_marker_from(content, m, 0) {
                None => plain_run(content),
                Some(i) => {
                    proof {
                        lemma_spec_find_some(content@, m@, 0, i as int);
                    }
                    match find_marker_from(content, m, i + m_len) {
                        None => plain_run(content),
                        Some(j) => {
                            proof {
                                lemma_spec_find_some(content@, m@, i + m_len, j as int);
                            }
                            let mut out: Vec<TextNode> = Vec::new();
                            if i > 0 {
                                out.push(
                                    TextNode {
                                        content: content.substring_char(0, i).to_owned(),
                                        text_type: TextType::Normal,
                                        url: None,
                                    },
                                );
                            }
                            out.push(
                                TextNode {
                                    content: content.substring_char(i + m_len, j).to_owned(),
                                    text_type: style,
                                    url: None,
                                },
                            );
                            let rest = content.substring_char(j + m_len, s_len);
                            if rest.unicode_len() > 0 {
                                let mut tail = split_content(rest, style, delimiters);
                                out.append(&mut tail);
                            }
                            proof {
                                assert(span_views(out@) =~= spec_split(content@, style, ms));
                            }
                            out
                        },
                    }
                },
            }
        },
    }
}

impl TextNode {
    /// Splits this span with one rule: a plain span is scanned for the
    /// rule's markers, a styled span passes through untouched.
    pub fn split_node_on_delimiter(&self, delimiter: &MarkdownDelimiter) -> (r: Vec<TextNode>)
        requires
            delimiter.wf(),
        ensures
            span_views(r@) == spec_split_span(
                self@,
                delimiter.name,
                marker_views(delimiter.delimiters@),
            ),
    {
        match self.text_type {
            TextType::Normal => split_content(
                self.content.as_str(),
                delimiter.name,
                &delimiter.delimiters,
            ),
            _ => {
                let mut out: Vec<TextNode> = Vec::new();
                out.push(
                    TextNode {
                        content: self.content.clone(),
                        text_type: self.text_type,
                        url: match &self.url {
                            None => None,
                            Some(u) => Some(u.clone()),
                        },
                    },
                );
                proof {
                    assert(span_views(out@) =~= seq![self@]);
                }
                out
            },
        }
    }
}

/// Tokenizes raw text: the text starts as one plain span, and each rule is
/// applied in order to every span still tagged plain, so that concatenating
/// the spans preserves the text left to right.
pub fn tokenize(text: &str, rules: &Vec<MarkdownDelimiter>) -> (r: Vec<TextNode>)
    requires
        rules_wf(rules@),
    ensures
        span_views(r@) == spec_tokenize(text@, rules@),
{
    let mut spans: Vec<TextNode> = Vec::new();
    if text.unicode_len() == 0 {
        proof {
            assert(span_views(spans@) =~= Seq::<SpanView>::empty());
        }
        return spans;
    }
    spans.push(TextNode { content: text.to_owned(), text_type: TextType::Normal, url: None });
    proof {
        assert(span_views(spans@) =~= seq![spec_plain(text@)]);
        assert(rules@.skip(0) =~= rules@);
    }
    let mut ri: usize = 0;
    while ri < rules.len()
        invariant
            ri <= rules@.len(),
            rules_wf(rules@),
            spec_apply_rules(span_views(spans@), rules@.skip(ri as int)) == spec_apply_rules(
                seq![spec_plain(text@)],
                rules@,
            ),
        decreases rules@.len() - ri,
    {
        let ghost ms = marker_views(rules@[ri as int].delimiters@);
        let ghost old_views = span_views(spans@);
        let mut next: Vec<TextNode> = Vec::new();
        let mut si: usize = 0;
        proof {
            assert(span_views(next@) =~= Seq::<SpanView>::empty());
            assert(old_views.take(0) =~= Seq::<SpanView>::empty());
        }
        while si < spans.len()
            invariant
                si <= spans@.len(),
                rules_wf(rules@),
                ri < rules@.len(),
                old_views == span_views(spans@),
                ms == marker_views(rules@[ri as int].delimiters@),
                span_views(next@) == spec_apply_rule(
                    old_views.take(si as int),
                    rules@[ri as int].name,
                    ms,
                ),
            decreases spans@.len() - si,
        {
            let rule = &rules[ri];
            let mut pieces = spans[si].split_node_on_delimiter(rule);
            let ghost next0 = next@;
            let ghost pieces0 = pieces@;
            next.append(&mut pieces);
            proof {
                let t = old_views.take(si + 1);
                assert(t.drop_last() =~= old_views.take(si as int));
                assert(t.last() == old_views[si as int]);
                assert(old_views[si as int] == spans@[si as int]@);
                assert(next@ == next0 + pieces0);
                assert(span_views(next@) =~= span_views(next0) + span_views(pieces0)) by {
                    assert forall|x: int| 0 <= x < next@.len() implies next@[x]@ == (span_views(
                        next0,
                    ) + span_views(pieces0))[x] by {
                        if x < next0.len() {
                            assert(next@[x] == next0[x]);
                        } else {
                            assert(next@[x] == pieces0[x - next0.len()]);
                        }
                    };
                };
            }
            si += 1;
        }
        proof {
            assert(old_views.take(spans@.len() as int) =~= old_views);
            let rest = rules@.skip(ri as int);
            assert(rest[0] == rules@[ri as int]);
            assert(rest.drop_first() =~= rules@.skip(ri + 1));
        }
        spans = next;
        ri += 1;
    }
    proof {
        assert(rules@.skip(rules@.len() as int) =~= Seq::<MarkdownDelimiter>::empty());
    }
    spans
}

} // verus!

