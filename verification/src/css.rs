//! CSS: the layout of stylesheets, and of selector lists in qualified rules.

use vstd::prelude::*;

use crate::config::PrinterConfig;
use crate::css_grammar::{parse_stylesheet_chars, spec_parse_stylesheet, CssNode, Nodes, Spans, Stylesheet};
use crate::doc::{
    copy_doc, flat_text, lemma_flat_add, lemma_view_docs, lemma_view_docs_add, printable, render, rendered, spec_add, view_docs,
    Document, DocumentSpec,
};
use crate::google_sheets::{span_text, Span};
use crate::json::overlaps;
use crate::text::{chars_of, is_unicode_ws, lemma_visible_add, lemma_visible_trim, push_all, string_of, trim, trimmed_string, visible};

verus! {

/// The nesting depth of parentheses and brackets after the first `n`
/// characters; a closing one at depth 0 leaves the depth at 0.
pub open spec fn bracket_depth(t: Seq<char>, n: int) -> nat
    decreases n,
{
    if n <= 0 {
        0
    } else {
        let d = bracket_depth(t, n - 1);
        let c = t[n - 1];
        if c == '(' || c == '[' {
            d + 1
        } else if c == ')' || c == ']' {
            if d == 0 {
                0
            } else {
                (d - 1) as nat
            }
        } else {
            d
        }
    }
}

/// A comma outside any parentheses or brackets.
pub open spec fn is_top_comma(t: Seq<char>, j: int) -> bool {
    t[j] == ',' && bracket_depth(t, j) == 0
}

/// The pieces of the first `n` characters between top-level commas, untrimmed.
pub open spec fn raw_segments(t: Seq<char>, n: int) -> Seq<Seq<char>>
    decreases n,
{
    if n <= 0 {
        seq![Seq::empty()]
    } else {
        let prev = raw_segments(t, n - 1);
        if is_top_comma(t, n - 1) {
            prev.push(Seq::empty())
        } else {
            prev.update(prev.len() - 1, prev.last().push(t[n - 1]))
        }
    }
}

/// The selectors of a selector list: the text cut at commas that stand
/// outside parentheses and brackets, each piece trimmed.
pub open spec fn spec_split_selectors(t: Seq<char>) -> Seq<Seq<char>> {
    raw_segments(t, t.len() as int).map_values(|s: Seq<char>| trim(s))
}

pub proof fn lemma_raw_segments_len(t: Seq<char>, n: int)
    ensures
        raw_segments(t, n).len() >= 1,
    decreases n,
{
    if n > 0 {
        lemma_raw_segments_len(t, n - 1);
    }
}

/// Split a CSS selector string on commas, respecting parentheses and brackets.
/// Handles `:is(.a, .b)`, `:not([href])`, `[attr="x,y"]`, and nested parens.
pub fn split_selectors(text: &str) -> (r: Vec<String>)
    ensures
        r@.map_values(|s: String| s@) == spec_split_selectors(text@),
{
    let t = chars_of(text);
    let mut out: Vec<String> = Vec::new();
    let mut depth: usize = 0;
    let mut start: usize = 0;
    let mut i: usize = 0;
    proof {
        lemma_raw_segments_len(t@, 0);
    }
    while i < t.len()
        invariant
            t@ == text@,
            start <= i <= t.len(),
            depth == bracket_depth(t@, i as int),
            depth <= i,
            raw_segments(t@, i as int).len() == out@.len() + 1,
            raw_segments(t@, i as int).last() == t@.subrange(start as int, i as int),
            forall|k: int|
                0 <= k < out@.len() ==> #[trigger] out@[k]@ == trim(raw_segments(t@, i as int)[k]),
        decreases t.len() - i,
    {
        let c = t[i];
        let ghost prev = raw_segments(t@, i as int);
        proof {
            lemma_raw_segments_len(t@, i as int);
        }
        if c == '(' || c == '[' {
            depth = depth + 1;
        } else if c == ')' || c == ']' {
            if depth > 0 {
                depth = depth - 1;
            }
        } else if c == ',' && depth == 0 {
            let piece = trimmed_string(&t, start, i);
            out.push(piece);
            start = i + 1;
        }
        proof {
            let next = raw_segments(t@, i + 1);
            if !is_top_comma(t@, i as int) {
                assert(t@.subrange(start as int, i + 1) =~= t@.subrange(start as int, i as int).push(
                    t@[i as int],
                ));
                assert forall|k: int| 0 <= k < out@.len() implies #[trigger] out@[k]@ == trim(
                    next[k],
                ) by {
                    assert(next[k] == prev[k]);
                }
            } else {
                assert(t@.subrange(start as int, i + 1) =~= Seq::<char>::empty());
                assert forall|k: int| 0 <= k < out@.len() implies #[trigger] out@[k]@ == trim(
                    next[k],
                ) by {
                    assert(next[k] == prev[k]);
                }
            }
        }
        i = i + 1;
    }
    let last = trimmed_string(&t, start, t.len());
    out.push(last);
    proof {
        let segs = raw_segments(t@, t@.len() as int);
        let mv = out@.map_values(|s: String| s@);
        let ms = segs.map_values(|s: Seq<char>| trim(s));
        assert forall|k: int| 0 <= k < out@.len() implies #[trigger] mv[k] == ms[k] by {
            if k < out@.len() - 1 {
                assert(out@[k]@ == trim(segs[k]));
            } else {
                assert(t@.subrange(start as int, t@.len() as int) == segs.last());
            }
        }
        assert(mv =~= ms);
    }
    out
}

/// The separator between selectors: `,` and a line break when the list
/// breaks, `, ` when it stays on one line.
pub open spec fn selector_sep() -> DocumentSpec {
    DocumentSpec::IfBreak(
        Box::new(spec_add(DocumentSpec::Text(seq![',']), DocumentSpec::Hardline)),
        Box::new(DocumentSpec::Text(seq![',', ' '])),
    )
}

/// The first `n` selectors, each after the previous with a separator between them.
pub open spec fn selectors_body(sels: Seq<Seq<char>>, n: int) -> DocumentSpec
    decreases n,
{
    if n <= 1 {
        DocumentSpec::Text(sels[0])
    } else {
        spec_add(spec_add(selectors_body(sels, n - 1), selector_sep()), DocumentSpec::Text(sels[n - 1]))
    }
}

/// The layout of a selector list with at least two selectors: one group, so
/// that the list stays on one line when it fits and puts each selector on a
/// line of its own otherwise.
pub open spec fn spec_selector_list_doc(t: Seq<char>) -> Option<DocumentSpec> {
    let sels = spec_split_selectors(t);
    if sels.len() > 1 {
        Some(DocumentSpec::Group(Box::new(selectors_body(sels, sels.len() as int))))
    } else {
        None
    }
}

/// The text of a span, trimmed.
pub open spec fn trimmed_span(s: Seq<char>, sp: Span) -> Seq<char> {
    trim(span_text(s, sp))
}

/// The values of a declaration or an `@import`, each trimmed, as text.
pub open spec fn values_docs(s: Seq<char>, vs: Spans) -> Seq<DocumentSpec>
    decreases vs,
{
    match vs {
        Spans::End => Seq::empty(),
        Spans::More(sp, rest) => seq![DocumentSpec::Text(trimmed_span(s, sp))] + values_docs(s, *rest),
    }
}

/// Comments as text, as written.
pub open spec fn comments_docs(s: Seq<char>, cs: Spans) -> Seq<DocumentSpec>
    decreases cs,
{
    match cs {
        Spans::End => Seq::empty(),
        Spans::More(sp, rest) => seq![DocumentSpec::Text(span_text(s, sp))] + comments_docs(s, *rest),
    }
}

/// `, ` between values.
pub open spec fn comma_space() -> DocumentSpec {
    DocumentSpec::Text(seq![',', ' '])
}

/// The head of an at-rule: its name, and its prelude trimmed where it is not empty.
pub open spec fn at_head(name: Seq<char>, prelude: Seq<char>) -> Seq<char> {
    if trim(prelude).len() > 0 {
        name + seq![' '] + trim(prelude)
    } else {
        name
    }
}

/// The layout of a rule or declaration. With `lists` (the stylesheet
/// grammar's layout), a qualified rule's head is laid out by `qualified_head`,
/// so that a list of several selectors forms one group; without it (the fast
/// grammar's layout), the head is the selector text as written and a space.
pub open spec fn node_doc(s: Seq<char>, lists: bool, n: CssNode) -> DocumentSpec
    decreases n, 0int,
{
    match n {
        CssNode::Declaration { property, values, important, semicolon } => spec_add(
            spec_add(
                spec_add(
                    DocumentSpec::Text(span_text(s, property) + seq![':', ' ']),
                    DocumentSpec::Join(Box::new(comma_space()), values_docs(s, values)),
                ),
                if important {
                    DocumentSpec::Text(seq![' ', '!', 'i', 'm', 'p', 'o', 'r', 't', 'a', 'n', 't'])
                } else {
                    DocumentSpec::Null
                },
            ),
            if semicolon {
                DocumentSpec::Text(seq![';'])
            } else {
                DocumentSpec::Null
            },
        ),
        CssNode::Qualified { selector, block } => spec_add(
            if lists {
                qualified_head(span_text(s, selector))
            } else {
                DocumentSpec::Text(span_text(s, selector) + seq![' '])
            },
            block_doc(s, lists, block),
        ),
        CssNode::Media { prelude, block } => spec_add(
            DocumentSpec::Text(at_head(seq!['@', 'm', 'e', 'd', 'i', 'a'], span_text(s, prelude)) + seq![' ']),
            block_doc(s, lists, block),
        ),
        CssNode::Supports { prelude, block } => spec_add(
            DocumentSpec::Text(
                at_head(seq!['@', 's', 'u', 'p', 'p', 'o', 'r', 't', 's'], span_text(s, prelude)) + seq![' '],
            ),
            block_doc(s, lists, block),
        ),
        CssNode::FontFace { block } => spec_add(
            DocumentSpec::Text(seq!['@', 'f', 'o', 'n', 't', '-', 'f', 'a', 'c', 'e', ' ']),
            block_doc(s, lists, block),
        ),
        CssNode::Import { values } => spec_add(
            spec_add(
                DocumentSpec::Text(seq!['@', 'i', 'm', 'p', 'o', 'r', 't', ' ']),
                DocumentSpec::Join(Box::new(comma_space()), values_docs(s, values)),
            ),
            DocumentSpec::Text(seq![';']),
        ),
        CssNode::Generic { name, prelude, block } => match block {
            Some(b) => spec_add(
                DocumentSpec::Text(at_head(span_text(s, name), span_text(s, prelude)) + seq![' ']),
                block_doc(s, lists, b),
            ),
            None => DocumentSpec::Text(at_head(span_text(s, name), span_text(s, prelude)) + seq![';']),
        },
    }
}

/// The entries of a list of items: each item's comments, then the item.
pub open spec fn entries(s: Seq<char>, lists: bool, ns: Nodes) -> Seq<DocumentSpec>
    decreases ns, 0int,
{
    match ns {
        Nodes::End => Seq::empty(),
        Nodes::Node(cs, _, n, rest) => comments_docs(s, cs) + seq![node_doc(s, lists, *n)] + entries(s, lists, *rest),
    }
}

/// The layout of a block: `{}` when empty, else `{`, each entry on a line of
/// its own one level in, and `}`.
pub open spec fn block_doc(s: Seq<char>, lists: bool, ns: Nodes) -> DocumentSpec
    decreases ns, 1int,
{
    let es = entries(s, lists, ns);
    if es.len() == 0 {
        DocumentSpec::Text(seq!['{', '}'])
    } else {
        spec_add(
            spec_add(
                spec_add(
                    DocumentSpec::Text(seq!['{']),
                    DocumentSpec::Indent(
                        Box::new(
                            spec_add(DocumentSpec::Hardline, DocumentSpec::Join(Box::new(DocumentSpec::Hardline), es)),
                        ),
                    ),
                ),
                DocumentSpec::Hardline,
            ),
            DocumentSpec::Text(seq!['}']),
        )
    }
}

/// The layout of a stylesheet: its entries with a blank line between each two.
pub open spec fn stylesheet_doc(s: Seq<char>, lists: bool, sheet: Stylesheet) -> DocumentSpec {
    DocumentSpec::Join(
        Box::new(spec_add(DocumentSpec::Hardline, DocumentSpec::Hardline)),
        comments_docs(s, sheet.comments) + entries(s, lists, sheet.rules),
    )
}

fn text_doc(t: &str) -> (r: Document)
    ensures
        r@ == DocumentSpec::Text(t@),
{
    Document::text(t)
}

fn span_text_string(s: &Vec<char>, sp: &Span) -> (r: String)
    ensures
        r@ == span_text(s@, *sp),
{
    if sp.start <= sp.end && sp.end <= s.len() {
        string_of(s, sp.start, sp.end)
    } else {
        String::new()
    }
}

fn trimmed_span_string(s: &Vec<char>, sp: &Span) -> (r: String)
    ensures
        r@ == trimmed_span(s@, *sp),
{
    if sp.start <= sp.end && sp.end <= s.len() {
        trimmed_string(s, sp.start, sp.end)
    } else {
        assert(trim(Seq::<char>::empty()) =~= Seq::<char>::empty());
        String::new()
    }
}

/// Appends the documents of `tail` after those of `head`.
fn concat_docs(head: Vec<Document>, tail: Vec<Document>) -> (r: Vec<Document>)
    ensures
        view_docs(r@) == view_docs(head@) + view_docs(tail@),
{
    let ghost h = head@;
    let ghost t = tail@;
    let mut v = head;
    let mut w = tail;
    v.append(&mut w);
    proof {
        lemma_view_docs_add(h, t);
    }
    v
}

fn single(d: Document) -> (r: Vec<Document>)
    ensures
        view_docs(r@) == seq![d@],
{
    let ghost dv = d@;
    let mut v: Vec<Document> = Vec::new();
    v.push(d);
    proof {
        lemma_view_docs(v@);
        assert(view_docs(v@) =~= seq![dv]);
    }
    v
}

fn empty_docs() -> (r: Vec<Document>)
    ensures
        view_docs(r@) == Seq::<DocumentSpec>::empty(),
{
    let v: Vec<Document> = Vec::new();
    assert(view_docs(v@) =~= Seq::<DocumentSpec>::empty());
    v
}

fn values_to_docs(s: &Vec<char>, vs: &Spans) -> (r: Vec<Document>)
    ensures
        view_docs(r@) == values_docs(s@, *vs),
    decreases vs,
{
    match vs {
        Spans::End => empty_docs(),
        Spans::More(sp, rest) => {
            let first = single(Document::Text(trimmed_span_string(s, sp)));
            concat_docs(first, values_to_docs(s, rest))
        },
    }
}

fn comments_to_docs(s: &Vec<char>, cs: &Spans) -> (r: Vec<Document>)
    ensures
        view_docs(r@) == comments_docs(s@, *cs),
    decreases cs,
{
    match cs {
        Spans::End => empty_docs(),
        Spans::More(sp, rest) => {
            let first = single(Document::Text(span_text_string(s, sp)));
            concat_docs(first, comments_to_docs(s, rest))
        },
    }
}

fn at_head_string(name: String, prelude: String) -> (r: String)
    ensures
        r@ == at_head(name@, prelude@),
{
    let pc = chars_of(prelude.as_str());
    let t = trimmed_string(&pc, 0, pc.len());
    assert(pc@.subrange(0, pc@.len() as int) =~= prelude@);
    let tc = chars_of(t.as_str());
    if tc.len() > 0 {
        let mut out = name;
        push_all(&mut out, " ");
        push_all(&mut out, t.as_str());
        proof {
            reveal_strlit(" ");
            assert(" "@ =~= seq![' ']);
        }
        out
    } else {
        name
    }
}

fn with_suffix(t: String, suffix: &str) -> (r: String)
    ensures
        r@ == t@ + suffix@,
{
    let mut out = t;
    push_all(&mut out, suffix);
    out
}

/// Lays out a rule or declaration of the stylesheet whose characters are `s`,
/// with selector lists as groups where `lists` holds (see `node_doc`).
pub fn node_to_doc(s: &Vec<char>, lists: bool, n: &CssNode) -> (r: Document)
    ensures
        r@ == node_doc(s@, lists, *n),
    decreases n, 0int,
{
    proof {
        reveal_strlit(": ");
        assert(": "@ =~= seq![':', ' ']);
        reveal_strlit(", ");
        assert(", "@ =~= seq![',', ' ']);
        reveal_strlit(" !important");
        assert(" !important"@ =~= seq![' ', '!', 'i', 'm', 'p', 'o', 'r', 't', 'a', 'n', 't']);
        reveal_strlit(";");
        assert(";"@ =~= seq![';']);
        reveal_strlit(" ");
        assert(" "@ =~= seq![' ']);
        reveal_strlit("@media");
        assert("@media"@ =~= seq!['@', 'm', 'e', 'd', 'i', 'a']);
        reveal_strlit("@supports");
        assert("@supports"@ =~= seq!['@', 's', 'u', 'p', 'p', 'o', 'r', 't', 's']);
        reveal_strlit("@font-face ");
        assert("@font-face "@ =~= seq!['@', 'f', 'o', 'n', 't', '-', 'f', 'a', 'c', 'e', ' ']);
        reveal_strlit("@import ");
        assert("@import "@ =~= seq!['@', 'i', 'm', 'p', 'o', 'r', 't', ' ']);
    }
    match n {
        CssNode::Declaration { property, values, important, semicolon } => {
            let head = with_suffix(span_text_string(s, property), ": ");
            let vals = Document::join(text_doc(", "), values_to_docs(s, values));
            let imp = if *important {
                text_doc(" !important")
            } else {
                Document::Null
            };
            let semi = if *semicolon {
                text_doc(";")
            } else {
                Document::Null
            };
            Document::Text(head).add(vals).add(imp).add(semi)
        },
        CssNode::Qualified { selector, block } => {
            let sel = span_text_string(s, selector);
            let head = if lists {
                qualified_head_doc(sel.as_str())
            } else {
                Document::Text(with_suffix(sel, " "))
            };
            head.add(block_to_doc(s, lists, block))
        },
        CssNode::Media { prelude, block } => {
            let head = with_suffix(at_head_string(String::from_str("@media"), span_text_string(s, prelude)), " ");
            Document::Text(head).add(block_to_doc(s, lists, block))
        },
        CssNode::Supports { prelude, block } => {
            let head = with_suffix(
                at_head_string(String::from_str("@supports"), span_text_string(s, prelude)),
                " ",
            );
            Document::Text(head).add(block_to_doc(s, lists, block))
        },
        CssNode::FontFace { block } => text_doc("@font-face ").add(block_to_doc(s, lists, block)),
        CssNode::Import { values } => {
            let vals = Document::join(text_doc(", "), values_to_docs(s, values));
            text_doc("@import ").add(vals).add(text_doc(";"))
        },
        CssNode::Generic { name, prelude, block } => {
            let head = at_head_string(span_text_string(s, name), span_text_string(s, prelude));
            match block {
                Some(b) => Document::Text(with_suffix(head, " ")).add(block_to_doc(s, lists, b)),
                None => Document::Text(with_suffix(head, ";")),
            }
        },
    }
}

/// Lays out the entries of a list of items: each item's comments, then the item.
pub fn entries_to_docs(s: &Vec<char>, lists: bool, ns: &Nodes) -> (r: Vec<Document>)
    ensures
        view_docs(r@) == entries(s@, lists, *ns),
    decreases ns, 0int,
{
    match ns {
        Nodes::End => empty_docs(),
        Nodes::Node(cs, _, n, rest) => {
            let head = concat_docs(comments_to_docs(s, cs), single(node_to_doc(s, lists, n)));
            concat_docs(head, entries_to_docs(s, lists, rest))
        },
    }
}

/// Lays out a block.
pub fn block_to_doc(s: &Vec<char>, lists: bool, ns: &Nodes) -> (r: Document)
    ensures
        r@ == block_doc(s@, lists, *ns),
    decreases ns, 1int,
{
    proof {
        reveal_strlit("{}");
        assert("{}"@ =~= seq!['{', '}']);
        reveal_strlit("{");
        assert("{"@ =~= seq!['{']);
        reveal_strlit("}");
        assert("}"@ =~= seq!['}']);
    }
    let es = entries_to_docs(s, lists, ns);
    proof {
        lemma_view_docs(es@);
    }
    if es.len() == 0 {
        text_doc("{}")
    } else {
        let body = Document::Hardline.add(Document::join(Document::Hardline, es));
        text_doc("{").add(body.indent()).add(Document::Hardline).add(text_doc("}"))
    }
}

/// Lays out a stylesheet, with selector lists as groups where `lists` holds.
pub fn stylesheet_to_doc(s: &Vec<char>, lists: bool, sheet: &Stylesheet) -> (r: Document)
    ensures
        r@ == stylesheet_doc(s@, lists, *sheet),
{
    let all = concat_docs(comments_to_docs(s, &sheet.comments), entries_to_docs(s, lists, &sheet.rules));
    Document::join(Document::Hardline.add(Document::Hardline), all)
}

/// The CSS stylesheet grammar.
pub struct CssParser;

impl CssParser {
    /// Reads the stylesheet at the start of the input: the comments before it
    /// and as many rules as can be read.
    pub fn stylesheet(input: &str) -> (r: Stylesheet)
        ensures
            r == spec_parse_stylesheet(input@),
    {
        let s = chars_of(input);
        parse_stylesheet_chars(&s)
    }

    /// The selector-list layout of a qualified rule's selector text, for
    /// callers that lay out rules one by one: for a list of several selectors,
    /// `Some` group that joins them with `", "` when they fit and with `","`
    /// and a line break when they do not; for a single selector, `None`, and
    /// the selector keeps its text as written.
    pub fn selector_list_doc(text: &str) -> (r: Option<Document>)
        ensures
            match spec_selector_list_doc(text@) {
                None => r is None,
                Some(d) => r matches Some(x) && x@ == d,
            },
    {
        let sels = split_selectors(text);
        let ghost sv = sels@.map_values(|s: String| s@);
        assert(sv.len() == sels@.len());
        if sels.len() <= 1 {
            return None;
        }
        proof {
            reveal_strlit(",");
            reveal_strlit(", ");
            assert(","@ =~= seq![',']);
            assert(", "@ =~= seq![',', ' ']);
        }
        let break_sep = Document::if_break(Document::text(",").add(Document::Hardline), Document::text(", "));
        let mut body = Document::text(sels[0].as_str());
        let mut i: usize = 1;
        while i < sels.len()
            invariant
                1 <= i <= sels.len(),
                sv == sels@.map_values(|s: String| s@),
                sv == spec_split_selectors(text@),
                break_sep@ == selector_sep(),
                body@ == selectors_body(sv, i as int),
            decreases sels.len() - i,
        {
            let sep = copy_doc(&break_sep);
            body = body.add(sep).add(Document::text(sels[i].as_str()));
            i = i + 1;
        }
        Some(body.group())
    }
}


proof fn lemma_raw_segments_no_comma(t: Seq<char>, n: int)
    requires
        0 <= n <= t.len(),
        forall|j: int| 0 <= j < n ==> !is_top_comma(t, j),
    ensures
        raw_segments(t, n) == seq![t.take(n)],
    decreases n,
{
    if n > 0 {
        lemma_raw_segments_no_comma(t, n - 1);
        assert(!is_top_comma(t, n - 1));
        assert(t.take(n - 1).push(t[n - 1]) =~= t.take(n));
        assert(seq![t.take(n - 1)].update(0, t.take(n)) =~= seq![t.take(n)]);
    } else {
        assert(t.take(0) =~= Seq::<char>::empty());
    }
}

/// Commas inside parentheses or brackets do not divide a selector list: a
/// text with no comma outside them is one selector, the text trimmed.
pub proof fn lemma_single_selector(t: Seq<char>)
    requires
        forall|j: int| 0 <= j < t.len() ==> !is_top_comma(t, j),
    ensures
        spec_split_selectors(t) == seq![trim(t)],
        spec_selector_list_doc(t) is None,
{
    lemma_raw_segments_no_comma(t, t.len() as int);
    assert(t.take(t.len() as int) =~= t);
    assert(seq![t].map_values(|s: Seq<char>| trim(s)) =~= seq![trim(t)]);
}


/// The first `n` pieces with a comma between each two of them.
pub open spec fn comma_join(segs: Seq<Seq<char>>, n: int) -> Seq<char>
    decreases n,
{
    if n <= 1 {
        segs[0]
    } else {
        comma_join(segs, n - 1) + seq![','] + segs[n - 1]
    }
}

proof fn lemma_comma_join_prefix(a: Seq<Seq<char>>, b: Seq<Seq<char>>, n: int)
    requires
        1 <= n <= a.len(),
        n <= b.len(),
        forall|i: int| 0 <= i < n ==> a[i] == b[i],
    ensures
        comma_join(a, n) == comma_join(b, n),
    decreases n,
{
    if n > 1 {
        lemma_comma_join_prefix(a, b, n - 1);
    }
}

/// The pieces between top-level commas, with the commas put back, are the text.
proof fn lemma_raw_segments_join(t: Seq<char>, m: int)
    requires
        0 <= m <= t.len(),
    ensures
        raw_segments(t, m).len() >= 1,
        comma_join(raw_segments(t, m), raw_segments(t, m).len() as int) == t.take(m),
    decreases m,
{
    if m == 0 {
        assert(t.take(0) =~= Seq::<char>::empty());
    } else {
        lemma_raw_segments_join(t, m - 1);
        let prev = raw_segments(t, m - 1);
        let k = prev.len() as int;
        let cur = raw_segments(t, m);
        assert(t.take(m) =~= t.take(m - 1).push(t[m - 1]));
        if is_top_comma(t, m - 1) {
            assert(cur == prev.push(Seq::<char>::empty()));
            lemma_comma_join_prefix(prev, cur, k);
            assert(comma_join(cur, k + 1) =~= t.take(m));
        } else {
            let last = prev.last().push(t[m - 1]);
            assert(cur == prev.update(k - 1, last));
            if k == 1 {
                assert(comma_join(cur, 1) =~= t.take(m));
            } else {
                lemma_comma_join_prefix(prev, cur, k - 1);
                assert(comma_join(cur, k) =~= comma_join(prev, k).push(t[m - 1]));
            }
        }
    }
}

/// The number of top-level commas among the first `n` characters.
pub open spec fn top_comma_count(t: Seq<char>, n: int) -> nat
    decreases n,
{
    if n <= 0 {
        0
    } else {
        top_comma_count(t, n - 1) + if is_top_comma(t, n - 1) { 1nat } else { 0nat }
    }
}

/// There is one piece more than there are top-level commas, and where the text
/// has no white space, neither has any piece.
proof fn lemma_raw_segments_shape(t: Seq<char>, m: int)
    requires
        0 <= m <= t.len(),
    ensures
        raw_segments(t, m).len() == 1 + top_comma_count(t, m),
        (forall|i: int| 0 <= i < t.len() ==> !is_unicode_ws(#[trigger] t[i])) ==> forall|k: int, j: int|
            0 <= k < raw_segments(t, m).len() && 0 <= j < raw_segments(t, m)[k].len()
                ==> !is_unicode_ws(#[trigger] raw_segments(t, m)[k][j]),
    decreases m,
{
    if m > 0 {
        lemma_raw_segments_shape(t, m - 1);
        lemma_raw_segments_len(t, m - 1);
        let prev = raw_segments(t, m - 1);
        let cur = raw_segments(t, m);
        if forall|i: int| 0 <= i < t.len() ==> !is_unicode_ws(#[trigger] t[i]) {
            assert forall|k: int, j: int|
                0 <= k < cur.len() && 0 <= j < cur[k].len() implies !is_unicode_ws(#[trigger] cur[k][j]) by {
                if is_top_comma(t, m - 1) {
                    if k < prev.len() {
                        assert(cur[k] == prev[k]);
                        assert(prev[k][j] == cur[k][j]);
                    }
                } else if k < prev.len() - 1 {
                    assert(cur[k] == prev[k]);
                    assert(prev[k][j] == cur[k][j]);
                } else if j < prev[k].len() {
                    assert(cur[k] == prev.last().push(t[m - 1]));
                    assert(prev[k][j] == cur[k][j]);
                } else {
                    assert(cur[k] == prev.last().push(t[m - 1]));
                    assert(cur[k][j] == t[m - 1]);
                }
            }
        }
    }
}

/// Text without white space is its own trimmed form.
proof fn lemma_trim_no_ws(s: Seq<char>)
    requires
        forall|j: int| 0 <= j < s.len() ==> !is_unicode_ws(#[trigger] s[j]),
    ensures
        trim(s) == s,
{
    if s.len() > 0 {
        assert(!is_unicode_ws(s[0]));
        assert(!is_unicode_ws(s[s.len() - 1]));
    }
}

/// Splitting a selector list gives one selector more than the list has
/// commas outside parentheses and brackets; the pieces before trimming, joined
/// with `,`, are the text; and for a text without white space the selectors
/// themselves, joined with `,`, give the text back.
pub proof fn lemma_split_selectors_round_trip(t: Seq<char>)
    ensures
        spec_split_selectors(t).len() == 1 + top_comma_count(t, t.len() as int),
        comma_join(raw_segments(t, t.len() as int), raw_segments(t, t.len() as int).len() as int) == t,
        (forall|i: int| 0 <= i < t.len() ==> !is_unicode_ws(#[trigger] t[i])) ==> comma_join(
            spec_split_selectors(t),
            spec_split_selectors(t).len() as int,
        ) == t,
{
    let n = t.len() as int;
    let raw = raw_segments(t, n);
    let sels = spec_split_selectors(t);
    lemma_raw_segments_shape(t, n);
    lemma_raw_segments_join(t, n);
    assert(t.take(n) =~= t);
    if forall|i: int| 0 <= i < t.len() ==> !is_unicode_ws(#[trigger] t[i]) {
        assert forall|k: int| 0 <= k < raw.len() implies #[trigger] sels[k] == raw[k] by {
            assert forall|j: int| 0 <= j < raw[k].len() implies !is_unicode_ws(#[trigger] raw[k][j]) by {}
            lemma_trim_no_ws(raw[k]);
        }
        lemma_comma_join_prefix(sels, raw, raw.len() as int);
    }
}

proof fn lemma_visible_trimmed_join(raw: Seq<Seq<char>>, n: int)
    requires
        1 <= n <= raw.len(),
    ensures
        visible(comma_join(raw.map_values(|x: Seq<char>| trim(x)), n)) == visible(comma_join(raw, n)),
    decreases n,
{
    let sels = raw.map_values(|x: Seq<char>| trim(x));
    lemma_visible_trim(raw[n - 1]);
    assert(sels[n - 1] == trim(raw[n - 1]));
    if n > 1 {
        lemma_visible_trimmed_join(raw, n - 1);
        lemma_visible_add(comma_join(sels, n - 1) + seq![','], sels[n - 1]);
        lemma_visible_add(comma_join(sels, n - 1), seq![',']);
        lemma_visible_add(comma_join(raw, n - 1) + seq![','], raw[n - 1]);
        lemma_visible_add(comma_join(raw, n - 1), seq![',']);
    }
}

proof fn lemma_selectors_body_text(sels: Seq<Seq<char>>, n: int)
    requires
        1 <= n <= sels.len(),
    ensures
        visible(flat_text(selectors_body(sels, n))) == visible(comma_join(sels, n)),
    decreases n,
{
    if n > 1 {
        lemma_selectors_body_text(sels, n - 1);
        let prev = selectors_body(sels, n - 1);
        lemma_flat_add(prev, selector_sep());
        lemma_flat_add(spec_add(prev, selector_sep()), DocumentSpec::Text(sels[n - 1]));
        assert(flat_text(DocumentSpec::Text(seq![',', ' '])) == seq![',', ' ']);
        assert(flat_text(selector_sep()) == seq![',', ' ']);
        let fp = flat_text(prev);
        lemma_visible_add(fp + seq![',', ' '], sels[n - 1]);
        lemma_visible_add(fp, seq![',', ' ']);
        lemma_visible_add(comma_join(sels, n - 1) + seq![','], sels[n - 1]);
        lemma_visible_add(comma_join(sels, n - 1), seq![',']);
        reveal_with_fuel(visible, 3);
        assert(visible(seq![',', ' ']) =~= seq![',']);
        assert(visible(seq![',']) =~= seq![',']);
    }
}

/// Laying out a selector list changes only white space: laid out on one line,
/// the layout holds the characters of the selector text that are not white
/// space, in their order.
pub proof fn lemma_selector_layout_keeps_text(t: Seq<char>)
    ensures
        spec_selector_list_doc(t) matches Some(d) ==> visible(flat_text(d)) == visible(t),
{
    let raw = raw_segments(t, t.len() as int);
    let sels = spec_split_selectors(t);
    lemma_raw_segments_join(t, t.len() as int);
    if sels.len() > 1 {
        let n = sels.len() as int;
        lemma_selectors_body_text(sels, n);
        lemma_visible_trimmed_join(raw, n);
        assert(t.take(t.len() as int) =~= t);
    }
}


/// The head of a qualified rule: a list of several selectors in its
/// selector-list group, a single selector as written; then a space.
pub open spec fn qualified_head(t: Seq<char>) -> DocumentSpec {
    match spec_selector_list_doc(t) {
        Some(d) => spec_add(d, DocumentSpec::Text(seq![' '])),
        None => DocumentSpec::Text(t + seq![' ']),
    }
}

/// The layout of a rule or declaration when only the positions from `a` up
/// to `b` are to be formatted: a rule's block holds the entries that
/// `range_entries` gives, its head is as in `node_doc`; declarations and rules without a block are laid out as by `node_doc`.
pub open spec fn node_range_doc(s: Seq<char>, n: CssNode, a: int, b: int) -> DocumentSpec
    decreases n, 0int,
{
    match n {
        CssNode::Qualified { selector, block } => spec_add(
            qualified_head(span_text(s, selector)),
            block_range_doc(s, block, a, b),
        ),
        CssNode::Media { prelude, block } => spec_add(
            DocumentSpec::Text(at_head(seq!['@', 'm', 'e', 'd', 'i', 'a'], span_text(s, prelude)) + seq![' ']),
            block_range_doc(s, block, a, b),
        ),
        CssNode::Supports { prelude, block } => spec_add(
            DocumentSpec::Text(
                at_head(seq!['@', 's', 'u', 'p', 'p', 'o', 'r', 't', 's'], span_text(s, prelude)) + seq![' '],
            ),
            block_range_doc(s, block, a, b),
        ),
        CssNode::FontFace { block } => spec_add(
            DocumentSpec::Text(seq!['@', 'f', 'o', 'n', 't', '-', 'f', 'a', 'c', 'e', ' ']),
            block_range_doc(s, block, a, b),
        ),
        CssNode::Generic { name, prelude, block } => match block {
            Some(bk) => spec_add(
                DocumentSpec::Text(at_head(span_text(s, name), span_text(s, prelude)) + seq![' ']),
                block_range_doc(s, bk, a, b),
            ),
            None => node_doc(s, true, n),
        },
        _ => node_doc(s, true, n),
    }
}

/// The entries of a list of items for a range: each item's comments, then
/// the item, laid out by `node_range_doc` where its span overlaps the
/// positions from `a` up to `b` and kept as its source text where it does not.
pub open spec fn range_entries(s: Seq<char>, ns: Nodes, a: int, b: int) -> Seq<DocumentSpec>
    decreases ns, 0int,
{
    match ns {
        Nodes::End => Seq::empty(),
        Nodes::Node(cs, sp, n, rest) => comments_docs(s, cs) + seq![
            if overlaps(sp, a, b) {
                node_range_doc(s, *n, a, b)
            } else {
                DocumentSpec::Text(span_text(s, sp))
            },
        ] + range_entries(s, *rest, a, b),
    }
}

/// A block for a range: as `block_doc`, with the entries of `range_entries`.
pub open spec fn block_range_doc(s: Seq<char>, ns: Nodes, a: int, b: int) -> DocumentSpec
    decreases ns, 1int,
{
    let es = range_entries(s, ns, a, b);
    if es.len() == 0 {
        DocumentSpec::Text(seq!['{', '}'])
    } else {
        spec_add(
            spec_add(
                spec_add(
                    DocumentSpec::Text(seq!['{']),
                    DocumentSpec::Indent(
                        Box::new(
                            spec_add(DocumentSpec::Hardline, DocumentSpec::Join(Box::new(DocumentSpec::Hardline), es)),
                        ),
                    ),
                ),
                DocumentSpec::Hardline,
            ),
            DocumentSpec::Text(seq!['}']),
        )
    }
}

/// A stylesheet for a range: as `stylesheet_doc`, with the entries of `range_entries`.
pub open spec fn stylesheet_range_doc(s: Seq<char>, sheet: Stylesheet, a: int, b: int) -> DocumentSpec {
    DocumentSpec::Join(
        Box::new(spec_add(DocumentSpec::Hardline, DocumentSpec::Hardline)),
        comments_docs(s, sheet.comments) + range_entries(s, sheet.rules, a, b),
    )
}

fn qualified_head_doc(t: &str) -> (r: Document)
    ensures
        r@ == qualified_head(t@),
{
    proof {
        reveal_strlit(" ");
        assert(" "@ =~= seq![' ']);
    }
    match CssParser::selector_list_doc(t) {
        Some(d) => d.add(text_doc(" ")),
        None => {
            let mut out = t.to_owned();
            push_all(&mut out, " ");
            Document::Text(out)
        },
    }
}

/// Lays out a rule or declaration for a range (see `node_range_doc`).
pub fn node_range_to_doc(s: &Vec<char>, n: &CssNode, a: usize, b: usize) -> (r: Document)
    ensures
        r@ == node_range_doc(s@, *n, a as int, b as int),
    decreases n, 0int,
{
    proof {
        reveal_strlit(" ");
        assert(" "@ =~= seq![' ']);
        reveal_strlit("@media");
        assert("@media"@ =~= seq!['@', 'm', 'e', 'd', 'i', 'a']);
        reveal_strlit("@supports");
        assert("@supports"@ =~= seq!['@', 's', 'u', 'p', 'p', 'o', 'r', 't', 's']);
        reveal_strlit("@font-face ");
        assert("@font-face "@ =~= seq!['@', 'f', 'o', 'n', 't', '-', 'f', 'a', 'c', 'e', ' ']);
    }
    match n {
        CssNode::Qualified { selector, block } => {
            let sel = span_text_string(s, selector);
            qualified_head_doc(sel.as_str()).add(block_range_to_doc(s, block, a, b))
        },
        CssNode::Media { prelude, block } => {
            let head = with_suffix(at_head_string(String::from_str("@media"), span_text_string(s, prelude)), " ");
            Document::Text(head).add(block_range_to_doc(s, block, a, b))
        },
        CssNode::Supports { prelude, block } => {
            let head = with_suffix(
                at_head_string(String::from_str("@supports"), span_text_string(s, prelude)),
                " ",
            );
            Document::Text(head).add(block_range_to_doc(s, block, a, b))
        },
        CssNode::FontFace { block } => text_doc("@font-face ").add(block_range_to_doc(s, block, a, b)),
        CssNode::Generic { name, prelude, block } => match block {
            Some(bk) => {
                let head = at_head_string(span_text_string(s, name), span_text_string(s, prelude));
                Document::Text(with_suffix(head, " ")).add(block_range_to_doc(s, bk, a, b))
            },
            None => node_to_doc(s, true, n),
        },
        _ => node_to_doc(s, true, n),
    }
}

/// Lays out the entries of a list of items for a range (see `range_entries`).
pub fn range_entries_to_docs(s: &Vec<char>, ns: &Nodes, a: usize, b: usize) -> (r: Vec<Document>)
    ensures
        view_docs(r@) == range_entries(s@, *ns, a as int, b as int),
    decreases ns, 0int,
{
    match ns {
        Nodes::End => empty_docs(),
        Nodes::Node(cs, sp, n, rest) => {
            let item = if sp.start < b && a < sp.end {
                node_range_to_doc(s, n, a, b)
            } else {
                Document::Text(span_text_string(s, sp))
            };
            let head = concat_docs(comments_to_docs(s, cs), single(item));
            concat_docs(head, range_entries_to_docs(s, rest, a, b))
        },
    }
}

/// Lays out a block for a range (see `block_range_doc`).
pub fn block_range_to_doc(s: &Vec<char>, ns: &Nodes, a: usize, b: usize) -> (r: Document)
    ensures
        r@ == block_range_doc(s@, *ns, a as int, b as int),
    decreases ns, 1int,
{
    proof {
        reveal_strlit("{}");
        assert("{}"@ =~= seq!['{', '}']);
        reveal_strlit("{");
        assert("{"@ =~= seq!['{']);
        reveal_strlit("}");
        assert("}"@ =~= seq!['}']);
    }
    let es = range_entries_to_docs(s, ns, a, b);
    proof {
        lemma_view_docs(es@);
    }
    if es.len() == 0 {
        text_doc("{}")
    } else {
        let body = Document::Hardline.add(Document::join(Document::Hardline, es));
        text_doc("{").add(body.indent()).add(Document::Hardline).add(text_doc("}"))
    }
}

/// Lays out a stylesheet for a range (see `stylesheet_range_doc`).
pub fn stylesheet_range_to_doc(s: &Vec<char>, sheet: &Stylesheet, a: usize, b: usize) -> (r: Document)
    ensures
        r@ == stylesheet_range_doc(s@, *sheet, a as int, b as int),
{
    let all = concat_docs(comments_to_docs(s, &sheet.comments), range_entries_to_docs(s, &sheet.rules, a, b));
    Document::join(Document::Hardline.add(Document::Hardline), all)
}

/// Pretty-print the part of a CSS stylesheet that overlaps the character
/// positions from `range.start` up to `range.end`: entries outside it keep
/// their source text, and qualified rules inside it lay out their selector
/// lists (see `stylesheet_range_doc`).
pub fn prettify_css_range(input: &str, range: std::ops::Range<usize>, config: &PrinterConfig) -> (r: Option<
    String,
>)
    requires
        printable(
            stylesheet_range_doc(input@, spec_parse_stylesheet(input@), range.start as int, range.end as int),
            config.max_width,
            config.indent,
        ),
    ensures
        r matches Some(out) && out@ == rendered(
            stylesheet_range_doc(input@, spec_parse_stylesheet(input@), range.start as int, range.end as int),
            config.max_width,
            config.indent,
            config.use_tabs,
        ),
{
    let s = chars_of(input);
    let sheet = parse_stylesheet_chars(&s);
    let doc = stylesheet_range_to_doc(&s, &sheet, range.start, range.end);
    Some(render(&doc, config))
}

/// Pretty-print a CSS stylesheet: the rules that can be read, each entry of a
/// block on a line of its own, a blank line between top-level entries.
pub fn prettify_css(input: &str, config: &PrinterConfig) -> (r: Option<String>)
    requires
        printable(stylesheet_doc(input@, true, spec_parse_stylesheet(input@)), config.max_width, config.indent),
    ensures
        r matches Some(out) && out@ == rendered(
            stylesheet_doc(input@, true, spec_parse_stylesheet(input@)),
            config.max_width,
            config.indent,
            config.use_tabs,
        ),
{
    let s = chars_of(input);
    let sheet = parse_stylesheet_chars(&s);
    let doc = stylesheet_to_doc(&s, true, &sheet);
    Some(render(&doc, config))
}

} // verus!
