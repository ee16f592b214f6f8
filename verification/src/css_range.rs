//! What range formatting keeps of a stylesheet: every entry that the range
//! misses, however deeply it is nested in blocks that the range overlaps,
//! stands in the layout as its source text.

use vstd::prelude::*;

use crate::css::{block_range_doc, node_range_doc, range_entries, stylesheet_range_doc};
use crate::css_grammar::{CssNode, Nodes, Stylesheet};
use crate::doc::{flat_join, flat_text, lemma_flat_add, spec_add, DocumentSpec};
use crate::google_sheets::{span_text, Span};
use crate::json::overlaps;

verus! {

/// The entry whose span is `x` is one of the entries of `ns`, or sits in the
/// block of an entry of `ns` that overlaps the range from `a` to `b`, however
/// deeply: the entries that range formatting lays out on their own.
pub open spec fn reached_in_nodes(x: Span, ns: Nodes, a: int, b: int) -> bool
    decreases ns, 1int,
{
    match ns {
        Nodes::End => false,
        Nodes::Node(_, sp, n, rest) => sp == x || (overlaps(sp, a, b) && reached_in_node(x, *n, a, b))
            || reached_in_nodes(x, *rest, a, b),
    }
}

/// `reached_in_nodes` in the block of a rule.
pub open spec fn reached_in_node(x: Span, n: CssNode, a: int, b: int) -> bool
    decreases n, 0int,
{
    match n {
        CssNode::Qualified { block, .. } => reached_in_nodes(x, block, a, b),
        CssNode::Media { block, .. } => reached_in_nodes(x, block, a, b),
        CssNode::Supports { block, .. } => reached_in_nodes(x, block, a, b),
        CssNode::FontFace { block } => reached_in_nodes(x, block, a, b),
        CssNode::Generic { block, .. } => match block {
            Some(bk) => reached_in_nodes(x, bk, a, b),
            None => false,
        },
        _ => false,
    }
}

/// Joining two lists of documents: the joins of both, with the separator
/// between them where neither is empty.
proof fn lemma_flat_join_concat(sep: Seq<char>, xs: Seq<DocumentSpec>, ys: Seq<DocumentSpec>)
    ensures
        flat_join(sep, xs + ys) == (if xs.len() == 0 {
            flat_join(sep, ys)
        } else if ys.len() == 0 {
            flat_join(sep, xs)
        } else {
            flat_join(sep, xs) + sep + flat_join(sep, ys)
        }),
    decreases ys.len(),
{
    let all = xs + ys;
    if xs.len() == 0 {
        assert(all =~= ys);
    } else if ys.len() == 0 {
        assert(all =~= xs);
    } else {
        let init = ys.subrange(0, ys.len() - 1);
        lemma_flat_join_concat(sep, xs, init);
        assert(all.subrange(0, all.len() - 1) =~= xs + init);
        assert(all[all.len() - 1] == ys[ys.len() - 1]);
        if init.len() == 0 {
            assert(xs + init =~= xs);
            assert(ys.len() == 1);
            assert(flat_join(sep, ys) == flat_text(ys[0]));
        }
        assert(flat_join(sep, all) =~= flat_join(sep, xs) + sep + flat_join(sep, ys));
    }
}

/// The join of one document is its text.
proof fn lemma_flat_join_one(sep: Seq<char>, d: DocumentSpec)
    ensures
        flat_join(sep, seq![d]) == flat_text(d),
{
}

/// A block for a range, laid out flat: its braces around its entries, one
/// per line.
proof fn lemma_block_range_flat(s: Seq<char>, ns: Nodes, a: int, b: int)
    requires
        range_entries(s, ns, a, b).len() > 0,
    ensures
        flat_text(block_range_doc(s, ns, a, b)) == seq!['{', '\n'] + flat_join(seq!['\n'], range_entries(s, ns, a, b))
            + seq!['\n', '}'],
{
    let es = range_entries(s, ns, a, b);
    let j = DocumentSpec::Join(Box::new(DocumentSpec::Hardline), es);
    let inner = spec_add(DocumentSpec::Hardline, j);
    let d1 = spec_add(DocumentSpec::Text(seq!['{']), DocumentSpec::Indent(Box::new(inner)));
    let d2 = spec_add(d1, DocumentSpec::Hardline);
    lemma_flat_add(DocumentSpec::Hardline, j);
    lemma_flat_add(DocumentSpec::Text(seq!['{']), DocumentSpec::Indent(Box::new(inner)));
    lemma_flat_add(d1, DocumentSpec::Hardline);
    lemma_flat_add(d2, DocumentSpec::Text(seq!['}']));
    assert(flat_text(DocumentSpec::Hardline) == seq!['\n']);
    assert(flat_text(j) == flat_join(seq!['\n'], es));
    assert(flat_text(block_range_doc(s, ns, a, b)) =~= seq!['{', '\n'] + flat_join(seq!['\n'], es) + seq![
        '\n',
        '}',
    ]);
}

proof fn lemma_reached_nonempty(s: Seq<char>, x: Span, ns: Nodes, a: int, b: int)
    requires
        reached_in_nodes(x, ns, a, b),
    ensures
        range_entries(s, ns, a, b).len() > 0,
{
    match ns {
        Nodes::End => {},
        Nodes::Node(cs, sp, n, rest) => {},
    }
}

/// The entries of a list, joined with `sep` and laid out flat, hold the source
/// text of every entry that the range misses and that is reached there.
proof fn lemma_kept_entries(s: Seq<char>, sep: Seq<char>, ns: Nodes, x: Span, a: int, b: int) -> (r: (
    Seq<char>,
    Seq<char>,
))
    requires
        reached_in_nodes(x, ns, a, b),
        !overlaps(x, a, b),
    ensures
        flat_join(sep, range_entries(s, ns, a, b)) == r.0 + span_text(s, x) + r.1,
    decreases ns, 1int,
{
    match ns {
        Nodes::End => (Seq::empty(), Seq::empty()),
        Nodes::Node(cs, sp, n, rest) => {
            let cd = crate::css::comments_docs(s, cs);
            let item = if overlaps(sp, a, b) {
                node_range_doc(s, *n, a, b)
            } else {
                DocumentSpec::Text(span_text(s, sp))
            };
            let rd = range_entries(s, *rest, a, b);
            let head = cd + seq![item];
            assert(range_entries(s, ns, a, b) == head + rd);
            lemma_flat_join_concat(sep, head, rd);
            lemma_flat_join_concat(sep, cd, seq![item]);
            lemma_flat_join_one(sep, item);
            let pre_item = if cd.len() == 0 {
                Seq::<char>::empty()
            } else {
                flat_join(sep, cd) + sep
            };
            assert(flat_join(sep, head) == pre_item + flat_text(item));
            let after_item = if rd.len() == 0 {
                Seq::<char>::empty()
            } else {
                sep + flat_join(sep, rd)
            };
            assert(flat_join(sep, head + rd) == flat_join(sep, head) + after_item);
            if sp == x {
                (pre_item, after_item)
            } else if overlaps(sp, a, b) && reached_in_node(x, *n, a, b) {
                let (p, q) = lemma_kept_node(s, *n, x, a, b);
                (pre_item + p, q + after_item)
            } else {
                assert(reached_in_nodes(x, *rest, a, b));
                lemma_reached_nonempty(s, x, *rest, a, b);
                let (p, q) = lemma_kept_entries(s, sep, *rest, x, a, b);
                (flat_join(sep, head) + sep + p, q)
            }
        },
    }
}

/// A block for a range, laid out flat, holds the source text of every entry
/// that the range misses and that is reached in it.
proof fn lemma_kept_block(s: Seq<char>, ns: Nodes, x: Span, a: int, b: int) -> (r: (Seq<char>, Seq<char>))
    requires
        reached_in_nodes(x, ns, a, b),
        !overlaps(x, a, b),
    ensures
        flat_text(block_range_doc(s, ns, a, b)) == r.0 + span_text(s, x) + r.1,
    decreases ns, 2int,
{
    lemma_reached_nonempty(s, x, ns, a, b);
    lemma_block_range_flat(s, ns, a, b);
    let (p, q) = lemma_kept_entries(s, seq!['\n'], ns, x, a, b);
    (seq!['{', '\n'] + p, q + seq!['\n', '}'])
}

/// A rule for a range, laid out flat, holds the source text of every entry
/// that the range misses and that is reached in its block.
proof fn lemma_kept_node(s: Seq<char>, n: CssNode, x: Span, a: int, b: int) -> (r: (Seq<char>, Seq<char>))
    requires
        reached_in_node(x, n, a, b),
        !overlaps(x, a, b),
    ensures
        flat_text(node_range_doc(s, n, a, b)) == r.0 + span_text(s, x) + r.1,
    decreases n, 3int,
{
    let (head, block) = match n {
        CssNode::Qualified { selector, block } => (crate::css::qualified_head(span_text(s, selector)), block),
        CssNode::Media { prelude, block } => (
            DocumentSpec::Text(crate::css::at_head(seq!['@', 'm', 'e', 'd', 'i', 'a'], span_text(s, prelude)) + seq![
                ' ',
            ]),
            block,
        ),
        CssNode::Supports { prelude, block } => (
            DocumentSpec::Text(
                crate::css::at_head(seq!['@', 's', 'u', 'p', 'p', 'o', 'r', 't', 's'], span_text(s, prelude))
                    + seq![' '],
            ),
            block,
        ),
        CssNode::FontFace { block } => (
            DocumentSpec::Text(seq!['@', 'f', 'o', 'n', 't', '-', 'f', 'a', 'c', 'e', ' ']),
            block,
        ),
        CssNode::Generic { name, prelude, block } => (
            DocumentSpec::Text(crate::css::at_head(span_text(s, name), span_text(s, prelude)) + seq![' ']),
            block->0,
        ),
        _ => (DocumentSpec::Null, Nodes::End),
    };
    assert(node_range_doc(s, n, a, b) == spec_add(head, block_range_doc(s, block, a, b)));
    assert(reached_in_nodes(x, block, a, b));
    lemma_flat_add(head, block_range_doc(s, block, a, b));
    let (p, q) = lemma_kept_block(s, block, x, a, b);
    (flat_text(head) + p, q)
}

/// Range formatting keeps as written every entry that the range misses, at
/// any depth: when the entry whose span is `x` is a top-level entry of the
/// stylesheet, or sits in blocks (of rules, `@media`, `@supports` and other
/// at-rules) whose entries overlap the range, and `x` does not overlap the
/// range, the text of the range layout, laid out on one line, holds the
/// source text of that entry unchanged.
pub proof fn lemma_css_range_keeps_missed(s: Seq<char>, sheet: Stylesheet, x: Span, a: int, b: int)
    requires
        reached_in_nodes(x, sheet.rules, a, b),
        !overlaps(x, a, b),
    ensures
        exists|pre: Seq<char>, post: Seq<char>|
            flat_text(stylesheet_range_doc(s, sheet, a, b)) == pre + span_text(s, x) + post,
{
    let sep = seq!['\n', '\n'];
    let cd = crate::css::comments_docs(s, sheet.comments);
    let es = range_entries(s, sheet.rules, a, b);
    let hh = spec_add(DocumentSpec::Hardline, DocumentSpec::Hardline);
    lemma_flat_add(DocumentSpec::Hardline, DocumentSpec::Hardline);
    assert(flat_text(hh) =~= sep);
    lemma_reached_nonempty(s, x, sheet.rules, a, b);
    let (p, q) = lemma_kept_entries(s, sep, sheet.rules, x, a, b);
    lemma_flat_join_concat(sep, cd, es);
    let pre = if cd.len() == 0 {
        p
    } else {
        flat_join(sep, cd) + sep + p
    };
    assert(flat_text(stylesheet_range_doc(s, sheet, a, b)) == pre + span_text(s, x) + q);
}

} // verus!
