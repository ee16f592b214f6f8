//! What the layout of a stylesheet keeps of its text: laid out on one line,
//! the document of a stylesheet holds the characters of the text that the
//! parse read, other than white space, in their order.

use vstd::prelude::*;

use crate::css::{
    lemma_selector_layout_keeps_text, qualified_head, at_head, block_doc, comma_space, comments_docs, entries, node_doc, stylesheet_doc, trimmed_span, values_docs,
};
use crate::css_grammar::{
    brace_run, c_at_rule, c_block, c_content, c_font_face, c_import, c_media, c_supports, c_declaration, c_generic, c_more_values, c_rule, c_rules, c_ws,
    comment_end, last_solid, name_run, prop_end, sel_run, selector_end, spec_parse_stylesheet,
    val_run, value_end, word_at, CssNode, Nodes, Spans,
};
use crate::doc::{flat_join, flat_text, lemma_flat_add, lemma_flat_join_cons, spec_add, DocumentSpec};
use crate::google_sheets::{at, is_ws, lemma_skip_ws, skip_ws, span, span_text};
use crate::text::{is_unicode_ws, lemma_visible_add, lemma_visible_trim, trim, visible};

verus! {

/// The characters of the source between `a` and `b` that are not white space.
pub open spec fn vsrc(s: Seq<char>, a: int, b: int) -> Seq<char> {
    visible(s.subrange(a, b))
}

/// The characters of a document, laid out flat, that are not white space.
pub open spec fn vdoc(d: DocumentSpec) -> Seq<char> {
    visible(flat_text(d))
}

/// The characters of the documents, laid out flat, that are not white space,
/// one document after another.
pub open spec fn vis_all(ds: Seq<DocumentSpec>) -> Seq<char>
    decreases ds.len(),
{
    if ds.len() == 0 {
        Seq::empty()
    } else {
        vdoc(ds[0]) + vis_all(ds.subrange(1, ds.len() as int))
    }
}

proof fn lemma_vis_all_add(a: Seq<DocumentSpec>, b: Seq<DocumentSpec>)
    ensures
        vis_all(a + b) == vis_all(a) + vis_all(b),
    decreases a.len(),
{
    if a.len() == 0 {
        assert(a + b =~= b);
        assert(vis_all(a) + vis_all(b) =~= vis_all(b));
    } else {
        lemma_vis_all_add(a.subrange(1, a.len() as int), b);
        assert((a + b).subrange(1, (a + b).len() as int) =~= a.subrange(1, a.len() as int) + b);
        assert((a + b)[0] == a[0]);
        assert(vis_all(a + b) =~= vis_all(a) + vis_all(b));
    }
}

proof fn lemma_vis_all_one(d: DocumentSpec)
    ensures
        vis_all(seq![d]) == vdoc(d),
{
    assert(seq![d].subrange(1, 1) =~= Seq::<DocumentSpec>::empty());
    assert(vis_all(seq![d]) =~= vdoc(d) + vis_all(Seq::<DocumentSpec>::empty()));
}

/// Laid out flat, documents joined by a separator without visible characters
/// show the documents' characters one after another.
proof fn lemma_visible_flat_join(sep: Seq<char>, ds: Seq<DocumentSpec>)
    requires
        visible(sep) == Seq::<char>::empty(),
    ensures
        visible(flat_join(sep, ds)) == vis_all(ds),
    decreases ds.len(),
{
    if ds.len() == 0 {
        assert(visible(Seq::<char>::empty()) == Seq::<char>::empty());
    } else {
        let rest = ds.subrange(1, ds.len() as int);
        assert(ds =~= seq![ds[0]] + rest);
        lemma_flat_join_cons(sep, ds[0], rest);
        if rest.len() == 0 {
            lemma_vis_all_one(ds[0]);
        } else {
            lemma_visible_flat_join(sep, rest);
            lemma_visible_add(flat_text(ds[0]) + sep, flat_join(sep, rest));
            lemma_visible_add(flat_text(ds[0]), sep);
            assert(visible(flat_text(ds[0])) + Seq::<char>::empty() =~= visible(flat_text(ds[0])));
        }
    }
}

proof fn lemma_visible_ws(t: Seq<char>)
    requires
        forall|i: int| 0 <= i < t.len() ==> is_unicode_ws(#[trigger] t[i]),
    ensures
        visible(t) == Seq::<char>::empty(),
    decreases t.len(),
{
    if t.len() > 0 {
        assert(is_unicode_ws(t[t.len() - 1]));
        lemma_visible_ws(t.drop_last());
    }
}

proof fn lemma_visible_solid(t: Seq<char>)
    requires
        forall|i: int| 0 <= i < t.len() ==> !is_unicode_ws(#[trigger] t[i]),
    ensures
        visible(t) == t,
    decreases t.len(),
{
    if t.len() > 0 {
        assert(!is_unicode_ws(t[t.len() - 1]));
        lemma_visible_solid(t.drop_last());
        assert(t.drop_last().push(t.last()) =~= t);
    }
}

proof fn lemma_vsrc_split(s: Seq<char>, a: int, b: int, c: int)
    requires
        0 <= a <= b <= c <= s.len(),
    ensures
        vsrc(s, a, c) == vsrc(s, a, b) + vsrc(s, b, c),
{
    assert(s.subrange(a, c) =~= s.subrange(a, b) + s.subrange(b, c));
    lemma_visible_add(s.subrange(a, b), s.subrange(b, c));
}

proof fn lemma_vsrc_empty(s: Seq<char>, a: int)
    requires
        0 <= a <= s.len(),
    ensures
        vsrc(s, a, a) == Seq::<char>::empty(),
{
    assert(s.subrange(a, a) =~= Seq::<char>::empty());
}

/// Spaces, tabs and line breaks skipped leave nothing visible.
proof fn lemma_vsrc_skip(s: Seq<char>, a: int)
    requires
        0 <= a <= s.len(),
    ensures
        a <= skip_ws(s, a) <= s.len(),
        vsrc(s, a, skip_ws(s, a)) == Seq::<char>::empty(),
{
    lemma_skip_ws(s, a);
    let q = skip_ws(s, a);
    let t = s.subrange(a, q);
    assert forall|i: int| 0 <= i < t.len() implies is_unicode_ws(#[trigger] t[i]) by {
        assert(t[i] == s[a + i]);
        assert(is_ws(s[a + i]));
    }
    lemma_visible_ws(t);
}

/// A character that is not white space, seen by itself.
proof fn lemma_vsrc_char(s: Seq<char>, i: int)
    requires
        0 <= i < s.len(),
        !is_unicode_ws(s[i]),
    ensures
        vsrc(s, i, i + 1) == seq![s[i]],
{
    assert(s.subrange(i, i + 1) =~= seq![s[i]]);
    lemma_visible_solid(seq![s[i]]);
}

/// A word of the grammar, where it stands.
proof fn lemma_vsrc_word(s: Seq<char>, i: int, w: Seq<char>)
    requires
        word_at(s, i, w),
        forall|k: int| 0 <= k < w.len() ==> !is_unicode_ws(#[trigger] w[k]),
    ensures
        vsrc(s, i, i + w.len()) == w,
{
    lemma_visible_solid(w);
}

/// The text of a span in the source is the source between its ends.
proof fn lemma_span(s: Seq<char>, a: int, b: int)
    requires
        0 <= a <= b <= s.len(),
        s.len() <= usize::MAX,
    ensures
        span_text(s, span(a, b)) == s.subrange(a, b),
        visible(span_text(s, span(a, b))) == vsrc(s, a, b),
{
}


proof fn lemma_sel_run(s: Seq<char>, i: int)
    requires
        0 <= i <= s.len(),
    ensures
        i <= sel_run(s, i) <= s.len(),
    decreases s.len() - i,
{
    if i < s.len() && s[i] != '{' && s[i] != '}' && s[i] != ';' {
        lemma_sel_run(s, i + 1);
    }
}

proof fn lemma_val_run(s: Seq<char>, i: int)
    requires
        0 <= i <= s.len(),
    ensures
        i <= val_run(s, i) <= s.len(),
    decreases s.len() - i,
{
    if i < s.len() && s[i] != ';' && s[i] != '{' && s[i] != '}' && s[i] != '!' && s[i] != ',' {
        lemma_val_run(s, i + 1);
    }
}

proof fn lemma_name_run(s: Seq<char>, i: int)
    requires
        0 <= i <= s.len(),
    ensures
        i <= name_run(s, i) <= s.len(),
    decreases s.len() - i,
{
    if i < s.len() && crate::css_grammar::is_name_char(s[i]) {
        lemma_name_run(s, i + 1);
    }
}

proof fn lemma_last_solid(s: Seq<char>, lo: int, j: int)
    requires
        0 <= lo,
        j <= s.len(),
    ensures
        last_solid(s, lo, j) == -1 || lo <= last_solid(s, lo, j) < j,
    decreases j - lo,
{
    if j > lo && is_unicode_ws(s[j - 1]) {
        lemma_last_solid(s, lo, j - 1);
    }
}

proof fn lemma_selector_end(s: Seq<char>, i: int)
    requires
        0 <= i <= s.len(),
    ensures
        selector_end(s, i) matches Some(e) ==> i < e <= s.len(),
{
    lemma_sel_run(s, i);
    lemma_last_solid(s, i + 1, sel_run(s, i));
}

/// The comments read with the white space between `i` and where it ends are
/// the visible characters there.
proof fn lemma_c_ws(s: Seq<char>, i: int)
    requires
        0 <= i <= s.len(),
        s.len() <= usize::MAX,
    ensures
        i <= c_ws(s, i).1 <= s.len(),
        vsrc(s, i, c_ws(s, i).1) == vis_all(comments_docs(s, c_ws(s, i).0)),
    decreases s.len() - i,
{
    if i >= s.len() {
        lemma_vsrc_empty(s, i);
        assert(comments_docs(s, Spans::End) =~= Seq::<DocumentSpec>::empty());
    } else if is_unicode_ws(s[i]) {
        lemma_c_ws(s, i + 1);
        let q = c_ws(s, i).1;
        assert(s.subrange(i, i + 1) =~= seq![s[i]]);
        lemma_visible_ws(seq![s[i]]);
        lemma_vsrc_split(s, i, i + 1, q);
    } else {
        crate::css_grammar::lemma_comment_close(s, i + 2);
        match comment_end(s, i) {
            Some(e) => {
                if i < e <= s.len() {
                    lemma_c_ws(s, e);
                    let (rest, q) = c_ws(s, e);
                    lemma_span(s, i, e);
                    lemma_vsrc_split(s, i, e, q);
                    let d = DocumentSpec::Text(span_text(s, span(i, e)));
                    assert(comments_docs(s, c_ws(s, i).0) == seq![d] + comments_docs(s, rest));
                    lemma_vis_all_add(seq![d], comments_docs(s, rest));
                    lemma_vis_all_one(d);
                } else {
                    lemma_vsrc_empty(s, i);
                    assert(comments_docs(s, Spans::End) =~= Seq::<DocumentSpec>::empty());
                }
            },
            None => {
                lemma_vsrc_empty(s, i);
                assert(comments_docs(s, Spans::End) =~= Seq::<DocumentSpec>::empty());
            },
        }
    }
}

/// The visible characters of further values: each value after a comma.
pub open spec fn tail_vis(s: Seq<char>, vs: Spans) -> Seq<char>
    decreases vs,
{
    match vs {
        Spans::End => Seq::empty(),
        Spans::More(sp, rest) => seq![','] + visible(span_text(s, sp)) + tail_vis(s, *rest),
    }
}

proof fn lemma_more_values(s: Seq<char>, pos: int)
    requires
        0 <= pos <= s.len(),
        s.len() <= usize::MAX,
    ensures
        pos <= c_more_values(s, pos).1 <= s.len(),
        vsrc(s, pos, c_more_values(s, pos).1) == tail_vis(s, c_more_values(s, pos).0),
    decreases s.len() - pos,
{
    lemma_vsrc_empty(s, pos);
    let x = skip_ws(s, pos);
    lemma_vsrc_skip(s, pos);
    if at(s, x) == ',' {
        let y = skip_ws(s, x + 1);
        lemma_vsrc_skip(s, x + 1);
        lemma_val_run(s, y);
        match value_end(s, y) {
            None => {},
            Some(e) => {
                if pos < e <= s.len() {
                    lemma_more_values(s, e);
                    let r = c_more_values(s, e).1;
                    lemma_span(s, y, e);
                    lemma_vsrc_char(s, x);
                    lemma_vsrc_split(s, pos, x, r);
                    lemma_vsrc_split(s, x, x + 1, r);
                    lemma_vsrc_split(s, x + 1, y, r);
                    lemma_vsrc_split(s, y, e, r);
                    assert(vsrc(s, pos, r) =~= tail_vis(s, c_more_values(s, pos).0));
                }
            },
        }
    }
}

/// Values joined by `, `, laid out flat: the first value, then each further
/// value after a comma.
proof fn lemma_values_join(s: Seq<char>, sp: crate::google_sheets::Span, rest: Spans)
    ensures
        vdoc(DocumentSpec::Join(Box::new(comma_space()), values_docs(s, Spans::More(sp, Box::new(rest)))))
            == visible(span_text(s, sp)) + tail_vis(s, rest),
    decreases rest,
{
    let sep = seq![',', ' '];
    let d = DocumentSpec::Text(trimmed_span(s, sp));
    let rd = values_docs(s, rest);
    assert(flat_text(comma_space()) == sep);
    assert(values_docs(s, Spans::More(sp, Box::new(rest))) == seq![d] + rd);
    lemma_flat_join_cons(sep, d, rd);
    lemma_visible_trim(span_text(s, sp));
    match rest {
        Spans::End => {
            assert(rd =~= Seq::<DocumentSpec>::empty());
            assert(tail_vis(s, rest) == Seq::<char>::empty());
            assert(visible(span_text(s, sp)) + tail_vis(s, rest) =~= visible(span_text(s, sp)));
        },
        Spans::More(sp2, rest2) => {
            lemma_values_join(s, sp2, *rest2);
            assert(flat_text(DocumentSpec::Join(Box::new(comma_space()), rd)) == flat_join(sep, rd));
            lemma_visible_add(flat_text(d) + sep, flat_join(sep, rd));
            lemma_visible_add(flat_text(d), sep);
            reveal_with_fuel(visible, 3);
            assert(visible(sep) =~= seq![',']);
            assert(vdoc(DocumentSpec::Join(Box::new(comma_space()), values_docs(s, Spans::More(sp, Box::new(rest)))))
                =~= visible(span_text(s, sp)) + tail_vis(s, rest));
        },
    }
}

/// The head of an at-rule shows its name and its prelude.
proof fn lemma_at_head(name: Seq<char>, prelude: Seq<char>)
    ensures
        visible(at_head(name, prelude)) == visible(name) + visible(prelude),
{
    lemma_visible_trim(prelude);
    if trim(prelude).len() > 0 {
        lemma_visible_add(name + seq![' '], trim(prelude));
        lemma_visible_add(name, seq![' ']);
        reveal_with_fuel(visible, 2);
        assert(visible(seq![' ']) =~= Seq::<char>::empty());
        assert(visible(name) + Seq::<char>::empty() =~= visible(name));
    } else {
        assert(trim(prelude) =~= Seq::<char>::empty());
        assert(visible(Seq::<char>::empty()) == Seq::<char>::empty());
        assert(visible(name) + visible(prelude) =~= visible(name));
    }
}

/// A head text followed by a document.
proof fn lemma_head_then(head: Seq<char>, d: DocumentSpec)
    ensures
        vdoc(spec_add(DocumentSpec::Text(head + seq![' ']), d)) == visible(head) + vdoc(d),
{
    lemma_flat_add(DocumentSpec::Text(head + seq![' ']), d);
    lemma_visible_add(head + seq![' '], flat_text(d));
    lemma_visible_add(head, seq![' ']);
    reveal_with_fuel(visible, 2);
    assert(visible(seq![' ']) =~= Seq::<char>::empty());
    assert(visible(head) + Seq::<char>::empty() =~= visible(head));
}

/// A qualified rule's head followed by a document: the selectors' visible
/// characters, then the document's.
proof fn lemma_qualified_head_then(t: Seq<char>, d: DocumentSpec)
    ensures
        vdoc(spec_add(qualified_head(t), d)) == visible(t) + vdoc(d),
{
    lemma_selector_layout_keeps_text(t);
    match crate::css::spec_selector_list_doc(t) {
        None => lemma_head_then(t, d),
        Some(g) => {
            let sp = DocumentSpec::Text(seq![' ']);
            lemma_flat_add(g, sp);
            lemma_flat_add(spec_add(g, sp), d);
            lemma_visible_add(flat_text(g) + seq![' '], flat_text(d));
            lemma_visible_add(flat_text(g), seq![' ']);
            reveal_with_fuel(visible, 2);
            assert(visible(seq![' ']) =~= Seq::<char>::empty());
            assert(visible(flat_text(g)) + Seq::<char>::empty() =~= visible(flat_text(g)));
        },
    }
}

/// A block shows its braces around the visible characters of its entries.
proof fn lemma_block_doc(s: Seq<char>, ns: Nodes)
    ensures
        vdoc(block_doc(s, true, ns)) == seq!['{'] + vis_all(entries(s, true, ns)) + seq!['}'],
{
    let es = entries(s, true, ns);
    if es.len() == 0 {
        lemma_visible_solid(seq!['{', '}']);
        assert(vis_all(es) == Seq::<char>::empty());
        assert(seq!['{'] + vis_all(es) + seq!['}'] =~= seq!['{', '}']);
    } else {
        let j = DocumentSpec::Join(Box::new(DocumentSpec::Hardline), es);
        let inner = spec_add(DocumentSpec::Hardline, j);
        let d1 = spec_add(DocumentSpec::Text(seq!['{']), DocumentSpec::Indent(Box::new(inner)));
        let d2 = spec_add(d1, DocumentSpec::Hardline);
        lemma_flat_add(DocumentSpec::Hardline, j);
        lemma_flat_add(DocumentSpec::Text(seq!['{']), DocumentSpec::Indent(Box::new(inner)));
        lemma_flat_add(d1, DocumentSpec::Hardline);
        lemma_flat_add(d2, DocumentSpec::Text(seq!['}']));
        let nl = seq!['\n'];
        reveal_with_fuel(visible, 2);
        assert(visible(nl) =~= Seq::<char>::empty());
        assert(flat_text(DocumentSpec::Hardline) == nl);
        lemma_visible_flat_join(nl, es);
        let fj = flat_join(nl, es);
        assert(flat_text(block_doc(s, true, ns)) =~= seq!['{'] + nl + fj + nl + seq!['}']);
        lemma_visible_add(seq!['{'] + nl + fj + nl, seq!['}']);
        lemma_visible_add(seq!['{'] + nl + fj, nl);
        lemma_visible_add(seq!['{'] + nl, fj);
        lemma_visible_add(seq!['{'], nl);
        lemma_visible_solid(seq!['{']);
        lemma_visible_solid(seq!['}']);
        assert(vdoc(block_doc(s, true, ns)) =~= seq!['{'] + vis_all(es) + seq!['}']);
    }
}



proof fn lemma_visible_colon_space()
    ensures
        visible(seq![':', ' ']) == seq![':'],
{
    lemma_visible_add(seq![':'], seq![' ']);
    lemma_visible_solid(seq![':']);
    lemma_visible_ws(seq![' ']);
    assert(seq![':'] + seq![' '] =~= seq![':', ' ']);
    assert(seq![':'] + Seq::<char>::empty() =~= seq![':']);
}

proof fn lemma_visible_important()
    ensures
        visible(seq![' ', '!', 'i', 'm', 'p', 'o', 'r', 't', 'a', 'n', 't']) == seq!['!', 'i', 'm', 'p', 'o', 'r',
            't', 'a', 'n', 't'],
{
    let w = seq!['!', 'i', 'm', 'p', 'o', 'r', 't', 'a', 'n', 't'];
    lemma_visible_add(seq![' '], w);
    lemma_visible_solid(w);
    lemma_visible_ws(seq![' ']);
    assert(seq![' '] + w =~= seq![' ', '!', 'i', 'm', 'p', 'o', 'r', 't', 'a', 'n', 't']);
    assert(Seq::<char>::empty() + w =~= w);
}

/// What a declaration's layout shows: the property, `:`, the values with
/// commas between them, `!important` and `;` where the declaration has them.
proof fn lemma_decl_doc(s: Seq<char>, prop: crate::google_sheets::Span, first: crate::google_sheets::Span, more: Spans, important: bool, semicolon: bool)
    ensures
        vdoc(node_doc(s, true, CssNode::Declaration { property: prop, values: Spans::More(first, Box::new(more)), important, semicolon }))
            == visible(span_text(s, prop)) + seq![':'] + visible(span_text(s, first)) + tail_vis(s, more) + (if important {
            seq!['!', 'i', 'm', 'p', 'o', 'r', 't', 'a', 'n', 't']
        } else {
            Seq::<char>::empty()
        }) + (if semicolon {
            seq![';']
        } else {
            Seq::<char>::empty()
        }),
{
    let vals = Spans::More(first, Box::new(more));
    let head = DocumentSpec::Text(span_text(s, prop) + seq![':', ' ']);
    let join = DocumentSpec::Join(Box::new(comma_space()), values_docs(s, vals));
    let imp_doc = if important {
        DocumentSpec::Text(seq![' ', '!', 'i', 'm', 'p', 'o', 'r', 't', 'a', 'n', 't'])
    } else {
        DocumentSpec::Null
    };
    let semi_doc = if semicolon {
        DocumentSpec::Text(seq![';'])
    } else {
        DocumentSpec::Null
    };
    lemma_flat_add(head, join);
    lemma_flat_add(spec_add(head, join), imp_doc);
    lemma_flat_add(spec_add(spec_add(head, join), imp_doc), semi_doc);
    lemma_values_join(s, first, more);
    let ft = span_text(s, prop) + seq![':', ' '];
    lemma_visible_add(ft, flat_text(join));
    lemma_visible_add(ft + flat_text(join), flat_text(imp_doc));
    lemma_visible_add(ft + flat_text(join) + flat_text(imp_doc), flat_text(semi_doc));
    lemma_visible_add(span_text(s, prop), seq![':', ' ']);
    lemma_visible_colon_space();
    lemma_visible_important();
    lemma_visible_solid(seq![';']);
    assert(visible(Seq::<char>::empty()) == Seq::<char>::empty());
}

/// The visible characters between a declaration's last value and its end.
proof fn lemma_decl_tail(s: Seq<char>, c: int)
    requires
        0 <= c <= s.len(),
    ensures
        ({
            let d0 = skip_ws(s, c);
            let imp_word = seq!['i', 'm', 'p', 'o', 'r', 't', 'a', 'n', 't'];
            let important = at(s, d0) == '!' && word_at(s, skip_ws(s, d0 + 1), imp_word);
            let d = if important {
                skip_ws(s, d0 + 1) + 9
            } else {
                c
            };
            let e0 = skip_ws(s, d);
            let semicolon = at(s, e0) == ';';
            let e1 = if semicolon {
                e0 + 1
            } else {
                e0
            };
            let end = skip_ws(s, e1);
            &&& c <= end <= s.len()
            &&& vsrc(s, c, end) == (if important {
                seq!['!', 'i', 'm', 'p', 'o', 'r', 't', 'a', 'n', 't']
            } else {
                Seq::<char>::empty()
            }) + (if semicolon {
                seq![';']
            } else {
                Seq::<char>::empty()
            })
        }),
{
    let d0 = skip_ws(s, c);
    lemma_vsrc_skip(s, c);
    let imp_word = seq!['i', 'm', 'p', 'o', 'r', 't', 'a', 'n', 't'];
    let important = at(s, d0) == '!' && word_at(s, skip_ws(s, d0 + 1), imp_word);
    let d = if important {
        skip_ws(s, d0 + 1) + 9
    } else {
        c
    };
    if important {
        let d1 = skip_ws(s, d0 + 1);
        lemma_vsrc_skip(s, d0 + 1);
        lemma_vsrc_char(s, d0);
        lemma_vsrc_word(s, d1, imp_word);
        lemma_vsrc_split(s, c, d0, d);
        lemma_vsrc_split(s, d0, d0 + 1, d);
        lemma_vsrc_split(s, d0 + 1, d1, d);
        assert(vsrc(s, c, d) =~= seq!['!'] + imp_word);
    } else {
        lemma_vsrc_empty(s, c);
    }
    let e0 = skip_ws(s, d);
    lemma_vsrc_skip(s, d);
    let semicolon = at(s, e0) == ';';
    let e1 = if semicolon {
        e0 + 1
    } else {
        e0
    };
    if semicolon {
        lemma_vsrc_char(s, e0);
    } else {
        lemma_vsrc_empty(s, e0);
    }
    let end = skip_ws(s, e1);
    lemma_vsrc_skip(s, e1);
    lemma_vsrc_split(s, c, d, end);
    lemma_vsrc_split(s, d, e0, end);
    lemma_vsrc_split(s, e0, e1, end);
    assert(vsrc(s, c, end) =~= (if important {
        seq!['!'] + imp_word
    } else {
        Seq::<char>::empty()
    }) + (if semicolon {
        seq![';']
    } else {
        Seq::<char>::empty()
    }));
}

proof fn lemma_decl_src(s: Seq<char>, pos: int, q: int, pe: int, a: int, b: int, ve: int, c: int, end: int)
    requires
        0 <= pos <= q <= pe <= a < b <= ve <= c <= end <= s.len(),
        vsrc(s, pos, q) == Seq::<char>::empty(),
        vsrc(s, pe, a) == Seq::<char>::empty(),
        vsrc(s, a, a + 1) == seq![':'],
        vsrc(s, a + 1, b) == Seq::<char>::empty(),
    ensures
        vsrc(s, pos, end) == vsrc(s, q, pe) + seq![':'] + vsrc(s, b, ve) + vsrc(s, ve, c) + vsrc(s, c, end),
{
    lemma_vsrc_split(s, pos, q, end);
    lemma_vsrc_split(s, q, pe, end);
    lemma_vsrc_split(s, pe, a, end);
    lemma_vsrc_split(s, a, a + 1, end);
    lemma_vsrc_split(s, a + 1, b, end);
    lemma_vsrc_split(s, b, ve, end);
    lemma_vsrc_split(s, ve, c, end);
    assert(vsrc(s, pos, end) =~= vsrc(s, q, pe) + seq![':'] + vsrc(s, b, ve) + vsrc(s, ve, c) + vsrc(s, c, end));
}

#[verifier::spinoff_prover]
#[verifier::rlimit(50)]
proof fn lemma_declaration(s: Seq<char>, pos: int)
    requires
        0 <= pos <= s.len(),
        s.len() <= usize::MAX,
    ensures
        c_declaration(s, pos) matches Some((n, p)) ==> pos <= p <= s.len() && vdoc(node_doc(s, true, n)) == vsrc(
            s,
            pos,
            p,
        ),
{
    let q = skip_ws(s, pos);
    lemma_vsrc_skip(s, pos);
    match prop_end(s, q) {
        None => {},
        Some(pe) => {
            if crate::css_grammar::is_letter(at(s, q)) || at(s, q) == '_' {
                lemma_name_run(s, q + 1);
            } else if at(s, q) == '-' && at(s, q + 1) == '-' && crate::css_grammar::is_name_char(at(s, q + 2)) {
                lemma_name_run(s, q + 3);
            } else {
                lemma_name_run(s, q + 2);
            }
            let a = skip_ws(s, pe);
            lemma_vsrc_skip(s, pe);
            if at(s, a) == ':' {
                let b = skip_ws(s, a + 1);
                lemma_vsrc_skip(s, a + 1);
                lemma_val_run(s, b);
                match value_end(s, b) {
                    None => {},
                    Some(ve) => {
                        lemma_more_values(s, ve);
                        let (more, c) = c_more_values(s, ve);
                        lemma_decl_tail(s, c);
                        let (n, end) = c_declaration(s, pos)->Some_0;
                        lemma_decl_doc(s, span(q, pe), span(b, ve), more, n->important, n->semicolon);
                        lemma_span(s, q, pe);
                        lemma_span(s, b, ve);
                        lemma_vsrc_char(s, a);
                        lemma_decl_src(s, pos, q, pe, a, b, ve, c, end);
                        assert(vdoc(node_doc(s, true, n)) =~= vsrc(s, pos, end));
                    },
                }
            }
        },
    }
}


/// A brace at `i`, seen by itself.
proof fn lemma_vsrc_brace(s: Seq<char>, i: int, c: char)
    requires
        0 <= i < s.len(),
        s[i] == c,
        !is_unicode_ws(c),
    ensures
        vsrc(s, i, i + 1) == seq![c],
{
    lemma_vsrc_char(s, i);
}

proof fn lemma_block(s: Seq<char>, pos: int)
    requires
        s.len() <= usize::MAX,
    ensures
        c_block(s, pos) matches Some((ns, p)) ==> 0 <= pos <= p <= s.len() && vdoc(block_doc(s, true, ns)) == vsrc(
            s,
            pos,
            p,
        ),
    decreases s.len() - pos, 4int,
{
    if 0 <= pos <= s.len() {
        let q = skip_ws(s, pos);
        lemma_vsrc_skip(s, pos);
        if at(s, q) == '{' {
            let a = skip_ws(s, q + 1);
            lemma_vsrc_skip(s, q + 1);
            lemma_content(s, a);
            let (items, b) = c_content(s, a);
            let c = skip_ws(s, b);
            lemma_vsrc_skip(s, b);
            if at(s, c) == '}' {
                lemma_block_doc(s, items);
                lemma_vsrc_brace(s, q, '{');
                lemma_vsrc_brace(s, c, '}');
                lemma_vsrc_split(s, pos, q, c + 1);
                lemma_vsrc_split(s, q, q + 1, c + 1);
                lemma_vsrc_split(s, q + 1, a, c + 1);
                lemma_vsrc_split(s, a, b, c + 1);
                lemma_vsrc_split(s, b, c, c + 1);
                assert(vdoc(block_doc(s, true, items)) =~= vsrc(s, pos, c + 1));
            }
        }
    }
}

#[verifier::spinoff_prover]
#[verifier::rlimit(50)]
proof fn lemma_content(s: Seq<char>, pos: int)
    requires
        s.len() <= usize::MAX,
        0 <= pos <= s.len(),
    ensures
        pos <= c_content(s, pos).1 <= s.len(),
        vis_all(entries(s, true, c_content(s, pos).0)) == vsrc(s, pos, c_content(s, pos).1),
    decreases s.len() - pos, 3int,
{
    lemma_vsrc_empty(s, pos);
    assert(entries(s, true, Nodes::End) =~= Seq::<DocumentSpec>::empty());
    lemma_c_ws(s, pos);
    let (cs, q) = c_ws(s, pos);
    lemma_declaration(s, q);
    lemma_rule(s, q);
    let item = match c_declaration(s, q) {
        Some(r) => Some(r),
        None => c_rule(s, q),
    };
    match item {
        None => {},
        Some((node, p)) => {
            let p2 = skip_ws(s, p);
            lemma_vsrc_skip(s, p);
            if pos < p2 <= s.len() {
                lemma_content(s, p2);
                let (rest, r) = c_content(s, p2);
                let cd = comments_docs(s, cs);
                let nd = node_doc(s, true, node);
                assert(entries(s, true, c_content(s, pos).0) == cd + seq![nd] + entries(s, true, rest));
                lemma_vis_all_add(cd + seq![nd], entries(s, true, rest));
                lemma_vis_all_add(cd, seq![nd]);
                lemma_vis_all_one(nd);
                lemma_vsrc_split(s, pos, q, r);
                lemma_vsrc_split(s, q, p, r);
                lemma_vsrc_split(s, p, p2, r);
                assert(vis_all(entries(s, true, c_content(s, pos).0)) =~= vsrc(s, pos, r));
            }
        },
    }
}

proof fn lemma_rule(s: Seq<char>, pos: int)
    requires
        s.len() <= usize::MAX,
    ensures
        c_rule(s, pos) matches Some((n, p)) ==> 0 <= pos <= p <= s.len() && vdoc(node_doc(s, true, n)) == vsrc(s, pos, p),
    decreases s.len() - pos, 2int,
{
    if 0 <= pos <= s.len() {
        let q = skip_ws(s, pos);
        lemma_vsrc_skip(s, pos);
        if q < s.len() {
            lemma_selector_end(s, q);
            match selector_end(s, q) {
                None => {},
                Some(se) => {
                    lemma_block(s, se);
                    match c_block(s, se) {
                        None => {},
                        Some((items, p)) => {
                            lemma_span(s, q, se);
                            lemma_qualified_head_then(span_text(s, span(q, se)), block_doc(s, true, items));
                            lemma_vsrc_split(s, pos, q, p);
                            lemma_vsrc_split(s, q, se, p);
                        },
                    }
                },
            }
            lemma_at_rule(s, pos);
        }
    }
}

/// An at-rule with a fixed name, a prelude and a block shows the name, the
/// prelude and the block.
proof fn lemma_named_block(s: Seq<char>, pos: int, name: Seq<char>, pe: int, items: Nodes, p: int)
    requires
        s.len() <= usize::MAX,
        word_at(s, pos, name),
        forall|k: int| 0 <= k < name.len() ==> !is_unicode_ws(#[trigger] name[k]),
        pos + name.len() <= pe <= p <= s.len(),
        vdoc(block_doc(s, true, items)) == vsrc(s, pe, p),
    ensures
        vdoc(spec_add(
            DocumentSpec::Text(at_head(name, span_text(s, span(pos + name.len(), pe))) + seq![' ']),
            block_doc(s, true, items),
        )) == vsrc(s, pos, p),
{
    let n = name.len() as int;
    lemma_vsrc_word(s, pos, name);
    lemma_span(s, pos + n, pe);
    lemma_at_head(name, span_text(s, span(pos + n, pe)));
    lemma_visible_solid(name);
    lemma_head_then(at_head(name, span_text(s, span(pos + n, pe))), block_doc(s, true, items));
    lemma_vsrc_split(s, pos, pos + n, p);
    lemma_vsrc_split(s, pos + n, pe, p);
}

/// An `@import` shows its word, its values with commas, and `;`.
proof fn lemma_import(s: Seq<char>, pos: int)
    requires
        s.len() <= usize::MAX,
        0 <= pos < s.len(),
        c_import(s, pos) is Some,
    ensures
        c_import(s, pos) matches Some((n, p)) ==> pos <= p <= s.len() && vdoc(node_doc(s, true, n)) == vsrc(s, pos, p),
{
    let import = seq!['@', 'i', 'm', 'p', 'o', 'r', 't'];
    let ve = value_end(s, pos + 7)->Some_0;
    lemma_val_run(s, pos + 7);
    lemma_more_values(s, ve);
    let (more, c) = c_more_values(s, ve);
    let vals = Spans::More(span(pos + 7, ve), Box::new(more));
    let ht = seq!['@', 'i', 'm', 'p', 'o', 'r', 't', ' '];
    let head = DocumentSpec::Text(ht);
    let join = DocumentSpec::Join(Box::new(comma_space()), values_docs(s, vals));
    lemma_flat_add(head, join);
    lemma_flat_add(spec_add(head, join), DocumentSpec::Text(seq![';']));
    lemma_values_join(s, span(pos + 7, ve), more);
    lemma_span(s, pos + 7, ve);
    lemma_visible_add(ht, flat_text(join));
    lemma_visible_add(ht + flat_text(join), seq![';']);
    assert(ht =~= import + seq![' ']);
    lemma_visible_add(import, seq![' ']);
    lemma_visible_solid(import);
    lemma_visible_ws(seq![' ']);
    lemma_visible_solid(seq![';']);
    lemma_vsrc_word(s, pos, import);
    lemma_vsrc_char(s, c);
    lemma_vsrc_split(s, pos, pos + 7, c + 1);
    lemma_vsrc_split(s, pos + 7, ve, c + 1);
    lemma_vsrc_split(s, ve, c, c + 1);
    assert(vdoc(node_doc(s, true, CssNode::Import { values: vals })) =~= vsrc(s, pos, c + 1));
}

proof fn lemma_at_rule(s: Seq<char>, pos: int)
    requires
        s.len() <= usize::MAX,
    ensures
        c_at_rule(s, pos) matches Some((n, p)) ==> 0 <= pos <= p <= s.len() && vdoc(node_doc(s, true, n)) == vsrc(
            s,
            pos,
            p,
        ),
    decreases s.len() - pos, 1int,
{
    if 0 <= pos < s.len() && s[pos] == '@' {
        lemma_generic(s, pos);
        lemma_media(s, pos);
        lemma_supports(s, pos);
        lemma_font_face(s, pos);
        if c_import(s, pos) is Some {
            lemma_import(s, pos);
        }
    }
}

proof fn lemma_media(s: Seq<char>, pos: int)
    requires
        s.len() <= usize::MAX,
        0 <= pos,
    ensures
        c_media(s, pos) matches Some((n, p)) ==> pos <= p <= s.len() && vdoc(node_doc(s, true, n)) == vsrc(s, pos, p),
    decreases s.len() - pos, 0int,
{
    let media = seq!['@', 'm', 'e', 'd', 'i', 'a'];
    let pe = brace_run(s, pos + 6);
    if word_at(s, pos, media) && pos + 6 < pe <= s.len() {
        lemma_block(s, pe);
        if let Some((items, p)) = c_block(s, pe) {
            lemma_named_block(s, pos, media, pe, items, p);
        }
    }
}

proof fn lemma_supports(s: Seq<char>, pos: int)
    requires
        s.len() <= usize::MAX,
        0 <= pos,
    ensures
        c_supports(s, pos) matches Some((n, p)) ==> pos <= p <= s.len() && vdoc(node_doc(s, true, n)) == vsrc(s, pos, p),
    decreases s.len() - pos, 0int,
{
    let supports = seq!['@', 's', 'u', 'p', 'p', 'o', 'r', 't', 's'];
    let pe = brace_run(s, pos + 9);
    if word_at(s, pos, supports) && pos + 9 < pe <= s.len() {
        lemma_block(s, pe);
        if let Some((items, p)) = c_block(s, pe) {
            lemma_named_block(s, pos, supports, pe, items, p);
        }
    }
}

proof fn lemma_font_face(s: Seq<char>, pos: int)
    requires
        s.len() <= usize::MAX,
        0 <= pos,
    ensures
        c_font_face(s, pos) matches Some((n, p)) ==> pos <= p <= s.len() && vdoc(node_doc(s, true, n)) == vsrc(s, pos, p),
    decreases s.len() - pos, 0int,
{
    let font_face = seq!['@', 'f', 'o', 'n', 't', '-', 'f', 'a', 'c', 'e'];
    if word_at(s, pos, font_face) {
        lemma_block(s, pos + 10);
        if let Some((items, p)) = c_block(s, pos + 10) {
            lemma_vsrc_word(s, pos, font_face);
            lemma_head_then(font_face, block_doc(s, true, items));
            assert(font_face + seq![' '] =~= seq!['@', 'f', 'o', 'n', 't', '-', 'f', 'a', 'c', 'e', ' ']);
            lemma_visible_solid(font_face);
            lemma_vsrc_split(s, pos, pos + 10, p);
        }
    }
}

proof fn lemma_generic(s: Seq<char>, pos: int)
    requires
        s.len() <= usize::MAX,
    ensures
        c_generic(s, pos) matches Some((n, p)) ==> 0 <= pos <= p <= s.len() && vdoc(node_doc(s, true, n)) == vsrc(
            s,
            pos,
            p,
        ),
    decreases s.len() - pos, 0int,
{
    if 0 <= pos < s.len() && crate::css_grammar::is_letter(at(s, pos + 1)) && s[pos] == '@' {
        lemma_name_run(s, pos + 2);
        let ne = name_run(s, pos + 2);
        lemma_sel_run(s, ne);
        let pe = sel_run(s, ne);
        lemma_block(s, pe);
        lemma_span(s, pos, ne);
        lemma_span(s, ne, pe);
        let head = at_head(span_text(s, span(pos, ne)), span_text(s, span(ne, pe)));
        lemma_at_head(span_text(s, span(pos, ne)), span_text(s, span(ne, pe)));
        match c_block(s, pe) {
            Some((items, p)) => {
                lemma_head_then(head, block_doc(s, true, items));
                lemma_vsrc_split(s, pos, ne, p);
                lemma_vsrc_split(s, ne, pe, p);
            },
            None => {
                if at(s, pe) == ';' {
                    lemma_visible_add(head, seq![';']);
                    lemma_visible_solid(seq![';']);
                    lemma_vsrc_char(s, pe);
                    lemma_vsrc_split(s, pos, ne, pe + 1);
                    lemma_vsrc_split(s, ne, pe, pe + 1);
                }
            },
        }
    }
}

proof fn lemma_rules(s: Seq<char>, pos: int)
    requires
        s.len() <= usize::MAX,
        0 <= pos <= s.len(),
    ensures
        pos <= c_rules(s, pos).1 <= s.len(),
        vis_all(entries(s, true, c_rules(s, pos).0)) == vsrc(s, pos, c_rules(s, pos).1),
    decreases s.len() - pos,
{
    lemma_vsrc_empty(s, pos);
    assert(entries(s, true, Nodes::End) =~= Seq::<DocumentSpec>::empty());
    lemma_c_ws(s, pos);
    let (cs, q) = c_ws(s, pos);
    lemma_rule(s, q);
    match c_rule(s, q) {
        None => {},
        Some((node, p)) => {
            let p2 = skip_ws(s, p);
            lemma_vsrc_skip(s, p);
            if pos < p2 <= s.len() {
                lemma_rules(s, p2);
                let (rest, r) = c_rules(s, p2);
                let cd = comments_docs(s, cs);
                let nd = node_doc(s, true, node);
                assert(entries(s, true, c_rules(s, pos).0) == cd + seq![nd] + entries(s, true, rest));
                lemma_vis_all_add(cd + seq![nd], entries(s, true, rest));
                lemma_vis_all_add(cd, seq![nd]);
                lemma_vis_all_one(nd);
                lemma_vsrc_split(s, pos, q, r);
                lemma_vsrc_split(s, q, p, r);
                lemma_vsrc_split(s, p, p2, r);
                assert(vis_all(entries(s, true, c_rules(s, pos).0)) =~= vsrc(s, pos, r));
            }
        },
    }
}

/// Where the stylesheet at the start of the text ends: after the white
/// space and comments before it and the rules that can be read.
pub open spec fn stylesheet_end(s: Seq<char>) -> int {
    c_rules(s, c_ws(s, 0).1).1
}

/// Formatting a stylesheet changes only white space: laid out on one line,
/// the document of a stylesheet holds exactly the characters of the text that
/// the parse read, other than white space, in their order (comments included).
pub proof fn lemma_stylesheet_layout_keeps_text(s: Seq<char>)
    requires
        s.len() <= usize::MAX,
    ensures
        0 <= stylesheet_end(s) <= s.len(),
        visible(flat_text(stylesheet_doc(s, true, spec_parse_stylesheet(s)))) == visible(s.take(stylesheet_end(s))),
{
    lemma_c_ws(s, 0);
    let (cs, q) = c_ws(s, 0);
    lemma_rules(s, q);
    let r = c_rules(s, q).1;
    let all = comments_docs(s, cs) + entries(s, true, c_rules(s, q).0);
    let sep = spec_add(DocumentSpec::Hardline, DocumentSpec::Hardline);
    lemma_flat_add(DocumentSpec::Hardline, DocumentSpec::Hardline);
    let nl2 = seq!['\n'] + seq!['\n'];
    reveal_with_fuel(visible, 3);
    assert(visible(nl2) =~= Seq::<char>::empty());
    assert(flat_text(sep) == nl2);
    lemma_visible_flat_join(nl2, all);
    lemma_vis_all_add(comments_docs(s, cs), entries(s, true, c_rules(s, q).0));
    lemma_vsrc_split(s, 0, q, r);
    assert(s.subrange(0, r) =~= s.take(r));
}

} // verus!
