//! The CSS stylesheet grammar, with selectors and values as opaque spans, and
//! a parser proved against it.
//!
//! Between items, white space and comments may stand; elsewhere a token is
//! preceded and followed by spaces, tabs and line breaks only. A stylesheet
//! is read as far as it goes: what cannot be read is not part of it.

use vstd::prelude::*;

use crate::google_sheets::{agrees, at, char_at, skip_ws, skip_ws_at, span, Span};
use crate::text::{is_unicode_ws, unicode_ws};

verus! {

/// Comment spans, first to last.
pub enum Spans {
    End,
    More(Span, Box<Spans>),
}

/// A rule or declaration of a stylesheet.
#[allow(inconsistent_fields)]
pub enum CssNode {
    /// `property: value, value !important;`
    Declaration { property: Span, values: Spans, important: bool, semicolon: bool },
    /// `selector { ... }`
    Qualified { selector: Span, block: Nodes },
    /// `@media prelude { ... }`
    Media { prelude: Span, block: Nodes },
    /// `@supports prelude { ... }`
    Supports { prelude: Span, block: Nodes },
    /// `@font-face { ... }`
    FontFace { block: Nodes },
    /// `@import value, value;`
    Import { values: Spans },
    /// `@name prelude { ... }` or `@name prelude;`
    Generic { name: Span, prelude: Span, block: Option<Nodes> },
}

/// The items of a block or of the stylesheet, first to last, each with the
/// comments that stand before it and the span of its own source text.
pub enum Nodes {
    End,
    Node(Spans, Span, Box<CssNode>, Box<Nodes>),
}

/// A stylesheet: the comments at its start, then its rules.
pub struct Stylesheet {
    pub comments: Spans,
    pub rules: Nodes,
}

/// The end of a comment `/* ... */` that starts at `i`, if one does.
pub open spec fn comment_close(s: Seq<char>, j: int) -> Option<int>
    decreases s.len() - j,
{
    if j < 0 || j + 1 >= s.len() {
        None
    } else if s[j] == '*' && s[j + 1] == '/' {
        Some(j + 2)
    } else {
        comment_close(s, j + 1)
    }
}

pub open spec fn comment_end(s: Seq<char>, i: int) -> Option<int> {
    if at(s, i) == '/' && at(s, i + 1) == '*' {
        comment_close(s, i + 2)
    } else {
        None
    }
}

/// White space and comments from `i` on: the comments, and where they end.
pub open spec fn c_ws(s: Seq<char>, i: int) -> (Spans, int)
    decreases s.len() - i,
{
    if i < 0 || i >= s.len() {
        (Spans::End, i)
    } else if is_unicode_ws(s[i]) {
        c_ws(s, i + 1)
    } else {
        match comment_end(s, i) {
            Some(e) => if i < e <= s.len() {
                let (rest, r) = c_ws(s, e);
                (Spans::More(span(i, e), Box::new(rest)), r)
            } else {
                (Spans::End, i)
            },
            None => (Spans::End, i),
        }
    }
}

/// The end of the run of characters from `i` on that are none of `{`, `}`, `;`.
pub open spec fn sel_run(s: Seq<char>, i: int) -> int
    decreases s.len() - i,
{
    if 0 <= i < s.len() && s[i] != '{' && s[i] != '}' && s[i] != ';' {
        sel_run(s, i + 1)
    } else {
        i
    }
}

/// The last position in `[lo, j)` that holds no white space, or -1.
pub open spec fn last_solid(s: Seq<char>, lo: int, j: int) -> int
    decreases j - lo,
{
    if j <= lo {
        -1
    } else if !is_unicode_ws(s[j - 1]) {
        j - 1
    } else {
        last_solid(s, lo, j - 1)
    }
}

/// The end of a selector at `i`: the run of characters that are none of `{`,
/// `}`, `;`, up to its last character that is not white space (a run of one
/// character is taken whole).
pub open spec fn selector_end(s: Seq<char>, i: int) -> Option<int> {
    let j = sel_run(s, i);
    if j <= i {
        None
    } else {
        let k = last_solid(s, i + 1, j);
        if k >= 0 {
            Some(k + 1)
        } else {
            Some(i + 1)
        }
    }
}

/// The end of the run of characters from `i` on that are none of `;`, `{`,
/// `}`, `!`, `,`.
pub open spec fn val_run(s: Seq<char>, i: int) -> int
    decreases s.len() - i,
{
    if 0 <= i < s.len() && s[i] != ';' && s[i] != '{' && s[i] != '}' && s[i] != '!' && s[i] != ',' {
        val_run(s, i + 1)
    } else {
        i
    }
}

/// The end of a value at `i`: a nonempty run of `val_run`.
pub open spec fn value_end(s: Seq<char>, i: int) -> Option<int> {
    let j = val_run(s, i);
    if j > i {
        Some(j)
    } else {
        None
    }
}

/// The end of the run of characters from `i` on that are not `{`.
pub open spec fn brace_run(s: Seq<char>, i: int) -> int
    decreases s.len() - i,
{
    if 0 <= i < s.len() && s[i] != '{' {
        brace_run(s, i + 1)
    } else {
        i
    }
}

pub open spec fn is_letter(c: char) -> bool {
    ('a' <= c && c <= 'z') || ('A' <= c && c <= 'Z')
}

/// A character of a name: a letter, a digit, `_` or `-`.
pub open spec fn is_name_char(c: char) -> bool {
    is_letter(c) || ('0' <= c && c <= '9') || c == '_' || c == '-'
}

/// The end of the run of name characters from `i` on.
pub open spec fn name_run(s: Seq<char>, i: int) -> int
    decreases s.len() - i,
{
    if 0 <= i < s.len() && is_name_char(s[i]) {
        name_run(s, i + 1)
    } else {
        i
    }
}

/// The end of a property name at `i`: a letter or `_` and name characters,
/// `--` and at least one name character, or `-`, a letter and name characters.
pub open spec fn prop_end(s: Seq<char>, i: int) -> Option<int> {
    if is_letter(at(s, i)) || at(s, i) == '_' {
        Some(name_run(s, i + 1))
    } else if at(s, i) == '-' && at(s, i + 1) == '-' && is_name_char(at(s, i + 2)) {
        Some(name_run(s, i + 3))
    } else if at(s, i) == '-' && is_letter(at(s, i + 1)) {
        Some(name_run(s, i + 2))
    } else {
        None
    }
}

/// Whether the characters `w` stand at `i`.
pub open spec fn word_at(s: Seq<char>, i: int, w: Seq<char>) -> bool {
    0 <= i && i + w.len() <= s.len() && s.subrange(i, i + w.len()) == w
}

/// More values of a declaration or an `@import` after the one that ends at
/// `pos`: each after `,` and white space.
pub open spec fn c_more_values(s: Seq<char>, pos: int) -> (Spans, int)
    decreases s.len() - pos,
{
    let x = skip_ws(s, pos);
    if pos < 0 || pos > s.len() || x < pos || at(s, x) != ',' {
        (Spans::End, pos)
    } else {
        let y = skip_ws(s, x + 1);
        match value_end(s, y) {
            None => (Spans::End, pos),
            Some(e) => if pos < e <= s.len() {
                let (rest, r) = c_more_values(s, e);
                (Spans::More(span(y, e), Box::new(rest)), r)
            } else {
                (Spans::End, pos)
            },
        }
    }
}

/// A declaration at `pos`: a property name, `:`, values, an optional
/// `!important` and an optional `;`.
pub open spec fn c_declaration(s: Seq<char>, pos: int) -> Option<(CssNode, int)> {
    let q = skip_ws(s, pos);
    match prop_end(s, q) {
        None => None,
        Some(pe) => {
            let a = skip_ws(s, pe);
            if at(s, a) != ':' {
                None
            } else {
                let b = skip_ws(s, a + 1);
                match value_end(s, b) {
                    None => None,
                    Some(ve) => {
                        let (more, c) = c_more_values(s, ve);
                        let d0 = skip_ws(s, c);
                        let d1 = skip_ws(s, d0 + 1);
                        let important = at(s, d0) == '!' && word_at(
                            s,
                            d1,
                            seq!['i', 'm', 'p', 'o', 'r', 't', 'a', 'n', 't'],
                        );
                        let d = if important {
                            d1 + 9
                        } else {
                            c
                        };
                        let e0 = skip_ws(s, d);
                        let semicolon = at(s, e0) == ';';
                        let e1 = if semicolon {
                            e0 + 1
                        } else {
                            e0
                        };
                        Some(
                            (
                                CssNode::Declaration {
                                    property: span(q, pe),
                                    values: Spans::More(span(b, ve), Box::new(more)),
                                    important,
                                    semicolon,
                                },
                                skip_ws(s, e1),
                            ),
                        )
                    },
                }
            }
        }
    }
}

/// A block at `pos`: `{`, its items, `}`.
pub open spec fn c_block(s: Seq<char>, pos: int) -> Option<(Nodes, int)>
    decreases s.len() - pos, 4int,
{
    let q = skip_ws(s, pos);
    if pos < 0 || pos > s.len() || q < pos || at(s, q) != '{' {
        None
    } else {
        let a = skip_ws(s, q + 1);
        if a <= q || a > s.len() {
            None
        } else {
            let (items, b) = c_content(s, a);
            let c = skip_ws(s, b);
            if a <= b <= s.len() && at(s, c) == '}' {
                Some((items, c + 1))
            } else {
                None
            }
        }
    }
}

/// The items of a block from `pos` on: declarations and rules, each after
/// white space and comments; the items end where none can be read.
pub open spec fn c_content(s: Seq<char>, pos: int) -> (Nodes, int)
    decreases s.len() - pos, 3int,
{
    if pos < 0 || pos > s.len() {
        (Nodes::End, pos)
    } else {
        let (cs, q) = c_ws(s, pos);
        if q < pos || q > s.len() {
            (Nodes::End, pos)
        } else {
            let item = match c_declaration(s, q) {
                Some(r) => Some(r),
                None => c_rule(s, q),
            };
            match item {
                None => (Nodes::End, pos),
                Some((node, p)) => {
                    let p2 = skip_ws(s, p);
                    if pos < p2 <= s.len() {
                        let (rest, r) = c_content(s, p2);
                        (Nodes::Node(cs, span(q, p), Box::new(node), Box::new(rest)), r)
                    } else {
                        (Nodes::End, pos)
                    }
                },
            }
        }
    }
}

/// A rule at `pos`: a qualified rule, or else an at-rule.
pub open spec fn c_rule(s: Seq<char>, pos: int) -> Option<(CssNode, int)>
    decreases s.len() - pos, 2int,
{
    let q = skip_ws(s, pos);
    if pos < 0 || pos > s.len() || q < pos || q >= s.len() {
        None
    } else {
        let qualified = match selector_end(s, q) {
            None => None,
            Some(se) => if q < se <= s.len() {
                match c_block(s, se) {
                    None => None,
                    Some((items, p)) => Some((CssNode::Qualified { selector: span(q, se), block: items }, p)),
                }
            } else {
                None
            },
        };
        match qualified {
            Some(r) => Some(r),
            None => c_at_rule(s, pos),
        }
    }
}

/// `@media`, a prelude without `{`, and a block.
pub open spec fn c_media(s: Seq<char>, pos: int) -> Option<(CssNode, int)>
    decreases s.len() - pos, 0int,
{
    let pe = brace_run(s, pos + 6);
    if word_at(s, pos, seq!['@', 'm', 'e', 'd', 'i', 'a']) && pos + 6 < pe <= s.len() {
        match c_block(s, pe) {
            None => None,
            Some((items, p)) => Some((CssNode::Media { prelude: span(pos + 6, pe), block: items }, p)),
        }
    } else {
        None
    }
}

/// `@supports`, a prelude without `{`, and a block.
pub open spec fn c_supports(s: Seq<char>, pos: int) -> Option<(CssNode, int)>
    decreases s.len() - pos, 0int,
{
    let pe = brace_run(s, pos + 9);
    if word_at(s, pos, seq!['@', 's', 'u', 'p', 'p', 'o', 'r', 't', 's']) && pos + 9 < pe <= s.len() {
        match c_block(s, pe) {
            None => None,
            Some((items, p)) => Some((CssNode::Supports { prelude: span(pos + 9, pe), block: items }, p)),
        }
    } else {
        None
    }
}

/// `@font-face` and a block.
pub open spec fn c_font_face(s: Seq<char>, pos: int) -> Option<(CssNode, int)>
    decreases s.len() - pos, 0int,
{
    if word_at(s, pos, seq!['@', 'f', 'o', 'n', 't', '-', 'f', 'a', 'c', 'e']) {
        match c_block(s, pos + 10) {
            None => None,
            Some((items, p)) => Some((CssNode::FontFace { block: items }, p)),
        }
    } else {
        None
    }
}

/// `@import`, values after commas, and `;`.
pub open spec fn c_import(s: Seq<char>, pos: int) -> Option<(CssNode, int)> {
    if word_at(s, pos, seq!['@', 'i', 'm', 'p', 'o', 'r', 't']) {
        match value_end(s, pos + 7) {
            None => None,
            Some(ve) => {
                let (more, c) = c_more_values(s, ve);
                if at(s, c) == ';' {
                    Some((CssNode::Import { values: Spans::More(span(pos + 7, ve), Box::new(more)) }, c + 1))
                } else {
                    None
                }
            },
        }
    } else {
        None
    }
}

/// An at-rule at `pos`: the first of `@media`, `@supports`, `@font-face`,
/// `@import` and any other `@name` that can be read there.
pub open spec fn c_at_rule(s: Seq<char>, pos: int) -> Option<(CssNode, int)>
    decreases s.len() - pos, 1int,
{
    if pos < 0 || pos >= s.len() || s[pos] != '@' {
        None
    } else {
        match c_media(s, pos) {
            Some(r) => Some(r),
            None => match c_supports(s, pos) {
                Some(r) => Some(r),
                None => match c_font_face(s, pos) {
                    Some(r) => Some(r),
                    None => match c_import(s, pos) {
                        Some(r) => Some(r),
                        None => c_generic(s, pos),
                    },
                },
            },
        }
    }
}

/// Any at-rule: `@`, a letter and name characters, a prelude without `;`,
/// `{`, `}`, then a block or `;`.
pub open spec fn c_generic(s: Seq<char>, pos: int) -> Option<(CssNode, int)>
    decreases s.len() - pos, 0int,
{
    if pos < 0 || pos >= s.len() || !is_letter(at(s, pos + 1)) || s[pos] != '@' {
        None
    } else {
        let ne = name_run(s, pos + 2);
        let pe = sel_run(s, ne);
        if ne < pos + 2 || pe < ne || pe > s.len() {
            None
        } else {
            match c_block(s, pe) {
                Some((items, p)) => Some(
                    (CssNode::Generic { name: span(pos, ne), prelude: span(ne, pe), block: Some(items) }, p),
                ),
                None => if at(s, pe) == ';' {
                    Some((CssNode::Generic { name: span(pos, ne), prelude: span(ne, pe), block: None }, pe + 1))
                } else {
                    None
                },
            }
        }
    }
}

/// The rules of a stylesheet from `pos` on, each after white space and
/// comments; they end where none can be read.
pub open spec fn c_rules(s: Seq<char>, pos: int) -> (Nodes, int)
    decreases s.len() - pos,
{
    if pos < 0 || pos > s.len() {
        (Nodes::End, pos)
    } else {
        let (cs, q) = c_ws(s, pos);
        if q < pos || q > s.len() {
            (Nodes::End, pos)
        } else {
            match c_rule(s, q) {
                None => (Nodes::End, pos),
                Some((node, p)) => {
                    let p2 = skip_ws(s, p);
                    if pos < p2 <= s.len() {
                        let (rest, r) = c_rules(s, p2);
                        (Nodes::Node(cs, span(q, p), Box::new(node), Box::new(rest)), r)
                    } else {
                        (Nodes::End, pos)
                    }
                },
            }
        }
    }
}

/// The stylesheet at the start of the text: the comments before it and as
/// many rules as can be read.
pub open spec fn spec_parse_stylesheet(s: Seq<char>) -> Stylesheet {
    let (cs, q) = c_ws(s, 0);
    Stylesheet { comments: cs, rules: c_rules(s, q).0 }
}


pub(crate) proof fn lemma_comment_close(s: Seq<char>, j: int)
    ensures
        comment_close(s, j) matches Some(e) ==> j + 2 <= e <= s.len(),
    decreases s.len() - j,
{
    if j >= 0 && j + 1 < s.len() && !(s[j] == '*' && s[j + 1] == '/') {
        lemma_comment_close(s, j + 1);
    }
}

fn comment_end_at(s: &Vec<char>, i: usize) -> (r: Option<usize>)
    requires
        i <= s.len(),
    ensures
        match r {
            None => comment_end(s@, i as int) is None,
            Some(e) => comment_end(s@, i as int) == Some(e as int) && i + 4 <= e <= s.len(),
        },
{
    if !(char_at(s, i) == '/' && char_at(s, i + 1) == '*') {
        return None;
    }
    proof {
        lemma_comment_close(s@, i + 2);
    }
    let mut j = i + 2;
    while j < s.len() && j + 1 < s.len()
        invariant
            i + 2 <= j <= s.len(),
            comment_close(s@, j as int) == comment_close(s@, i + 2),
            comment_end(s@, i as int) == comment_close(s@, i + 2),
        decreases s.len() - j,
    {
        if s[j] == '*' && s[j + 1] == '/' {
            assert(comment_close(s@, j as int) == Some(j + 2));
            return Some(j + 2);
        }
        j = j + 1;
    }
    None
}

/// White space and comments from `i` on.
pub(crate) fn ws_comments(s: &Vec<char>, i: usize) -> (r: (Spans, usize))
    requires
        i <= s.len(),
    ensures
        r.0 == c_ws(s@, i as int).0,
        r.1 as int == c_ws(s@, i as int).1,
        i <= r.1 <= s.len(),
    decreases s.len() - i,
{
    let mut k = i;
    while k < s.len() && unicode_ws(s[k])
        invariant
            i <= k <= s.len(),
            c_ws(s@, k as int) == c_ws(s@, i as int),
        decreases s.len() - k,
    {
        k = k + 1;
    }
    if k >= s.len() {
        return (Spans::End, k);
    }
    match comment_end_at(s, k) {
        None => (Spans::End, k),
        Some(e) => {
            let (rest, r) = ws_comments(s, e);
            (Spans::More(Span { start: k, end: e }, Box::new(rest)), r)
        },
    }
}

pub(crate) fn sel_run_at(s: &Vec<char>, i: usize) -> (r: usize)
    requires
        i <= s.len(),
    ensures
        r == sel_run(s@, i as int),
        i <= r <= s.len(),
{
    let mut k = i;
    while k < s.len() && s[k] != '{' && s[k] != '}' && s[k] != ';'
        invariant
            i <= k <= s.len(),
            sel_run(s@, k as int) == sel_run(s@, i as int),
        decreases s.len() - k,
    {
        k = k + 1;
    }
    k
}

fn val_run_at(s: &Vec<char>, i: usize) -> (r: usize)
    requires
        i <= s.len(),
    ensures
        r == val_run(s@, i as int),
        i <= r <= s.len(),
{
    let mut k = i;
    while k < s.len() && s[k] != ';' && s[k] != '{' && s[k] != '}' && s[k] != '!' && s[k] != ','
        invariant
            i <= k <= s.len(),
            val_run(s@, k as int) == val_run(s@, i as int),
        decreases s.len() - k,
    {
        k = k + 1;
    }
    k
}

fn brace_run_at(s: &Vec<char>, i: usize) -> (r: usize)
    requires
        i <= s.len(),
    ensures
        r == brace_run(s@, i as int),
        i <= r <= s.len(),
{
    let mut k = i;
    while k < s.len() && s[k] != '{'
        invariant
            i <= k <= s.len(),
            brace_run(s@, k as int) == brace_run(s@, i as int),
        decreases s.len() - k,
    {
        k = k + 1;
    }
    k
}

pub(crate) fn letter(c: char) -> (b: bool)
    ensures
        b == is_letter(c),
{
    ('a' <= c && c <= 'z') || ('A' <= c && c <= 'Z')
}

fn name_char(c: char) -> (b: bool)
    ensures
        b == is_name_char(c),
{
    letter(c) || ('0' <= c && c <= '9') || c == '_' || c == '-'
}

pub(crate) fn name_run_at(s: &Vec<char>, i: usize) -> (r: usize)
    requires
        i <= s.len(),
    ensures
        r == name_run(s@, i as int),
        i <= r <= s.len(),
{
    let mut k = i;
    while k < s.len() && name_char(s[k])
        invariant
            i <= k <= s.len(),
            name_run(s@, k as int) == name_run(s@, i as int),
        decreases s.len() - k,
    {
        k = k + 1;
    }
    k
}

fn selector_end_at(s: &Vec<char>, i: usize) -> (r: Option<usize>)
    requires
        i <= s.len(),
    ensures
        match r {
            None => selector_end(s@, i as int) is None,
            Some(e) => selector_end(s@, i as int) == Some(e as int) && i < e <= s.len(),
        },
{
    let j = sel_run_at(s, i);
    if j <= i {
        return None;
    }
    let mut k = j;
    while k > i + 1 && unicode_ws(s[k - 1])
        invariant
            i + 1 <= k <= j <= s.len(),
            last_solid(s@, i + 1, k as int) == last_solid(s@, i + 1, j as int),
        decreases k,
    {
        k = k - 1;
    }
    if k > i + 1 {
        Some(k)
    } else {
        Some(i + 1)
    }
}

fn value_end_at(s: &Vec<char>, i: usize) -> (r: Option<usize>)
    requires
        i <= s.len(),
    ensures
        match r {
            None => value_end(s@, i as int) is None,
            Some(e) => value_end(s@, i as int) == Some(e as int) && i < e <= s.len(),
        },
{
    let j = val_run_at(s, i);
    if j > i {
        Some(j)
    } else {
        None
    }
}

pub(crate) fn prop_end_at(s: &Vec<char>, i: usize) -> (r: Option<usize>)
    requires
        i <= s.len(),
    ensures
        match r {
            None => prop_end(s@, i as int) is None,
            Some(e) => prop_end(s@, i as int) == Some(e as int) && i < e <= s.len(),
        },
{
    let c = char_at(s, i);
    if letter(c) || c == '_' {
        Some(name_run_at(s, i + 1))
    } else if c == '-' && char_at(s, i + 1) == '-' && name_char(char_at(s, i + 2)) {
        Some(name_run_at(s, i + 3))
    } else if c == '-' && letter(char_at(s, i + 1)) {
        Some(name_run_at(s, i + 2))
    } else {
        None
    }
}

pub(crate) fn word_at_exec(s: &Vec<char>, i: usize, w: &Vec<char>) -> (r: bool)
    requires
        i <= s.len(),
    ensures
        r == word_at(s@, i as int, w@),
{
    if w.len() > s.len() - i {
        return false;
    }
    let mut k: usize = 0;
    while k < w.len()
        invariant
            k <= w.len(),
            i + w.len() <= s.len(),
            forall|j: int| 0 <= j < k ==> s@[i + j] == w@[j],
        decreases w.len() - k,
    {
        if s[i + k] != w[k] {
            assert(s@.subrange(i as int, i + w.len())[k as int] != w@[k as int]);
            return false;
        }
        k = k + 1;
    }
    assert(s@.subrange(i as int, i + w.len()) =~= w@);
    true
}

fn more_values(s: &Vec<char>, pos: usize) -> (r: (Spans, usize))
    requires
        pos <= s.len(),
    ensures
        r.0 == c_more_values(s@, pos as int).0,
        r.1 as int == c_more_values(s@, pos as int).1,
        pos <= r.1 <= s.len(),
    decreases s.len() - pos,
{
    let x = skip_ws_at(s, pos);
    if char_at(s, x) != ',' {
        return (Spans::End, pos);
    }
    let y = skip_ws_at(s, x + 1);
    match value_end_at(s, y) {
        None => (Spans::End, pos),
        Some(e) => {
            let (rest, r) = more_values(s, e);
            (Spans::More(Span { start: y, end: e }, Box::new(rest)), r)
        },
    }
}

fn declaration(s: &Vec<char>, pos: usize) -> (r: Option<(CssNode, usize)>)
    requires
        pos <= s.len(),
    ensures
        agrees(r, c_declaration(s@, pos as int)),
        r matches Some((_, p)) ==> pos < p <= s.len(),
{
    let q = skip_ws_at(s, pos);
    let pe = match prop_end_at(s, q) {
        None => return None,
        Some(pe) => pe,
    };
    let a = skip_ws_at(s, pe);
    if char_at(s, a) != ':' {
        return None;
    }
    let b = skip_ws_at(s, a + 1);
    let ve = match value_end_at(s, b) {
        None => return None,
        Some(ve) => ve,
    };
    let (more, c) = more_values(s, ve);
    let d0 = skip_ws_at(s, c);
    let mut important = false;
    let mut d = c;
    if char_at(s, d0) == '!' {
        let d1 = skip_ws_at(s, d0 + 1);
        if word_at_exec(s, d1, &vec!['i', 'm', 'p', 'o', 'r', 't', 'a', 'n', 't']) {
            important = true;
            d = d1 + 9;
        }
    }
    let e0 = skip_ws_at(s, d);
    let semicolon = char_at(s, e0) == ';';
    let e1 = if semicolon {
        e0 + 1
    } else {
        e0
    };
    let end = skip_ws_at(s, e1);
    Some(
        (
            CssNode::Declaration {
                property: Span { start: q, end: pe },
                values: Spans::More(Span { start: b, end: ve }, Box::new(more)),
                important,
                semicolon,
            },
            end,
        ),
    )
}

fn block(s: &Vec<char>, pos: usize) -> (r: Option<(Nodes, usize)>)
    requires
        pos <= s.len(),
    ensures
        agrees(r, c_block(s@, pos as int)),
        r matches Some((_, p)) ==> pos < p <= s.len(),
    decreases s.len() - pos, 4int,
{
    let q = skip_ws_at(s, pos);
    if char_at(s, q) != '{' {
        return None;
    }
    let a = skip_ws_at(s, q + 1);
    let (items, b) = content(s, a);
    let c = skip_ws_at(s, b);
    if char_at(s, c) == '}' {
        Some((items, c + 1))
    } else {
        None
    }
}

fn content(s: &Vec<char>, pos: usize) -> (r: (Nodes, usize))
    requires
        pos <= s.len(),
    ensures
        r.0 == c_content(s@, pos as int).0,
        r.1 as int == c_content(s@, pos as int).1,
        pos <= r.1 <= s.len(),
    decreases s.len() - pos, 3int,
{
    let (cs, q) = ws_comments(s, pos);
    let item = match declaration(s, q) {
        Some(r) => Some(r),
        None => rule(s, q),
    };
    match item {
        None => (Nodes::End, pos),
        Some((node, p)) => {
            let p2 = skip_ws_at(s, p);
            let (rest, r) = content(s, p2);
            (Nodes::Node(cs, Span { start: q, end: p }, Box::new(node), Box::new(rest)), r)
        },
    }
}

fn rule(s: &Vec<char>, pos: usize) -> (r: Option<(CssNode, usize)>)
    requires
        pos <= s.len(),
    ensures
        agrees(r, c_rule(s@, pos as int)),
        r matches Some((_, p)) ==> pos < p <= s.len(),
    decreases s.len() - pos, 2int,
{
    let q = skip_ws_at(s, pos);
    if q >= s.len() {
        return None;
    }
    let qualified = match selector_end_at(s, q) {
        None => None,
        Some(se) => match block(s, se) {
            None => None,
            Some((items, p)) => Some((CssNode::Qualified { selector: Span { start: q, end: se }, block: items }, p)),
        },
    };
    match qualified {
        Some(r) => Some(r),
        None => at_rule(s, pos),
    }
}

fn media(s: &Vec<char>, pos: usize) -> (r: Option<(CssNode, usize)>)
    requires
        pos < s.len(),
    ensures
        agrees(r, c_media(s@, pos as int)),
        r matches Some((_, p)) ==> pos < p <= s.len(),
    decreases s.len() - pos, 0int,
{
    if word_at_exec(s, pos, &vec!['@', 'm', 'e', 'd', 'i', 'a']) {
        let pe = brace_run_at(s, pos + 6);
        if pe > pos + 6 {
            return match block(s, pe) {
                None => None,
                Some((items, p)) => Some((CssNode::Media { prelude: Span { start: pos + 6, end: pe }, block: items }, p)),
            };
        }
    }
    None
}

fn supports(s: &Vec<char>, pos: usize) -> (r: Option<(CssNode, usize)>)
    requires
        pos < s.len(),
    ensures
        agrees(r, c_supports(s@, pos as int)),
        r matches Some((_, p)) ==> pos < p <= s.len(),
    decreases s.len() - pos, 0int,
{
    if word_at_exec(s, pos, &vec!['@', 's', 'u', 'p', 'p', 'o', 'r', 't', 's']) {
        let pe = brace_run_at(s, pos + 9);
        if pe > pos + 9 {
            return match block(s, pe) {
                None => None,
                Some((items, p)) => Some(
                    (CssNode::Supports { prelude: Span { start: pos + 9, end: pe }, block: items }, p),
                ),
            };
        }
    }
    None
}

fn font_face(s: &Vec<char>, pos: usize) -> (r: Option<(CssNode, usize)>)
    requires
        pos < s.len(),
    ensures
        agrees(r, c_font_face(s@, pos as int)),
        r matches Some((_, p)) ==> pos < p <= s.len(),
    decreases s.len() - pos, 0int,
{
    if word_at_exec(s, pos, &vec!['@', 'f', 'o', 'n', 't', '-', 'f', 'a', 'c', 'e']) {
        match block(s, pos + 10) {
            None => None,
            Some((items, p)) => Some((CssNode::FontFace { block: items }, p)),
        }
    } else {
        None
    }
}

fn import(s: &Vec<char>, pos: usize) -> (r: Option<(CssNode, usize)>)
    requires
        pos < s.len(),
    ensures
        agrees(r, c_import(s@, pos as int)),
        r matches Some((_, p)) ==> pos < p <= s.len(),
{
    if !word_at_exec(s, pos, &vec!['@', 'i', 'm', 'p', 'o', 'r', 't']) {
        return None;
    }
    match value_end_at(s, pos + 7) {
        None => None,
        Some(ve) => {
            let (more, c) = more_values(s, ve);
            if char_at(s, c) == ';' {
                Some((CssNode::Import { values: Spans::More(Span { start: pos + 7, end: ve }, Box::new(more)) }, c + 1))
            } else {
                None
            }
        },
    }
}

fn at_rule(s: &Vec<char>, pos: usize) -> (r: Option<(CssNode, usize)>)
    requires
        pos <= s.len(),
    ensures
        agrees(r, c_at_rule(s@, pos as int)),
        r matches Some((_, p)) ==> pos < p <= s.len(),
    decreases s.len() - pos, 1int,
{
    if pos >= s.len() || s[pos] != '@' {
        return None;
    }
    match media(s, pos) {
        Some(r) => Some(r),
        None => match supports(s, pos) {
            Some(r) => Some(r),
            None => match font_face(s, pos) {
                Some(r) => Some(r),
                None => match import(s, pos) {
                    Some(r) => Some(r),
                    None => generic(s, pos),
                },
            },
        },
    }
}

fn generic(s: &Vec<char>, pos: usize) -> (r: Option<(CssNode, usize)>)
    requires
        pos <= s.len(),
    ensures
        agrees(r, c_generic(s@, pos as int)),
        r matches Some((_, p)) ==> pos < p <= s.len(),
    decreases s.len() - pos, 0int,
{
    if pos >= s.len() || !letter(char_at(s, pos + 1)) || s[pos] != '@' {
        return None;
    }
    let ne = name_run_at(s, pos + 2);
    let pe = sel_run_at(s, ne);
    match block(s, pe) {
        Some((items, p)) => Some(
            (
                CssNode::Generic {
                    name: Span { start: pos, end: ne },
                    prelude: Span { start: ne, end: pe },
                    block: Some(items),
                },
                p,
            ),
        ),
        None => if char_at(s, pe) == ';' {
            Some(
                (
                    CssNode::Generic {
                        name: Span { start: pos, end: ne },
                        prelude: Span { start: ne, end: pe },
                        block: None,
                    },
                    pe + 1,
                ),
            )
        } else {
            None
        },
    }
}

fn rules(s: &Vec<char>, pos: usize) -> (r: (Nodes, usize))
    requires
        pos <= s.len(),
    ensures
        r.0 == c_rules(s@, pos as int).0,
        r.1 as int == c_rules(s@, pos as int).1,
        pos <= r.1 <= s.len(),
    decreases s.len() - pos,
{
    let (cs, q) = ws_comments(s, pos);
    match rule(s, q) {
        None => (Nodes::End, pos),
        Some((node, p)) => {
            let p2 = skip_ws_at(s, p);
            let (rest, r) = rules(s, p2);
            (Nodes::Node(cs, Span { start: q, end: p }, Box::new(node), Box::new(rest)), r)
        },
    }
}

/// Reads the stylesheet at the start of `s`.
pub fn parse_stylesheet_chars(s: &Vec<char>) -> (r: Stylesheet)
    ensures
        r == spec_parse_stylesheet(s@),
{
    let (comments, q) = ws_comments(s, 0);
    let (rules, _) = rules(s, q);
    Stylesheet { comments, rules }
}

} // verus!
