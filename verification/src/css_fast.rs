//! The fast CSS grammar: selectors and values as opaque spans, no special
//! at-rules, and a parser proved against it. Its stylesheets are laid out as
//! those of the full grammar are.

use vstd::prelude::*;

use crate::config::PrinterConfig;
use crate::css::stylesheet_doc;
use crate::css_grammar::{
    c_ws, is_letter, last_solid, name_run, prop_end, sel_run, word_at, letter, name_run_at, prop_end_at,
    sel_run_at, word_at_exec, ws_comments, CssNode, Nodes, Spans, Stylesheet,
};
use crate::doc::{printable, render, rendered};
use crate::google_sheets::{agrees, at, char_at, skip_ws, skip_ws_at, span, Span};
use crate::text::{chars_of, unicode_ws};

verus! {

/// The end of the run of characters from `i` on that are none of `;`, `{`,
/// `}`, `!` (a value, possibly empty).
pub open spec fn fval_run(s: Seq<char>, i: int) -> int
    decreases s.len() - i,
{
    if 0 <= i < s.len() && s[i] != ';' && s[i] != '{' && s[i] != '}' && s[i] != '!' {
        fval_run(s, i + 1)
    } else {
        i
    }
}

/// The end of a selector's text without its trailing white space, in `[q, j)`.
pub open spec fn solid_end(s: Seq<char>, q: int, j: int) -> int {
    let k = last_solid(s, q, j);
    if k >= 0 {
        k + 1
    } else {
        q
    }
}

/// A declaration at `pos`: a property name, `:`, a value, an optional
/// `!important` and an optional `;` right after.
pub open spec fn f_declaration(s: Seq<char>, pos: int) -> Option<(CssNode, int)> {
    let q = skip_ws(s, pos);
    match prop_end(s, q) {
        None => None,
        Some(pe) => {
            let a = skip_ws(s, pe);
            if at(s, a) != ':' {
                None
            } else {
                let b = skip_ws(s, a + 1);
                let ve = fval_run(s, b);
                let d0 = skip_ws(s, ve);
                let d1 = skip_ws(s, d0 + 1);
                let important = at(s, d0) == '!' && word_at(
                    s,
                    d1,
                    seq!['i', 'm', 'p', 'o', 'r', 't', 'a', 'n', 't'],
                );
                let d = if important {
                    d1 + 9
                } else {
                    ve
                };
                let semicolon = at(s, d) == ';';
                let e1 = if semicolon {
                    d + 1
                } else {
                    d
                };
                Some(
                    (
                        CssNode::Declaration {
                            property: span(q, pe),
                            values: Spans::More(span(b, ve), Box::new(Spans::End)),
                            important,
                            semicolon,
                        },
                        skip_ws(s, e1),
                    ),
                )
            }
        },
    }
}

/// A block at `pos`: `{`, its items, `}`.
pub open spec fn f_block(s: Seq<char>, pos: int) -> Option<(Nodes, int)>
    decreases s.len() - pos, 3int,
{
    let q = skip_ws(s, pos);
    if pos < 0 || pos > s.len() || q < pos || at(s, q) != '{' {
        None
    } else {
        let a = skip_ws(s, q + 1);
        if a <= q || a > s.len() {
            None
        } else {
            let (items, b) = f_content(s, a);
            let c = skip_ws(s, b);
            if a <= b <= s.len() && at(s, c) == '}' {
                Some((items, c + 1))
            } else {
                None
            }
        }
    }
}

/// The items of a block from `pos` on, each after white space and comments.
pub open spec fn f_content(s: Seq<char>, pos: int) -> (Nodes, int)
    decreases s.len() - pos, 2int,
{
    if pos < 0 || pos > s.len() {
        (Nodes::End, pos)
    } else {
        let (cs, q) = c_ws(s, pos);
        if q < pos || q > s.len() {
            (Nodes::End, pos)
        } else {
            let item = match f_declaration(s, q) {
                Some(r) => Some(r),
                None => f_rule(s, q),
            };
            match item {
                None => (Nodes::End, pos),
                Some((node, p)) => {
                    let p2 = skip_ws(s, p);
                    if pos < p2 <= s.len() {
                        let (rest, r) = f_content(s, p2);
                        (Nodes::Node(cs, span(q, p), Box::new(node), Box::new(rest)), r)
                    } else {
                        (Nodes::End, pos)
                    }
                },
            }
        }
    }
}

/// A rule at `pos`: a selector and a block, or else an at-rule.
pub open spec fn f_rule(s: Seq<char>, pos: int) -> Option<(CssNode, int)>
    decreases s.len() - pos, 1int,
{
    let q = skip_ws(s, pos);
    if pos < 0 || pos > s.len() || q < pos || q >= s.len() {
        None
    } else {
        let j = sel_run(s, q);
        let qualified = if q < j <= s.len() {
            match f_block(s, j) {
                None => None,
                Some((items, p)) => Some(
                    (CssNode::Qualified { selector: span(q, solid_end(s, q, j)), block: items }, p),
                ),
            }
        } else {
            None
        };
        match qualified {
            Some(r) => Some(r),
            None => f_at_rule(s, pos),
        }
    }
}

/// An at-rule: `@`, a letter and name characters, a prelude without `;`,
/// `{`, `}`, then a block or `;`.
pub open spec fn f_at_rule(s: Seq<char>, pos: int) -> Option<(CssNode, int)>
    decreases s.len() - pos, 0int,
{
    if pos < 0 || pos >= s.len() || !is_letter(at(s, pos + 1)) || s[pos] != '@' {
        None
    } else {
        let ne = name_run(s, pos + 2);
        let pe = sel_run(s, ne);
        if ne < pos + 2 || pe < ne || pe > s.len() {
            None
        } else {
            match f_block(s, pe) {
                Some((items, p)) => Some(
                    (CssNode::Generic { name: span(pos, ne), prelude: span(ne, pe), block: Some(items) }, p),
                ),
                None => if at(s, pe) == ';' {
                    Some((CssNode::Generic { name: span(pos, ne), prelude: span(ne, pe), block: None }, pe + 1))
                } else {
                    None
                },
            }
        }
    }
}

/// The rules of a stylesheet from `pos` on, each after white space and comments.
pub open spec fn f_rules(s: Seq<char>, pos: int) -> (Nodes, int)
    decreases s.len() - pos,
{
    if pos < 0 || pos > s.len() {
        (Nodes::End, pos)
    } else {
        let (cs, q) = c_ws(s, pos);
        if q < pos || q > s.len() {
            (Nodes::End, pos)
        } else {
            match f_rule(s, q) {
                None => (Nodes::End, pos),
                Some((node, p)) => {
                    let p2 = skip_ws(s, p);
                    if pos < p2 <= s.len() {
                        let (rest, r) = f_rules(s, p2);
                        (Nodes::Node(cs, span(q, p), Box::new(node), Box::new(rest)), r)
                    } else {
                        (Nodes::End, pos)
                    }
                },
            }
        }
    }
}

/// The stylesheet at the start of the text, by the fast grammar.
pub open spec fn spec_parse_fast_stylesheet(s: Seq<char>) -> Stylesheet {
    let (cs, q) = c_ws(s, 0);
    Stylesheet { comments: cs, rules: f_rules(s, q).0 }
}

fn fval_run_at(s: &Vec<char>, i: usize) -> (r: usize)
    requires
        i <= s.len(),
    ensures
        r == fval_run(s@, i as int),
        i <= r <= s.len(),
{
    let mut k = i;
    while k < s.len() && s[k] != ';' && s[k] != '{' && s[k] != '}' && s[k] != '!'
        invariant
            i <= k <= s.len(),
            fval_run(s@, k as int) == fval_run(s@, i as int),
        decreases s.len() - k,
    {
        k = k + 1;
    }
    k
}

fn solid_end_at(s: &Vec<char>, q: usize, j: usize) -> (r: usize)
    requires
        q <= j <= s.len(),
    ensures
        r == solid_end(s@, q as int, j as int),
        q <= r <= j,
{
    let mut k = j;
    while k > q && unicode_ws(s[k - 1])
        invariant
            q <= k <= j <= s.len(),
            last_solid(s@, q as int, k as int) == last_solid(s@, q as int, j as int),
        decreases k,
    {
        k = k - 1;
    }
    k
}

fn declaration(s: &Vec<char>, pos: usize) -> (r: Option<(CssNode, usize)>)
    requires
        pos <= s.len(),
    ensures
        agrees(r, f_declaration(s@, pos as int)),
        r matches Some((_, p)) ==> pos < p <= s.len(),
{
    let q = skip_ws_at(s, pos);
    let pe = match prop_end_at(s, q) {
        None => return None,
        Some(pe) => pe,
    };
    let a = skip_ws_at(s, pe);
    if char_at(s, a) != ':' {
        return None;
    }
    let b = skip_ws_at(s, a + 1);
    let ve = fval_run_at(s, b);
    let d0 = skip_ws_at(s, ve);
    let mut important = false;
    let mut d = ve;
    if char_at(s, d0) == '!' {
        let d1 = skip_ws_at(s, d0 + 1);
        if word_at_exec(s, d1, &vec!['i', 'm', 'p', 'o', 'r', 't', 'a', 'n', 't']) {
            important = true;
            d = d1 + 9;
        }
    }
    let semicolon = char_at(s, d) == ';';
    let e1 = if semicolon {
        d + 1
    } else {
        d
    };
    let end = skip_ws_at(s, e1);
    Some(
        (
            CssNode::Declaration {
                property: Span { start: q, end: pe },
                values: Spans::More(Span { start: b, end: ve }, Box::new(Spans::End)),
                important,
                semicolon,
            },
            end,
        ),
    )
}

fn block(s: &Vec<char>, pos: usize) -> (r: Option<(Nodes, usize)>)
    requires
        pos <= s.len(),
    ensures
        agrees(r, f_block(s@, pos as int)),
        r matches Some((_, p)) ==> pos < p <= s.len(),
    decreases s.len() - pos, 3int,
{
    let q = skip_ws_at(s, pos);
    if char_at(s, q) != '{' {
        return None;
    }
    let a = skip_ws_at(s, q + 1);
    let (items, b) = content(s, a);
    let c = skip_ws_at(s, b);
    if char_at(s, c) == '}' {
        Some((items, c + 1))
    } else {
        None
    }
}

fn content(s: &Vec<char>, pos: usize) -> (r: (Nodes, usize))
    requires
        pos <= s.len(),
    ensures
        r.0 == f_content(s@, pos as int).0,
        r.1 as int == f_content(s@, pos as int).1,
        pos <= r.1 <= s.len(),
    decreases s.len() - pos, 2int,
{
    let (cs, q) = ws_comments(s, pos);
    let item = match declaration(s, q) {
        Some(r) => Some(r),
        None => rule(s, q),
    };
    match item {
        None => (Nodes::End, pos),
        Some((node, p)) => {
            let p2 = skip_ws_at(s, p);
            let (rest, r) = content(s, p2);
            (Nodes::Node(cs, Span { start: q, end: p }, Box::new(node), Box::new(rest)), r)
        },
    }
}

fn rule(s: &Vec<char>, pos: usize) -> (r: Option<(CssNode, usize)>)
    requires
        pos <= s.len(),
    ensures
        agrees(r, f_rule(s@, pos as int)),
        r matches Some((_, p)) ==> pos < p <= s.len(),
    decreases s.len() - pos, 1int,
{
    let q = skip_ws_at(s, pos);
    if q >= s.len() {
        return None;
    }
    let j = sel_run_at(s, q);
    let qualified = if q < j {
        match block(s, j) {
            None => None,
            Some((items, p)) => {
                let e = solid_end_at(s, q, j);
                Some((CssNode::Qualified { selector: Span { start: q, end: e }, block: items }, p))
            },
        }
    } else {
        None
    };
    match qualified {
        Some(r) => Some(r),
        None => at_rule(s, pos),
    }
}

fn at_rule(s: &Vec<char>, pos: usize) -> (r: Option<(CssNode, usize)>)
    requires
        pos <= s.len(),
    ensures
        agrees(r, f_at_rule(s@, pos as int)),
        r matches Some((_, p)) ==> pos < p <= s.len(),
    decreases s.len() - pos, 0int,
{
    if pos >= s.len() || !letter(char_at(s, pos + 1)) || s[pos] != '@' {
        return None;
    }
    let ne = name_run_at(s, pos + 2);
    let pe = sel_run_at(s, ne);
    match block(s, pe) {
        Some((items, p)) => Some(
            (
                CssNode::Generic {
                    name: Span { start: pos, end: ne },
                    prelude: Span { start: ne, end: pe },
                    block: Some(items),
                },
                p,
            ),
        ),
        None => if char_at(s, pe) == ';' {
            Some(
                (
                    CssNode::Generic {
                        name: Span { start: pos, end: ne },
                        prelude: Span { start: ne, end: pe },
                        block: None,
                    },
                    pe + 1,
                ),
            )
        } else {
            None
        },
    }
}

fn rules(s: &Vec<char>, pos: usize) -> (r: (Nodes, usize))
    requires
        pos <= s.len(),
    ensures
        r.0 == f_rules(s@, pos as int).0,
        r.1 as int == f_rules(s@, pos as int).1,
        pos <= r.1 <= s.len(),
    decreases s.len() - pos,
{
    let (cs, q) = ws_comments(s, pos);
    match rule(s, q) {
        None => (Nodes::End, pos),
        Some((node, p)) => {
            let p2 = skip_ws_at(s, p);
            let (rest, r) = rules(s, p2);
            (Nodes::Node(cs, Span { start: q, end: p }, Box::new(node), Box::new(rest)), r)
        },
    }
}

/// The fast CSS grammar; its entry rule is `stylesheet`.
pub struct CssFastParser;

impl CssFastParser {
    /// Reads the stylesheet at the start of the input by the fast grammar.
    pub fn stylesheet(input: &str) -> (r: Stylesheet)
        ensures
            r == spec_parse_fast_stylesheet(input@),
    {
        let s = chars_of(input);
        let (comments, q) = ws_comments(&s, 0);
        let (rules, _) = rules(&s, q);
        Stylesheet { comments, rules }
    }
}

/// Parse-only CSS using the fast grammar, laid out as `prettify_css` lays out
/// stylesheets.
pub fn prettify_css_fast(input: &str, config: &PrinterConfig) -> (r: Option<String>)
    requires
        printable(stylesheet_doc(input@, false, spec_parse_fast_stylesheet(input@)), config.max_width, config.indent),
    ensures
        r matches Some(out) && out@ == rendered(
            stylesheet_doc(input@, false, spec_parse_fast_stylesheet(input@)),
            config.max_width,
            config.indent,
            config.use_tabs,
        ),
{
    let s = chars_of(input);
    let sheet = CssFastParser::stylesheet(input);
    let doc = crate::css::stylesheet_to_doc(&s, false, &sheet);
    Some(render(&doc, config))
}

} // verus!
