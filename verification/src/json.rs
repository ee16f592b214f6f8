//! JSON: the grammar, a parser proved against it, and the layout of a value.
//! Objects and arrays stay on one line where they fit; where they do not, each
//! member or element takes a line of its own, indented one level.

use vstd::prelude::*;

use crate::config::PrinterConfig;
use crate::doc::{lemma_view_docs, printable, render, rendered, spec_add, view_docs, Document, DocumentSpec};
use crate::google_sheets::{
    agrees, at, char_at, digit_char, is_digit, lemma_scan_digits, lit, scan_digits, scan_digits_at,
    skip_ws, skip_ws_at, soft_break, soft_break_spec, span, span_doc, span_text, txt, Span,
};
use crate::text::chars_of;

verus! {

/// A JSON value. Numbers, strings, arrays and objects refer to the source by
/// character spans; a string's span includes its quotes, an array's or an
/// object's its brackets.
pub enum Json {
    Null,
    True,
    False,
    Number(Span),
    Str(Span),
    Array(Span, Items),
    Object(Span, Members),
}

/// The elements of an array, first to last, each with whether a comma
/// follows it.
pub enum Items {
    End,
    Item(Box<Json>, bool, Box<Items>),
}

/// The members of an object, first to last: each a key (a string span,
/// quotes included), a value, and whether a comma follows it.
pub enum Members {
    End,
    Member(Span, Box<Json>, bool, Box<Members>),
}

pub open spec fn is_hex(c: char) -> bool {
    ('0' <= c && c <= '9') || ('a' <= c && c <= 'f') || ('A' <= c && c <= 'F')
}

/// A character that may follow a backslash by itself in a string.
pub open spec fn is_escape(c: char) -> bool {
    c == '"' || c == '\\' || c == '/' || c == 'b' || c == 'f' || c == 'n' || c == 'r' || c == 't'
}

/// Inside a string from `i` on: the position just after the closing quote.
/// A backslash starts an escape: one of `"\/bfnrt`, or `u` and four
/// hexadecimal digits.
pub open spec fn scan_jstring(s: Seq<char>, i: int) -> Option<int>
    decreases s.len() - i,
{
    if i < 0 || i >= s.len() {
        None
    } else if s[i] == '"' {
        Some(i + 1)
    } else if s[i] == '\\' {
        if is_escape(at(s, i + 1)) {
            scan_jstring(s, i + 2)
        } else if at(s, i + 1) == 'u' && is_hex(at(s, i + 2)) && is_hex(at(s, i + 3)) && is_hex(
            at(s, i + 4),
        ) && is_hex(at(s, i + 5)) {
            scan_jstring(s, i + 6)
        } else {
            None
        }
    } else {
        scan_jstring(s, i + 1)
    }
}

/// The end of a number at `i`: an optional `-`, `0` or digits that do not
/// start with `0`, an optional fraction, an optional exponent.
pub open spec fn scan_jnumber(s: Seq<char>, i: int) -> Option<int> {
    let a = if at(s, i) == '-' {
        i + 1
    } else {
        i
    };
    let b = if at(s, a) == '0' {
        a + 1
    } else if is_digit(at(s, a)) {
        scan_digits(s, a + 1)
    } else {
        -1
    };
    if b < 0 {
        None
    } else {
        let c = if at(s, b) == '.' && is_digit(at(s, b + 1)) {
            scan_digits(s, b + 1)
        } else {
            b
        };
        if (at(s, c) == 'e' || at(s, c) == 'E') && is_digit(at(s, c + 1)) {
            Some(scan_digits(s, c + 1))
        } else if (at(s, c) == 'e' || at(s, c) == 'E') && (at(s, c + 1) == '+' || at(s, c + 1)
            == '-') && is_digit(at(s, c + 2)) {
            Some(scan_digits(s, c + 2))
        } else {
            Some(c)
        }
    }
}

/// A string ends after the position where its scan starts, inside the text.
pub proof fn lemma_scan_jstring(s: Seq<char>, i: int)
    ensures
        scan_jstring(s, i) matches Some(e) ==> i < e <= s.len(),
    decreases s.len() - i,
{
    if 0 <= i < s.len() && s[i] != '"' {
        if s[i] == '\\' {
            if is_escape(at(s, i + 1)) {
                lemma_scan_jstring(s, i + 2);
            } else if at(s, i + 1) == 'u' && is_hex(at(s, i + 2)) && is_hex(at(s, i + 3)) && is_hex(
                at(s, i + 4),
            ) && is_hex(at(s, i + 5)) {
                lemma_scan_jstring(s, i + 6);
            }
        } else {
            lemma_scan_jstring(s, i + 1);
        }
    }
}

/// A number ends after it starts, inside the text.
pub proof fn lemma_scan_jnumber(s: Seq<char>, i: int)
    requires
        0 <= i,
    ensures
        scan_jnumber(s, i) matches Some(e) ==> i < e <= s.len(),
{
    let a = if at(s, i) == '-' {
        i + 1
    } else {
        i
    };
    lemma_scan_digits(s, a + 1);
    let b = if at(s, a) == '0' {
        a + 1
    } else if is_digit(at(s, a)) {
        scan_digits(s, a + 1)
    } else {
        -1
    };
    if b >= 0 {
        assert(a < s.len());
        assert(i < b <= s.len());
        lemma_scan_digits(s, b + 1);
        let c = if at(s, b) == '.' && is_digit(at(s, b + 1)) {
            scan_digits(s, b + 1)
        } else {
            b
        };
        assert(i < c <= s.len());
        lemma_scan_digits(s, c + 1);
        lemma_scan_digits(s, c + 2);
    }
}

/// Whether the characters `lit` stand at `i`.
pub open spec fn lit_at(s: Seq<char>, i: int, lit: Seq<char>) -> bool {
    0 <= i && i + lit.len() <= s.len() && s.subrange(i, i + lit.len()) == lit
}

/// The value at `pos` (after white space) and the position after it.
pub open spec fn j_value(s: Seq<char>, pos: int) -> Option<(Json, int)>
    decreases s.len() - pos, 1int,
{
    if pos < 0 || pos > s.len() {
        None
    } else {
        let q = skip_ws(s, pos);
        if q < pos || q >= s.len() {
            None
        } else if s[q] == '{' {
            match j_members(s, q + 1) {
                None => None,
                Some((ms, p)) => Some((Json::Object(span(q, p), ms), p)),
            }
        } else if s[q] == '[' {
            match j_elements(s, q + 1) {
                None => None,
                Some((items, p)) => Some((Json::Array(span(q, p), items), p)),
            }
        } else if s[q] == '"' {
            match scan_jstring(s, q + 1) {
                None => None,
                Some(e) => Some((Json::Str(span(q, e)), e)),
            }
        } else if s[q] == '-' || is_digit(s[q]) {
            match scan_jnumber(s, q) {
                None => None,
                Some(e) => Some((Json::Number(span(q, e)), e)),
            }
        } else if lit_at(s, q, seq!['t', 'r', 'u', 'e']) {
            Some((Json::True, q + 4))
        } else if lit_at(s, q, seq!['f', 'a', 'l', 's', 'e']) {
            Some((Json::False, q + 5))
        } else if lit_at(s, q, seq!['n', 'u', 'l', 'l']) {
            Some((Json::Null, q + 4))
        } else {
            None
        }
    }
}

/// The elements after `[`, up to and including `]`.
pub open spec fn j_elements(s: Seq<char>, pos: int) -> Option<(Items, int)>
    decreases s.len() - pos, 3int,
{
    if pos < 0 || pos > s.len() {
        None
    } else {
        let q = skip_ws(s, pos);
        if at(s, q) == ']' {
            Some((Items::End, q + 1))
        } else {
            j_element_list(s, pos)
        }
    }
}

/// One element and an optional `,`, then the elements that follow up to
/// and including `]`.
pub open spec fn j_element_list(s: Seq<char>, pos: int) -> Option<(Items, int)>
    decreases s.len() - pos, 2int,
{
    if pos < 0 || pos > s.len() {
        None
    } else {
        match j_value(s, pos) {
            None => None,
            Some((v, p)) => if pos < p <= s.len() {
                let q = skip_ws(s, p);
                if at(s, q) == ',' && q >= pos {
                    match j_elements(s, q + 1) {
                        None => None,
                        Some((rest, r)) => Some((Items::Item(Box::new(v), true, Box::new(rest)), r)),
                    }
                } else {
                    match j_elements(s, p) {
                        None => None,
                        Some((rest, r)) => Some((Items::Item(Box::new(v), false, Box::new(rest)), r)),
                    }
                }
            } else {
                None
            },
        }
    }
}

/// The members after `{`, up to and including `}`.
pub open spec fn j_members(s: Seq<char>, pos: int) -> Option<(Members, int)>
    decreases s.len() - pos, 3int,
{
    if pos < 0 || pos > s.len() {
        None
    } else {
        let q = skip_ws(s, pos);
        if at(s, q) == '}' {
            Some((Members::End, q + 1))
        } else {
            j_member_list(s, pos)
        }
    }
}

/// One member (a string key, `:`, a value) and an optional `,`, then the
/// members that follow up to and including `}`.
pub open spec fn j_member_list(s: Seq<char>, pos: int) -> Option<(Members, int)>
    decreases s.len() - pos, 2int,
{
    if pos < 0 || pos > s.len() {
        None
    } else {
        let q = skip_ws(s, pos);
        if q < pos || at(s, q) != '"' {
            None
        } else {
            match scan_jstring(s, q + 1) {
                None => None,
                Some(k) => if q < k <= s.len() {
                    let c = skip_ws(s, k);
                    if at(s, c) == ':' && c >= k {
                        match j_value(s, c + 1) {
                            None => None,
                            Some((v, p)) => if c < p <= s.len() {
                                let d = skip_ws(s, p);
                                if at(s, d) == ',' && d >= p {
                                    match j_members(s, d + 1) {
                                        None => None,
                                        Some((rest, r)) => Some(
                                            (Members::Member(span(q, k), Box::new(v), true, Box::new(rest)), r),
                                        ),
                                    }
                                } else {
                                    match j_members(s, p) {
                                        None => None,
                                        Some((rest, r)) => Some(
                                            (Members::Member(span(q, k), Box::new(v), false, Box::new(rest)), r),
                                        ),
                                    }
                                }
                            } else {
                                None
                            },
                        }
                    } else {
                        None
                    }
                } else {
                    None
                },
            }
        }
    }
}

/// The JSON value at the start of the input, after white space. What follows
/// the value is not read.
pub open spec fn spec_parse_json(s: Seq<char>) -> Option<Json> {
    match j_value(s, 0) {
        None => None,
        Some((v, _)) => Some(v),
    }
}


fn hex_char(c: char) -> (b: bool)
    ensures
        b == is_hex(c),
{
    ('0' <= c && c <= '9') || ('a' <= c && c <= 'f') || ('A' <= c && c <= 'F')
}

fn escape_char(c: char) -> (b: bool)
    ensures
        b == is_escape(c),
{
    c == '"' || c == '\\' || c == '/' || c == 'b' || c == 'f' || c == 'n' || c == 'r' || c == 't'
}

fn scan_jstring_at(s: &Vec<char>, i: usize) -> (r: Option<usize>)
    requires
        i <= s.len(),
    ensures
        match r {
            None => scan_jstring(s@, i as int) is None,
            Some(e) => scan_jstring(s@, i as int) == Some(e as int) && i < e <= s.len(),
        },
{
    let mut k = i;
    while k < s.len()
        invariant
            i <= k <= s.len(),
            scan_jstring(s@, k as int) == scan_jstring(s@, i as int),
        decreases s.len() - k,
    {
        let c = s[k];
        if c == '"' {
            return Some(k + 1);
        } else if c == '\\' {
            if escape_char(char_at(s, k + 1)) {
                if k + 2 > s.len() {
                    return None;
                }
                k = k + 2;
            } else if char_at(s, k + 1) == 'u' && hex_char(char_at(s, k + 2)) && hex_char(char_at(s, k + 3))
                && hex_char(char_at(s, k + 4)) && hex_char(char_at(s, k + 5)) {
                k = k + 6;
            } else {
                return None;
            }
        } else {
            k = k + 1;
        }
    }
    None
}

fn scan_jnumber_at(s: &Vec<char>, i: usize) -> (r: Option<usize>)
    requires
        i <= s.len(),
    ensures
        match r {
            None => scan_jnumber(s@, i as int) is None,
            Some(e) => scan_jnumber(s@, i as int) == Some(e as int) && i <= e <= s.len(),
        },
{
    let a = if char_at(s, i) == '-' {
        i + 1
    } else {
        i
    };
    let b = if char_at(s, a) == '0' {
        a + 1
    } else if digit_char(char_at(s, a)) {
        scan_digits_at(s, a + 1)
    } else {
        return None;
    };
    let c = if char_at(s, b) == '.' && digit_char(char_at(s, b + 1)) {
        scan_digits_at(s, b + 1)
    } else {
        b
    };
    let e = char_at(s, c);
    if (e == 'e' || e == 'E') && digit_char(char_at(s, c + 1)) {
        Some(scan_digits_at(s, c + 1))
    } else if (e == 'e' || e == 'E') && (char_at(s, c + 1) == '+' || char_at(s, c + 1) == '-') && digit_char(
        char_at(s, c + 2),
    ) {
        Some(scan_digits_at(s, c + 2))
    } else {
        Some(c)
    }
}

fn word_at(s: &Vec<char>, i: usize, w: &Vec<char>) -> (r: bool)
    requires
        i <= s.len(),
    ensures
        r == lit_at(s@, i as int, w@),
{
    if w.len() > s.len() - i {
        return false;
    }
    let mut k: usize = 0;
    while k < w.len()
        invariant
            k <= w.len(),
            i + w.len() <= s.len(),
            forall|j: int| 0 <= j < k ==> s@[i + j] == w@[j],
        decreases w.len() - k,
    {
        if s[i + k] != w[k] {
            assert(s@.subrange(i as int, i + w.len())[k as int] != w@[k as int]);
            return false;
        }
        k = k + 1;
    }
    assert(s@.subrange(i as int, i + w.len()) =~= w@);
    true
}

fn parse_value(s: &Vec<char>, pos: usize) -> (r: Option<(Json, usize)>)
    requires
        pos <= s.len(),
    ensures
        agrees(r, j_value(s@, pos as int)),
        r matches Some((_, p)) ==> pos < p <= s.len(),
    decreases s.len() - pos, 1int,
{
    let q = skip_ws_at(s, pos);
    if q >= s.len() {
        return None;
    }
    let c = s[q];
    if c == '{' {
        match parse_members(s, q + 1) {
            None => None,
            Some((ms, p)) => Some((Json::Object(Span { start: q, end: p }, ms), p)),
        }
    } else if c == '[' {
        match parse_elements(s, q + 1) {
            None => None,
            Some((items, p)) => Some((Json::Array(Span { start: q, end: p }, items), p)),
        }
    } else if c == '"' {
        match scan_jstring_at(s, q + 1) {
            None => None,
            Some(e) => Some((Json::Str(Span { start: q, end: e }), e)),
        }
    } else if c == '-' || digit_char(c) {
        match scan_jnumber_at(s, q) {
            None => None,
            Some(e) => {
                proof {
                    lemma_scan_jnumber(s@, q as int);
                }
                Some((Json::Number(Span { start: q, end: e }), e))
            },
        }
    } else if word_at(s, q, &vec!['t', 'r', 'u', 'e']) {
        Some((Json::True, q + 4))
    } else if word_at(s, q, &vec!['f', 'a', 'l', 's', 'e']) {
        Some((Json::False, q + 5))
    } else if word_at(s, q, &vec!['n', 'u', 'l', 'l']) {
        Some((Json::Null, q + 4))
    } else {
        None
    }
}

fn parse_elements(s: &Vec<char>, pos: usize) -> (r: Option<(Items, usize)>)
    requires
        pos <= s.len(),
    ensures
        agrees(r, j_elements(s@, pos as int)),
        r matches Some((_, p)) ==> pos < p <= s.len(),
    decreases s.len() - pos, 3int,
{
    let q = skip_ws_at(s, pos);
    if char_at(s, q) == ']' {
        Some((Items::End, q + 1))
    } else {
        parse_element_list(s, pos)
    }
}

fn parse_element_list(s: &Vec<char>, pos: usize) -> (r: Option<(Items, usize)>)
    requires
        pos <= s.len(),
    ensures
        agrees(r, j_element_list(s@, pos as int)),
        r matches Some((_, p)) ==> pos < p <= s.len(),
    decreases s.len() - pos, 2int,
{
    match parse_value(s, pos) {
        None => None,
        Some((v, p)) => {
            let q = skip_ws_at(s, p);
            if char_at(s, q) == ',' {
                match parse_elements(s, q + 1) {
                    None => None,
                    Some((rest, r)) => Some((Items::Item(Box::new(v), true, Box::new(rest)), r)),
                }
            } else {
                match parse_elements(s, p) {
                    None => None,
                    Some((rest, r)) => Some((Items::Item(Box::new(v), false, Box::new(rest)), r)),
                }
            }
        },
    }
}

fn parse_members(s: &Vec<char>, pos: usize) -> (r: Option<(Members, usize)>)
    requires
        pos <= s.len(),
    ensures
        agrees(r, j_members(s@, pos as int)),
        r matches Some((_, p)) ==> pos < p <= s.len(),
    decreases s.len() - pos, 3int,
{
    let q = skip_ws_at(s, pos);
    if char_at(s, q) == '}' {
        Some((Members::End, q + 1))
    } else {
        parse_member_list(s, pos)
    }
}

fn parse_member_list(s: &Vec<char>, pos: usize) -> (r: Option<(Members, usize)>)
    requires
        pos <= s.len(),
    ensures
        agrees(r, j_member_list(s@, pos as int)),
        r matches Some((_, p)) ==> pos < p <= s.len(),
    decreases s.len() - pos, 2int,
{
    let q = skip_ws_at(s, pos);
    if char_at(s, q) != '"' {
        return None;
    }
    let k = match scan_jstring_at(s, q + 1) {
        None => return None,
        Some(k) => k,
    };
    let c = skip_ws_at(s, k);
    if char_at(s, c) != ':' {
        return None;
    }
    match parse_value(s, c + 1) {
        None => None,
        Some((v, p)) => {
            let d = skip_ws_at(s, p);
            if char_at(s, d) == ',' {
                match parse_members(s, d + 1) {
                    None => None,
                    Some((rest, r)) => Some(
                        (Members::Member(Span { start: q, end: k }, Box::new(v), true, Box::new(rest)), r),
                    ),
                }
            } else {
                match parse_members(s, p) {
                    None => None,
                    Some((rest, r)) => Some(
                        (Members::Member(Span { start: q, end: k }, Box::new(v), false, Box::new(rest)), r),
                    ),
                }
            }
        },
    }
}

/// The JSON grammar; its entry rule is `value`.
pub struct JsonParser;

impl JsonParser {
    /// Parses the JSON value at the start of the input, after white space;
    /// the text after the value is not read.
    pub fn value(input: &str) -> (r: Option<Json>)
        ensures
            r == spec_parse_json(input@),
    {
        let s = chars_of(input);
        match parse_value(&s, 0) {
            None => None,
            Some((v, _)) => Some(v),
        }
    }
}


/// The separator between members or elements: `,` ending a line when the
/// object or array breaks, `, ` otherwise.
pub open spec fn item_sep_spec() -> DocumentSpec {
    DocumentSpec::IfBreak(
        Box::new(spec_add(txt(seq![',']), DocumentSpec::Hardline)),
        Box::new(txt(seq![',', ' '])),
    )
}

/// An object's or array's layout: one group of the opening bracket, the
/// items indented one level, and the closing bracket; when the group breaks,
/// each item takes a line of its own.
pub open spec fn bracketed(open: char, docs: Seq<DocumentSpec>, close: char) -> DocumentSpec {
    DocumentSpec::Group(
        Box::new(
            spec_add(
                spec_add(
                    spec_add(
                        txt(seq![open]),
                        DocumentSpec::Indent(
                            Box::new(spec_add(soft_break_spec(), DocumentSpec::Join(Box::new(item_sep_spec()), docs))),
                        ),
                    ),
                    soft_break_spec(),
                ),
                txt(seq![close]),
            ),
        ),
    )
}

/// The layout of a value: literals, numbers and strings as written; empty
/// arrays and objects as `[]` and `{}`; others bracketed, with `key: value`
/// members.
pub open spec fn json_doc(s: Seq<char>, v: Json) -> DocumentSpec
    decreases v,
{
    match v {
        Json::Null => txt(seq!['n', 'u', 'l', 'l']),
        Json::True => txt(seq!['t', 'r', 'u', 'e']),
        Json::False => txt(seq!['f', 'a', 'l', 's', 'e']),
        Json::Number(sp) => txt(span_text(s, sp)),
        Json::Str(sp) => txt(span_text(s, sp)),
        Json::Array(_, items) => match items {
            Items::End => txt(seq!['[', ']']),
            Items::Item(_, _, _) => bracketed('[', items_doc(s, items), ']'),
        },
        Json::Object(_, ms) => match ms {
            Members::End => txt(seq!['{', '}']),
            Members::Member(_, _, _, _) => bracketed('{', members_doc(s, ms), '}'),
        },
    }
}

/// The layouts of the elements, first to last.
pub open spec fn items_doc(s: Seq<char>, items: Items) -> Seq<DocumentSpec>
    decreases items,
{
    match items {
        Items::End => Seq::empty(),
        Items::Item(v, _, rest) => seq![json_doc(s, *v)] + items_doc(s, *rest),
    }
}

/// The layouts of the members, first to last: the key, `: ` and the value.
pub open spec fn members_doc(s: Seq<char>, ms: Members) -> Seq<DocumentSpec>
    decreases ms,
{
    match ms {
        Members::End => Seq::empty(),
        Members::Member(k, v, _, rest) => seq![spec_add(txt(span_text(s, k) + seq![':', ' ']), json_doc(s, *v))]
            + members_doc(s, *rest),
    }
}

fn item_sep() -> (r: Document)
    ensures
        r@ == item_sep_spec(),
{
    proof {
        reveal_strlit(",");
        assert(","@ =~= seq![',']);
        reveal_strlit(", ");
        assert(", "@ =~= seq![',', ' ']);
    }
    Document::if_break(lit(",").add(Document::Hardline), lit(", "))
}

fn bracket_doc(open: &str, docs: Vec<Document>, close: &str) -> (r: Document)
    requires
        open@.len() == 1,
        close@.len() == 1,
    ensures
        r@ == bracketed(open@[0], view_docs(docs@), close@[0]),
{
    assert(open@ =~= seq![open@[0]]);
    assert(close@ =~= seq![close@[0]]);
    let body = soft_break().add(Document::join(item_sep(), docs));
    lit(open).add(body.indent()).add(soft_break()).add(lit(close)).group()
}

/// Lays out a value of the JSON text whose characters are `s`.
pub fn json_to_doc(s: &Vec<char>, v: &Json) -> (r: Document)
    ensures
        r@ == json_doc(s@, *v),
    decreases v,
{
    proof {
        reveal_strlit("null");
        assert("null"@ =~= seq!['n', 'u', 'l', 'l']);
        reveal_strlit("true");
        assert("true"@ =~= seq!['t', 'r', 'u', 'e']);
        reveal_strlit("false");
        assert("false"@ =~= seq!['f', 'a', 'l', 's', 'e']);
        reveal_strlit("[]");
        assert("[]"@ =~= seq!['[', ']']);
        reveal_strlit("{}");
        assert("{}"@ =~= seq!['{', '}']);
        reveal_strlit("[");
        reveal_strlit("]");
        reveal_strlit("{");
        reveal_strlit("}");
    }
    match v {
        Json::Null => lit("null"),
        Json::True => lit("true"),
        Json::False => lit("false"),
        Json::Number(sp) => span_doc(s, sp),
        Json::Str(sp) => span_doc(s, sp),
        Json::Array(_, items) => match items {
            Items::End => lit("[]"),
            Items::Item(_, _, _) => bracket_doc("[", items_to_docs(s, items), "]"),
        },
        Json::Object(_, ms) => match ms {
            Members::End => lit("{}"),
            Members::Member(_, _, _, _) => bracket_doc("{", members_to_docs(s, ms), "}"),
        },
    }
}

fn prepend(d: Document, rest: Vec<Document>) -> (r: Vec<Document>)
    ensures
        view_docs(r@) == seq![d@] + view_docs(rest@),
{
    let ghost dv = d@;
    let ghost rv = rest@;
    let mut v: Vec<Document> = Vec::new();
    v.push(d);
    let ghost one = v@;
    let mut tail = rest;
    v.append(&mut tail);
    proof {
        crate::doc::lemma_view_docs_add(one, rv);
        lemma_view_docs(one);
        assert(view_docs(one) =~= seq![dv]);
    }
    v
}

/// Lays out the elements of an array, first to last.
pub fn items_to_docs(s: &Vec<char>, items: &Items) -> (r: Vec<Document>)
    ensures
        view_docs(r@) == items_doc(s@, *items),
    decreases items,
{
    match items {
        Items::End => {
            let v: Vec<Document> = Vec::new();
            assert(view_docs(v@) =~= Seq::<DocumentSpec>::empty());
            v
        },
        Items::Item(x, _, rest) => prepend(json_to_doc(s, x), items_to_docs(s, rest)),
    }
}

/// Lays out the members of an object, first to last.
pub fn members_to_docs(s: &Vec<char>, ms: &Members) -> (r: Vec<Document>)
    ensures
        view_docs(r@) == members_doc(s@, *ms),
    decreases ms,
{
    match ms {
        Members::End => {
            let v: Vec<Document> = Vec::new();
            assert(view_docs(v@) =~= Seq::<DocumentSpec>::empty());
            v
        },
        Members::Member(k, x, _, rest) => {
            let mut key = crate::google_sheets::span_string(s, k);
            crate::text::push_all(&mut key, ": ");
            proof {
                reveal_strlit(": ");
                assert(": "@ =~= seq![':', ' ']);
            }
            let d = Document::Text(key).add(json_to_doc(s, x));
            prepend(d, members_to_docs(s, rest))
        },
    }
}

/// Whether the characters from `sp.start` up to `sp.end` and the positions
/// from `a` up to `b` have a position in common.
pub open spec fn overlaps(sp: Span, a: int, b: int) -> bool {
    sp.start < b && a < sp.end
}

/// The layout of a value when only the positions from `a` up to `b` are to
/// be formatted: an array or object that overlaps them is bracketed as
/// `json_doc` does it, its elements and member values chosen the same way;
/// one that does not keeps its source text as written; numbers, strings and
/// literals are laid out as written either way.
pub open spec fn json_range_doc(s: Seq<char>, v: Json, a: int, b: int) -> DocumentSpec
    decreases v,
{
    match v {
        Json::Array(sp, items) => if !overlaps(sp, a, b) {
            txt(span_text(s, sp))
        } else {
            match items {
                Items::End => txt(seq!['[', ']']),
                Items::Item(_, _, _) => bracketed('[', items_range_doc(s, items, a, b), ']'),
            }
        },
        Json::Object(sp, ms) => if !overlaps(sp, a, b) {
            txt(span_text(s, sp))
        } else {
            match ms {
                Members::End => txt(seq!['{', '}']),
                Members::Member(_, _, _, _) => bracketed('{', members_range_doc(s, ms, a, b), '}'),
            }
        },
        _ => json_doc(s, v),
    }
}

/// The range layouts of the elements, first to last.
pub open spec fn items_range_doc(s: Seq<char>, items: Items, a: int, b: int) -> Seq<DocumentSpec>
    decreases items,
{
    match items {
        Items::End => Seq::empty(),
        Items::Item(v, _, rest) => seq![json_range_doc(s, *v, a, b)] + items_range_doc(s, *rest, a, b),
    }
}

/// The range layouts of the members, first to last: the key, `: ` and the value.
pub open spec fn members_range_doc(s: Seq<char>, ms: Members, a: int, b: int) -> Seq<DocumentSpec>
    decreases ms,
{
    match ms {
        Members::End => Seq::empty(),
        Members::Member(k, v, _, rest) => seq![
            spec_add(txt(span_text(s, k) + seq![':', ' ']), json_range_doc(s, *v, a, b)),
        ] + members_range_doc(s, *rest, a, b),
    }
}

/// Lays out a value of the JSON text whose characters are `s`, formatting
/// only what overlaps the positions from `a` up to `b`.
pub fn json_range_to_doc(s: &Vec<char>, v: &Json, a: usize, b: usize) -> (r: Document)
    ensures
        r@ == json_range_doc(s@, *v, a as int, b as int),
    decreases v,
{
    proof {
        reveal_strlit("[]");
        assert("[]"@ =~= seq!['[', ']']);
        reveal_strlit("{}");
        assert("{}"@ =~= seq!['{', '}']);
        reveal_strlit("[");
        reveal_strlit("]");
        reveal_strlit("{");
        reveal_strlit("}");
    }
    match v {
        Json::Array(sp, items) => if !(sp.start < b && a < sp.end) {
            span_doc(s, sp)
        } else {
            match items {
                Items::End => lit("[]"),
                Items::Item(_, _, _) => bracket_doc("[", items_range_to_docs(s, items, a, b), "]"),
            }
        },
        Json::Object(sp, ms) => if !(sp.start < b && a < sp.end) {
            span_doc(s, sp)
        } else {
            match ms {
                Members::End => lit("{}"),
                Members::Member(_, _, _, _) => bracket_doc("{", members_range_to_docs(s, ms, a, b), "}"),
            }
        },
        _ => json_to_doc(s, v),
    }
}

/// Lays out the elements of an array for a range, first to last.
pub fn items_range_to_docs(s: &Vec<char>, items: &Items, a: usize, b: usize) -> (r: Vec<Document>)
    ensures
        view_docs(r@) == items_range_doc(s@, *items, a as int, b as int),
    decreases items,
{
    match items {
        Items::End => {
            let v: Vec<Document> = Vec::new();
            assert(view_docs(v@) =~= Seq::<DocumentSpec>::empty());
            v
        },
        Items::Item(x, _, rest) => prepend(json_range_to_doc(s, x, a, b), items_range_to_docs(s, rest, a, b)),
    }
}

/// Lays out the members of an object for a range, first to last.
pub fn members_range_to_docs(s: &Vec<char>, ms: &Members, a: usize, b: usize) -> (r: Vec<Document>)
    ensures
        view_docs(r@) == members_range_doc(s@, *ms, a as int, b as int),
    decreases ms,
{
    match ms {
        Members::End => {
            let v: Vec<Document> = Vec::new();
            assert(view_docs(v@) =~= Seq::<DocumentSpec>::empty());
            v
        },
        Members::Member(k, x, _, rest) => {
            let mut key = crate::google_sheets::span_string(s, k);
            crate::text::push_all(&mut key, ": ");
            proof {
                reveal_strlit(": ");
                assert(": "@ =~= seq![':', ' ']);
            }
            let d = Document::Text(key).add(json_range_to_doc(s, x, a, b));
            prepend(d, members_range_to_docs(s, rest, a, b))
        },
    }
}

/// Pretty-print the part of a JSON text that overlaps the character
/// positions from `range.start` up to `range.end`: arrays and objects outside
/// it keep their source text (see `json_range_doc`). `None` where the input
/// does not start with a JSON value.
pub fn prettify_json_range(input: &str, range: std::ops::Range<usize>, config: &PrinterConfig) -> (r: Option<
    String,
>)
    requires
        spec_parse_json(input@) matches Some(v) ==> printable(
            json_range_doc(input@, v, range.start as int, range.end as int),
            config.max_width,
            config.indent,
        ),
    ensures
        match spec_parse_json(input@) {
            None => r is None,
            Some(v) => r matches Some(out) && out@ == rendered(
                json_range_doc(input@, v, range.start as int, range.end as int),
                config.max_width,
                config.indent,
                config.use_tabs,
            ),
        },
{
    let v = match JsonParser::value(input) {
        None => return None,
        Some(v) => v,
    };
    let s = chars_of(input);
    let doc = json_range_to_doc(&s, &v, range.start, range.end);
    Some(render(&doc, config))
}

/// Pretty-print a JSON text: `None` where the input does not start with a
/// JSON value, else the rendered layout of that value.
pub fn prettify_json(input: &str, config: &PrinterConfig) -> (r: Option<String>)
    requires
        spec_parse_json(input@) matches Some(v) ==> printable(json_doc(input@, v), config.max_width, config.indent),
    ensures
        match spec_parse_json(input@) {
            None => r is None,
            Some(v) => r matches Some(out) && out@ == rendered(
                json_doc(input@, v),
                config.max_width,
                config.indent,
                config.use_tabs,
            ),
        },
{
    let v = match JsonParser::value(input) {
        None => return None,
        Some(v) => v,
    };
    let s = chars_of(input);
    let doc = json_to_doc(&s, &v);
    Some(render(&doc, config))
}

} // verus!
