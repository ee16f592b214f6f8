//! Google Sheets formulas: the grammar, a parser proved against it, and the
//! layout of a parsed formula.

use vstd::prelude::*;

use crate::config::PrinterConfig;
use crate::doc::{printable, render, rendered, spec_add, view_docs, lemma_view_docs, Document, DocumentSpec};
use crate::text::{chars_of, string_of};

verus! {

/// A range of character positions `[start, end)` in the formula source.
pub struct Span {
    pub start: usize,
    pub end: usize,
}

/// Binary operators, from the loosest binding level to the tightest.
pub enum BinOp {
    Eq,
    Ne,
    Lt,
    Le,
    Gt,
    Ge,
    Concat,
    Add,
    Sub,
    Mul,
    Div,
    Pow,
}

/// Prefix sign operators.
pub enum UnaryOp {
    Neg,
    Plus,
}

/// A formula expression. Leaves refer to the source by character spans.
pub enum Expr {
    /// A number literal such as `42`, `1.5` or `2e10`.
    Number(Span),
    /// A string literal, quotes included (`""` inside stands for one quote).
    Text(Span),
    /// A name or a cell reference such as `A1`, `$B$2`, `Sheet1!C3` or `TRUE`.
    Reference(Span),
    /// A range such as `A1:Z100`.
    Range(Span, Span),
    /// A function call: the function name and its arguments.
    Call(Span, Args),
    /// A sign applied to an operand.
    Unary(UnaryOp, Box<Expr>),
    /// A postfix percent sign.
    Percent(Box<Expr>),
    /// A binary operation.
    Binary(BinOp, Box<Expr>, Box<Expr>),
    /// A parenthesised expression.
    Paren(Box<Expr>),
}

/// The arguments of a call, first to last. An argument may be left empty,
/// as the middle one in `INDEX(data,,1)`.
pub enum Args {
    End,
    Arg(Option<Box<Expr>>, Box<Args>),
}

/// A parsed formula: the expression after the leading `=`.
pub struct Formula {
    pub body: Expr,
}

/// The character at `i`, or `'\0'` outside the text.
pub open spec fn at(s: Seq<char>, i: int) -> char {
    if 0 <= i < s.len() {
        s[i]
    } else {
        '\0'
    }
}

pub open spec fn is_ws(c: char) -> bool {
    c == ' ' || c == '\t' || c == '\n' || c == '\r'
}

pub open spec fn is_digit(c: char) -> bool {
    '0' <= c && c <= '9'
}

pub open spec fn is_ident_start(c: char) -> bool {
    ('A' <= c && c <= 'Z') || ('a' <= c && c <= 'z') || c == '_' || c == '$'
}

pub open spec fn is_ident_char(c: char) -> bool {
    is_ident_start(c) || is_digit(c) || c == '.' || c == '!'
}

/// The first position at or after `i` that does not hold whitespace.
pub open spec fn skip_ws(s: Seq<char>, i: int) -> int
    decreases s.len() - i,
{
    if 0 <= i < s.len() && is_ws(s[i]) {
        skip_ws(s, i + 1)
    } else {
        i
    }
}

/// The first position at or after `i` that does not hold a digit.
pub open spec fn scan_digits(s: Seq<char>, i: int) -> int
    decreases s.len() - i,
{
    if 0 <= i < s.len() && is_digit(s[i]) {
        scan_digits(s, i + 1)
    } else {
        i
    }
}

/// The first position at or after `i` that does not hold a name character.
pub open spec fn scan_ident(s: Seq<char>, i: int) -> int
    decreases s.len() - i,
{
    if 0 <= i < s.len() && is_ident_char(s[i]) {
        scan_ident(s, i + 1)
    } else {
        i
    }
}

/// Inside a string literal from `i` on: the position just after the closing
/// quote, where a doubled quote stands for one quote character.
pub open spec fn scan_string(s: Seq<char>, i: int) -> Option<int>
    decreases s.len() - i,
{
    if i < 0 || i >= s.len() {
        None
    } else if s[i] == '"' {
        if at(s, i + 1) == '"' {
            scan_string(s, i + 2)
        } else {
            Some(i + 1)
        }
    } else {
        scan_string(s, i + 1)
    }
}

/// `skip_ws` does not move backwards, and stops inside the text or at its end.
pub proof fn lemma_skip_ws(s: Seq<char>, i: int)
    requires
        0 <= i,
    ensures
        i <= skip_ws(s, i),
        i <= s.len() ==> skip_ws(s, i) <= s.len(),
        skip_ws(s, i) < s.len() ==> !is_ws(s[skip_ws(s, i)]),
        forall|k: int| i <= k < skip_ws(s, i) ==> is_ws(#[trigger] s[k]),
    decreases s.len() - i,
{
    if 0 <= i < s.len() && is_ws(s[i]) {
        lemma_skip_ws(s, i + 1);
    }
}

/// `scan_digits` does not move backwards, and stops inside the text or at its end.
pub proof fn lemma_scan_digits(s: Seq<char>, i: int)
    requires
        0 <= i,
    ensures
        i <= scan_digits(s, i),
        i <= s.len() ==> scan_digits(s, i) <= s.len(),
        forall|k: int| i <= k < scan_digits(s, i) ==> is_digit(#[trigger] s[k]),
    decreases s.len() - i,
{
    if 0 <= i < s.len() && is_digit(s[i]) {
        lemma_scan_digits(s, i + 1);
    }
}

/// `scan_ident` does not move backwards, and stops inside the text or at its end.
pub proof fn lemma_scan_ident(s: Seq<char>, i: int)
    requires
        0 <= i,
    ensures
        i <= scan_ident(s, i),
        i <= s.len() ==> scan_ident(s, i) <= s.len(),
        forall|k: int| i <= k < scan_ident(s, i) ==> is_ident_char(#[trigger] s[k]),
    decreases s.len() - i,
{
    if 0 <= i < s.len() && is_ident_char(s[i]) {
        lemma_scan_ident(s, i + 1);
    }
}

/// A string literal ends after the position where its scan starts, inside the text.
pub proof fn lemma_scan_string(s: Seq<char>, i: int)
    ensures
        scan_string(s, i) matches Some(e) ==> i < e <= s.len(),
    decreases s.len() - i,
{
    if 0 <= i < s.len() {
        if s[i] == '"' {
            if at(s, i + 1) == '"' {
                lemma_scan_string(s, i + 2);
            }
        } else {
            lemma_scan_string(s, i + 1);
        }
    }
}

/// The end of a number literal starting at `i`: digits, an optional
/// fraction, an optional exponent.
pub open spec fn scan_number(s: Seq<char>, i: int) -> int {
    let e1 = scan_digits(s, i);
    let e2 = if at(s, e1) == '.' && is_digit(at(s, e1 + 1)) {
        scan_digits(s, e1 + 1)
    } else {
        e1
    };
    if (at(s, e2) == 'e' || at(s, e2) == 'E') && is_digit(at(s, e2 + 1)) {
        scan_digits(s, e2 + 1)
    } else if (at(s, e2) == 'e' || at(s, e2) == 'E') && (at(s, e2 + 1) == '+' || at(s, e2 + 1)
        == '-') && is_digit(at(s, e2 + 2)) {
        scan_digits(s, e2 + 2)
    } else {
        e2
    }
}

/// Whether a number literal starts at `i`.
pub open spec fn starts_number(s: Seq<char>, i: int) -> bool {
    is_digit(at(s, i)) || (at(s, i) == '.' && is_digit(at(s, i + 1)))
}

/// The binary operator of binding level `lvl` at position `i`, and the
/// position after it.
pub open spec fn op_at(s: Seq<char>, i: int, lvl: int) -> Option<(BinOp, int)> {
    let c = at(s, i);
    let d = at(s, i + 1);
    if lvl == 0 {
        if c == '<' && d == '=' {
            Some((BinOp::Le, i + 2))
        } else if c == '>' && d == '=' {
            Some((BinOp::Ge, i + 2))
        } else if c == '<' && d == '>' {
            Some((BinOp::Ne, i + 2))
        } else if c == '=' {
            Some((BinOp::Eq, i + 1))
        } else if c == '<' {
            Some((BinOp::Lt, i + 1))
        } else if c == '>' {
            Some((BinOp::Gt, i + 1))
        } else {
            None
        }
    } else if lvl == 1 {
        if c == '&' {
            Some((BinOp::Concat, i + 1))
        } else {
            None
        }
    } else if lvl == 2 {
        if c == '+' {
            Some((BinOp::Add, i + 1))
        } else if c == '-' {
            Some((BinOp::Sub, i + 1))
        } else {
            None
        }
    } else if lvl == 3 {
        if c == '*' {
            Some((BinOp::Mul, i + 1))
        } else if c == '/' {
            Some((BinOp::Div, i + 1))
        } else {
            None
        }
    } else if lvl == 4 {
        if c == '^' {
            Some((BinOp::Pow, i + 1))
        } else {
            None
        }
    } else {
        None
    }
}

pub open spec fn span(a: int, b: int) -> Span {
    Span { start: a as usize, end: b as usize }
}

/// The rank of a binding level in the termination measure.
pub open spec fn level_rank(lvl: int) -> int {
    if lvl < 0 {
        20
    } else if lvl > 5 {
        10
    } else {
        20 - 2 * lvl
    }
}

/// Whether a parse that started at `pos` and stopped at `p` stayed in the text.
pub open spec fn advanced(s: Seq<char>, pos: int, p: int) -> bool {
    pos <= p <= s.len()
}

/// The expression of binding level `lvl` (0: comparison, 1: `&`, 2: `+ -`,
/// 3: `* /`, 4: `^`, 5 and above: signed operand) at `pos`, as the longest
/// left-associative chain of operands of the next level, and the position
/// after it.
pub open spec fn p_level(s: Seq<char>, pos: int, lvl: int) -> Option<(Expr, int)>
    decreases s.len() - pos, level_rank(lvl),
{
    if pos < 0 || pos > s.len() {
        None
    } else if lvl >= 5 || lvl < 0 {
        p_unary(s, pos)
    } else {
        match p_level(s, pos, lvl + 1) {
            None => None,
            Some((lhs, p)) => if advanced(s, pos, p) {
                p_tail(s, p, lvl, lhs)
            } else {
                None
            },
        }
    }
}

/// Continues a chain of level `lvl` whose operands so far make `lhs` and end at `pos`.
pub open spec fn p_tail(s: Seq<char>, pos: int, lvl: int, lhs: Expr) -> Option<(Expr, int)>
    decreases s.len() - pos, level_rank(lvl) - 1,
{
    if pos < 0 || pos > s.len() || lvl < 0 || lvl > 4 {
        Some((lhs, pos))
    } else {
        let q = skip_ws(s, pos);
        match op_at(s, q, lvl) {
            None => Some((lhs, pos)),
            Some((op, q2)) => if pos < q2 <= s.len() {
                match p_level(s, q2, lvl + 1) {
                    None => Some((lhs, pos)),
                    Some((rhs, p2)) => if advanced(s, q2, p2) {
                        p_tail(s, p2, lvl, Expr::Binary(op, Box::new(lhs), Box::new(rhs)))
                    } else {
                        None
                    },
                }
            } else {
                None
            },
        }
    }
}

/// An operand with any number of leading signs.
pub open spec fn p_unary(s: Seq<char>, pos: int) -> Option<(Expr, int)>
    decreases s.len() - pos, 4int,
{
    if pos < 0 || pos > s.len() {
        None
    } else {
        let q = skip_ws(s, pos);
        if q < pos || q > s.len() {
            None
        } else if at(s, q) == '-' || at(s, q) == '+' {
            let op = if at(s, q) == '-' {
                UnaryOp::Neg
            } else {
                UnaryOp::Plus
            };
            match p_unary(s, q + 1) {
                None => None,
                Some((e, p)) => Some((Expr::Unary(op, Box::new(e)), p)),
            }
        } else {
            p_postfix(s, pos)
        }
    }
}

/// An operand followed by any number of percent signs.
pub open spec fn p_postfix(s: Seq<char>, pos: int) -> Option<(Expr, int)>
    decreases s.len() - pos, 3int,
{
    if pos < 0 || pos > s.len() {
        None
    } else {
        match p_atom(s, pos) {
            None => None,
            Some((e, p)) => if advanced(s, pos, p) {
                p_percent(s, p, e)
            } else {
                None
            },
        }
    }
}

/// Applies the percent signs that follow `e`, which ends at `pos`.
pub open spec fn p_percent(s: Seq<char>, pos: int, e: Expr) -> Option<(Expr, int)>
    decreases s.len() - pos, 2int,
{
    if pos < 0 || pos > s.len() {
        Some((e, pos))
    } else {
        let q = skip_ws(s, pos);
        if pos <= q < s.len() && s[q] == '%' {
            p_percent(s, q + 1, Expr::Percent(Box::new(e)))
        } else {
            Some((e, pos))
        }
    }
}

/// A single operand: a parenthesised expression, a string, a number, a call,
/// a range or a reference.
pub open spec fn p_atom(s: Seq<char>, pos: int) -> Option<(Expr, int)>
    decreases s.len() - pos, 1int,
{
    if pos < 0 || pos > s.len() {
        None
    } else {
        let q = skip_ws(s, pos);
        if q < pos || q >= s.len() {
            None
        } else if s[q] == '(' {
            match p_level(s, q + 1, 0) {
                None => None,
                Some((e, p)) => if advanced(s, q + 1, p) {
                    let r = skip_ws(s, p);
                    if at(s, r) == ')' {
                        Some((Expr::Paren(Box::new(e)), r + 1))
                    } else {
                        None
                    }
                } else {
                    None
                },
            }
        } else if s[q] == '"' {
            match scan_string(s, q + 1) {
                None => None,
                Some(e) => Some((Expr::Text(span(q, e)), e)),
            }
        } else if starts_number(s, q) {
            let e = scan_number(s, q);
            Some((Expr::Number(span(q, e)), e))
        } else if is_ident_start(s[q]) {
            let e = scan_ident(s, q);
            proof {
                lemma_skip_ws(s, pos);
                lemma_scan_ident(s, q);
            }
            if at(s, e) == '(' {
                match p_args(s, e + 1) {
                    None => None,
                    Some((args, p)) => Some((Expr::Call(span(q, e), args), p)),
                }
            } else if at(s, e) == ':' && is_ident_char(at(s, e + 1)) {
                let e2 = scan_ident(s, e + 1);
                Some((Expr::Range(span(q, e), span(e + 1, e2)), e2))
            } else {
                Some((Expr::Reference(span(q, e)), e))
            }
        } else {
            None
        }
    }
}

/// The arguments after an opening parenthesis, up to and including the
/// closing one; `()` gives no arguments.
pub open spec fn p_args(s: Seq<char>, pos: int) -> Option<(Args, int)>
    decreases s.len() - pos, 22int,
{
    if pos < 0 || pos > s.len() {
        None
    } else {
        let q = skip_ws(s, pos);
        if at(s, q) == ')' {
            Some((Args::End, q + 1))
        } else {
            p_arglist(s, pos)
        }
    }
}

/// One argument (possibly empty) and then either `,` and further arguments
/// or the closing parenthesis.
pub open spec fn p_arglist(s: Seq<char>, pos: int) -> Option<(Args, int)>
    decreases s.len() - pos, 21int,
{
    if pos < 0 || pos > s.len() {
        None
    } else {
        let (arg, p) = match p_level(s, pos, 0) {
            None => (None, pos),
            Some((e, p)) => (Some(Box::new(e)), p),
        };
        if !advanced(s, pos, p) {
            None
        } else {
            let q = skip_ws(s, p);
            if pos <= q < s.len() && s[q] == ',' {
                match p_arglist(s, q + 1) {
                    None => None,
                    Some((rest, r)) => Some((Args::Arg(arg, Box::new(rest)), r)),
                }
            } else if pos <= q < s.len() && s[q] == ')' {
                Some((Args::Arg(arg, Box::new(Args::End)), q + 1))
            } else {
                None
            }
        }
    }
}

/// The formula at the start of the text: optional whitespace, `=` and an
/// expression, and the position where the expression ends. What follows it
/// is not read.
pub open spec fn formula_parse(s: Seq<char>) -> Option<(Formula, int)> {
    let q = skip_ws(s, 0);
    if at(s, q) == '=' {
        match p_level(s, q + 1, 0) {
            None => None,
            Some((e, p)) => Some((Formula { body: e }, p)),
        }
    } else {
        None
    }
}

/// The formula at the start of the text.
pub open spec fn spec_parse_formula(s: Seq<char>) -> Option<Formula> {
    match formula_parse(s) {
        None => None,
        Some((f, _)) => Some(f),
    }
}


/// An executable result agrees with a spec result that measures positions as integers.
pub open spec fn agrees<T>(r: Option<(T, usize)>, sp: Option<(T, int)>) -> bool {
    match r {
        None => sp is None,
        Some((v, p)) => sp == Some((v, p as int)),
    }
}

pub(crate) fn char_at(s: &Vec<char>, i: usize) -> (c: char)
    ensures
        c == at(s@, i as int),
{
    if i < s.len() {
        s[i]
    } else {
        '\0'
    }
}

fn ws_char(c: char) -> (b: bool)
    ensures
        b == is_ws(c),
{
    c == ' ' || c == '\t' || c == '\n' || c == '\r'
}

pub(crate) fn digit_char(c: char) -> (b: bool)
    ensures
        b == is_digit(c),
{
    '0' <= c && c <= '9'
}

fn ident_start_char(c: char) -> (b: bool)
    ensures
        b == is_ident_start(c),
{
    ('A' <= c && c <= 'Z') || ('a' <= c && c <= 'z') || c == '_' || c == '$'
}

fn ident_char(c: char) -> (b: bool)
    ensures
        b == is_ident_char(c),
{
    ident_start_char(c) || digit_char(c) || c == '.' || c == '!'
}

pub(crate) fn skip_ws_at(s: &Vec<char>, i: usize) -> (r: usize)
    requires
        i <= s.len(),
    ensures
        r == skip_ws(s@, i as int),
        i <= r <= s.len(),
{
    proof {
        lemma_skip_ws(s@, i as int);
    }
    let mut k = i;
    while k < s.len() && ws_char(s[k])
        invariant
            i <= k <= s.len(),
            skip_ws(s@, k as int) == skip_ws(s@, i as int),
        decreases s.len() - k,
    {
        k = k + 1;
    }
    k
}

pub(crate) fn scan_digits_at(s: &Vec<char>, i: usize) -> (r: usize)
    requires
        i <= s.len(),
    ensures
        r == scan_digits(s@, i as int),
        i <= r <= s.len(),
{
    proof {
        lemma_scan_digits(s@, i as int);
    }
    let mut k = i;
    while k < s.len() && digit_char(s[k])
        invariant
            i <= k <= s.len(),
            scan_digits(s@, k as int) == scan_digits(s@, i as int),
        decreases s.len() - k,
    {
        k = k + 1;
    }
    k
}

fn scan_ident_at(s: &Vec<char>, i: usize) -> (r: usize)
    requires
        i <= s.len(),
    ensures
        r == scan_ident(s@, i as int),
        i <= r <= s.len(),
{
    proof {
        lemma_scan_ident(s@, i as int);
    }
    let mut k = i;
    while k < s.len() && ident_char(s[k])
        invariant
            i <= k <= s.len(),
            scan_ident(s@, k as int) == scan_ident(s@, i as int),
        decreases s.len() - k,
    {
        k = k + 1;
    }
    k
}

fn scan_string_at(s: &Vec<char>, i: usize) -> (r: Option<usize>)
    requires
        i <= s.len(),
    ensures
        match r {
            None => scan_string(s@, i as int) is None,
            Some(e) => scan_string(s@, i as int) == Some(e as int),
        },
{
    let mut k = i;
    while k < s.len()
        invariant
            i <= k <= s.len(),
            scan_string(s@, k as int) == scan_string(s@, i as int),
        decreases s.len() - k,
    {
        if s[k] == '"' {
            if char_at(s, k + 1) == '"' {
                k = k + 2;
            } else {
                return Some(k + 1);
            }
        } else {
            k = k + 1;
        }
    }
    None
}

fn scan_number_at(s: &Vec<char>, i: usize) -> (r: usize)
    requires
        i <= s.len(),
    ensures
        r == scan_number(s@, i as int),
        i <= r <= s.len(),
{
    let e1 = scan_digits_at(s, i);
    let e2 = if char_at(s, e1) == '.' && digit_char(char_at(s, e1 + 1)) {
        scan_digits_at(s, e1 + 1)
    } else {
        e1
    };
    let c = char_at(s, e2);
    if (c == 'e' || c == 'E') && digit_char(char_at(s, e2 + 1)) {
        scan_digits_at(s, e2 + 1)
    } else if (c == 'e' || c == 'E') && (char_at(s, e2 + 1) == '+' || char_at(s, e2 + 1) == '-')
        && digit_char(char_at(s, e2 + 2)) {
        scan_digits_at(s, e2 + 2)
    } else {
        e2
    }
}

fn op_at_exec(s: &Vec<char>, i: usize, lvl: usize) -> (r: Option<(BinOp, usize)>)
    requires
        i < s.len(),
    ensures
        agrees(r, op_at(s@, i as int, lvl as int)),
{
    let c = s[i];
    let d = char_at(s, i + 1);
    if lvl == 0 {
        if c == '<' && d == '=' {
            Some((BinOp::Le, i + 2))
        } else if c == '>' && d == '=' {
            Some((BinOp::Ge, i + 2))
        } else if c == '<' && d == '>' {
            Some((BinOp::Ne, i + 2))
        } else if c == '=' {
            Some((BinOp::Eq, i + 1))
        } else if c == '<' {
            Some((BinOp::Lt, i + 1))
        } else if c == '>' {
            Some((BinOp::Gt, i + 1))
        } else {
            None
        }
    } else if lvl == 1 {
        if c == '&' {
            Some((BinOp::Concat, i + 1))
        } else {
            None
        }
    } else if lvl == 2 {
        if c == '+' {
            Some((BinOp::Add, i + 1))
        } else if c == '-' {
            Some((BinOp::Sub, i + 1))
        } else {
            None
        }
    } else if lvl == 3 {
        if c == '*' {
            Some((BinOp::Mul, i + 1))
        } else if c == '/' {
            Some((BinOp::Div, i + 1))
        } else {
            None
        }
    } else if lvl == 4 {
        if c == '^' {
            Some((BinOp::Pow, i + 1))
        } else {
            None
        }
    } else {
        None
    }
}

fn parse_level(s: &Vec<char>, pos: usize, lvl: usize) -> (r: Option<(Expr, usize)>)
    requires
        pos <= s.len(),
        lvl <= 5,
    ensures
        agrees(r, p_level(s@, pos as int, lvl as int)),
    decreases s.len() - pos, level_rank(lvl as int),
{
    if lvl >= 5 {
        parse_unary(s, pos)
    } else {
        match parse_level(s, pos, lvl + 1) {
            None => None,
            Some((lhs, p)) => if pos <= p && p <= s.len() {
                parse_tail(s, p, lvl, lhs)
            } else {
                None
            },
        }
    }
}

fn parse_tail(s: &Vec<char>, pos: usize, lvl: usize, lhs: Expr) -> (r: Option<(Expr, usize)>)
    requires
        pos <= s.len(),
        lvl <= 4,
    ensures
        agrees(r, p_tail(s@, pos as int, lvl as int, lhs)),
    decreases s.len() - pos, level_rank(lvl as int) - 1,
{
    let q = skip_ws_at(s, pos);
    if q >= s.len() {
        return Some((lhs, pos));
    }
    match op_at_exec(s, q, lvl) {
        None => Some((lhs, pos)),
        Some((op, q2)) => if pos < q2 && q2 <= s.len() {
            let ghost lhs_v = lhs;
            match parse_level(s, q2, lvl + 1) {
                None => Some((lhs, pos)),
                Some((rhs, p2)) => if q2 <= p2 && p2 <= s.len() {
                    parse_tail(s, p2, lvl, Expr::Binary(op, Box::new(lhs), Box::new(rhs)))
                } else {
                    None
                },
            }
        } else {
            None
        },
    }
}

fn parse_unary(s: &Vec<char>, pos: usize) -> (r: Option<(Expr, usize)>)
    requires
        pos <= s.len(),
    ensures
        agrees(r, p_unary(s@, pos as int)),
    decreases s.len() - pos, 4int,
{
    let q = skip_ws_at(s, pos);
    let c = char_at(s, q);
    if c == '-' || c == '+' {
        let op = if c == '-' {
            UnaryOp::Neg
        } else {
            UnaryOp::Plus
        };
        match parse_unary(s, q + 1) {
            None => None,
            Some((e, p)) => Some((Expr::Unary(op, Box::new(e)), p)),
        }
    } else {
        parse_postfix(s, pos)
    }
}

fn parse_postfix(s: &Vec<char>, pos: usize) -> (r: Option<(Expr, usize)>)
    requires
        pos <= s.len(),
    ensures
        agrees(r, p_postfix(s@, pos as int)),
    decreases s.len() - pos, 3int,
{
    match parse_atom(s, pos) {
        None => None,
        Some((e, p)) => if pos <= p && p <= s.len() {
            parse_percent(s, p, e)
        } else {
            None
        },
    }
}

fn parse_percent(s: &Vec<char>, pos: usize, e: Expr) -> (r: Option<(Expr, usize)>)
    requires
        pos <= s.len(),
    ensures
        agrees(r, p_percent(s@, pos as int, e)),
    decreases s.len() - pos, 2int,
{
    let q = skip_ws_at(s, pos);
    if q < s.len() && s[q] == '%' {
        parse_percent(s, q + 1, Expr::Percent(Box::new(e)))
    } else {
        Some((e, pos))
    }
}

fn parse_atom(s: &Vec<char>, pos: usize) -> (r: Option<(Expr, usize)>)
    requires
        pos <= s.len(),
    ensures
        agrees(r, p_atom(s@, pos as int)),
    decreases s.len() - pos, 1int,
{
    let q = skip_ws_at(s, pos);
    if q >= s.len() {
        return None;
    }
    let c = s[q];
    if c == '(' {
        match parse_level(s, q + 1, 0) {
            None => None,
            Some((e, p)) => if q + 1 <= p && p <= s.len() {
                let r = skip_ws_at(s, p);
                if char_at(s, r) == ')' {
                    Some((Expr::Paren(Box::new(e)), r + 1))
                } else {
                    None
                }
            } else {
                None
            },
        }
    } else if c == '"' {
        proof {
            lemma_scan_string(s@, q + 1);
        }
        match scan_string_at(s, q + 1) {
            None => None,
            Some(e) => Some((Expr::Text(Span { start: q, end: e }), e)),
        }
    } else if digit_char(c) || (c == '.' && digit_char(char_at(s, q + 1))) {
        let e = scan_number_at(s, q);
        Some((Expr::Number(Span { start: q, end: e }), e))
    } else if ident_start_char(c) {
        let e = scan_ident_at(s, q);
        if char_at(s, e) == '(' {
            match parse_args(s, e + 1) {
                None => None,
                Some((args, p)) => Some((Expr::Call(Span { start: q, end: e }, args), p)),
            }
        } else if char_at(s, e) == ':' && ident_char(char_at(s, e + 1)) {
            let e2 = scan_ident_at(s, e + 1);
            Some((Expr::Range(Span { start: q, end: e }, Span { start: e + 1, end: e2 }), e2))
        } else {
            Some((Expr::Reference(Span { start: q, end: e }), e))
        }
    } else {
        None
    }
}

fn parse_args(s: &Vec<char>, pos: usize) -> (r: Option<(Args, usize)>)
    requires
        pos <= s.len(),
    ensures
        agrees(r, p_args(s@, pos as int)),
    decreases s.len() - pos, 22int,
{
    let q = skip_ws_at(s, pos);
    if char_at(s, q) == ')' {
        Some((Args::End, q + 1))
    } else {
        parse_arglist(s, pos)
    }
}

fn parse_arglist(s: &Vec<char>, pos: usize) -> (r: Option<(Args, usize)>)
    requires
        pos <= s.len(),
    ensures
        agrees(r, p_arglist(s@, pos as int)),
    decreases s.len() - pos, 21int,
{
    let (arg, p) = match parse_level(s, pos, 0) {
        None => (None, pos),
        Some((e, p)) => (Some(Box::new(e)), p),
    };
    if !(pos <= p && p <= s.len()) {
        return None;
    }
    let q = skip_ws_at(s, p);
    if q < s.len() && s[q] == ',' {
        match parse_arglist(s, q + 1) {
            None => None,
            Some((rest, r)) => Some((Args::Arg(arg, Box::new(rest)), r)),
        }
    } else if q < s.len() && s[q] == ')' {
        Some((Args::Arg(arg, Box::new(Args::End)), q + 1))
    } else {
        None
    }
}


/// The Google Sheets formula grammar; its entry rule is `formula`.
pub struct GoogleSheetsParser;

impl GoogleSheetsParser {
    /// Parses the formula at the start of the input: `=` and an expression,
    /// with whitespace before; the text after the expression is not read.
    pub fn formula(input: &str) -> (r: Option<Formula>)
        ensures
            r == spec_parse_formula(input@),
    {
        let s = chars_of(input);
        let q = skip_ws_at(&s, 0);
        if char_at(&s, q) == '=' {
            match parse_level(&s, q + 1, 0) {
                None => None,
                Some((e, _)) => Some(Formula { body: e }),
            }
        } else {
            None
        }
    }
}

/// Parse a Google Sheets formula. Returns the syntax tree of the formula at
/// the start of the text, or `None` where the text does not start with one.
pub fn parse_formula(input: &str) -> (r: Option<Formula>)
    ensures
        r == spec_parse_formula(input@),
{
    GoogleSheetsParser::formula(input)
}


/// The source text of a span, or nothing where the span lies outside the text.
pub open spec fn span_text(s: Seq<char>, sp: Span) -> Seq<char> {
    if sp.start <= sp.end <= s.len() {
        s.subrange(sp.start as int, sp.end as int)
    } else {
        Seq::empty()
    }
}

/// How a binary operator is written between its operands.
pub open spec fn op_text(op: BinOp) -> Seq<char> {
    match op {
        BinOp::Eq => seq![' ', '=', ' '],
        BinOp::Ne => seq![' ', '<', '>', ' '],
        BinOp::Lt => seq![' ', '<', ' '],
        BinOp::Le => seq![' ', '<', '=', ' '],
        BinOp::Gt => seq![' ', '>', ' '],
        BinOp::Ge => seq![' ', '>', '=', ' '],
        BinOp::Concat => seq![' ', '&', ' '],
        BinOp::Add => seq![' ', '+', ' '],
        BinOp::Sub => seq![' ', '-', ' '],
        BinOp::Mul => seq![' ', '*', ' '],
        BinOp::Div => seq![' ', '/', ' '],
        BinOp::Pow => seq!['^'],
    }
}

pub open spec fn txt(t: Seq<char>) -> DocumentSpec {
    DocumentSpec::Text(t)
}

/// The break that a call's argument list takes on each side when it does
/// not fit on one line.
pub open spec fn soft_break_spec() -> DocumentSpec {
    DocumentSpec::IfBreak(Box::new(DocumentSpec::Hardline), Box::new(DocumentSpec::Null))
}

/// The separator between call arguments: `,` ending a line when the list
/// breaks, `, ` otherwise.
pub open spec fn arg_sep_spec() -> DocumentSpec {
    DocumentSpec::IfBreak(Box::new(txt(seq![','])), Box::new(txt(seq![',', ' '])))
}

/// The layout of an expression: operators spaced, calls as
/// `NAME(` + indented arguments filling lines + `)` in one group.
pub open spec fn expr_doc(s: Seq<char>, e: Expr) -> DocumentSpec
    decreases e,
{
    match e {
        Expr::Number(sp) => txt(span_text(s, sp)),
        Expr::Text(sp) => txt(span_text(s, sp)),
        Expr::Reference(sp) => txt(span_text(s, sp)),
        Expr::Range(a, b) => txt(span_text(s, a) + seq![':'] + span_text(s, b)),
        Expr::Call(name, args) => match args {
            Args::End => txt(span_text(s, name) + seq!['(', ')']),
            Args::Arg(_, _) => DocumentSpec::Group(
                Box::new(
                    spec_add(
                        spec_add(
                            spec_add(
                                txt(span_text(s, name) + seq!['(']),
                                DocumentSpec::Indent(
                                    Box::new(
                                        spec_add(
                                            soft_break_spec(),
                                            DocumentSpec::SmartJoin(
                                                Box::new(arg_sep_spec()),
                                                args_doc(s, args),
                                            ),
                                        ),
                                    ),
                                ),
                            ),
                            soft_break_spec(),
                        ),
                        txt(seq![')']),
                    ),
                ),
            ),
        },
        Expr::Unary(op, x) => spec_add(
            txt(
                match op {
                    UnaryOp::Neg => seq!['-'],
                    UnaryOp::Plus => seq!['+'],
                },
            ),
            expr_doc(s, *x),
        ),
        Expr::Percent(x) => spec_add(expr_doc(s, *x), txt(seq!['%'])),
        Expr::Binary(op, l, r) => spec_add(
            spec_add(expr_doc(s, *l), txt(op_text(op))),
            expr_doc(s, *r),
        ),
        Expr::Paren(x) => spec_add(spec_add(txt(seq!['(']), expr_doc(s, *x)), txt(seq![')'])),
    }
}

/// The layouts of the arguments, first to last; an empty argument lays out as nothing.
pub open spec fn args_doc(s: Seq<char>, a: Args) -> Seq<DocumentSpec>
    decreases a,
{
    match a {
        Args::End => Seq::empty(),
        Args::Arg(x, rest) => seq![
            match x {
                None => DocumentSpec::Null,
                Some(b) => expr_doc(s, *b),
            },
        ] + args_doc(s, *rest),
    }
}

/// The layout of a formula: `=` directly before its expression.
pub open spec fn formula_doc(s: Seq<char>, f: Formula) -> DocumentSpec {
    spec_add(txt(seq!['=']), expr_doc(s, f.body))
}

pub(crate) fn span_doc(s: &Vec<char>, sp: &Span) -> (r: Document)
    ensures
        r@ == txt(span_text(s@, *sp)),
{
    if sp.start <= sp.end && sp.end <= s.len() {
        Document::Text(string_of(s, sp.start, sp.end))
    } else {
        Document::Text(String::new())
    }
}

pub(crate) fn span_string(s: &Vec<char>, sp: &Span) -> (r: String)
    ensures
        r@ == span_text(s@, *sp),
{
    if sp.start <= sp.end && sp.end <= s.len() {
        string_of(s, sp.start, sp.end)
    } else {
        String::new()
    }
}

pub(crate) fn lit(t: &str) -> (r: Document)
    ensures
        r@ == txt(t@),
{
    Document::text(t)
}

fn op_str(op: &BinOp) -> (r: &'static str)
    ensures
        r@ == op_text(*op),
{
    let r = match op {
        BinOp::Eq => " = ",
        BinOp::Ne => " <> ",
        BinOp::Lt => " < ",
        BinOp::Le => " <= ",
        BinOp::Gt => " > ",
        BinOp::Ge => " >= ",
        BinOp::Concat => " & ",
        BinOp::Add => " + ",
        BinOp::Sub => " - ",
        BinOp::Mul => " * ",
        BinOp::Div => " / ",
        BinOp::Pow => "^",
    };
    proof {
        reveal_strlit(" = ");
        assert(" = "@ =~= seq![' ', '=', ' ']);
        reveal_strlit(" <> ");
        assert(" <> "@ =~= seq![' ', '<', '>', ' ']);
        reveal_strlit(" < ");
        assert(" < "@ =~= seq![' ', '<', ' ']);
        reveal_strlit(" <= ");
        assert(" <= "@ =~= seq![' ', '<', '=', ' ']);
        reveal_strlit(" > ");
        assert(" > "@ =~= seq![' ', '>', ' ']);
        reveal_strlit(" >= ");
        assert(" >= "@ =~= seq![' ', '>', '=', ' ']);
        reveal_strlit(" & ");
        assert(" & "@ =~= seq![' ', '&', ' ']);
        reveal_strlit(" + ");
        assert(" + "@ =~= seq![' ', '+', ' ']);
        reveal_strlit(" - ");
        assert(" - "@ =~= seq![' ', '-', ' ']);
        reveal_strlit(" * ");
        assert(" * "@ =~= seq![' ', '*', ' ']);
        reveal_strlit(" / ");
        assert(" / "@ =~= seq![' ', '/', ' ']);
        reveal_strlit("^");
        assert("^"@ =~= seq!['^']);
    }
    r
}

pub(crate) fn soft_break() -> (r: Document)
    ensures
        r@ == soft_break_spec(),
{
    Document::if_break(Document::Hardline, Document::Null)
}

fn arg_sep() -> (r: Document)
    ensures
        r@ == arg_sep_spec(),
{
    proof {
        reveal_strlit(",");
        assert(","@ =~= seq![',']);
        reveal_strlit(", ");
        assert(", "@ =~= seq![',', ' ']);
    }
    Document::if_break(lit(","), lit(", "))
}

/// Lays out an expression of the formula whose characters are `s`.
pub fn expr_to_doc(s: &Vec<char>, e: &Expr) -> (r: Document)
    ensures
        r@ == expr_doc(s@, *e),
    decreases e,
{
    match e {
        Expr::Number(sp) => {
            let r = span_doc(s, sp);
            assert(r@ == expr_doc(s@, *e));
            r
        },
        Expr::Text(sp) => {
            let r = span_doc(s, sp);
            assert(r@ == expr_doc(s@, *e));
            r
        },
        Expr::Reference(sp) => {
            let r = span_doc(s, sp);
            assert(r@ == expr_doc(s@, *e));
            r
        },
        Expr::Range(a, b) => {
            let mut t = span_string(s, a);
            crate::text::push_all(&mut t, ":");
            let bt = span_string(s, b);
            crate::text::push_all(&mut t, bt.as_str());
            proof {
                reveal_strlit(":");
        assert(":"@ =~= seq![':']);
            }
            let r = Document::Text(t);
            assert(r@ == expr_doc(s@, *e));
            r
        },
        Expr::Call(name, args) => match args {
            Args::End => {
                let mut t = span_string(s, name);
                crate::text::push_all(&mut t, "()");
                proof {
                    reveal_strlit("()");
        assert("()"@ =~= seq!['(', ')']);
                }
                let r = Document::Text(t);
                assert(r@ == expr_doc(s@, *e));
                r
            },
            Args::Arg(_, _) => {
                let mut head = span_string(s, name);
                crate::text::push_all(&mut head, "(");
                proof {
                    reveal_strlit("(");
                    reveal_strlit(")");
                    assert("("@ =~= seq!['(']);
                    assert(")"@ =~= seq![')']);
                }
                let items = args_to_docs(s, args);
                let body = soft_break().add(
                    Document::smart_join(arg_sep(), items),
                );
                let r = Document::Text(head).add(body.indent()).add(soft_break()).add(lit(")")).group();
                assert(r@ == expr_doc(s@, *e));
                r
            },
        },
        Expr::Unary(op, x) => {
            let sign = match op {
                UnaryOp::Neg => lit("-"),
                UnaryOp::Plus => lit("+"),
            };
            proof {
                reveal_strlit("-");
        assert("-"@ =~= seq!['-']);
                reveal_strlit("+");
        assert("+"@ =~= seq!['+']);
            }
            let r = sign.add(expr_to_doc(s, x));
            assert(r@ == expr_doc(s@, *e));
            r
        },
        Expr::Percent(x) => {
            proof {
                reveal_strlit("%");
        assert("%"@ =~= seq!['%']);
            }
            let r = expr_to_doc(s, x).add(lit("%"));
            assert(r@ == expr_doc(s@, *e));
            r
        },
        Expr::Binary(op, l, r) => {
            let o = op_str(op);
            let d = expr_to_doc(s, l).add(lit(o)).add(expr_to_doc(s, r));
            assert(d@ == expr_doc(s@, *e));
            d
        },
        Expr::Paren(x) => {
            proof {
                reveal_strlit("(");
        assert("("@ =~= seq!['(']);
                reveal_strlit(")");
        assert(")"@ =~= seq![')']);
            }
            let r = lit("(").add(expr_to_doc(s, x)).add(lit(")"));
            assert(r@ == expr_doc(s@, *e));
            r
        },
    }
}

/// Lays out the arguments of a call, first to last.
pub fn args_to_docs(s: &Vec<char>, a: &Args) -> (r: Vec<Document>)
    ensures
        view_docs(r@) == args_doc(s@, *a),
    decreases a,
{
    match a {
        Args::End => {
            let v: Vec<Document> = Vec::new();
            proof {
                assert(view_docs(v@) =~= Seq::<DocumentSpec>::empty());
            }
            v
        },
        Args::Arg(x, rest) => {
            let first = match x {
                None => Document::Null,
                Some(b) => expr_to_doc(s, b),
            };
            let ghost fv = first@;
            let mut v: Vec<Document> = Vec::new();
            v.push(first);
            let mut tail = args_to_docs(s, rest);
            let ghost one = v@;
            let ghost tl = tail@;
            v.append(&mut tail);
            proof {
                crate::doc::lemma_view_docs_add(one, tl);
                lemma_view_docs(one);
                assert(view_docs(one) =~= seq![fv]);
            }
            v
        },
    }
}

/// Parse and pretty-print a Google Sheets formula: `None` where the text does
/// not start with a formula, else the rendered layout of its syntax tree.
pub fn prettify_formula(input: &str, config: &PrinterConfig) -> (r: Option<String>)
    requires
        spec_parse_formula(input@) matches Some(f) ==> printable(formula_doc(input@, f), config.max_width, config.indent),
    ensures
        match spec_parse_formula(input@) {
            None => r is None,
            Some(f) => r matches Some(out) && out@ == rendered(
                formula_doc(input@, f),
                config.max_width,
                config.indent,
                config.use_tabs,
            ),
        },
{
    let f = match GoogleSheetsParser::formula(input) {
        None => return None,
        Some(f) => f,
    };
    let s = chars_of(input);
    proof {
        reveal_strlit("=");
        assert("="@ =~= seq!['=']);
    }
    let doc = lit("=").add(expr_to_doc(&s, &f.body));
    Some(render(&doc, config))
}

} // verus!
