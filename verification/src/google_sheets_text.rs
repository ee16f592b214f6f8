//! What the layout of a formula keeps of its text: laid out on one line, the
//! document of a parsed formula spells the formula again, up to white space.

use vstd::prelude::*;

use crate::doc::{flat_join, flat_text, lemma_flat_add, lemma_flat_join_cons, spec_add, DocumentSpec};
use crate::google_sheets::{
    args_doc, at, expr_doc, formula_doc, is_ident_char, is_ident_start, is_ws, lemma_scan_digits, lemma_scan_ident,
    lemma_scan_string, lemma_skip_ws, op_at, op_text, p_arglist, p_args, p_atom, p_level, p_percent, p_postfix,
    p_tail, p_unary, scan_digits, scan_ident, scan_number, scan_string, skip_ws, span, span_text, formula_parse,
    starts_number, level_rank, advanced, arg_sep_spec, soft_break_spec, txt, is_digit, Args, BinOp, Expr, Formula,
    Span, UnaryOp,
};

verus! {

/// The characters of `t` that are not white space, in order.
pub open spec fn squeeze(t: Seq<char>) -> Seq<char>
    decreases t.len(),
{
    if t.len() == 0 {
        t
    } else if is_ws(t.last()) {
        squeeze(t.drop_last())
    } else {
        squeeze(t.drop_last()).push(t.last())
    }
}

/// The characters of the source between `a` and `b` that are not white space.
pub open spec fn src(s: Seq<char>, a: int, b: int) -> Seq<char> {
    squeeze(s.subrange(a, b))
}

/// The characters of an expression's layout, laid out flat, that are not white space.
pub open spec fn ex(s: Seq<char>, e: Expr) -> Seq<char> {
    squeeze(flat_text(expr_doc(s, e)))
}

/// The characters of an argument list's layout, laid out flat, that are not white space.
pub open spec fn ax(s: Seq<char>, a: Args) -> Seq<char> {
    squeeze(flat_join(seq![',', ' '], args_doc(s, a)))
}

pub(crate) proof fn lemma_squeeze_add(a: Seq<char>, b: Seq<char>)
    ensures
        squeeze(a + b) == squeeze(a) + squeeze(b),
    decreases b.len(),
{
    if b.len() == 0 {
        assert(a + b =~= a);
        assert(squeeze(a) + squeeze(b) =~= squeeze(a));
    } else {
        lemma_squeeze_add(a, b.drop_last());
        assert((a + b).drop_last() =~= a + b.drop_last());
        assert((a + b).last() == b.last());
        if is_ws(b.last()) {
        } else {
            assert(squeeze(a) + squeeze(b.drop_last()).push(b.last()) =~= (squeeze(a) + squeeze(
                b.drop_last(),
            )).push(b.last()));
        }
    }
}

proof fn lemma_squeeze_ws(t: Seq<char>)
    requires
        forall|i: int| 0 <= i < t.len() ==> is_ws(#[trigger] t[i]),
    ensures
        squeeze(t) == Seq::<char>::empty(),
    decreases t.len(),
{
    if t.len() > 0 {
        assert(is_ws(t[t.len() - 1]));
        lemma_squeeze_ws(t.drop_last());
    }
}

pub(crate) proof fn lemma_squeeze_nows(t: Seq<char>)
    requires
        forall|i: int| 0 <= i < t.len() ==> !is_ws(#[trigger] t[i]),
    ensures
        squeeze(t) == t,
    decreases t.len(),
{
    if t.len() > 0 {
        assert(!is_ws(t[t.len() - 1]));
        lemma_squeeze_nows(t.drop_last());
        assert(t.drop_last().push(t.last()) =~= t);
    }
}

pub(crate) proof fn lemma_src_split(s: Seq<char>, a: int, b: int, c: int)
    requires
        0 <= a <= b <= c <= s.len(),
    ensures
        src(s, a, c) == src(s, a, b) + src(s, b, c),
{
    assert(s.subrange(a, c) =~= s.subrange(a, b) + s.subrange(b, c));
    lemma_squeeze_add(s.subrange(a, b), s.subrange(b, c));
}

pub(crate) proof fn lemma_src_empty(s: Seq<char>, a: int)
    requires
        0 <= a <= s.len(),
    ensures
        src(s, a, a) == Seq::<char>::empty(),
{
    assert(s.subrange(a, a) =~= Seq::<char>::empty());
}

/// White space skipped between `a` and where `skip_ws` stops leaves nothing.
pub(crate) proof fn lemma_src_skip(s: Seq<char>, a: int)
    requires
        0 <= a <= s.len(),
    ensures
        a <= skip_ws(s, a) <= s.len(),
        src(s, a, skip_ws(s, a)) == Seq::<char>::empty(),
{
    lemma_skip_ws(s, a);
    let q = skip_ws(s, a);
    let t = s.subrange(a, q);
    assert forall|i: int| 0 <= i < t.len() implies is_ws(#[trigger] t[i]) by {
        assert(t[i] == s[a + i]);
    }
    lemma_squeeze_ws(t);
}

pub(crate) proof fn lemma_src_char(s: Seq<char>, i: int)
    requires
        0 <= i < s.len(),
        !is_ws(s[i]),
    ensures
        src(s, i, i + 1) == seq![s[i]],
{
    assert(s.subrange(i, i + 1) =~= seq![s[i]]);
    lemma_squeeze_nows(seq![s[i]]);
}

pub(crate) proof fn lemma_squeeze_lit(t: Seq<char>)
    requires
        forall|i: int| 0 <= i < t.len() ==> !is_ws(#[trigger] t[i]),
    ensures
        squeeze(t) == t,
{
    lemma_squeeze_nows(t);
}

/// The text of a span inside the source is the source between its ends.
pub(crate) proof fn lemma_span_text(s: Seq<char>, a: int, b: int)
    requires
        0 <= a <= b <= s.len(),
        s.len() <= usize::MAX,
    ensures
        span_text(s, span(a, b)) == s.subrange(a, b),
{
}


proof fn lemma_ex_unary(s: Seq<char>, op: UnaryOp, x: Expr)
    ensures
        ex(s, Expr::Unary(op, Box::new(x))) == (match op {
            UnaryOp::Neg => seq!['-'],
            UnaryOp::Plus => seq!['+'],
        }) + ex(s, x),
{
    let sign = match op {
        UnaryOp::Neg => seq!['-'],
        UnaryOp::Plus => seq!['+'],
    };
    lemma_flat_add(txt(sign), expr_doc(s, x));
    lemma_squeeze_add(sign, flat_text(expr_doc(s, x)));
    lemma_squeeze_lit(sign);
}

proof fn lemma_ex_percent(s: Seq<char>, x: Expr)
    ensures
        ex(s, Expr::Percent(Box::new(x))) == ex(s, x) + seq!['%'],
{
    lemma_flat_add(expr_doc(s, x), txt(seq!['%']));
    lemma_squeeze_add(flat_text(expr_doc(s, x)), seq!['%']);
    lemma_squeeze_lit(seq!['%']);
}

proof fn lemma_ex_paren(s: Seq<char>, x: Expr)
    ensures
        ex(s, Expr::Paren(Box::new(x))) == seq!['('] + ex(s, x) + seq![')'],
{
    let inner = spec_add(txt(seq!['(']), expr_doc(s, x));
    lemma_flat_add(txt(seq!['(']), expr_doc(s, x));
    lemma_flat_add(inner, txt(seq![')']));
    lemma_squeeze_add(seq!['('], flat_text(expr_doc(s, x)));
    lemma_squeeze_add(seq!['('] + flat_text(expr_doc(s, x)), seq![')']);
    lemma_squeeze_lit(seq!['(']);
    lemma_squeeze_lit(seq![')']);
}

proof fn lemma_ex_binary(s: Seq<char>, op: BinOp, l: Expr, r: Expr)
    ensures
        ex(s, Expr::Binary(op, Box::new(l), Box::new(r))) == ex(s, l) + squeeze(op_text(op)) + ex(s, r),
{
    let left = spec_add(expr_doc(s, l), txt(op_text(op)));
    lemma_flat_add(expr_doc(s, l), txt(op_text(op)));
    lemma_flat_add(left, expr_doc(s, r));
    lemma_squeeze_add(flat_text(expr_doc(s, l)), op_text(op));
    lemma_squeeze_add(flat_text(expr_doc(s, l)) + op_text(op), flat_text(expr_doc(s, r)));
}

/// The operator that `op_at` reads is the source text between its ends, and
/// that is the operator's layout without its spaces.
proof fn lemma_op(s: Seq<char>, q: int, lvl: int)
    requires
        0 <= q,
        op_at(s, q, lvl) matches Some((op, q2)) && q2 <= s.len(),
    ensures
        op_at(s, q, lvl) matches Some((op, q2)) && q < q2 && src(s, q, q2) == squeeze(op_text(op)),
{
    reveal_with_fuel(squeeze, 5);
    let (op, q2) = op_at(s, q, lvl)->Some_0;
    let t = s.subrange(q, q2);
    assert(q < q2);
    assert(q2 == q + 1 || q2 == q + 2);
    if q2 == q + 1 {
        assert(t =~= seq![s[q]]);
    } else {
        assert(t =~= seq![s[q], s[q + 1]]);
    }
    assert(forall|i: int| 0 <= i < t.len() ==> !is_ws(#[trigger] t[i]));
    lemma_squeeze_nows(t);
    let o = op_text(op);
    assert(o.len() <= 4);
    assert(squeeze(o) =~= t);
}


proof fn lemma_ex_call(s: Seq<char>, name: Span, a: Args)
    ensures
        ex(s, Expr::Call(name, a)) == squeeze(span_text(s, name)) + seq!['('] + ax(s, a) + seq![')'],
{
    let n = span_text(s, name);
    let sep = seq![',', ' '];
    match a {
        Args::End => {
            lemma_squeeze_add(n, seq!['(', ')']);
            lemma_squeeze_lit(seq!['(', ')']);
            assert(args_doc(s, a) =~= Seq::<DocumentSpec>::empty());
            assert(ax(s, a) == Seq::<char>::empty());
            assert(squeeze(n) + seq!['('] + ax(s, a) + seq![')'] =~= squeeze(n) + seq!['(', ')']);
        },
        Args::Arg(_, _) => {
            let body = DocumentSpec::SmartJoin(Box::new(arg_sep_spec()), args_doc(s, a));
            let inner = spec_add(soft_break_spec(), body);
            let d1 = spec_add(txt(n + seq!['(']), DocumentSpec::Indent(Box::new(inner)));
            let d2 = spec_add(d1, soft_break_spec());
            lemma_flat_add(soft_break_spec(), body);
            lemma_flat_add(txt(n + seq!['(']), DocumentSpec::Indent(Box::new(inner)));
            lemma_flat_add(d1, soft_break_spec());
            lemma_flat_add(d2, txt(seq![')']));
            assert(flat_text(DocumentSpec::Null) == Seq::<char>::empty());
            assert(flat_text(soft_break_spec()) == Seq::<char>::empty());
            assert(flat_text(txt(sep)) == sep);
            assert(flat_text(arg_sep_spec()) == sep);
            let j = flat_join(sep, args_doc(s, a));
            assert(flat_text(inner) =~= j);
            assert(flat_text(d2) =~= n + seq!['('] + j);
            lemma_squeeze_add(n + seq!['('] + j, seq![')']);
            lemma_squeeze_add(n + seq!['('], j);
            lemma_squeeze_add(n, seq!['(']);
            lemma_squeeze_lit(seq!['(']);
            lemma_squeeze_lit(seq![')']);
        },
    }
}

/// A number literal ends inside the text, not before it starts.
proof fn lemma_scan_number(s: Seq<char>, q: int)
    requires
        0 <= q <= s.len(),
    ensures
        q <= scan_number(s, q) <= s.len(),
{
    lemma_scan_digits(s, q);
    let e1 = scan_digits(s, q);
    lemma_scan_digits(s, e1 + 1);
    let e2 = if at(s, e1) == '.' && is_digit(at(s, e1 + 1)) {
        scan_digits(s, e1 + 1)
    } else {
        e1
    };
    assert(q <= e2 <= s.len());
    lemma_scan_digits(s, e2 + 1);
    lemma_scan_digits(s, e2 + 2);
}


proof fn lemma_level(s: Seq<char>, pos: int, lvl: int)
    requires
        s.len() <= usize::MAX,
    ensures
        p_level(s, pos, lvl) matches Some((e, p)) ==> pos <= p <= s.len() && ex(s, e) == src(s, pos, p),
    decreases s.len() - pos, level_rank(lvl),
{
    if pos < 0 || pos > s.len() {
    } else if lvl >= 5 || lvl < 0 {
        lemma_unary(s, pos);
    } else {
        lemma_level(s, pos, lvl + 1);
        match p_level(s, pos, lvl + 1) {
            None => {},
            Some((lhs, p)) => {
                if advanced(s, pos, p) {
                    lemma_tail(s, p, lvl, lhs);
                    match p_tail(s, p, lvl, lhs) {
                        None => {},
                        Some((e, p2)) => {
                            lemma_src_split(s, pos, p, p2);
                        },
                    }
                }
            },
        }
    }
}

#[verifier::spinoff_prover]
#[verifier::rlimit(50)]
proof fn lemma_tail(s: Seq<char>, pos: int, lvl: int, lhs: Expr)
    requires
        s.len() <= usize::MAX,
        0 <= pos <= s.len(),
    ensures
        p_tail(s, pos, lvl, lhs) matches Some((e, p)) ==> pos <= p <= s.len() && ex(s, e) == ex(s, lhs)
            + src(s, pos, p),
    decreases s.len() - pos, level_rank(lvl) - 1,
{
    lemma_src_empty(s, pos);
    assert(ex(s, lhs) + src(s, pos, pos) =~= ex(s, lhs));
    if lvl < 0 || lvl > 4 {
    } else {
        let q = skip_ws(s, pos);
        lemma_src_skip(s, pos);
        match op_at(s, q, lvl) {
            None => {},
            Some((op, q2)) => {
                if pos < q2 <= s.len() {
                    lemma_op(s, q, lvl);
                    lemma_level(s, q2, lvl + 1);
                    match p_level(s, q2, lvl + 1) {
                        None => {},
                        Some((rhs, p2)) => {
                            if advanced(s, q2, p2) {
                                let bin = Expr::Binary(op, Box::new(lhs), Box::new(rhs));
                                lemma_tail(s, p2, lvl, bin);
                                lemma_ex_binary(s, op, lhs, rhs);
                                match p_tail(s, p2, lvl, bin) {
                                    None => {},
                                    Some((e, p)) => {
                                        lemma_src_split(s, pos, q, p);
                                        lemma_src_split(s, q, q2, p);
                                        lemma_src_split(s, q2, p2, p);
                                        assert(ex(s, e) =~= ex(s, lhs) + src(s, pos, p));
                                    },
                                }
                            }
                        },
                    }
                }
            },
        }
    }
}

proof fn lemma_unary(s: Seq<char>, pos: int)
    requires
        s.len() <= usize::MAX,
    ensures
        p_unary(s, pos) matches Some((e, p)) ==> pos <= p <= s.len() && ex(s, e) == src(s, pos, p),
    decreases s.len() - pos, 4int,
{
    if 0 <= pos <= s.len() {
        let q = skip_ws(s, pos);
        lemma_src_skip(s, pos);
        if at(s, q) == '-' || at(s, q) == '+' {
            let op = if at(s, q) == '-' {
                UnaryOp::Neg
            } else {
                UnaryOp::Plus
            };
            lemma_unary(s, q + 1);
            match p_unary(s, q + 1) {
                None => {},
                Some((e, p)) => {
                    lemma_ex_unary(s, op, e);
                    lemma_src_char(s, q);
                    lemma_src_split(s, pos, q, p);
                    lemma_src_split(s, q, q + 1, p);
                    assert(ex(s, Expr::Unary(op, Box::new(e))) =~= src(s, pos, p));
                },
            }
        } else {
            lemma_postfix(s, pos);
        }
    }
}

proof fn lemma_postfix(s: Seq<char>, pos: int)
    requires
        s.len() <= usize::MAX,
    ensures
        p_postfix(s, pos) matches Some((e, p)) ==> pos <= p <= s.len() && ex(s, e) == src(s, pos, p),
    decreases s.len() - pos, 3int,
{
    if 0 <= pos <= s.len() {
        lemma_atom(s, pos);
        match p_atom(s, pos) {
            None => {},
            Some((e, p)) => {
                if advanced(s, pos, p) {
                    lemma_percent(s, p, e);
                    match p_percent(s, p, e) {
                        None => {},
                        Some((e2, p2)) => {
                            lemma_src_split(s, pos, p, p2);
                        },
                    }
                }
            },
        }
    }
}

proof fn lemma_percent(s: Seq<char>, pos: int, e0: Expr)
    requires
        s.len() <= usize::MAX,
        0 <= pos <= s.len(),
    ensures
        p_percent(s, pos, e0) matches Some((e, p)) ==> pos <= p <= s.len() && ex(s, e) == ex(s, e0)
            + src(s, pos, p),
    decreases s.len() - pos, 2int,
{
    lemma_src_empty(s, pos);
    assert(ex(s, e0) + src(s, pos, pos) =~= ex(s, e0));
    let q = skip_ws(s, pos);
    lemma_src_skip(s, pos);
    if pos <= q < s.len() && s[q] == '%' {
        let pe = Expr::Percent(Box::new(e0));
        lemma_percent(s, q + 1, pe);
        lemma_ex_percent(s, e0);
        match p_percent(s, q + 1, pe) {
            None => {},
            Some((e, p)) => {
                lemma_src_char(s, q);
                lemma_src_split(s, pos, q, p);
                lemma_src_split(s, q, q + 1, p);
                assert(ex(s, e) =~= ex(s, e0) + src(s, pos, p));
            },
        }
    }
}

#[verifier::spinoff_prover]
#[verifier::rlimit(50)]
proof fn lemma_atom(s: Seq<char>, pos: int)
    requires
        s.len() <= usize::MAX,
    ensures
        p_atom(s, pos) matches Some((e, p)) ==> pos <= p <= s.len() && ex(s, e) == src(s, pos, p),
    decreases s.len() - pos, 1int,
{
    if 0 <= pos <= s.len() {
        let q = skip_ws(s, pos);
        lemma_src_skip(s, pos);
        if q >= s.len() {
        } else if s[q] == '(' {
            lemma_level(s, q + 1, 0);
            match p_level(s, q + 1, 0) {
                None => {},
                Some((e, p)) => {
                    if advanced(s, q + 1, p) {
                        let r = skip_ws(s, p);
                        lemma_src_skip(s, p);
                        if at(s, r) == ')' {
                            lemma_ex_paren(s, e);
                            lemma_src_char(s, q);
                            lemma_src_char(s, r);
                            lemma_src_split(s, pos, q, r + 1);
                            lemma_src_split(s, q, q + 1, r + 1);
                            lemma_src_split(s, q + 1, p, r + 1);
                            lemma_src_split(s, p, r, r + 1);
                            assert(ex(s, Expr::Paren(Box::new(e))) =~= src(s, pos, r + 1));
                        }
                    }
                },
            }
        } else if s[q] == '"' {
            lemma_scan_string(s, q + 1);
            match scan_string(s, q + 1) {
                None => {},
                Some(e) => {
                    lemma_span_text(s, q, e);
                    lemma_src_split(s, pos, q, e);
                },
            }
        } else if starts_number(s, q) {
            lemma_scan_number(s, q);
            let e = scan_number(s, q);
            lemma_span_text(s, q, e);
            lemma_src_split(s, pos, q, e);
        } else if is_ident_start(s[q]) {
            let e = scan_ident(s, q);
            lemma_scan_ident(s, q);
            lemma_span_text(s, q, e);
            if at(s, e) == '(' {
                lemma_args(s, e + 1);
                match p_args(s, e + 1) {
                    None => {},
                    Some((args, p)) => {
                        lemma_ex_call(s, span(q, e), args);
                        lemma_src_char(s, e);
                        lemma_src_split(s, pos, q, p);
                        lemma_src_split(s, q, e, p);
                        lemma_src_split(s, e, e + 1, p);
                        assert(ex(s, Expr::Call(span(q, e), args)) =~= src(s, pos, p));
                    },
                }
            } else if at(s, e) == ':' && is_ident_char(at(s, e + 1)) {
                let e2 = scan_ident(s, e + 1);
                lemma_scan_ident(s, e + 1);
                lemma_span_text(s, e + 1, e2);
                let t = s.subrange(q, e) + seq![':'] + s.subrange(e + 1, e2);
                assert(t =~= s.subrange(q, e2));
                assert(flat_text(expr_doc(s, Expr::Range(span(q, e), span(e + 1, e2)))) == t);
                lemma_src_split(s, pos, q, e2);
            } else {
                lemma_src_split(s, pos, q, e);
            }
        }
    }
}

proof fn lemma_args(s: Seq<char>, pos: int)
    requires
        s.len() <= usize::MAX,
    ensures
        p_args(s, pos) matches Some((a, p)) ==> pos <= p <= s.len() && ax(s, a) + seq![')'] == src(s, pos, p),
    decreases s.len() - pos, 22int,
{
    if 0 <= pos <= s.len() {
        let q = skip_ws(s, pos);
        lemma_src_skip(s, pos);
        if at(s, q) == ')' {
            assert(args_doc(s, Args::End) =~= Seq::<DocumentSpec>::empty());
            assert(ax(s, Args::End) == Seq::<char>::empty());
            lemma_src_char(s, q);
            lemma_src_split(s, pos, q, q + 1);
            assert(ax(s, Args::End) + seq![')'] =~= src(s, pos, q + 1));
        } else {
            lemma_arglist(s, pos);
        }
    }
}

#[verifier::spinoff_prover]
#[verifier::rlimit(50)]
proof fn lemma_arglist(s: Seq<char>, pos: int)
    requires
        s.len() <= usize::MAX,
    ensures
        p_arglist(s, pos) matches Some((a, r)) ==> pos <= r <= s.len() && a is Arg && ax(s, a) + seq![')']
            == src(s, pos, r),
    decreases s.len() - pos, 21int,
{
    if 0 <= pos <= s.len() {
        lemma_level(s, pos, 0);
        let (arg, p) = match p_level(s, pos, 0) {
            None => (None, pos),
            Some((e, p)) => (Some(Box::new(e)), p),
        };
        if advanced(s, pos, p) {
            let d = match arg {
                None => DocumentSpec::Null,
                Some(b) => expr_doc(s, *b),
            };
            lemma_src_empty(s, pos);
            assert(squeeze(flat_text(d)) == src(s, pos, p));
            let q = skip_ws(s, p);
            lemma_src_skip(s, p);
            let sep = seq![',', ' '];
            if pos <= q < s.len() && s[q] == ',' {
                lemma_arglist(s, q + 1);
                match p_arglist(s, q + 1) {
                    None => {},
                    Some((rest, r)) => {
                        let a = Args::Arg(arg, Box::new(rest));
                        let rd = args_doc(s, rest);
                        assert(args_doc(s, a) == seq![d] + rd);
                        assert(rd.len() > 0);
                        lemma_flat_join_cons(sep, d, rd);
                        lemma_squeeze_add(flat_text(d) + sep, flat_join(sep, rd));
                        lemma_squeeze_add(flat_text(d), sep);
                        reveal_with_fuel(squeeze, 3);
                        assert(squeeze(sep) =~= seq![',']);
                        lemma_src_char(s, q);
                        lemma_src_split(s, pos, p, r);
                        lemma_src_split(s, p, q, r);
                        lemma_src_split(s, q, q + 1, r);
                        assert(ax(s, a) + seq![')'] =~= src(s, pos, r));
                    },
                }
            } else if pos <= q < s.len() && s[q] == ')' {
                let a = Args::Arg(arg, Box::new(Args::End));
                assert(args_doc(s, Args::End) =~= Seq::<DocumentSpec>::empty());
                assert(args_doc(s, a) =~= seq![d] + Seq::<DocumentSpec>::empty());
                lemma_flat_join_cons(sep, d, Seq::<DocumentSpec>::empty());
                lemma_src_char(s, q);
                lemma_src_split(s, pos, p, q + 1);
                lemma_src_split(s, p, q, q + 1);
                assert(ax(s, a) + seq![')'] =~= src(s, pos, q + 1));
            }
        }
    }
}

/// Formatting changes only white space: laid out on one line, the document
/// of a parsed formula holds exactly the characters of the text that the
/// parse read, other than spaces, tabs and line breaks, in their order.
pub proof fn lemma_formula_layout_keeps_text(s: Seq<char>)
    requires
        s.len() <= usize::MAX,
    ensures
        formula_parse(s) matches Some((f, p)) ==> 0 <= p <= s.len() && squeeze(flat_text(formula_doc(s, f)))
            == squeeze(s.take(p)),
{
    let q = skip_ws(s, 0);
    lemma_src_skip(s, 0);
    if at(s, q) == '=' {
        lemma_level(s, q + 1, 0);
        match p_level(s, q + 1, 0) {
            None => {},
            Some((e, p)) => {
                lemma_flat_add(txt(seq!['=']), expr_doc(s, e));
                lemma_squeeze_add(seq!['='], flat_text(expr_doc(s, e)));
                lemma_squeeze_lit(seq!['=']);
                lemma_src_char(s, q);
                lemma_src_split(s, 0, q, p);
                lemma_src_split(s, q, q + 1, p);
                assert(s.subrange(0, p) =~= s.take(p));
                assert(squeeze(flat_text(formula_doc(s, Formula { body: e }))) =~= squeeze(s.take(p)));
            },
        }
    }
}


/// The written symbol of a binary operator.
pub open spec fn op_symbol(op: BinOp) -> Seq<char> {
    match op {
        BinOp::Eq => seq!['='],
        BinOp::Ne => seq!['<', '>'],
        BinOp::Lt => seq!['<'],
        BinOp::Le => seq!['<', '='],
        BinOp::Gt => seq!['>'],
        BinOp::Ge => seq!['>', '='],
        BinOp::Concat => seq!['&'],
        BinOp::Add => seq!['+'],
        BinOp::Sub => seq!['-'],
        BinOp::Mul => seq!['*'],
        BinOp::Div => seq!['/'],
        BinOp::Pow => seq!['^'],
    }
}

/// The binding level of a binary operator: comparisons bind loosest, then
/// `&`, then `+ -`, then `* /`, then `^`.
pub open spec fn op_level(op: BinOp) -> int {
    match op {
        BinOp::Eq | BinOp::Ne | BinOp::Lt | BinOp::Le | BinOp::Gt | BinOp::Ge => 0,
        BinOp::Concat => 1,
        BinOp::Add | BinOp::Sub => 2,
        BinOp::Mul | BinOp::Div => 3,
        BinOp::Pow => 4,
    }
}

/// Whether the symbol of `op` is written at position `i`.
pub open spec fn symbol_at(s: Seq<char>, i: int, op: BinOp) -> bool {
    0 <= i && i + op_symbol(op).len() <= s.len() && s.subrange(i, i + op_symbol(op).len()) == op_symbol(op)
}

/// Reading an operator takes the longest symbol that stands there: the
/// operator read at a level is one of that level whose symbol is written at
/// `i`, the position after it is just past its symbol, no operator of the
/// level has a longer symbol written there (so `>=`, `<=` and `<>` are read
/// whole, never as `>` or `<`), and where any operator of the level is
/// written, one is read.
pub proof fn lemma_operator_longest_match(s: Seq<char>, i: int, lvl: int)
    requires
        0 <= i,
    ensures
        op_at(s, i, lvl) matches Some((op, j)) ==> {
            &&& op_level(op) == lvl
            &&& symbol_at(s, i, op)
            &&& j == i + op_symbol(op).len()
            &&& forall|o: BinOp| #[trigger] op_level(o) == lvl && symbol_at(s, i, o) ==> op_symbol(o).len() <= op_symbol(op).len()
        },
        (exists|o: BinOp| #[trigger] op_level(o) == lvl && symbol_at(s, i, o)) ==> op_at(s, i, lvl) is Some,
{
    let c = at(s, i);
    let d = at(s, i + 1);
    assert forall|o: BinOp| symbol_at(s, i, o) implies ({
        &&& at(s, i) == op_symbol(o)[0]
        &&& op_symbol(o).len() == 2 ==> at(s, i + 1) == op_symbol(o)[1]
    }) by {
        assert(s.subrange(i, i + op_symbol(o).len())[0] == s[i]);
        if op_symbol(o).len() == 2 {
            assert(s.subrange(i, i + op_symbol(o).len())[1] == s[i + 1]);
        }
    }
    if let Some((op, j)) = op_at(s, i, lvl) {
        let sym = op_symbol(op);
        assert(i < s.len());
        if sym.len() == 2 {
            assert(i + 1 < s.len());
            assert(s.subrange(i, i + 2) =~= seq![c, d]);
        } else {
            assert(s.subrange(i, i + 1) =~= seq![c]);
        }
    }
}

} // verus!
