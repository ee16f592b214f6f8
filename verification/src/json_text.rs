//! What the layout of a JSON value keeps of its text: laid out on one line,
//! the document of a parsed JSON text spells the text again, up to white space.

use vstd::prelude::*;

use crate::doc::{flat_join, flat_text, lemma_flat_add, lemma_flat_join_cons, spec_add, DocumentSpec};
use crate::google_sheets::{at, is_ws, skip_ws, soft_break_spec, span, span_text, txt, Span};
use crate::google_sheets_text::{
    lemma_span_text, lemma_squeeze_add, lemma_squeeze_lit, lemma_src_char, lemma_src_skip,
    lemma_src_split, squeeze, src,
};
use crate::json::{
    bracketed, item_sep_spec, items_doc, j_element_list, j_elements, j_member_list, j_members, j_value, json_doc,
    lemma_scan_jnumber, lit_at, members_doc, scan_jnumber, scan_jstring, Items, Json, Members,
};

verus! {

/// The characters of a value's layout, laid out flat, that are not white space.
pub open spec fn jx(s: Seq<char>, v: Json) -> Seq<char> {
    squeeze(flat_text(json_doc(s, v)))
}

/// The same for the elements of an array, with the separators between them.
pub open spec fn ix(s: Seq<char>, items: Items) -> Seq<char> {
    squeeze(flat_join(seq![',', ' '], items_doc(s, items)))
}

/// The same for the members of an object, with the separators between them.
pub open spec fn mx(s: Seq<char>, ms: Members) -> Seq<char> {
    squeeze(flat_join(seq![',', ' '], members_doc(s, ms)))
}

/// Every array and object of the value writes one comma after each element
/// or member but the last, and none after the last: the text that the layout
/// spells again up to white space.
pub open spec fn separated(v: Json) -> bool
    decreases v,
{
    match v {
        Json::Array(_, items) => items_separated(items),
        Json::Object(_, ms) => members_separated(ms),
        _ => true,
    }
}

/// `separated` for a list of elements: a comma after each but the last.
pub open spec fn items_separated(items: Items) -> bool
    decreases items,
{
    match items {
        Items::End => true,
        Items::Item(v, comma, rest) => separated(*v) && comma == (*rest is Item) && items_separated(*rest),
    }
}

/// `separated` for a list of members: a comma after each but the last.
pub open spec fn members_separated(ms: Members) -> bool
    decreases ms,
{
    match ms {
        Members::End => true,
        Members::Member(_, v, comma, rest) => separated(*v) && comma == (*rest is Member) && members_separated(
            *rest,
        ),
    }
}

proof fn lemma_bracketed(open: char, docs: Seq<DocumentSpec>, close: char)
    requires
        !is_ws(open),
        !is_ws(close),
    ensures
        squeeze(flat_text(bracketed(open, docs, close))) == seq![open] + squeeze(flat_join(seq![',', ' '], docs))
            + seq![close],
{
    let sep = seq![',', ' '];
    let body = DocumentSpec::Join(Box::new(item_sep_spec()), docs);
    let inner = spec_add(soft_break_spec(), body);
    let d1 = spec_add(txt(seq![open]), DocumentSpec::Indent(Box::new(inner)));
    let d2 = spec_add(d1, soft_break_spec());
    lemma_flat_add(soft_break_spec(), body);
    lemma_flat_add(txt(seq![open]), DocumentSpec::Indent(Box::new(inner)));
    lemma_flat_add(d1, soft_break_spec());
    lemma_flat_add(d2, txt(seq![close]));
    assert(flat_text(DocumentSpec::Null) == Seq::<char>::empty());
    assert(flat_text(soft_break_spec()) == Seq::<char>::empty());
    assert(flat_text(txt(sep)) == sep);
    assert(flat_text(item_sep_spec()) == sep);
    let j = flat_join(sep, docs);
    assert(flat_text(inner) =~= j);
    assert(flat_text(d2) =~= seq![open] + j);
    lemma_squeeze_add(seq![open] + j, seq![close]);
    lemma_squeeze_add(seq![open], j);
    lemma_squeeze_lit(seq![open]);
    lemma_squeeze_lit(seq![close]);
}

proof fn lemma_jx_array(s: Seq<char>, sp: Span, items: Items)
    ensures
        jx(s, Json::Array(sp, items)) == seq!['['] + ix(s, items) + seq![']'],
{
    match items {
        Items::End => {
            assert(items_doc(s, items) =~= Seq::<DocumentSpec>::empty());
            assert(ix(s, items) == Seq::<char>::empty());
            lemma_squeeze_lit(seq!['[', ']']);
            assert(seq!['['] + ix(s, items) + seq![']'] =~= seq!['[', ']']);
        },
        Items::Item(_, _, _) => {
            lemma_bracketed('[', items_doc(s, items), ']');
        },
    }
}

proof fn lemma_jx_object(s: Seq<char>, sp: Span, ms: Members)
    ensures
        jx(s, Json::Object(sp, ms)) == seq!['{'] + mx(s, ms) + seq!['}'],
{
    match ms {
        Members::End => {
            assert(members_doc(s, ms) =~= Seq::<DocumentSpec>::empty());
            assert(mx(s, ms) == Seq::<char>::empty());
            lemma_squeeze_lit(seq!['{', '}']);
            assert(seq!['{'] + mx(s, ms) + seq!['}'] =~= seq!['{', '}']);
        },
        Members::Member(_, _, _, _) => {
            lemma_bracketed('{', members_doc(s, ms), '}');
        },
    }
}

/// A literal word at `q`, and the value that it spells.
proof fn lemma_word(s: Seq<char>, pos: int, q: int, w: Seq<char>, v: Json)
    requires
        s.len() <= usize::MAX,
        0 <= pos <= q,
        lit_at(s, q, w),
        src(s, pos, q) == Seq::<char>::empty(),
        json_doc(s, v) == txt(w),
        forall|i: int| 0 <= i < w.len() ==> !is_ws(#[trigger] w[i]),
    ensures
        jx(s, v) == src(s, pos, q + w.len()),
{
    lemma_squeeze_lit(w);
    lemma_src_split(s, pos, q, q + w.len());
}

proof fn lemma_jvalue(s: Seq<char>, pos: int)
    requires
        s.len() <= usize::MAX,
    ensures
        j_value(s, pos) matches Some((v, p)) ==> pos <= p <= s.len() && (separated(v) ==> jx(s, v) == src(
            s,
            pos,
            p,
        )),
    decreases s.len() - pos, 1int,
{
    if 0 <= pos <= s.len() {
        let q = skip_ws(s, pos);
        lemma_src_skip(s, pos);
        if q >= s.len() {
        } else if s[q] == '{' {
            lemma_jmembers(s, q + 1);
            match j_members(s, q + 1) {
                None => {},
                Some((ms, p)) => {
                    if members_separated(ms) {
                        lemma_jx_object(s, span(q, p), ms);
                        lemma_src_char(s, q);
                        lemma_src_split(s, pos, q, p);
                        lemma_src_split(s, q, q + 1, p);
                        assert(jx(s, Json::Object(span(q, p), ms)) =~= src(s, pos, p));
                    }
                },
            }
        } else if s[q] == '[' {
            lemma_jelements(s, q + 1);
            match j_elements(s, q + 1) {
                None => {},
                Some((items, p)) => {
                    if items_separated(items) {
                        lemma_jx_array(s, span(q, p), items);
                        lemma_src_char(s, q);
                        lemma_src_split(s, pos, q, p);
                        lemma_src_split(s, q, q + 1, p);
                        assert(jx(s, Json::Array(span(q, p), items)) =~= src(s, pos, p));
                    }
                },
            }
        } else if s[q] == '"' {
            crate::json::lemma_scan_jstring(s, q + 1);
            match scan_jstring(s, q + 1) {
                None => {},
                Some(e) => {
                    lemma_span_text(s, q, e);
                    lemma_src_split(s, pos, q, e);
                },
            }
        } else if s[q] == '-' || crate::google_sheets::is_digit(s[q]) {
            lemma_scan_jnumber(s, q);
            match scan_jnumber(s, q) {
                None => {},
                Some(e) => {
                    lemma_span_text(s, q, e);
                    lemma_src_split(s, pos, q, e);
                },
            }
        } else if lit_at(s, q, seq!['t', 'r', 'u', 'e']) {
            lemma_word(s, pos, q, seq!['t', 'r', 'u', 'e'], Json::True);
        } else if lit_at(s, q, seq!['f', 'a', 'l', 's', 'e']) {
            lemma_word(s, pos, q, seq!['f', 'a', 'l', 's', 'e'], Json::False);
        } else if lit_at(s, q, seq!['n', 'u', 'l', 'l']) {
            lemma_word(s, pos, q, seq!['n', 'u', 'l', 'l'], Json::Null);
        }
    }
}

proof fn lemma_jelements(s: Seq<char>, pos: int)
    requires
        s.len() <= usize::MAX,
    ensures
        j_elements(s, pos) matches Some((items, p)) ==> pos <= p <= s.len() && (items_separated(items) ==> ix(
            s,
            items,
        ) + seq![']'] == src(s, pos, p)),
    decreases s.len() - pos, 3int,
{
    if 0 <= pos <= s.len() {
        let q = skip_ws(s, pos);
        lemma_src_skip(s, pos);
        if at(s, q) == ']' {
            assert(items_doc(s, Items::End) =~= Seq::<DocumentSpec>::empty());
            assert(ix(s, Items::End) == Seq::<char>::empty());
            lemma_src_char(s, q);
            lemma_src_split(s, pos, q, q + 1);
            assert(ix(s, Items::End) + seq![']'] =~= src(s, pos, q + 1));
        } else {
            lemma_jelement_list(s, pos);
        }
    }
}

/// The separator between two items, without white space, is a comma.
proof fn lemma_item_cons(d: DocumentSpec, rd: Seq<DocumentSpec>)
    requires
        rd.len() > 0,
    ensures
        squeeze(flat_join(seq![',', ' '], seq![d] + rd)) == squeeze(flat_text(d)) + seq![','] + squeeze(
            flat_join(seq![',', ' '], rd),
        ),
{
    let sep = seq![',', ' '];
    lemma_flat_join_cons(sep, d, rd);
    lemma_squeeze_add(flat_text(d) + sep, flat_join(sep, rd));
    lemma_squeeze_add(flat_text(d), sep);
    reveal_with_fuel(squeeze, 3);
    assert(squeeze(sep) =~= seq![',']);
}

/// A single item's text, without white space.
proof fn lemma_item_single(d: DocumentSpec)
    ensures
        squeeze(flat_join(seq![',', ' '], seq![d])) == squeeze(flat_text(d)),
{
    let sep = seq![',', ' '];
    lemma_flat_join_cons(sep, d, Seq::<DocumentSpec>::empty());
    assert(seq![d] + Seq::<DocumentSpec>::empty() =~= seq![d]);
}

#[verifier::spinoff_prover]
#[verifier::rlimit(50)]
proof fn lemma_jelement_list(s: Seq<char>, pos: int)
    requires
        s.len() <= usize::MAX,
    ensures
        j_element_list(s, pos) matches Some((items, r)) ==> pos <= r <= s.len() && items is Item && (
        items_separated(items) ==> ix(s, items) + seq![']'] == src(s, pos, r)),
    decreases s.len() - pos, 2int,
{
    if 0 <= pos <= s.len() {
        lemma_jvalue(s, pos);
        match j_value(s, pos) {
            None => {},
            Some((v, p)) => {
                if pos < p <= s.len() {
                    let q = skip_ws(s, p);
                    lemma_src_skip(s, p);
                    let d = json_doc(s, v);
                    if at(s, q) == ',' && q >= pos {
                        lemma_jelements(s, q + 1);
                        match j_elements(s, q + 1) {
                            None => {},
                            Some((rest, r)) => {
                                let items = Items::Item(Box::new(v), true, Box::new(rest));
                                if items_separated(items) {
                                    let rd = items_doc(s, rest);
                                    assert(items_doc(s, items) == seq![d] + rd);
                                    assert(rd.len() > 0);
                                    lemma_item_cons(d, rd);
                                    lemma_src_char(s, q);
                                    lemma_src_split(s, pos, p, r);
                                    lemma_src_split(s, p, q, r);
                                    lemma_src_split(s, q, q + 1, r);
                                    assert(ix(s, items) + seq![']'] =~= src(s, pos, r));
                                }
                            },
                        }
                    } else {
                        lemma_jelements(s, p);
                        match j_elements(s, p) {
                            None => {},
                            Some((rest, r)) => {
                                let items = Items::Item(Box::new(v), false, Box::new(rest));
                                if items_separated(items) {
                                    assert(items_doc(s, Items::End) =~= Seq::<DocumentSpec>::empty());
                                    assert(ix(s, Items::End) == Seq::<char>::empty());
                                    assert(items_doc(s, items) =~= seq![d] + Seq::<DocumentSpec>::empty());
                                    assert(seq![d] + Seq::<DocumentSpec>::empty() =~= seq![d]);
                                    lemma_item_single(d);
                                    lemma_src_split(s, pos, p, r);
                                    assert(ix(s, items) + seq![']'] =~= src(s, pos, r));
                                }
                            },
                        }
                    }
                }
            },
        }
    }
}

proof fn lemma_jmembers(s: Seq<char>, pos: int)
    requires
        s.len() <= usize::MAX,
    ensures
        j_members(s, pos) matches Some((ms, p)) ==> pos <= p <= s.len() && (members_separated(ms) ==> mx(s, ms)
            + seq!['}'] == src(s, pos, p)),
    decreases s.len() - pos, 3int,
{
    if 0 <= pos <= s.len() {
        let q = skip_ws(s, pos);
        lemma_src_skip(s, pos);
        if at(s, q) == '}' {
            assert(members_doc(s, Members::End) =~= Seq::<DocumentSpec>::empty());
            assert(mx(s, Members::End) == Seq::<char>::empty());
            lemma_src_char(s, q);
            lemma_src_split(s, pos, q, q + 1);
            assert(mx(s, Members::End) + seq!['}'] =~= src(s, pos, q + 1));
        } else {
            lemma_jmember_list(s, pos);
        }
    }
}

/// A member's layout, without white space: the key, `:`, the value.
proof fn lemma_member_text(s: Seq<char>, q: int, k: int, v: Json)
    requires
        s.len() <= usize::MAX,
        0 <= q <= k <= s.len(),
    ensures
        squeeze(flat_text(spec_add(txt(span_text(s, span(q, k)) + seq![':', ' ']), json_doc(s, v)))) == src(s, q, k)
            + seq![':'] + jx(s, v),
{
    lemma_span_text(s, q, k);
    let key = s.subrange(q, k);
    lemma_flat_add(txt(key + seq![':', ' ']), json_doc(s, v));
    lemma_squeeze_add(key + seq![':', ' '], flat_text(json_doc(s, v)));
    lemma_squeeze_add(key, seq![':', ' ']);
    reveal_with_fuel(squeeze, 3);
    assert(squeeze(seq![':', ' ']) =~= seq![':']);
}

#[verifier::spinoff_prover]
#[verifier::rlimit(50)]
proof fn lemma_jmember_list(s: Seq<char>, pos: int)
    requires
        s.len() <= usize::MAX,
    ensures
        j_member_list(s, pos) matches Some((ms, r)) ==> pos <= r <= s.len() && ms is Member && (members_separated(
            ms,
        ) ==> mx(s, ms) + seq!['}'] == src(s, pos, r)),
    decreases s.len() - pos, 2int,
{
    if 0 <= pos <= s.len() {
        let q = skip_ws(s, pos);
        lemma_src_skip(s, pos);
        if q >= pos && at(s, q) == '"' {
            crate::json::lemma_scan_jstring(s, q + 1);
            match scan_jstring(s, q + 1) {
                None => {},
                Some(k) => {
                    if q < k <= s.len() {
                        let c = skip_ws(s, k);
                        lemma_src_skip(s, k);
                        if at(s, c) == ':' && c >= k {
                            lemma_jvalue(s, c + 1);
                            match j_value(s, c + 1) {
                                None => {},
                                Some((v, p)) => {
                                    if c < p <= s.len() {
                                        let d = skip_ws(s, p);
                                        lemma_src_skip(s, p);
                                        lemma_member_list_tail(s, pos, q, k, c, v, p, d);
                                    }
                                },
                            }
                        }
                    }
                },
            }
        }
    }
}

/// The rest of `lemma_jmember_list`, once the key `q..k`, the colon at `c`
/// and the value ending at `p` are read, with `d` after the value's white space.
#[verifier::spinoff_prover]
#[verifier::rlimit(50)]
proof fn lemma_member_list_tail(s: Seq<char>, pos: int, q: int, k: int, c: int, v: Json, p: int, d: int)
    requires
        s.len() <= usize::MAX,
        0 <= pos <= q < k <= c < p <= s.len(),
        src(s, pos, q) == Seq::<char>::empty(),
        src(s, k, c) == Seq::<char>::empty(),
        at(s, c) == ':',
        d == skip_ws(s, p),
        p <= d <= s.len(),
        src(s, p, d) == Seq::<char>::empty(),
        j_value(s, c + 1) == Some((v, p)),
        separated(v) ==> jx(s, v) == src(s, c + 1, p),
        j_member_list(s, pos) == (if at(s, d) == ',' && d >= p {
            match j_members(s, d + 1) {
                None => None,
                Some((rest, r)) => Some((Members::Member(span(q, k), Box::new(v), true, Box::new(rest)), r)),
            }
        } else {
            match j_members(s, p) {
                None => None,
                Some((rest, r)) => Some((Members::Member(span(q, k), Box::new(v), false, Box::new(rest)), r)),
            }
        }),
    ensures
        j_member_list(s, pos) matches Some((ms, r)) ==> pos <= r <= s.len() && ms is Member && (members_separated(
            ms,
        ) ==> mx(s, ms) + seq!['}'] == src(s, pos, r)),
    decreases s.len() - pos, 1int,
{
    let md = spec_add(txt(span_text(s, span(q, k)) + seq![':', ' ']), json_doc(s, v));
    if at(s, d) == ',' && d >= p {
        lemma_jmembers(s, d + 1);
        match j_members(s, d + 1) {
            None => {},
            Some((rest, r)) => {
                let ms = Members::Member(span(q, k), Box::new(v), true, Box::new(rest));
                if members_separated(ms) {
                    lemma_member_text(s, q, k, v);
                    lemma_src_char(s, c);
                    lemma_src_split(s, q, k, p);
                    lemma_src_split(s, k, c, p);
                    lemma_src_split(s, c, c + 1, p);
                    assert(squeeze(flat_text(md)) =~= src(s, q, p));
                    lemma_src_split(s, pos, q, p);
                    let rd = members_doc(s, rest);
                    assert(members_doc(s, ms) == seq![md] + rd);
                    assert(rd.len() > 0);
                    lemma_item_cons(md, rd);
                    lemma_src_char(s, d);
                    lemma_src_split(s, pos, p, r);
                    lemma_src_split(s, p, d, r);
                    lemma_src_split(s, d, d + 1, r);
                    assert(mx(s, ms) + seq!['}'] =~= src(s, pos, r));
                }
            },
        }
    } else {
        lemma_jmembers(s, p);
        match j_members(s, p) {
            None => {},
            Some((rest, r)) => {
                let ms = Members::Member(span(q, k), Box::new(v), false, Box::new(rest));
                if members_separated(ms) {
                    lemma_member_text(s, q, k, v);
                    lemma_src_char(s, c);
                    lemma_src_split(s, q, k, p);
                    lemma_src_split(s, k, c, p);
                    lemma_src_split(s, c, c + 1, p);
                    assert(squeeze(flat_text(md)) =~= src(s, q, p));
                    lemma_src_split(s, pos, q, p);
                    assert(members_doc(s, Members::End) =~= Seq::<DocumentSpec>::empty());
                    assert(mx(s, Members::End) == Seq::<char>::empty());
                    assert(members_doc(s, ms) =~= seq![md] + Seq::<DocumentSpec>::empty());
                    assert(seq![md] + Seq::<DocumentSpec>::empty() =~= seq![md]);
                    lemma_item_single(md);
                    lemma_src_split(s, pos, p, r);
                    assert(mx(s, ms) + seq!['}'] =~= src(s, pos, r));
                }
            },
        }
    }
}

/// Formatting JSON changes only white space: laid out on one line, the
/// document of a parsed value whose items are separated by single commas
/// holds exactly the characters of the text that the parse read, other than
/// spaces, tabs and line breaks, in their order. (Where a comma is left out
/// or follows the last item, the layout writes the commas between items
/// and none after the last.)
pub proof fn lemma_json_layout_keeps_text(s: Seq<char>)
    requires
        s.len() <= usize::MAX,
    ensures
        j_value(s, 0) matches Some((v, p)) ==> 0 <= p <= s.len() && (separated(v) ==> squeeze(
            flat_text(json_doc(s, v)),
        ) == squeeze(s.take(p))),
{
    lemma_jvalue(s, 0);
    match j_value(s, 0) {
        None => {},
        Some((v, p)) => {
            assert(s.subrange(0, p) =~= s.take(p));
        },
    }
}


/// A string's text goes on past every JSON escape: after a backslash, each of
/// `"` `\` `/` `b` `f` `n` `r` `t` is one escaped character and the string
/// continues after it, as it does after `u` and four hexadecimal digits; a
/// `"` that is not escaped ends the string, and any other character is part
/// of it.
pub proof fn lemma_string_escapes(s: Seq<char>, i: int)
    requires
        0 <= i < s.len(),
    ensures
        s[i] == '"' ==> scan_jstring(s, i) == Some(i + 1),
        s[i] != '"' && s[i] != '\\' ==> scan_jstring(s, i) == scan_jstring(s, i + 1),
        s[i] == '\\' && i + 1 < s.len() && (s[i + 1] == '"' || s[i + 1] == '\\' || s[i + 1] == '/' || s[i + 1]
            == 'b' || s[i + 1] == 'f' || s[i + 1] == 'n' || s[i + 1] == 'r' || s[i + 1] == 't') ==> scan_jstring(
            s,
            i,
        ) == scan_jstring(s, i + 2),
        s[i] == '\\' && i + 5 < s.len() && s[i + 1] == 'u' && (forall|k: int|
            i + 2 <= k < i + 6 ==> ('0' <= #[trigger] s[k] <= '9' || 'a' <= s[k] <= 'f' || 'A' <= s[k] <= 'F')) ==> scan_jstring(s, i) == scan_jstring(s, i + 6),
{
    if s[i] == '\\' && i + 5 < s.len() && s[i + 1] == 'u' {
        assert(2 <= 2);
        let k2 = i + 2;
        let k3 = i + 3;
        let k4 = i + 4;
        let k5 = i + 5;
        assert(i + 2 <= k2 < i + 6);
        assert(i + 2 <= k3 < i + 6);
        assert(i + 2 <= k4 < i + 6);
        assert(i + 2 <= k5 < i + 6);
    }
}

} // verus!
