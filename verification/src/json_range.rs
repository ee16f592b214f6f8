//! What range formatting does with a JSON value when the range covers it or
//! misses it: every array and object of a parsed value lies inside the text
//! the parse read, so a range over that text lays the value out as the full
//! layout does, and a range outside it keeps the text as written.

use vstd::prelude::*;

use crate::doc::{flat_join, flat_text, lemma_flat_add, lemma_flat_join_cons, spec_add, DocumentSpec};
use crate::google_sheets::{at, lemma_skip_ws, skip_ws, soft_break_spec, span, span_text, txt, Span};
use crate::google_sheets_text::lemma_span_text;
use crate::json::{
    items_doc, items_range_doc, j_element_list, j_elements, j_member_list, j_members, j_value, json_doc,
    bracketed, item_sep_spec, json_range_doc, lit_at, members_doc, overlaps, members_range_doc, scan_jnumber, scan_jstring, Items, Json, Members,
};

verus! {

/// Every array and object in the value has a span that is not empty and lies
/// between the positions `lo` and `hi`.
pub open spec fn within(v: Json, lo: int, hi: int) -> bool
    decreases v,
{
    match v {
        Json::Array(sp, items) => lo <= sp.start < sp.end <= hi && items_within(items, lo, hi),
        Json::Object(sp, ms) => lo <= sp.start < sp.end <= hi && members_within(ms, lo, hi),
        _ => true,
    }
}

/// `within` for each element.
pub open spec fn items_within(items: Items, lo: int, hi: int) -> bool
    decreases items,
{
    match items {
        Items::End => true,
        Items::Item(v, _, rest) => within(*v, lo, hi) && items_within(*rest, lo, hi),
    }
}

/// `within` for each member's value.
pub open spec fn members_within(ms: Members, lo: int, hi: int) -> bool
    decreases ms,
{
    match ms {
        Members::End => true,
        Members::Member(_, v, _, rest) => within(*v, lo, hi) && members_within(*rest, lo, hi),
    }
}

proof fn lemma_within_widen(v: Json, lo: int, hi: int, lo2: int, hi2: int)
    requires
        within(v, lo, hi),
        lo2 <= lo,
        hi <= hi2,
    ensures
        within(v, lo2, hi2),
    decreases v,
{
    match v {
        Json::Array(_, items) => lemma_items_within_widen(items, lo, hi, lo2, hi2),
        Json::Object(_, ms) => lemma_members_within_widen(ms, lo, hi, lo2, hi2),
        _ => {},
    }
}

proof fn lemma_items_within_widen(items: Items, lo: int, hi: int, lo2: int, hi2: int)
    requires
        items_within(items, lo, hi),
        lo2 <= lo,
        hi <= hi2,
    ensures
        items_within(items, lo2, hi2),
    decreases items,
{
    match items {
        Items::End => {},
        Items::Item(v, _, rest) => {
            lemma_within_widen(*v, lo, hi, lo2, hi2);
            lemma_items_within_widen(*rest, lo, hi, lo2, hi2);
        },
    }
}

proof fn lemma_members_within_widen(ms: Members, lo: int, hi: int, lo2: int, hi2: int)
    requires
        members_within(ms, lo, hi),
        lo2 <= lo,
        hi <= hi2,
    ensures
        members_within(ms, lo2, hi2),
    decreases ms,
{
    match ms {
        Members::End => {},
        Members::Member(_, v, _, rest) => {
            lemma_within_widen(*v, lo, hi, lo2, hi2);
            lemma_members_within_widen(*rest, lo, hi, lo2, hi2);
        },
    }
}

/// A range from `a` to `b` that holds everything between `lo` and `hi`
/// overlaps every array and object there, so it lays them all out.
proof fn lemma_range_doc_covering(s: Seq<char>, v: Json, a: int, b: int, lo: int, hi: int)
    requires
        within(v, lo, hi),
        a <= lo,
        hi <= b,
    ensures
        json_range_doc(s, v, a, b) == json_doc(s, v),
    decreases v,
{
    match v {
        Json::Array(_, items) => lemma_items_range_covering(s, items, a, b, lo, hi),
        Json::Object(_, ms) => lemma_members_range_covering(s, ms, a, b, lo, hi),
        _ => {},
    }
}

proof fn lemma_items_range_covering(s: Seq<char>, items: Items, a: int, b: int, lo: int, hi: int)
    requires
        items_within(items, lo, hi),
        a <= lo,
        hi <= b,
    ensures
        items_range_doc(s, items, a, b) == items_doc(s, items),
    decreases items,
{
    match items {
        Items::End => {},
        Items::Item(v, _, rest) => {
            lemma_range_doc_covering(s, *v, a, b, lo, hi);
            lemma_items_range_covering(s, *rest, a, b, lo, hi);
        },
    }
}

proof fn lemma_members_range_covering(s: Seq<char>, ms: Members, a: int, b: int, lo: int, hi: int)
    requires
        members_within(ms, lo, hi),
        a <= lo,
        hi <= b,
    ensures
        members_range_doc(s, ms, a, b) == members_doc(s, ms),
    decreases ms,
{
    match ms {
        Members::End => {},
        Members::Member(_, v, _, rest) => {
            lemma_range_doc_covering(s, *v, a, b, lo, hi);
            lemma_members_range_covering(s, *rest, a, b, lo, hi);
        },
    }
}

proof fn lemma_jvalue_within(s: Seq<char>, pos: int)
    requires
        s.len() <= usize::MAX,
    ensures
        j_value(s, pos) matches Some((v, p)) ==> pos <= p <= s.len() && within(v, pos, p),
    decreases s.len() - pos, 1int,
{
    if 0 <= pos <= s.len() {
        let q = skip_ws(s, pos);
        lemma_skip_ws(s, pos);
        if q >= s.len() {
        } else if s[q] == '{' {
            lemma_jmembers_within(s, q + 1);
            if let Some((ms, p)) = j_members(s, q + 1) {
                lemma_members_within_widen(ms, q + 1, p, pos, p);
            }
        } else if s[q] == '[' {
            lemma_jelements_within(s, q + 1);
            if let Some((items, p)) = j_elements(s, q + 1) {
                lemma_items_within_widen(items, q + 1, p, pos, p);
            }
        } else if s[q] == '"' {
            crate::json::lemma_scan_jstring(s, q + 1);
        } else if s[q] == '-' || crate::google_sheets::is_digit(s[q]) {
            crate::json::lemma_scan_jnumber(s, q);
        }
    }
}

proof fn lemma_jelements_within(s: Seq<char>, pos: int)
    requires
        s.len() <= usize::MAX,
    ensures
        j_elements(s, pos) matches Some((items, p)) ==> pos <= p <= s.len() && items_within(items, pos, p),
    decreases s.len() - pos, 3int,
{
    if 0 <= pos <= s.len() {
        let q = skip_ws(s, pos);
        lemma_skip_ws(s, pos);
        if at(s, q) != ']' {
            lemma_jelement_list_within(s, pos);
        }
    }
}

proof fn lemma_jelement_list_within(s: Seq<char>, pos: int)
    requires
        s.len() <= usize::MAX,
    ensures
        j_element_list(s, pos) matches Some((items, r)) ==> pos <= r <= s.len() && items_within(items, pos, r),
    decreases s.len() - pos, 2int,
{
    if 0 <= pos <= s.len() {
        lemma_jvalue_within(s, pos);
        if let Some((v, p)) = j_value(s, pos) {
            if pos < p <= s.len() {
                let q = skip_ws(s, p);
                lemma_skip_ws(s, p);
                let next = if at(s, q) == ',' && q >= pos {
                    q + 1
                } else {
                    p
                };
                lemma_jelements_within(s, next);
                if let Some((rest, r)) = j_elements(s, next) {
                    lemma_within_widen(v, pos, p, pos, r);
                    lemma_items_within_widen(rest, next, r, pos, r);
                }
            }
        }
    }
}

proof fn lemma_jmembers_within(s: Seq<char>, pos: int)
    requires
        s.len() <= usize::MAX,
    ensures
        j_members(s, pos) matches Some((ms, p)) ==> pos <= p <= s.len() && members_within(ms, pos, p),
    decreases s.len() - pos, 3int,
{
    if 0 <= pos <= s.len() {
        let q = skip_ws(s, pos);
        lemma_skip_ws(s, pos);
        if at(s, q) != '}' {
            lemma_jmember_list_within(s, pos);
        }
    }
}

proof fn lemma_jmember_list_within(s: Seq<char>, pos: int)
    requires
        s.len() <= usize::MAX,
    ensures
        j_member_list(s, pos) matches Some((ms, r)) ==> pos <= r <= s.len() && members_within(ms, pos, r),
    decreases s.len() - pos, 2int,
{
    if 0 <= pos <= s.len() {
        let q = skip_ws(s, pos);
        lemma_skip_ws(s, pos);
        if q >= pos && at(s, q) == '"' {
            if let Some(k) = scan_jstring(s, q + 1) {
                if q < k <= s.len() {
                    let c = skip_ws(s, k);
                    lemma_skip_ws(s, k);
                    if at(s, c) == ':' && c >= k {
                        lemma_jvalue_within(s, c + 1);
                        if let Some((v, p)) = j_value(s, c + 1) {
                            if c < p <= s.len() {
                                let d = skip_ws(s, p);
                                lemma_skip_ws(s, p);
                                let next = if at(s, d) == ',' && d >= p {
                                    d + 1
                                } else {
                                    p
                                };
                                lemma_jmembers_within(s, next);
                                if let Some((rest, r)) = j_members(s, next) {
                                    lemma_within_widen(v, c + 1, p, pos, r);
                                    lemma_members_within_widen(rest, next, r, pos, r);
                                }
                            }
                        }
                    }
                }
            }
        }
    }
}

/// Range formatting over a range that covers the parsed value, such as the
/// whole text, lays the value out exactly as `prettify_json` does: every
/// array and object of the value overlaps the range.
pub proof fn lemma_json_covering_range(s: Seq<char>, b: int)
    requires
        s.len() <= usize::MAX,
    ensures
        j_value(s, 0) matches Some((v, p)) ==> (p <= b ==> json_range_doc(s, v, 0, b) == json_doc(s, v)),
{
    lemma_jvalue_within(s, 0);
    if let Some((v, p)) = j_value(s, 0) {
        if p <= b {
            lemma_range_doc_covering(s, v, 0, b, 0, p);
        }
    }
}

/// Range formatting over a range that misses the parsed value (one that ends
/// before the value starts, after white space, or starts where it ends, such
/// as the empty range at the start of a text) keeps the value's source text
/// as written.
pub proof fn lemma_json_missed_range(s: Seq<char>, a: int, b: int)
    requires
        s.len() <= usize::MAX,
    ensures
        j_value(s, 0) matches Some((v, p)) ==> (b <= skip_ws(s, 0) || p <= a ==> json_range_doc(s, v, a, b) == txt(
            s.subrange(skip_ws(s, 0), p),
        )),
{
    lemma_jvalue_within(s, 0);
    lemma_skip_ws(s, 0);
    let q = skip_ws(s, 0);
    if let Some((v, p)) = j_value(s, 0) {
        if b <= q || p <= a {
            if s[q] == '{' || s[q] == '[' {
                lemma_span_text(s, q, p);
            } else if s[q] == '"' {
                crate::json::lemma_scan_jstring(s, q + 1);
                lemma_span_text(s, q, p);
            } else if s[q] == '-' || crate::google_sheets::is_digit(s[q]) {
                crate::json::lemma_scan_jnumber(s, q);
                lemma_span_text(s, q, p);
            }
        }
    }
}


/// `x` is `v` itself, or `v` is an array or object that overlaps the range
/// from `a` to `b` and `x` is reached in one of its elements or member values:
/// the values that range formatting lays out on their own.
pub open spec fn reached(x: Json, v: Json, a: int, b: int) -> bool
    decreases v,
{
    x == v || match v {
        Json::Array(sp, items) => overlaps(sp, a, b) && reached_items(x, items, a, b),
        Json::Object(sp, ms) => overlaps(sp, a, b) && reached_members(x, ms, a, b),
        _ => false,
    }
}

/// `reached` in one of the elements.
pub open spec fn reached_items(x: Json, items: Items, a: int, b: int) -> bool
    decreases items,
{
    match items {
        Items::End => false,
        Items::Item(v, _, rest) => reached(x, *v, a, b) || reached_items(x, *rest, a, b),
    }
}

/// `reached` in one of the member values.
pub open spec fn reached_members(x: Json, ms: Members, a: int, b: int) -> bool
    decreases ms,
{
    match ms {
        Members::End => false,
        Members::Member(_, v, _, rest) => reached(x, *v, a, b) || reached_members(x, *rest, a, b),
    }
}

/// The span of an array or object.
pub open spec fn container_span(x: Json) -> Option<Span> {
    match x {
        Json::Array(sp, _) => Some(sp),
        Json::Object(sp, _) => Some(sp),
        _ => None,
    }
}

proof fn lemma_bracketed_flat(open: char, docs: Seq<DocumentSpec>, close: char)
    ensures
        flat_text(bracketed(open, docs, close)) == seq![open] + flat_join(seq![',', ' '], docs) + seq![close],
{
    let sep = seq![',', ' '];
    let body = DocumentSpec::Join(Box::new(item_sep_spec()), docs);
    let inner = spec_add(soft_break_spec(), body);
    let d1 = spec_add(txt(seq![open]), DocumentSpec::Indent(Box::new(inner)));
    let d2 = spec_add(d1, soft_break_spec());
    lemma_flat_add(soft_break_spec(), body);
    lemma_flat_add(txt(seq![open]), DocumentSpec::Indent(Box::new(inner)));
    lemma_flat_add(d1, soft_break_spec());
    lemma_flat_add(d2, txt(seq![close]));
    assert(flat_text(DocumentSpec::Null) == Seq::<char>::empty());
    assert(flat_text(soft_break_spec()) == Seq::<char>::empty());
    assert(flat_text(txt(sep)) == sep);
    assert(flat_text(item_sep_spec()) == sep);
    let j = flat_join(sep, docs);
    assert(flat_text(inner) =~= j);
    assert(flat_text(d2) =~= seq![open] + j);
}

proof fn lemma_kept_value(s: Seq<char>, v: Json, x: Json, sp: Span, a: int, b: int) -> (r: (Seq<char>, Seq<char>))
    requires
        reached(x, v, a, b),
        container_span(x) == Some(sp),
        !overlaps(sp, a, b),
    ensures
        flat_text(json_range_doc(s, v, a, b)) == r.0 + span_text(s, sp) + r.1,
    decreases v,
{
    if x == v {
        (Seq::empty(), Seq::empty())
    } else {
        match v {
            Json::Array(_, items) => {
                let (p, q) = lemma_kept_items(s, items, x, sp, a, b);
                lemma_bracketed_flat('[', items_range_doc(s, items, a, b), ']');
                assert(items is Item);
                (seq!['['] + p, q + seq![']'])
            },
            Json::Object(_, ms) => {
                let (p, q) = lemma_kept_members(s, ms, x, sp, a, b);
                lemma_bracketed_flat('{', members_range_doc(s, ms, a, b), '}');
                assert(ms is Member);
                (seq!['{'] + p, q + seq!['}'])
            },
            _ => (Seq::empty(), Seq::empty()),
        }
    }
}

proof fn lemma_kept_items(s: Seq<char>, items: Items, x: Json, sp: Span, a: int, b: int) -> (r: (Seq<char>, Seq<char>))
    requires
        reached_items(x, items, a, b),
        container_span(x) == Some(sp),
        !overlaps(sp, a, b),
    ensures
        flat_join(seq![',', ' '], items_range_doc(s, items, a, b)) == r.0 + span_text(s, sp) + r.1,
    decreases items,
{
    let sep = seq![',', ' '];
    match items {
        Items::End => (Seq::empty(), Seq::empty()),
        Items::Item(v, _, rest) => {
            let d = json_range_doc(s, *v, a, b);
            let rd = items_range_doc(s, *rest, a, b);
            lemma_flat_join_cons(sep, d, rd);
            if reached(x, *v, a, b) {
                let (p, q) = lemma_kept_value(s, *v, x, sp, a, b);
                if rd.len() > 0 {
                    (p, q + sep + flat_join(sep, rd))
                } else {
                    (p, q)
                }
            } else {
                assert(reached_items(x, *rest, a, b));
                let (p, q) = lemma_kept_items(s, *rest, x, sp, a, b);
                match *rest {
                    Items::End => assert(!reached_items(x, Items::End, a, b)),
                    _ => {},
                }
                assert(*rest is Item);
                assert(rd.len() > 0);
                (flat_text(d) + sep + p, q)
            }
        },
    }
}

proof fn lemma_kept_members(s: Seq<char>, ms: Members, x: Json, sp: Span, a: int, b: int) -> (r: (Seq<char>, Seq<char>))
    requires
        reached_members(x, ms, a, b),
        container_span(x) == Some(sp),
        !overlaps(sp, a, b),
    ensures
        flat_join(seq![',', ' '], members_range_doc(s, ms, a, b)) == r.0 + span_text(s, sp) + r.1,
    decreases ms,
{
    let sep = seq![',', ' '];
    match ms {
        Members::End => (Seq::empty(), Seq::empty()),
        Members::Member(k, v, _, rest) => {
            let key = txt(span_text(s, k) + seq![':', ' ']);
            let d = spec_add(key, json_range_doc(s, *v, a, b));
            let rd = members_range_doc(s, *rest, a, b);
            lemma_flat_join_cons(sep, d, rd);
            lemma_flat_add(key, json_range_doc(s, *v, a, b));
            if reached(x, *v, a, b) {
                let (p, q) = lemma_kept_value(s, *v, x, sp, a, b);
                let head = span_text(s, k) + seq![':', ' '];
                if rd.len() > 0 {
                    (head + p, q + sep + flat_join(sep, rd))
                } else {
                    (head + p, q)
                }
            } else {
                assert(reached_members(x, *rest, a, b));
                let (p, q) = lemma_kept_members(s, *rest, x, sp, a, b);
                match *rest {
                    Members::End => assert(!reached_members(x, Members::End, a, b)),
                    _ => {},
                }
                assert(*rest is Member);
                assert(rd.len() > 0);
                (flat_text(d) + sep + p, q)
            }
        },
    }
}

/// Range formatting keeps as written every array and object that the range
/// misses, at any depth: when `x` is the value itself or sits (as an element
/// or a member value, however deeply) inside arrays and objects that overlap
/// the range, and `x` does not overlap it, the text of the range layout, laid
/// out on one line, holds the source text of `x` unchanged.
pub proof fn lemma_json_range_keeps_missed(s: Seq<char>, v: Json, x: Json, a: int, b: int)
    requires
        reached(x, v, a, b),
        container_span(x) matches Some(sp) && !overlaps(sp, a, b),
    ensures
        exists|pre: Seq<char>, post: Seq<char>|
            flat_text(json_range_doc(s, v, a, b)) == pre + span_text(s, container_span(x)->0) + post,
{
    let sp = container_span(x)->0;
    let (p, q) = lemma_kept_value(s, v, x, sp, a, b);
    assert(flat_text(json_range_doc(s, v, a, b)) == p + span_text(s, sp) + q);
}

} // verus!
