//! Pretty backend for interpreted grammars: a parse tree of the bytecode
//! interpreter, read together with the `@pretty` hints of the grammar's rules,
//! becomes a document and then text.

use vstd::prelude::*;

use crate::config::PrinterConfig;
use crate::doc::{
    copy_doc, lemma_view_docs, lemma_view_docs_add, lemma_view_docs_push, lemma_view_docs_subrange,
    flat_join, flat_text, printable, render, rendered, spec_add, view_docs, Document, DocumentSpec,
};
use crate::split::{split_balanced, spec_split_balanced};
use crate::text::{chars_of, trim, trim_end, trimmed_end_string, trimmed_string};
use vstd::string::StringSliceAdditionalSpecFns;
use vstd::utf8::decode_utf8;

verus! {

/// A node of the parse tree that the bytecode interpreter produces. Spans
/// are byte offsets into the input.
pub enum Value {
    /// A matched span of input: `(start, end)` byte offsets.
    Span(u32, u32),
    /// A rule match: the rule's name, the span it covers, and its children.
    Tagged { tag: u32, span: (u32, u32), children: Vec<Value> },
    /// The values of a repetition.
    Array(Vec<Value>),
    /// Nothing matched.
    Nil,
}

/// The `@pretty` directives of a grammar rule.
pub struct PrettyHints {
    /// Wrap output in a group (break to multi-line if too wide).
    pub group: bool,
    /// Indent content by one level.
    pub indent: bool,
    /// Dedent content by one level.
    pub dedent: bool,
    /// Hardline separator between list elements.
    pub block: bool,
    /// Double hardline between elements.
    pub blankline: bool,
    /// Space separator that never breaks.
    pub nobreak: bool,
    /// Softline separator.
    pub softbreak: bool,
    /// Hardline separator between tuple elements.
    pub hardbreak: bool,
    /// No separator at all.
    pub compact: bool,
    /// Hardline separator, skipping the line-filling join.
    pub fast: bool,
    /// Formatting switched off.
    pub off: bool,
    /// Custom separator string (from `sep("...")`).
    pub sep: Option<String>,
    /// Balanced-splitting delimiter (from `split("...")`).
    pub split: Option<String>,
}

impl Default for PrettyHints {
    /// No directive set.
    fn default() -> (h: PrettyHints)
        ensures
            !h.group && !h.indent && !h.dedent && !h.block && !h.blankline && !h.nobreak
                && !h.softbreak && !h.hardbreak && !h.compact && !h.fast && !h.off,
            h.sep is None && h.split is None,
    {
        PrettyHints {
            group: false,
            indent: false,
            dedent: false,
            block: false,
            blankline: false,
            nobreak: false,
            softbreak: false,
            hardbreak: false,
            compact: false,
            fast: false,
            off: false,
            sep: None,
            split: None,
        }
    }
}

/// A rule of the grammar, as far as formatting reads it: its name (the tag
/// of the values it produces) and its hints.
pub struct IrRule {
    pub name: u32,
    pub pretty: Option<PrettyHints>,
}

/// The rules of a compiled grammar.
pub struct GrammarIR {
    pub rules: Vec<IrRule>,
}

/// How a text splits at a delimiter byte outside brackets and quotes: the
/// pieces, as the balanced splitter of the `split("...")` hint yields them.
pub struct SplitEntry {
    pub text: String,
    pub delim: u8,
    pub parts: Vec<String>,
}

/// The text of the input bytes `[s, e)`.
pub open spec fn span_str(b: Seq<u8>, s: int, e: int) -> Seq<char> {
    decode_utf8(b.subrange(s, e))
}

/// The first rule with the given name.
pub open spec fn find_rule(rules: Seq<IrRule>, tag: u32) -> Option<IrRule>
    decreases rules.len(),
{
    if rules.len() == 0 {
        None
    } else if rules[0].name == tag {
        Some(rules[0])
    } else {
        find_rule(rules.drop_first(), tag)
    }
}

/// The hints of the first rule with the given name, if it has any.
pub open spec fn rule_hints(ir: GrammarIR, tag: u32) -> Option<PrettyHints> {
    match find_rule(ir.rules@, tag) {
        None => None,
        Some(r) => r.pretty,
    }
}

/// The pieces that the table holds for a text and delimiter; a text that the
/// table does not hold stays one piece.
pub open spec fn split_lookup(table: Seq<SplitEntry>, t: Seq<char>, d: u8) -> Seq<Seq<char>>
    decreases table.len(),
{
    if table.len() == 0 {
        seq![t]
    } else if table[0].text@ == t && table[0].delim == d {
        table[0].parts@.map_values(|p: String| p@)
    } else {
        split_lookup(table.drop_first(), t, d)
    }
}

/// Two optional byte ranges merged into the smallest range covering both.
pub open spec fn merge_range(a: Option<(u32, u32)>, b: Option<(u32, u32)>) -> Option<(u32, u32)> {
    match (a, b) {
        (None, x) => x,
        (x, None) => x,
        (Some((s1, e1)), Some((s2, e2))) => Some(
            (if s1 <= s2 { s1 } else { s2 }, if e1 >= e2 { e1 } else { e2 }),
        ),
    }
}

/// The byte range a value covers: its own span, or for an array the range of its items.
pub open spec fn value_range(v: Value) -> Option<(u32, u32)>
    decreases v,
{
    match v {
        Value::Span(s, e) => Some((s, e)),
        Value::Tagged { span, .. } => Some(span),
        Value::Array(items) => children_range(items@),
        Value::Nil => None,
    }
}

/// The smallest range `(min start, max end)` covering all the values, or
/// `None` where none covers any.
pub open spec fn children_range(vs: Seq<Value>) -> Option<(u32, u32)>
    decreases vs,
{
    if vs.len() == 0 {
        None
    } else {
        merge_range(children_range(vs.drop_last()), value_range(vs.last()))
    }
}

pub open spec fn is_ascii_ws_byte(c: u8) -> bool {
    c == 0x20 || c == 0x09 || c == 0x0a || c == 0x0c || c == 0x0d
}

/// Whether the bytes `[s, e)` are all ASCII white space.
pub open spec fn all_ws(b: Seq<u8>, s: int, e: int) -> bool {
    forall|i: int| s <= i < e ==> is_ascii_ws_byte(#[trigger] b[i])
}

/// Whether the input that a rule match covers has non-space content before or
/// after what its children cover (delimiters that the grammar discarded).
pub open spec fn has_gaps(b: Seq<u8>, span: (u32, u32), children: Seq<Value>) -> bool {
    match children_range(children) {
        None => true,
        Some((cs, ce)) => !all_ws(b, span.0 as int, cs as int) || !all_ws(
            b,
            ce as int,
            span.1 as int,
        ),
    }
}

/// The group, indent and dedent hints applied to a document (indent
/// innermost, group outermost); nothing where formatting is off.
pub open spec fn apply_hints_spec(d: DocumentSpec, hints: Option<PrettyHints>) -> DocumentSpec {
    match hints {
        None => d,
        Some(h) => if h.off {
            d
        } else {
            let d1 = if h.indent {
                DocumentSpec::Indent(Box::new(d))
            } else {
                d
            };
            let d2 = if h.dedent {
                DocumentSpec::Dedent(Box::new(d1))
            } else {
                d1
            };
            if h.group {
                DocumentSpec::Group(Box::new(d2))
            } else {
                d2
            }
        },
    }
}

/// A rule without hints, or whose hints switch formatting off, leaves the
/// document of its node as it is.
pub proof fn lemma_hints_off(d: DocumentSpec, hints: Option<PrettyHints>)
    requires
        hints matches Some(h) ==> h.off,
    ensures
        apply_hints_spec(d, hints) == d,
{
}

/// The separator of a `sep("...")` string: inside a group, the trimmed
/// separator and a line break when the group breaks and the separator as
/// written otherwise; outside a group, the separator as written.
pub open spec fn separator_spec(sep: Seq<char>, in_group: bool) -> DocumentSpec {
    if in_group {
        DocumentSpec::IfBreak(
            Box::new(spec_add(DocumentSpec::Text(trim_end(sep)), DocumentSpec::Hardline)),
            Box::new(DocumentSpec::Text(sep)),
        )
    } else {
        DocumentSpec::Text(sep)
    }
}

/// The pieces of one document under `split`: a text document is split at the
/// delimiter, its pieces trimmed and the empty ones dropped; any other
/// document stays whole.
pub open spec fn split_parts(table: Seq<SplitEntry>, d: DocumentSpec, delim: u8) -> Seq<DocumentSpec> {
    match d {
        DocumentSpec::Text(t) => nonempty_trimmed(split_lookup(table, t, delim)),
        _ => seq![d],
    }
}

/// The trimmed pieces that are not empty, as text documents.
pub open spec fn nonempty_trimmed(parts: Seq<Seq<char>>) -> Seq<DocumentSpec>
    decreases parts.len(),
{
    if parts.len() == 0 {
        Seq::empty()
    } else {
        let rest = nonempty_trimmed(parts.drop_last());
        let p = trim(parts.last());
        if p.len() == 0 {
            rest
        } else {
            rest.push(DocumentSpec::Text(p))
        }
    }
}

/// All the pieces of the documents under `split`, in order.
pub open spec fn all_split_parts(table: Seq<SplitEntry>, docs: Seq<DocumentSpec>, delim: u8) -> Seq<
    DocumentSpec,
>
    decreases docs.len(),
{
    if docs.len() == 0 {
        Seq::empty()
    } else {
        all_split_parts(table, docs.drop_last(), delim) + split_parts(table, docs.last(), delim)
    }
}

/// The delimiter byte of a `split("...")` string: its first byte, or `,`
/// for an empty string.
pub open spec fn split_delim(delim: Seq<char>) -> u8 {
    let bytes = vstd::utf8::encode_utf8(delim);
    if bytes.len() > 0 {
        bytes[0]
    } else {
        0x2c
    }
}

/// The `split("...")` directive: the text documents split at the delimiter
/// outside brackets and quotes, joined with the `sep` separator (or the
/// delimiter and a space); nothing where no piece is left.
pub open spec fn combine_with_split_spec(
    table: Seq<SplitEntry>,
    docs: Seq<DocumentSpec>,
    delim: Seq<char>,
    h: PrettyHints,
) -> DocumentSpec {
    let parts = all_split_parts(table, docs, split_delim(delim));
    if parts.len() == 0 {
        DocumentSpec::Null
    } else {
        let sep = match h.sep {
            Some(s) => separator_spec(s@, h.group),
            None => separator_spec(delim + seq![' '], h.group),
        };
        DocumentSpec::Join(Box::new(sep), parts)
    }
}

/// How the documents of a node's children combine under the node's hints,
/// the first directive that applies deciding: `off` concatenates; `split`
/// splits; `sep` joins with the separator (one item per line under `block`
/// or `hardbreak`; under `group` the trimmed separator and a line break when
/// the group breaks, the separator as written otherwise); `blankline` joins with an
/// empty line; `block`, `hardbreak` and `fast` join with line breaks;
/// `softbreak` with soft breaks; `nobreak` with spaces; otherwise the
/// documents are concatenated.
pub open spec fn combine_spec(
    table: Seq<SplitEntry>,
    docs: Seq<DocumentSpec>,
    hints: Option<PrettyHints>,
) -> DocumentSpec {
    let hard = DocumentSpec::Hardline;
    let join = |sep: DocumentSpec| DocumentSpec::Join(Box::new(sep), docs);
    match hints {
        None => DocumentSpec::Concat(docs),
        Some(h) => if h.off {
            DocumentSpec::Concat(docs)
        } else if h.split is Some {
            combine_with_split_spec(table, docs, h.split.unwrap()@, h)
        } else if h.sep is Some {
            let sep = h.sep.unwrap()@;
            if h.hardbreak || h.block {
                join(spec_add(DocumentSpec::Text(trim_end(sep)), hard))
            } else {
                join(separator_spec(sep, h.group))
            }
        } else if h.blankline {
            join(spec_add(hard, hard))
        } else if h.block || h.hardbreak {
            join(hard)
        } else if h.softbreak {
            join(DocumentSpec::Softline)
        } else if h.nobreak {
            join(DocumentSpec::Text(seq![' ']))
        } else if h.compact {
            DocumentSpec::Concat(docs)
        } else if h.fast {
            join(hard)
        } else {
            DocumentSpec::Concat(docs)
        },
    }
}

/// Whether a value is a span whose text is a closing bracket `)`, `}`, `]` or `>`.
pub open spec fn is_close_span(b: Seq<u8>, v: Value) -> bool {
    match v {
        Value::Span(s, e) => {
            let t = b.subrange(s as int, e as int);
            t == seq![0x29u8] || t == seq![0x7du8] || t == seq![0x5du8] || t == seq![0x3eu8]
        },
        _ => false,
    }
}

/// A line break that is taken only when the enclosing group breaks.
pub open spec fn break_line_spec() -> DocumentSpec {
    DocumentSpec::IfBreak(Box::new(DocumentSpec::Hardline), Box::new(DocumentSpec::Null))
}

/// The documents of the values that produce one, in order.
pub open spec fn docs_of(ir: GrammarIR, table: Seq<SplitEntry>, b: Seq<u8>, vs: Seq<Value>) -> Seq<
    DocumentSpec,
>
    decreases vs,
{
    if vs.len() == 0 {
        Seq::empty()
    } else {
        let rest = docs_of(ir, table, b, vs.drop_last());
        match doc_of(ir, table, b, vs.last()) {
            None => rest,
            Some(d) => rest.push(d),
        }
    }
}

/// Like `docs_of`, but an array of more than one item contributes the
/// documents of its items one by one.
pub open spec fn flat_docs_of(ir: GrammarIR, table: Seq<SplitEntry>, b: Seq<u8>, vs: Seq<Value>) -> Seq<
    DocumentSpec,
>
    decreases vs,
{
    if vs.len() == 0 {
        Seq::empty()
    } else {
        let rest = flat_docs_of(ir, table, b, vs.drop_last());
        match vs.last() {
            Value::Array(items) => if items.len() > 1 {
                rest + docs_of(ir, table, b, items@)
            } else {
                match doc_of(ir, table, b, vs.last()) {
                    None => rest,
                    Some(d) => rest.push(d),
                }
            },
            _ => match doc_of(ir, table, b, vs.last()) {
                None => rest,
                Some(d) => rest.push(d),
            },
        }
    }
}

/// The document of a rule match whose hints ask for `group` and `indent` and
/// whose last child is a closing bracket: the head, then the middle indented
/// after a break, then a break and the closing bracket, all in one group.
pub open spec fn bracketed_spec(docs: Seq<DocumentSpec>) -> DocumentSpec {
    let head = docs[0];
    let inner = docs.subrange(1, docs.len() - 1);
    let close = docs.last();
    let inner_doc = if inner.len() == 1 {
        inner[0]
    } else {
        DocumentSpec::Concat(inner)
    };
    DocumentSpec::Group(
        Box::new(
            spec_add(
                spec_add(
                    spec_add(
                        head,
                        DocumentSpec::Indent(Box::new(spec_add(break_line_spec(), inner_doc))),
                    ),
                    break_line_spec(),
                ),
                close,
            ),
        ),
    )
}

/// The document of a rule match.
pub open spec fn tagged_doc(
    ir: GrammarIR,
    table: Seq<SplitEntry>,
    b: Seq<u8>,
    span: (u32, u32),
    children: Seq<Value>,
    hints: Option<PrettyHints>,
    child_docs: Seq<DocumentSpec>,
    flat: Seq<DocumentSpec>,
) -> Option<DocumentSpec> {
    let span_text = span_str(b, span.0 as int, span.1 as int);
    if child_docs.len() == 0 || (has_gaps(b, span, children) && hints is None) {
        if span.0 == span.1 {
            None
        } else {
            Some(apply_hints_spec(DocumentSpec::Text(span_text), hints))
        }
    } else {
        let docs = if hints is Some {
            flat
        } else {
            child_docs
        };
        if hints is Some && hints.unwrap().group && hints.unwrap().indent && children.len() >= 2
            && docs.len() >= 2 && is_close_span(b, children.last()) {
            Some(bracketed_spec(docs))
        } else {
            let combined = if docs.len() == 1 {
                docs[0]
            } else {
                combine_spec(table, docs, hints)
            };
            Some(apply_hints_spec(combined, hints))
        }
    }
}

/// The document of a parse tree node: a span becomes its text (nothing when
/// empty); a rule match combines its children's documents by the rule's
/// hints, or falls back to its span text where the children leave out
/// non-space input and the rule has no hints; an array concatenates its
/// items' documents; `Nil` gives nothing.
pub open spec fn doc_of(ir: GrammarIR, table: Seq<SplitEntry>, b: Seq<u8>, v: Value) -> Option<
    DocumentSpec,
>
    decreases v,
{
    match v {
        Value::Nil => None,
        Value::Span(s, e) => if s == e {
            None
        } else {
            Some(DocumentSpec::Text(span_str(b, s as int, e as int)))
        },
        Value::Tagged { tag, span, children } => tagged_doc(
            ir,
            table,
            b,
            span,
            children@,
            rule_hints(ir, tag),
            docs_of(ir, table, b, children@),
            flat_docs_of(ir, table, b, children@),
        ),
        Value::Array(items) => {
            let docs = docs_of(ir, table, b, items@);
            if docs.len() == 0 {
                None
            } else if docs.len() == 1 {
                Some(docs[0])
            } else {
                Some(DocumentSpec::Concat(docs))
            }
        },
    }
}


/// A byte range of the input that starts and ends on character boundaries.
pub open spec fn span_ok(b: Seq<u8>, s: int, e: int) -> bool {
    0 <= s <= e <= b.len() && vstd::utf8::is_char_boundary(b, s) && vstd::utf8::is_char_boundary(b, e)
}

/// A parse tree that can be formatted against input bytes `b`: every span
/// lies on character boundaries of the input, and the children of a rule
/// match cover no input before its start or after its end.
pub open spec fn value_wf(b: Seq<u8>, v: Value) -> bool
    decreases v,
{
    match v {
        Value::Span(s, e) => span_ok(b, s as int, e as int),
        Value::Tagged { span, children, .. } => {
            &&& span_ok(b, span.0 as int, span.1 as int)
            &&& forall|i: int| 0 <= i < children.len() ==> value_wf(b, #[trigger] children@[i])
            &&& match children_range(children@) {
                None => true,
                Some((cs, ce)) => span.0 <= cs && ce <= span.1,
            }
        },
        Value::Array(items) => forall|i: int| 0 <= i < items.len() ==> value_wf(b, #[trigger] items@[i]),
        Value::Nil => true,
    }
}


/// The hints of the first rule with the given name.
fn find_hints(ir: &GrammarIR, tag: u32) -> (r: Option<&PrettyHints>)
    ensures
        match r {
            None => rule_hints(*ir, tag) is None,
            Some(h) => rule_hints(*ir, tag) == Some(*h),
        },
{
    let mut i: usize = 0;
    assert(ir.rules@.skip(0) =~= ir.rules@);
    while i < ir.rules.len()
        invariant
            i <= ir.rules.len(),
            find_rule(ir.rules@, tag) == find_rule(ir.rules@.skip(i as int), tag),
        decreases ir.rules.len() - i,
    {
        assert(ir.rules@.skip(i as int).drop_first() =~= ir.rules@.skip(i + 1));
        if ir.rules[i].name == tag {
            return match &ir.rules[i].pretty {
                None => None,
                Some(h) => Some(h),
            };
        }
        i = i + 1;
    }
    None
}

fn merge(a: Option<(u32, u32)>, b: Option<(u32, u32)>) -> (r: Option<(u32, u32)>)
    ensures
        r == merge_range(a, b),
{
    match (a, b) {
        (None, x) => x,
        (x, None) => x,
        (Some((s1, e1)), Some((s2, e2))) => Some(
            (if s1 <= s2 { s1 } else { s2 }, if e1 >= e2 { e1 } else { e2 }),
        ),
    }
}

fn value_range_of(v: &Value) -> (r: Option<(u32, u32)>)
    ensures
        r == value_range(*v),
    decreases v,
{
    match v {
        Value::Span(s, e) => Some((*s, *e)),
        Value::Tagged { span, .. } => Some(*span),
        Value::Array(items) => children_span_range(items),
        Value::Nil => None,
    }
}

/// The smallest byte range covering the given values, or `None` where none
/// covers any.
pub fn children_span_range(children: &Vec<Value>) -> (r: Option<(u32, u32)>)
    ensures
        r == children_range(children@),
    decreases children,
{
    let mut acc: Option<(u32, u32)> = None;
    let mut i: usize = 0;
    while i < children.len()
        invariant
            i <= children.len(),
            acc == children_range(children@.take(i as int)),
        decreases children.len() - i,
    {
        proof {
            assert(decreases_to!(children => children@[i as int]));
        }
        let r = value_range_of(&children[i]);
        acc = merge(acc, r);
        proof {
            assert(children@.take(i + 1).drop_last() =~= children@.take(i as int));
        }
        i = i + 1;
    }
    assert(children@.take(children.len() as int) =~= children@);
    acc
}

/// All the values of a wf list cover only input bytes.
proof fn lemma_children_range_in_input(b: Seq<u8>, vs: Seq<Value>)
    requires
        forall|i: int| 0 <= i < vs.len() ==> value_wf(b, #[trigger] vs[i]),
    ensures
        children_range(vs) matches Some((cs, ce)) ==> cs <= ce <= b.len(),
    decreases vs,
{
    if vs.len() > 0 {
        lemma_children_range_in_input(b, vs.drop_last());
        lemma_value_range_in_input(b, vs.last());
    }
}

proof fn lemma_value_range_in_input(b: Seq<u8>, v: Value)
    requires
        value_wf(b, v),
    ensures
        value_range(v) matches Some((cs, ce)) ==> cs <= ce <= b.len(),
    decreases v,
{
    if let Value::Array(items) = v {
        lemma_children_range_in_input(b, items@);
    }
}

fn all_ws_bytes(b: &[u8], s: usize, e: usize) -> (r: bool)
    requires
        s <= e <= b@.len(),
    ensures
        r == all_ws(b@, s as int, e as int),
{
    let mut i = s;
    while i < e
        invariant
            s <= i <= e <= b@.len(),
            all_ws(b@, s as int, i as int),
        decreases e - i,
    {
        let c = b[i];
        if !(c == 0x20 || c == 0x09 || c == 0x0a || c == 0x0c || c == 0x0d) {
            return false;
        }
        i = i + 1;
    }
    true
}

/// The text of the input bytes `[s, e)`.
fn span_text_of(input: &str, s: u32, e: u32) -> (r: String)
    requires
        span_ok(input.spec_bytes(), s as int, e as int),
    ensures
        r@ == span_str(input.spec_bytes(), s as int, e as int),
{
    let ghost b = input.spec_bytes();
    proof {
        vstd::utf8::encode_utf8_valid_utf8(input@);
    }
    let (left, _) = input.split_at(e as usize);
    proof {
        let l = b.subrange(0, e as int);
        assert(left.spec_bytes() =~= l);
        vstd::utf8::valid_utf8_split(b, e as int);
        if s < e {
            vstd::utf8::is_char_boundary_iff_not_is_continuation_byte(b, s as int);
            vstd::utf8::is_char_boundary_iff_not_is_continuation_byte(l, s as int);
            assert(l[s as int] == b[s as int]);
        } else {
            vstd::utf8::is_char_boundary_start_end_of_seq(l);
        }
    }
    let (_, mid) = left.split_at(s as usize);
    let r = mid.to_owned();
    proof {
        assert(mid.spec_bytes() =~= b.subrange(s as int, e as int));
        vstd::utf8::encode_utf8_decode_utf8(mid@);
    }
    r
}


/// The hints behind an optional reference.
pub open spec fn hints_of(h: Option<&PrettyHints>) -> Option<PrettyHints> {
    match h {
        None => None,
        Some(x) => Some(*x),
    }
}

/// Apply formatting hints (group, indent, dedent) to a doc.
pub fn apply_hints(doc: Document, hints: Option<&PrettyHints>) -> (r: Document)
    ensures
        r@ == apply_hints_spec(doc@, hints_of(hints)),
{
    let ghost d0 = doc@;
    match hints {
        None => {
            assert(apply_hints_spec(d0, hints_of(hints)) == d0);
            doc
        },
        Some(h) => {
            assert(hints_of(hints) == Some(*h));
            if h.off {
                return doc;
            }
            let d1 = if h.indent {
                Document::Indent(Box::new(doc))
            } else {
                doc
            };
            assert(d1@ == if h.indent { DocumentSpec::Indent(Box::new(d0)) } else { d0 });
            let d2 = if h.dedent {
                Document::Dedent(Box::new(d1))
            } else {
                d1
            };
            assert(d2@ == if h.dedent { DocumentSpec::Dedent(Box::new(d1@)) } else { d1@ });
            let d3 = if h.group {
                Document::Group(Box::new(d2))
            } else {
                d2
            };
            assert(d3@ == apply_hints_spec(d0, hints_of(hints)));
            d3
        },
    }
}

/// Build a separator doc from a `sep("...")` string.
pub fn build_separator(sep: &str, in_group: bool) -> (r: Document)
    ensures
        r@ == separator_spec(sep@, in_group),
{
    if in_group {
        let cs = chars_of(sep);
        let trimmed = trimmed_end_string(&cs, 0, cs.len());
        proof {
            assert(cs@.subrange(0, cs@.len() as int) =~= sep@);
        }
        Document::if_break(Document::Text(trimmed).add(Document::Hardline), Document::text(sep))
    } else {
        Document::text(sep)
    }
}

/// The table entry for a text and delimiter, if the table holds one.
fn find_split(table: &Vec<SplitEntry>, t: &String, d: u8) -> (r: Option<usize>)
    ensures
        match r {
            None => split_lookup(table@, t@, d) == seq![t@],
            Some(k) => k < table.len() && split_lookup(table@, t@, d) == table@[k as int].parts@.map_values(
                |p: String| p@,
            ),
        },
{
    let mut i: usize = 0;
    assert(table@.skip(0) =~= table@);
    while i < table.len()
        invariant
            i <= table.len(),
            split_lookup(table@, t@, d) == split_lookup(table@.skip(i as int), t@, d),
        decreases table.len() - i,
    {
        assert(table@.skip(i as int).drop_first() =~= table@.skip(i + 1));
        if table[i].delim == d && table[i].text == *t {
            return Some(i);
        }
        i = i + 1;
    }
    None
}

/// Appends the trimmed, non-empty pieces of `parts` to `out` as text documents.
fn push_trimmed_parts(out: &mut Vec<Document>, parts: &Vec<String>)
    ensures
        view_docs(final(out)@) == view_docs(old(out)@) + nonempty_trimmed(
            parts@.map_values(|p: String| p@),
        ),
{
    let ghost pv = parts@.map_values(|p: String| p@);
    let ghost start = view_docs(out@);
    let mut j: usize = 0;
    while j < parts.len()
        invariant
            j <= parts.len(),
            pv == parts@.map_values(|p: String| p@),
            view_docs(out@) == start + nonempty_trimmed(pv.take(j as int)),
        decreases parts.len() - j,
    {
        let cs = chars_of(parts[j].as_str());
        let piece = trimmed_string(&cs, 0, cs.len());
        proof {
            assert(cs@.subrange(0, cs@.len() as int) =~= pv[j as int]);
            assert(pv.take(j + 1).drop_last() =~= pv.take(j as int));
        }
        if !piece.as_str().is_empty() {
            let ghost before = out@;
            let d = Document::Text(piece);
            out.push(d);
            proof {
                lemma_view_docs_push(before, d);
            }
        }
        j = j + 1;
    }
    assert(pv.take(parts.len() as int) =~= pv);
}

/// Handle the `split("...")` directive: split text docs by the delimiter
/// (the pieces coming from `table`), then join with the separator.
pub fn combine_with_split(
    table: &Vec<SplitEntry>,
    docs: Vec<Document>,
    delim: &str,
    hints: &PrettyHints,
) -> (r: Document)
    ensures
        r@ == combine_with_split_spec(table@, view_docs(docs@), delim@, *hints),
{
    let db = delim.as_bytes();
    let delim_byte: u8 = if db.len() > 0 {
        db[0]
    } else {
        0x2c
    };
    let ghost dv = view_docs(docs@);
    proof {
        lemma_view_docs(docs@);
    }
    let mut all_parts: Vec<Document> = Vec::new();
    let mut i: usize = 0;
    while i < docs.len()
        invariant
            i <= docs.len(),
            dv == view_docs(docs@),
            dv.len() == docs@.len(),
            forall|k: int| 0 <= k < docs@.len() ==> #[trigger] dv[k] == docs@[k]@,
            delim_byte == split_delim(delim@),
            view_docs(all_parts@) == all_split_parts(table@, dv.take(i as int), delim_byte),
        decreases docs.len() - i,
    {
        proof {
            assert(dv.take(i + 1).drop_last() =~= dv.take(i as int));
            assert(dv.take(i + 1).last() == docs@[i as int]@);
        }
        match &docs[i] {
            Document::Text(t) => {
                match find_split(table, t, delim_byte) {
                    Some(k) => push_trimmed_parts(&mut all_parts, &table[k].parts),
                    None => {
                        let mut one: Vec<String> = Vec::new();
                        one.push(t.clone());
                        proof {
                            assert(one@.map_values(|p: String| p@) =~= seq![t@]);
                        }
                        push_trimmed_parts(&mut all_parts, &one);
                    },
                }
            },
            _ => {
                let ghost before = all_parts@;
                let c = copy_doc(&docs[i]);
                all_parts.push(c);
                proof {
                    lemma_view_docs_push(before, c);
                }
            },
        }
        i = i + 1;
    }
    proof {
        assert(dv.take(docs.len() as int) =~= dv);
    }
    if all_parts.len() == 0 {
        proof {
            lemma_view_docs(all_parts@);
        }
        return Document::Null;
    }
    proof {
        lemma_view_docs(all_parts@);
    }
    let sep = match &hints.sep {
        Some(s) => build_separator(s.as_str(), hints.group),
        None => {
            let mut d = delim.to_owned();
            crate::text::push_all(&mut d, " ");
            proof {
                reveal_strlit(" ");
                assert(" "@ =~= seq![' ']);
            }
            build_separator(d.as_str(), hints.group)
        },
    };
    Document::join(sep, all_parts)
}


/// Combine multiple child docs using the hints.
pub fn combine_docs(table: &Vec<SplitEntry>, docs: Vec<Document>, hints: Option<&PrettyHints>) -> (r: Document)
    ensures
        r@ == combine_spec(table@, view_docs(docs@), hints_of(hints)),
{
    let h = match hints {
        None => {
            return Document::Concat(docs);
        },
        Some(h) => h,
    };
    if h.off {
        return Document::Concat(docs);
    }
    if let Some(split_delim) = &h.split {
        return combine_with_split(table, docs, split_delim.as_str(), h);
    }
    if let Some(sep_str) = &h.sep {
        if h.hardbreak || h.block {
            let cs = chars_of(sep_str.as_str());
            let trimmed = trimmed_end_string(&cs, 0, cs.len());
            proof {
                assert(cs@.subrange(0, cs@.len() as int) =~= sep_str@);
            }
            let separator = Document::Text(trimmed).add(Document::Hardline);
            return Document::join(separator, docs);
        } else {
            let separator = build_separator(sep_str.as_str(), h.group);
            return Document::join(separator, docs);
        }
    }
    if h.blankline {
        return Document::join(Document::Hardline.add(Document::Hardline), docs);
    }
    if h.block {
        return Document::join(Document::Hardline, docs);
    }
    if h.hardbreak {
        return Document::join(Document::Hardline, docs);
    }
    if h.softbreak {
        return Document::join(Document::Softline, docs);
    }
    if h.nobreak {
        proof {
            reveal_strlit(" ");
            assert(" "@ =~= seq![' ']);
        }
        return Document::join(Document::text(" "), docs);
    }
    if h.compact {
        return Document::Concat(docs);
    }
    if h.fast {
        return Document::join(Document::Hardline, docs);
    }
    Document::Concat(docs)
}

pub open spec fn opt_view(r: Option<Document>) -> Option<DocumentSpec> {
    match r {
        None => None,
        Some(d) => Some(d@),
    }
}

fn break_line() -> (r: Document)
    ensures
        r@ == break_line_spec(),
{
    Document::if_break(Document::Hardline, Document::Null)
}

fn close_byte(c: u8) -> (r: bool)
    ensures
        r == (c == 0x29 || c == 0x7d || c == 0x5d || c == 0x3e),
{
    c == 0x29 || c == 0x7d || c == 0x5d || c == 0x3e
}

/// The documents of the values that produce one, in order.
fn docs_of_values(ir: &GrammarIR, table: &Vec<SplitEntry>, input: &str, bytes: &[u8], vs: &Vec<Value>) -> (r: Vec<Document>)
    requires
        bytes@ == input.spec_bytes(),
        forall|i: int| 0 <= i < vs.len() ==> value_wf(bytes@, #[trigger] vs@[i]),
    ensures
        view_docs(r@) == docs_of(*ir, table@, bytes@, vs@),
    decreases vs,
{
    let mut out: Vec<Document> = Vec::new();
    let mut i: usize = 0;
    while i < vs.len()
        invariant
            i <= vs.len(),
            bytes@ == input.spec_bytes(),
            forall|k: int| 0 <= k < vs.len() ==> value_wf(bytes@, #[trigger] vs@[k]),
            view_docs(out@) == docs_of(*ir, table@, bytes@, vs@.take(i as int)),
        decreases vs.len() - i,
    {
        proof {
            assert(decreases_to!(vs => vs@[i as int]));
            assert(vs@.take(i + 1).drop_last() =~= vs@.take(i as int));
        }
        let d = value_doc_at(ir, table, input, bytes, &vs[i]);
        match d {
            None => {},
            Some(d) => {
                let ghost before = out@;
                out.push(d);
                proof {
                    lemma_view_docs_push(before, d);
                }
            },
        }
        i = i + 1;
    }
    assert(vs@.take(vs.len() as int) =~= vs@);
    out
}

/// Like `docs_of_values`, with arrays of several items spread into their items' documents.
fn flat_docs_of_values(ir: &GrammarIR, table: &Vec<SplitEntry>, input: &str, bytes: &[u8], vs: &Vec<Value>) -> (r: Vec<Document>)
    requires
        bytes@ == input.spec_bytes(),
        forall|i: int| 0 <= i < vs.len() ==> value_wf(bytes@, #[trigger] vs@[i]),
    ensures
        view_docs(r@) == flat_docs_of(*ir, table@, bytes@, vs@),
    decreases vs,
{
    let mut out: Vec<Document> = Vec::new();
    let mut i: usize = 0;
    while i < vs.len()
        invariant
            i <= vs.len(),
            bytes@ == input.spec_bytes(),
            forall|k: int| 0 <= k < vs.len() ==> value_wf(bytes@, #[trigger] vs@[k]),
            view_docs(out@) == flat_docs_of(*ir, table@, bytes@, vs@.take(i as int)),
        decreases vs.len() - i,
    {
        proof {
            assert(decreases_to!(vs => vs@[i as int]));
            assert(vs@.take(i + 1).drop_last() =~= vs@.take(i as int));
            assert(vs@.take(i + 1).last() == vs@[i as int]);
        }
        let child = &vs[i];
        let spread = match child {
            Value::Array(items) => items.len() > 1,
            _ => false,
        };
        if spread {
            match child {
                Value::Array(items) => {
                    proof {
                        assert(decreases_to!(vs => items));
                    }
                    let mut ds = docs_of_values(ir, table, input, bytes, items);
                    let ghost before = out@;
                    let ghost dsv = ds@;
                    out.append(&mut ds);
                    proof {
                        lemma_view_docs_add(before, dsv);
                    }
                },
                _ => {},
            }
        } else {
            match value_doc_at(ir, table, input, bytes, child) {
                None => {},
                Some(d) => {
                    let ghost before = out@;
                    out.push(d);
                    proof {
                        lemma_view_docs_push(before, d);
                    }
                },
            }
        }
        i = i + 1;
    }
    assert(vs@.take(vs.len() as int) =~= vs@);
    out
}

/// Convert a parse tree node into a document, consulting the rules' hints.
pub fn value_to_doc(ir: &GrammarIR, table: &Vec<SplitEntry>, input: &str, v: &Value) -> (r: Option<Document>)
    requires
        value_wf(input.spec_bytes(), *v),
    ensures
        opt_view(r) == doc_of(*ir, table@, input.spec_bytes(), *v),
{
    value_doc_at(ir, table, input, input.as_bytes(), v)
}

/// `value_to_doc`, with the bytes of the input at hand.
fn value_doc_at(ir: &GrammarIR, table: &Vec<SplitEntry>, input: &str, bytes: &[u8], v: &Value) -> (r: Option<Document>)
    requires
        bytes@ == input.spec_bytes(),
        value_wf(bytes@, *v),
    ensures
        opt_view(r) == doc_of(*ir, table@, bytes@, *v),
    decreases v,
{
    match v {
        Value::Nil => None,
        Value::Span(s, e) => {
            if *s == *e {
                None
            } else {
                Some(Document::Text(span_text_of(input, *s, *e)))
            }
        },
        Value::Array(items) => {
            let mut docs = docs_of_values(ir, table, input, bytes, items);
            proof {
                lemma_view_docs(docs@);
            }
            if docs.len() == 0 {
                None
            } else if docs.len() == 1 {
                docs.pop()
            } else {
                Some(Document::Concat(docs))
            }
        },
        Value::Tagged { tag, span, children } => {
            let hints = find_hints(ir, *tag);
            let child_docs = docs_of_values(ir, table, input, bytes, children);
            let range = children_span_range(children);
            proof {
                lemma_children_range_in_input(bytes@, children@);
                lemma_view_docs(child_docs@);
            }
            let gaps = match range {
                None => true,
                Some((cs, ce)) => !all_ws_bytes(bytes, span.0 as usize, cs as usize) || !all_ws_bytes(
                    bytes,
                    ce as usize,
                    span.1 as usize,
                ),
            };
            if child_docs.len() == 0 || (gaps && hints.is_none()) {
                if span.0 == span.1 {
                    return None;
                }
                let t = span_text_of(input, span.0, span.1);
                return Some(apply_hints(Document::Text(t), hints));
            }
            let mut docs = if hints.is_some() {
                flat_docs_of_values(ir, table, input, bytes, children)
            } else {
                child_docs
            };
            let ghost dv = view_docs(docs@);
            proof {
                lemma_view_docs(docs@);
            }
            if let Some(h) = hints {
                if h.group && h.indent && children.len() >= 2 && docs.len() >= 2 {
                    let last_is_close = match &children[children.len() - 1] {
                        Value::Span(s, e) => {
                            proof {
                                assert(value_wf(bytes@, children@[children.len() - 1]));
                            }
                            if *e - *s == 1 {
                                let c = bytes[*s as usize];
                                proof {
                                    let t = bytes@.subrange(*s as int, *e as int);
                                    assert(t =~= seq![c]);
                                    assert(t == seq![0x29u8] <==> c == 0x29) by {
                                        if c == 0x29 {
                                            assert(t =~= seq![0x29u8]);
                                        } else {
                                            assert(seq![0x29u8][0] == 0x29u8);
                                        }
                                    }
                                    assert(t == seq![0x7du8] <==> c == 0x7d) by {
                                        if c == 0x7d {
                                            assert(t =~= seq![0x7du8]);
                                        } else {
                                            assert(seq![0x7du8][0] == 0x7du8);
                                        }
                                    }
                                    assert(t == seq![0x5du8] <==> c == 0x5d) by {
                                        if c == 0x5d {
                                            assert(t =~= seq![0x5du8]);
                                        } else {
                                            assert(seq![0x5du8][0] == 0x5du8);
                                        }
                                    }
                                    assert(t == seq![0x3eu8] <==> c == 0x3e) by {
                                        if c == 0x3e {
                                            assert(t =~= seq![0x3eu8]);
                                        } else {
                                            assert(seq![0x3eu8][0] == 0x3eu8);
                                        }
                                    }
                                }
                                close_byte(c)
                            } else {
                                proof {
                                    assert(bytes@.subrange(*s as int, *e as int).len() != 1);
                                }
                                false
                            }
                        },
                        _ => false,
                    };
                    if last_is_close {
                        let ghost full = docs@;
                        let ghost n = docs.len();
                        let close = docs.pop().unwrap();
                        let head = docs.remove(0);
                        proof {
                            assert(docs@ =~= full.subrange(1, n - 1));
                            lemma_view_docs_subrange(full, 1, n - 1);
                            lemma_view_docs(docs@);
                        }
                        let inner_doc = if docs.len() == 1 {
                            docs.pop().unwrap()
                        } else {
                            Document::Concat(docs)
                        };
                        let body = break_line().add(inner_doc);
                        let r = head.add(body.indent()).add(break_line()).add(close).group();
                        return Some(r);
                    }
                }
            }
            let combined = if docs.len() == 1 {
                docs.pop().unwrap()
            } else {
                combine_docs(table, docs, hints)
            };
            Some(apply_hints(combined, hints))
        },
    }
}


fn span_fits(input: &str, s: u32, e: u32) -> (r: bool)
    ensures
        r == span_ok(input.spec_bytes(), s as int, e as int),
{
    if s > e || (e as usize) > input.as_bytes().len() {
        return false;
    }
    let a = input.is_char_boundary(s as usize);
    let b = input.is_char_boundary(e as usize);
    a && b
}

fn all_fit(input: &str, vs: &Vec<Value>) -> (r: bool)
    ensures
        r == (forall|i: int| 0 <= i < vs.len() ==> value_wf(input.spec_bytes(), #[trigger] vs@[i])),
    decreases vs,
{
    let mut i: usize = 0;
    while i < vs.len()
        invariant
            i <= vs.len(),
            forall|k: int| 0 <= k < i ==> value_wf(input.spec_bytes(), #[trigger] vs@[k]),
        decreases vs.len() - i,
    {
        proof {
            assert(decreases_to!(vs => vs@[i as int]));
        }
        if !value_fits(input, &vs[i]) {
            return false;
        }
        i = i + 1;
    }
    true
}

/// Whether a parse tree can be formatted against `input`: every span lies on
/// character boundaries of the input, and no rule match has children that
/// cover input outside its own span.
pub fn value_fits(input: &str, v: &Value) -> (r: bool)
    ensures
        r == value_wf(input.spec_bytes(), *v),
    decreases v,
{
    match v {
        Value::Nil => true,
        Value::Span(s, e) => span_fits(input, *s, *e),
        Value::Array(items) => all_fit(input, items),
        Value::Tagged { span, children, .. } => {
            if !span_fits(input, span.0, span.1) || !all_fit(input, children) {
                return false;
            }
            match children_span_range(children) {
                None => true,
                Some((cs, ce)) => span.0 <= cs && ce <= span.1,
            }
        },
    }
}

/// The texts of all the spans and rule matches of a tree, in preorder: the
/// texts that a `split("...")` hint may divide.
pub open spec fn node_texts(b: Seq<u8>, v: Value) -> Seq<Seq<char>>
    decreases v,
{
    match v {
        Value::Nil => Seq::empty(),
        Value::Span(s, e) => seq![span_str(b, s as int, e as int)],
        Value::Tagged { span, children, .. } => seq![span_str(b, span.0 as int, span.1 as int)]
            + nodes_texts(b, children@),
        Value::Array(items) => nodes_texts(b, items@),
    }
}

pub open spec fn nodes_texts(b: Seq<u8>, vs: Seq<Value>) -> Seq<Seq<char>>
    decreases vs,
{
    if vs.len() == 0 {
        Seq::empty()
    } else {
        nodes_texts(b, vs.drop_last()) + node_texts(b, vs.last())
    }
}

/// The delimiter bytes of the rules' `split("...")` hints, in rule order.
pub open spec fn split_delims(rules: Seq<IrRule>) -> Seq<u8>
    decreases rules.len(),
{
    if rules.len() == 0 {
        Seq::empty()
    } else {
        let rest = split_delims(rules.drop_last());
        match rules.last().pretty {
            Some(h) => match h.split {
                Some(d) => rest.push(split_delim(d@)),
                None => rest,
            },
            None => rest,
        }
    }
}

fn push_node_texts(out: &mut Vec<String>, input: &str, v: &Value)
    requires
        value_wf(input.spec_bytes(), *v),
    ensures
        final(out)@.map_values(|t: String| t@) == old(out)@.map_values(|t: String| t@) + node_texts(
            input.spec_bytes(),
            *v,
        ),
    decreases v,
{
    let ghost b = input.spec_bytes();
    match v {
        Value::Nil => {
            assert(out@.map_values(|t: String| t@) =~= out@.map_values(|t: String| t@) + Seq::<
                Seq<char>,
            >::empty());
        },
        Value::Span(st, e) => {
            let t = span_text_of(input, *st, *e);
            out.push(t);
            assert(out@.map_values(|t: String| t@) =~= old(out)@.map_values(|t: String| t@) + node_texts(b, *v));
        },
        Value::Tagged { span, children, .. } => {
            let t = span_text_of(input, span.0, span.1);
            out.push(t);
            let ghost mid = out@.map_values(|t: String| t@);
            assert(mid =~= old(out)@.map_values(|t: String| t@) + seq![t@]);
            push_nodes_texts(out, input, children);
            assert(out@.map_values(|t: String| t@) =~= old(out)@.map_values(|t: String| t@) + node_texts(b, *v));
        },
        Value::Array(items) => {
            push_nodes_texts(out, input, items);
        },
    }
}

fn push_nodes_texts(out: &mut Vec<String>, input: &str, vs: &Vec<Value>)
    requires
        forall|i: int| 0 <= i < vs.len() ==> value_wf(input.spec_bytes(), #[trigger] vs@[i]),
    ensures
        final(out)@.map_values(|t: String| t@) == old(out)@.map_values(|t: String| t@) + nodes_texts(
            input.spec_bytes(),
            vs@,
        ),
    decreases vs,
{
    let ghost b = input.spec_bytes();
    let ghost start = out@.map_values(|t: String| t@);
    let mut i: usize = 0;
    assert(start =~= start + nodes_texts(b, vs@.take(0)));
    while i < vs.len()
        invariant
            i <= vs.len(),
            forall|k: int| 0 <= k < vs.len() ==> value_wf(input.spec_bytes(), #[trigger] vs@[k]),
            b == input.spec_bytes(),
            out@.map_values(|t: String| t@) == start + nodes_texts(b, vs@.take(i as int)),
        decreases vs.len() - i,
    {
        proof {
            assert(decreases_to!(vs => vs@[i as int]));
            assert(vs@.take(i + 1).drop_last() =~= vs@.take(i as int));
        }
        push_node_texts(out, input, &vs[i]);
        proof {
            assert(start + nodes_texts(b, vs@.take(i + 1)) =~= start + nodes_texts(b, vs@.take(i as int))
                + node_texts(b, vs@[i as int]));
        }
        i = i + 1;
    }
    assert(vs@.take(vs.len() as int) =~= vs@);
}

/// The texts of all the spans and rule matches of a tree, in preorder.
pub fn split_texts(value: &Value, input: &str) -> (r: Vec<String>)
    requires
        value_wf(input.spec_bytes(), *value),
    ensures
        r@.map_values(|t: String| t@) == node_texts(input.spec_bytes(), *value),
{
    let mut out: Vec<String> = Vec::new();
    assert(out@.map_values(|t: String| t@) =~= Seq::<Seq<char>>::empty());
    push_node_texts(&mut out, input, value);
    assert(out@.map_values(|t: String| t@) =~= node_texts(input.spec_bytes(), *value));
    out
}

/// A row of a split table as plain values: the text, the delimiter, the parts.
pub open spec fn entry_view(e: SplitEntry) -> (Seq<char>, u8, Seq<Seq<char>>) {
    (e.text@, e.delim, e.parts@.map_values(|p: String| p@))
}

/// The rows for one text: for each delimiter, in order, the text's balanced
/// split at it.
pub open spec fn split_rows(t: Seq<char>, delims: Seq<u8>) -> Seq<(Seq<char>, u8, Seq<Seq<char>>)> {
    delims.map_values(|d: u8| (t, d, spec_split_balanced(t, d)))
}

/// The split table of the texts: their rows, text after text.
pub open spec fn split_table_spec(texts: Seq<Seq<char>>, delims: Seq<u8>) -> Seq<(Seq<char>, u8, Seq<Seq<char>>)>
    decreases texts.len(),
{
    if texts.len() == 0 {
        Seq::empty()
    } else {
        split_table_spec(texts.drop_last(), delims) + split_rows(texts.last(), delims)
    }
}

/// The table that `split("...")` hints read: for every span and rule match
/// of the tree and every delimiter of the grammar's hints, the balanced split
/// of the text at the delimiter (see `split_balanced`).
pub fn split_table(ir: &GrammarIR, value: &Value, input: &str) -> (r: Vec<SplitEntry>)
    requires
        value_wf(input.spec_bytes(), *value),
    ensures
        r@.map_values(|e: SplitEntry| entry_view(e)) == split_table_spec(
            node_texts(input.spec_bytes(), *value),
            split_delims(ir.rules@),
        ),
        forall|k: int|
            0 <= k < r@.len() ==> (#[trigger] r@[k]).parts@.map_values(|p: String| p@) == spec_split_balanced(
                r@[k].text@,
                r@[k].delim,
            ),
{
    let texts = split_texts(value, input);
    let delims = split_delimiters(ir);
    let ghost tv = texts@.map_values(|t: String| t@);
    let mut out: Vec<SplitEntry> = Vec::new();
    let mut i: usize = 0;
    while i < texts.len()
        invariant
            i <= texts.len(),
            tv == texts@.map_values(|t: String| t@),
            out@.map_values(|e: SplitEntry| entry_view(e)) == split_table_spec(tv.take(i as int), delims@),
            forall|k: int|
                0 <= k < out@.len() ==> (#[trigger] out@[k]).parts@.map_values(|p: String| p@)
                    == spec_split_balanced(out@[k].text@, out@[k].delim),
        decreases texts.len() - i,
    {
        let ghost before = out@.map_values(|e: SplitEntry| entry_view(e));
        let mut j: usize = 0;
        while j < delims.len()
            invariant
                i < texts.len(),
                j <= delims.len(),
                tv == texts@.map_values(|t: String| t@),
                out@.map_values(|e: SplitEntry| entry_view(e)) == before + split_rows(tv[i as int], delims@.take(j as int)),
                forall|k: int|
                    0 <= k < out@.len() ==> (#[trigger] out@[k]).parts@.map_values(|p: String| p@)
                        == spec_split_balanced(out@[k].text@, out@[k].delim),
            decreases delims.len() - j,
        {
            let d = delims[j];
            let parts = split_balanced(texts[i].as_str(), d);
            let e = SplitEntry { text: texts[i].clone(), delim: d, parts };
            let ghost old_out = out@;
            out.push(e);
            proof {
                assert(e.text@ == tv[i as int]);
                assert(out@.map_values(|e: SplitEntry| entry_view(e)) =~= old_out.map_values(
                    |e: SplitEntry| entry_view(e),
                ).push(entry_view(e)));
                assert(split_rows(tv[i as int], delims@.take(j + 1)) =~= split_rows(
                    tv[i as int],
                    delims@.take(j as int),
                ).push(entry_view(e)));
                assert forall|k: int| 0 <= k < out@.len() implies (#[trigger] out@[k]).parts@.map_values(
                    |p: String| p@,
                ) == spec_split_balanced(out@[k].text@, out@[k].delim) by {
                    if k < old_out.len() {
                        assert(out@[k] == old_out[k]);
                    }
                }
            }
            j = j + 1;
        }
        proof {
            assert(delims@.take(delims@.len() as int) =~= delims@);
            let t2 = tv.take(i + 1);
            assert(t2.drop_last() =~= tv.take(i as int));
            assert(t2.last() == tv[i as int]);
        }
        i = i + 1;
    }
    proof {
        assert(tv.take(texts.len() as int) =~= tv);
    }
    out
}

/// The delimiter bytes of the rules' `split("...")` hints, in rule order.
pub fn split_delimiters(ir: &GrammarIR) -> (r: Vec<u8>)
    ensures
        r@ == split_delims(ir.rules@),
{
    let mut out: Vec<u8> = Vec::new();
    let mut i: usize = 0;
    while i < ir.rules.len()
        invariant
            i <= ir.rules.len(),
            out@ == split_delims(ir.rules@.take(i as int)),
        decreases ir.rules.len() - i,
    {
        proof {
            assert(ir.rules@.take(i + 1).drop_last() =~= ir.rules@.take(i as int));
        }
        match &ir.rules[i].pretty {
            Some(h) => match &h.split {
                Some(d) => {
                    let db = d.as_str().as_bytes();
                    let c: u8 = if db.len() > 0 {
                        db[0]
                    } else {
                        0x2c
                    };
                    out.push(c);
                },
                None => {},
            },
            None => {},
        }
        i = i + 1;
    }
    assert(ir.rules@.take(ir.rules.len() as int) =~= ir.rules@);
    out
}

/// Format a parse result using the grammar's `@pretty` hints: `None` where
/// the tree gives no document (`Nil`, or nothing but empty spans), else the
/// rendered document. `splits` holds the balanced splits of the texts that
/// the `split("...")` hints divide.
pub fn format_value(
    ir: &GrammarIR,
    value: &Value,
    input: &str,
    printer: PrinterConfig,
    splits: &Vec<SplitEntry>,
) -> (r: Option<String>)
    requires
        value_wf(input.spec_bytes(), *value),
        doc_of(*ir, splits@, input.spec_bytes(), *value) matches Some(d) ==> printable(d, printer.max_width, printer.indent),
    ensures
        match doc_of(*ir, splits@, input.spec_bytes(), *value) {
            None => r is None,
            Some(d) => r matches Some(out) && out@ == rendered(
                d,
                printer.max_width,
                printer.indent,
                printer.use_tabs,
            ),
        },
{
    let doc = value_to_doc(ir, splits, input, value)?;
    Some(render(&doc, &printer))
}

/// Format a parse result with a `PrinterConfig` (the same as `format_value`).
pub fn format_ir(
    ir: &GrammarIR,
    value: &Value,
    input: &str,
    config: &PrinterConfig,
    splits: &Vec<SplitEntry>,
) -> (r: Option<String>)
    requires
        value_wf(input.spec_bytes(), *value),
        doc_of(*ir, splits@, input.spec_bytes(), *value) matches Some(d) ==> printable(d, config.max_width, config.indent),
    ensures
        match doc_of(*ir, splits@, input.spec_bytes(), *value) {
            None => r is None,
            Some(d) => r matches Some(out) && out@ == rendered(
                d,
                config.max_width,
                config.indent,
                config.use_tabs,
            ),
        },
{
    let printer = PrinterConfig { max_width: config.max_width, indent: config.indent, use_tabs: config.use_tabs };
    format_value(ir, value, input, printer, splits)
}


/// Under `hardbreak` or `block` (with no `off`, `split`, `sep` or `blankline`
/// deciding first), the children of a node are joined by hard line breaks:
/// even laid out on one line, every child after the first starts a new line.
/// Under `blankline` an empty line stands between each two children.
pub proof fn lemma_line_break_hints(table: Seq<SplitEntry>, docs: Seq<DocumentSpec>, h: PrettyHints)
    requires
        !h.off,
        h.split is None,
        h.sep is None,
    ensures
        !h.blankline && (h.hardbreak || h.block) ==> combine_spec(table, docs, Some(h)) == DocumentSpec::Join(
            Box::new(DocumentSpec::Hardline),
            docs,
        ) && flat_text(combine_spec(table, docs, Some(h))) == flat_join(seq!['\n'], docs),
        h.blankline ==> flat_text(combine_spec(table, docs, Some(h))) == flat_join(seq!['\n', '\n'], docs),
{
    if h.blankline {
        let hh = spec_add(DocumentSpec::Hardline, DocumentSpec::Hardline);
        assert(hh == DocumentSpec::Concat(seq![DocumentSpec::Hardline, DocumentSpec::Hardline]));
        crate::doc::lemma_flat_add(DocumentSpec::Hardline, DocumentSpec::Hardline);
        assert(flat_text(hh) =~= seq!['\n', '\n']);
    } else if h.hardbreak || h.block {
        let j = DocumentSpec::Join(Box::new(DocumentSpec::Hardline), docs);
        assert(combine_spec(table, docs, Some(h)) == j);
        assert(flat_text(DocumentSpec::Hardline) == seq!['\n']);
        assert(flat_text(j) == flat_join(seq!['\n'], docs));
    }
}

} // verus!
