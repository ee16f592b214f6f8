use vstd::prelude::*;

use crate::config::PrinterConfig;
use pprint::Doc as PDoc;

verus! {

/// A layout document, the intermediate form between a parse tree and the
/// rendered text.
pub enum Document {
    /// Renders as nothing.
    Null,
    /// Literal text.
    Text(String),
    /// The parts one after another.
    Concat(Vec<Document>),
    /// Laid out flat if it fits the line, broken otherwise.
    Group(Box<Document>),
    /// One more indentation level for the lines inside.
    Indent(Box<Document>),
    /// One indentation level less for the lines inside.
    Dedent(Box<Document>),
    /// The items with the separator between each two of them.
    Join(Box<Document>, Vec<Document>),
    /// Like `Join`, but fills lines and breaks only where needed.
    SmartJoin(Box<Document>, Vec<Document>),
    /// The first document when the enclosing group breaks, the second otherwise.
    IfBreak(Box<Document>, Box<Document>),
    /// A line break that is always taken.
    Hardline,
    /// A line break in a broken group, nothing in a flat one.
    Softline,
}

/// The mathematical content of a `Document`: the same tree with text as characters.
pub enum DocumentSpec {
    Null,
    Text(Seq<char>),
    Concat(Seq<DocumentSpec>),
    Group(Box<DocumentSpec>),
    Indent(Box<DocumentSpec>),
    Dedent(Box<DocumentSpec>),
    Join(Box<DocumentSpec>, Seq<DocumentSpec>),
    SmartJoin(Box<DocumentSpec>, Seq<DocumentSpec>),
    IfBreak(Box<DocumentSpec>, Box<DocumentSpec>),
    Hardline,
    Softline,
}

pub open spec fn view_doc(d: Document) -> DocumentSpec
    decreases d,
{
    match d {
        Document::Null => DocumentSpec::Null,
        Document::Text(s) => DocumentSpec::Text(s@),
        Document::Concat(v) => DocumentSpec::Concat(view_docs(v@)),
        Document::Group(b) => DocumentSpec::Group(Box::new(view_doc(*b))),
        Document::Indent(b) => DocumentSpec::Indent(Box::new(view_doc(*b))),
        Document::Dedent(b) => DocumentSpec::Dedent(Box::new(view_doc(*b))),
        Document::Join(sep, v) => DocumentSpec::Join(Box::new(view_doc(*sep)), view_docs(v@)),
        Document::SmartJoin(sep, v) => DocumentSpec::SmartJoin(Box::new(view_doc(*sep)), view_docs(v@)),
        Document::IfBreak(a, b) => DocumentSpec::IfBreak(Box::new(view_doc(*a)), Box::new(view_doc(*b))),
        Document::Hardline => DocumentSpec::Hardline,
        Document::Softline => DocumentSpec::Softline,
    }
}

pub open spec fn view_docs(s: Seq<Document>) -> Seq<DocumentSpec>
    decreases s,
{
    if s.len() == 0 {
        Seq::empty()
    } else {
        view_docs(s.drop_last()).push(view_doc(s.last()))
    }
}

impl View for Document {
    type V = DocumentSpec;

    open spec fn view(&self) -> DocumentSpec {
        view_doc(*self)
    }
}


/// `view_docs` maps each document to its view, keeping length and order.
pub proof fn lemma_view_docs(s: Seq<Document>)
    ensures
        view_docs(s).len() == s.len(),
        forall|i: int| 0 <= i < s.len() ==> #[trigger] view_docs(s)[i] == view_doc(s[i]),
    decreases s.len(),
{
    if s.len() > 0 {
        lemma_view_docs(s.drop_last());
    }
}

/// The view of a concatenation is the concatenation of the views.
pub proof fn lemma_view_docs_add(a: Seq<Document>, b: Seq<Document>)
    ensures
        view_docs(a + b) == view_docs(a) + view_docs(b),
{
    lemma_view_docs(a);
    lemma_view_docs(b);
    lemma_view_docs(a + b);
    assert(view_docs(a + b) =~= view_docs(a) + view_docs(b));
}

/// The view of a part of a sequence is that part of the view.
pub proof fn lemma_view_docs_subrange(s: Seq<Document>, a: int, b: int)
    requires
        0 <= a <= b <= s.len(),
    ensures
        view_docs(s.subrange(a, b)) == view_docs(s).subrange(a, b),
{
    lemma_view_docs(s);
    lemma_view_docs(s.subrange(a, b));
    assert(view_docs(s.subrange(a, b)) =~= view_docs(s).subrange(a, b));
}

/// The view of a sequence with one more document at the end.
pub proof fn lemma_view_docs_push(a: Seq<Document>, d: Document)
    ensures
        view_docs(a.push(d)) == view_docs(a).push(view_doc(d)),
{
    assert(a.push(d).drop_last() =~= a);
}

/// What `a + b` on documents yields: a `Null` operand disappears, a
/// concatenation on either side absorbs the other operand, and two other
/// documents become a concatenation of both.
pub open spec fn spec_add(a: DocumentSpec, b: DocumentSpec) -> DocumentSpec {
    match (a, b) {
        (DocumentSpec::Null, o) => o,
        (s, DocumentSpec::Null) => s,
        (DocumentSpec::Concat(ds), o) => DocumentSpec::Concat(ds.push(o)),
        (s, DocumentSpec::Concat(ds)) => DocumentSpec::Concat(seq![s] + ds),
        (s, o) => DocumentSpec::Concat(seq![s, o]),
    }
}

/// The empty document is neutral: appending it on either side of a document
/// leaves that document as it was.
pub proof fn lemma_add_null(d: DocumentSpec)
    ensures
        spec_add(DocumentSpec::Null, d) == d,
        spec_add(d, DocumentSpec::Null) == d,
{
}

/// The text of a document laid out on one line: every group stays flat, so an
/// `IfBreak` shows its second document and a soft line break shows nothing.
pub open spec fn flat_text(d: DocumentSpec) -> Seq<char>
    decreases d,
{
    match d {
        DocumentSpec::Null => Seq::empty(),
        DocumentSpec::Text(t) => t,
        DocumentSpec::Concat(ds) => flat_seq(ds),
        DocumentSpec::Group(b) => flat_text(*b),
        DocumentSpec::Indent(b) => flat_text(*b),
        DocumentSpec::Dedent(b) => flat_text(*b),
        DocumentSpec::Join(sep, ds) => flat_join(flat_text(*sep), ds),
        DocumentSpec::SmartJoin(sep, ds) => flat_join(flat_text(*sep), ds),
        DocumentSpec::IfBreak(_, b) => flat_text(*b),
        DocumentSpec::Hardline => seq!['\n'],
        DocumentSpec::Softline => Seq::empty(),
    }
}

/// The flat texts of the documents, one after another.
pub open spec fn flat_seq(ds: Seq<DocumentSpec>) -> Seq<char>
    decreases ds,
{
    if ds.len() == 0 {
        Seq::empty()
    } else {
        flat_seq(ds.subrange(0, ds.len() - 1)) + flat_text(ds[ds.len() - 1])
    }
}

/// The flat texts of the documents with `sep` between each two of them.
pub open spec fn flat_join(sep: Seq<char>, ds: Seq<DocumentSpec>) -> Seq<char>
    decreases ds,
{
    if ds.len() == 0 {
        Seq::empty()
    } else if ds.len() == 1 {
        flat_text(ds[0])
    } else {
        flat_join(sep, ds.subrange(0, ds.len() - 1)) + sep + flat_text(ds[ds.len() - 1])
    }
}

proof fn lemma_flat_seq_single(d: DocumentSpec)
    ensures
        flat_seq(seq![d]) == flat_text(d),
{
    let one = seq![d];
    assert(one.subrange(0, 0) =~= Seq::<DocumentSpec>::empty());
    assert(flat_seq(Seq::<DocumentSpec>::empty()) == Seq::<char>::empty());
    assert(one[0] == d);
    assert(flat_seq(one) =~= flat_text(d));
}

proof fn lemma_flat_seq_cons(d: DocumentSpec, ds: Seq<DocumentSpec>)
    ensures
        flat_seq(seq![d] + ds) == flat_text(d) + flat_seq(ds),
    decreases ds.len(),
{
    let all = seq![d] + ds;
    if ds.len() == 0 {
        lemma_flat_seq_single(d);
        assert(all =~= seq![d]);
        assert(flat_seq(ds) == Seq::<char>::empty());
        assert(flat_seq(all) =~= flat_text(d) + flat_seq(ds));
    } else {
        let init = ds.subrange(0, ds.len() - 1);
        lemma_flat_seq_cons(d, init);
        assert(all.subrange(0, all.len() - 1) =~= seq![d] + init);
        assert(all[all.len() - 1] == ds[ds.len() - 1]);
        assert(flat_seq(all) =~= flat_text(d) + flat_seq(ds));
    }
}

/// Laid out flat, the concatenation of two documents reads as the first one
/// followed by the second.
pub proof fn lemma_flat_add(a: DocumentSpec, b: DocumentSpec)
    ensures
        flat_text(spec_add(a, b)) == flat_text(a) + flat_text(b),
{
    match (a, b) {
        (DocumentSpec::Null, o) => {
            assert(flat_text(a) + flat_text(b) =~= flat_text(b));
        },
        (x, DocumentSpec::Null) => {
            assert(flat_text(a) + flat_text(b) =~= flat_text(a));
        },
        (DocumentSpec::Concat(ds), o) => {
            let all = ds.push(o);
            assert(all.subrange(0, all.len() - 1) =~= ds);
            assert(all[all.len() - 1] == o);
            assert(spec_add(a, b) == DocumentSpec::Concat(all));
            assert(flat_seq(all) == flat_seq(ds) + flat_text(o));
        },
        (x, DocumentSpec::Concat(ds)) => {
            lemma_flat_seq_cons(x, ds);
            assert(spec_add(a, b) == DocumentSpec::Concat(seq![x] + ds));
        },
        (x, o) => {
            let all = seq![x, o];
            assert(all.subrange(0, 1) =~= seq![x]);
            lemma_flat_seq_single(x);
            assert(all[1] == o);
            assert(spec_add(a, b) == DocumentSpec::Concat(all));
            assert(flat_seq(all) == flat_seq(seq![x]) + flat_text(o));
        },
    }
}

/// The flat text of a list of at least two documents joined by `sep`: the
/// first one, `sep`, and the rest joined.
pub proof fn lemma_flat_join_cons(sep: Seq<char>, d: DocumentSpec, ds: Seq<DocumentSpec>)
    ensures
        ds.len() == 0 ==> flat_join(sep, seq![d] + ds) == flat_text(d),
        ds.len() > 0 ==> flat_join(sep, seq![d] + ds) == flat_text(d) + sep + flat_join(sep, ds),
    decreases ds.len(),
{
    let all = seq![d] + ds;
    if ds.len() == 0 {
        assert(all =~= seq![d]);
    } else if ds.len() == 1 {
        assert(all.subrange(0, 1) =~= seq![d]);
        assert(flat_join(sep, seq![d]) == flat_text(d));
        assert(all[1] == ds[0]);
        assert(flat_join(sep, ds) == flat_text(ds[0]));
    } else {
        let init = ds.subrange(0, ds.len() - 1);
        lemma_flat_join_cons(sep, d, init);
        assert(init.len() > 0);
        assert(all.subrange(0, all.len() - 1) =~= seq![d] + init);
        assert(all[all.len() - 1] == ds[ds.len() - 1]);
        assert(flat_join(sep, all) =~= flat_text(d) + sep + flat_join(sep, ds));
    }
}

impl Document {
    /// Appends `other` after `self`, with the normalisation of `spec_add`.
    pub fn add(self, other: Document) -> (r: Document)
        ensures
            r@ == spec_add(self@, other@),
    {
        match (self, other) {
            (Document::Null, o) => o,
            (s, Document::Null) => s,
            (Document::Concat(mut docs), o) => {
                let ghost old_docs = docs@;
                let ghost ov = o@;
                docs.push(o);
                proof {
                    lemma_view_docs_push(old_docs, o);
                }
                Document::Concat(docs)
            },
            (s, Document::Concat(mut docs)) => {
                let ghost old_docs = docs@;
                let ghost sv = s@;
                let mut new_docs: Vec<Document> = Vec::new();
                new_docs.push(s);
                let ghost first = new_docs@;
                new_docs.append(&mut docs);
                proof {
                    lemma_view_docs_add(first, old_docs);
                    lemma_view_docs(first);
                    assert(view_docs(first) =~= seq![sv]);
                }
                Document::Concat(new_docs)
            },
            (s, o) => {
                let ghost sv = s@;
                let ghost ov = o@;
                let mut v: Vec<Document> = Vec::new();
                v.push(s);
                v.push(o);
                proof {
                    let a = v@;
                    lemma_view_docs(a);
                    assert(view_docs(a) =~= seq![sv, ov]);
                }
                Document::Concat(v)
            },
        }
    }

    /// A text document holding a copy of `s`.
    pub fn text(s: &str) -> (r: Document)
        ensures
            r@ == DocumentSpec::Text(s@),
    {
        Document::Text(s.to_owned())
    }

    /// The document that is `a` when the enclosing group breaks and `b` otherwise.
    pub fn if_break(a: Document, b: Document) -> (r: Document)
        ensures
            r@ == DocumentSpec::IfBreak(Box::new(a@), Box::new(b@)),
    {
        Document::IfBreak(Box::new(a), Box::new(b))
    }

    /// Items with a separator, filling lines.
    pub fn smart_join(sep: Document, items: Vec<Document>) -> (r: Document)
        ensures
            r@ == DocumentSpec::SmartJoin(Box::new(sep@), view_docs(items@)),
    {
        Document::SmartJoin(Box::new(sep), items)
    }

    /// Items with a separator.
    pub fn join(sep: Document, items: Vec<Document>) -> (r: Document)
        ensures
            r@ == DocumentSpec::Join(Box::new(sep@), view_docs(items@)),
    {
        Document::Join(Box::new(sep), items)
    }

    /// Wraps the document in a group.
    pub fn group(self) -> (r: Document)
        ensures
            r@ == DocumentSpec::Group(Box::new(self@)),
    {
        Document::Group(Box::new(self))
    }

    /// Wraps the document in one indentation level.
    pub fn indent(self) -> (r: Document)
        ensures
            r@ == DocumentSpec::Indent(Box::new(self@)),
    {
        Document::Indent(Box::new(self))
    }
}

/// A deep copy of a document.
pub fn copy_doc(d: &Document) -> (r: Document)
    ensures
        r@ == d@,
    decreases d,
{
    match d {
        Document::Null => Document::Null,
        Document::Text(s) => Document::Text(s.clone()),
        Document::Concat(v) => Document::Concat(copy_docs(v)),
        Document::Group(b) => Document::Group(Box::new(copy_doc(b))),
        Document::Indent(b) => Document::Indent(Box::new(copy_doc(b))),
        Document::Dedent(b) => Document::Dedent(Box::new(copy_doc(b))),
        Document::Join(sep, v) => Document::Join(Box::new(copy_doc(sep)), copy_docs(v)),
        Document::SmartJoin(sep, v) => Document::SmartJoin(Box::new(copy_doc(sep)), copy_docs(v)),
        Document::IfBreak(a, b) => Document::IfBreak(Box::new(copy_doc(a)), Box::new(copy_doc(b))),
        Document::Hardline => Document::Hardline,
        Document::Softline => Document::Softline,
    }
}

/// A deep copy of a list of documents.
pub fn copy_docs(v: &Vec<Document>) -> (r: Vec<Document>)
    ensures
        view_docs(r@) == view_docs(v@),
    decreases v,
{
    let mut out: Vec<Document> = Vec::new();
    let mut i: usize = 0;
    while i < v.len()
        invariant
            i <= v.len(),
            view_docs(out@) == view_docs(v@.take(i as int)),
        decreases v.len() - i,
    {
        proof {
            assert(decreases_to!(v => v@[i as int]));
        }
        let c = copy_doc(&v[i]);
        let ghost old_out = out@;
        out.push(c);
        proof {
            lemma_view_docs_push(old_out, c);
            lemma_view_docs_push(v@.take(i as int), v@[i as int]);
            assert(v@.take(i as int).push(v@[i as int]) =~= v@.take(i + 1));
        }
        i = i + 1;
    }
    assert(v@.take(v.len() as int) =~= v@);
    out
}


/// The size of a document as the printer measures it: one for each node, four
/// for each character of text (a character takes at most four bytes), and a
/// join's separator once for each of its items.
pub open spec fn doc_size(d: DocumentSpec) -> nat
    decreases d,
{
    match d {
        DocumentSpec::Text(t) => 4 * t.len() + 1,
        DocumentSpec::Concat(ds) => 1 + docs_size(ds),
        DocumentSpec::Group(b) => 1 + doc_size(*b),
        DocumentSpec::Indent(b) => 1 + doc_size(*b),
        DocumentSpec::Dedent(b) => 1 + doc_size(*b),
        DocumentSpec::Join(sep, ds) => 1 + docs_size(ds) + ds.len() * doc_size(*sep),
        DocumentSpec::SmartJoin(sep, ds) => 1 + docs_size(ds) + ds.len() * doc_size(*sep),
        DocumentSpec::IfBreak(a, b) => 1 + doc_size(*a) + doc_size(*b),
        _ => 1,
    }
}

/// The sizes of the documents, added up.
pub open spec fn docs_size(ds: Seq<DocumentSpec>) -> nat
    decreases ds,
{
    if ds.len() == 0 {
        0
    } else {
        docs_size(ds.subrange(0, ds.len() - 1)) + doc_size(ds[ds.len() - 1])
    }
}

/// Whether every width and line length the printer computes for `d` fits in a
/// `usize`: a hard line break counts as a full line of `max_width` when the
/// printer measures a group, and each nesting level can add `indent` columns.
pub open spec fn printable(d: DocumentSpec, max_width: usize, indent: usize) -> bool {
    (max_width + indent + 4) * doc_size(d) <= usize::MAX
}

/// The size of a document, or `None` where it exceeds `usize::MAX`.
fn size_checked(d: &Document) -> (r: Option<usize>)
    ensures
        match r {
            Some(n) => n == doc_size(d@),
            None => doc_size(d@) > usize::MAX,
        },
    decreases d,
{
    match d {
        Document::Text(s) => {
            let n = crate::text::chars_of(s.as_str()).len();
            match n.checked_mul(4) {
                Some(m) => m.checked_add(1),
                None => None,
            }
        },
        Document::Concat(v) => match sizes_checked(v) {
            Some(n) => n.checked_add(1),
            None => None,
        },
        Document::Group(b) | Document::Indent(b) | Document::Dedent(b) => match size_checked(b) {
            Some(n) => n.checked_add(1),
            None => None,
        },
        Document::Join(sep, v) | Document::SmartJoin(sep, v) => {
            proof {
                lemma_view_docs(v@);
            }
            let items = match sizes_checked(v) {
                Some(n) => n,
                None => return None,
            };
            if v.len() == 0 {
                proof {
                    let k = view_docs(v@).len();
                    assert(k * doc_size(sep@) == 0) by (nonlinear_arith)
                        requires k == 0;
                }
                return Some(1);
            }
            let one = match size_checked(sep) {
                Some(n) => n,
                None => {
                    proof {
                        let k = v@.len();
                        assert(k * doc_size(sep@) >= doc_size(sep@)) by (nonlinear_arith)
                            requires k >= 1;
                    }
                    return None;
                },
            };
            let seps = match one.checked_mul(v.len()) {
                Some(n) => n,
                None => {
                    proof {
                        assert(v.len() * one == one * v.len()) by (nonlinear_arith);
                    }
                    return None;
                },
            };
            proof {
                assert(v.len() * one == one * v.len()) by (nonlinear_arith);
            }
            match items.checked_add(seps) {
                Some(n) => n.checked_add(1),
                None => None,
            }
        },
        Document::IfBreak(a, b) => {
            let x = match size_checked(a) {
                Some(n) => n,
                None => return None,
            };
            let y = match size_checked(b) {
                Some(n) => n,
                None => return None,
            };
            match x.checked_add(y) {
                Some(n) => n.checked_add(1),
                None => None,
            }
        },
        _ => Some(1),
    }
}

/// The summed size of the documents, or `None` where it exceeds `usize::MAX`.
fn sizes_checked(v: &Vec<Document>) -> (r: Option<usize>)
    ensures
        match r {
            Some(n) => n == docs_size(view_docs(v@)),
            None => docs_size(view_docs(v@)) > usize::MAX,
        },
    decreases v,
{
    proof {
        lemma_view_docs(v@);
    }
    let mut total: usize = 0;
    let mut i: usize = 0;
    while i < v.len()
        invariant
            i <= v.len(),
            view_docs(v@).len() == v@.len(),
            forall|k: int| 0 <= k < v@.len() ==> #[trigger] view_docs(v@)[k] == view_doc(v@[k]),
            total == docs_size(view_docs(v@).subrange(0, i as int)),
        decreases v.len() - i,
    {
        proof {
            assert(decreases_to!(v => v@[i as int]));
        }
        let ghost vs = view_docs(v@);
        proof {
            let next = vs.subrange(0, i + 1);
            assert(next.subrange(0, next.len() - 1) =~= vs.subrange(0, i as int));
            assert(next[next.len() - 1] == vs[i as int]);
        }
        let n = match size_checked(&v[i]) {
            Some(n) => n,
            None => {
                proof {
                    lemma_docs_size_prefix(vs, i + 1);
                }
                return None;
            },
        };
        total = match total.checked_add(n) {
            Some(t) => t,
            None => {
                proof {
                    lemma_docs_size_prefix(vs, i + 1);
                }
                return None;
            },
        };
        i = i + 1;
    }
    proof {
        assert(view_docs(v@).subrange(0, v@.len() as int) =~= view_docs(v@));
    }
    Some(total)
}

/// A prefix of a list of documents is no larger than the whole list.
proof fn lemma_docs_size_prefix(ds: Seq<DocumentSpec>, k: int)
    requires
        0 <= k <= ds.len(),
    ensures
        docs_size(ds.subrange(0, k)) <= docs_size(ds),
    decreases ds.len() - k,
{
    if k < ds.len() {
        lemma_docs_size_prefix(ds, k + 1);
        let next = ds.subrange(0, k + 1);
        assert(next.subrange(0, next.len() - 1) =~= ds.subrange(0, k));
    } else {
        assert(ds.subrange(0, k) =~= ds);
    }
}

/// Whether `render` can lay out `doc` with `config`: see `printable`.
pub fn printable_doc(doc: &Document, config: &PrinterConfig) -> (b: bool)
    ensures
        b == printable(doc@, config.max_width, config.indent),
{
    let size = match size_checked(doc) {
        Some(n) => n,
        None => {
            proof {
                let f = config.max_width + config.indent + 4;
                assert(f * doc_size(doc@) >= doc_size(doc@)) by (nonlinear_arith)
                    requires f >= 1;
            }
            return false;
        },
    };
    let factor = match config.max_width.checked_add(config.indent) {
        Some(w) => match w.checked_add(4) {
            Some(f) => f,
            None => {
                proof {
                    assert((config.max_width + config.indent + 4) * doc_size(doc@) >= config.max_width + config.indent + 4) by (nonlinear_arith)
                        requires doc_size(doc@) >= 1;
                }
                return false;
            },
        },
        None => {
            proof {
                assert((config.max_width + config.indent + 4) * doc_size(doc@) >= config.max_width + config.indent + 4) by (nonlinear_arith)
                    requires doc_size(doc@) >= 1;
            }
            return false;
        },
    };
    factor.checked_mul(size).is_some()
}

/// The document type of the `pprint` crate, which performs the layout.
#[verifier::external_type_specification]
#[verifier::external_body]
pub struct ExPprintDoc<'a>(pprint::Doc<'a>);

/// The text that `pprint::pprint` produces for a document with the printer
/// settings `max_width`, `indent` and `use_tabs`.
pub uninterp spec fn rendered(doc: DocumentSpec, max_width: usize, indent: usize, use_tabs: bool) -> Seq<char>;

/// Builds the `pprint` document with the same shape as `doc`, variant for
/// variant (`Text` becomes `pprint::Doc::String`). Nothing is stated of the
/// result: the `pprint` type is opaque here, and `render` names what comes of it.
#[verifier::external_body]
fn to_pprint(doc: &Document) -> pprint::Doc<'static> {
    let one = |d: &Document| Box::new(to_pprint(d));
    match doc {
        Document::Null => PDoc::Null,
        Document::Text(s) => PDoc::String(s.clone().into()),
        Document::Concat(v) => PDoc::Concat(v.iter().map(to_pprint).collect()),
        Document::Group(b) => PDoc::Group(one(b)),
        Document::Indent(b) => PDoc::Indent(one(b)),
        Document::Dedent(b) => PDoc::Dedent(one(b)),
        Document::Hardline => PDoc::Hardline,
        Document::Softline => PDoc::Softline,
        _ => to_pprint_pair(doc),
    }
}

/// The part of `to_pprint` for the variants with two parts: `Join`,
/// `SmartJoin` and `IfBreak` become the `pprint` variants of the same names.
#[verifier::external_body]
fn to_pprint_pair(doc: &Document) -> pprint::Doc<'static> {
    let all = |v: &Vec<Document>| v.iter().map(to_pprint).collect();
    match doc {
        Document::Join(sep, v) => PDoc::Join(Box::new((to_pprint(sep), all(v)))),
        Document::SmartJoin(sep, v) => PDoc::SmartJoin(Box::new((to_pprint(sep), all(v)))),
        Document::IfBreak(a, b) => PDoc::IfBreak(Box::new(to_pprint(a)), Box::new(to_pprint(b))),
        _ => to_pprint(doc),
    }
}

/// Calls `pprint::pprint` on the `pprint` form of `doc` with a
/// `pprint::Printer` built from `config`. The contract claims only that the
/// output is determined by the document and the three settings: it is named
/// `rendered`, and nothing is stated of how the layout is chosen.
/// The printer adds up widths and line lengths in `usize` without checking
/// (a hard line break measures as `max_width`, each indentation level adds
/// `indent`); `printable` keeps all of them in range. Running out of memory
/// for the output is not covered.
#[verifier::external_body]
fn pprint_render(doc: &Document, config: &PrinterConfig) -> (out: String)
    requires
        printable(doc@, config.max_width, config.indent),
    ensures
        out@ == rendered(doc@, config.max_width, config.indent, config.use_tabs),
{
    let printer = pprint::Printer::new(config.max_width, config.indent, config.use_tabs);
    pprint::pprint(to_pprint(doc), printer)
}

/// The text of a document laid out with these settings, for a document the
/// printer can measure (see `printable_doc`).
pub fn render(doc: &Document, config: &PrinterConfig) -> (out: String)
    requires
        printable(doc@, config.max_width, config.indent),
    ensures
        out@ == rendered(doc@, config.max_width, config.indent, config.use_tabs),
{
    pprint_render(doc, config)
}

} // verus!
