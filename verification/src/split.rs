//! Balanced splitting of a text at a delimiter: the delimiter divides the
//! text only outside parentheses, brackets and quoted strings. The `split`
//! hint of a grammar rule cuts opaque spans this way.

use vstd::prelude::*;

use crate::text::{chars_of, string_of};

verus! {

/// A character that opens and closes a quoted string.
pub open spec fn is_quote(c: char) -> bool {
    c == '"' || c == '\''
}

/// The nesting depth of parentheses and brackets, and the quote of the string
/// that is open, after the first `n` characters. Inside a string only its
/// closing quote counts; a closing bracket at depth 0 leaves the depth at 0.
pub open spec fn bal_state(t: Seq<char>, n: int) -> (nat, Option<char>)
    decreases n,
{
    if n <= 0 {
        (0, None)
    } else {
        let (d, q) = bal_state(t, n - 1);
        let c = t[n - 1];
        match q {
            Some(o) => if c == o {
                (d, None)
            } else {
                (d, q)
            },
            None => if is_quote(c) {
                (d, Some(c))
            } else if c == '(' || c == '[' {
                (d + 1, None)
            } else if c == ')' || c == ']' {
                (if d == 0 {
                    0
                } else {
                    (d - 1) as nat
                }, None)
            } else {
                (d, None)
            },
        }
    }
}

/// Whether the character at `j` divides the text: it is the delimiter (an
/// ASCII byte), and it stands outside strings, parentheses and brackets.
/// A delimiter byte outside ASCII divides nothing: it cannot be a whole character.
pub open spec fn is_split_at(t: Seq<char>, delim: u8, j: int) -> bool {
    let c = t[j];
    &&& bal_state(t, j).1 is None
    &&& bal_state(t, j).0 == 0
    &&& !is_quote(c)
    &&& c != '(' && c != '[' && c != ')' && c != ']'
    &&& delim < 128
    &&& c as int == delim as int
}

/// The pieces of the first `n` characters between the places that divide them.
pub open spec fn balanced_pieces(t: Seq<char>, delim: u8, n: int) -> Seq<Seq<char>>
    decreases n,
{
    if n <= 0 {
        seq![Seq::empty()]
    } else {
        let prev = balanced_pieces(t, delim, n - 1);
        if is_split_at(t, delim, n - 1) {
            prev.push(Seq::empty())
        } else {
            prev.update(prev.len() - 1, prev.last().push(t[n - 1]))
        }
    }
}

/// The pieces of a text between the places where the delimiter divides it,
/// as written (not trimmed); a text with no such place is one piece.
pub open spec fn spec_split_balanced(t: Seq<char>, delim: u8) -> Seq<Seq<char>> {
    balanced_pieces(t, delim, t.len() as int)
}

proof fn lemma_pieces_len(t: Seq<char>, delim: u8, n: int)
    ensures
        balanced_pieces(t, delim, n).len() >= 1,
    decreases n,
{
    if n > 0 {
        lemma_pieces_len(t, delim, n - 1);
    }
}

/// The pieces of the first `n` characters with the delimiter put back
/// between each two of them.
pub open spec fn delim_join(pieces: Seq<Seq<char>>, c: char, n: int) -> Seq<char>
    decreases n,
{
    if n <= 1 {
        pieces[0]
    } else {
        delim_join(pieces, c, n - 1) + seq![c] + pieces[n - 1]
    }
}

proof fn lemma_delim_join_prefix(a: Seq<Seq<char>>, b: Seq<Seq<char>>, c: char, n: int)
    requires
        1 <= n <= a.len(),
        n <= b.len(),
        forall|i: int| 0 <= i < n ==> a[i] == b[i],
    ensures
        delim_join(a, c, n) == delim_join(b, c, n),
    decreases n,
{
    if n > 1 {
        lemma_delim_join_prefix(a, b, c, n - 1);
    }
}

/// Splitting loses nothing: the pieces, joined again with the delimiter,
/// are the text.
pub proof fn lemma_split_balanced_join(t: Seq<char>, delim: u8, m: int)
    requires
        0 <= m <= t.len(),
        delim < 128,
    ensures
        balanced_pieces(t, delim, m).len() >= 1,
        delim_join(balanced_pieces(t, delim, m), delim as char, balanced_pieces(t, delim, m).len() as int)
            == t.take(m),
    decreases m,
{
    let c = delim as char;
    if m == 0 {
        assert(t.take(0) =~= Seq::<char>::empty());
    } else {
        lemma_split_balanced_join(t, delim, m - 1);
        let prev = balanced_pieces(t, delim, m - 1);
        let k = prev.len() as int;
        let cur = balanced_pieces(t, delim, m);
        assert(t.take(m) =~= t.take(m - 1).push(t[m - 1]));
        if is_split_at(t, delim, m - 1) {
            assert(t[m - 1] == c);
            assert(cur == prev.push(Seq::<char>::empty()));
            lemma_delim_join_prefix(prev, cur, c, k);
            assert(delim_join(cur, c, k + 1) =~= t.take(m));
        } else {
            let last = prev.last().push(t[m - 1]);
            assert(cur == prev.update(k - 1, last));
            if k == 1 {
                assert(delim_join(cur, c, 1) =~= t.take(m));
            } else {
                lemma_delim_join_prefix(prev, cur, c, k - 1);
                assert(delim_join(cur, c, k) =~= delim_join(prev, c, k).push(t[m - 1]));
            }
        }
    }
}

/// Whether `c` is the ASCII character with code `b`.
fn is_byte(c: char, b: u8) -> (r: bool)
    ensures
        r == (b < 128 && c as int == b as int),
{
    let n: u32 = c as u32;
    b < 128 && n == b as u32
}

/// Split `text` on `delim` at nesting depth 0: parentheses and brackets nest,
/// and the delimiter does not divide inside `"..."` or `'...'`. The pieces
/// are returned as written.
pub fn split_balanced(text: &str, delim: u8) -> (r: Vec<String>)
    ensures
        r@.map_values(|s: String| s@) == spec_split_balanced(text@, delim),
{
    let t = chars_of(text);
    let mut out: Vec<String> = Vec::new();
    let mut depth: usize = 0;
    let mut quote: Option<char> = None;
    let mut start: usize = 0;
    let mut i: usize = 0;
    proof {
        lemma_pieces_len(t@, delim, 0);
    }
    while i < t.len()
        invariant
            t@ == text@,
            start <= i <= t.len(),
            (depth as nat, quote) == bal_state(t@, i as int),
            depth <= i,
            balanced_pieces(t@, delim, i as int).len() == out@.len() + 1,
            balanced_pieces(t@, delim, i as int).last() == t@.subrange(start as int, i as int),
            forall|k: int|
                0 <= k < out@.len() ==> #[trigger] out@[k]@ == balanced_pieces(t@, delim, i as int)[k],
        decreases t.len() - i,
    {
        let c = t[i];
        let ghost prev = balanced_pieces(t@, delim, i as int);
        proof {
            lemma_pieces_len(t@, delim, i as int);
        }
        match quote {
            Some(o) => {
                if c == o {
                    quote = None;
                }
            },
            None => {
                if c == '"' || c == '\'' {
                    quote = Some(c);
                } else if c == '(' || c == '[' {
                    depth = depth + 1;
                } else if c == ')' || c == ']' {
                    if depth > 0 {
                        depth = depth - 1;
                    }
                } else if depth == 0 && is_byte(c, delim) {
                    let piece = string_of(&t, start, i);
                    out.push(piece);
                    start = i + 1;
                }
            },
        }
        proof {
            let next = balanced_pieces(t@, delim, i + 1);
            if !is_split_at(t@, delim, i as int) {
                assert(t@.subrange(start as int, i + 1) =~= t@.subrange(start as int, i as int).push(
                    t@[i as int],
                ));
                assert forall|k: int| 0 <= k < out@.len() implies #[trigger] out@[k]@ == next[k] by {
                    assert(next[k] == prev[k]);
                }
            } else {
                assert(t@.subrange(start as int, i + 1) =~= Seq::<char>::empty());
                assert forall|k: int| 0 <= k < out@.len() implies #[trigger] out@[k]@ == next[k] by {
                    if k < out@.len() - 1 {
                        assert(next[k] == prev[k]);
                    }
                }
            }
        }
        i = i + 1;
    }
    let last = string_of(&t, start, t.len());
    out.push(last);
    proof {
        let segs = balanced_pieces(t@, delim, t@.len() as int);
        let mv = out@.map_values(|s: String| s@);
        assert forall|k: int| 0 <= k < out@.len() implies #[trigger] mv[k] == segs[k] by {
            if k == out@.len() - 1 {
                assert(t@.subrange(start as int, t@.len() as int) == segs.last());
            }
        }
        assert(mv =~= segs);
    }
    out
}

} // verus!
