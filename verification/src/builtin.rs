//! The built-in languages and how a file path selects one.

use vstd::prelude::*;

use crate::text::{chars_of, push_all, str_eq, string_from};

verus! {

/// The position of the last `/` before `end`, or -1 where there is none.
pub open spec fn last_slash(p: Seq<char>, end: int) -> int
    decreases end,
{
    if end <= 0 {
        -1
    } else if p[end - 1] == '/' {
        end - 1
    } else {
        last_slash(p, end - 1)
    }
}

/// The final component of a `/`-separated path, as `std::path::Path::file_name`
/// on Unix gives it: separators repeat freely, trailing separators and `.`
/// components are ignored, and a path that ends in `..` has none.
pub open spec fn file_name(p: Seq<char>) -> Option<Seq<char>>
    decreases p.len(),
{
    if p.len() == 0 {
        None
    } else if p.last() == '/' {
        file_name(p.drop_last())
    } else {
        let k = last_slash(p, p.len() as int);
        let seg = p.subrange(k + 1, p.len() as int);
        proof {
            lemma_last_slash(p, p.len() as int);
        }
        if seg == seq!['.'] {
            file_name(p.subrange(0, k + 1))
        } else if seg == seq!['.', '.'] {
            None
        } else {
            Some(seg)
        }
    }
}

/// The position of the last `.` in `name` before `end`, or -1.
pub open spec fn last_dot(name: Seq<char>, end: int) -> int
    decreases end,
{
    if end <= 0 {
        -1
    } else if name[end - 1] == '.' {
        end - 1
    } else {
        last_dot(name, end - 1)
    }
}

/// The extension of a file name, as `std::path::Path::extension` gives it:
/// what follows the last `.`, where the name has a `.` that is not its first
/// character.
pub open spec fn extension_of(name: Seq<char>) -> Option<Seq<char>> {
    let k = last_dot(name, name.len() as int);
    if k <= 0 {
        None
    } else {
        Some(name.subrange(k + 1, name.len() as int))
    }
}

/// The language that a file extension names.
pub open spec fn language_of_extension(ext: Seq<char>) -> Option<Seq<char>> {
    if ext == "json"@ || ext == "jsonc"@ || ext == "json5"@ {
        Some("json"@)
    } else if ext == "css"@ || ext == "scss"@ {
        Some("css"@)
    } else if ext == "ebnf"@ {
        Some("ebnf"@)
    } else if ext == "bnf"@ {
        Some("bnf"@)
    } else if ext == "bbnf"@ {
        Some("bbnf"@)
    } else {
        None
    }
}

/// The language that a path selects by its extension.
pub open spec fn spec_detect_language(path: Seq<char>) -> Option<Seq<char>> {
    match file_name(path) {
        None => None,
        Some(name) => match extension_of(name) {
            None => None,
            Some(ext) => language_of_extension(ext),
        },
    }
}

pub proof fn lemma_last_slash(p: Seq<char>, end: int)
    requires
        0 <= end <= p.len(),
    ensures
        -1 <= last_slash(p, end) < end,
        last_slash(p, end) >= 0 ==> p[last_slash(p, end)] == '/',
        forall|i: int| last_slash(p, end) < i < end ==> p[i] != '/',
    decreases end,
{
    if end > 0 && p[end - 1] != '/' {
        lemma_last_slash(p, end - 1);
    }
}

/// Whether `cs[a..b]` spells `lit`.
fn range_is(cs: &Vec<char>, a: usize, b: usize, lit: &str) -> (r: bool)
    requires
        a <= b <= cs.len(),
    ensures
        r == (cs@.subrange(a as int, b as int) == lit@),
{
    let l = chars_of(lit);
    if b - a != l.len() {
        return false;
    }
    let mut i: usize = 0;
    while i < l.len()
        invariant
            i <= l.len(),
            b - a == l.len(),
            l@ == lit@,
            a <= b <= cs.len(),
            forall|j: int| 0 <= j < i ==> cs@[a + j] == l@[j],
        decreases l.len() - i,
    {
        if cs[a + i] != l[i] {
            assert(cs@.subrange(a as int, b as int)[i as int] != lit@[i as int]);
            return false;
        }
        i = i + 1;
    }
    assert(cs@.subrange(a as int, b as int) =~= lit@);
    true
}

/// The language for a file path, chosen by the extension of its file name:
/// `json`, `jsonc` and `json5` select JSON, `css` and `scss` select CSS, and
/// `ebnf`, `bnf` and `bbnf` select the grammar notations of those names.
pub fn detect_language(path: &str) -> (r: Option<&'static str>)
    ensures
        match r {
            None => spec_detect_language(path@) is None,
            Some(lang) => spec_detect_language(path@) == Some(lang@),
        },
{
    let p = chars_of(path);
    let mut end: usize = p.len();
    // Find the file name: the last component that is not `.`.
    let mut start: usize = 0;
    assert(p@.subrange(0, end as int) =~= p@);
    loop
        invariant_except_break
            end <= p.len(),
            p@ == path@,
            file_name(p@) == file_name(p@.subrange(0, end as int)),
        ensures
            start <= end <= p.len(),
            p@ == path@,
            file_name(p@) == Some(p@.subrange(start as int, end as int)),
        decreases end,
    {
        let ghost q = p@.subrange(0, end as int);
        if end == 0 {
            return None;
        }
        if p[end - 1] == '/' {
            assert(q.drop_last() =~= p@.subrange(0, end - 1));
            end = end - 1;
        } else {
            proof {
                lemma_last_slash(q, end as int);
            }
            let mut k: usize = end;
            while k > 0 && p[k - 1] != '/'
                invariant
                    k <= end <= p.len(),
                    p@ == path@,
                    q == p@.subrange(0, end as int),
                    last_slash(q, k as int) == last_slash(q, end as int),
                decreases k,
            {
                k = k - 1;
            }
            // k is one past the last slash
            assert(last_slash(q, end as int) == k - 1);
            assert(q.subrange(k as int, end as int) =~= p@.subrange(k as int, end as int));
            if range_is(&p, k, end, ".") {
                proof {
                    reveal_strlit(".");
                    assert("."@ =~= seq!['.']);
                    assert(q.subrange(0, k as int) =~= p@.subrange(0, k as int));
                }
                end = k;
            } else if range_is(&p, k, end, "..") {
                proof {
                    reveal_strlit("..");
                    assert(".."@ =~= seq!['.', '.']);
                    reveal_strlit(".");
                    assert("."@ =~= seq!['.']);
                }
                return None;
            } else {
                proof {
                    reveal_strlit("..");
                    assert(".."@ =~= seq!['.', '.']);
                    reveal_strlit(".");
                    assert("."@ =~= seq!['.']);
                }
                start = k;
                break;
            }
        }
    }
    let ghost name = p@.subrange(start as int, end as int);
    // Find the last dot of the file name.
    let mut d: usize = end;
    while d > start && p[d - 1] != '.'
        invariant
            start <= d <= end <= p.len(),
            name == p@.subrange(start as int, end as int),
            last_dot(name, (d - start) as int) == last_dot(name, (end - start) as int),
        decreases d,
    {
        assert(name[(d - start) - 1] == p@[d - 1]);
        d = d - 1;
    }
    proof {
        if d > start {
            assert(name[(d - start) - 1] == p@[d - 1]);
        }
    }
    if d - start <= 1 {
        return None;
    }
    assert(name.subrange((d - start) as int, name.len() as int) =~= p@.subrange(d as int, end as int));
    let r = if range_is(&p, d, end, "json") || range_is(&p, d, end, "jsonc") || range_is(&p, d, end, "json5") {
        Some("json")
    } else if range_is(&p, d, end, "css") || range_is(&p, d, end, "scss") {
        Some("css")
    } else if range_is(&p, d, end, "ebnf") {
        Some("ebnf")
    } else if range_is(&p, d, end, "bnf") {
        Some("bnf")
    } else if range_is(&p, d, end, "bbnf") {
        Some("bbnf")
    } else {
        None
    };
    r
}


/// The languages that gorg formats without a grammar file.
#[derive(Clone, Copy, Debug, PartialEq, Eq, Structural)]
pub enum BuiltinLanguage {
    Json,
    Css,
    Ebnf,
    Bnf,
    Bbnf,
}

/// The built-in language that a `--lang` value names.
pub open spec fn spec_builtin_language(lang: Seq<char>) -> Option<BuiltinLanguage> {
    if lang == "json"@ {
        Some(BuiltinLanguage::Json)
    } else if lang == "css"@ {
        Some(BuiltinLanguage::Css)
    } else if lang == "ebnf"@ {
        Some(BuiltinLanguage::Ebnf)
    } else if lang == "bnf"@ {
        Some(BuiltinLanguage::Bnf)
    } else if lang == "bbnf"@ {
        Some(BuiltinLanguage::Bbnf)
    } else {
        None
    }
}

/// The built-in language named `lang`, or the error `unknown language: <lang>`.
pub fn builtin_language(lang: &str) -> (r: Result<BuiltinLanguage, String>)
    ensures
        match spec_builtin_language(lang@) {
            Some(l) => r == Ok::<BuiltinLanguage, String>(l),
            None => r matches Err(e) && e@ == "unknown language: "@ + lang@,
        },
{
    if str_eq(lang, "json") {
        Ok(BuiltinLanguage::Json)
    } else if str_eq(lang, "css") {
        Ok(BuiltinLanguage::Css)
    } else if str_eq(lang, "ebnf") {
        Ok(BuiltinLanguage::Ebnf)
    } else if str_eq(lang, "bnf") {
        Ok(BuiltinLanguage::Bnf)
    } else if str_eq(lang, "bbnf") {
        Ok(BuiltinLanguage::Bbnf)
    } else {
        let mut e = string_from(&chars_of("unknown language: "));
        push_all(&mut e, lang);
        Err(e)
    }
}


/// Separators after a path do not change the language that it selects.
pub proof fn lemma_detect_trailing_slash(p: Seq<char>)
    ensures
        spec_detect_language(p.push('/')) == spec_detect_language(p),
{
    assert(p.push('/').drop_last() =~= p);
}

/// The language depends on the file name alone: a file name that holds no
/// `/` and is neither `.` nor `..` selects the same language in any directory.
pub proof fn lemma_detect_in_directory(dir: Seq<char>, name: Seq<char>)
    requires
        name.len() > 0,
        forall|i: int| 0 <= i < name.len() ==> name[i] != '/',
        name != seq!['.'],
        name != seq!['.', '.'],
    ensures
        spec_detect_language(dir + seq!['/'] + name) == spec_detect_language(name),
{
    let p = dir + seq!['/'] + name;
    let n = p.len() as int;
    lemma_last_slash(p, n);
    lemma_last_slash(name, name.len() as int);
    assert(p[dir.len() as int] == '/');
    assert forall|i: int| dir.len() < i < n implies p[i] != '/' by {
        assert(p[i] == name[i - dir.len() - 1]);
    }
    assert(last_slash(p, n) == dir.len());
    assert(p.last() == name.last());
    assert(p.subrange(dir.len() as int + 1, n) =~= name);
    assert(last_slash(name, name.len() as int) == -1) by {
        if last_slash(name, name.len() as int) >= 0 {
            assert(name[last_slash(name, name.len() as int)] == '/');
        }
    }
    assert(name.subrange(0, name.len() as int) =~= name);
}

} // verus!
