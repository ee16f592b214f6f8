//! The grammar pipeline: a `.bbnf` grammar is compiled once into a formatter
//! binary, cached under a directory named by the grammar's hash, and then run.
//! This module computes the names, paths, arguments and source pieces that
//! the pipeline needs; reading, writing and running stay with the caller.

use vstd::prelude::*;

use crate::config::PrinterConfig;
use crate::cli::{all_digits, decimal_value, digit_value, spec_parse_usize};
use crate::text::{chars_of, push_all, push_char, string_from};

verus! {

/// The value that a `DefaultHasher` made by `new` finishes with after the
/// `str` with these characters was hashed into it.
pub uninterp spec fn grammar_digest(content: Seq<char>) -> u64;

/// Hashes the string with `BuildHasher::hash_one` on the default builder of
/// `DefaultHasher`, which makes a hasher by `DefaultHasher::new`, feeds it the
/// string by `Hash` and returns what `finish` gives. The keys of such a hasher
/// are fixed, so the result depends on the string alone; which number it is,
/// std does not document, and nothing here states it.
#[verifier::external_body]
fn hash_str(content: &str) -> (h: u64)
    ensures
        h == grammar_digest(content@),
{
    std::hash::BuildHasher::hash_one(
        &std::hash::BuildHasherDefault::<std::collections::hash_map::DefaultHasher>::default(),
        content,
    )
}

/// The lowercase hexadecimal digit for `d` in `0..16`.
pub open spec fn hex_char(d: int) -> char {
    if d < 10 {
        ('0' as int + d) as char
    } else {
        ('a' as int + d - 10) as char
    }
}

/// The last `n` hexadecimal digits of `v`, most significant first.
pub open spec fn hex_digits(v: nat, n: nat) -> Seq<char>
    decreases n,
{
    if n == 0 {
        Seq::empty()
    } else {
        hex_digits(v / 16, (n - 1) as nat).push(hex_char(v as int % 16))
    }
}

/// `v` written as `{:016x}` writes it: sixteen lowercase hexadecimal digits.
pub open spec fn hex16(v: u64) -> Seq<char> {
    hex_digits(v as nat, 16)
}

/// The text of `v` as sixteen lowercase hexadecimal digits.
pub fn hex_string(v: u64) -> (r: String)
    ensures
        r@ == hex16(v),
{
    let mut buf: Vec<char> = vec!['0'; 16];
    let mut w: u64 = v;
    let mut k: usize = 0;
    while k < 16
        invariant
            k <= 16,
            buf.len() == 16,
            hex16(v) == hex_digits(w as nat, (16 - k) as nat) + buf@.subrange(16 - k, 16),
        decreases 16 - k,
    {
        let d: u8 = (w % 16) as u8;
        let c: char = if d < 10 {
            (48u8 + d) as char
        } else {
            (97u8 + (d - 10)) as char
        };
        assert(c == hex_char(w as int % 16));
        let ghost before = buf@.subrange(16 - k, 16);
        buf.set(15 - k, c);
        assert(buf@.subrange(15 - k, 16) =~= seq![c] + before);
        assert(hex_digits(w as nat, (16 - k) as nat) == hex_digits((w / 16) as nat, (15 - k) as nat).push(c));
        assert(hex_digits((w / 16) as nat, (15 - k) as nat).push(c) + before =~= hex_digits((w / 16) as nat, (15 - k) as nat) + (seq![c] + before));
        w = w / 16;
        k = k + 1;
    }
    assert(buf@.subrange(0, 16) =~= buf@);
    string_from(&buf)
}

/// The cache key of a grammar: its hash as sixteen hexadecimal digits.
pub fn grammar_hash(content: &str) -> (r: String)
    ensures
        r@ == hex16(grammar_digest(content@)),
{
    hex_string(hash_str(content))
}

/// `n` in decimal, as `usize::to_string` writes it.
pub open spec fn decimal_text(n: nat) -> Seq<char>
    decreases n,
{
    if n < 10 {
        seq![('0' as int + n) as char]
    } else {
        decimal_text(n / 10).push(('0' as int + n % 10) as char)
    }
}

/// The decimal text of `n`.
pub fn usize_text(n: usize) -> (r: String)
    ensures
        r@ == decimal_text(n as nat),
{
    let mut rev: Vec<char> = Vec::new();
    let mut w: usize = n;
    let ghost mut acc: Seq<char> = Seq::empty();
    loop
        invariant_except_break
            decimal_text(n as nat) == decimal_text(w as nat) + acc,
        invariant
            rev@ == acc.reverse(),
        ensures
            decimal_text(n as nat) == acc,
        decreases w,
    {
        let d: u8 = (w % 10) as u8;
        let c: char = (48u8 + d) as char;
        assert(c == ('0' as int + w % 10) as char);
        if w < 10 {
            rev.push(c);
            proof {
                assert(decimal_text(w as nat) == seq![c]);
                assert(decimal_text(w as nat) + acc =~= seq![c] + acc);
                assert(rev@ =~= (seq![c] + acc).reverse()) by {
                    assert forall|i: int| 0 <= i < rev@.len() implies rev@[i] == (seq![c] + acc).reverse()[i] by {}
                }
                acc = seq![c] + acc;
            }
            break;
        }
        rev.push(c);
        proof {
            assert(decimal_text(w as nat) == decimal_text((w / 10) as nat).push(c));
            assert(decimal_text((w / 10) as nat).push(c) + acc =~= decimal_text((w / 10) as nat) + (seq![c] + acc));
            assert(rev@ =~= (seq![c] + acc).reverse()) by {
                assert forall|i: int| 0 <= i < rev@.len() implies rev@[i] == (seq![c] + acc).reverse()[i] by {}
            }
            acc = seq![c] + acc;
        }
        w = w / 10;
    }
    assert(decimal_text(n as nat) == acc);
    let mut out = String::new();
    let mut i: usize = rev.len();
    while i > 0
        invariant
            i <= rev.len(),
            rev@ == acc.reverse(),
            out@ == acc.take(rev.len() - i),
        decreases i,
    {
        i = i - 1;
        push_char(&mut out, rev[i]);
        assert(acc.take(rev.len() - i) =~= acc.take(rev.len() - i - 1).push(rev@[i as int]));
    }
    assert(acc.take(rev.len() as int) =~= acc);
    out
}

proof fn lemma_decimal_text_digits(n: nat)
    ensures
        decimal_text(n).len() > 0,
        all_digits(decimal_text(n)),
        decimal_value(decimal_text(n)) == n,
        decimal_text(n)[0] != '+',
    decreases n,
{
    if n >= 10 {
        lemma_decimal_text_digits(n / 10);
        let s = decimal_text(n / 10);
        let c = ('0' as int + n % 10) as char;
        assert(s.push(c).drop_last() =~= s);
        assert(all_digits(s.push(c))) by {
            assert forall|i: int| 0 <= i < s.push(c).len() implies '0' <= #[trigger] s.push(c)[i] && s.push(c)[i] <= '9' by {
                if i < s.len() {
                    assert(s.push(c)[i] == s[i]);
                }
            }
        }
        assert(digit_value(c) == n % 10);
        assert(decimal_value(s.push(c)) == decimal_value(s) * 10 + digit_value(c));
        assert(n == (n / 10) * 10 + n % 10);
    } else {
        let c = ('0' as int + n) as char;
        assert(seq![c].drop_last() =~= Seq::<char>::empty());
        assert(digit_value(c) == n);
        assert(decimal_value(seq![c]) == decimal_value(Seq::<char>::empty()) * 10 + digit_value(c));
    }
}

/// A number that gorg writes on the formatter's command line reads back, by
/// the formatter's `str::parse`, as the same number.
pub proof fn lemma_usize_text_round_trip(n: usize)
    ensures
        spec_parse_usize(decimal_text(n as nat)) == Some(n),
{
    lemma_decimal_text_digits(n as nat);
}

/// `base` joined with `p` as `Path::join` joins them on Unix: an absolute `p`
/// replaces `base`; otherwise a `/` goes between them unless `base` is empty
/// or already ends with one.
pub open spec fn join_path(base: Seq<char>, p: Seq<char>) -> Seq<char> {
    if p.len() > 0 && p[0] == '/' {
        p
    } else if base.len() == 0 || base.last() == '/' {
        base + p
    } else {
        base + seq!['/'] + p
    }
}

/// `base` joined with `p`.
pub fn join(base: &str, p: &str) -> (r: String)
    ensures
        r@ == join_path(base@, p@),
{
    let bs = chars_of(base);
    let ps = chars_of(p);
    if ps.len() > 0 && ps[0] == '/' {
        return string_from(&ps);
    }
    let mut out = string_from(&bs);
    if bs.len() > 0 && bs[bs.len() - 1] != '/' {
        push_char(&mut out, '/');
    }
    push_all(&mut out, p);
    out
}

/// The directory under which the caches live: `$XDG_CACHE_HOME` where it is
/// set, else `$HOME/.cache`, else `./.cache`.
pub open spec fn cache_base(xdg: Option<Seq<char>>, home: Option<Seq<char>>) -> Seq<char> {
    match xdg {
        Some(x) => x,
        None => join_path(
            match home {
                Some(h) => h,
                None => seq!['.'],
            },
            ".cache"@,
        ),
    }
}

/// The directory that holds every cached formatter: `<cache base>/gorgeous`.
pub open spec fn spec_cache_root(xdg: Option<Seq<char>>, home: Option<Seq<char>>) -> Seq<char> {
    join_path(cache_base(xdg, home), "gorgeous"@)
}

/// The directory that `--clear-cache` removes, given the values of
/// `XDG_CACHE_HOME` and `HOME`.
pub fn cache_root(xdg: Option<&str>, home: Option<&str>) -> (r: String)
    ensures
        r@ == spec_cache_root(
            match xdg { Some(x) => Some(x@), None => None },
            match home { Some(h) => Some(h@), None => None },
        ),
{
    let base = match xdg {
        Some(x) => text(x),
        None => {
            let h = match home {
                Some(h) => text(h),
                None => {
                    let mut d = String::new();
                    push_char(&mut d, '.');
                    d
                },
            };
            join(h.as_str(), ".cache")
        },
    };
    join(base.as_str(), "gorgeous")
}

/// The directory of the cached formatter for a grammar hash:
/// `<cache base>/gorgeous/<hash>`.
pub open spec fn spec_cache_dir(xdg: Option<Seq<char>>, home: Option<Seq<char>>, hash: Seq<char>) -> Seq<char> {
    join_path(spec_cache_root(xdg, home), hash)
}

/// The cache directory for `hash`, given the values of `XDG_CACHE_HOME` and
/// `HOME` (each `None` where it is unset).
pub fn cache_dir(xdg: Option<&str>, home: Option<&str>, hash: &str) -> (r: String)
    ensures
        r@ == spec_cache_dir(
            match xdg { Some(x) => Some(x@), None => None },
            match home { Some(h) => Some(h@), None => None },
            hash@,
        ),
{
    let root = cache_root(xdg, home);
    join(root.as_str(), hash)
}

/// Where the compiled formatter of a cached project lies.
pub open spec fn spec_binary_path(dir: Seq<char>) -> Seq<char> {
    join_path(dir, "target/release/gorgeous-jit"@)
}

/// The path of the compiled formatter in the project directory `dir`.
pub fn binary_path(dir: &str) -> (r: String)
    ensures
        r@ == spec_binary_path(dir@),
{
    join(dir, "target/release/gorgeous-jit")
}

/// The arguments that the compiled formatter is run with: width, indent,
/// `--tabs` where tabs are asked for, the rule where one is given, and the
/// input file where there is one.
pub open spec fn spec_jit_args(
    width: usize,
    indent: usize,
    use_tabs: bool,
    rule: Option<Seq<char>>,
    input_path: Option<Seq<char>>,
) -> Seq<Seq<char>> {
    seq!["--width"@, decimal_text(width as nat), "--indent"@, decimal_text(indent as nat)]
        + (if use_tabs { seq!["--tabs"@] } else { Seq::empty() })
        + (match rule { Some(r) => seq!["--rule"@, r], None => Seq::empty() })
        + (match input_path { Some(p) => seq![p], None => Seq::empty() })
}

pub open spec fn views(v: Seq<String>) -> Seq<Seq<char>> {
    v.map_values(|s: String| s@)
}

fn text(s: &str) -> (r: String)
    ensures
        r@ == s@,
{
    string_from(&chars_of(s))
}

/// The command line of the compiled formatter for these settings.
pub fn jit_args(config: &PrinterConfig, rule: Option<&str>, input_path: Option<&str>) -> (r: Vec<String>)
    ensures
        views(r@) == spec_jit_args(
            config.max_width,
            config.indent,
            config.use_tabs,
            match rule { Some(x) => Some(x@), None => None },
            match input_path { Some(p) => Some(p@), None => None },
        ),
{
    let mut args: Vec<String> = Vec::new();
    args.push(text("--width"));
    args.push(usize_text(config.max_width));
    args.push(text("--indent"));
    args.push(usize_text(config.indent));
    let ghost head = views(args@);
    if config.use_tabs {
        args.push(text("--tabs"));
    }
    let ghost with_tabs = views(args@);
    match rule {
        Some(x) => {
            args.push(text("--rule"));
            args.push(text(x));
        },
        None => {},
    }
    let ghost with_rule = views(args@);
    match input_path {
        Some(p) => {
            args.push(text(p));
        },
        None => {},
    }
    proof {
        let r = match rule { Some(x) => Some(x@), None => None };
        let ip = match input_path { Some(p) => Some(p@), None => None };
        assert(head =~= seq!["--width"@, decimal_text(config.max_width as nat), "--indent"@, decimal_text(config.indent as nat)]);
        assert(with_tabs =~= head + (if config.use_tabs { seq!["--tabs"@] } else { Seq::empty() }));
        assert(with_rule =~= with_tabs + (match r { Some(x) => seq!["--rule"@, x], None => Seq::empty() }));
        assert(views(args@) =~= with_rule + (match ip { Some(p) => seq![p], None => Seq::empty() }));
    }
    args
}

/// The items with `sep` between each two of them.
pub open spec fn join_with(items: Seq<Seq<char>>, sep: Seq<char>) -> Seq<char>
    decreases items.len(),
{
    if items.len() == 0 {
        Seq::empty()
    } else if items.len() == 1 {
        items[0]
    } else {
        join_with(items.drop_last(), sep) + sep + items.last()
    }
}

/// The strings with `sep` between each two of them, as `[String]::join` gives.
pub fn join_strings(items: &Vec<String>, sep: &str) -> (r: String)
    ensures
        r@ == join_with(views(items@), sep@),
{
    let mut out = String::new();
    let mut i: usize = 0;
    while i < items.len()
        invariant
            i <= items.len(),
            out@ == join_with(views(items@).take(i as int), sep@),
        decreases items.len() - i,
    {
        let ghost before = views(items@).take(i as int);
        if i > 0 {
            push_all(&mut out, sep);
        }
        push_all(&mut out, items[i].as_str());
        proof {
            let after = views(items@).take(i + 1);
            assert(after.drop_last() =~= before);
            assert(after.last() == items@[i as int]@);
            if i == 0 {
                assert(before.len() == 0);
                assert(out@ =~= after[0]);
            }
        }
        i = i + 1;
    }
    assert(views(items@).take(items.len() as int) =~= views(items@));
    out
}

/// The match arm of the generated formatter that parses with the rule `name`
/// and lays out what it parsed.
pub open spec fn arm_text(name: Seq<char>) -> Seq<char> {
    "            \""@ + name + "\" => {\n                let ast = GrammarParser::"@ + name
        + "().parse(&input)?;\n                ast.to_doc()\n            }"@
}

/// What the generated formatter's source needs from the rule names: the rule
/// it starts from when none is asked for, a match arm per rule and the list of
/// the rules for its error message.
pub struct JitSources {
    pub entry_rule: String,
    pub match_arms: String,
    pub rule_list: String,
}

/// The entry rule: the last rule, where the root rule of a grammar usually
/// stands, or `start` where there is none.
pub open spec fn spec_entry_rule(names: Seq<Seq<char>>) -> Seq<char> {
    if names.len() > 0 {
        names.last()
    } else {
        "start"@
    }
}

pub open spec fn spec_match_arms(names: Seq<Seq<char>>) -> Seq<char> {
    join_with(names.map_values(|n: Seq<char>| arm_text(n)), "\n"@)
}

pub open spec fn spec_rule_list(names: Seq<Seq<char>>) -> Seq<char> {
    join_with(names, ", "@)
}

fn arm_of(name: &str) -> (r: String)
    ensures
        r@ == arm_text(name@),
{
    let mut out = text("            \"");
    push_all(&mut out, name);
    push_all(&mut out, "\" => {\n                let ast = GrammarParser::");
    push_all(&mut out, name);
    push_all(&mut out, "().parse(&input)?;\n                ast.to_doc()\n            }");
    out
}

/// The pieces of the generated formatter's source, or the error of a grammar
/// in which no rule was found.
pub fn jit_sources(rule_names: &Vec<String>) -> (r: Result<JitSources, String>)
    ensures
        rule_names.len() == 0 <==> r is Err,
        r matches Err(e) ==> e@ == "no rules found in grammar (parse failed?)"@,
        r matches Ok(src) ==> {
            &&& src.entry_rule@ == spec_entry_rule(views(rule_names@))
            &&& src.match_arms@ == spec_match_arms(views(rule_names@))
            &&& src.rule_list@ == spec_rule_list(views(rule_names@))
        },
{
    if rule_names.len() == 0 {
        return Err(text("no rules found in grammar (parse failed?)"));
    }
    let entry_rule = text(rule_names[rule_names.len() - 1].as_str());
    let mut arms: Vec<String> = Vec::new();
    let mut i: usize = 0;
    while i < rule_names.len()
        invariant
            i <= rule_names.len(),
            views(arms@) == views(rule_names@).take(i as int).map_values(|n: Seq<char>| arm_text(n)),
        decreases rule_names.len() - i,
    {
        let ghost old_arms = arms@;
        let arm = arm_of(rule_names[i].as_str());
        arms.push(arm);
        proof {
            assert(arms@ =~= old_arms.push(arm));
            assert(views(arms@) =~= views(old_arms).push(arm@));
            assert(views(rule_names@).take(i + 1) =~= views(rule_names@).take(i as int).push(rule_names@[i as int]@));
            assert(views(arms@) =~= views(rule_names@).take(i + 1).map_values(|n: Seq<char>| arm_text(n)));
        }
        i = i + 1;
    }
    assert(views(rule_names@).take(rule_names.len() as int) =~= views(rule_names@));
    let match_arms = join_strings(&arms, "\n");
    let rule_list = join_strings(rule_names, ", ");
    Ok(JitSources { entry_rule, match_arms, rule_list })
}

/// The manifest of the generated formatter project.
pub const CARGO_TOML: &'static str = r#"[package]
name = "gorgeous-jit"
version = "0.0.0"
edition = "2024"
publish = false

[dependencies]
parse_that = "0.3.0"
bbnf_derive = "0.2.3"
bbnf = "0.2.4"
pprint = "0.3.4"

[profile.release]
opt-level = 2
lto = "thin"
"#;

/// The toolchain file of the generated formatter project.
pub const RUST_TOOLCHAIN: &'static str = "[toolchain]\nchannel = \"nightly\"\n";

/// The generated formatter's `main.rs` up to the default entry rule.
pub const MAIN_RS_HEAD: &'static str = r##"#![feature(cold_path)]

use std::io::{self, Read, Write};
use bbnf_derive::Parser;
use pprint::pprint as render;

#[derive(Parser)]
#[parser(path = "grammar.bbnf", prettify)]
pub struct GrammarParser;

impl<'a> GrammarParserEnum<'a> {
    fn to_doc_trait(&self) -> pprint::Doc<'a> {
        GrammarParserEnum::to_doc(self)
    }
}

fn main() {
    let args: Vec<String> = std::env::args().skip(1).collect();

    let mut rule: Option<String> = None;
    let mut width: usize = 80;
    let mut indent: usize = 4;
    let mut use_tabs = false;
    let mut input_path: Option<String> = None;

    let mut i = 0;
    while i < args.len() {
        match args[i].as_str() {
            "--rule" | "-r" => {
                i += 1;
                rule = args.get(i).cloned();
            }
            "--width" | "-w" => {
                i += 1;
                width = args.get(i).and_then(|s| s.parse().ok()).unwrap_or(80);
            }
            "--indent" | "-i" => {
                i += 1;
                indent = args.get(i).and_then(|s| s.parse().ok()).unwrap_or(4);
            }
            "--tabs" => use_tabs = true,
            _ => input_path = Some(args[i].clone()),
        }
        i += 1;
    }

    let rule = rule.as_deref().unwrap_or(""##;

/// The generated `main.rs` between the default entry rule and the parser arms.
pub const MAIN_RS_BEFORE_ARMS: &'static str = r##"");

    let input = match &input_path {
        Some(path) => std::fs::read_to_string(path).unwrap_or_else(|e| {
            eprintln!("error reading {path}: {e}");
            std::process::exit(1);
        }),
        None => {
            let mut buf = String::new();
            io::stdin().read_to_string(&mut buf).unwrap();
            buf
        }
    };

    let doc: Option<pprint::Doc<'_>> = (|| {
        Some(match rule {
"##;

/// The generated `main.rs` between the parser arms and the list of rules.
pub const MAIN_RS_BEFORE_RULE_LIST: &'static str = r##"
            other => {
                eprintln!("unknown rule: {other}");
                eprintln!("available: ["##;

/// The generated `main.rs` after the list of rules.
pub const MAIN_RS_TAIL: &'static str = r##"]");
                std::process::exit(1);
            }
        })
    })();

    match doc {
        Some(d) => {
            let printer = pprint::Printer::new(width, indent, use_tabs);
            let output = render(d, printer);
            io::stdout().write_all(output.as_bytes()).unwrap();
        }
        None => {
            eprintln!("parse error");
            std::process::exit(1);
        }
    }
}
"##;

/// The text of the generated formatter's `main.rs`: the program reads its
/// options and input, parses with the rule chosen by `--rule` (by default
/// `sources.entry_rule`) through the arms of `sources.match_arms`, and
/// prints the layout; an unknown rule lists `sources.rule_list`.
pub fn main_rs_text(sources: &JitSources) -> (r: String)
    ensures
        r@ == MAIN_RS_HEAD@ + sources.entry_rule@ + MAIN_RS_BEFORE_ARMS@ + sources.match_arms@
            + MAIN_RS_BEFORE_RULE_LIST@ + sources.rule_list@ + MAIN_RS_TAIL@,
{
    let mut out = String::from_str(MAIN_RS_HEAD);
    push_all(&mut out, sources.entry_rule.as_str());
    push_all(&mut out, MAIN_RS_BEFORE_ARMS);
    push_all(&mut out, sources.match_arms.as_str());
    push_all(&mut out, MAIN_RS_BEFORE_RULE_LIST);
    push_all(&mut out, sources.rule_list.as_str());
    push_all(&mut out, MAIN_RS_TAIL);
    out
}

/// The text of the generated formatter project's manifest.
pub fn cargo_toml_text() -> (r: String)
    ensures
        r@ == CARGO_TOML@,
{
    String::from_str(CARGO_TOML)
}

/// The text of the generated formatter project's toolchain file.
pub fn rust_toolchain_text() -> (r: String)
    ensures
        r@ == RUST_TOOLCHAIN@,
{
    String::from_str(RUST_TOOLCHAIN)
}

/// Where the formatter of a grammar is cached: its project directory and its
/// binary.
pub struct JitProject {
    pub dir: String,
    pub binary: String,
}

/// The cached project of the grammar with this content, given the values of
/// `XDG_CACHE_HOME` and `HOME`.
pub fn jit_project(grammar_content: &str, xdg: Option<&str>, home: Option<&str>) -> (r: JitProject)
    ensures
        r.dir@ == spec_cache_dir(
            match xdg { Some(x) => Some(x@), None => None },
            match home { Some(h) => Some(h@), None => None },
            hex16(grammar_digest(grammar_content@)),
        ),
        r.binary@ == spec_binary_path(r.dir@),
{
    let hash = grammar_hash(grammar_content);
    let dir = cache_dir(xdg, home, hash.as_str());
    let binary = binary_path(dir.as_str());
    JitProject { dir, binary }
}


/// What to do for a formatting request through a grammar's cached project.
pub enum JitAction {
    /// Generate and compile the project, then run its binary.
    CompileThenRun,
    /// Run the binary that is already cached.
    Run,
}

/// The action for a request whose cached binary lies at `binary`, given the
/// binaries in the cache, and the cache after a successful request: a missing
/// binary is compiled once and then stays cached.
pub open spec fn spec_jit_step(cached: Set<Seq<char>>, binary: Seq<char>) -> (JitAction, Set<Seq<char>>) {
    if cached.contains(binary) {
        (JitAction::Run, cached)
    } else {
        (JitAction::CompileThenRun, cached.insert(binary))
    }
}

/// The action for a request, given whether the grammar's binary is cached.
pub fn jit_step(binary_exists: bool) -> (a: JitAction)
    ensures
        a == (if binary_exists { JitAction::Run } else { JitAction::CompileThenRun }),
        forall|cached: Set<Seq<char>>, b: Seq<char>|
            cached.contains(b) == binary_exists ==> #[trigger] spec_jit_step(cached, b).0 == a,
{
    if binary_exists {
        JitAction::Run
    } else {
        JitAction::CompileThenRun
    }
}

/// A grammar is compiled at most once: after one successful request, any later
/// request with the same grammar content (whatever its file's path) finds the
/// binary cached, runs it, and leaves the cache as it was.
pub proof fn lemma_compile_once(
    xdg: Option<Seq<char>>,
    home: Option<Seq<char>>,
    content: Seq<char>,
    cached: Set<Seq<char>>,
)
    ensures
        ({
            let binary = spec_binary_path(spec_cache_dir(xdg, home, hex16(grammar_digest(content))));
            let after = spec_jit_step(cached, binary).1;
            &&& after.contains(binary)
            &&& spec_jit_step(after, binary) == (JitAction::Run, after)
        }),
{
}

proof fn lemma_hex_digits_shape(v: nat, n: nat)
    ensures
        hex_digits(v, n).len() == n,
        forall|i: int| 0 <= i < n ==> #[trigger] hex_digits(v, n)[i] != '/',
    decreases n,
{
    if n > 0 {
        lemma_hex_digits_shape(v / 16, (n - 1) as nat);
        let d = v as int % 16;
        assert(hex_char(d) != '/');
        assert forall|i: int| 0 <= i < n implies #[trigger] hex_digits(v, n)[i] != '/' by {
            if i < n - 1 {
                assert(hex_digits(v, n)[i] == hex_digits(v / 16, (n - 1) as nat)[i]);
            }
        }
    }
}

/// Every grammar's cached project is a directory strictly inside the cache
/// root, one level down, named by the grammar's hash, a name of 16
/// characters without `/`: the root is the parent of every grammar's
/// directory, so removing it removes every cached formatter and nothing
/// outside the cache.
pub proof fn lemma_cache_dir_in_root(xdg: Option<Seq<char>>, home: Option<Seq<char>>, content: Seq<char>)
    ensures
        ({
            let root = spec_cache_root(xdg, home);
            let dir = spec_cache_dir(xdg, home, hex16(grammar_digest(content)));
            let hash = hex16(grammar_digest(content));
            &&& hash.len() == 16
            &&& forall|i: int| 0 <= i < 16 ==> #[trigger] hash[i] != '/'
            &&& dir == (if root.len() == 0 || root.last() == '/' { root + hash } else { root + seq!['/'] + hash })
        }),
{
    let hash = hex16(grammar_digest(content));
    lemma_hex_digits_shape(grammar_digest(content) as nat, 16);
    assert(hash[0] != '/');
}

} // verus!
