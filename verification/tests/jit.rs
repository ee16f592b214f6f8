use std::hash::{Hash, Hasher};
use std::path::PathBuf;

use gorgeous::cli::parse_usize;
use gorgeous::config::PrinterConfig;
use gorgeous::jit::{
    binary_path, cache_dir, cache_root, cargo_toml_text, grammar_hash, hex_string, jit_args, jit_project,
    jit_sources, jit_step, join, join_strings, main_rs_text, rust_toolchain_text, usize_text, JitAction,
};

fn std_hash(s: &str) -> String {
    let mut h = std::collections::hash_map::DefaultHasher::new();
    s.hash(&mut h);
    format!("{:016x}", h.finish())
}

fn strings(xs: &[&str]) -> Vec<String> {
    xs.iter().map(|s| s.to_string()).collect()
}

#[test]
fn hex_string_is_sixteen_lowercase_digits() {
    assert_eq!(hex_string(0), "0000000000000000");
    assert_eq!(hex_string(0xdead_beef), "00000000deadbeef");
    assert_eq!(hex_string(u64::MAX), "ffffffffffffffff");
    assert_eq!(hex_string(0x0123_4567_89ab_cdef), "0123456789abcdef");
}

#[test]
fn grammar_hash_matches_default_hasher() {
    for g in ["", "value = object | array ;", "a = \"x\" ;\nb = a* ;"] {
        let h = grammar_hash(g);
        assert_eq!(h, std_hash(g));
        assert_eq!(h.len(), 16);
    }
    assert_eq!(grammar_hash("same"), grammar_hash("same"));
    assert_ne!(grammar_hash("a = 'x' ;"), grammar_hash("a = 'y' ;"));
}

#[test]
fn usize_text_writes_decimal() {
    assert_eq!(usize_text(0), "0");
    assert_eq!(usize_text(7), "7");
    assert_eq!(usize_text(120), "120");
    assert_eq!(usize_text(usize::MAX), usize::MAX.to_string());
}

#[test]
fn usize_text_reads_back() {
    for n in [0usize, 1, 9, 10, 80, 4096, usize::MAX] {
        assert_eq!(parse_usize(&usize_text(n)), Some(n));
    }
}

#[test]
fn join_follows_path_join() {
    for (a, b) in [("a", "b"), ("a/", "b"), ("", "b"), ("a", "/b"), ("a", ""), ("/", "x"), ("a//", "b/c")] {
        let expected = PathBuf::from(a).join(b);
        assert_eq!(join(a, b), expected.to_str().unwrap(), "join({a:?}, {b:?})");
    }
}

#[test]
fn cache_dir_locations() {
    assert_eq!(cache_dir(Some("/x"), Some("/h"), "abc"), "/x/gorgeous/abc");
    assert_eq!(cache_dir(None, Some("/home/u"), "abc"), "/home/u/.cache/gorgeous/abc");
    assert_eq!(cache_dir(None, None, "abc"), "./.cache/gorgeous/abc");
    assert_eq!(cache_dir(Some(""), None, "abc"), "gorgeous/abc");
    let expected = PathBuf::from("/home/u").join(".cache").join("gorgeous").join("0123");
    assert_eq!(cache_dir(None, Some("/home/u"), "0123"), expected.to_str().unwrap());
    assert_eq!(binary_path("/c/gorgeous/abc"), "/c/gorgeous/abc/target/release/gorgeous-jit");
}

#[test]
fn cached_projects_lie_inside_the_cache_root() {
    let root = cache_root(None, Some("/home/u"));
    assert_eq!(root, "/home/u/.cache/gorgeous");
    let p = jit_project("a = 'x' ;", None, Some("/home/u"));
    assert_eq!(p.dir, format!("{}/{}", root, std_hash("a = 'x' ;")));
    assert_eq!(p.binary, format!("{}/target/release/gorgeous-jit", p.dir));
    assert_eq!(cache_root(Some("/x/"), None), "/x/gorgeous");
}

#[test]
fn jit_command_line() {
    let c = PrinterConfig { max_width: 80, indent: 4, use_tabs: false };
    assert_eq!(jit_args(&c, None, None), strings(&["--width", "80", "--indent", "4"]));
    let c = PrinterConfig { max_width: 120, indent: 2, use_tabs: true };
    assert_eq!(
        jit_args(&c, Some("expr"), Some("in.txt")),
        strings(&["--width", "120", "--indent", "2", "--tabs", "--rule", "expr", "in.txt"])
    );
    assert_eq!(jit_args(&c, None, Some("in.txt")), strings(&["--width", "120", "--indent", "2", "--tabs", "in.txt"]));
}

#[test]
fn jit_sources_of_rules() {
    match jit_sources(&Vec::new()) {
        Err(e) => assert_eq!(e, "no rules found in grammar (parse failed?)"),
        Ok(_) => panic!("a grammar without rules must be refused"),
    }
    let s = jit_sources(&strings(&["value", "object"])).ok().unwrap();
    assert_eq!(s.entry_rule, "object");
    assert_eq!(s.rule_list, "value, object");
    assert_eq!(
        s.match_arms,
        "            \"value\" => {\n                let ast = GrammarParser::value().parse(&input)?;\n                ast.to_doc()\n            }\n            \"object\" => {\n                let ast = GrammarParser::object().parse(&input)?;\n                ast.to_doc()\n            }"
    );
    let s = jit_sources(&strings(&["only"])).ok().unwrap();
    assert_eq!(s.entry_rule, "only");
    assert_eq!(s.rule_list, "only");
}

#[test]
fn join_strings_as_slice_join() {
    assert_eq!(join_strings(&strings(&[]), ", "), "");
    assert_eq!(join_strings(&strings(&["a"]), ", "), "a");
    assert_eq!(join_strings(&strings(&["a", "b", "c"]), ", "), ["a", "b", "c"].join(", "));
}

#[test]
fn missing_binary_is_compiled_then_cached_binary_runs() {
    assert!(matches!(jit_step(false), JitAction::CompileThenRun));
    assert!(matches!(jit_step(true), JitAction::Run));
    // Two files with the same grammar text share one cached binary, so the
    // second request finds what the first one compiled.
    let a = jit_project("x = \"a\" ;", None, Some("/home/u"));
    let b = jit_project("x = \"a\" ;", None, Some("/home/u"));
    assert_eq!(a.binary, b.binary);
    let mut cached: Vec<String> = Vec::new();
    for project in [&a, &b] {
        let exists = cached.contains(&project.binary);
        if let JitAction::CompileThenRun = jit_step(exists) {
            cached.push(project.binary.clone());
        }
    }
    assert_eq!(cached.len(), 1);
}

#[test]
fn generated_project_texts() {
    let toml = cargo_toml_text();
    assert!(toml.starts_with("[package]\nname = \"gorgeous-jit\"\n"));
    assert!(toml.contains("[dependencies]\nparse_that = \"0.3.0\"\nbbnf_derive = \"0.2.3\"\nbbnf = \"0.2.4\"\npprint = \"0.3.4\"\n"));
    assert!(toml.ends_with("lto = \"thin\"\n"));
    assert_eq!(rust_toolchain_text(), "[toolchain]\nchannel = \"nightly\"\n");
    let sources = jit_sources(&strings(&["expr", "term"])).unwrap();
    let main = main_rs_text(&sources);
    assert!(main.starts_with("#![feature(cold_path)]\n"));
    assert!(main.contains("let rule = rule.as_deref().unwrap_or(\"term\");"));
    assert!(main.contains(&sources.match_arms));
    assert!(main.contains("eprintln!(\"available: [expr, term]\");"));
    assert!(main.contains("struct GrammarParser;"));
    assert!(main.ends_with("}\n"));
}
