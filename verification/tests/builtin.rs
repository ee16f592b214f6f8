use gorgeous::builtin::{builtin_language, detect_language, BuiltinLanguage};

#[test]
fn detect_language_by_extension() {
    assert_eq!(detect_language("input.json"), Some("json"));
    assert_eq!(detect_language("a/b/config.jsonc"), Some("json"));
    assert_eq!(detect_language("x.json5"), Some("json"));
    assert_eq!(detect_language("style.css"), Some("css"));
    assert_eq!(detect_language("theme.scss"), Some("css"));
    assert_eq!(detect_language("g.ebnf"), Some("ebnf"));
    assert_eq!(detect_language("g.bnf"), Some("bnf"));
    assert_eq!(detect_language("my.bbnf"), Some("bbnf"));
}

#[test]
fn detect_language_unknown_or_missing_extension() {
    assert_eq!(detect_language("notes.txt"), None);
    assert_eq!(detect_language("Makefile"), None);
    assert_eq!(detect_language(".json"), None);
    assert_eq!(detect_language("dir.json/file"), None);
    assert_eq!(detect_language(""), None);
    assert_eq!(detect_language("a/.."), None);
    assert_eq!(detect_language("JSON.JSON"), None);
}

#[test]
fn detect_language_path_normalisation() {
    assert_eq!(detect_language("out/data.json/"), Some("json"));
    assert_eq!(detect_language("out/data.css/."), Some("css"));
    assert_eq!(detect_language("out//data..bnf"), Some("bnf"));
    assert_eq!(detect_language("archive.tar.json"), Some("json"));
}

#[test]
fn builtin_languages_by_name() {
    assert_eq!(builtin_language("json"), Ok(BuiltinLanguage::Json));
    assert_eq!(builtin_language("css"), Ok(BuiltinLanguage::Css));
    assert_eq!(builtin_language("ebnf"), Ok(BuiltinLanguage::Ebnf));
    assert_eq!(builtin_language("bnf"), Ok(BuiltinLanguage::Bnf));
    assert_eq!(builtin_language("bbnf"), Ok(BuiltinLanguage::Bbnf));
    assert_eq!(builtin_language("yaml"), Err("unknown language: yaml".to_string()));
    assert_eq!(builtin_language("JSON"), Err("unknown language: JSON".to_string()));
    assert_eq!(builtin_language(""), Err("unknown language: ".to_string()));
}

#[test]
fn language_depends_on_the_file_name_only() {
    for name in ["a.json", "b.css", "c.txt", "d.bbnf", "noext"] {
        assert_eq!(detect_language(&format!("some/dir/{name}")), detect_language(name));
        assert_eq!(detect_language(&format!("{name}/")), detect_language(name));
    }
}
