use gorgeous::config::PrinterConfig;
use gorgeous::css::{prettify_css, prettify_css_range, split_selectors, CssParser};

#[test]
fn split_selectors_respects_brackets() {
    assert_eq!(split_selectors("a, b"), vec!["a".to_string(), "b".to_string()]);
    assert_eq!(split_selectors(":is(.a, .b), p"), vec![":is(.a, .b)".to_string(), "p".to_string()]);
    assert_eq!(split_selectors("[attr=\"x,y\"]"), vec!["[attr=\"x,y\"]".to_string()]);
    assert_eq!(split_selectors(" h1 ,\n h2 , h3 "), vec!["h1".to_string(), "h2".to_string(), "h3".to_string()]);
    assert_eq!(split_selectors(""), vec!["".to_string()]);
    assert_eq!(split_selectors(") , a"), vec![")".to_string(), "a".to_string()]);
}

#[test]
fn selector_list_doc_only_for_lists() {
    assert!(CssParser::selector_list_doc("body").is_none());
    assert!(CssParser::selector_list_doc(":not(.a, .b)").is_none());
    assert!(CssParser::selector_list_doc("h1, h2").is_some());
}

#[test]
fn commas_inside_brackets_keep_one_selector() {
    for t in [" :is(.a, .b) ", "a[x=\"1,2\"]", ":not(a, b):where(c, d)"] {
        assert_eq!(split_selectors(t), vec![t.trim().to_string()]);
        assert!(CssParser::selector_list_doc(t).is_none());
    }
}

#[test]
fn test_prettify_simple_rule() {
    let config = PrinterConfig::default();
    let input = "body { color: red; }";
    let result = prettify_css(input, &config);
    assert!(result.is_some(), "should parse simple CSS rule");
    let output = result.unwrap();
    assert!(output.contains("body"), "should contain selector");
    assert!(output.contains("color"), "should contain property");
    assert!(output.contains("red"), "should contain value");
}

#[test]
fn test_prettify_multi_declaration() {
    let config = PrinterConfig::default();
    let input = "h1 { font-size: 24px; color: blue; margin: 0; }";
    let result = prettify_css(input, &config);
    assert!(result.is_some(), "should parse multi-declaration rule");
    let output = result.unwrap();
    assert!(output.contains("font-size"), "should contain font-size");
    assert!(output.contains("color"), "should contain color");
    assert!(output.contains("margin"), "should contain margin");
}

#[test]
fn test_prettify_media_query() {
    let config = PrinterConfig::default();
    let input = "@media (max-width: 768px) { .sidebar { display: none; } }";
    let result = prettify_css(input, &config);
    assert!(result.is_some(), "should parse @media rule");
    let output = result.unwrap();
    assert!(output.contains("@media"), "should contain @media");
    assert!(output.contains("sidebar"), "should contain nested selector");
}

#[test]
fn css_test_prettify_multi_rule() {
    let config = PrinterConfig::default();
    let input = "h1 { color: red; }\np { margin: 0; }";
    let result = prettify_css(input, &config);
    assert!(result.is_some(), "should parse multiple rules");
    let output = result.unwrap();
    assert!(output.contains("h1"), "should contain first selector");
    assert!(output.contains("margin"), "should contain second rule prop");
}

#[test]
fn test_prettify_css_idempotent() {
    let config = PrinterConfig::default();
    let input = "body { color: red; font-size: 16px; }";
    let first = prettify_css(input, &config).unwrap();
    let second = prettify_css(&first, &config).unwrap();
    assert_eq!(first.trim(), second.trim(), "prettify should be idempotent");
}

#[test]
fn test_prettify_minified_css() {
    let config = PrinterConfig::default();
    let input = "html{line-height:1.15;-webkit-text-size-adjust:100%}body{margin:0}";
    let result = prettify_css(input, &config);
    assert!(result.is_some(), "should parse minified CSS");
    let output = result.unwrap();
    assert!(output.contains("html"), "should contain html selector");
    assert!(output.contains("line-height"), "should contain line-height");
    assert!(output.contains("-webkit-text-size-adjust"), "should contain vendor prefix");
    assert!(output.contains("body"), "should contain body selector");
}

#[test]
fn test_css_formatting_output() {
    let config = PrinterConfig::default();
    // Spaced CSS should produce properly formatted output
    let input = "html { line-height: 1.15; } body { margin: 0 }";
    let result = prettify_css(input, &config).unwrap();
    // Rules should be separated by blank lines
    assert!(result.contains("\n\n"), "top-level rules should have blank line separation");
    // Declarations should be indented
    assert!(result.contains("    line-height"), "declarations should be indented");
}

#[test]
fn test_prettify_no_trailing_semicolon() {
    let config = PrinterConfig::default();
    let input = "body{color:red}";
    let result = prettify_css(input, &config);
    assert!(result.is_some(), "should parse CSS without trailing semicolon");
    let output = result.unwrap();
    assert!(output.contains("color"), "should contain property");
    assert!(output.contains("red"), "should contain value");
}

#[test]
fn css_exact_layouts() {
    let config = PrinterConfig::default();
    let out = prettify_css("html{line-height:1.15;-webkit-text-size-adjust:100%}body{margin:0}", &config).unwrap();
    assert_eq!(out, "html {\n    line-height: 1.15;\n    -webkit-text-size-adjust: 100%\n}\n\nbody {\n    margin: 0\n}");
    let out = prettify_css("@media (max-width: 768px) { .sidebar { display: none; } }", &config).unwrap();
    assert_eq!(out, "@media (max-width: 768px) {\n    .sidebar {\n        display: none;\n    }\n}");
    let out = prettify_css("/* top */ a{font: 12px  Arial , sans-serif !important ;} @import url(x.css) , url(y.css);", &config).unwrap();
    assert_eq!(out, "/* top */\n\na {\n    font: 12px  Arial, sans-serif !important;\n}\n\n@import url(x.css), url(y.css);");
    let out = prettify_css("@charset \"utf-8\";p{}", &config).unwrap();
    assert_eq!(out, "@charset \"utf-8\";\n\np {}");
    assert_eq!(prettify_css("", &config).unwrap(), "");
}

#[test]
fn css_reads_as_far_as_it_can() {
    let config = PrinterConfig::default();
    // A rule that cannot be read ends the stylesheet.
    assert_eq!(prettify_css("a{color:red} }b{}", &config).unwrap(), "a {\n    color: red\n}");
    let sheet = CssParser::stylesheet("a{}b{}");
    assert!(matches!(sheet.rules, gorgeous::css_grammar::Nodes::Node(_, _, _, _)));
}

#[test]
fn css_formatting_changes_only_white_space() {
    let strip = |t: &str| t.chars().filter(|c| !c.is_whitespace()).collect::<String>();
    let input = "/* a */ html{line-height:1.15;-webkit-text-size-adjust:100%} @media (max-width: 768px) { .sidebar { display: none !important; } }\n@import url(a.css), url(b.css);\n@font-face{font-family:X}";
    for width in [80, 10] {
        let config = PrinterConfig { max_width: width, indent: 2, use_tabs: false };
        let out = prettify_css(input, &config).unwrap();
        assert_eq!(strip(&out), strip(input), "at width {width}");
    }
}

#[test]
fn split_selectors_round_trip() {
    for text in ["a,b", "h1,h2,h3", "a:is(.x,.y),b[t=\"1,2\"]", "single", ":not([a,b])"] {
        let parts = split_selectors(text);
        assert_eq!(parts.join(","), text);
    }
    let top_commas = |t: &str| {
        let mut depth = 0i32;
        let mut n = 0;
        for c in t.chars() {
            match c {
                '(' | '[' => depth += 1,
                ')' | ']' => depth = (depth - 1).max(0),
                ',' if depth == 0 => n += 1,
                _ => {}
            }
        }
        n
    };
    for text in ["a, b", " x ", "p:is(a, b), q", "", ","] {
        assert_eq!(split_selectors(text).len(), 1 + top_commas(text), "{text:?}");
    }
    assert_eq!(split_selectors(" a , b "), vec!["a".to_string(), "b".to_string()]);
}

#[test]
fn css_range_formats_only_overlapping_rules() {
    let config = PrinterConfig::default();
    let input = "a{color:red;}\nb,c{color:blue;}";
    // Only the first rule overlaps positions 0..3.
    assert_eq!(
        prettify_css_range(input, 0..3, &config).unwrap(),
        "a {\n    color: red;\n}\n\nb,c{color:blue;}"
    );
    // Positions 15..16 overlap the second rule but not its declaration, which
    // keeps its text; the rule's selectors form a list.
    assert_eq!(
        prettify_css_range(input, 15..16, &config).unwrap(),
        "a{color:red;}\n\nb, c {\n    color:blue;\n}"
    );
    assert_eq!(
        prettify_css_range(input, 14..30, &config).unwrap(),
        "a{color:red;}\n\nb, c {\n    color: blue;\n}"
    );
    // A range between the rules formats neither.
    assert_eq!(prettify_css_range(input, 13..14, &config).unwrap(), "a{color:red;}\n\nb,c{color:blue;}");
    // A narrow width breaks a long selector list, one selector per line.
    let narrow = PrinterConfig { max_width: 12, indent: 2, use_tabs: false };
    assert_eq!(
        prettify_css_range(".alpha,.beta{x:y;}", 0..18, &narrow).unwrap(),
        ".alpha,\n.beta {\n  x: y;\n}"
    );
}

#[test]
fn css_selector_lists_form_one_group() {
    let config = PrinterConfig::default();
    assert_eq!(prettify_css("a,b{}", &config).unwrap(), "a, b {}");
    assert_eq!(prettify_css("h1 ,h2,  h3{color:red}", &config).unwrap(), "h1, h2, h3 {\n    color: red\n}");
    let narrow = PrinterConfig { max_width: 6, indent: 2, use_tabs: false };
    assert_eq!(prettify_css(".alpha,.beta{x:y}", &narrow).unwrap(), ".alpha,\n.beta {\n  x: y\n}");
    // Commas inside parentheses do not divide the list.
    assert_eq!(prettify_css(":is(a,b){}", &config).unwrap(), ":is(a,b) {}");
}
