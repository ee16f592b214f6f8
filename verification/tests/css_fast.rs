use gorgeous::config::PrinterConfig;
use gorgeous::css_fast::{prettify_css_fast, CssFastParser};
use gorgeous::css_grammar::Nodes;

#[test]
fn css_fast_layouts() {
    let config = PrinterConfig::default();
    let out = prettify_css_fast("html{line-height:1.15;-webkit-text-size-adjust:100%}body{margin:0}", &config).unwrap();
    assert_eq!(out, "html {\n    line-height: 1.15;\n    -webkit-text-size-adjust: 100%\n}\n\nbody {\n    margin: 0\n}");
    // Values are taken whole, commas included; selectors lose their trailing space.
    let out = prettify_css_fast("a , b  { font: 12px  Arial , sans-serif !important; }", &config).unwrap();
    assert_eq!(out, "a , b {\n    font: 12px  Arial , sans-serif !important;\n}");
    // Every at-rule is read as a name, a prelude and a block or `;`.
    let out = prettify_css_fast("@media screen { p { color: red } } @import url(a.css);", &config).unwrap();
    assert_eq!(out, "@media screen {\n    p {\n        color: red\n    }\n}\n\n@import url(a.css);");
    // An empty value is a value.
    let out = prettify_css_fast("p { color: ; }", &config).unwrap();
    assert_eq!(out, "p {\n    color: ;\n}");
    assert_eq!(prettify_css_fast("", &config).unwrap(), "");
}

#[test]
fn css_fast_reads_as_far_as_it_can() {
    let sheet = CssFastParser::stylesheet("/* c */ a{} b{} }");
    match sheet.rules {
        Nodes::Node(_, _, _, rest) => assert!(matches!(*rest, Nodes::Node(_, _, _, _))),
        Nodes::End => panic!("expected rules"),
    }
    let config = PrinterConfig::default();
    assert_eq!(prettify_css_fast("a{x:y} } b{}", &config).unwrap(), "a {\n    x: y\n}");
}

#[test]
fn css_fast_formatting_is_stable() {
    let config = PrinterConfig::default();
    let input = "/* a */ html{line-height:1.15} @media (max-width: 768px) { .s { display: none !important; } }";
    let first = prettify_css_fast(input, &config).unwrap();
    let second = prettify_css_fast(&first, &config).unwrap();
    assert_eq!(first, second);
}
