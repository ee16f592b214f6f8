use gorgeous::config::PrinterConfig;
use gorgeous::css::CssParser;
use gorgeous::doc::{printable_doc, render, Document};
use gorgeous::vm::{apply_hints, PrettyHints};

fn cfg(w: usize) -> PrinterConfig {
    PrinterConfig { max_width: w, indent: 2, use_tabs: false }
}

#[test]
fn null_is_neutral_under_add() {
    let c = cfg(80);
    assert_eq!(render(&Document::Null.add(Document::text("x")), &c), "x");
    assert_eq!(render(&Document::text("x").add(Document::Null), &c), "x");
    let d = Document::text("a").add(Document::text("b"));
    assert_eq!(render(&d.add(Document::Null), &c), "ab");
}

#[test]
fn hints_switched_off_leave_the_document() {
    let off = PrettyHints { off: true, group: true, indent: true, ..PrettyHints::default() };
    let d = apply_hints(Document::text("keep"), Some(&off));
    assert_eq!(render(&d, &cfg(80)), "keep");
    let d = apply_hints(Document::text("keep"), None);
    assert_eq!(render(&d, &cfg(80)), "keep");
}

#[test]
fn selector_group_breaks_only_when_too_wide() {
    let d = CssParser::selector_list_doc("h1,h2 ,  h3").unwrap();
    assert_eq!(render(&d, &cfg(80)), "h1, h2, h3");
    let d = CssParser::selector_list_doc("h1,h2 ,  h3").unwrap();
    assert_eq!(render(&d, &cfg(5)), "h1,\nh2,\nh3");
}

#[test]
fn selector_layout_changes_only_white_space() {
    let strip = |t: &str| t.chars().filter(|c| !c.is_whitespace()).collect::<String>();
    for t in ["h1,h2 ,  h3", " a:is(.x, .y) , b[t=\"1,2\"]\n, c ", "a,\u{a0}b"] {
        for w in [80, 4] {
            let d = CssParser::selector_list_doc(t).unwrap();
            assert_eq!(strip(&render(&d, &cfg(w))), strip(t), "selectors {t:?} at width {w}");
        }
    }
}

#[test]
fn printable_bounds_what_the_printer_measures() {
    let d = Document::text("abc").add(Document::Hardline).group();
    assert!(printable_doc(&d, &cfg(80)));
    let wide = PrinterConfig { max_width: usize::MAX, indent: 2, use_tabs: false };
    let two = Document::Concat(vec![Document::Hardline, Document::Hardline]).group();
    assert!(!printable_doc(&two, &wide));
    let deep = PrinterConfig { max_width: 80, indent: usize::MAX / 2, use_tabs: false };
    assert!(!printable_doc(&two, &deep));
}
