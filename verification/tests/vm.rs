use gorgeous::config::PrinterConfig;
use gorgeous::vm::{
    format_ir, format_value, split_delimiters, split_texts, value_fits, GrammarIR, IrRule,
    PrettyHints, SplitEntry, Value,
};

/// Build a minimal IR with one rule that has the given pretty hints.
fn make_ir(hints: PrettyHints) -> GrammarIR {
    GrammarIR { rules: vec![IrRule { name: 0, pretty: Some(hints) }] }
}

/// Build a Tagged value with N Span children at distinct offsets.
fn tagged_spans(input: &str, n: usize) -> Value {
    let chunk = input.len() / n;
    let children: Vec<Value> = (0..n)
        .map(|i| Value::Span((i * chunk) as u32, ((i + 1) * chunk) as u32))
        .collect();
    Value::Tagged { tag: 0, span: (0, input.len() as u32), children }
}

/// Format a tagged value with the given hints.
fn fmt(hints: PrettyHints, input: &str, n: usize, max_width: usize) -> String {
    let ir = make_ir(hints);
    let value = tagged_spans(input, n);
    let printer = PrinterConfig { max_width, indent: 2, use_tabs: false };
    format_value(&ir, &value, input, printer, &Vec::new()).unwrap()
}

fn default_hints() -> PrettyHints {
    PrettyHints::default()
}

#[test]
fn hint_blankline() {
    let hints = PrettyHints { blankline: true, ..default_hints() };
    let output = fmt(hints, "aaabbbccc", 3, 80);
    assert!(output.contains("\n\n"), "blankline should produce double newline, got: {:?}", output);
}

#[test]
fn hint_block() {
    let hints = PrettyHints { block: true, ..default_hints() };
    let output = fmt(hints, "aaabbb", 2, 80);
    assert!(output.contains('\n'), "block should produce newlines, got: {:?}", output);
    assert!(!output.contains("\n\n"), "block should not produce blank lines, got: {:?}", output);
}

#[test]
fn hint_sep() {
    let hints = PrettyHints { sep: Some(", ".to_string()), ..default_hints() };
    let output = fmt(hints, "aaabbbccc", 3, 80);
    assert!(output.contains(", "), "sep should produce comma-space separator, got: {:?}", output);
}

#[test]
fn hint_group_sep() {
    let hints = PrettyHints { group: true, sep: Some(", ".to_string()), ..default_hints() };
    let output = fmt(hints, "alphbetagram", 3, 10);
    assert!(output.contains('\n'), "group sep should break when width exceeded, got: {:?}", output);
}

#[test]
fn hint_compact() {
    let hints = PrettyHints { compact: true, ..default_hints() };
    let output = fmt(hints, "aaabbb", 2, 80);
    assert_eq!(output, "aaabbb", "compact should concatenate without separator");
}

#[test]
fn hint_indent_group() {
    let hints = PrettyHints {
        indent: true,
        group: true,
        sep: Some(", ".to_string()),
        ..default_hints()
    };
    let output = fmt(hints, "alphbetagram", 3, 10);
    let has_indent = output.lines().skip(1).any(|l| l.starts_with("  "));
    assert!(has_indent, "indent group should produce indented lines, got: {:?}", output);
}

#[test]
fn hint_off() {
    let hints = PrettyHints { off: true, group: true, indent: true, ..default_hints() };
    let output = fmt(hints, "aaabbb", 2, 80);
    assert_eq!(output, "aaabbb", "off should disable formatting wrappers");
}

#[test]
fn hint_split() {
    let hints = PrettyHints {
        split: Some(",".to_string()),
        sep: Some(", ".to_string()),
        ..default_hints()
    };
    let input = "a,bc,d";
    let ir = make_ir(hints);
    let value = Value::Tagged {
        tag: 0,
        span: (0, 6),
        children: vec![Value::Span(0, 3), Value::Span(3, 6)],
    };
    // What the balanced splitter gives for the two span texts.
    let splits = vec![
        SplitEntry { text: "a,b".to_string(), delim: b',', parts: vec!["a".to_string(), "b".to_string()] },
        SplitEntry { text: "c,d".to_string(), delim: b',', parts: vec!["c".to_string(), "d".to_string()] },
    ];
    let printer = PrinterConfig { max_width: 80, indent: 2, use_tabs: false };
    let output = format_value(&ir, &value, input, printer, &splits).unwrap();
    assert!(output.contains(", "), "split should separate by delimiter, got: {:?}", output);
}

#[test]
fn hint_softbreak() {
    let hints = PrettyHints { softbreak: true, ..default_hints() };
    let output = fmt(hints, "aaabbb", 2, 80);
    assert_eq!(output, "aaabbb", "softbreak flat should concatenate");
}

#[test]
fn hint_nobreak() {
    let hints = PrettyHints { nobreak: true, ..default_hints() };
    let output = fmt(hints, "aaabbb", 2, 80);
    assert!(output.contains(' '), "nobreak should join with space, got: {:?}", output);
    assert!(!output.contains('\n'), "nobreak should never break, got: {:?}", output);
}

#[test]
fn hint_fast() {
    let hints = PrettyHints { fast: true, ..default_hints() };
    let output = fmt(hints, "aaabbb", 2, 80);
    assert!(output.contains('\n'), "fast should produce newlines, got: {:?}", output);
}

#[test]
fn format_ir_convenience() {
    let hints = PrettyHints { block: true, ..default_hints() };
    let ir = make_ir(hints);
    let value = tagged_spans("aaabbb", 2);
    let config = PrinterConfig::new(80, 2);
    let output = format_ir(&ir, &value, "aaabbb", &config, &Vec::new()).unwrap();
    assert!(output.contains('\n'), "format_ir should work like format_value");
}

#[test]
fn nil_and_empty_spans_give_nothing() {
    let ir = GrammarIR { rules: vec![] };
    let printer = PrinterConfig::default();
    assert!(format_value(&ir, &Value::Nil, "abc", PrinterConfig::default(), &Vec::new()).is_none());
    assert!(format_value(&ir, &Value::Span(1, 1), "abc", printer, &Vec::new()).is_none());
}

#[test]
fn unhinted_node_with_discarded_delimiters_keeps_its_text() {
    // The children leave out the brackets: the node falls back to its span text.
    let ir = GrammarIR { rules: vec![] };
    let input = "[a  b]";
    let value = Value::Tagged { tag: 7, span: (0, 6), children: vec![Value::Span(1, 2), Value::Span(4, 5)] };
    let out = format_value(&ir, &value, input, PrinterConfig::default(), &Vec::new()).unwrap();
    assert_eq!(out, "[a  b]");
    // Without gaps the children are concatenated.
    let value2 = Value::Tagged { tag: 7, span: (1, 5), children: vec![Value::Span(1, 2), Value::Span(4, 5)] };
    let out2 = format_value(&ir, &value2, input, PrinterConfig::default(), &Vec::new()).unwrap();
    assert_eq!(out2, "ab");
}

#[test]
fn group_indent_with_closing_bracket() {
    let hints = PrettyHints { group: true, indent: true, sep: Some(", ".to_string()), ..default_hints() };
    let ir = make_ir(hints);
    let input = "f(aaaa,bbbb)";
    let value = Value::Tagged {
        tag: 0,
        span: (0, 12),
        children: vec![Value::Span(0, 2), Value::Span(2, 6), Value::Span(7, 11), Value::Span(11, 12)],
    };
    let wide = format_value(&ir, &value, input, PrinterConfig::new(80, 2), &Vec::new()).unwrap();
    assert_eq!(wide, "f(aaaabbbb)");
    let narrow = format_value(&ir, &value, input, PrinterConfig::new(6, 2), &Vec::new()).unwrap();
    assert_eq!(narrow, "f(\n  aaaabbbb\n)");
}

#[test]
fn value_fits_checks_boundaries_and_nesting() {
    assert!(value_fits("héllo", &Value::Span(0, 1)));
    assert!(!value_fits("héllo", &Value::Span(0, 2)));
    assert!(!value_fits("abc", &Value::Span(2, 5)));
    assert!(!value_fits("abc", &Value::Span(2, 1)));
    let outside = Value::Tagged { tag: 0, span: (1, 2), children: vec![Value::Span(0, 3)] };
    assert!(!value_fits("abc", &outside));
    let inside = Value::Tagged { tag: 0, span: (0, 3), children: vec![Value::Array(vec![Value::Span(1, 2)])] };
    assert!(value_fits("abc", &inside));
}

#[test]
fn split_texts_and_delimiters() {
    let value = Value::Tagged {
        tag: 0,
        span: (0, 6),
        children: vec![Value::Span(0, 3), Value::Array(vec![Value::Span(3, 6), Value::Nil])],
    };
    assert_eq!(split_texts(&value, "a,bc,d"), vec!["a,bc,d".to_string(), "a,b".to_string(), "c,d".to_string()]);
    let ir = GrammarIR {
        rules: vec![
            IrRule { name: 0, pretty: Some(PrettyHints { split: Some(";".to_string()), ..default_hints() }) },
            IrRule { name: 1, pretty: None },
            IrRule { name: 2, pretty: Some(PrettyHints { split: Some(String::new()), ..default_hints() }) },
        ],
    };
    assert_eq!(split_delimiters(&ir), vec![b';', b',']);
}

#[test]
fn hint_group_sep_breaks_after_trimmed_separator() {
    let hints = || PrettyHints { group: true, sep: Some(", ".to_string()), ..default_hints() };
    assert_eq!(fmt(hints(), "alphbetagram", 3, 80), "alph, beta, gram");
    assert_eq!(fmt(hints(), "alphbetagram", 3, 10), "alph,\nbeta,\ngram");
}
