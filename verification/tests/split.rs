use gorgeous::split::split_balanced;
use gorgeous::vm::{split_table, GrammarIR, IrRule, PrettyHints, Value};

fn pieces(t: &str, d: u8) -> Vec<String> {
    split_balanced(t, d)
}

fn strings(xs: &[&str]) -> Vec<String> {
    xs.iter().map(|s| s.to_string()).collect()
}

#[test]
fn balanced_split_examples() {
    assert_eq!(pieces("no commas here", b','), strings(&["no commas here"]));
    assert_eq!(pieces("a, b, c", b','), strings(&["a", " b", " c"]));
    assert_eq!(pieces(":is(.a, .b), .c", b','), strings(&[":is(.a, .b)", " .c"]));
    assert_eq!(pieces(r#"[attr="x,y"], .z"#, b','), strings(&[r#"[attr="x,y"]"#, " .z"]));
    assert_eq!(pieces(r#""a,b", c"#, b','), strings(&[r#""a,b""#, " c"]));
    assert_eq!(pieces("'a,b', c", b','), strings(&["'a,b'", " c"]));
    assert_eq!(pieces(":is(:not(.a, .b), .c), .d", b','), strings(&[":is(:not(.a, .b), .c)", " .d"]));
    assert_eq!(pieces(",a,,b,", b','), strings(&["", "a", "", "b", ""]));
    assert_eq!(pieces(",", b','), strings(&["", ""]));
    assert_eq!(pieces("", b','), strings(&[""]));
    assert_eq!(
        pieces(r#":is(.a, .b), [data-x="1,2"], 'hello, world'"#, b','),
        strings(&[":is(.a, .b)", r#" [data-x="1,2"]"#, " 'hello, world'"])
    );
}

#[test]
fn balanced_split_round_trip() {
    for (t, d) in [("a;b;(c;d);'e;f'", b';'), ("x||y", b'|'), ("é,ü", b','), ("plain", b',')] {
        let ps = pieces(t, d);
        assert_eq!(ps.join(&(d as char).to_string()), t);
    }
    // A closing bracket at depth 0 is ignored; a quote opens a string until its match.
    assert_eq!(pieces(")a,b", b','), strings(&[")a", "b"]));
    assert_eq!(pieces("\"a,b,c", b','), strings(&["\"a,b,c"]));
    // A delimiter byte outside ASCII divides nothing.
    assert_eq!(pieces("aéb", 0xc3), strings(&["aéb"]));
}

#[test]
fn split_table_rows_follow_texts_and_delimiters() {
    let hints = |d: &str| PrettyHints { split: Some(d.to_string()), ..PrettyHints::default() };
    let ir = GrammarIR {
        rules: vec![IrRule { name: 0, pretty: Some(hints(";")) }, IrRule { name: 1, pretty: Some(hints(",")) }],
    };
    let input = "a,b;c";
    let value = Value::Tagged { tag: 0, span: (0, 5), children: vec![Value::Span(0, 3)] };
    let table = split_table(&ir, &value, input);
    let rows: Vec<(String, u8, Vec<String>)> = table.into_iter().map(|e| (e.text, e.delim, e.parts)).collect();
    assert_eq!(
        rows,
        vec![
            ("a,b;c".to_string(), b';', strings(&["a,b", "c"])),
            ("a,b;c".to_string(), b',', strings(&["a", "b;c"])),
            ("a,b".to_string(), b';', strings(&["a,b"])),
            ("a,b".to_string(), b',', strings(&["a", "b"])),
        ]
    );
}
