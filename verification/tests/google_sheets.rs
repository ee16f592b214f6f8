use gorgeous::config::PrinterConfig;
use gorgeous::google_sheets::{parse_formula, prettify_formula, Expr};

#[test]
fn test_parse_simple() {
    assert!(parse_formula("=SUM(A1:A10)").is_some());
}

#[test]
fn test_parse_if() {
    assert!(parse_formula("=IF(A1>0, 1, 0)").is_some());
}

#[test]
fn test_parse_let() {
    let input = r#"=LET(data, A1:Z100, filtered, FILTER(data, INDEX(data,,1)>0), count, ROWS(filtered), IF(count>0, MAKEARRAY(count, 3, LAMBDA(r, c, INDEX(filtered, r, c))), "No data"))"#;
    assert!(parse_formula(input).is_some(), "LET formula should parse");
}

#[test]
fn test_parse_pathological() {
    let input = r#"=LET(raw, A2:E1000, filtered, FILTER(raw, (INDEX(raw,,3)>100)*(INDEX(raw,,5)="Active")), sorted, SORT(filtered, 3, FALSE), IF(ROWS(sorted)>0, MAP(SEQUENCE(MIN(10, ROWS(sorted))), LAMBDA(i, INDEX(sorted, i, 1)&" - "&TEXT(INDEX(sorted, i, 3), "$#,##0"))), "No results"))"#;
    assert!(parse_formula(input).is_some(), "pathological should parse");
}

#[test]
fn test_trailing_space_formatting() {
    let config = PrinterConfig::new(80, 2);
    let without_space = r#"=LET(raw, A2:E1000, filtered, FILTER(raw, (INDEX(raw,,3)>100)*(INDEX(raw,,5)="Active")), sorted, SORT(filtered, 3, FALSE), IF(ROWS(sorted)>0, MAP(SEQUENCE(MIN(10, ROWS(sorted))), LAMBDA(i, INDEX(sorted, i, 1)&" - "&TEXT(INDEX(sorted, i, 3), "$#,##0"))), "No results"))"#;
    let with_space = r#"=LET(raw, A2:E1000, filtered, FILTER(raw, (INDEX(raw,,3)>100)*(INDEX(raw,,5)="Active")), sorted, SORT(filtered, 3, FALSE), IF(ROWS(sorted)>0, MAP(SEQUENCE(MIN(10, ROWS(sorted))), LAMBDA(i, INDEX(sorted, i, 1)&" - "&TEXT(INDEX(sorted, i, 3), "$#,##0"))), "No results") )"#;
    let fmt_without = prettify_formula(without_space, &config).unwrap();
    let fmt_with = prettify_formula(with_space, &config).unwrap();
    println!("AOT without space:\n{}", fmt_without);
    println!("AOT with space:\n{}", fmt_with);
    assert_eq!(fmt_without, fmt_with, "trailing space should not change AOT formatting");
}

#[test]
fn formula_requires_leading_equals() {
    assert!(parse_formula("SUM(A1:A10)").is_none());
    assert!(parse_formula("   =1").is_some());
}

#[test]
fn formula_rejects_unfinished_input() {
    assert!(parse_formula("=SUM(1,2").is_none());
    assert!(parse_formula("=\"open").is_none());
}

#[test]
fn formula_precedence_is_left_associative() {
    let f = parse_formula("=1-2-3").unwrap();
    match f.body {
        Expr::Binary(_, lhs, _) => assert!(matches!(*lhs, Expr::Binary(_, _, _))),
        _ => panic!("expected a binary expression"),
    }
    let g = parse_formula("=1+2*3").unwrap();
    match g.body {
        Expr::Binary(_, lhs, rhs) => {
            assert!(matches!(*lhs, Expr::Number(_)));
            assert!(matches!(*rhs, Expr::Binary(_, _, _)));
        }
        _ => panic!("expected a binary expression"),
    }
}

#[test]
fn formula_short_call_stays_on_one_line() {
    let config = PrinterConfig::default();
    let out = prettify_formula("=SUM( A1:A10 ,B2 )", &config).unwrap();
    assert_eq!(out, "=SUM(A1:A10, B2)");
}

#[test]
fn formula_empty_argument_and_string_escape() {
    let config = PrinterConfig::default();
    let out = prettify_formula("=INDEX(data,,1)&\"a\"\"b\"", &config).unwrap();
    assert_eq!(out, "=INDEX(data, , 1) & \"a\"\"b\"");
}

#[test]
fn formula_not_a_formula_gives_none() {
    let config = PrinterConfig::default();
    assert!(prettify_formula("=(", &config).is_none());
}

#[test]
fn formatting_changes_only_white_space() {
    let strip = |t: &str| t.chars().filter(|c| !matches!(c, ' ' | '\t' | '\n' | '\r')).collect::<String>();
    let formulas = [
        "=SUM(A1:A10,B2)",
        "=  IF( A1>0 , \"yes\",\"no\" )",
        "=-(1+2)*3 %",
        "=a<>b",
        "=INDEX(data,,1)&\"a\"\"b\"",
        "=LET(x, 1, y, 2, SUM(x, y, VLOOKUP(A1, Sheet1!A1:Z100, 3, FALSE), 1.5e3))",
    ];
    for width in [80, 10] {
        let config = PrinterConfig { max_width: width, indent: 2, use_tabs: false };
        for f in formulas {
            let out = prettify_formula(f, &config).unwrap();
            assert_eq!(strip(&out), strip(f), "formula {f:?} at width {width}");
        }
    }
}

#[test]
fn text_after_the_formula_is_not_read() {
    let config = PrinterConfig::default();
    assert_eq!(prettify_formula("=1+2 junk", &config).unwrap(), "=1 + 2");
    assert_eq!(prettify_formula("  =A1)", &config).unwrap(), "=A1");
    assert!(parse_formula("1+2").is_none());
    assert!(parse_formula("= )").is_none());
}
