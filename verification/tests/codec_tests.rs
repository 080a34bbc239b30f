use metta_bus_client::codec::{parse_query_answer, read_metta_expression, read_token, QueryAnswer};

fn handle(c: char) -> String {
    std::iter::repeat(c).take(32).collect()
}

#[test]
fn answer_round_trip_plain() {
    let wire = format!("0.50000000000 0.25000000000 1 {} 1 X {} 0", handle('a'), handle('b'));
    let mut qa = QueryAnswer::new();
    qa.untokenize(&wire).unwrap();
    assert_eq!(qa.strength, "0.50000000000");
    assert_eq!(qa.importance, "0.25000000000");
    assert_eq!(qa.handles, vec![handle('a')]);
    assert_eq!(qa.assignment, vec![(String::from("X"), handle('b'))]);
    assert!(qa.metta_expression.is_empty());
    assert_eq!(qa.tokenize(), wire);
}

#[test]
fn answer_round_trip_with_metta_expression() {
    let wire = format!(
        "0.50000000000 0.25000000000 1 {} 1 X {} 1 {} (Foo \"bar baz\")",
        handle('a'),
        handle('b'),
        handle('b')
    );
    let mut qa = QueryAnswer::new();
    qa.untokenize(&wire).unwrap();
    assert_eq!(qa.metta_expression, vec![(handle('b'), String::from("(Foo \"bar baz\")"))]);
    assert_eq!(qa.tokenize(), wire);
}

#[test]
fn parse_query_answer_binds_handles_or_expressions() {
    let wire = format!(
        "0.50000000000 0.25000000000 1 {} 1 X {} 1 {} (Foo \"bar baz\")",
        handle('a'),
        handle('b'),
        handle('b')
    );
    let raw = parse_query_answer(&wire, false).unwrap();
    assert_eq!(raw.len(), 1);
    assert_eq!(raw.get("X").unwrap().to_text(), handle('b'));
    let mapped = parse_query_answer(&wire, true).unwrap();
    assert_eq!(mapped.get("X").unwrap().to_text(), "(Foo \"bar baz\")");
}

#[test]
fn oversized_token_is_an_error() {
    let mut qa = QueryAnswer::new();
    assert!(qa.untokenize("00000000000000 0.25 0 0 0").is_err());
}

#[test]
fn oversized_counts_are_errors() {
    let mut qa = QueryAnswer::new();
    assert!(qa.untokenize("0.5 0.5 101 0 0").is_err());
    let mut qa = QueryAnswer::new();
    assert!(qa.untokenize("0.5 0.5 0 101 0").is_err());
}

#[test]
fn trailing_text_is_an_error() {
    let mut qa = QueryAnswer::new();
    assert!(qa.untokenize("0.5 0.5 0 0 0 junk").is_err());
    let mut qa = QueryAnswer::new();
    assert!(qa.untokenize("0.5 0.5 0 0 0   ").is_ok());
}

#[test]
fn truncated_expression_is_an_error() {
    let mut qa = QueryAnswer::new();
    let wire = format!("0.5 0.5 0 0 1 {} (unclosed", handle('c'));
    assert!(qa.untokenize(&wire).is_err());
}

#[test]
fn read_token_respects_size_and_nul() {
    let cs: Vec<char> = "hello world".chars().collect();
    let mut cursor = 0usize;
    let t = read_token(&cs, &mut cursor, 13).unwrap();
    assert_eq!(t, "hello");
    assert_eq!(cursor, 6);
    let t2 = read_token(&cs, &mut cursor, 13).unwrap();
    assert_eq!(t2, "world");
    let mut cursor = 0usize;
    assert!(read_token(&cs, &mut cursor, 4).is_err());
    assert_eq!(cursor, 0);
}

#[test]
fn read_metta_expression_scans_balanced_forms() {
    let cs: Vec<char> = "(a (b c)) rest".chars().collect();
    let mut cursor = 0usize;
    let e = read_metta_expression(&cs, &mut cursor).unwrap();
    assert_eq!(e, "(a (b c))");
    assert_eq!(cursor, 10);

    let cs: Vec<char> = "\"x \\\" y\" tail".chars().collect();
    let mut cursor = 0usize;
    let e = read_metta_expression(&cs, &mut cursor).unwrap();
    assert_eq!(e, "\"x \\\" y\"");

    // A bare word scans through its terminating space, which it keeps.
    let cs: Vec<char> = "word tail".chars().collect();
    let mut cursor = 0usize;
    let e = read_metta_expression(&cs, &mut cursor).unwrap();
    assert_eq!(e, "word ");
    assert_eq!(cursor, 5);
}
