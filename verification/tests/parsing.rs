use truth_table::program::{extract_variables, parse_program};
use truth_table::render::table_text;

#[test]
fn conjunction_variables() {
    let ast = parse_program("a && b").expect("the program should parse");
    let vars = extract_variables(&ast);
    assert_eq!(vars, vec!["a".to_string(), "b".to_string()]);
}

#[test]
fn repeated_variables_deduplicated() {
    let ast = parse_program("b && a || b && a").expect("the program should parse");
    let vars = extract_variables(&ast);
    assert_eq!(vars, vec!["a".to_string(), "b".to_string()]);
}

#[test]
fn negation_variable() {
    let ast = parse_program("not a").expect("the program should parse");
    let vars = extract_variables(&ast);
    assert_eq!(vars, vec!["a".to_string()]);
}

#[test]
fn constant_program_has_no_variables() {
    let ast = parse_program("true").expect("the program should parse");
    let vars = extract_variables(&ast);
    assert_eq!(vars, Vec::<String>::new());
}

#[test]
fn multiple_statements_collect_all_variables() {
    let ast = parse_program("x = a && b\nx || c").expect("the program should parse");
    let vars = extract_variables(&ast);
    assert_eq!(
        vars,
        vec!["a".to_string(), "b".to_string(), "c".to_string(), "x".to_string()]
    );
}

#[test]
fn conjunction_full_table() {
    let ast = parse_program("a && b").expect("the program should parse");
    let vars = extract_variables(&ast);
    // the conjunction's truth values for the four assignments, in
    // enumeration order
    let results = vec![false, false, false, true];
    let text = table_text(&vars, &results);
    let expected = "\
|-------+-------+-------|
| a     | b     | F     |
|-------+-------+-------|
| false | false | false |
| false | true  | false |
| true  | false | false |
| true  | true  | true  |
|-------+-------+-------|";
    assert_eq!(text, expected);
}

#[test]
fn parse_failure_reports_errors() {
    let result = parse_program("a &&");
    assert!(result.is_err());
    assert!(!result.err().unwrap().is_empty());
}
