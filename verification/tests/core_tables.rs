use truth_table::assign::{assignment, pow2_u64};
use truth_table::order::str_lt_exec;
use truth_table::outcome::{make_table, row_result, EvalOutcome, TableError};
use truth_table::render::table_text;
use truth_table::vars::sort_dedup;

fn strings(names: &[&str]) -> Vec<String> {
    names.iter().map(|s| s.to_string()).collect()
}

#[test]
fn and_table_text() {
    let vars = strings(&["a", "b"]);
    let results = vec![false, false, false, true];
    let text = table_text(&vars, &results);
    let expected = "\
|-------+-------+-------|
| a     | b     | F     |
|-------+-------+-------|
| false | false | false |
| false | true  | false |
| true  | false | false |
| true  | true  | true  |
|-------+-------+-------|";
    assert_eq!(text, expected);
}

#[test]
fn not_table_text() {
    let vars = strings(&["a"]);
    let results = vec![true, false];
    let text = table_text(&vars, &results);
    let expected = "\
|-------+-------|
| a     | F     |
|-------+-------|
| false | true  |
| true  | false |
|-------+-------|";
    assert_eq!(text, expected);
}

#[test]
fn constant_table_text() {
    let vars: Vec<String> = Vec::new();
    let results = vec![true];
    let text = table_text(&vars, &results);
    let expected = "\
|------|
| F    |
|------|
| true |
|------|";
    assert_eq!(text, expected);
}

#[test]
fn zero_vars_one_data_row() {
    let vars: Vec<String> = Vec::new();
    let results = vec![false];
    let text = table_text(&vars, &results);
    let lines: Vec<&str> = text.split('\n').collect();
    // top border, header, border under header, one data row, bottom border
    assert_eq!(lines.len(), 5);
    assert_eq!(lines[3], "| false |");
}

#[test]
fn two_vars_row_count() {
    let vars = strings(&["x", "y"]);
    let results = vec![true, true, false, false];
    let text = table_text(&vars, &results);
    let lines: Vec<&str> = text.split('\n').collect();
    // 2^2 data rows plus the header line and three border lines
    assert_eq!(lines.len(), 8);
}

#[test]
fn uniform_line_widths() {
    let vars = strings(&["longvariablename"]);
    let results = vec![true, false];
    let text = table_text(&vars, &results);
    let lines: Vec<&str> = text.split('\n').collect();
    let width = lines[0].chars().count();
    for line in &lines {
        assert_eq!(line.chars().count(), width);
    }
}

#[test]
fn idempotent_rendering() {
    let vars = strings(&["p", "q"]);
    let results = vec![true, false, false, true];
    let first = table_text(&vars, &results);
    let second = table_text(&vars, &results);
    assert_eq!(first, second);
}

#[test]
fn assignment_binary_order() {
    assert_eq!(assignment(0, 2), vec![false, false]);
    assert_eq!(assignment(1, 2), vec![false, true]);
    assert_eq!(assignment(2, 2), vec![true, false]);
    assert_eq!(assignment(3, 2), vec![true, true]);
    // the empty assignment for a program with no variables
    assert_eq!(assignment(0, 0), Vec::<bool>::new());
}

#[test]
fn assignments_all_distinct() {
    let n: usize = 3;
    let count = pow2_u64(n);
    assert_eq!(count, 8);
    let all: Vec<Vec<bool>> = (0..count).map(|i| assignment(i, n)).collect();
    for i in 0..all.len() {
        for k in 0..all.len() {
            if i != k {
                assert_ne!(all[i], all[k]);
            }
        }
    }
}

#[test]
fn pow2_values() {
    assert_eq!(pow2_u64(0), 1);
    assert_eq!(pow2_u64(1), 2);
    assert_eq!(pow2_u64(10), 1024);
    assert_eq!(pow2_u64(63), 1u64 << 63);
}

#[test]
fn sort_dedup_sorts_and_dedups() {
    let names = strings(&["b", "a", "b", "a", "c"]);
    assert_eq!(sort_dedup(&names), strings(&["a", "b", "c"]));
}

#[test]
fn sort_dedup_empty() {
    let names: Vec<String> = Vec::new();
    assert_eq!(sort_dedup(&names), Vec::<String>::new());
}

#[test]
fn sort_dedup_order_independent() {
    let one = strings(&["x", "abc", "ab", "x", "a"]);
    let other = strings(&["ab", "x", "a", "abc", "abc"]);
    assert_eq!(sort_dedup(&one), sort_dedup(&other));
}

#[test]
fn lexicographic_order() {
    assert!(str_lt_exec("a", "b"));
    assert!(!str_lt_exec("b", "a"));
    assert!(str_lt_exec("ab", "abc"));
    assert!(!str_lt_exec("abc", "ab"));
    assert!(!str_lt_exec("same", "same"));
    assert!(str_lt_exec("", "a"));
}

#[test]
fn row_result_boolean() {
    let r = row_result::<String>(EvalOutcome::Boolean(true));
    assert_eq!(r, Ok(true));
    let r = row_result::<String>(EvalOutcome::Boolean(false));
    assert_eq!(r, Ok(false));
}

#[test]
fn row_result_unsupported() {
    let r = row_result::<String>(EvalOutcome::Other);
    assert!(matches!(r, Err(TableError::UnsupportedResultType)));
}

#[test]
fn make_table_all_boolean() {
    let vars = strings(&["a", "b"]);
    let outcomes: Vec<EvalOutcome<String>> = vec![
        EvalOutcome::Boolean(false),
        EvalOutcome::Boolean(false),
        EvalOutcome::Boolean(false),
        EvalOutcome::Boolean(true),
    ];
    let table = make_table(&vars, outcomes).expect("all outcomes are boolean");
    let direct = table_text(&vars, &vec![false, false, false, true]);
    assert_eq!(table, direct);
}

#[test]
fn make_table_unsupported_result() {
    let vars = strings(&["a"]);
    let outcomes: Vec<EvalOutcome<String>> =
        vec![EvalOutcome::Boolean(true), EvalOutcome::Other];
    let result = make_table(&vars, outcomes);
    assert!(matches!(result, Err(TableError::UnsupportedResultType)));
}

#[test]
fn make_table_first_failure_decides() {
    let vars = strings(&["a"]);
    let outcomes: Vec<EvalOutcome<String>> = vec![
        EvalOutcome::Fail("bad".to_string()),
        EvalOutcome::Other,
    ];
    let result = make_table(&vars, outcomes);
    assert_eq!(result, Err(TableError::Eval("bad".to_string())));
}

#[test]
fn row_result_eval_error() {
    let r = row_result::<String>(EvalOutcome::Fail("division by zero".to_string()));
    match r {
        Err(TableError::Eval(msg)) => assert_eq!(msg, "division by zero"),
        _ => panic!("expected the evaluator's error to be passed through"),
    }
}
