use markdown::problems::{ColProblem, Problems, RowColProblem, RowProblem};

#[test]
fn test_row_problem() {
    let p = RowProblem::new(2, "foo");
    assert_eq!(p.row(), 2);
    assert_eq!(p.msg(), "foo");
    assert_eq!(p.to_string(), "row 3: foo");
}

#[test]
fn test_col_problem() {
    let p = ColProblem::new(2, "foo");
    assert_eq!(p.col(), 2);
    assert_eq!(p.msg(), "foo");
    let located = p.add_row(5);
    assert_eq!(located.row(), 5);
    assert_eq!(located.col(), 2);
    assert_eq!(located.msg(), "foo");
}

#[test]
fn test_row_col_problem() {
    let p = RowColProblem::new(2, 5, "foo");
    assert_eq!(p.row(), 2);
    assert_eq!(p.col(), 5);
    assert_eq!(p.msg(), "foo");
    assert_eq!(p.to_string(), "row 3 col 6: foo");
}

#[test]
fn test_problems() {
    let mut p = Problems::new("foo");
    assert!(p.check_internal().is_none());
    p.push(String::from("bar"));
    let v: Vec<String> = vec![String::from("baz"), String::from("quux")];
    p.extend(v);
    assert_eq!(
        p.check_internal().unwrap(),
        "ERROR: foo

  bar

  baz

  quux

"
    );
}

#[test]
fn rows_and_columns_are_shown_from_one() {
    assert_eq!(RowProblem::new(0, "").to_string(), "row 1: ");
    assert_eq!(RowProblem::new(9, "x").to_string(), "row 10: x");
    assert_eq!(RowProblem::new(12344, "x").to_string(), "row 12345: x");
    assert_eq!(
        RowColProblem::new(99, 1009, "m: n").to_string(),
        "row 100 col 1010: m: n"
    );
    assert_eq!(
        RowColProblem::new(usize::MAX, 0, "m").to_string(),
        format!("row {} col 1: m", usize::MAX as u128 + 1)
    );
}

#[test]
fn problems_report_one_problem() {
    let mut p = Problems::new("linting failed");
    p.push(RowColProblem::new(0, 0, "bad").to_string());
    assert_eq!(
        p.check_internal().unwrap(),
        "ERROR: linting failed\n\n  row 1 col 1: bad\n\n"
    );
}
