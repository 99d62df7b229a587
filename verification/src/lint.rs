//! The house rules on typography: curly quotes must be escaped, and dashes
//! and ellipses must be written in ASCII.

use crate::problems::RowColProblem;
use crate::text::{chars_of, lines_of, position_from, find_from, split_lines, texts};
use vstd::prelude::*;

verus! {

/// The views of the problems in `v`, in order.
pub open spec fn lint_views(v: Seq<RowColProblem>) -> Seq<(int, int, Seq<char>)> {
    v.map_values(|p: RowColProblem| p@)
}

/// One of the four curly quotes.
pub open spec fn is_curly_quote(c: char) -> bool {
    c == '\u{201c}' || c == '\u{201d}' || c == '\u{2018}' || c == '\u{2019}'
}

/// The message for a curly quote that is not escaped.
pub open spec fn curly_quote_msg() -> Seq<char> {
    "Literal curly quotes must be backslash-escaped"@
}

/// The problems of the curly quotes among the first `upto` characters of
/// a line: one for each that has no backslash just before it.
pub open spec fn quote_problems(line: Seq<char>, row: int, upto: int) -> Seq<
    (int, int, Seq<char>),
>
    decreases upto,
{
    if upto <= 0 || upto > line.len() {
        Seq::empty()
    } else {
        let rest = quote_problems(line, row, upto - 1);
        let col = upto - 1;
        if is_curly_quote(line[col]) && (col == 0 || line[col - 1] != '\\') {
            rest.push((row, col, curly_quote_msg()))
        } else {
            rest
        }
    }
}

/// The problem of the character `bad` in a line, if it occurs: at its
/// first occurrence, with the message `msg`.
pub open spec fn bad_char_problem(line: Seq<char>, row: int, bad: char, msg: Seq<char>) -> Seq<
    (int, int, Seq<char>),
> {
    if position_from(line, bad, 0) < line.len() {
        seq![(row, position_from(line, bad, 0), msg)]
    } else {
        Seq::empty()
    }
}

/// The problems of one line: its curly quotes, then the first en dash,
/// the first em dash and the first ellipsis.
pub open spec fn line_lint(line: Seq<char>, row: int) -> Seq<(int, int, Seq<char>)> {
    quote_problems(line, row, line.len() as int) + bad_char_problem(
        line,
        row,
        '\u{2013}',
        "Literal en-dashes must be replaced with '--'"@,
    ) + bad_char_problem(line, row, '\u{2014}', "Literal em-dashes must be replaced with '---'"@)
        + bad_char_problem(line, row, '\u{2026}', "Literal ellipses must be replaced with '...'"@)
}

/// The problems of the lines, in order.
pub open spec fn lines_lint(lines: Seq<Seq<char>>) -> Seq<(int, int, Seq<char>)>
    decreases lines.len(),
{
    if lines.len() == 0 {
        Seq::empty()
    } else {
        lines_lint(lines.drop_last()) + line_lint(lines.last(), lines.len() - 1)
    }
}

/// Adds the problem of the character `bad` in a line, if it occurs.
fn lint_char(
    problems: &mut Vec<RowColProblem>,
    line: &[char],
    row: usize,
    bad: char,
    msg: &str,
)
    ensures
        lint_views(final(problems)@) == lint_views(old(problems)@) + bad_char_problem(
            line@,
            row as int,
            bad,
            msg@,
        ),
{
    let col = find_from(line, bad, 0);
    if col < line.len() {
        let p = RowColProblem::new(row, col, msg);
        problems.push(p);
        assert(lint_views(problems@) =~= lint_views(old(problems)@) + seq![
            (row as int, col as int, msg@),
        ]);
    } else {
        assert(lint_views(problems@) + Seq::<(int, int, Seq<char>)>::empty() =~= lint_views(
            problems@,
        ));
    }
}

/// The problems of a text: for each line, the curly quotes that are not
/// escaped, and the first en dash, em dash and ellipsis.
pub fn lint(data: &str) -> (problems: Vec<RowColProblem>)
    ensures
        lint_views(problems@) == lines_lint(lines_of(data@)),
{
    let text = chars_of(data);
    let lines = split_lines(text.as_slice());
    let ghost all = texts(lines@);
    let mut problems: Vec<RowColProblem> = Vec::new();
    let mut row: usize = 0;
    assert(lint_views(problems@) =~= lines_lint(all.take(0)));
    while row < lines.len()
        invariant
            row <= lines.len(),
            all == texts(lines@),
            lint_views(problems@) == lines_lint(all.take(row as int)),
        decreases lines.len() - row,
    {
        proof {
            assert(all.take(row + 1).drop_last() =~= all.take(row as int));
            assert(all.take(row + 1).last() == all[row as int]);
        }
        let line = &lines[row];
        let ghost start = lint_views(problems@);
        let mut col: usize = 0;
        assert(start + quote_problems(line@, row as int, 0) =~= start);
        while col < line.len()
            invariant
                col <= line.len(),
                lint_views(problems@) == start + quote_problems(line@, row as int, col as int),
            decreases line.len() - col,
        {
            let c = line[col];
            let curly = c == '\u{201c}' || c == '\u{201d}' || c == '\u{2018}' || c == '\u{2019}';
            if curly && (col == 0 || line[col - 1] != '\\') {
                let ghost before = problems@;
                let p = RowColProblem::new(row, col, "Literal curly quotes must be backslash-escaped");
                problems.push(p);
                assert(lint_views(problems@) =~= lint_views(before).push(
                    (row as int, col as int, curly_quote_msg()),
                ));
            }
            col += 1;
        }
        lint_char(
            &mut problems,
            line.as_slice(),
            row,
            '\u{2013}',
            "Literal en-dashes must be replaced with '--'",
        );
        lint_char(
            &mut problems,
            line.as_slice(),
            row,
            '\u{2014}',
            "Literal em-dashes must be replaced with '---'",
        );
        lint_char(
            &mut problems,
            line.as_slice(),
            row,
            '\u{2026}',
            "Literal ellipses must be replaced with '...'",
        );
        assert(lint_views(problems@) =~= start + line_lint(line@, row as int));
        row += 1;
    }
    assert(all.take(all.len() as int) =~= all);
    problems
}

} // verus!
