//! Problems found in a document, located by row, by column or by both, and
//! the list that collects them for a report.

use crate::text::{append_decimal, append_str, decimal, join, join_chars, string_of, texts, views};
use vstd::prelude::*;
use vstd::string::StringExecFns;

verus! {

/// A problem on a row, counted from 0.
#[derive(Clone, Debug)]
pub struct RowProblem {
    row: usize,
    msg: String,
}

impl View for RowProblem {
    type V = (int, Seq<char>);

    closed spec fn view(&self) -> (int, Seq<char>) {
        (self.row as int, self.msg@)
    }
}

/// How a problem on a row is shown: the row counted from 1, then the
/// message.
pub open spec fn row_text(row: int, msg: Seq<char>) -> Seq<char> {
    "row "@ + decimal((row + 1) as nat) + ": "@ + msg
}

/// How a problem at a row and a column is shown: both counted from 1,
/// then the message.
pub open spec fn row_col_text(row: int, col: int, msg: Seq<char>) -> Seq<char> {
    "row "@ + decimal((row + 1) as nat) + " col "@ + decimal((col + 1) as nat) + ": "@ + msg
}

impl RowProblem {
    pub fn new(row: usize, msg: &str) -> (p: RowProblem)
        ensures
            p@ == (row as int, msg@),
    {
        RowProblem { row, msg: String::from_str(msg) }
    }

    pub fn row(&self) -> (row: usize)
        ensures
            row == self@.0,
    {
        self.row
    }

    pub fn msg(&self) -> (msg: &str)
        ensures
            msg@ == self@.1,
    {
        self.msg.as_str()
    }

    /// The problem as a line of a report.
    pub fn to_string(&self) -> (s: String)
        ensures
            s@ == row_text(self@.0, self@.1),
    {
        let mut out: Vec<char> = Vec::new();
        append_str(&mut out, "row ");
        append_decimal(&mut out, self.row as u128 + 1);
        append_str(&mut out, ": ");
        append_str(&mut out, self.msg.as_str());
        assert(out@ =~= row_text(self@.0, self@.1));
        string_of(out.as_slice())
    }
}

/// A problem at a column of a line, counted from 0.
#[derive(Clone, Debug)]
pub struct ColProblem {
    col: usize,
    msg: String,
}

impl View for ColProblem {
    type V = (int, Seq<char>);

    closed spec fn view(&self) -> (int, Seq<char>) {
        (self.col as int, self.msg@)
    }
}

impl ColProblem {
    pub fn new(col: usize, msg: &str) -> (p: ColProblem)
        ensures
            p@ == (col as int, msg@),
    {
        ColProblem { col, msg: String::from_str(msg) }
    }

    pub fn col(&self) -> (col: usize)
        ensures
            col == self@.0,
    {
        self.col
    }

    pub fn msg(&self) -> (msg: &str)
        ensures
            msg@ == self@.1,
    {
        self.msg.as_str()
    }

    /// The same problem, on the line at `row`.
    pub fn add_row(self, row: usize) -> (p: RowColProblem)
        ensures
            p@ == (row as int, self@.0, self@.1),
    {
        RowColProblem::new(row, self.col, self.msg.as_str())
    }
}

/// A problem at a row and a column, both counted from 0.
#[derive(Clone, Debug)]
pub struct RowColProblem {
    row: usize,
    col: usize,
    msg: String,
}

impl View for RowColProblem {
    type V = (int, int, Seq<char>);

    closed spec fn view(&self) -> (int, int, Seq<char>) {
        (self.row as int, self.col as int, self.msg@)
    }
}

impl RowColProblem {
    pub fn new(row: usize, col: usize, msg: &str) -> (p: RowColProblem)
        ensures
            p@ == (row as int, col as int, msg@),
    {
        RowColProblem { row, col, msg: String::from_str(msg) }
    }

    pub fn row(&self) -> (row: usize)
        ensures
            row == self@.0,
    {
        self.row
    }

    pub fn col(&self) -> (col: usize)
        ensures
            col == self@.1,
    {
        self.col
    }

    pub fn msg(&self) -> (msg: &str)
        ensures
            msg@ == self@.2,
    {
        self.msg.as_str()
    }

    /// The problem as a line of a report.
    pub fn to_string(&self) -> (s: String)
        ensures
            s@ == row_col_text(self@.0, self@.1, self@.2),
    {
        let mut out: Vec<char> = Vec::new();
        append_str(&mut out, "row ");
        append_decimal(&mut out, self.row as u128 + 1);
        append_str(&mut out, " col ");
        append_decimal(&mut out, self.col as u128 + 1);
        append_str(&mut out, ": ");
        append_str(&mut out, self.msg.as_str());
        assert(out@ =~= row_col_text(self@.0, self@.1, self@.2));
        string_of(out.as_slice())
    }
}

/// Each problem as an entry of the report: indented by two spaces.
pub open spec fn entries(problems: Seq<Seq<char>>) -> Seq<Seq<char>> {
    problems.map_values(|p: Seq<char>| "  "@ + p)
}

/// The report: the heading `ERROR: ` with the error message, then each
/// problem, with an empty line after each of them.
pub open spec fn report_text(err_msg: Seq<char>, problems: Seq<Seq<char>>) -> Seq<char> {
    join(seq!["ERROR: "@ + err_msg] + entries(problems), "\n\n"@) + "\n\n"@
}

/// The problems of one run, each already written out, under one error
/// message.
pub struct Problems {
    err_msg: String,
    problems: Vec<String>,
}

impl Problems {
    /// The error message that heads the report.
    pub closed spec fn heading(&self) -> Seq<char> {
        self.err_msg@
    }

    /// The problems collected, in the order in which they came.
    pub closed spec fn collected(&self) -> Seq<Seq<char>> {
        views(self.problems@)
    }

    /// An empty list of problems under the error message `err_msg`.
    pub fn new(err_msg: &str) -> (p: Problems)
        ensures
            p.heading() == err_msg@,
            p.collected() == Seq::<Seq<char>>::empty(),
    {
        let p = Problems { err_msg: String::from_str(err_msg), problems: Vec::new() };
        assert(views(p.problems@) =~= Seq::<Seq<char>>::empty());
        p
    }

    /// Adds one problem at the end.
    pub fn push(&mut self, p: String)
        ensures
            final(self).heading() == old(self).heading(),
            final(self).collected() == old(self).collected().push(p@),
    {
        self.problems.push(p);
        assert(views(self.problems@) =~= views(old(self).problems@).push(p@));
    }

    /// Adds the problems of `more` at the end, in their order.
    pub fn extend(&mut self, more: Vec<String>)
        ensures
            final(self).heading() == old(self).heading(),
            final(self).collected() == old(self).collected() + views(more@),
    {
        let mut more = more;
        let ghost added = views(more@);
        self.problems.append(&mut more);
        assert(views(self.problems@) =~= views(old(self).problems@) + added);
    }

    /// The report, if there is any problem.
    pub fn check_internal(&self) -> (r: Option<String>)
        ensures
            r is None <==> self.collected().len() == 0,
            r matches Some(text) ==> text@ == report_text(self.heading(), self.collected()),
    {
        if self.problems.len() == 0 {
            return None;
        }
        let mut lines: Vec<Vec<char>> = Vec::new();
        let mut head: Vec<char> = Vec::new();
        append_str(&mut head, "ERROR: ");
        append_str(&mut head, self.err_msg.as_str());
        lines.push(head);
        let ghost all = views(self.problems@);
        assert(texts(lines@) =~= seq!["ERROR: "@ + self.err_msg@] + entries(all.take(0)));
        let mut i: usize = 0;
        while i < self.problems.len()
            invariant
                i <= self.problems.len(),
                all == views(self.problems@),
                texts(lines@) == seq!["ERROR: "@ + self.err_msg@] + entries(all.take(i as int)),
            decreases self.problems.len() - i,
        {
            let mut entry: Vec<char> = Vec::new();
            append_str(&mut entry, "  ");
            append_str(&mut entry, self.problems[i].as_str());
            let ghost before = lines@;
            lines.push(entry);
            proof {
                assert(texts(lines@) =~= texts(before).push(entry@));
                assert(entries(all.take(i + 1)) =~= entries(all.take(i as int)).push(
                    "  "@ + all[i as int],
                ));
            }
            i += 1;
        }
        assert(all.take(all.len() as int) =~= all);
        let mut out = join_chars(&lines, "\n\n");
        append_str(&mut out, "\n\n");
        Some(string_of(out.as_slice()))
    }
}

} // verus!
