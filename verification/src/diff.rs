//! Producing a line diff from the longest-common-subsequence table.
//!
//! Walking the table backwards from its bottom-right corner yields, in
//! printing order, one entry per line: a line common to both files, a
//! line only in the second, a line only in the first, or the single
//! blank that ends the recursion at the top-left corner.

use vstd::prelude::*;

use crate::grid::Grid;

verus! {

/// One line of a diff listing.
pub enum DiffLine {
    /// A line common to both files.
    Keep(String),
    /// A line only in the second file.
    Add(String),
    /// A line only in the first file.
    Remove(String),
    /// The blank that ends the listing's recursion.
    Blank,
}

/// The diff lines for the first `i` lines of `s1` against the first `j`
/// lines of `s2`, given the subsequence-length table `g`, in printing
/// order.
pub open spec fn spec_diff(g: Grid, s1: Seq<String>, s2: Seq<String>, i: int, j: int) -> Seq<
    DiffLine,
>
    decreases (if i > 0 { i } else { 0 }) + (if j > 0 { j } else { 0 }),
{
    if i > 0 && j > 0 && s1[i - 1]@ == s2[j - 1]@ {
        spec_diff(g, s1, s2, i - 1, j - 1).push(DiffLine::Keep(s1[i - 1]))
    } else if j > 0 && (i == 0 || g.spec_get(i, j - 1) >= g.spec_get(i - 1, j)) {
        spec_diff(g, s1, s2, i, j - 1).push(DiffLine::Add(s2[j - 1]))
    } else if i > 0 && (j == 0 || g.spec_get(i - 1, j) > g.spec_get(i, j - 1)) {
        spec_diff(g, s1, s2, i - 1, j).push(DiffLine::Remove(s1[i - 1]))
    } else {
        seq![DiffLine::Blank]
    }
}

/// Produce the diff lines of the two files from their
/// longest-common-subsequence table, in printing order.
pub fn diff_lines(
    table: &Grid,
    lines1: &Vec<String>,
    lines2: &Vec<String>,
    i: usize,
    j: usize,
) -> (r: Vec<DiffLine>)
    requires
        table.wf(),
        table.rows == lines1@.len() + 1,
        table.cols == lines2@.len() + 1,
        i <= lines1@.len(),
        j <= lines2@.len(),
    ensures
        r@ == spec_diff(*table, lines1@, lines2@, i as int, j as int),
    decreases i + j,
{
    if i > 0 && j > 0 && lines1[i - 1] == lines2[j - 1] {
        let mut r = diff_lines(table, lines1, lines2, i - 1, j - 1);
        r.push(DiffLine::Keep(lines1[i - 1].clone()));
        return r;
    }
    let left = if j > 0 {
        match table.get(i, j - 1) {
            Some(v) => v,
            None => 0,
        }
    } else {
        0
    };
    let up = if i > 0 {
        match table.get(i - 1, j) {
            Some(v) => v,
            None => 0,
        }
    } else {
        0
    };
    if j > 0 && (i == 0 || left >= up) {
        let mut r = diff_lines(table, lines1, lines2, i, j - 1);
        r.push(DiffLine::Add(lines2[j - 1].clone()));
        r
    } else if i > 0 && (j == 0 || up > left) {
        let mut r = diff_lines(table, lines1, lines2, i - 1, j);
        r.push(DiffLine::Remove(lines1[i - 1].clone()));
        r
    } else {
        let mut r: Vec<DiffLine> = Vec::new();
        r.push(DiffLine::Blank);
        proof {
            assert(r@ =~= seq![DiffLine::Blank]);
        }
        r
    }
}

} // verus!
