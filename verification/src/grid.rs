//! A rectangular grid of machine words, and the longest-common-
//! subsequence length table computed over it.
//!
//! The grid is the dynamic-programming table of the line differ: cell
//! (i, j) of the table built by `lcs` holds the length of the longest
//! common subsequence of the first i lines of one file and the first j
//! lines of the other.

use std::io::Write;
use vstd::prelude::*;

verus! {

/// A zero-initialised rows-by-cols grid of machine words.
pub struct Grid {
    pub rows: usize,
    pub cols: usize,
    pub data: Vec<usize>,
}

/// The length of the longest common subsequence of the first `i`
/// elements of `s1` and the first `j` elements of `s2`, compared by
/// contents.
pub open spec fn spec_lcs_len(s1: Seq<String>, s2: Seq<String>, i: int, j: int) -> int
    decreases i + j,
{
    if i <= 0 || j <= 0 {
        0
    } else if s1[i - 1]@ == s2[j - 1]@ {
        spec_lcs_len(s1, s2, i - 1, j - 1) + 1
    } else {
        let up = spec_lcs_len(s1, s2, i - 1, j);
        let left = spec_lcs_len(s1, s2, i, j - 1);
        if up >= left {
            up
        } else {
            left
        }
    }
}

/// The table value never exceeds either prefix length.
pub proof fn lemma_lcs_len_bounded(s1: Seq<String>, s2: Seq<String>, i: int, j: int)
    requires
        i >= 0,
        j >= 0,
    ensures
        0 <= spec_lcs_len(s1, s2, i, j) <= i,
        spec_lcs_len(s1, s2, i, j) <= j,
    decreases i + j,
{
    if i > 0 && j > 0 {
        lemma_lcs_len_bounded(s1, s2, i - 1, j - 1);
        lemma_lcs_len_bounded(s1, s2, i - 1, j);
        lemma_lcs_len_bounded(s1, s2, i, j - 1);
    }
}

proof fn lemma_flat_index_injective(cols: int, r1: int, c1: int, r2: int, c2: int)
    requires
        0 <= c1 < cols,
        0 <= c2 < cols,
        0 <= r1,
        0 <= r2,
        !(r1 == r2 && c1 == c2),
    ensures
        r1 * cols + c1 != r2 * cols + c2,
{
    assert(r1 * cols + c1 != r2 * cols + c2) by (nonlinear_arith)
        requires
            0 <= c1 < cols,
            0 <= c2 < cols,
            0 <= r1,
            0 <= r2,
            !(r1 == r2 && c1 == c2),
    ;
}

proof fn lemma_flat_index_in_bounds(rows: int, cols: int, r: int, c: int)
    requires
        0 <= r < rows,
        0 <= c < cols,
    ensures
        0 <= r * cols + c < rows * cols,
{
    assert(0 <= r * cols + c < rows * cols) by (nonlinear_arith)
        requires
            0 <= r < rows,
            0 <= c < cols,
    ;
}

/// Prints one cell value followed by a space. Relies on write to the
/// standard output stream.
#[verifier::external_body]
fn print_cell(v: usize) {
    let _ = write!(std::io::stdout(), "{} ", v);
}

/// Ends the printed row. Relies on write to the standard output stream.
#[verifier::external_body]
fn print_newline() {
    let _ = writeln!(std::io::stdout());
}

impl Grid {
    /// The cells cover exactly rows-by-cols entries.
    pub open spec fn wf(self) -> bool {
        self.data@.len() == self.rows * self.cols
    }

    /// The value of cell (`row`, `col`); meaningful only in bounds.
    pub open spec fn spec_get(self, row: int, col: int) -> int {
        self.data@[row * (self.cols as int) + col] as int
    }

    /// A grid of the given size with every cell zero.
    pub fn new(rows: usize, cols: usize) -> (g: Grid)
        requires
            rows * cols <= usize::MAX,
        ensures
            g.wf(),
            g.rows == rows,
            g.cols == cols,
            forall|r: int, c: int| 0 <= r < rows && 0 <= c < cols ==> g.spec_get(r, c) == 0,
    {
        let mut data: Vec<usize> = Vec::new();
        let total = rows * cols;
        let mut i: usize = 0;
        while i < total
            invariant
                i <= total,
                data@.len() == i,
                forall|j: int| 0 <= j < i ==> data@[j] == 0,
            decreases total - i,
        {
            data.push(0);
            i += 1;
        }
        let g = Grid { rows, cols, data };
        proof {
            assert forall|r: int, c: int| 0 <= r < rows && 0 <= c < cols implies g.spec_get(r, c)
                == 0 by {
                lemma_flat_index_in_bounds(rows as int, cols as int, r, c);
            }
        }
        g
    }

    /// The size of the grid as (rows, columns).
    pub fn size(&self) -> (r: (usize, usize))
        ensures
            r == (self.rows, self.cols),
    {
        (self.rows, self.cols)
    }

    /// The value of a cell, if it is in bounds.
    pub fn get(&self, row: usize, col: usize) -> (r: Option<usize>)
        requires
            self.wf(),
        ensures
            row < self.rows && col < self.cols ==> r == Some(self.spec_get(row as int, col as int)
                as usize),
            !(row < self.rows && col < self.cols) ==> r is None,
    {
        if row < self.rows && col < self.cols {
            let total = self.data.len();
            proof {
                lemma_flat_index_in_bounds(
                    self.rows as int,
                    self.cols as int,
                    row as int,
                    col as int,
                );
            }
            Some(self.data[row * self.cols + col])
        } else {
            None
        }
    }

    /// Overwrite a cell, if it is in bounds; every other cell is kept.
    pub fn set(&mut self, row: usize, col: usize, value: usize) -> (r: Option<()>)
        requires
            old(self).wf(),
        ensures
            final(self).wf(),
            final(self).rows == old(self).rows,
            final(self).cols == old(self).cols,
            row < old(self).rows && col < old(self).cols ==> r == Some(()) && final(self).spec_get(
                row as int,
                col as int,
            ) == value && forall|r2: int, c2: int|
                0 <= r2 < old(self).rows && 0 <= c2 < old(self).cols && !(r2 == row && c2 == col)
                    ==> final(self).spec_get(r2, c2) == old(self).spec_get(r2, c2),
            !(row < old(self).rows && col < old(self).cols) ==> r is None && *final(self) == *old(
                self,
            ),
    {
        if row < self.rows && col < self.cols {
            let total = self.data.len();
            proof {
                lemma_flat_index_in_bounds(
                    self.rows as int,
                    self.cols as int,
                    row as int,
                    col as int,
                );
            }
            let idx = row * self.cols + col;
            self.data.set(idx, value);
            proof {
                assert forall|r2: int, c2: int|
                    0 <= r2 < self.rows && 0 <= c2 < self.cols && !(r2 == row && c2 == col)
                        implies self.spec_get(r2, c2) == old(self).spec_get(r2, c2) by {
                    lemma_flat_index_in_bounds(self.rows as int, self.cols as int, r2, c2);
                    lemma_flat_index_injective(self.cols as int, r2, c2, row as int, col as int);
                }
            }
            Some(())
        } else {
            None
        }
    }

    /// Print the grid, one row per line.
    pub fn display(&self)
        requires
            self.wf(),
    {
        let mut r: usize = 0;
        while r < self.rows
            invariant
                self.wf(),
            decreases self.rows - r,
        {
            let mut c: usize = 0;
            while c < self.cols
                invariant
                    self.wf(),
                    r < self.rows,
                decreases self.cols - c,
            {
                match self.get(r, c) {
                    Some(v) => print_cell(v),
                    None => {},
                }
                c += 1;
            }
            print_newline();
            r += 1;
        }
    }
}

/// The longest-common-subsequence length table of the two line lists:
/// cell (i, j) holds the subsequence length of the first i lines of
/// `seq1` against the first j lines of `seq2`.
pub fn lcs(seq1: &Vec<String>, seq2: &Vec<String>) -> (g: Grid)
    requires
        (seq1@.len() + 1) * (seq2@.len() + 1) <= usize::MAX,
    ensures
        g.wf(),
        g.rows == seq1@.len() + 1,
        g.cols == seq2@.len() + 1,
        forall|i: int, j: int|
            0 <= i <= seq1@.len() && 0 <= j <= seq2@.len() ==> g.spec_get(i, j)
                == #[trigger] spec_lcs_len(seq1@, seq2@, i, j),
{
    let m = seq1.len();
    let n = seq2.len();
    proof {
        assert((m + 1) <= (m + 1) * (n + 1) && (n + 1) <= (m + 1) * (n + 1)) by (nonlinear_arith)
            requires
                m >= 0,
                n >= 0,
        ;
    }
    let mut g = Grid::new(m + 1, n + 1);
    let mut i: usize = 0;
    while i < m
        invariant
            m == seq1@.len(),
            n == seq2@.len(),
            g.wf(),
            g.rows == m + 1,
            g.cols == n + 1,
            (m + 1) * (n + 1) <= usize::MAX,
            i <= m,
            forall|r: int, c: int|
                0 <= r <= m && 0 <= c <= n && (r <= i || r == 0 || c == 0) ==> g.spec_get(r, c)
                    == #[trigger] spec_lcs_len(seq1@, seq2@, r, c),
        decreases m - i,
    {
        let mut j: usize = 0;
        while j < n
            invariant
                m == seq1@.len(),
                n == seq2@.len(),
                g.wf(),
                g.rows == m + 1,
                g.cols == n + 1,
                (m + 1) * (n + 1) <= usize::MAX,
                i < m,
                j <= n,
                forall|r: int, c: int|
                    0 <= r <= m && 0 <= c <= n && (r <= i || r == 0 || c == 0) ==> g.spec_get(r, c)
                        == #[trigger] spec_lcs_len(seq1@, seq2@, r, c),
                forall|c: int| 0 <= c <= j ==> g.spec_get(i + 1, c) == #[trigger] spec_lcs_len(
                    seq1@,
                    seq2@,
                    i + 1,
                    c,
                ),
            decreases n - j,
        {
            proof {
                lemma_lcs_len_bounded(seq1@, seq2@, i as int, j as int);
                lemma_lcs_len_bounded(seq1@, seq2@, i as int + 1, j as int);
                lemma_lcs_len_bounded(seq1@, seq2@, i as int, j as int + 1);
                assert((m + 1) <= (m + 1) * (n + 1) && (n + 1) <= (m + 1) * (n + 1))
                    by (nonlinear_arith)
                    requires
                        m >= 0,
                        n >= 0,
                ;
            }
            if seq1[i] == seq2[j] {
                let below = match g.get(i, j) {
                    Some(v) => v,
                    None => 0,
                };
                let _ = g.set(i + 1, j + 1, below + 1);
            } else {
                let up = match g.get(i + 1, j) {
                    Some(v) => v,
                    None => 0,
                };
                let left = match g.get(i, j + 1) {
                    Some(v) => v,
                    None => 0,
                };
                let best = if up >= left {
                    up
                } else {
                    left
                };
                let _ = g.set(i + 1, j + 1, best);
            }
            j += 1;
        }
        i += 1;
    }
    g
}

} // verus!
