//! Line, word and character counting over a file read as lines of
//! characters.
//!
//! A word is a maximal run of word characters (alphabetic, or an
//! apostrophe). Counting scans every line but the last, and within a
//! line every character but the last; each scanned line contributes its
//! scanned characters plus one (for the line break) to the character
//! count.

use vstd::prelude::*;

verus! {

/// Whether a character is alphabetic under the Unicode definition; a
/// function of the character alone.
pub uninterp spec fn alphabetic(c: char) -> bool;

/// Relies on char::is_alphabetic: the Unicode alphabetic property of the
/// character.
#[verifier::external_body]
fn char_is_alphabetic(c: char) -> (r: bool)
    ensures
        r == alphabetic(c),
{
    c.is_alphabetic()
}

/// A character that continues a word: alphabetic or an apostrophe.
pub open spec fn spec_is_word_char(c: char) -> bool {
    alphabetic(c) || c == '\''
}

/// How many words start among the first `k` characters of `line`: a word
/// starts at a word character not preceded by one.
pub open spec fn spec_words_prefix(line: Seq<char>, k: int) -> int
    decreases k,
{
    if k <= 0 {
        0
    } else {
        spec_words_prefix(line, k - 1) + if spec_is_word_char(line[k - 1]) && (k == 1
            || !spec_is_word_char(line[k - 2])) {
            1int
        } else {
            0int
        }
    }
}

/// The words counted in one line: those starting among all its
/// characters but the last.
pub open spec fn spec_words_in_line(line: Seq<char>) -> int {
    spec_words_prefix(line, line.len() - 1)
}

/// The words counted in the first `k` lines.
pub open spec fn spec_total_words(lines: Seq<Seq<char>>, k: int) -> int
    decreases k,
{
    if k <= 0 {
        0
    } else {
        spec_total_words(lines, k - 1) + spec_words_in_line(lines[k - 1])
    }
}

/// The characters counted in the first `k` lines: each line counts its
/// length (all characters but the last, plus one for the line break).
pub open spec fn spec_total_chars(lines: Seq<Seq<char>>, k: int) -> int
    decreases k,
{
    if k <= 0 {
        0
    } else {
        spec_total_chars(lines, k - 1) + lines[k - 1].len()
    }
}

proof fn lemma_words_prefix_bounded(line: Seq<char>, k: int)
    ensures
        0 <= spec_words_prefix(line, k) <= (if k >= 0 {
            k
        } else {
            0
        }),
    decreases k,
{
    if k > 0 {
        lemma_words_prefix_bounded(line, k - 1);
    }
}

proof fn lemma_totals_bounded(lines: Seq<Seq<char>>, k: int)
    requires
        forall|i: int| 0 <= i < k ==> (#[trigger] lines[i]).len() >= 1,
    ensures
        0 <= spec_total_words(lines, k) <= spec_total_chars(lines, k),
        0 <= spec_total_chars(lines, k),
    decreases k,
{
    if k > 0 {
        lemma_totals_bounded(lines, k - 1);
        lemma_words_prefix_bounded(lines[k - 1], lines[k - 1].len() - 1);
    }
}

proof fn lemma_total_chars_monotone(lines: Seq<Seq<char>>, i: int, k: int)
    requires
        0 <= i <= k,
    ensures
        spec_total_chars(lines, i) <= spec_total_chars(lines, k),
    decreases k - i,
{
    if i < k {
        lemma_total_chars_monotone(lines, i, k - 1);
        assert(lines[k - 1].len() >= 0);
    }
}

/// Count the lines of the file, and the words and characters of every
/// line but the last.
pub fn count_words_chars(lines: &Vec<Vec<char>>) -> (r: (usize, usize, usize))
    requires
        lines@.len() >= 1,
        forall|i: int| 0 <= i < lines@.len() - 1 ==> (#[trigger] lines@[i])@.len() >= 1,
        spec_total_chars(lines@.map_values(|l: Vec<char>| l@), lines@.len() - 1) <= usize::MAX,
    ensures
        r.0 == lines@.len(),
        r.1 == spec_total_words(lines@.map_values(|l: Vec<char>| l@), lines@.len() - 1),
        r.2 == spec_total_chars(lines@.map_values(|l: Vec<char>| l@), lines@.len() - 1),
{
    let ghost ls = lines@.map_values(|l: Vec<char>| l@);
    proof {
        assert forall|j: int| 0 <= j < lines@.len() - 1 implies (#[trigger] ls[j]).len() >= 1 by {
            assert(ls[j] == lines@[j]@);
        }
    }
    let lines_n = lines.len();
    let mut words_n: usize = 0;
    let mut chars_n: usize = 0;
    let mut i: usize = 0;
    while i < lines_n - 1
        invariant
            lines_n == lines@.len(),
            lines_n >= 1,
            ls == lines@.map_values(|l: Vec<char>| l@),
            ls.len() == lines_n,
            forall|j: int| 0 <= j < lines_n - 1 ==> (#[trigger] ls[j]).len() >= 1,
            spec_total_chars(ls, lines_n - 1) <= usize::MAX,
            i <= lines_n - 1,
            words_n == spec_total_words(ls, i as int),
            chars_n == spec_total_chars(ls, i as int),
        decreases lines_n - 1 - i,
    {
        let line = &lines[i];
        let s_len = line.len();
        proof {
            assert(ls[i as int] == lines@[i as int]@);
            lemma_totals_bounded(ls, i as int + 1);
            lemma_total_chars_monotone(ls, i as int + 1, lines_n as int - 1);
        }
        let mut lch: bool = false;
        let mut j: usize = 0;
        while j < s_len - 1
            invariant
                lines_n == lines@.len(),
                ls == lines@.map_values(|l: Vec<char>| l@),
                ls.len() == lines_n,
                forall|k: int| 0 <= k < lines_n - 1 ==> (#[trigger] ls[k]).len() >= 1,
                spec_total_chars(ls, lines_n - 1) <= usize::MAX,
                i < lines_n - 1,
                ls[i as int] == line@,
                s_len == line@.len(),
                s_len >= 1,
                j <= s_len - 1,
                lch == (j > 0 && spec_is_word_char(line@[j - 1])),
                words_n == spec_total_words(ls, i as int) + spec_words_prefix(line@, j as int),
                chars_n == spec_total_chars(ls, i as int) + j,
            decreases s_len - 1 - j,
        {
            proof {
                lemma_totals_bounded(ls, i as int + 1);
                lemma_total_chars_monotone(ls, i as int + 1, lines_n as int - 1);
                lemma_words_prefix_bounded(line@, j as int);
                lemma_words_prefix_bounded(line@, line@.len() - 1);
                lemma_totals_bounded(ls, i as int);
            }
            chars_n += 1;
            let c = line[j];
            if char_is_alphabetic(c) || c == '\'' {
                if lch == false {
                    words_n += 1;
                }
                lch = true;
            } else {
                lch = false;
            }
            j += 1;
        }
        proof {
            lemma_totals_bounded(ls, i as int + 1);
            lemma_total_chars_monotone(ls, i as int + 1, lines_n as int - 1);
        }
        chars_n += 1;
        i += 1;
    }
    (lines_n, words_n, chars_n)
}

} // verus!
