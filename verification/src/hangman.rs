//! The guessing game's state machine.
//!
//! A game holds a secret word, the letters revealed so far (an unguessed
//! position shows a dash), the letters guessed in order, and the wrong
//! guesses still allowed. A guess that occurs in the word reveals every
//! position holding it and costs nothing; one that does not costs one
//! chance. The game is won when every position is revealed, and lost
//! when no chance is left.

use vstd::prelude::*;

verus! {

/// How many wrong guesses a game allows.
pub const NUM_INCORRECT_GUESSES: u32 = 5;

/// What one guess did.
#[derive(Clone, Copy, PartialEq, Eq, Structural, Debug)]
pub enum GuessOutcome {
    /// The letter occurs in the word; the word is now fully revealed.
    Won,
    /// The letter occurs in the word; some position is still hidden.
    Hit,
    /// The letter does not occur in the word; one chance was spent.
    Miss,
}

/// One game in progress.
pub struct HangmanGame {
    pub secret: Vec<char>,
    pub revealed: Vec<char>,
    pub guesses: Vec<char>,
    pub chances: u32,
}

impl HangmanGame {
    /// Every position shows its letter exactly when that letter was
    /// guessed, and a dash otherwise; a dash never occurs in the secret.
    pub open spec fn wf(self) -> bool {
        &&& self.revealed@.len() == self.secret@.len()
        &&& !self.secret@.contains('-')
        &&& forall|i: int|
            0 <= i < self.secret@.len() ==> self.revealed@[i] == (
            if self.guesses@.contains(#[trigger] self.secret@[i]) {
                self.secret@[i]
            } else {
                '-'
            })
    }

    /// The word is fully revealed.
    pub open spec fn spec_won(self) -> bool {
        forall|i: int|
            0 <= i < self.secret@.len() ==> self.guesses@.contains(#[trigger] self.secret@[i])
    }

    /// Start a game over `secret` with the full allowance of wrong
    /// guesses and nothing revealed.
    pub fn new(secret: Vec<char>) -> (g: HangmanGame)
        requires
            !secret@.contains('-'),
        ensures
            g.wf(),
            g.secret == secret,
            g.guesses@.len() == 0,
            g.chances == NUM_INCORRECT_GUESSES,
            forall|i: int| 0 <= i < g.revealed@.len() ==> g.revealed@[i] == '-',
    {
        let n = secret.len();
        let mut revealed: Vec<char> = Vec::new();
        let mut i: usize = 0;
        while i < n
            invariant
                i <= n,
                revealed@.len() == i,
                forall|j: int| 0 <= j < i ==> revealed@[j] == '-',
            decreases n - i,
        {
            revealed.push('-');
            i += 1;
        }
        HangmanGame { secret, revealed, guesses: Vec::new(), chances: NUM_INCORRECT_GUESSES }
    }

    /// Play one guessed letter. A letter of the word reveals its
    /// positions and costs nothing (also when guessed before); any other
    /// letter costs one chance. Reports a win as soon as the word is
    /// fully revealed.
    pub fn guess(&mut self, c: char) -> (r: GuessOutcome)
        requires
            old(self).wf(),
            old(self).chances > 0,
        ensures
            final(self).wf(),
            final(self).secret == old(self).secret,
            final(self).guesses@ == old(self).guesses@.push(c),
            old(self).secret@.contains(c) ==> final(self).chances == old(self).chances && (r
                == GuessOutcome::Hit || r == GuessOutcome::Won),
            !old(self).secret@.contains(c) ==> final(self).chances == old(self).chances - 1 && r
                == GuessOutcome::Miss,
            r == GuessOutcome::Won <==> (old(self).secret@.contains(c) && final(self).spec_won()),
    {
        let n = self.secret.len();
        let mut ok = false;
        let mut i: usize = 0;
        while i < n
            invariant
                self.wf(),
                n == self.secret@.len(),
                self.revealed@.len() == n,
                i <= n,
                *self == *old(self),
                ok == exists|j: int| 0 <= j < i && self.secret@[j] == c,
            decreases n - i,
        {
            if self.secret[i] == c {
                ok = true;
            }
            i += 1;
        }
        proof {
            assert(ok == self.secret@.contains(c));
        }
        if ok {
            let mut i: usize = 0;
            while i < n
                invariant
                    n == self.secret@.len(),
                    self.revealed@.len() == n,
                    self.secret == old(self).secret,
                    self.guesses == old(self).guesses,
                    self.chances == old(self).chances,
                    i <= n,
                    old(self).wf(),
                    forall|j: int|
                        0 <= j < i ==> self.revealed@[j] == (
                        if old(self).guesses@.push(c).contains(#[trigger] self.secret@[j]) {
                            self.secret@[j]
                        } else {
                            '-'
                        }),
                    forall|j: int| i <= j < n ==> self.revealed@[j] == old(self).revealed@[j],
                decreases n - i,
            {
                proof {
                    lemma_push_contains(old(self).guesses@, c, self.secret@[i as int]);
                }
                if self.secret[i] == c {
                    let ch = self.secret[i];
                    self.revealed.set(i, ch);
                } else {
                    proof {
                        assert(self.revealed@[i as int] == old(self).revealed@[i as int]);
                    }
                }
                i += 1;
            }
            self.guesses.push(c);
            proof {
                assert(self.wf());
            }
            // Won exactly when no dash is left.
            let mut all = true;
            let mut i: usize = 0;
            while i < n
                invariant
                    self.wf(),
                    n == self.secret@.len(),
                    self.revealed@.len() == n,
                    i <= n,
                    all == forall|j: int| 0 <= j < i ==> self.revealed@[j] != '-',
                decreases n - i,
            {
                if self.revealed[i] == '-' {
                    all = false;
                    proof {
                        assert(!(forall|j: int| 0 <= j < n ==> self.revealed@[j] != '-'));
                    }
                    i = n;
                } else {
                    i += 1;
                }
            }
            proof {
                if all {
                    assert forall|j: int|
                        0 <= j < self.secret@.len() implies self.guesses@.contains(
                        #[trigger] self.secret@[j],
                    ) by {
                        assert(self.revealed@[j] != '-');
                    }
                } else {
                    let j = choose|j: int| 0 <= j < n && self.revealed@[j] == '-';
                    assert(self.secret@[j] != '-') by {
                        if self.secret@[j] == '-' {
                            assert(self.secret@.contains('-'));
                        }
                    }
                    assert(!self.guesses@.contains(self.secret@[j]));
                }
            }
            if all {
                GuessOutcome::Won
            } else {
                GuessOutcome::Hit
            }
        } else {
            self.guesses.push(c);
            self.chances = self.chances - 1;
            proof {
                assert forall|j: int|
                    0 <= j < self.secret@.len() implies self.revealed@[j] == (
                if self.guesses@.contains(#[trigger] self.secret@[j]) {
                    self.secret@[j]
                } else {
                    '-'
                }) by {
                    lemma_push_contains(old(self).guesses@, c, self.secret@[j]);
                    assert(self.secret@[j] != c);
                }
            }
            GuessOutcome::Miss
        }
    }

    /// The game is lost: no chance is left.
    pub fn is_lost(&self) -> (r: bool)
        ensures
            r == (self.chances == 0),
    {
        self.chances == 0
    }
}

/// Pushing a letter extends what is contained: the new history holds a
/// letter exactly when the old one did or it is the pushed letter.
proof fn lemma_push_contains(s: Seq<char>, c: char, x: char)
    ensures
        s.push(c).contains(x) <==> (s.contains(x) || x == c),
{
    if s.push(c).contains(x) {
        let k = choose|k: int| 0 <= k < s.push(c).len() && s.push(c)[k] == x;
        if k < s.len() {
            assert(s[k] == x);
        }
    }
    if s.contains(x) {
        let k = choose|k: int| 0 <= k < s.len() && s[k] == x;
        assert(s.push(c)[k] == x);
    }
    if x == c {
        assert(s.push(c)[s.len() as int] == x);
    }
}

} // verus!
