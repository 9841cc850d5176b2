//! One round of the game: a secret pattern, and the scoring of guesses
//! against it.

use crate::guesser::Feedback;
use crate::pattern::{in_range, Color, Pattern};
use crate::scoring::{
    credited, exact_in_prefix, exact_matches, fits_feedback, lemma_feedback_of_self,
    lemma_feedback_within_length, lemma_matches_grow, lemma_matches_within_prefix,
    lemma_misplaced_step, lemma_occurrences_grow, lemma_unmatched_grow, misplaced_in_prefix,
    misplaced_matches, occurrences, unmatched,
};
use std::collections::HashMap;
use vstd::prelude::*;

verus! {

/// What a game is, mathematically: the number of colors in play and the
/// secret pattern.
pub struct GameView {
    pub num_colors: u8,
    pub secret: Seq<Color>,
}

/// A round of the game. It holds at least one color, and its secret is made
/// of the colors in play.
pub struct Game {
    num_colors: u8,
    correct_pattern: Pattern,
}

impl View for Game {
    type V = GameView;

    closed spec fn view(&self) -> GameView {
        GameView { num_colors: self.num_colors, secret: self.correct_pattern@ }
    }
}

/// For every color, the number of its copies in `pattern`; colors that do
/// not occur have no entry.
fn count_colors(pattern: &Pattern) -> (counts: HashMap<u8, usize>)
    ensures
        forall|c: u8| #[trigger]
            counts@.contains_key(c) <==> occurrences(pattern@, Color(c), pattern@.len()) > 0,
        forall|c: u8| #[trigger]
            counts@.contains_key(c) ==> counts@[c] == occurrences(pattern@, Color(c), pattern@.len()),
{
    let mut counts: HashMap<u8, usize> = HashMap::new();
    let mut i: usize = 0;
    while i < pattern.len()
        invariant
            i <= pattern.len(),
            forall|c: u8| #[trigger]
                counts@.contains_key(c) <==> occurrences(pattern@, Color(c), i as nat) > 0,
            forall|c: u8| #[trigger]
                counts@.contains_key(c) ==> counts@[c] == occurrences(pattern@, Color(c), i as nat),
        decreases pattern.len() - i,
    {
        let color = pattern[i];
        let seen: usize = match counts.get(&color.0) {
            Some(n) => *n,
            None => 0,
        };
        proof {
            lemma_occurrences_grow(pattern@, color, 0, i as nat);
        }
        counts.insert(color.0, seen + 1);
        i += 1;
    }
    counts
}

impl Game {
    #[verifier::type_invariant]
    spec fn playable(self) -> bool {
        self.num_colors > 0 && in_range(self.correct_pattern@, self.num_colors)
    }

    /// Starts a round with `pattern` as the secret.
    pub fn new(num_colors: u8, pattern: Pattern) -> (game: Game)
        requires
            num_colors > 0,
            in_range(pattern@, num_colors),
        ensures
            game@.num_colors == num_colors,
            game@.secret == pattern@,
    {
        Game { num_colors, correct_pattern: pattern }
    }

    /// The number of colors in play.
    pub fn num_colors(&self) -> (num_colors: u8)
        ensures
            num_colors == self@.num_colors,
            num_colors > 0,
    {
        proof {
            use_type_invariant(self);
        }
        self.num_colors
    }

    /// The secret.
    pub fn correct_pattern(&self) -> (pattern: &Pattern)
        ensures
            pattern@ == self@.secret,
            in_range(pattern@, self@.num_colors),
    {
        proof {
            use_type_invariant(self);
        }
        &self.correct_pattern
    }

    /// Scores `guess` against the secret.
    ///
    /// A peg of the guess that holds the color of the secret at its own
    /// position is an exact match. Of the other pegs of the guess, taken from
    /// left to right, each is a misplaced match if the secret still has a
    /// copy of its color that no match has used.
    ///
    /// The guess has the length of the secret and is made of the colors in
    /// play, and both counts fit the fields of the feedback.
    pub fn evaluate_guess(&self, guess: &Pattern) -> (feedback: Feedback)
        requires
            guess@.len() == self@.secret.len(),
            in_range(guess@, self@.num_colors),
            fits_feedback(self@.secret, guess@),
        ensures
            feedback.exact == exact_matches(self@.secret, guess@),
            feedback.misplaced == misplaced_matches(self@.secret, guess@),
            feedback.exact + feedback.misplaced <= guess@.len(),
            guess@ == self@.secret ==> feedback.exact == guess@.len() && feedback.misplaced == 0,
    {
        proof {
            lemma_feedback_within_length(self@.secret, guess@);
            lemma_feedback_of_self(self@.secret);
        }
        let mut feedback = Feedback::new();
        let mut color_counts = count_colors(&self.correct_pattern);
        let ghost secret = self.correct_pattern@;
        let len = guess.len();

        let mut i: usize = 0;
        while i < len
            invariant
                i <= len == guess@.len() == secret.len(),
                secret == self.correct_pattern@,
                exact_matches(secret, guess@) <= u8::MAX,
                feedback.exact == exact_in_prefix(secret, guess@, i as nat),
                feedback.misplaced == 0,
                forall|c: u8| #[trigger]
                    color_counts@.contains_key(c) <==> occurrences(secret, Color(c), secret.len())
                        > 0,
                forall|c: u8| #[trigger]
                    color_counts@.contains_key(c) ==> color_counts@[c] == occurrences(
                        secret,
                        Color(c),
                        secret.len(),
                    ) - occurrences(secret, Color(c), i as nat) + unmatched(
                        secret,
                        guess@,
                        Color(c),
                        i as nat,
                    ),
            decreases len - i,
        {
            let guessed_color = guess[i];
            let correct_color = self.correct_pattern[i];
            proof {
                lemma_matches_grow(secret, guess@, (i + 1) as nat, len as nat);
                lemma_occurrences_grow(secret, correct_color, (i + 1) as nat, len as nat);
            }
            if let Some(count_left) = color_counts.get(&guessed_color.0) {
                let count_left: usize = *count_left;
                if guessed_color == correct_color {
                    feedback.exact += 1;
                    color_counts.insert(guessed_color.0, count_left - 1);
                }
            }
            i += 1;
        }

        proof {
            lemma_matches_within_prefix(secret, guess@, 0);
        }
        let mut i: usize = 0;
        while i < len
            invariant
                i <= len == guess@.len() == secret.len(),
                secret == self.correct_pattern@,
                misplaced_matches(secret, guess@) <= u8::MAX,
                feedback.exact == exact_matches(secret, guess@),
                feedback.misplaced == misplaced_in_prefix(secret, guess@, i as nat),
                forall|c: u8| #[trigger]
                    color_counts@.contains_key(c) <==> occurrences(secret, Color(c), secret.len())
                        > 0,
                forall|c: u8| #[trigger]
                    color_counts@.contains_key(c) ==> color_counts@[c] == unmatched(
                        secret,
                        guess@,
                        Color(c),
                        secret.len(),
                    ) - credited(secret, guess@, Color(c), i as nat),
            decreases len - i,
        {
            let guessed_color = guess[i];
            let correct_color = self.correct_pattern[i];
            proof {
                lemma_matches_grow(secret, guess@, (i + 1) as nat, len as nat);
                lemma_misplaced_step(secret, guess@, i as nat);
                lemma_unmatched_grow(secret, guess@, guessed_color, len as nat, len as nat);
            }
            if let Some(count_left) = color_counts.get(&guessed_color.0) {
                let count_left: usize = *count_left;
                if guessed_color != correct_color && count_left > 0 {
                    feedback.misplaced += 1;
                    color_counts.insert(guessed_color.0, count_left - 1);
                }
            }
            i += 1;
        }
        feedback
    }
}

} // verus!
