//! What a feedback means: the number of exact and of misplaced matches
//! between a secret and a guess, as mathematical functions of the two
//! patterns, and the laws that follow from the definitions.

use crate::pattern::Color;
use vstd::prelude::*;

verus! {

/// Among the first `n` positions, the number of those at which `secret` and
/// `guess` hold the same color.
pub open spec fn exact_in_prefix(secret: Seq<Color>, guess: Seq<Color>, n: nat) -> nat
    decreases n,
{
    if n == 0 {
        0
    } else {
        exact_in_prefix(secret, guess, (n - 1) as nat) + if secret[n - 1] == guess[n - 1] {
            1nat
        } else {
            0nat
        }
    }
}

/// The number of exact matches: positions at which the guess holds the
/// color of the secret.
pub open spec fn exact_matches(secret: Seq<Color>, guess: Seq<Color>) -> nat {
    exact_in_prefix(secret, guess, secret.len())
}

/// Among the first `n` positions, the number of those at which `pattern`
/// holds the color `c`.
pub open spec fn occurrences(pattern: Seq<Color>, c: Color, n: nat) -> nat
    decreases n,
{
    if n == 0 {
        0
    } else {
        occurrences(pattern, c, (n - 1) as nat) + if pattern[n - 1] == c {
            1nat
        } else {
            0nat
        }
    }
}

/// Among the first `n` positions, the number of those at which `a` holds the
/// color `c` and `b` does not: the copies of `c` in `a` that `b` fails to
/// match in place.
pub open spec fn unmatched(a: Seq<Color>, b: Seq<Color>, c: Color, n: nat) -> nat
    decreases n,
{
    if n == 0 {
        0
    } else {
        unmatched(a, b, c, (n - 1) as nat) + if a[n - 1] == c && b[n - 1] != c {
            1nat
        } else {
            0nat
        }
    }
}

/// The misplaced matches of color `c` that the first `n` positions of the
/// guess earn. The secret offers as many as it has copies of `c` that the
/// guess did not match in place; the guess claims one for each copy of `c`
/// that it holds out of place among its first `n` positions. The smaller of
/// the two numbers is earned.
pub open spec fn credited(secret: Seq<Color>, guess: Seq<Color>, c: Color, n: nat) -> nat {
    let offered = unmatched(secret, guess, c, secret.len());
    let claimed = unmatched(guess, secret, c, n);
    if claimed <= offered {
        claimed
    } else {
        offered
    }
}

/// The sum of `f` over the first `k` colors.
pub open spec fn sum_over_colors(f: spec_fn(Color) -> nat, k: nat) -> nat
    decreases k,
{
    if k == 0 {
        0
    } else {
        sum_over_colors(f, (k - 1) as nat) + f(Color((k - 1) as u8))
    }
}

/// The number of colors that a peg can have at all.
pub open spec fn color_space() -> nat {
    256
}

/// The misplaced matches that the first `n` positions of the guess earn,
/// all colors together.
pub open spec fn misplaced_in_prefix(secret: Seq<Color>, guess: Seq<Color>, n: nat) -> nat {
    sum_over_colors(|c: Color| credited(secret, guess, c, n), color_space())
}

/// The number of misplaced matches: pegs of the guess that are out of place
/// but whose color the secret holds elsewhere, each copy in the secret
/// answering for one peg of the guess at most, and none that an exact match
/// has used.
pub open spec fn misplaced_matches(secret: Seq<Color>, guess: Seq<Color>) -> nat {
    misplaced_in_prefix(secret, guess, guess.len())
}

/// Both counts of the feedback to `guess` can be written in a byte each.
/// They can whenever the guess has at most 255 pegs.
pub open spec fn fits_feedback(secret: Seq<Color>, guess: Seq<Color>) -> bool {
    guess.len() <= u8::MAX || (exact_matches(secret, guess) <= u8::MAX && misplaced_matches(
        secret,
        guess,
    ) <= u8::MAX)
}

/// A count over a longer prefix is no smaller, and grows by one per position
/// at most.
pub proof fn lemma_occurrences_grow(pattern: Seq<Color>, c: Color, m: nat, n: nat)
    requires
        m <= n,
    ensures
        occurrences(pattern, c, m) <= occurrences(pattern, c, n) <= occurrences(pattern, c, m) + (n
            - m),
    decreases n,
{
    if m < n {
        lemma_occurrences_grow(pattern, c, m, (n - 1) as nat);
    }
}

/// The unmatched copies of a color are among its occurrences, and a longer
/// prefix has no fewer of them.
pub proof fn lemma_unmatched_grow(a: Seq<Color>, b: Seq<Color>, c: Color, m: nat, n: nat)
    requires
        m <= n,
    ensures
        unmatched(a, b, c, m) <= unmatched(a, b, c, n),
        unmatched(a, b, c, n) <= occurrences(a, c, n),
        occurrences(a, c, m) - unmatched(a, b, c, m) <= occurrences(a, c, n) - unmatched(a, b, c, n),
    decreases n,
{
    if m < n {
        lemma_unmatched_grow(a, b, c, m, (n - 1) as nat);
    } else {
        lemma_unmatched_within_occurrences(a, b, c, n);
    }
}

proof fn lemma_unmatched_within_occurrences(a: Seq<Color>, b: Seq<Color>, c: Color, n: nat)
    ensures
        unmatched(a, b, c, n) <= occurrences(a, c, n),
    decreases n,
{
    if n > 0 {
        lemma_unmatched_within_occurrences(a, b, c, (n - 1) as nat);
    }
}

/// Where `g` is nowhere below `f`, its sum is not below the sum of `f`.
pub proof fn lemma_sum_monotone(f: spec_fn(Color) -> nat, g: spec_fn(Color) -> nat, k: nat)
    requires
        forall|c: Color| #[trigger] f(c) <= g(c),
    ensures
        sum_over_colors(f, k) <= sum_over_colors(g, k),
    decreases k,
{
    if k > 0 {
        lemma_sum_monotone(f, g, (k - 1) as nat);
    }
}

/// Where `g` is `f` but for one color, at which it is larger by `d`, the sum
/// of `g` over a range that holds the color is larger by `d` too; over a
/// range that does not, the sums are equal.
pub proof fn lemma_sum_differs_at(
    f: spec_fn(Color) -> nat,
    g: spec_fn(Color) -> nat,
    at: Color,
    d: nat,
    k: nat,
)
    requires
        k <= color_space(),
        forall|c: Color| c != at ==> #[trigger] g(c) == f(c),
        g(at) == f(at) + d,
    ensures
        sum_over_colors(g, k) == sum_over_colors(f, k) + if at.0 < k {
            d
        } else {
            0
        },
    decreases k,
{
    if k > 0 {
        lemma_sum_differs_at(f, g, at, d, (k - 1) as nat);
        let c = Color((k - 1) as u8);
        if c != at {
            assert(g(c) == f(c));
        }
    }
}

/// One more position of the guess earns one more misplaced match exactly
/// when the guess holds there, out of place, a color of which the secret
/// still has an unclaimed copy.
pub proof fn lemma_misplaced_step(secret: Seq<Color>, guess: Seq<Color>, n: nat)
    ensures
        misplaced_in_prefix(secret, guess, n + 1) == misplaced_in_prefix(secret, guess, n) + if guess[n as int]
            != secret[n as int] && unmatched(guess, secret, guess[n as int], n) < unmatched(
            secret,
            guess,
            guess[n as int],
            secret.len(),
        ) {
            1nat
        } else {
            0nat
        },
{
    let at = guess[n as int];
    let f = |c: Color| credited(secret, guess, c, n);
    let g = |c: Color| credited(secret, guess, c, n + 1);
    let d = (credited(secret, guess, at, n + 1) - credited(secret, guess, at, n)) as nat;
    assert forall|c: Color| c != at implies #[trigger] g(c) == f(c) by {}
    lemma_sum_differs_at(f, g, at, d, color_space());
}

/// The pegs of the guess that are out of place among its first `n`, counted
/// color by color, are those that are no exact match.
pub proof fn lemma_unmatched_total(secret: Seq<Color>, guess: Seq<Color>, n: nat)
    ensures
        sum_over_colors(|c: Color| unmatched(guess, secret, c, n), color_space())
            + exact_in_prefix(secret, guess, n) == n,
    decreases n,
{
    let g = |c: Color| unmatched(guess, secret, c, n);
    if n == 0 {
        lemma_sum_monotone(g, |c: Color| 0nat, color_space());
        lemma_sum_zero(color_space());
    } else {
        let m = (n - 1) as nat;
        let f = |c: Color| unmatched(guess, secret, c, m);
        let at = guess[m as int];
        lemma_unmatched_total(secret, guess, m);
        let d: nat = if at != secret[m as int] {
            1
        } else {
            0
        };
        assert forall|c: Color| c != at implies #[trigger] g(c) == f(c) by {}
        lemma_sum_differs_at(f, g, at, d, color_space());
    }
}

proof fn lemma_sum_zero(k: nat)
    ensures
        sum_over_colors(|c: Color| 0nat, k) == 0,
    decreases k,
{
    if k > 0 {
        lemma_sum_zero((k - 1) as nat);
    }
}

/// Exact and misplaced matches together never exceed the number of positions
/// looked at: every peg of the guess earns one match at most.
pub proof fn lemma_matches_within_prefix(secret: Seq<Color>, guess: Seq<Color>, n: nat)
    ensures
        exact_in_prefix(secret, guess, n) + misplaced_in_prefix(secret, guess, n) <= n,
{
    lemma_unmatched_total(secret, guess, n);
    lemma_sum_monotone(
        |c: Color| credited(secret, guess, c, n),
        |c: Color| unmatched(guess, secret, c, n),
        color_space(),
    );
}

/// The counts over a prefix never exceed the counts over a longer one.
pub proof fn lemma_matches_grow(secret: Seq<Color>, guess: Seq<Color>, m: nat, n: nat)
    requires
        m <= n,
    ensures
        exact_in_prefix(secret, guess, m) <= exact_in_prefix(secret, guess, n),
        misplaced_in_prefix(secret, guess, m) <= misplaced_in_prefix(secret, guess, n),
    decreases n,
{
    if m < n {
        lemma_matches_grow(secret, guess, m, (n - 1) as nat);
        lemma_misplaced_step(secret, guess, (n - 1) as nat);
    }
}

/// For every secret and guess of one length, exact and misplaced matches
/// together do not exceed that length.
pub proof fn lemma_feedback_within_length(secret: Seq<Color>, guess: Seq<Color>)
    requires
        secret.len() == guess.len(),
    ensures
        exact_matches(secret, guess) + misplaced_matches(secret, guess) <= secret.len(),
{
    lemma_matches_within_prefix(secret, guess, secret.len());
}

/// A pattern guessed against itself matches exactly at every position and
/// has no misplaced match.
pub proof fn lemma_feedback_of_self(pattern: Seq<Color>)
    ensures
        exact_matches(pattern, pattern) == pattern.len(),
        misplaced_matches(pattern, pattern) == 0,
{
    lemma_exact_of_self(pattern, pattern.len());
    lemma_matches_within_prefix(pattern, pattern, pattern.len());
}

proof fn lemma_exact_of_self(pattern: Seq<Color>, n: nat)
    ensures
        exact_in_prefix(pattern, pattern, n) == n,
    decreases n,
{
    if n > 0 {
        lemma_exact_of_self(pattern, (n - 1) as nat);
    }
}

/// Where the guess holds no color of the secret, there is no match of
/// either kind.
pub proof fn lemma_feedback_of_disjoint(secret: Seq<Color>, guess: Seq<Color>)
    requires
        secret.len() == guess.len(),
        forall|i: int, j: int|
            0 <= i < secret.len() && 0 <= j < guess.len() ==> secret[i] != guess[j],
    ensures
        exact_matches(secret, guess) == 0,
        misplaced_matches(secret, guess) == 0,
{
    lemma_exact_of_disjoint(secret, guess, secret.len());
    assert forall|c: Color| #[trigger] credited(secret, guess, c, guess.len()) == 0 by {
        if exists|i: int| 0 <= i < secret.len() && secret[i] == c {
            lemma_absent_is_unmatched_nowhere(guess, secret, c, guess.len());
        } else {
            lemma_absent_is_unmatched_nowhere(secret, guess, c, secret.len());
        }
    }
    lemma_sum_monotone(
        |c: Color| credited(secret, guess, c, guess.len()),
        |c: Color| 0nat,
        color_space(),
    );
    lemma_sum_zero(color_space());
}

proof fn lemma_exact_of_disjoint(secret: Seq<Color>, guess: Seq<Color>, n: nat)
    requires
        n <= secret.len() == guess.len(),
        forall|i: int, j: int|
            0 <= i < secret.len() && 0 <= j < guess.len() ==> secret[i] != guess[j],
    ensures
        exact_in_prefix(secret, guess, n) == 0,
    decreases n,
{
    if n > 0 {
        lemma_exact_of_disjoint(secret, guess, (n - 1) as nat);
    }
}

proof fn lemma_absent_is_unmatched_nowhere(a: Seq<Color>, b: Seq<Color>, c: Color, n: nat)
    requires
        n <= a.len(),
        forall|i: int| 0 <= i < a.len() ==> a[i] != c,
    ensures
        unmatched(a, b, c, n) == 0,
    decreases n,
{
    if n > 0 {
        lemma_absent_is_unmatched_nowhere(a, b, c, (n - 1) as nat);
    }
}

} // verus!
