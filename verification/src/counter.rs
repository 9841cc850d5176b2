//! The order in which patterns are enumerated.
//!
//! A pattern of `len` pegs over `num_colors` colors is read as a number of
//! `len` digits in base `num_colors`, the leftmost peg being the lowest
//! digit. The enumeration counts from zero upwards: the leftmost peg changes
//! fastest. A pattern's place in the enumeration is therefore its value as
//! such a number, and this module proves that places and patterns correspond
//! one to one.

use crate::pattern::{in_range, Color};
use vstd::arithmetic::power::{lemma_pow0, lemma_pow_positive, pow};
use vstd::prelude::*;

verus! {

/// The pattern of `len` pegs at place `index` of the enumeration: the digits
/// of `index` in base `num_colors`, lowest first.
pub open spec fn pattern_at(num_colors: u8, len: nat, index: nat) -> Seq<Color>
    decreases len,
{
    if len == 0 {
        Seq::empty()
    } else {
        seq![Color((index % num_colors as nat) as u8)] + pattern_at(
            num_colors,
            (len - 1) as nat,
            index / num_colors as nat,
        )
    }
}

/// The place of `pattern` in the enumeration: its value as a number in base
/// `num_colors` whose lowest digit is the leftmost peg.
pub open spec fn index_of(num_colors: u8, pattern: Seq<Color>) -> nat
    decreases pattern.len(),
{
    if pattern.len() == 0 {
        0
    } else {
        pattern[0].0 as nat + num_colors as nat * index_of(num_colors, pattern.skip(1))
    }
}

/// The number of patterns of `len` pegs over `num_colors` colors.
pub open spec fn universe_size(num_colors: u8, len: nat) -> nat {
    pow(num_colors as int, len) as nat
}

/// All patterns of `len` pegs over `num_colors` colors, in the order of the
/// enumeration.
pub open spec fn universe(num_colors: u8, len: nat) -> Seq<Seq<Color>> {
    Seq::new(universe_size(num_colors, len), |index: int| pattern_at(num_colors, len, index as nat))
}

/// A universe over at least one color is not empty, and one more peg
/// multiplies its size by the number of colors.
pub proof fn lemma_universe_size(num_colors: u8, len: nat)
    requires
        num_colors > 0,
    ensures
        universe_size(num_colors, len) > 0,
        universe_size(num_colors, 0) == 1,
        universe_size(num_colors, len + 1) == num_colors * universe_size(num_colors, len),
{
    lemma_pow_positive(num_colors as int, len);
    lemma_pow_positive(num_colors as int, len + 1);
    lemma_pow0(num_colors as int);
    reveal(pow);
}

/// What stands at a place of the enumeration is a pattern of the asked
/// length, made of the colors in play.
pub proof fn lemma_pattern_at_is_valid(num_colors: u8, len: nat, index: nat)
    requires
        num_colors > 0,
    ensures
        pattern_at(num_colors, len, index).len() == len,
        in_range(pattern_at(num_colors, len, index), num_colors),
    decreases len,
{
    if len > 0 {
        lemma_pattern_at_is_valid(num_colors, (len - 1) as nat, index / num_colors as nat);
    }
}

/// The pattern at a place of the universe has that place.
pub proof fn lemma_index_of_pattern_at(num_colors: u8, len: nat, index: nat)
    requires
        num_colors > 0,
        index < universe_size(num_colors, len),
    ensures
        index_of(num_colors, pattern_at(num_colors, len, index)) == index,
    decreases len,
{
    let n = num_colors as nat;
    let pattern = pattern_at(num_colors, len, index);
    if len > 0 {
        let rest = (len - 1) as nat;
        lemma_universe_size(num_colors, rest);
        assert(index / n < universe_size(num_colors, rest) && index == n * (index / n) + index % n)
            by (nonlinear_arith)
            requires
                n > 0,
                index < n * universe_size(num_colors, rest),
        ;
        lemma_index_of_pattern_at(num_colors, rest, index / n);
        assert(pattern.skip(1) =~= pattern_at(num_colors, rest, index / n));
    } else {
        lemma_universe_size(num_colors, 0);
    }
}

/// Every pattern made of the colors in play has a place in the universe of
/// its length, and is the pattern that stands there.
pub proof fn lemma_pattern_at_index_of(num_colors: u8, pattern: Seq<Color>)
    requires
        num_colors > 0,
        in_range(pattern, num_colors),
    ensures
        index_of(num_colors, pattern) < universe_size(num_colors, pattern.len()),
        pattern_at(num_colors, pattern.len(), index_of(num_colors, pattern)) == pattern,
    decreases pattern.len(),
{
    let n = num_colors as nat;
    if pattern.len() > 0 {
        let rest = pattern.skip(1);
        let digit = pattern[0].0 as nat;
        let high = index_of(num_colors, rest);
        assert(in_range(rest, num_colors)) by {
            assert forall|i: int| 0 <= i < rest.len() implies (#[trigger] rest[i]).0
                < num_colors by {
                assert(rest[i] == pattern[i + 1]);
            }
        }
        lemma_pattern_at_index_of(num_colors, rest);
        lemma_universe_size(num_colors, rest.len());
        assert((digit + n * high) % n == digit && (digit + n * high) / n == high && digit + n * high
            < n * universe_size(num_colors, rest.len())) by (nonlinear_arith)
            requires
                digit < n,
                high < universe_size(num_colors, rest.len()),
        ;
        assert(pattern_at(num_colors, pattern.len(), index_of(num_colors, pattern)) =~= pattern);
    } else {
        lemma_universe_size(num_colors, 0);
    }
}

/// Two patterns of one length that share a place are the same pattern.
pub proof fn lemma_index_of_is_injective(num_colors: u8, a: Seq<Color>, b: Seq<Color>)
    requires
        num_colors > 0,
        in_range(a, num_colors),
        in_range(b, num_colors),
        a.len() == b.len(),
        index_of(num_colors, a) == index_of(num_colors, b),
    ensures
        a == b,
{
    lemma_pattern_at_index_of(num_colors, a);
    lemma_pattern_at_index_of(num_colors, b);
}

/// The universe holds every pattern of its length that is made of the colors
/// in play, once, at the pattern's place; and it holds nothing else.
pub proof fn lemma_universe_is_exhaustive(num_colors: u8, len: nat)
    requires
        num_colors > 0,
    ensures
        universe(num_colors, len).len() == universe_size(num_colors, len),
        forall|pattern: Seq<Color>|
            pattern.len() == len && in_range(pattern, num_colors) ==> {
                &&& (#[trigger] index_of(num_colors, pattern)) < universe_size(num_colors, len)
                &&& universe(num_colors, len)[index_of(num_colors, pattern) as int] == pattern
            },
        forall|index: int|
            0 <= index < universe_size(num_colors, len) ==> {
                let pattern = #[trigger] universe(num_colors, len)[index];
                &&& pattern.len() == len
                &&& in_range(pattern, num_colors)
                &&& index_of(num_colors, pattern) == index
            },
{
    assert forall|pattern: Seq<Color>|
        pattern.len() == len && in_range(pattern, num_colors) implies {
        &&& (#[trigger] index_of(num_colors, pattern)) < universe_size(num_colors, len)
        &&& universe(num_colors, len)[index_of(num_colors, pattern) as int] == pattern
    } by {
        lemma_pattern_at_index_of(num_colors, pattern);
    }
    assert forall|index: int| 0 <= index < universe_size(num_colors, len) implies {
        let pattern = #[trigger] universe(num_colors, len)[index];
        &&& pattern.len() == len
        &&& in_range(pattern, num_colors)
        &&& index_of(num_colors, pattern) == index
    } by {
        lemma_pattern_at_is_valid(num_colors, len, index as nat);
        lemma_index_of_pattern_at(num_colors, len, index as nat);
    }
}

/// The enumeration is a function of the number of colors and of the length:
/// two lists that each hold the pattern of every place are the same list.
pub proof fn lemma_enumeration_is_determined(
    num_colors: u8,
    len: nat,
    first: Seq<Seq<Color>>,
    second: Seq<Seq<Color>>,
)
    requires
        first.len() == universe_size(num_colors, len),
        second.len() == universe_size(num_colors, len),
        forall|index: int|
            0 <= index < first.len() ==> #[trigger] first[index] == pattern_at(
                num_colors,
                len,
                index as nat,
            ),
        forall|index: int|
            0 <= index < second.len() ==> #[trigger] second[index] == pattern_at(
                num_colors,
                len,
                index as nat,
            ),
    ensures
        first == second,
        first == universe(num_colors, len),
{
    assert(first =~= universe(num_colors, len));
    assert(second =~= universe(num_colors, len));
}

/// The pattern of zeros stands first.
pub proof fn lemma_first_pattern(num_colors: u8, pattern: Seq<Color>)
    requires
        num_colors > 0,
        forall|i: int| 0 <= i < pattern.len() ==> (#[trigger] pattern[i]).0 == 0,
    ensures
        pattern == pattern_at(num_colors, pattern.len(), 0),
    decreases pattern.len(),
{
    if pattern.len() > 0 {
        let n = num_colors as nat;
        let rest = pattern.skip(1);
        assert forall|i: int| 0 <= i < rest.len() implies (#[trigger] rest[i]).0 == 0 by {
            assert(rest[i] == pattern[i + 1]);
        }
        lemma_first_pattern(num_colors, rest);
        assert(0nat % n == 0 && 0nat / n == 0) by (nonlinear_arith)
            requires
                n > 0,
        ;
        assert(pattern =~= pattern_at(num_colors, pattern.len(), 0));
    } else {
        assert(pattern =~= pattern_at(num_colors, pattern.len(), 0));
    }
}

/// Counting on by one with a carry: where the first `carried` pegs hold the
/// last color and the peg after them does not, setting the former to the
/// first color and moving the latter on by one color gives the pattern of
/// the next place.
pub proof fn lemma_carry(num_colors: u8, before: Seq<Color>, after: Seq<Color>, carried: nat)
    requires
        num_colors > 0,
        in_range(before, num_colors),
        carried < before.len() == after.len(),
        forall|i: int|
            0 <= i < carried ==> (#[trigger] before[i]).0 == num_colors - 1 && after[i].0 == 0,
        before[carried as int].0 + 1 < num_colors,
        after[carried as int].0 == before[carried as int].0 + 1,
        forall|i: int| carried < i < before.len() ==> #[trigger] after[i] == before[i],
    ensures
        index_of(num_colors, after) == index_of(num_colors, before) + 1,
        in_range(after, num_colors),
    decreases carried,
{
    assert forall|i: int| 0 <= i < after.len() implies (#[trigger] after[i]).0 < num_colors by {
        if i < carried {
            assert(before[i].0 == num_colors - 1);
        } else if i > carried {
            assert(after[i] == before[i]);
        }
    }
    if carried == 0 {
        assert(after.skip(1) =~= before.skip(1));
    } else {
        let n = num_colors as nat;
        let rest_before = before.skip(1);
        let rest_after = after.skip(1);
        assert forall|i: int| 0 <= i < rest_before.len() implies (#[trigger] rest_before[i]).0
            < num_colors by {
            assert(rest_before[i] == before[i + 1]);
        }
        assert forall|i: int| 0 <= i < carried - 1 implies (#[trigger] rest_before[i]).0
            == num_colors - 1 && rest_after[i].0 == 0 by {
            assert(rest_before[i] == before[i + 1]);
        }
        assert forall|i: int| carried - 1 < i < rest_before.len() implies #[trigger] rest_after[i]
            == rest_before[i] by {
            assert(after[i + 1] == before[i + 1]);
        }
        lemma_carry(num_colors, rest_before, rest_after, (carried - 1) as nat);
        assert(before[0].0 == num_colors - 1);
        let high = index_of(num_colors, rest_before);
        assert(n * (high + 1) == (n - 1) + n * high + 1) by (nonlinear_arith);
    }
}

/// The pattern in which every peg holds the last color stands last.
pub proof fn lemma_last_pattern(num_colors: u8, pattern: Seq<Color>)
    requires
        num_colors > 0,
        forall|i: int| 0 <= i < pattern.len() ==> (#[trigger] pattern[i]).0 == num_colors - 1,
    ensures
        index_of(num_colors, pattern) + 1 == universe_size(num_colors, pattern.len()),
    decreases pattern.len(),
{
    if pattern.len() > 0 {
        let n = num_colors as nat;
        let rest = pattern.skip(1);
        assert forall|i: int| 0 <= i < rest.len() implies (#[trigger] rest[i]).0 == num_colors
            - 1 by {
            assert(rest[i] == pattern[i + 1]);
        }
        lemma_last_pattern(num_colors, rest);
        lemma_universe_size(num_colors, rest.len());
        let high = index_of(num_colors, rest);
        assert(pattern[0].0 == num_colors - 1);
        assert((n - 1) + n * high + 1 == n * (high + 1)) by (nonlinear_arith);
    } else {
        lemma_universe_size(num_colors, 0);
    }
}

} // verus!
