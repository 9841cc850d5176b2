//! Peg colors and the patterns made of them.

use vstd::prelude::*;

verus! {

/// One peg color, identified by a small number.
///
/// In a game with `num_colors` colors the valid colors are those whose number
/// is below `num_colors`.
#[derive(PartialEq, Eq, Structural, Clone, Copy, Hash, Debug)]
pub struct Color(pub u8);

/// An ordered row of pegs. Position matters for exact matches; for misplaced
/// matches only how often each color occurs does.
pub type Pattern = Vec<Color>;

/// Every color of `pattern` is one of the first `num_colors` colors.
pub open spec fn in_range(pattern: Seq<Color>, num_colors: u8) -> bool {
    forall|i: int| 0 <= i < pattern.len() ==> (#[trigger] pattern[i]).0 < num_colors
}

/// Tells whether every color of `pattern` is one of the first `num_colors`
/// colors.
pub fn all_in_range(pattern: &Pattern, num_colors: u8) -> (ok: bool)
    ensures
        ok == in_range(pattern@, num_colors),
{
    let mut i: usize = 0;
    while i < pattern.len()
        invariant
            i <= pattern.len(),
            in_range(pattern@.take(i as int), num_colors),
        decreases pattern.len() - i,
    {
        if pattern[i].0 >= num_colors {
            return false;
        }
        proof {
            assert forall|j: int| 0 <= j < i + 1 implies (#[trigger] pattern@.take(i + 1)[j]).0
                < num_colors by {
                if j < i {
                    assert(pattern@.take(i as int)[j] == pattern@[j]);
                }
            }
        }
        i += 1;
    }
    proof {
        assert(pattern@.take(i as int) =~= pattern@);
    }
    true
}

} // verus!
