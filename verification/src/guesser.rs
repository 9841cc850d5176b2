//! What a player of the game works with: the feedback to a guess, the list
//! of all patterns, and the table of the feedback of every pair of them.

use crate::counter::{
    index_of, lemma_carry, lemma_first_pattern, lemma_index_of_pattern_at, lemma_last_pattern,
    lemma_pattern_at_index_of, lemma_pattern_at_is_valid, lemma_universe_size, pattern_at,
    universe, universe_size,
};
use crate::game::Game;
use crate::pattern::{in_range, Color, Pattern};
use crate::scoring::{exact_matches, lemma_feedback_of_self, misplaced_matches};
use vstd::prelude::*;

verus! {

/// How a guess compares to a secret: the number of pegs of the right color
/// in the right place, and the number of further pegs whose color the secret
/// holds elsewhere.
#[derive(Clone, Copy, Debug, PartialEq, Eq, Structural)]
pub struct Feedback {
    pub exact: u8,
    pub misplaced: u8,
}

impl Default for Feedback {
    fn default() -> (feedback: Feedback)
        ensures
            feedback.exact == 0,
            feedback.misplaced == 0,
    {
        Feedback { exact: 0, misplaced: 0 }
    }
}

impl Feedback {
    /// The feedback without any match.
    pub fn new() -> (feedback: Feedback)
        ensures
            feedback.exact == 0,
            feedback.misplaced == 0,
    {
        Feedback::default()
    }
}

/// A player: something that proposes the next guess.
pub trait Guesser {
    fn guess(&self) -> Pattern;
}

/// What a matrix is, mathematically: its two dimensions and its elements,
/// row after row.
pub struct MatrixView<T> {
    pub rows: nat,
    pub columns: nat,
    pub elems: Seq<T>,
}

/// Where the element at row `i` and column `j` stands among the elements of
/// a matrix of `columns` columns.
pub open spec fn cell_index(columns: nat, i: int, j: int) -> int {
    columns * i + j
}

impl<T> MatrixView<T> {
    /// The elements fill the rows and columns exactly.
    pub open spec fn is_dense(self) -> bool {
        self.elems.len() == self.rows * self.columns
    }

    /// Row `i` and column `j` exist, and so does an element for them.
    pub open spec fn holds(self, i: int, j: int) -> bool {
        0 <= i < self.rows && 0 <= j < self.columns && cell_index(self.columns, i, j)
            < self.elems.len()
    }

    /// The element at row `i` and column `j`.
    pub open spec fn at(self, i: int, j: int) -> T {
        self.elems[cell_index(self.columns, i, j)]
    }

    /// A dense matrix holds an element for every row and column that it has,
    /// each at an index of its own.
    pub proof fn lemma_dense_holds(self, i: int, j: int)
        requires
            self.is_dense(),
            0 <= i < self.rows,
            0 <= j < self.columns,
        ensures
            self.holds(i, j),
            forall|k: int, l: int|
                0 <= k < self.rows && 0 <= l < self.columns && (k != i || l != j) ==> #[trigger] cell_index(
                    self.columns,
                    k,
                    l,
                ) != cell_index(self.columns, i, j),
    {
        let columns = self.columns as int;
        assert(columns * i + j < self.rows * columns) by (nonlinear_arith)
            requires
                0 <= i < self.rows,
                0 <= j < columns,
        ;
        assert forall|k: int, l: int|
            0 <= k < self.rows && 0 <= l < self.columns && (k != i || l != j) implies #[trigger] cell_index(
            self.columns,
            k,
            l,
        ) != cell_index(self.columns, i, j) by {
            assert(k != i ==> columns * k + l != columns * i + j) by (nonlinear_arith)
                requires
                    0 <= l < columns,
                    0 <= j < columns,
            ;
        }
    }
}

/// A table of elements in rows and columns, stored row after row.
pub struct Matrix<T> {
    rows: usize,
    columns: usize,
    elems: Vec<T>,
}

impl<T> View for Matrix<T> {
    type V = MatrixView<T>;

    closed spec fn view(&self) -> MatrixView<T> {
        MatrixView { rows: self.rows as nat, columns: self.columns as nat, elems: self.elems@ }
    }
}

impl<T> Matrix<T> {
    /// The element at row `i` and column `j`, if the matrix has one.
    pub fn get(&self, i: usize, j: usize) -> (element: Option<&T>)
        ensures
            match element {
                Some(e) => self@.holds(i as int, j as int) && *e == self@.at(i as int, j as int),
                None => !self@.holds(i as int, j as int),
            },
    {
        if i >= self.rows || j >= self.columns {
            return None;
        }
        let count = self.elems.len();
        let row_start = match self.columns.checked_mul(i) {
            Some(n) => n,
            None => {
                return None;
            },
        };
        let index = match row_start.checked_add(j) {
            Some(n) => n,
            None => {
                return None;
            },
        };
        if index < count {
            Some(&self.elems[index])
        } else {
            None
        }
    }

    /// The number of rows.
    pub fn rows(&self) -> (rows: usize)
        ensures
            rows == self@.rows,
    {
        self.rows
    }

    /// The number of columns.
    pub fn columns(&self) -> (columns: usize)
        ensures
            columns == self@.columns,
    {
        self.columns
    }

    /// The elements, row after row.
    pub fn elems(&self) -> (elems: &Vec<T>)
        ensures
            elems@ == self@.elems,
    {
        &self.elems
    }

    /// The matrix of `rows` rows and `columns` columns whose elements are
    /// those of `init`, row after row.
    pub fn from_vec(rows: usize, columns: usize, init: Vec<T>) -> (matrix: Matrix<T>)
        ensures
            matrix@.rows == rows,
            matrix@.columns == columns,
            matrix@.elems == init@,
    {
        Matrix { rows, columns, elems: init }
    }
}

/// The patterns of a list, each as the sequence of its colors.
pub open spec fn views(patterns: Seq<Pattern>) -> Seq<Seq<Color>> {
    patterns.map_values(|pattern: Pattern| pattern@)
}

/// `table` is the feedback table of `patterns`: it has a row and a column
/// for each pattern, and at row `i` and column `j` the feedback to pattern
/// `j` as a guess when pattern `i` is the secret.
pub open spec fn tabulates(table: MatrixView<Feedback>, patterns: Seq<Seq<Color>>) -> bool {
    &&& table.rows == patterns.len()
    &&& table.columns == patterns.len()
    &&& table.is_dense()
    &&& forall|i: int, j: int|
        0 <= i < patterns.len() && 0 <= j < patterns.len() ==> {
            let feedback = #[trigger] table.at(i, j);
            &&& feedback.exact == exact_matches(patterns[i], patterns[j])
            &&& feedback.misplaced == misplaced_matches(patterns[i], patterns[j])
        }
}

/// On the diagonal of a feedback table every pattern meets itself: all of
/// its pegs match exactly and none is misplaced.
pub proof fn lemma_table_diagonal(table: MatrixView<Feedback>, patterns: Seq<Seq<Color>>, i: int)
    requires
        tabulates(table, patterns),
        0 <= i < patterns.len(),
    ensures
        table.at(i, i).exact == patterns[i].len(),
        table.at(i, i).misplaced == 0,
{
    lemma_feedback_of_self(patterns[i]);
}

/// The pattern of `len` pegs of the first color, with which the enumeration
/// starts.
fn first_pattern(len: usize) -> (pattern: Pattern)
    ensures
        pattern@.len() == len,
        forall|i: int| 0 <= i < len ==> (#[trigger] pattern@[i]).0 == 0,
{
    let mut pattern: Pattern = Vec::new();
    while pattern.len() < len
        invariant
            pattern@.len() <= len,
            forall|i: int| 0 <= i < pattern@.len() ==> (#[trigger] pattern@[i]).0 == 0,
        decreases len - pattern@.len(),
    {
        pattern.push(Color(0));
    }
    pattern
}

/// Moves `pattern` on to the next place of the enumeration, or from the last
/// place back to the first. Tells whether it went back.
fn advance(pattern: &mut Pattern, num_colors: u8) -> (wrapped: bool)
    requires
        num_colors > 0,
        in_range(old(pattern)@, num_colors),
    ensures
        wrapped == (index_of(num_colors, old(pattern)@) + 1 == universe_size(
            num_colors,
            old(pattern)@.len(),
        )),
        final(pattern)@ == pattern_at(
            num_colors,
            old(pattern)@.len(),
            if wrapped {
                0
            } else {
                index_of(num_colors, old(pattern)@) + 1
            },
        ),
{
    let ghost before = pattern@;
    let len = pattern.len();
    let mut i: usize = 0;
    while i < len
        invariant
            i <= len == before.len() == pattern@.len(),
            before == old(pattern)@,
            num_colors > 0,
            in_range(before, num_colors),
            forall|j: int| 0 <= j < i ==> (#[trigger] before[j]).0 == num_colors - 1,
            forall|j: int| 0 <= j < i ==> (#[trigger] pattern@[j]).0 == 0,
            forall|j: int| i <= j < len ==> #[trigger] pattern@[j] == before[j],
        decreases len - i,
    {
        let next: u8 = pattern[i].0 + 1;
        if next < num_colors {
            pattern[i] = Color(next);
            proof {
                lemma_carry(num_colors, before, pattern@, i as nat);
                lemma_pattern_at_index_of(num_colors, pattern@);
                lemma_pattern_at_index_of(num_colors, before);
            }
            return false;
        }
        pattern[i] = Color(0);
        i += 1;
    }
    proof {
        lemma_last_pattern(num_colors, before);
        lemma_first_pattern(num_colors, pattern@);
    }
    true
}

/// Lists every pattern of `len` pegs over `num_colors` colors, each once.
///
/// The list starts with the pattern of the first color alone; from one
/// pattern to the next the leftmost peg moves on by one color, and a peg that
/// has run through all colors starts over while the peg to its right moves
/// on. The pattern at place `k` thus spells `k` in base `num_colors`, lowest
/// digit first.
pub fn all_patterns(num_colors: u8, len: usize) -> (patterns: Vec<Pattern>)
    requires
        num_colors > 0,
    ensures
        views(patterns@) == universe(num_colors, len as nat),
        patterns@.len() == universe_size(num_colors, len as nat),
        forall|k: int|
            0 <= k < patterns@.len() ==> (#[trigger] patterns@[k])@ == pattern_at(
                num_colors,
                len as nat,
                k as nat,
            ),
{
    let mut pattern = first_pattern(len);
    let mut patterns: Vec<Pattern> = Vec::new();
    proof {
        lemma_first_pattern(num_colors, pattern@);
        lemma_universe_size(num_colors, len as nat);
    }
    loop
        invariant_except_break
            patterns@.len() < universe_size(num_colors, len as nat),
            pattern@ == pattern_at(num_colors, len as nat, patterns@.len()),
        invariant
            num_colors > 0,
            forall|k: int|
                0 <= k < patterns@.len() ==> (#[trigger] patterns@[k])@ == pattern_at(
                    num_colors,
                    len as nat,
                    k as nat,
                ),
        ensures
            patterns@.len() == universe_size(num_colors, len as nat),
        decreases universe_size(num_colors, len as nat) - patterns@.len(),
    {
        proof {
            lemma_pattern_at_is_valid(num_colors, len as nat, patterns@.len());
            lemma_index_of_pattern_at(num_colors, len as nat, patterns@.len());
        }
        patterns.push(pattern.clone());
        let wrapped = advance(&mut pattern, num_colors);
        if wrapped {
            break ;
        }
    }
    proof {
        assert(views(patterns@) =~= universe(num_colors, len as nat));
    }
    patterns
}

/// Scores every pattern of `patterns` as a guess against every one of them
/// as the secret, and returns the table of the results: a square matrix
/// with the feedback for secret `i` and guess `j` at row `i`, column `j`.
pub fn feedback_matrix(patterns: &[Pattern], num_colors: u8, len: usize) -> (table: Matrix<
    Feedback,
>)
    requires
        num_colors > 0,
        forall|i: int|
            0 <= i < patterns@.len() ==> (#[trigger] patterns@[i])@.len() == len && in_range(
                patterns@[i]@,
                num_colors,
            ),
        patterns@.len() > 0 ==> len <= u8::MAX,
    ensures
        tabulates(table@, views(patterns@)),
        forall|i: int|
            0 <= i < patterns@.len() ==> (#[trigger] table@.at(i, i)) == (Feedback {
                exact: len as u8,
                misplaced: 0,
            }),
{
    let count = patterns.len();
    let ghost all = views(patterns@);
    let mut feedback_vec: Vec<Feedback> = Vec::new();
    let mut i: usize = 0;
    while i < count
        invariant
            i <= count == patterns@.len() == all.len(),
            all == views(patterns@),
            num_colors > 0,
            len <= u8::MAX || count == 0,
            forall|k: int|
                0 <= k < patterns@.len() ==> (#[trigger] patterns@[k])@.len() == len && in_range(
                    patterns@[k]@,
                    num_colors,
                ),
            feedback_vec@.len() == i * count,
            forall|k: int, l: int|
                0 <= k < i && 0 <= l < count ==> {
                    let feedback = #[trigger] feedback_vec@[cell_index(count as nat, k, l)];
                    &&& feedback.exact == exact_matches(all[k], all[l])
                    &&& feedback.misplaced == misplaced_matches(all[k], all[l])
                },
        decreases count - i,
    {
        let game = Game::new(num_colors, patterns[i].clone());
        let mut j: usize = 0;
        while j < count
            invariant
                i < count == patterns@.len() == all.len(),
                j <= count,
                all == views(patterns@),
                len <= u8::MAX,
                game@.secret == all[i as int],
                game@.num_colors == num_colors,
                forall|k: int|
                    0 <= k < patterns@.len() ==> (#[trigger] patterns@[k])@.len() == len
                        && in_range(patterns@[k]@, num_colors),
                feedback_vec@.len() == i * count + j,
                forall|k: int, l: int|
                    0 <= k < i && 0 <= l < count ==> {
                        let feedback = #[trigger] feedback_vec@[cell_index(count as nat, k, l)];
                        &&& feedback.exact == exact_matches(all[k], all[l])
                        &&& feedback.misplaced == misplaced_matches(all[k], all[l])
                    },
                forall|l: int|
                    0 <= l < j ==> {
                        let feedback = #[trigger] feedback_vec@[cell_index(count as nat, i as int, l)];
                        &&& feedback.exact == exact_matches(all[i as int], all[l])
                        &&& feedback.misplaced == misplaced_matches(all[i as int], all[l])
                    },
            decreases count - j,
        {
            proof {
                lemma_row_major(count as nat, i as int);
            }
            let feedback = game.evaluate_guess(&patterns[j]);
            feedback_vec.push(feedback);
            j += 1;
        }
        proof {
            lemma_row_major(count as nat, i as int);
        }
        i += 1;
    }
    let table = Matrix::from_vec(count, count, feedback_vec);
    proof {
        assert forall|k: int| 0 <= k < patterns@.len() implies (#[trigger] table@.at(k, k)) == (
        Feedback { exact: len as u8, misplaced: 0 }) by {
            lemma_feedback_of_self(all[k]);
        }
    }
    table
}

/// What the exhaustive guesser is, mathematically.
pub struct UnoptimizedView {
    pub num_colors: u8,
    pub pattern_len: nat,
    pub feedback_matrix: MatrixView<Feedback>,
    pub possible_patterns: Seq<Seq<Color>>,
}

/// The groundwork of a guesser that reasons over all patterns at once: the
/// list of every pattern of one size, and the feedback of every pair of
/// them, computed once and kept.
pub struct Unoptimized {
    num_colors: u8,
    pattern_len: usize,
    feedback_matrix: Matrix<Feedback>,
    possible_patterns: Vec<Pattern>,
}

impl View for Unoptimized {
    type V = UnoptimizedView;

    closed spec fn view(&self) -> UnoptimizedView {
        UnoptimizedView {
            num_colors: self.num_colors,
            pattern_len: self.pattern_len as nat,
            feedback_matrix: self.feedback_matrix@,
            possible_patterns: views(self.possible_patterns@),
        }
    }
}

impl Unoptimized {
    #[verifier::type_invariant]
    spec fn consistent(self) -> bool {
        &&& self.num_colors > 0
        &&& views(self.possible_patterns@) == universe(self.num_colors, self.pattern_len as nat)
        &&& tabulates(self.feedback_matrix@, views(self.possible_patterns@))
    }

    /// Lists all patterns of `pattern_len` pegs over `num_colors` colors and
    /// tabulates the feedback of every pair of them.
    pub fn new(num_colors: u8, pattern_len: usize) -> (guesser: Unoptimized)
        requires
            num_colors > 0,
            pattern_len <= u8::MAX,
        ensures
            guesser@.num_colors == num_colors,
            guesser@.pattern_len == pattern_len,
            guesser@.possible_patterns == universe(num_colors, pattern_len as nat),
            tabulates(guesser@.feedback_matrix, guesser@.possible_patterns),
    {
        let possible_patterns = all_patterns(num_colors, pattern_len);
        proof {
            assert forall|k: int| 0 <= k < possible_patterns@.len() implies (
            #[trigger] possible_patterns@[k])@.len() == pattern_len && in_range(
                possible_patterns@[k]@,
                num_colors,
            ) by {
                lemma_pattern_at_is_valid(num_colors, pattern_len as nat, k as nat);
            }
        }
        let feedback_matrix = feedback_matrix(&possible_patterns, num_colors, pattern_len);
        Unoptimized { num_colors, pattern_len, possible_patterns, feedback_matrix }
    }

    /// The number of colors in play.
    pub fn num_colors(&self) -> (num_colors: u8)
        ensures
            num_colors == self@.num_colors,
            num_colors > 0,
    {
        proof {
            use_type_invariant(self);
        }
        self.num_colors
    }

    /// The number of pegs of a pattern.
    pub fn pattern_len(&self) -> (pattern_len: usize)
        ensures
            pattern_len == self@.pattern_len,
    {
        self.pattern_len
    }

    /// Every pattern, in the order of the enumeration.
    pub fn possible_patterns(&self) -> (patterns: &Vec<Pattern>)
        ensures
            views(patterns@) == self@.possible_patterns,
            views(patterns@) == universe(self@.num_colors, self@.pattern_len),
    {
        proof {
            use_type_invariant(self);
        }
        &self.possible_patterns
    }

    /// The feedback of every pair of patterns: at row `i` and column `j` that
    /// to pattern `j` as a guess when pattern `i` is the secret.
    pub fn feedback_matrix(&self) -> (table: &Matrix<Feedback>)
        ensures
            table@ == self@.feedback_matrix,
            tabulates(table@, universe(self@.num_colors, self@.pattern_len)),
    {
        proof {
            use_type_invariant(self);
        }
        &self.feedback_matrix
    }
}

/// In a table of `columns` columns stored row after row, the rows before row
/// `i` take up the indices below `columns * i`, and row `i + 1` starts where
/// row `i` ends.
proof fn lemma_row_major(columns: nat, i: int)
    requires
        0 <= i,
    ensures
        i * columns == columns * i,
        columns * (i + 1) == columns * i + columns,
        forall|k: int, l: int|
            0 <= k < i && 0 <= l < columns ==> 0 <= #[trigger] cell_index(columns, k, l) < columns
                * i,
{
    assert(i * columns == columns * i && columns * (i + 1) == columns * i + columns)
        by (nonlinear_arith);
    assert forall|k: int, l: int| 0 <= k < i && 0 <= l < columns implies 0 <= #[trigger] cell_index(
        columns,
        k,
        l,
    ) < columns * i by {
        assert(0 <= columns * k && columns * k + columns <= columns * i) by (nonlinear_arith)
            requires
                0 <= k < i,
                0 <= columns,
        ;
    }
}

} // verus!
