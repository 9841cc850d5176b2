use mastermind::game::Game;
use mastermind::guesser::{all_patterns, feedback_matrix, Feedback, Matrix, Unoptimized};
use mastermind::pattern::{Color, Pattern};

fn colors(values: &[u8]) -> Pattern {
    values.iter().map(|c| Color(*c)).collect()
}

#[test]
fn test_small_feedback_matrix() {
    // 3x2 Feedback table
    let feedback_table: Vec<(u8, u8)> = vec![
        //     RR      RG      GR      GG
        vec![(0, 2), (0, 1), (0, 1), (0, 0)], // RR
        vec![(0, 1), (0, 2), (2, 0), (0, 1)], // RG
        vec![(0, 1), (2, 0), (0, 2), (0, 1)], // GR
        vec![(0, 0), (0, 1), (0, 1), (0, 2)], // GG
    ]
    .into_iter()
    .flatten()
    .collect();
    let matrix: Vec<(u8, u8)> = feedback_matrix(&all_patterns(2, 2), 2, 2)
        .elems()
        .iter()
        .map(|f| (f.misplaced, f.exact))
        .collect();
    assert_eq!(feedback_table.len(), matrix.len());
    for (i, (a, b)) in feedback_table.into_iter().zip(matrix).enumerate() {
        assert_eq!(a, b, "{i}")
    }
}

#[test]
fn small_table_cell_by_cell() {
    let patterns = all_patterns(2, 2);
    assert_eq!(
        patterns,
        vec![colors(&[0, 0]), colors(&[1, 0]), colors(&[0, 1]), colors(&[1, 1])]
    );
    let table = feedback_matrix(&patterns, 2, 2);
    assert_eq!(table.rows(), 4);
    assert_eq!(table.columns(), 4);
    assert_eq!(table.elems().len(), 16);
    for i in 0..4 {
        assert_eq!(table.get(i, i), Some(&Feedback { exact: 2, misplaced: 0 }));
    }
    // RR stands at place 0, GR at place 1, RG at place 2.
    assert_eq!(table.get(0, 2), Some(&Feedback { exact: 1, misplaced: 0 }));
    assert_eq!(table.get(0, 1), Some(&Feedback { exact: 1, misplaced: 0 }));
    assert_eq!(table.get(2, 1), Some(&Feedback { exact: 0, misplaced: 2 }));
    assert_eq!(table.get(1, 2), Some(&Feedback { exact: 0, misplaced: 2 }));
    assert_eq!(table.get(0, 3), Some(&Feedback { exact: 0, misplaced: 0 }));
    assert_eq!(table.get(4, 0), None);
    assert_eq!(table.get(0, 4), None);
}

#[test]
fn three_color_table() {
    // (misplaced, exact) for every secret (row) and guess (column).
    let feedback_table: [[(u8, u8); 9]; 9] = [
        [(0, 2), (0, 1), (0, 1), (0, 1), (0, 0), (0, 0), (0, 1), (0, 0), (0, 0)], // RR
        [(0, 1), (0, 2), (0, 1), (2, 0), (0, 1), (1, 0), (1, 0), (0, 1), (0, 0)], // RG
        [(0, 1), (0, 1), (0, 2), (1, 0), (0, 0), (0, 1), (2, 0), (1, 0), (0, 1)], // RB
        [(0, 1), (2, 0), (1, 0), (0, 2), (0, 1), (0, 1), (0, 1), (1, 0), (0, 0)], // GR
        [(0, 0), (0, 1), (0, 0), (0, 1), (0, 2), (0, 1), (0, 0), (0, 1), (0, 0)], // GG
        [(0, 0), (1, 0), (0, 1), (0, 1), (0, 1), (0, 2), (1, 0), (2, 0), (0, 1)], // GB
        [(0, 1), (1, 0), (2, 0), (0, 1), (0, 0), (1, 0), (0, 2), (0, 1), (0, 1)], // BR
        [(0, 0), (0, 1), (1, 0), (1, 0), (0, 1), (2, 0), (0, 1), (0, 2), (0, 1)], // BG
        [(0, 0), (0, 0), (0, 1), (0, 0), (0, 0), (0, 1), (0, 1), (0, 1), (0, 2)], // BB
    ];
    let named: Vec<Pattern> = vec![
        colors(&[0, 0]),
        colors(&[0, 1]),
        colors(&[0, 2]),
        colors(&[1, 0]),
        colors(&[1, 1]),
        colors(&[1, 2]),
        colors(&[2, 0]),
        colors(&[2, 1]),
        colors(&[2, 2]),
    ];
    let table = feedback_matrix(&named, 3, 2);
    for i in 0..9 {
        let game = Game::new(3, named[i].clone());
        for j in 0..9 {
            let feedback = game.evaluate_guess(&named[j]);
            assert_eq!((feedback.misplaced, feedback.exact), feedback_table[i][j]);
            assert_eq!(table.get(i, j), Some(&feedback));
        }
    }
}

#[test]
fn table_holds_the_feedback_of_every_pair() {
    let patterns = all_patterns(3, 3);
    let table = feedback_matrix(&patterns, 3, 3);
    assert_eq!(table.rows(), 27);
    assert_eq!(table.columns(), 27);
    assert_eq!(table.elems().len(), 27 * 27);
    for i in 0..27 {
        let game = Game::new(3, patterns[i].clone());
        for j in 0..27 {
            assert_eq!(table.get(i, j), Some(&game.evaluate_guess(&patterns[j])));
            assert_eq!(table.get(i, j), Some(&table.elems()[27 * i + j]));
        }
        assert_eq!(table.get(i, i), Some(&Feedback { exact: 3, misplaced: 0 }));
    }
}

#[test]
fn table_of_no_patterns_is_empty() {
    let table = feedback_matrix(&[], 3, 2);
    assert_eq!(table.rows(), 0);
    assert_eq!(table.columns(), 0);
    assert!(table.elems().is_empty());
    assert_eq!(table.get(0, 0), None);
}

#[test]
fn matrix_is_stored_row_after_row() {
    let matrix = Matrix::from_vec(2, 3, vec![10, 11, 12, 20, 21, 22]);
    assert_eq!(matrix.rows(), 2);
    assert_eq!(matrix.columns(), 3);
    assert_eq!(matrix.elems(), &vec![10, 11, 12, 20, 21, 22]);
    assert_eq!(matrix.get(0, 0), Some(&10));
    assert_eq!(matrix.get(0, 2), Some(&12));
    assert_eq!(matrix.get(1, 0), Some(&20));
    assert_eq!(matrix.get(1, 2), Some(&22));
    assert_eq!(matrix.get(2, 0), None);
    assert_eq!(matrix.get(0, 3), None);
    assert_eq!(matrix.get(1, 3), None);
}

#[test]
fn matrix_with_too_few_elements_has_none_for_the_rest() {
    let matrix = Matrix::from_vec(2, 2, vec![1, 2, 3]);
    assert_eq!(matrix.get(1, 0), Some(&3));
    assert_eq!(matrix.get(1, 1), None);
    let huge = Matrix::from_vec(usize::MAX, usize::MAX, vec![7]);
    assert_eq!(huge.get(0, 0), Some(&7));
    assert_eq!(huge.get(0, 1), None);
    assert_eq!(huge.get(usize::MAX - 1, 5), None);
    assert_eq!(huge.get(1, usize::MAX - 1), None);
}

#[test]
fn unoptimized_holds_the_universe_and_its_table() {
    let guesser = Unoptimized::new(2, 2);
    assert_eq!(guesser.num_colors(), 2);
    assert_eq!(guesser.pattern_len(), 2);
    assert_eq!(guesser.possible_patterns(), &all_patterns(2, 2));
    let table = guesser.feedback_matrix();
    assert_eq!(table.rows(), 4);
    assert_eq!(table.columns(), 4);
    for i in 0..4 {
        let game = Game::new(2, guesser.possible_patterns()[i].clone());
        for j in 0..4 {
            let expected = game.evaluate_guess(&guesser.possible_patterns()[j]);
            assert_eq!(table.get(i, j), Some(&expected));
        }
        assert_eq!(table.get(i, i), Some(&Feedback { exact: 2, misplaced: 0 }));
    }
}

#[test]
fn unoptimized_of_no_pegs_knows_the_empty_pattern() {
    let guesser = Unoptimized::new(3, 0);
    assert_eq!(guesser.possible_patterns().len(), 1);
    assert_eq!(guesser.feedback_matrix().get(0, 0), Some(&Feedback { exact: 0, misplaced: 0 }));
}
