use mastermind::guesser::all_patterns;
use mastermind::pattern::{all_in_range, Color, Pattern};

fn pattern(colors: &[u8]) -> Pattern {
    colors.iter().map(|c| Color(*c)).collect()
}

#[test]
fn test_all_patterns() {
    for c in 1..=6 {
        for n in 1..=4 {
            let patterns_len = all_patterns(c, n).len();
            let expected_len = (c as usize).pow(n as u32);
            assert_eq!(patterns_len, expected_len);
        }
    }
    println!(
        "{:?}",
        all_patterns(3, 2)
            .into_iter()
            .map(|p| p.into_iter().map(|c| c.0).collect())
            .collect::<Vec<Vec<u8>>>()
    );
}

#[test]
fn all_patterns_counts_with_the_leftmost_peg_fastest() {
    let expected: Vec<Pattern> = vec![
        pattern(&[0, 0]),
        pattern(&[1, 0]),
        pattern(&[2, 0]),
        pattern(&[0, 1]),
        pattern(&[1, 1]),
        pattern(&[2, 1]),
        pattern(&[0, 2]),
        pattern(&[1, 2]),
        pattern(&[2, 2]),
    ];
    assert_eq!(all_patterns(3, 2), expected);
}

#[test]
fn all_patterns_of_two_colors_and_three_pegs() {
    let expected: Vec<Pattern> = vec![
        pattern(&[0, 0, 0]),
        pattern(&[1, 0, 0]),
        pattern(&[0, 1, 0]),
        pattern(&[1, 1, 0]),
        pattern(&[0, 0, 1]),
        pattern(&[1, 0, 1]),
        pattern(&[0, 1, 1]),
        pattern(&[1, 1, 1]),
    ];
    assert_eq!(all_patterns(2, 3), expected);
}

#[test]
fn all_patterns_has_exactly_the_power_many() {
    assert_eq!(all_patterns(6, 4).len(), 1296);
    assert_eq!(all_patterns(8, 3).len(), 512);
    assert_eq!(all_patterns(255, 1).len(), 255);
}

#[test]
fn pattern_at_a_place_spells_the_place() {
    let patterns = all_patterns(5, 3);
    for (place, p) in patterns.iter().enumerate() {
        let value = p[0].0 as usize + 5 * p[1].0 as usize + 25 * p[2].0 as usize;
        assert_eq!(value, place);
    }
}

#[test]
fn all_patterns_of_no_pegs_is_the_empty_pattern_alone() {
    let expected: Vec<Pattern> = vec![Vec::new()];
    assert_eq!(all_patterns(4, 0), expected);
}

#[test]
fn all_patterns_of_one_color_is_one_pattern() {
    let expected: Vec<Pattern> = vec![pattern(&[0, 0, 0])];
    assert_eq!(all_patterns(1, 3), expected);
}

#[test]
fn all_patterns_last_color_is_reached() {
    let patterns = all_patterns(255, 1);
    assert_eq!(patterns[0], pattern(&[0]));
    assert_eq!(patterns[254], pattern(&[254]));
}

#[test]
fn all_patterns_holds_every_pattern_once() {
    let patterns = all_patterns(4, 3);
    for p in &patterns {
        assert_eq!(p.len(), 3);
        assert!(all_in_range(p, 4));
    }
    for i in 0..patterns.len() {
        for j in 0..i {
            assert_ne!(patterns[i], patterns[j]);
        }
    }
    assert_eq!(patterns.len(), 64);
}

#[test]
fn all_patterns_gives_the_same_list_each_time() {
    assert_eq!(all_patterns(3, 4), all_patterns(3, 4));
    assert_eq!(all_patterns(6, 2), all_patterns(6, 2));
}

#[test]
fn all_in_range_accepts_the_colors_in_play_only() {
    assert!(all_in_range(&pattern(&[0, 1, 2, 1, 2, 2]), 3));
    assert!(!all_in_range(&pattern(&[0, 1, 3]), 3));
    assert!(!all_in_range(&pattern(&[3, 0, 0]), 3));
    assert!(all_in_range(&pattern(&[]), 1));
    assert!(!all_in_range(&pattern(&[0]), 0));
    assert!(all_in_range(&pattern(&[254]), 255));
}
