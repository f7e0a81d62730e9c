//! Bonuses, the score matrices, and the dynamic-programming scorer.
//!
//! Scores are integers in units of 1/200 of a match point, so the classic
//! weights appear here as 180 (slash), 160 (word), 140 (capital), 120
//! (dot), 200 (consecutive), -1 (leading/trailing gap) and -2 (inner gap).

use rff::mat::Mat;
use rff::score::Score;
use rff::score_value::ScoreValue;

const SLASH: i128 = 180;
const WORD: i128 = 160;
const CAPITAL: i128 = 140;
const DOT: i128 = 120;

fn score(needle: &str, haystack: &str) -> ScoreValue {
    rff::scorer::score(needle, haystack)
}

fn compute(text: &str) -> Vec<i128> {
    rff::bonus::compute(&rff::matcher::chars_of(text))
}

#[test]
fn test_compute() {
    assert_eq!(compute("abcd"), vec![SLASH, 0, 0, 0]);

    assert_eq!(
        compute("ab-c_d eF"),
        vec![SLASH, 0, 0, WORD, 0, WORD, 0, WORD, CAPITAL]
    );

    assert_eq!(
        compute("app/models/product.rb"),
        vec![
            SLASH, 0, 0, 0, SLASH, 0, 0, 0, 0, 0, 0, SLASH, 0, 0, 0, 0, 0, 0, 0, DOT, 0
        ]
    );
}

fn check_for_char() {
    assert_eq!(rff::bonus::for_char('*', '*'), 0);
    assert_eq!(rff::bonus::for_char('a', 'a'), 0);

    assert_eq!(rff::bonus::for_char('/', 'a'), SLASH);
    assert_eq!(rff::bonus::for_char('/', 'A'), SLASH);
    assert_eq!(rff::bonus::for_char('/', '0'), SLASH);

    assert_eq!(rff::bonus::for_char('-', 'a'), WORD);
    assert_eq!(rff::bonus::for_char('-', 'A'), WORD);
    assert_eq!(rff::bonus::for_char('-', '0'), WORD);

    assert_eq!(rff::bonus::for_char('_', 'a'), WORD);
    assert_eq!(rff::bonus::for_char('_', 'A'), WORD);
    assert_eq!(rff::bonus::for_char('_', '0'), WORD);

    assert_eq!(rff::bonus::for_char(' ', 'a'), WORD);
    assert_eq!(rff::bonus::for_char(' ', 'A'), WORD);
    assert_eq!(rff::bonus::for_char(' ', '0'), WORD);

    assert_eq!(rff::bonus::for_char('.', 'a'), DOT);
    assert_eq!(rff::bonus::for_char('.', 'A'), DOT);
    assert_eq!(rff::bonus::for_char('.', '0'), DOT);

    assert_eq!(rff::bonus::for_char('a', 'A'), CAPITAL);
}

#[test]
fn bonus_test_for_char() {
    check_for_char();
}

#[test]
fn scorer_test_for_char() {
    check_for_char();
}

fn check_compute_bonus() {
    assert_eq!(
        rff::scorer::compute_bonus("a/b/c/d"),
        vec![SLASH, 0, SLASH, 0, SLASH, 0, SLASH]
    );
    assert_eq!(
        rff::scorer::compute_bonus("aTestString"),
        vec![SLASH, CAPITAL, 0, 0, 0, CAPITAL, 0, 0, 0, 0, 0]
    );
}

#[test]
fn bonus_test_compute_bonus() {
    check_compute_bonus();
}

#[test]
fn scorer_test_compute_bonus() {
    check_compute_bonus();
}

#[test]
fn get() {
    let mat = Mat::new(1, 2);
    assert_eq!(mat.get(0, 1), Some(ScoreValue::Fin(0)));
    assert_eq!(mat.get(1, 1), None);
}

#[test]
fn set() {
    let mut mat = Mat::new(1, 1);
    mat.set(0, 0, ScoreValue::Fin(840));
    assert_eq!(mat.get(0, 0), Some(ScoreValue::Fin(840)));
}

#[test]
#[should_panic]
fn set_oob() {
    let mut mat = Mat::new(1, 1);
    mat.set(1, 1, ScoreValue::Fin(840));
}

#[test]
fn score_test_eq() {
    let a = Score { value: ScoreValue::Fin(200), positions: None };
    let b = Score { value: ScoreValue::Fin(200), positions: None };
    assert_eq!(a, b);
}

#[test]
fn test_cmp() {
    let a = Score { value: ScoreValue::Fin(400), positions: None };
    let b = Score { value: ScoreValue::Fin(200), positions: None };
    assert!(a > b);
    assert!(b < a);

    let b = Score { value: ScoreValue::Fin(400), positions: None };
    assert!(a == b);
}

#[test]
fn scorer_test_score_basic() {
    assert_eq!(score("", "asdf"), ScoreValue::MinusInf);
    assert_eq!(score("asdf", "asdf"), ScoreValue::PlusInf);

    let huge_string = "X".repeat(1025);
    assert_eq!(score("asdf", &huge_string), ScoreValue::MinusInf);
}

#[test]
fn sentinel_laws() {
    assert_eq!(score("", ""), ScoreValue::MinusInf);
    assert_eq!(score("", "x"), ScoreValue::MinusInf);
    assert_eq!(score("", "app/models/order"), ScoreValue::MinusInf);
    assert_eq!(score("x", "x"), ScoreValue::PlusInf);
    assert_eq!(score("app/models/order", "app/models/order"), ScoreValue::PlusInf);
}

#[test]
fn oversized_candidate_guard() {
    let huge = "y".repeat(1025);
    assert_eq!(score("zzz", &huge), ScoreValue::MinusInf);
    assert_eq!(score("yyy", &huge), ScoreValue::MinusInf);
    assert_eq!(score("", &huge), ScoreValue::MinusInf);
}

fn check_relative_scores(score: impl Fn(&str, &str) -> ScoreValue) {
    // App/Models/Order is better than App/MOdels/zRder
    assert!(score("amor", "app/models/order") > score("amor", "app/models/zrder"));

    // App/MOdels/foo is better than App/M/fOo
    assert!(score("amo", "app/m/foo") < score("amo", "app/models/foo"));

    // GEMFIle.Lock < GEMFILe
    assert!(score("gemfil", "Gemfile.lock") < score("gemfil", "Gemfile"));

    // Prefer shorter scorees
    assert!(score("abce", "abcdef") > score("abce", "abc de"));

    // Prefer shorter candidates
    assert!(score("test", "tests") > score("test", "testing"));

    // Scores first letter highly
    assert!(score("test", "testing") > score("test", "/testing"));

    // Prefer shorter scorees
    assert!(score("abc", "    a b c ") > score("abc", " a  b  c "));
    assert!(score("abc", " a b c    ") > score("abc", " a  b  c "));
}

#[test]
fn scorer_relative_scores() {
    check_relative_scores(score);
}

#[test]
fn score_relative_scores() {
    check_relative_scores(|n, h| Score::new(n, h).value);
}

#[test]
fn scorer_score_utf8() {
    // -0.02 in the classic weights, scaled by 200.
    assert_eq!(score("ß", "öäßéè"), ScoreValue::Fin(-4));
}

#[test]
fn score_score_utf8() {
    assert_eq!(Score::new("ß", "öäßéè").value, ScoreValue::Fin(-4));
}

fn check_positions(needle: &str, haystack: &str, expected: Vec<usize>) {
    let (_, positions) = rff::scorer::score_with_positions(needle, haystack);
    assert_eq!(positions, expected);
    let s = Score::with_positions(needle, haystack);
    assert_eq!(s.positions, Some(expected));
}

#[test]
fn scorer_positions() {
    check_positions("amo", "app/models/foo", vec![0, 4, 5]);
    check_positions("amor", "app/models/order", vec![0, 4, 11, 12]);
    check_positions("as", "tags", vec![1, 3]);
    check_positions("abc", "a/a/b/c/c", vec![2, 4, 6]);
    check_positions("foo", "foo", vec![0, 1, 2]);
    check_positions("drivers", "/path/to/drivers/file.txt", vec![9, 10, 11, 12, 13, 14, 15]);
}

#[test]
fn score_positions() {
    check_positions("amo", "app/models/foo", vec![0, 4, 5]);
    check_positions("amor", "app/models/order", vec![0, 4, 11, 12]);
    check_positions("as", "tags", vec![1, 3]);
    check_positions("abc", "a/a/b/c/c", vec![2, 4, 6]);
    check_positions("foo", "foo", vec![0, 1, 2]);
    check_positions("drivers", "/path/to/drivers/file.txt", vec![9, 10, 11, 12, 13, 14, 15]);
}

#[test]
fn path_boundary_bonus_exact_value() {
    // "b" after "a/": two leading gaps and the slash bonus give
    // -1 * 2 + 180, then one trailing gap over the final "c" leaves 177.
    assert_eq!(score("b", "a/bc"), ScoreValue::Fin(177));
}
