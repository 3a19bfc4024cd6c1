use guard_patrol::antennas::{greatest_common_divisor, is_within_map_bounds, Size};
use guard_patrol::equations::{
    calculate_equation, concatenate_numbers, is_valid_equation, Equation, Operator,
};
use guard_patrol::geometry::Position;
use guard_patrol::letters::{
    advance_cursor, get_newline_step, get_step, get_wrapping_step, Direction, LetterMatrix,
};
use guard_patrol::page_order::{day5_1, get_correct_pair_order, is_page_list_correctly_ordered};
use std::cmp::Ordering;

fn matrix() -> LetterMatrix {
    LetterMatrix { letters: b"ab\ncd\n".to_vec(), width: 2 }
}

#[test]
fn walks_start_at_first_letter() {
    let m = matrix();
    let walks = [m.rows(), m.columns(), m.diagonals(), m.anti_diagonals()];
    let directions = [Direction::Horizontal, Direction::Vertical, Direction::Diagonal, Direction::AntiDiagonal];
    for (walk, direction) in walks.iter().zip(directions) {
        assert_eq!(walk.direction, direction);
        assert_eq!(walk.cursor, 0);
        assert!(!walk.did_wrap);
    }
}

#[test]
fn step_sizes() {
    let m = matrix();
    assert_eq!(get_step(&m, &Direction::Horizontal), 1);
    assert_eq!(get_step(&m, &Direction::Vertical), 3);
    assert_eq!(get_step(&m, &Direction::Diagonal), 4);
    assert_eq!(get_step(&m, &Direction::AntiDiagonal), 2);
    assert_eq!(get_wrapping_step(&Direction::Vertical), 1);
    assert_eq!(get_wrapping_step(&Direction::Diagonal), 0);
    assert_eq!(get_newline_step(&m, &Direction::Horizontal), 1);
    assert_eq!(get_newline_step(&m, &Direction::Vertical), 4);
    assert_eq!(get_newline_step(&m, &Direction::Diagonal), 1);
    assert_eq!(get_newline_step(&m, &Direction::AntiDiagonal), 5);
}

#[test]
fn cursor_advances_and_wraps() {
    let m = matrix();
    assert_eq!(advance_cursor(&m, 0, &Direction::Horizontal), (1, false));
    assert_eq!(advance_cursor(&m, 1, &Direction::Horizontal), (3, true));
    assert_eq!(advance_cursor(&m, 0, &Direction::Vertical), (3, false));
    assert_eq!(advance_cursor(&m, 3, &Direction::Vertical), (1, true));
    assert_eq!(advance_cursor(&m, 0, &Direction::Diagonal), (4, false));
    assert_eq!(advance_cursor(&m, 4, &Direction::Diagonal), (3, true));
    assert_eq!(advance_cursor(&m, 1, &Direction::AntiDiagonal), (3, false));
    assert_eq!(advance_cursor(&m, 0, &Direction::AntiDiagonal), (1, true));
}

fn rules() -> Vec<Vec<u8>> {
    let mut rules: Vec<Vec<u8>> = vec![Vec::new(); 100];
    rules[1] = vec![2, 3];
    rules[2] = vec![3];
    rules
}

#[test]
fn pair_order_follows_rules() {
    let r = rules();
    assert_eq!(get_correct_pair_order(&r, 1, 2), Ordering::Less);
    assert_eq!(get_correct_pair_order(&r, 3, 2), Ordering::Greater);
    assert_eq!(get_correct_pair_order(&r, 1, 4), Ordering::Equal);
}

#[test]
fn page_lists_in_order() {
    let r = rules();
    assert!(is_page_list_correctly_ordered(&vec![1, 2, 3], &r));
    assert!(!is_page_list_correctly_ordered(&vec![2, 1, 3], &r));
    assert!(!is_page_list_correctly_ordered(&vec![1, 4], &r));
    assert!(is_page_list_correctly_ordered(&vec![5], &r));
    assert!(is_page_list_correctly_ordered(&Vec::new(), &r));
}

#[test]
fn middle_pages_of_ordered_lists() {
    let r = rules();
    assert_eq!(day5_1(&r, &vec![vec![1, 2, 3], vec![2, 1, 3], vec![1, 3, 2], vec![2, 3]]), 2 + 3);
    assert_eq!(day5_1(&r, &Vec::new()), 0);
}

#[test]
fn concatenation_of_numbers() {
    assert_eq!(concatenate_numbers(12, 345), 12345);
    assert_eq!(concatenate_numbers(5, 0), 5);
    assert_eq!(concatenate_numbers(0, 7), 7);
    assert_eq!(concatenate_numbers(10, 10), 1010);
}

#[test]
fn equations_evaluate_left_to_right() {
    let values = vec![81, 40, 27];
    let ops = vec![Operator::Add, Operator::Multiply];
    let eq = Equation::new(&values, &ops, 3267);
    assert_eq!(calculate_equation(&eq), 3267);
    assert!(is_valid_equation(&eq));
    let ops = vec![Operator::Multiply, Operator::Add];
    let eq = Equation::new(&values, &ops, 3267);
    assert!(is_valid_equation(&eq));
    let values = vec![15, 6];
    let ops = vec![Operator::Concatenate];
    let eq = Equation::new(&values, &ops, 156);
    assert_eq!(calculate_equation(&eq), 156);
    let ops = vec![Operator::Add];
    let eq = Equation::new(&values, &ops, 156);
    assert!(!is_valid_equation(&eq));
    let single = vec![7];
    let none: Vec<Operator> = Vec::new();
    assert_eq!(calculate_equation(&Equation::new(&single, &none, 7)), 7);
}

#[test]
fn gcd_values() {
    assert_eq!(greatest_common_divisor(12, -18), 6);
    assert_eq!(greatest_common_divisor(-4, -6), 2);
    assert_eq!(greatest_common_divisor(0, 5), 5);
    assert_eq!(greatest_common_divisor(7, 0), 7);
    assert_eq!(greatest_common_divisor(0, 0), 0);
    assert_eq!(greatest_common_divisor(3, 3), 3);
}

#[test]
fn bounds_check() {
    let size = Size { width: 3, height: 2 };
    assert!(is_within_map_bounds(&Position { x: 2, y: 1 }, &size));
    assert!(!is_within_map_bounds(&Position { x: 3, y: 0 }, &size));
    assert!(!is_within_map_bounds(&Position { x: 0, y: 2 }, &size));
}

#[test]
fn row_walk_yields_letters_and_line_ends() {
    let m = matrix();
    let mut walk = m.rows();
    let mut seen = Vec::new();
    while let Some(item) = walk.next() {
        seen.push(item);
    }
    assert_eq!(seen, vec![(0, b'a'), (1, b'b'), (0, b'\n'), (3, b'c'), (4, b'd')]);
    assert_eq!(walk.next(), None);
}
