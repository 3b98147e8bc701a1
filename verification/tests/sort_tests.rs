//! Concrete scenarios for both execution strategies: fixed inputs with
//! their expected sorted outputs, in natural, reverse, and caller-supplied
//! orders, over the full array and over sub-ranges.

use mergesort_cmp::order::EvenFirst;
use mergesort_cmp::{parallel, sequential};
use std::sync::Arc;

const SAMPLE: [i64; 9] = [-1, 5, 91293, 12, -95, 20000, 20001, -12, 7];

fn sample_arc() -> Arc<Vec<i64>> {
    Arc::new(SAMPLE.to_vec())
}

#[test]
fn sequential_sorts_sample_ascending() {
    let sorted = sequential::sort(&SAMPLE);
    assert_eq!(sorted, vec![-95, -12, -1, 5, 7, 12, 20000, 20001, 91293]);
}

#[test]
fn parallel_sorts_sample_ascending() {
    let sorted = parallel::sort(&sample_arc());
    assert_eq!(sorted, vec![-95, -12, -1, 5, 7, 12, 20000, 20001, 91293]);
}

#[test]
fn reverse_order_sorts_sample_descending() {
    let sorted = parallel::reverse_order().sort(&sample_arc());
    assert_eq!(sorted, vec![91293, 20001, 20000, 12, 7, 5, -1, -12, -95]);
}

#[test]
fn range_sorts_only_the_selected_slice() {
    let sorted = parallel::default_order().range(3..7).sort(&sample_arc());
    assert_eq!(sorted, vec![-95, 12, 20000, 20001]);
}

#[test]
fn sort_range_matches_configured_range() {
    let sorted = parallel::sort_range(&sample_arc(), 3..7);
    assert_eq!(sorted, vec![-95, 12, 20000, 20001]);
}

#[test]
fn custom_order_puts_even_numbers_first() {
    let sorted = parallel::custom_order(EvenFirst).sort(&sample_arc());
    assert_eq!(sorted, vec![-12, 12, 20000, -95, -1, 5, 7, 20001, 91293]);
}

#[test]
fn sort_range_by_puts_even_numbers_first_in_range() {
    let sorted = parallel::sort_range_by(&sample_arc(), 3..7, EvenFirst);
    assert_eq!(sorted, vec![12, 20000, -95, 20001]);
}

#[test]
fn empty_array_sorts_to_empty_output() {
    let empty: Arc<Vec<i64>> = Arc::new(Vec::new());
    assert_eq!(parallel::sort(&empty), Vec::<i64>::new());
    assert_eq!(parallel::sort_range(&empty, 0..0), Vec::<i64>::new());
    let no_elems: [i64; 0] = [];
    assert_eq!(sequential::sort(&no_elems), Vec::<i64>::new());
}

#[test]
fn single_element_output_equals_input() {
    let one = Arc::new(vec![41i64]);
    assert_eq!(parallel::sort(&one), vec![41]);
    assert_eq!(sequential::sort(&[41i64]), vec![41]);
}

#[test]
fn sequential_sort_by_reversed_comparator() {
    let sorted = sequential::sort_by(
        &SAMPLE,
        mergesort_cmp::order::Reversed(mergesort_cmp::order::DefaultOrder),
    );
    assert_eq!(sorted, vec![91293, 20001, 20000, 12, 7, 5, -1, -12, -95]);
}

#[test]
fn large_reversed_input_comes_back_ascending() {
    let count: i64 = 10000;
    let expected: Vec<i64> = (0..count).collect();
    let reversed: Vec<i64> = (0..count).rev().collect();

    assert_eq!(sequential::sort(&reversed), expected);
    assert_eq!(parallel::sort(&Arc::new(reversed)), expected);
}

#[test]
fn other_element_widths_sort_too() {
    let bytes: [u8; 5] = [200, 3, 255, 0, 3];
    assert_eq!(sequential::sort(&bytes), vec![0, 3, 3, 200, 255]);

    let sizes = Arc::new(vec![5usize, 1, 4, 1, 3]);
    assert_eq!(parallel::sort(&sizes), vec![1, 1, 3, 4, 5]);

    let signed: [i32; 4] = [7, -7, 0, -8];
    assert_eq!(sequential::sort(&signed), vec![-8, -7, 0, 7]);
}
