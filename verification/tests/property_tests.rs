//! The library's stated properties checked on concrete values: the output
//! is a permutation of the input range, adjacent output elements are in
//! comparator order, equivalent elements keep their input order, sorting a
//! sorted sequence changes nothing, a range sort equals a sort of the
//! extracted range, and the thread budget never changes the result.

use mergesort_cmp::order::{DefaultOrder, ParityOnly};
use mergesort_cmp::{parallel, sequential};
use std::collections::HashMap;
use std::sync::Arc;

const SAMPLE: [i64; 9] = [-1, 5, 91293, 12, -95, 20000, 20001, -12, 7];

fn counts(values: &[i64]) -> HashMap<i64, usize> {
    let mut map = HashMap::new();
    for v in values {
        *map.entry(*v).or_insert(0) += 1;
    }
    map
}

#[test]
fn output_is_a_permutation_of_the_input() {
    let input = vec![3i64, 1, 4, 1, 5, 9, 2, 6, 5, 3, 5, -3, 0, 0];
    let sorted = parallel::sort(&Arc::new(input.clone()));
    assert_eq!(counts(&input), counts(&sorted));
    assert_eq!(input.len(), sorted.len());

    let sorted_seq = sequential::sort(&input);
    assert_eq!(counts(&input), counts(&sorted_seq));
}

#[test]
fn adjacent_output_elements_are_in_order() {
    let input = vec![3i64, 1, 4, 1, 5, 9, 2, 6, 5, 3, 5, -3, 0, 0];
    let sorted = parallel::sort(&Arc::new(input));
    for pair in sorted.windows(2) {
        assert!(pair[0] <= pair[1]);
    }
}

#[test]
fn equivalent_elements_keep_their_input_order() {
    // ParityOnly cannot tell numbers of equal parity apart, so a stable
    // sort must keep each parity class in input order.
    let input = vec![9i64, 4, 7, 2, 5, 8, 1, 6, 3, 0];
    let sorted = parallel::custom_order(ParityOnly).sort(&Arc::new(input));
    assert_eq!(sorted, vec![4, 2, 8, 6, 0, 9, 7, 5, 1, 3]);

    let again = sequential::sort_by(&[9i64, 4, 7, 2, 5, 8, 1, 6, 3, 0], ParityOnly);
    assert_eq!(again, vec![4, 2, 8, 6, 0, 9, 7, 5, 1, 3]);
}

#[test]
fn sorting_a_sorted_sequence_changes_nothing() {
    let sorted_input = vec![-4i64, -1, 0, 0, 3, 3, 8, 120];
    assert_eq!(sequential::sort(&sorted_input), sorted_input);
    assert_eq!(parallel::sort(&Arc::new(sorted_input.clone())), sorted_input);

    let once = parallel::sort(&Arc::new(SAMPLE.to_vec()));
    let twice = parallel::sort(&Arc::new(once.clone()));
    assert_eq!(once, twice);
}

#[test]
fn range_sort_equals_sort_of_the_extracted_range() {
    let array = Arc::new(SAMPLE.to_vec());
    for start in 0..=SAMPLE.len() {
        for end in start..=SAMPLE.len() {
            let of_range = parallel::sort_range(&array, start..end);
            let extracted = parallel::sort(&Arc::new(SAMPLE[start..end].to_vec()));
            assert_eq!(of_range, extracted);
        }
    }
}

#[test]
fn thread_count_never_changes_the_result() {
    let array = Arc::new(vec![3i64, -9, 3, 700, -4, 22, 1, 1, 0, -55, 91, 18]);
    let reference = parallel::default_order().threads(1).sort(&array);
    for threads in [0usize, 2, 3, 4, 8, 64] {
        let sorted = parallel::default_order().threads(threads).sort(&array);
        assert_eq!(sorted, reference);
    }
    // A budget far beyond the array length changes nothing either.
    let wide = parallel::default_order().threads(1024).sort(&array);
    assert_eq!(wide, reference);
}

#[test]
fn cpu_count_defaults_still_sort_correctly() {
    let array = Arc::new(SAMPLE.to_vec());
    let expected = vec![-95, -12, -1, 5, 7, 12, 20000, 20001, 91293];

    let logical = parallel::default_order().thread_per_cpu().sort(&array);
    assert_eq!(logical, expected);

    let physical = parallel::default_order().thread_per_physical_cpu().sort(&array);
    assert_eq!(physical, expected);
}

#[test]
fn full_range_clears_a_configured_range() {
    let array = Arc::new(SAMPLE.to_vec());
    let sorted = parallel::default_order().range(3..7).full_range().sort(&array);
    assert_eq!(sorted, vec![-95, -12, -1, 5, 7, 12, 20000, 20001, 91293]);
}

#[test]
fn options_may_be_reused_for_several_runs() {
    let opts = parallel::default_order().threads(4);
    let a = Arc::new(vec![2i64, 1]);
    let b = Arc::new(vec![9i64, -9, 0]);
    assert_eq!(opts.sort(&a), vec![1, 2]);
    assert_eq!(opts.sort(&b), vec![-9, 0, 9]);

    let chained = parallel::default_order().range(0..2).threads(2).sort(&b);
    assert_eq!(chained, vec![-9, 9]);
}
