use kb::sort::insertion::{clrs, clrs_bsearch, clrs_nonincreasing, shepmaster};
use kb::sort::merge::{clrs_merge, clrs_merge_sort, krw_merge_sort};
use kb::sort::selection::selection;

#[test]
fn test_clrs() {
    let mut arr = [5, 2, 4, 6, 1, 3];
    clrs(&mut arr);
    assert_eq!(arr, [1, 2, 3, 4, 5, 6]);

    let mut empty = [0; 0];
    clrs(&mut empty);
    assert_eq!(empty, []);

    let mut single = [1];
    clrs(&mut single);
    assert_eq!(single, [1]);
}

#[test]
fn test_clrs_bsearch() {
    let mut arr = [5, 2, 4, 6, 1, 3];
    clrs_bsearch(&mut arr);
    assert_eq!(arr, [1, 2, 3, 4, 5, 6]);

    let mut empty = [0; 0];
    clrs_bsearch(&mut empty);
    assert_eq!(empty, []);

    let mut single = [1];
    clrs_bsearch(&mut single);
    assert_eq!(single, [1]);
}

#[test]
fn test_shepmaster() {
    let mut arr = [5, 2, 4, 6, 1, 3];
    shepmaster(&mut arr);
    assert_eq!(arr, [1, 2, 3, 4, 5, 6]);

    let mut empty = [0; 0];
    shepmaster(&mut empty);
    assert_eq!(empty, []);

    let mut single = [1];
    shepmaster(&mut single);
    assert_eq!(single, [1]);
}

#[test]
fn test_clrs_nonincreasing() {
    let mut arr = [31, 41, 59, 26, 41, 58];
    clrs_nonincreasing(&mut arr);
    assert_eq!(arr, [59, 58, 41, 41, 31, 26]);
}

#[test]
fn test_clrs_merge_sort() {
    let mut values: [f64; 0] = [];
    clrs_merge_sort(&mut values, 0, 0);
    assert_eq!(values, []);

    let mut values = [1.0];
    clrs_merge_sort(&mut values, 0, 1);
    assert_eq!(values, [1.0]);

    let mut values = [31.0, 41.0, 59.0, 26.0, 41.0, 58.0];
    let len = values.len();
    clrs_merge_sort(&mut values, 0, len);
    assert_eq!(values, [26.0, 31.0, 41.0, 41.0, 58.0, 59.0]);

    let mut values = [5.0, 2.0, 4.0, 6.0, 1.0, 3.0];
    let len = values.len();
    clrs_merge_sort(&mut values, 0, len);
    assert_eq!(values, [1.0, 2.0, 3.0, 4.0, 5.0, 6.0]);

    let mut values = [2.0, 4.0, 5.0, 7.0, 1.0, 2.0, 3.0, 6.0];
    clrs_merge(&mut values, 0, 4, 8);
    assert_eq!(values, [1.0, 2.0, 2.0, 3.0, 4.0, 5.0, 6.0, 7.0]);
}

#[test]
fn test_krw_merge_sort() {
    let mut values = [0u8; 0];
    krw_merge_sort(&mut values);
    assert_eq!(values, []);

    let mut values = [1.0];
    krw_merge_sort(&mut values);
    assert_eq!(values, [1.0]);

    let mut values = [31.0, 41.0, 59.0, 26.0, 41.0, 58.0];
    krw_merge_sort(&mut values);
    assert_eq!(values, [26.0, 31.0, 41.0, 41.0, 58.0, 59.0]);

    let mut values = [5.0, 2.0, 4.0, 6.0, 1.0, 3.0];
    krw_merge_sort(&mut values);
    assert_eq!(values, [1.0, 2.0, 3.0, 4.0, 5.0, 6.0]);

    let mut values = [5.0, 2.0, 4.0, 4.0, 3.0];
    krw_merge_sort(&mut values);
    assert_eq!(values, [2.0, 3.0, 4.0, 4.0, 5.0]);

    let mut values = [2.0, 4.0, 5.0, 7.0, 1.0, 2.0, 3.0, 6.0];
    krw_merge_sort(&mut values);
    assert_eq!(values, [1.0, 2.0, 2.0, 3.0, 4.0, 5.0, 6.0, 7.0]);
}

#[test]
fn test_selection() {
    let mut values = [5, 2, 4, 6, 1, 3];
    selection(&mut values);
    assert_eq!(values, [1, 2, 3, 4, 5, 6]);
}

#[test]
fn selection_accepts_empty_and_single() {
    let mut empty = [0u32; 0];
    selection(&mut empty);
    assert_eq!(empty, []);

    let mut single = [7u32];
    selection(&mut single);
    assert_eq!(single, [7]);
}

#[test]
fn merge_sort_on_a_range_sorts_only_that_range() {
    let mut values = [9, 5, 2, 4, 6, 1, 3, 0];
    clrs_merge_sort(&mut values, 1, 7);
    assert_eq!(values, [9, 1, 2, 3, 4, 5, 6, 0]);
}

#[test]
fn merge_sort_scenario_from_whole_range() {
    let mut values = [5, 2, 4, 6, 1, 3];
    clrs_merge_sort(&mut values, 0, 6);
    assert_eq!(values, [1, 2, 3, 4, 5, 6]);
}

#[test]
fn sorts_keep_every_element_with_duplicates() {
    let input = [3i64, -1, 3, 0, -1, 7, 3];
    let expected = [-1i64, -1, 0, 3, 3, 3, 7];

    let mut a = input;
    clrs(&mut a);
    assert_eq!(a, expected);

    let mut b = input;
    clrs_bsearch(&mut b);
    assert_eq!(b, expected);

    let mut c = input;
    shepmaster(&mut c);
    assert_eq!(c, expected);

    let mut d = input;
    selection(&mut d);
    assert_eq!(d, expected);

    let mut e = input;
    krw_merge_sort(&mut e);
    assert_eq!(e, expected);

    let mut f = input;
    let len = f.len();
    clrs_merge_sort(&mut f, 0, len);
    assert_eq!(f, expected);

    let mut g = input;
    clrs_nonincreasing(&mut g);
    assert_eq!(g, [7i64, 3, 3, 3, 0, -1, -1]);
}

#[test]
fn sorting_a_sorted_slice_leaves_it_unchanged() {
    let sorted = [1u8, 2, 2, 5, 9, 200];

    let mut a = sorted;
    clrs(&mut a);
    assert_eq!(a, sorted);

    let mut b = sorted;
    clrs_bsearch(&mut b);
    assert_eq!(b, sorted);

    let mut c = sorted;
    shepmaster(&mut c);
    assert_eq!(c, sorted);

    let mut d = sorted;
    selection(&mut d);
    assert_eq!(d, sorted);

    let mut e = sorted;
    krw_merge_sort(&mut e);
    assert_eq!(e, sorted);

    let mut f = sorted;
    clrs_merge_sort(&mut f, 0, 6);
    assert_eq!(f, sorted);

    let desc = [9u8, 7, 7, 1];
    let mut g = desc;
    clrs_nonincreasing(&mut g);
    assert_eq!(g, desc);
}

#[test]
fn sorts_handle_extreme_values() {
    let mut values = [u64::MAX, 0, u64::MAX, 1];
    krw_merge_sort(&mut values);
    assert_eq!(values, [0, 1, u64::MAX, u64::MAX]);

    let mut values = [i32::MIN, i32::MAX, 0];
    clrs_merge_sort(&mut values, 0, 3);
    assert_eq!(values, [i32::MIN, 0, i32::MAX]);
}

#[test]
fn sorts_work_on_non_numeric_elements() {
    let mut words = ["pear", "apple", "fig"];
    shepmaster(&mut words);
    assert_eq!(words, ["apple", "fig", "pear"]);

    let mut letters = ['d', 'a', 'c', 'b'];
    clrs_bsearch(&mut letters);
    assert_eq!(letters, ['a', 'b', 'c', 'd']);
}
