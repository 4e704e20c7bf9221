use kb::search::binary::{search, search_closest};
use kb::search::linear::linear;

#[test]
fn test_search() {
    assert_eq!(search(&[], &3), None);
    assert_eq!(search(&[1, 2, 3], &3), Some(2));
    assert_eq!(search(&[1, 2, 3], &4), None);
}

#[test]
fn test_search_closest() {
    assert_eq!(search_closest(&[], &3), None);
    assert_eq!(search_closest(&[1, 2, 3], &3), Some(2));
    assert_eq!(search_closest(&[1, 2, 3], &4), None);
    assert_eq!(search_closest(&[1, 3, 4], &2), Some(1));
    assert_eq!(search_closest(&[1, 2, 4], &3), Some(2));
}

#[test]
fn test_linear() {
    assert_eq!(linear(&11, &[]), None);
    assert_eq!(linear(&22, &[11, 22, 33]), Some(1));
    assert_eq!(linear(&44, &[11, 22, 33]), None);
}

#[test]
fn search_finds_a_matching_index_among_duplicates() {
    let values = [1, 2, 2, 2, 3];
    let i = search(&values, &2).unwrap();
    assert_eq!(values[i], 2);
    assert_eq!(search(&values, &0), None);
}

#[test]
fn search_closest_below_all_elements_is_first_index() {
    assert_eq!(search_closest(&[10, 20, 30], &5), Some(0));
    assert_eq!(search_closest(&[10, 20, 30], &25), Some(2));
    assert_eq!(search_closest(&[10, 20, 30], &31), None);
}

#[test]
fn linear_returns_first_match() {
    assert_eq!(linear(&7, &[1, 7, 7, 7]), Some(1));
}
