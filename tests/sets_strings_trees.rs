use kb::sortsearch::find_sum::{find_sum, VecSet};
use kb::string::balanced_bracket::{is_balanced, Brackets};
use kb::tree::traversal::dfs_in_order::{traverse_iterative, traverse_recursive};
use kb::tree::BinaryNode;

#[test]
fn test_find_sum() {
    let set: VecSet<i8> = VecSet::new(&[3, 7, 13]);
    assert!(find_sum(set.clone(), &10));
    assert!(!find_sum(set.clone(), &11));
}

#[test]
fn find_sum_pairs_an_element_with_itself_and_avoids_overflow() {
    let set: VecSet<i8> = VecSet::new(&[5, -100, 120]);
    assert!(find_sum(set.clone(), &10));
    assert!(find_sum(set.clone(), &20));
    assert!(!find_sum(set.clone(), &127));
    assert!(!find_sum(set, &-128));
}

#[test]
fn vecset_removes_consecutive_duplicates_and_sorts() {
    let mut set: VecSet<u32> = VecSet::new(&[4, 4, 1, 4, 2, 2]);
    assert_eq!(set.iter().copied().collect::<Vec<u32>>(), vec![4, 1, 4, 2]);
    set.sort();
    assert_eq!(set.iter().copied().collect::<Vec<u32>>(), vec![1, 2, 4, 4]);
    assert_eq!(set.search(&2), Some(1));
    assert_eq!(set.search(&3), None);
}

#[test]
fn brackets_examples() {
    let mut brackets = Brackets::from_bytes(b"{{[]}}[][]".to_vec()).unwrap();
    assert!(is_balanced(brackets));

    brackets = Brackets::from_bytes(b"{{[]".to_vec()).unwrap();
    assert!(!is_balanced(brackets));
}

#[test]
fn brackets_reject_other_bytes_and_mismatches() {
    assert_eq!(Brackets::from_bytes(b"(a)".to_vec()).err(), Some(b"(a)".to_vec()));
    assert!(is_balanced(Brackets::from_bytes(Vec::new()).unwrap()));
    assert!(!is_balanced(Brackets::from_bytes(b"(]".to_vec()).unwrap()));
    assert!(!is_balanced(Brackets::from_bytes(b"())(".to_vec()).unwrap()));
    assert!(!is_balanced(Brackets::from_bytes(b"((]".to_vec()).unwrap()));
    assert!(is_balanced(Brackets::from_bytes(b"([{}])()".to_vec()).unwrap()));
}

#[test]
fn test_traversal_iterative() {
    let one = BinaryNode { data: 1, left: None, right: None };
    let three = BinaryNode { data: 3, left: None, right: None };
    let two = BinaryNode { data: 2, left: Some(&one), right: Some(&three) };
    let five = BinaryNode { data: 5, left: None, right: None };
    let seven = BinaryNode { data: 7, left: None, right: None };
    let six = BinaryNode { data: 6, left: Some(&five), right: Some(&seven) };
    let four = BinaryNode { data: 4, left: Some(&two), right: Some(&six) };

    let mut traversed_nodes = Vec::with_capacity(7);
    for node in traverse_iterative(&four) {
        traversed_nodes.push(node.data);
    }
    assert_eq!(traversed_nodes, vec![1, 2, 3, 4, 5, 6, 7]);
}

#[test]
fn test_traversal_recursive() {
    let mut traversed_nodes = Vec::with_capacity(7);
    let one = BinaryNode { data: 1, left: None, right: None };

    let mut visited = Vec::new();
    traverse_recursive(Some(&one), &mut visited);
    for node in &visited {
        traversed_nodes.push(node.data);
    }
    assert_eq!(traversed_nodes, vec![1]);

    traversed_nodes.clear();
    let three = BinaryNode { data: 3, left: None, right: None };
    let two = BinaryNode { data: 2, left: Some(&one), right: Some(&three) };
    let five = BinaryNode { data: 5, left: None, right: None };
    let seven = BinaryNode { data: 7, left: None, right: None };
    let six = BinaryNode { data: 6, left: Some(&five), right: Some(&seven) };
    let four = BinaryNode { data: 4, left: Some(&two), right: Some(&six) };

    let mut visited = Vec::new();
    traverse_recursive(Some(&four), &mut visited);
    for node in &visited {
        traversed_nodes.push(node.data);
    }
    assert_eq!(traversed_nodes, vec![1, 2, 3, 4, 5, 6, 7]);
}

#[test]
fn traversal_of_a_left_leaning_chain() {
    let a = BinaryNode { data: 'a', left: None, right: None };
    let b = BinaryNode { data: 'b', left: Some(&a), right: None };
    let c = BinaryNode { data: 'c', left: Some(&b), right: None };
    let order: Vec<char> = traverse_iterative(&c).iter().map(|n| n.data).collect();
    assert_eq!(order, vec!['a', 'b', 'c']);
}
