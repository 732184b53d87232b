use data_structures::binary_search;
use data_structures::binary_search_recursive;

#[test]
fn binary_search_test_binary_search() {
    let arr = [1, 2, 3, 4, 5, 6, 7, 8, 9];

    for i in 1..10 {
        assert_eq!(binary_search::binary_search(&arr, i), Some(i - 1));
    }
}

#[test]
fn binary_search_recursive_test_binary_search() {
    let arr = [1, 2, 3, 4, 5, 6, 7, 8, 9];

    for i in 1..10 {
        assert_eq!(
            binary_search_recursive::binary_search(&arr, &i, 0, arr.len() - 1),
            Some(i - 1)
        );
    }
}

#[test]
fn iterative_search_misses() {
    let arr = [2, 4, 6, 8];
    assert_eq!(binary_search::binary_search(&arr, 1), None);
    assert_eq!(binary_search::binary_search(&arr, 5), None);
    assert_eq!(binary_search::binary_search(&arr, 9), None);
    assert_eq!(binary_search::binary_search(&[], 3), None);
}

#[test]
fn recursive_search_misses() {
    let arr = [2, 4, 6, 8];
    assert_eq!(binary_search_recursive::binary_search(&arr, &1, 0, 3), None);
    assert_eq!(binary_search_recursive::binary_search(&arr, &7, 0, 3), None);
    assert_eq!(binary_search_recursive::binary_search(&arr, &8, 0, 2), None);
    assert_eq!(binary_search_recursive::binary_search(&arr, &6, 3, 2), None);
}
