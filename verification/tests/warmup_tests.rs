use deet::warmup::{add_n, add_n_inplace, dedup};

#[test]
fn test_add_n() {
    assert_eq!(add_n(vec![1], 2), vec![3]);
}

#[test]
fn test_add_n_inplace() {
    let mut v = vec![1];
    add_n_inplace(&mut v, 2);
    assert_eq!(v, vec![3]);
}

#[test]
fn test_dedup() {
    let mut v = vec![3, 1, 0, 1, 4, 4];
    dedup(&mut v);
    assert_eq!(v, vec![3, 1, 0, 4]);
}

#[test]
fn test_add_n_many() {
    assert_eq!(add_n(vec![0, -5, 7], 10), vec![10, 5, 17]);
    assert_eq!(add_n(vec![], 1), vec![]);
}

#[test]
fn test_dedup_empty_and_all_same() {
    let mut v: Vec<i32> = vec![];
    dedup(&mut v);
    assert_eq!(v, Vec::<i32>::new());

    let mut v = vec![2, 2, 2, 2];
    dedup(&mut v);
    assert_eq!(v, vec![2]);
}

#[test]
fn test_dedup_keeps_first_occurrence_order() {
    let mut v = vec![5, -1, 5, 3, -1, 5, 9];
    dedup(&mut v);
    assert_eq!(v, vec![5, -1, 3, 9]);
}
