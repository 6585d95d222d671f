use deet::diff::{diff_lines, DiffLine};
use deet::grid::{lcs, Grid};

#[test]
fn test_lcs() {
    let mut expected = Grid::new(5, 4);
    expected.set(1, 1, 1).unwrap();
    expected.set(1, 2, 1).unwrap();
    expected.set(1, 3, 1).unwrap();
    expected.set(2, 1, 1).unwrap();
    expected.set(2, 2, 1).unwrap();
    expected.set(2, 3, 2).unwrap();
    expected.set(3, 1, 1).unwrap();
    expected.set(3, 2, 1).unwrap();
    expected.set(3, 3, 2).unwrap();
    expected.set(4, 1, 1).unwrap();
    expected.set(4, 2, 2).unwrap();
    expected.set(4, 3, 2).unwrap();

    println!("Expected:");
    expected.display();
    let result = lcs(
        &"abcd".chars().map(|c| c.to_string()).collect(),
        &"adb".chars().map(|c| c.to_string()).collect(),
    );
    println!("Got:");
    result.display();
    assert_eq!(result.size(), expected.size());
    for row in 0..expected.size().0 {
        for col in 0..expected.size().1 {
            assert_eq!(result.get(row, col), expected.get(row, col));
        }
    }
}

#[test]
fn test_grid_bounds() {
    let mut g = Grid::new(2, 3);
    assert_eq!(g.size(), (2, 3));
    assert_eq!(g.get(0, 0), Some(0));
    assert_eq!(g.get(1, 2), Some(0));
    assert_eq!(g.get(2, 0), None);
    assert_eq!(g.get(0, 3), None);
    assert!(g.set(1, 1, 42).is_some());
    assert_eq!(g.get(1, 1), Some(42));
    assert_eq!(g.get(1, 0), Some(0));
    assert!(g.set(2, 0, 7).is_none());
}

#[test]
fn test_lcs_identical_lines() {
    let lines: Vec<String> = vec!["x".to_string(), "y".to_string()];
    let g = lcs(&lines, &lines);
    assert_eq!(g.get(2, 2), Some(2));
    assert_eq!(g.get(1, 1), Some(1));
    assert_eq!(g.get(0, 0), Some(0));
}

#[test]
fn test_diff_lines_simple() {
    let lines1: Vec<String> = vec!["a".to_string(), "b".to_string()];
    let lines2: Vec<String> = vec!["a".to_string(), "c".to_string()];
    let table = lcs(&lines1, &lines2);
    let d = diff_lines(&table, &lines1, &lines2, 2, 2);
    // Blank first, then the common line, then one line of each file.
    assert_eq!(d.len(), 4);
    assert!(matches!(d[0], DiffLine::Blank));
    match &d[1] {
        DiffLine::Keep(s) => assert_eq!(s, "a"),
        _ => panic!("expected the common line to be kept"),
    }
    let mut added = 0;
    let mut removed = 0;
    for entry in &d[2..] {
        match entry {
            DiffLine::Add(s) => {
                assert_eq!(s, "c");
                added += 1;
            }
            DiffLine::Remove(s) => {
                assert_eq!(s, "b");
                removed += 1;
            }
            _ => panic!("unexpected diff entry"),
        }
    }
    assert_eq!((added, removed), (1, 1));
}
