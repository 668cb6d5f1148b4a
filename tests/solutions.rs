use dataframe::solutions::{eraser_1d, queue_sort, quingshan};

#[test]
fn test2() {
    assert_eq!(eraser_1d("WWBWBWW", 3), 1);
}

#[test]
fn test3() {
    assert_eq!(eraser_1d("BWBWB", 4), 2);
}

#[test]
fn test4() {
    assert_eq!(eraser_1d("BBBBB", 5), 1);
}

#[test]
fn test5() {
    assert_eq!(eraser_1d("BWBWBBBB", 2), 4);
}

#[test]
fn queue_sort_finds_rotation_point() {
    assert_eq!(queue_sort(vec![3, 1, 2]), Some(1));
    assert_eq!(queue_sort(vec![3, 1, 0]), Some(2));
    assert_eq!(queue_sort(vec![2, 1, 3, 2]), None);
}

#[test]
fn quingshan_cases() {
    assert!(quingshan("a", "b"));
    assert!(!quingshan("aab", "aa"));
    assert!(quingshan("abb", "a"));
    assert!(!quingshan("abb", "b"));
}
