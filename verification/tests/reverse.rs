use vecviews::{rev1, rev_copy};

#[test]
fn rev_copy_basic() {
    let v: Vec<i32> = vec![1, 2, 3];
    let r = rev_copy(&v);
    assert_eq!(r, vec![3, 2, 1]);
    assert_eq!(v, vec![1, 2, 3]);
}

#[test]
fn rev_copy_empty() {
    let v: Vec<u8> = vec![];
    let r = rev_copy(&v);
    assert!(r.is_empty());
}

#[test]
fn rev_copy_involution() {
    let v: Vec<i32> = vec![7, -2, 0, 9, 9, 4];
    let once = rev_copy(&v);
    let twice = rev_copy(&once);
    assert_eq!(twice, v);
    assert_eq!(v, vec![7, -2, 0, 9, 9, 4]);
}

#[test]
fn rev1_drains_and_reverses() {
    let mut v: Vec<String> = vec!["a".to_string(), "b".to_string(), "c".to_string()];
    let r = rev1(&mut v);
    assert!(v.is_empty());
    assert_eq!(r, vec!["c".to_string(), "b".to_string(), "a".to_string()]);
}

#[test]
fn rev1_empty() {
    let mut v: Vec<String> = vec![];
    let r = rev1(&mut v);
    assert!(v.is_empty());
    assert!(r.is_empty());
}
