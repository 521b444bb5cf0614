use vecviews::{count_occurrences, count_up_to, intersection, union};

fn strings(words: &[&str]) -> Vec<String> {
    let mut v: Vec<String> = Vec::new();
    for w in words {
        v.push((*w).to_owned());
    }
    v
}

fn values(refs: &Vec<&String>) -> Vec<String> {
    let mut v: Vec<String> = Vec::new();
    for r in refs {
        v.push((*r).clone());
    }
    v
}

#[test]
fn count_occurrences_basic() {
    let v: Vec<i32> = vec![2, 7, 2, 2, 5];
    assert_eq!(count_occurrences(&v, &2), 3);
    assert_eq!(count_occurrences(&v, &5), 1);
    assert_eq!(count_occurrences(&v, &9), 0);
}

#[test]
fn count_up_to_prefix_only() {
    let v: Vec<i32> = vec![2, 7, 2, 2, 5];
    assert_eq!(count_up_to(&v, 0, &2), 0);
    assert_eq!(count_up_to(&v, 3, &2), 2);
    assert_eq!(count_up_to(&v, 5, &2), 3);
}

#[test]
fn intersection_basic() {
    let v1: Vec<i32> = vec![1, 2, 3];
    let v2: Vec<i32> = vec![2, 3, 4];
    let r = intersection(&v1, &v2);
    let got: Vec<i32> = r.iter().map(|x| **x).collect();
    assert_eq!(got, vec![2, 3]);
    for x in &r {
        let mut found = false;
        for e in &v1 {
            if std::ptr::eq(*x, e) {
                found = true;
            }
        }
        assert!(found);
    }
}

#[test]
fn intersection_keeps_v1_duplicates() {
    let v1: Vec<i32> = vec![2, 1, 2];
    let v2: Vec<i32> = vec![2, 2, 7];
    let r = intersection(&v1, &v2);
    let got: Vec<i32> = r.iter().map(|x| **x).collect();
    assert_eq!(got, vec![2, 2]);
}

#[test]
fn intersection_disjoint_is_empty() {
    let v1: Vec<i32> = vec![1, 2, 3];
    let v2: Vec<i32> = vec![4, 5, 6];
    let r = intersection(&v1, &v2);
    assert!(r.is_empty());
}

#[test]
fn union_required_output() {
    let v1 = strings(&["ab", "cd", "ab", "xz"]);
    let v2 = strings(&["ef", "ab", "cd", "gh"]);
    let r = union(&v1, &v2);
    assert_eq!(values(&r), strings(&["ab", "cd", "xz", "ef", "gh"]));
}

#[test]
fn union_of_disjoint_concatenates_dedups() {
    let v1 = strings(&["a", "b", "a"]);
    let v2 = strings(&["c", "d", "c"]);
    let r = union(&v1, &v2);
    assert_eq!(values(&r), strings(&["a", "b", "c", "d"]));
}

#[test]
fn union_with_empty_sides() {
    let v1: Vec<i32> = vec![];
    let v2: Vec<i32> = vec![3, 3, 1];
    let r = union(&v1, &v2);
    let got: Vec<i32> = r.iter().map(|x| **x).collect();
    assert_eq!(got, vec![3, 1]);
    let r2 = union(&v2, &v1);
    let got2: Vec<i32> = r2.iter().map(|x| **x).collect();
    assert_eq!(got2, vec![3, 1]);
}

#[test]
fn union_on_str_slices() {
    let v1: Vec<&str> = vec!["ab", "cd", "ab", "xz"];
    let v2: Vec<&str> = vec!["ef", "ab", "cd", "gh"];
    let r = union(&v1, &v2);
    let got: Vec<&str> = r.iter().map(|x| **x).collect();
    assert_eq!(got, vec!["ab", "cd", "xz", "ef", "gh"]);
}
