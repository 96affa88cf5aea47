use lib::sets::{compute_intersection, compute_union};

fn strings(items: &[&str]) -> Vec<String> {
    items.iter().map(|s| s.to_string()).collect()
}

#[test]
fn intersection_keeps_order_of_first() {
    let a = strings(&["x", "y", "z", "y"]);
    let b = strings(&["y", "x", "w"]);
    let r: Vec<String> = compute_intersection(&a, &b).into_iter().cloned().collect();
    assert_eq!(r, strings(&["x", "y", "y"]));
    assert!(compute_intersection(&a, &[]).is_empty());
    assert!(compute_intersection(&[], &b).is_empty());
}

#[test]
fn union_appends_missing_names() {
    let a = strings(&["x", "y"]);
    let b = strings(&["y", "z", "z", "x", "w"]);
    assert_eq!(compute_union(&a, &b), strings(&["x", "y", "z", "z", "w"]));
    assert_eq!(compute_union(&[], &b), b);
    assert_eq!(compute_union(&a, &[]), a);
}

#[test]
fn union_of_distinct_sets_is_distinct() {
    let a = strings(&["x", "y"]);
    let b = strings(&["z", "y", "w"]);
    let u = compute_union(&a, &b);
    assert_eq!(u, strings(&["x", "y", "z", "w"]));
    for i in 0..u.len() {
        for j in 0..u.len() {
            assert_eq!(i == j, u[i] == u[j]);
        }
    }
}
