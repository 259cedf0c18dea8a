use edge_proxy::{offset_index, BackendSelector};

fn three() -> BackendSelector {
    BackendSelector::new(vec!["a".to_string(), "b".to_string(), "c".to_string()])
}

#[test]
fn four_fresh_picks_wrap_round() {
    let mut sel = three();
    let picks: Vec<(usize, String)> = (0..4).map(|_| sel.next()).collect();
    let indices: Vec<usize> = picks.iter().map(|p| p.0).collect();
    assert_eq!(indices, vec![0, 1, 2, 0]);
    let names: Vec<&str> = picks.iter().map(|p| p.1.as_str()).collect();
    assert_eq!(names, vec!["a", "b", "c", "a"]);
}

#[test]
fn picks_are_fair() {
    let mut sel = three();
    let mut counts = [0usize; 3];
    for _ in 0..7 {
        counts[sel.next().0] += 1;
    }
    assert_eq!(counts, [3, 2, 2]);
}

#[test]
fn by_index_wraps_and_keeps_rotation() {
    let mut sel = three();
    assert_eq!(sel.by_index(4), "b");
    assert_eq!(sel.by_index(2), "c");
    assert_eq!(sel.next().0, 0);
    assert_eq!(sel.len(), 3);
}

#[test]
fn offset_index_wraps() {
    assert_eq!(offset_index(1, 1, 3), 2);
    assert_eq!(offset_index(1, 2, 3), 0);
    assert_eq!(offset_index(2, 2, 3), 1);
    assert_eq!(offset_index(usize::MAX - 1, usize::MAX - 1, usize::MAX), usize::MAX - 2);
}
