use zombs_engine::engine::hierarchy::{descendant_closure, subtree_despawn_order};

#[test]
fn closure_collects_descendants() {
    // 1 -> 2 -> 3, 1 -> 4, 5 -> 6 (unrelated); links are (child, parent)
    let links: Vec<(u64, u64)> = vec![(3, 2), (2, 1), (4, 1), (6, 5)];
    let mut hidden = descendant_closure(&vec![1], &links);
    hidden.sort();
    assert_eq!(hidden, vec![1, 2, 3, 4]);
}

#[test]
fn closure_dedups_seeds_and_survives_cycles() {
    let links: Vec<(u64, u64)> = vec![(2, 1), (1, 2)];
    let mut out = descendant_closure(&vec![1, 1], &links);
    out.sort();
    assert_eq!(out, vec![1, 2]);
    let empty = descendant_closure(&vec![], &links);
    assert!(empty.is_empty());
}

#[test]
fn despawn_order_children_first() {
    let links: Vec<(u64, u64)> = vec![(3, 2), (2, 1), (4, 1)];
    let order = subtree_despawn_order(1, &links);
    assert_eq!(*order.last().unwrap(), 1);
    assert_eq!(order.len(), 4);
    let pos = |x: u64| order.iter().position(|&y| y == x).unwrap();
    assert!(pos(3) < pos(2));
    assert!(pos(2) < pos(1));
    assert!(pos(4) < pos(1));
    let lone = subtree_despawn_order(9, &links);
    assert_eq!(lone, vec![9]);
}
