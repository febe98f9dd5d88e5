use blobrepo::ids::ChangesetId;
use blobrepo::topo_sort::{sort_topological, ParentGraph};

fn id(n: u8) -> ChangesetId {
    ChangesetId::new([n; 32])
}

fn position(order: &[ChangesetId], x: ChangesetId) -> usize {
    order.iter().position(|y| *y == x).unwrap()
}

#[test]
fn sorts_a_chain_parents_first() {
    let g = ParentGraph::new()
        .insert(id(3), vec![id(2)])
        .insert(id(2), vec![id(1)])
        .insert(id(1), vec![]);
    let order = sort_topological(&g).unwrap();
    assert_eq!(order, vec![id(1), id(2), id(3)]);
}

#[test]
fn sorts_a_merge_after_both_parents() {
    let g = ParentGraph::new()
        .insert(id(4), vec![id(2), id(3)])
        .insert(id(2), vec![id(1)])
        .insert(id(3), vec![id(1)]);
    let order = sort_topological(&g).unwrap();
    assert_eq!(order.len(), 4);
    assert!(position(&order, id(1)) < position(&order, id(2)));
    assert!(position(&order, id(1)) < position(&order, id(3)));
    assert!(position(&order, id(2)) < position(&order, id(4)));
    assert!(position(&order, id(3)) < position(&order, id(4)));
}

#[test]
fn reports_a_cycle() {
    let g = ParentGraph::new()
        .insert(id(1), vec![id(2)])
        .insert(id(2), vec![id(3)])
        .insert(id(3), vec![id(1)]);
    assert_eq!(sort_topological(&g), None);
}

#[test]
fn reports_a_self_loop() {
    let g = ParentGraph::new().insert(id(1), vec![id(1)]);
    assert_eq!(sort_topological(&g), None);
}

#[test]
fn empty_graph_has_empty_order() {
    let g = ParentGraph::new();
    assert_eq!(sort_topological(&g), Some(vec![]));
}

#[test]
fn later_insert_replaces_parents() {
    let g = ParentGraph::new()
        .insert(id(1), vec![id(2)])
        .insert(id(2), vec![id(1)])
        .insert(id(2), vec![]);
    assert_eq!(sort_topological(&g), Some(vec![id(2), id(1)]));
    assert_eq!(g.len(), 2);
    assert_eq!(g.get(id(2)), Some(&vec![]));
    assert!(!g.contains(id(3)));
}
