use blobrepo::bonsai::{BonsaiChangeset, DateTime};
use blobrepo::ids::ChangesetId;
use blobrepo::mapping::bookmark_chunks;
use blobrepo::path::MPath;
use blobrepo::save::try_save_bonsai_changesets;
use blobrepo::topo_sort::{sort_topological, ParentGraph};
use std::collections::{HashMap, HashSet};

/// A small generator of numbers that look random.
struct Numbers(u64);

impl Numbers {
    fn next(&mut self, below: u64) -> u64 {
        self.0 = self.0.wrapping_mul(6364136223846793005).wrapping_add(1442695040888963407);
        (self.0 >> 33) % below
    }
}

fn cs(n: u64) -> ChangesetId {
    let mut bytes = [0u8; 32];
    bytes[..8].copy_from_slice(&n.to_be_bytes());
    ChangesetId::new(bytes)
}

fn changeset(id: u64, parents: &[u64]) -> BonsaiChangeset {
    BonsaiChangeset {
        id: cs(id),
        parents: parents.iter().map(|p| cs(*p)).collect(),
        file_changes: vec![],
        author: String::new(),
        author_date: DateTime { timestamp_secs: 0, tz_offset_secs: 0 },
        message: String::new(),
        extra: vec![],
    }
}

/// Whether the graph has a cycle, found by walking it.
fn walk_finds_cycle(graph: &HashMap<u64, Vec<u64>>) -> bool {
    fn visit(n: u64, graph: &HashMap<u64, Vec<u64>>, open: &mut HashSet<u64>, closed: &mut HashSet<u64>) -> bool {
        if closed.contains(&n) {
            return false;
        }
        if !open.insert(n) {
            return true;
        }
        for p in graph.get(&n).map(|v| v.as_slice()).unwrap_or(&[]) {
            if visit(*p, graph, open, closed) {
                return true;
            }
        }
        open.remove(&n);
        closed.insert(n);
        false
    }
    let mut open = HashSet::new();
    let mut closed = HashSet::new();
    graph.keys().any(|n| visit(*n, graph, &mut open, &mut closed))
}

#[test]
fn random_graphs_are_sorted_or_have_a_cycle() {
    let mut numbers = Numbers(7);
    for round in 0..300 {
        let nodes = 1 + numbers.next(12);
        let mut graph: HashMap<u64, Vec<u64>> = HashMap::new();
        let mut dag = ParentGraph::new();
        for _ in 0..nodes {
            let id = numbers.next(nodes + 2);
            let parents: Vec<u64> = (0..numbers.next(4))
                .map(|_| if round % 2 == 0 { numbers.next(nodes + 2) } else { id + 1 + numbers.next(3) })
                .collect();
            dag = dag.insert(cs(id), parents.iter().map(|p| cs(*p)).collect());
            graph.insert(id, parents);
        }
        assert_eq!(dag.len(), graph.len());
        match sort_topological(&dag) {
            None => assert!(walk_finds_cycle(&graph)),
            Some(order) => {
                assert!(!walk_finds_cycle(&graph));
                let position: HashMap<ChangesetId, usize> =
                    order.iter().enumerate().map(|(i, id)| (*id, i)).collect();
                assert_eq!(position.len(), order.len());
                let mut all: HashSet<u64> = graph.keys().copied().collect();
                for (id, parents) in &graph {
                    for p in parents {
                        all.insert(*p);
                        assert!(position[&cs(*p)] < position[&cs(*id)]);
                    }
                }
                assert_eq!(all.len(), order.len());
            }
        }
    }
}

#[test]
fn long_chains_are_sorted_in_either_order() {
    let n = 2000u64;
    let mut forward = ParentGraph::new();
    let mut backward = ParentGraph::new();
    for i in 0..n {
        let parents = |k: u64| if k == 0 { vec![] } else { vec![cs(k - 1)] };
        forward = forward.insert(cs(i), parents(i));
        backward = backward.insert(cs(n - 1 - i), parents(n - 1 - i));
    }
    let expected: Vec<ChangesetId> = (0..n).map(cs).collect();
    assert_eq!(sort_topological(&forward), Some(expected.clone()));
    assert_eq!(sort_topological(&backward), Some(expected));
}

#[test]
fn random_batches_are_saved_parents_first() {
    let mut numbers = Numbers(11);
    for _ in 0..200 {
        let count = numbers.next(10);
        let batch: Vec<BonsaiChangeset> = (0..count)
            .map(|_| {
                let id = numbers.next(8);
                let parents: Vec<u64> = (0..numbers.next(3)).map(|_| id + 1 + numbers.next(6)).collect();
                changeset(id, &parents)
            })
            .collect();
        let last: HashMap<ChangesetId, BonsaiChangeset> =
            batch.iter().map(|c| (c.id, c.clone())).collect();
        let plan = try_save_bonsai_changesets(batch.clone()).unwrap();
        assert_eq!(plan.changesets.len(), last.len());
        for (i, c) in plan.changesets.iter().enumerate() {
            assert_eq!(&last[&c.id], c);
            for p in &c.parents {
                if let Some(at) = plan.changesets.iter().position(|x| x.id == *p) {
                    assert!(at < i);
                }
            }
        }
        let expected: HashSet<ChangesetId> = batch
            .iter()
            .flat_map(|c| c.parents.iter().copied())
            .filter(|p| !last.contains_key(p))
            .collect();
        let got: HashSet<ChangesetId> = plan.parents_to_check.iter().copied().collect();
        assert_eq!(got, expected);
        assert_eq!(got.len(), plan.parents_to_check.len());
    }
}

#[test]
fn chunks_join_to_the_whole() {
    for n in [0usize, 1, 99, 100, 101, 199, 200, 201, 1000] {
        let items: Vec<usize> = (0..n).collect();
        let chunks = bookmark_chunks(items.clone());
        assert_eq!(chunks.len(), (n + 99) / 100);
        assert!(chunks.iter().all(|c| !c.is_empty() && c.len() <= 100));
        assert!(chunks.iter().rev().skip(1).all(|c| c.len() == 100));
        assert_eq!(chunks.concat(), items);
    }
}

#[test]
fn random_paths_are_split_like_text() {
    let mut numbers = Numbers(3);
    for _ in 0..500 {
        let len = numbers.next(12);
        let bytes: Vec<u8> = (0..len).map(|_| [b'a', b'b', b'/', b'c'][numbers.next(4) as usize]).collect();
        let expected: Vec<Vec<u8>> =
            bytes.split(|b| *b == b'/').filter(|e| !e.is_empty()).map(|e| e.to_vec()).collect();
        match MPath::new(&bytes) {
            None => assert!(expected.is_empty()),
            Some(p) => {
                let got: Vec<Vec<u8>> = (0..p.num_components()).map(|i| p.element(i).clone()).collect();
                assert_eq!(got, expected);
                assert_eq!(MPath::from_elements(expected), Some(p));
            }
        }
    }
}
