use blobrepo::bonsai::{BonsaiChangeset, DateTime};
use blobrepo::ids::{ChangesetId, HgChangesetId, HgNodeHash};
use blobrepo::planner::{Planner, PlannerEvent, PlannerRequest};
use std::collections::HashMap;

fn cs(n: u8) -> ChangesetId {
    ChangesetId::new([n; 32])
}

fn hg(n: u8) -> HgChangesetId {
    HgChangesetId::new(HgNodeHash::new([n; 20]))
}

fn changeset(id: u8, parents: &[u8]) -> BonsaiChangeset {
    BonsaiChangeset {
        id: cs(id),
        parents: parents.iter().map(|p| cs(*p)).collect(),
        file_changes: vec![],
        author: "author".to_string(),
        author_date: DateTime { timestamp_secs: 0, tz_offset_secs: 0 },
        message: format!("changeset {}", id),
        extra: vec![],
    }
}

struct Repo {
    changesets: HashMap<ChangesetId, BonsaiChangeset>,
    mapping: HashMap<ChangesetId, HgChangesetId>,
}

fn run_planner(repo: &Repo, target: ChangesetId) -> (Option<Vec<BonsaiChangeset>>, Vec<PlannerRequest>) {
    let mut planner = Planner::new(target);
    let mut asked = vec![];
    loop {
        let request = planner.request();
        asked.push(request);
        planner = match request {
            PlannerRequest::LookupMapping(id) => planner
                .step(PlannerEvent::Mapping(repo.mapping.get(&id).copied()))
                .unwrap(),
            PlannerRequest::LoadChangeset(id) => planner
                .step(PlannerEvent::Loaded(repo.changesets[&id].clone()))
                .unwrap(),
            PlannerRequest::Finish => return (planner.try_finish(), asked),
        };
    }
}

fn repo(changesets: Vec<BonsaiChangeset>, mapped: &[u8]) -> Repo {
    Repo {
        changesets: changesets.into_iter().map(|c| (c.id, c)).collect(),
        mapping: mapped.iter().map(|m| (cs(*m), hg(*m))).collect(),
    }
}

fn position(plan: &[BonsaiChangeset], id: u8) -> usize {
    plan.iter().position(|c| c.id == cs(id)).unwrap()
}

#[test]
fn plan_of_a_derived_target_is_empty() {
    let r = repo(vec![changeset(1, &[])], &[1]);
    let (plan, asked) = run_planner(&r, cs(1));
    assert_eq!(plan, Some(vec![]));
    assert_eq!(asked, vec![PlannerRequest::LookupMapping(cs(1)), PlannerRequest::Finish]);
}

#[test]
fn plan_of_a_chain_puts_parents_first() {
    let r = repo(vec![changeset(1, &[]), changeset(2, &[1]), changeset(3, &[2])], &[]);
    let (plan, _) = run_planner(&r, cs(3));
    let plan = plan.unwrap();
    let ids: Vec<ChangesetId> = plan.iter().map(|c| c.id).collect();
    assert_eq!(ids, vec![cs(1), cs(2), cs(3)]);
}

#[test]
fn plan_stops_at_derived_ancestors() {
    let r = repo(
        vec![changeset(1, &[]), changeset(2, &[1]), changeset(3, &[2]), changeset(4, &[3])],
        &[2],
    );
    let (plan, asked) = run_planner(&r, cs(4));
    let plan = plan.unwrap();
    let ids: Vec<ChangesetId> = plan.iter().map(|c| c.id).collect();
    assert_eq!(ids, vec![cs(3), cs(4)]);
    assert!(!asked.contains(&PlannerRequest::LookupMapping(cs(1))));
    assert!(!asked.contains(&PlannerRequest::LoadChangeset(cs(2))));
}

#[test]
fn plan_visits_a_shared_ancestor_once() {
    let r = repo(
        vec![
            changeset(1, &[]),
            changeset(2, &[1]),
            changeset(3, &[1]),
            changeset(4, &[2, 3]),
            changeset(5, &[4, 2, 3]),
        ],
        &[],
    );
    let (plan, asked) = run_planner(&r, cs(5));
    let plan = plan.unwrap();
    assert_eq!(plan.len(), 5);
    for id in 1..=5u8 {
        let loads = asked.iter().filter(|a| **a == PlannerRequest::LoadChangeset(cs(id))).count();
        assert_eq!(loads, 1);
    }
    for c in &plan {
        for p in &c.parents {
            let child = plan.iter().position(|x| x.id == c.id).unwrap();
            let parent = plan.iter().position(|x| x.id == *p).unwrap();
            assert!(parent < child);
        }
    }
    assert!(position(&plan, 1) < position(&plan, 2));
    assert!(position(&plan, 4) < position(&plan, 5));
}

#[test]
fn plan_of_a_sound_graph_needs_no_test() {
    let planner = Planner::new(cs(2));
    let planner = planner.step(PlannerEvent::Mapping(None)).unwrap();
    let planner = planner.step(PlannerEvent::Loaded(changeset(2, &[1]))).unwrap();
    let planner = planner.step(PlannerEvent::Mapping(None)).unwrap();
    let planner = planner.step(PlannerEvent::Loaded(changeset(1, &[]))).unwrap();
    assert_eq!(planner.request(), PlannerRequest::Finish);
    assert_eq!(planner.commits().len(), 2);
    let plan = planner.finish();
    assert_eq!(plan, vec![changeset(1, &[]), changeset(2, &[1])]);
}

#[test]
fn plan_reports_a_cycle() {
    let r = repo(vec![changeset(1, &[3]), changeset(2, &[1]), changeset(3, &[2])], &[]);
    let (plan, _) = run_planner(&r, cs(3));
    assert_eq!(plan, None);
}

#[test]
fn planner_rejects_what_it_did_not_ask_for() {
    let planner = Planner::new(cs(1));
    assert!(planner.step(PlannerEvent::Loaded(changeset(1, &[]))).is_none());
    let planner = Planner::new(cs(1));
    let planner = planner.step(PlannerEvent::Mapping(None)).unwrap();
    assert_eq!(planner.request(), PlannerRequest::LoadChangeset(cs(1)));
    assert!(planner.step(PlannerEvent::Loaded(changeset(2, &[]))).is_none());
    let planner = Planner::new(cs(1));
    let planner = planner.step(PlannerEvent::Mapping(None)).unwrap();
    assert!(planner.step(PlannerEvent::Mapping(None)).is_none());
}

#[test]
fn planner_breadth_first_order_of_questions() {
    let r = repo(vec![changeset(1, &[]), changeset(2, &[]), changeset(3, &[1, 2])], &[]);
    let (_, asked) = run_planner(&r, cs(3));
    assert_eq!(
        asked,
        vec![
            PlannerRequest::LookupMapping(cs(3)),
            PlannerRequest::LoadChangeset(cs(3)),
            PlannerRequest::LookupMapping(cs(1)),
            PlannerRequest::LoadChangeset(cs(1)),
            PlannerRequest::LookupMapping(cs(2)),
            PlannerRequest::LoadChangeset(cs(2)),
            PlannerRequest::Finish,
        ]
    );
}
