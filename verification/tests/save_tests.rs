use blobrepo::bonsai::{BonsaiChangeset, DateTime};
use blobrepo::ids::ChangesetId;
use blobrepo::errors::ErrorKind;
use blobrepo::save::{require_parent, save_bonsai_changesets, try_save_bonsai_changesets};

fn cs(n: u8) -> ChangesetId {
    ChangesetId::new([n; 32])
}

fn changeset(id: u8, parents: &[u8], message: &str) -> BonsaiChangeset {
    BonsaiChangeset {
        id: cs(id),
        parents: parents.iter().map(|p| cs(*p)).collect(),
        file_changes: vec![],
        author: "author".to_string(),
        author_date: DateTime { timestamp_secs: 0, tz_offset_secs: 0 },
        message: message.to_string(),
        extra: vec![],
    }
}

fn ids(changesets: &[BonsaiChangeset]) -> Vec<ChangesetId> {
    changesets.iter().map(|c| c.id).collect()
}

#[test]
fn batch_is_ordered_parents_first() {
    let plan = save_bonsai_changesets(vec![
        changeset(3, &[2], ""),
        changeset(2, &[1], ""),
        changeset(1, &[], ""),
    ]);
    assert_eq!(ids(&plan.changesets), vec![cs(1), cs(2), cs(3)]);
    assert_eq!(plan.parents_to_check, vec![]);
}

#[test]
fn parents_outside_the_batch_are_to_be_checked_once() {
    let plan = try_save_bonsai_changesets(vec![
        changeset(3, &[2, 7], ""),
        changeset(2, &[7, 8], ""),
        changeset(4, &[3, 8, 8], ""),
    ])
    .unwrap();
    assert_eq!(plan.parents_to_check, vec![cs(7), cs(8)]);
    assert_eq!(ids(&plan.changesets), vec![cs(2), cs(3), cs(4)]);
}

#[test]
fn last_of_repeated_changesets_counts() {
    let plan = save_bonsai_changesets(vec![
        changeset(1, &[2], "first"),
        changeset(2, &[], ""),
        changeset(1, &[], "second"),
    ]);
    assert_eq!(plan.changesets.len(), 2);
    let one = plan.changesets.iter().find(|c| c.id == cs(1)).unwrap();
    assert_eq!(one.message, "second");
    // The parent of the overridden changeset is still a parent of the batch.
    assert_eq!(plan.parents_to_check, vec![]);
}

#[test]
fn loop_in_the_batch_is_reported() {
    assert!(try_save_bonsai_changesets(vec![changeset(1, &[2], ""), changeset(2, &[1], "")])
        .is_none());
    assert!(try_save_bonsai_changesets(vec![changeset(1, &[1], "")]).is_none());
    // A later changeset with the same identifier takes the loop away.
    let plan = try_save_bonsai_changesets(vec![
        changeset(1, &[2], ""),
        changeset(2, &[1], ""),
        changeset(2, &[], ""),
    ])
    .unwrap();
    assert_eq!(ids(&plan.changesets), vec![cs(2), cs(1)]);
}

#[test]
fn empty_batch_has_an_empty_plan() {
    let plan = save_bonsai_changesets(vec![]);
    assert!(plan.changesets.is_empty());
    assert!(plan.parents_to_check.is_empty());
}

#[test]
fn missing_parent_is_an_error() {
    assert_eq!(require_parent(cs(1), true), Ok(()));
    assert_eq!(require_parent(cs(1), false), Err(ErrorKind::MissingParent(cs(1))));
}
