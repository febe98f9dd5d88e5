use blobrepo::ids::{ChangesetId, HgChangesetId, HgNodeHash};
use blobrepo::lease::{
    next_backoff, LeaseAttempt, LeaseEvent, LeasePhase, LeaseRequest, INITIAL_BACKOFF_MS,
    MAX_BACKOFF_MS,
};

fn cs(n: u8) -> ChangesetId {
    ChangesetId::new([n; 32])
}

fn hg(n: u8) -> HgChangesetId {
    HgChangesetId::new(HgNodeHash::new([n; 20]))
}

#[test]
fn backoff_doubles_up_to_the_cap() {
    assert_eq!(INITIAL_BACKOFF_MS, 200);
    assert_eq!(MAX_BACKOFF_MS, 1000);
    assert_eq!(next_backoff(200), 400);
    assert_eq!(next_backoff(400), 800);
    assert_eq!(next_backoff(800), 1000);
    assert_eq!(next_backoff(1000), 1000);
    assert_eq!(next_backoff(499), 998);
    assert_eq!(next_backoff(500), 1000);
    assert_eq!(next_backoff(0), 0);
    assert_eq!(next_backoff(u64::MAX), 1000);
}

#[test]
fn granted_lease_without_result_means_derive() {
    let a = LeaseAttempt::new(cs(1));
    assert_eq!(a.request(), LeaseRequest::TryLease(cs(1)));
    let a = a.step(LeaseEvent::Lease(Some(true))).unwrap();
    assert_eq!(a.phase, LeasePhase::Checking { leased: true });
    assert_eq!(a.request(), LeaseRequest::LookupMapping(cs(1)));
    let a = a.step(LeaseEvent::Mapping(None)).unwrap();
    assert_eq!(a.phase, LeasePhase::Granted);
    assert!(!a.is_finished());
    assert_eq!(a.request(), LeaseRequest::Derive(cs(1)));
    assert_eq!(a.step(LeaseEvent::Slept), None);
    assert_eq!(a.step(LeaseEvent::Released), None);
}

#[test]
fn lease_is_given_back_after_the_derivation() {
    let a = LeaseAttempt::new(cs(1));
    let a = a.step(LeaseEvent::Lease(Some(true))).unwrap();
    let a = a.step(LeaseEvent::Mapping(None)).unwrap();
    let a = a.step(LeaseEvent::Derived(hg(7))).unwrap();
    assert_eq!(a.phase, LeasePhase::Releasing { found: hg(7) });
    assert_eq!(a.request(), LeaseRequest::ReleaseLease(cs(1)));
    assert!(!a.is_finished());
    let a = a.step(LeaseEvent::Released).unwrap();
    assert_eq!(a.phase, LeasePhase::Satisfied { found: hg(7) });
    assert_eq!(a.request(), LeaseRequest::Done(hg(7)));
    assert!(a.is_finished());
    // Only the holder of the lease derives.
    assert_eq!(LeaseAttempt::new(cs(1)).step(LeaseEvent::Derived(hg(7))), None);
}

#[test]
fn granted_lease_with_result_is_released() {
    let a = LeaseAttempt::new(cs(1));
    let a = a.step(LeaseEvent::Lease(Some(true))).unwrap();
    let a = a.step(LeaseEvent::Mapping(Some(hg(7)))).unwrap();
    assert_eq!(a.phase, LeasePhase::Releasing { found: hg(7) });
    assert_eq!(a.request(), LeaseRequest::ReleaseLease(cs(1)));
    assert!(!a.is_finished());
    let a = a.step(LeaseEvent::Released).unwrap();
    assert_eq!(a.phase, LeasePhase::Satisfied { found: hg(7) });
    assert_eq!(a.request(), LeaseRequest::Done(hg(7)));
    assert!(a.is_finished());
}

#[test]
fn refused_lease_polls_with_growing_pauses() {
    let mut a = LeaseAttempt::new(cs(1));
    let mut pauses = vec![];
    for _ in 0..5 {
        a = a.step(LeaseEvent::Lease(Some(false))).unwrap();
        assert_eq!(a.phase, LeasePhase::Checking { leased: false });
        a = a.step(LeaseEvent::Mapping(None)).unwrap();
        assert_eq!(a.phase, LeasePhase::Sleeping);
        match a.request() {
            LeaseRequest::Sleep(ms) => pauses.push(ms),
            other => panic!("unexpected request {:?}", other),
        }
        a = a.step(LeaseEvent::Slept).unwrap();
        assert_eq!(a.phase, LeasePhase::Acquiring);
    }
    assert_eq!(pauses, vec![200, 400, 800, 1000, 1000]);
}

#[test]
fn refused_lease_is_satisfied_by_the_mapping() {
    let a = LeaseAttempt::new(cs(1));
    let a = a.step(LeaseEvent::Lease(Some(false))).unwrap();
    let a = a.step(LeaseEvent::Mapping(Some(hg(9)))).unwrap();
    assert_eq!(a.phase, LeasePhase::Satisfied { found: hg(9) });
}

#[test]
fn failure_of_the_lease_store_counts_as_refusal() {
    let a = LeaseAttempt::new(cs(1));
    let failed = a.step(LeaseEvent::Lease(None)).unwrap();
    let refused = a.step(LeaseEvent::Lease(Some(false))).unwrap();
    assert_eq!(failed, refused);
    assert_eq!(failed.phase, LeasePhase::Checking { leased: false });
}

#[test]
fn unexpected_events_are_rejected() {
    let a = LeaseAttempt::new(cs(1));
    assert_eq!(a.step(LeaseEvent::Mapping(None)), None);
    assert_eq!(a.step(LeaseEvent::Released), None);
    assert_eq!(a.step(LeaseEvent::Slept), None);
    let b = a.step(LeaseEvent::Lease(Some(true))).unwrap();
    assert_eq!(b.step(LeaseEvent::Lease(Some(true))), None);
}

/// Several attempts against one lease and one mapping: one of them derives,
/// the others read its result.
#[test]
fn one_of_many_attempts_derives() {
    let n = 5;
    let mut attempts: Vec<LeaseAttempt> = (0..n).map(|_| LeaseAttempt::new(cs(1))).collect();
    let mut holder: Option<usize> = None;
    let mut mapping: Option<HgChangesetId> = None;
    let mut derivations = 0;
    let mut rounds = 0;
    while attempts.iter().any(|a| !matches!(a.phase, LeasePhase::Satisfied { .. })) {
        rounds += 1;
        assert!(rounds < 1000);
        for i in 0..n {
            let a = attempts[i];
            attempts[i] = match a.request() {
                LeaseRequest::TryLease(_) => {
                    let granted = holder.is_none();
                    if granted {
                        holder = Some(i);
                    }
                    a.step(LeaseEvent::Lease(Some(granted))).unwrap()
                }
                LeaseRequest::LookupMapping(_) => a.step(LeaseEvent::Mapping(mapping)).unwrap(),
                LeaseRequest::ReleaseLease(_) => {
                    assert_eq!(holder, Some(i));
                    holder = None;
                    a.step(LeaseEvent::Released).unwrap()
                }
                LeaseRequest::Sleep(ms) => {
                    assert!(ms >= 200 && ms <= 1000);
                    a.step(LeaseEvent::Slept).unwrap()
                }
                LeaseRequest::Derive(_) => {
                    assert_eq!(holder, Some(i));
                    assert_eq!(mapping, None);
                    derivations += 1;
                    mapping = Some(hg(42));
                    // The lease stays with the holder until it gives it back.
                    a.step(LeaseEvent::Derived(hg(42))).unwrap()
                }
                LeaseRequest::Done(_) => a,
            };
        }
    }
    assert_eq!(derivations, 1);
    for a in attempts {
        assert_eq!(a.phase, LeasePhase::Satisfied { found: hg(42) });
    }
}
