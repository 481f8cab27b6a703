use timelord::{SyncAction, SyncEvent, SyncPhase};

#[test]
fn second_stage_waits_for_both_tasks() {
    let p = SyncPhase::start();
    let (p, a) = p.step(SyncEvent::TreeScanned);
    assert_eq!(a, SyncAction::Wait);
    let (p, a) = p.step(SyncEvent::TimesRestored);
    assert_eq!(a, SyncAction::Wait);
    let (p, a) = p.step(SyncEvent::BaselineLoaded);
    assert_eq!(a, SyncAction::StartApplying);
    assert_eq!(p, SyncPhase::Applying { restored: false, persisted: false });
}

#[test]
fn run_finishes_after_both_second_stage_tasks() {
    let p = SyncPhase::start();
    let (p, _) = p.step(SyncEvent::BaselineLoaded);
    let (p, _) = p.step(SyncEvent::TreeScanned);
    let (p, a) = p.step(SyncEvent::CachePersisted);
    assert_eq!(a, SyncAction::Wait);
    let (p, a) = p.step(SyncEvent::TimesRestored);
    assert_eq!(a, SyncAction::Finish);
    assert_eq!(p, SyncPhase::Done);
    assert_eq!(p.step(SyncEvent::TreeScanned), (SyncPhase::Done, SyncAction::Wait));
}
