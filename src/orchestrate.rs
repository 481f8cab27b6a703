use vstd::prelude::*;

verus! {

/// Where a sync run stands.
#[derive(Clone, Copy, Debug, PartialEq, Eq, Structural)]
pub enum SyncPhase {
    /// Loading the baseline beside scanning the tree.
    Gathering { loaded: bool, scanned: bool },
    /// Restoring times beside persisting the new snapshot.
    Applying { restored: bool, persisted: bool },
    /// Both stages are over.
    Done,
}

/// A task of the run has completed.
#[derive(Clone, Copy, Debug, PartialEq, Eq, Structural)]
pub enum SyncEvent {
    BaselineLoaded,
    TreeScanned,
    TimesRestored,
    CachePersisted,
}

/// What the runner does next.
#[derive(Clone, Copy, Debug, PartialEq, Eq, Structural)]
pub enum SyncAction {
    /// Keep waiting for the tasks of the current stage.
    Wait,
    /// Start restoring and persisting.
    StartApplying,
    /// Report the outcome.
    Finish,
}

/// The next phase and action after `e`; an event that belongs to no task of
/// the current stage changes nothing.
pub open spec fn step_spec(p: SyncPhase, e: SyncEvent) -> (SyncPhase, SyncAction) {
    match p {
        SyncPhase::Gathering { loaded, scanned } => {
            let l = loaded || e == SyncEvent::BaselineLoaded;
            let s = scanned || e == SyncEvent::TreeScanned;
            if l && s {
                (SyncPhase::Applying { restored: false, persisted: false }, SyncAction::StartApplying)
            } else {
                (SyncPhase::Gathering { loaded: l, scanned: s }, SyncAction::Wait)
            }
        },
        SyncPhase::Applying { restored, persisted } => {
            let r = restored || e == SyncEvent::TimesRestored;
            let q = persisted || e == SyncEvent::CachePersisted;
            if r && q {
                (SyncPhase::Done, SyncAction::Finish)
            } else {
                (SyncPhase::Applying { restored: r, persisted: q }, SyncAction::Wait)
            }
        },
        SyncPhase::Done => (SyncPhase::Done, SyncAction::Wait),
    }
}

impl SyncPhase {
    /// A run that has started neither task.
    pub fn start() -> (r: SyncPhase)
        ensures
            r == (SyncPhase::Gathering { loaded: false, scanned: false }),
    {
        SyncPhase::Gathering { loaded: false, scanned: false }
    }

    /// Records that a task completed.
    pub fn step(self, e: SyncEvent) -> (r: (SyncPhase, SyncAction))
        ensures
            r == step_spec(self, e),
    {
        match self {
            SyncPhase::Gathering { loaded, scanned } => {
                let l = loaded || e == SyncEvent::BaselineLoaded;
                let s = scanned || e == SyncEvent::TreeScanned;
                if l && s {
                    (SyncPhase::Applying { restored: false, persisted: false }, SyncAction::StartApplying)
                } else {
                    (SyncPhase::Gathering { loaded: l, scanned: s }, SyncAction::Wait)
                }
            },
            SyncPhase::Applying { restored, persisted } => {
                let r = restored || e == SyncEvent::TimesRestored;
                let q = persisted || e == SyncEvent::CachePersisted;
                if r && q {
                    (SyncPhase::Done, SyncAction::Finish)
                } else {
                    (SyncPhase::Applying { restored: r, persisted: q }, SyncAction::Wait)
                }
            },
            SyncPhase::Done => (SyncPhase::Done, SyncAction::Wait),
        }
    }
}

/// The second stage starts only once the baseline is loaded and the tree is
/// scanned, and the run finishes only once times are restored and the cache
/// is persisted.
pub proof fn lemma_stages_wait_for_their_tasks(p: SyncPhase, e: SyncEvent)
    ensures
        step_spec(p, e).1 == SyncAction::StartApplying ==> (p matches SyncPhase::Gathering { loaded, scanned } && (
        loaded || e == SyncEvent::BaselineLoaded) && (scanned || e == SyncEvent::TreeScanned)),
        step_spec(p, e).1 == SyncAction::Finish ==> (p matches SyncPhase::Applying { restored, persisted } && (
        restored || e == SyncEvent::TimesRestored) && (persisted || e == SyncEvent::CachePersisted)),
{
}

/// The two tasks of a stage may complete in either order.
pub proof fn lemma_stage_order_free()
    ensures
        step_spec(step_spec(SyncPhase::Gathering { loaded: false, scanned: false }, SyncEvent::BaselineLoaded).0, SyncEvent::TreeScanned)
            == step_spec(step_spec(SyncPhase::Gathering { loaded: false, scanned: false }, SyncEvent::TreeScanned).0, SyncEvent::BaselineLoaded),
        step_spec(step_spec(SyncPhase::Gathering { loaded: false, scanned: false }, SyncEvent::TreeScanned).0, SyncEvent::BaselineLoaded).1
            == SyncAction::StartApplying,
        step_spec(step_spec(SyncPhase::Applying { restored: false, persisted: false }, SyncEvent::TimesRestored).0, SyncEvent::CachePersisted)
            == step_spec(step_spec(SyncPhase::Applying { restored: false, persisted: false }, SyncEvent::CachePersisted).0, SyncEvent::TimesRestored),
        step_spec(step_spec(SyncPhase::Applying { restored: false, persisted: false }, SyncEvent::CachePersisted).0, SyncEvent::TimesRestored).1
            == SyncAction::Finish,
{
}

} // verus!
