use vstd::prelude::*;

verus! {

/// One filesystem notification, as the watch coordinator classifies it. The
/// coordinator interprets nothing further: an event either reports changed
/// content, reports the watched file's removal, or reports that delivery
/// itself failed.
#[derive(Clone, Copy, Debug, PartialEq, Eq, Structural)]
pub enum WatchEvent {
    Modify,
    Remove,
    DeliveryError,
}

/// Where the self-healing reload loop stands.
#[derive(Clone, Copy, Debug, PartialEq, Eq, Structural)]
pub enum ReloadState {
    /// Suspended, waiting for the next debounced batch.
    Watching,
    /// Running the bulk loader after a content change; when the batch that
    /// triggered the reload also reported a removal, the session must still
    /// be torn down afterwards.
    Reloading { teardown_pending: bool },
    /// Abandoning the watch session and building a new one on the same path.
    TearingDown,
    /// Absorbing: session recreation failed, no further change will ever be
    /// detected for this path. The store keeps serving its last mapping.
    Terminated,
}

/// What the loop driver reports into the state machine: a delivered batch of
/// classified events, or the outcome of work the machine asked for.
pub enum LoopInput {
    /// A debounced batch of events, in delivery order.
    Batch(Vec<WatchEvent>),
    /// The reload the machine requested has run; `ok` says whether the new
    /// mapping was installed.
    Reloaded { ok: bool },
    /// The session recreation the machine requested has run.
    Recreated { ok: bool },
}

/// What the loop driver must do next.
#[derive(Clone, Copy, Debug, PartialEq, Eq, Structural)]
pub enum LoopAction {
    /// Suspend until the next input.
    Wait,
    /// Run the bulk loader on the watched path and apply the outcome to the
    /// store, then report back with `Reloaded`.
    Reload,
    /// Abandon the current watch session, register a new one on the same
    /// path, then report back with `Recreated`.
    Recreate,
    /// The loop is over.
    Stop,
}

/// Whether a batch reports any content modification.
pub open spec fn has_modify(b: Seq<WatchEvent>) -> bool {
    exists|i: int| 0 <= i < b.len() && (#[trigger] b[i]) is Modify
}

/// Whether a batch reports the watched file's removal.
pub open spec fn has_remove(b: Seq<WatchEvent>) -> bool {
    exists|i: int| 0 <= i < b.len() && (#[trigger] b[i]) is Remove
}

/// The whole control law of the reload loop, as a function from state and
/// input to next state and action.
///
/// A batch with at least one content modification triggers exactly one
/// reload, however many raw events the debounce window coalesced; a batch
/// reporting a removal leads to the session being torn down and recreated
/// (after the reload, when the batch reported both); a batch with only
/// delivery errors is logged by the driver and changes nothing. A reload's
/// outcome never ends the loop — failure leaves the store stale but
/// available — while a failed session recreation does, silently, with the
/// loop absorbed in `Terminated`.
pub open spec fn spec_step(state: ReloadState, input: LoopInput) -> (ReloadState, LoopAction) {
    match state {
        ReloadState::Watching => match input {
            LoopInput::Batch(evs) => {
                if has_modify(evs@) {
                    (
                        ReloadState::Reloading { teardown_pending: has_remove(evs@) },
                        LoopAction::Reload,
                    )
                } else if has_remove(evs@) {
                    (ReloadState::TearingDown, LoopAction::Recreate)
                } else {
                    (ReloadState::Watching, LoopAction::Wait)
                }
            },
            _ => (ReloadState::Watching, LoopAction::Wait),
        },
        ReloadState::Reloading { teardown_pending } => match input {
            LoopInput::Reloaded { ok: _ } => {
                if teardown_pending {
                    (ReloadState::TearingDown, LoopAction::Recreate)
                } else {
                    (ReloadState::Watching, LoopAction::Wait)
                }
            },
            _ => (state, LoopAction::Wait),
        },
        ReloadState::TearingDown => match input {
            LoopInput::Recreated { ok } => {
                if ok {
                    (ReloadState::Watching, LoopAction::Wait)
                } else {
                    (ReloadState::Terminated, LoopAction::Stop)
                }
            },
            _ => (state, LoopAction::Wait),
        },
        ReloadState::Terminated => (ReloadState::Terminated, LoopAction::Stop),
    }
}

/// Scans a batch once for the two event kinds that drive transitions.
fn scan_batch(evs: &Vec<WatchEvent>) -> (r: (bool, bool))
    ensures
        r.0 == has_modify(evs@),
        r.1 == has_remove(evs@),
{
    let mut saw_modify = false;
    let mut saw_remove = false;
    let mut i: usize = 0;
    while i < evs.len()
        invariant
            i <= evs@.len(),
            saw_modify == has_modify(evs@.take(i as int)),
            saw_remove == has_remove(evs@.take(i as int)),
        decreases evs@.len() - i,
    {
        proof {
            assert(evs@.take(i + 1).drop_last() =~= evs@.take(i as int));
            assert(evs@.take(i + 1).last() == evs@[i as int]);
            assert(forall|j: int| 0 <= j < i ==> evs@.take(i + 1)[j] == evs@.take(i as int)[j]);
        }
        match evs[i] {
            WatchEvent::Modify => {
                saw_modify = true;
            },
            WatchEvent::Remove => {
                saw_remove = true;
            },
            WatchEvent::DeliveryError => {},
        }
        proof {
            if has_modify(evs@.take(i as int)) {
                let w = choose|j: int| 0 <= j < i && (#[trigger] evs@.take(i as int)[j]) is Modify;
                assert(evs@.take(i + 1)[w] is Modify);
            }
            if has_remove(evs@.take(i as int)) {
                let w = choose|j: int| 0 <= j < i && (#[trigger] evs@.take(i as int)[j]) is Remove;
                assert(evs@.take(i + 1)[w] is Remove);
            }
            if evs@[i as int] is Modify {
                assert(evs@.take(i + 1)[i as int] is Modify);
            }
            if evs@[i as int] is Remove {
                assert(evs@.take(i + 1)[i as int] is Remove);
            }
            if has_modify(evs@.take(i + 1)) {
                let w = choose|j: int| 0 <= j < i + 1 && (#[trigger] evs@.take(i + 1)[j]) is Modify;
                if w < i {
                    assert(evs@.take(i as int)[w] is Modify);
                }
            }
            if has_remove(evs@.take(i + 1)) {
                let w = choose|j: int| 0 <= j < i + 1 && (#[trigger] evs@.take(i + 1)[j]) is Remove;
                if w < i {
                    assert(evs@.take(i as int)[w] is Remove);
                }
            }
        }
        i = i + 1;
    }
    proof {
        assert(evs@.take(evs@.len() as int) =~= evs@);
    }
    (saw_modify, saw_remove)
}

/// Advances the reload loop by one input, returning the next state and the
/// action the driver must perform. Exactly [`spec_step`].
pub fn step(state: ReloadState, input: &LoopInput) -> (r: (ReloadState, LoopAction))
    ensures
        r == spec_step(state, *input),
{
    match state {
        ReloadState::Watching => match input {
            LoopInput::Batch(evs) => {
                let (saw_modify, saw_remove) = scan_batch(evs);
                if saw_modify {
                    (
                        ReloadState::Reloading { teardown_pending: saw_remove },
                        LoopAction::Reload,
                    )
                } else if saw_remove {
                    (ReloadState::TearingDown, LoopAction::Recreate)
                } else {
                    (ReloadState::Watching, LoopAction::Wait)
                }
            },
            _ => (ReloadState::Watching, LoopAction::Wait),
        },
        ReloadState::Reloading { teardown_pending } => match input {
            LoopInput::Reloaded { ok: _ } => {
                if teardown_pending {
                    (ReloadState::TearingDown, LoopAction::Recreate)
                } else {
                    (ReloadState::Watching, LoopAction::Wait)
                }
            },
            _ => (state, LoopAction::Wait),
        },
        ReloadState::TearingDown => match input {
            LoopInput::Recreated { ok } => {
                if *ok {
                    (ReloadState::Watching, LoopAction::Wait)
                } else {
                    (ReloadState::Terminated, LoopAction::Stop)
                }
            },
            _ => (state, LoopAction::Wait),
        },
        ReloadState::Terminated => (ReloadState::Terminated, LoopAction::Stop),
    }
}

/// A failed reload does not wedge the loop: after a batch whose content
/// change led to a reload that then failed, the loop is back in `Watching`
/// with the store untouched, and the next batch reporting a content change
/// triggers a fresh reload.
pub proof fn lemma_failed_reload_recovers(b1: Vec<WatchEvent>, b2: Vec<WatchEvent>)
    requires
        has_modify(b1@),
        !has_remove(b1@),
        has_modify(b2@),
    ensures
        ({
            let r1 = spec_step(ReloadState::Watching, LoopInput::Batch(b1));
            let r2 = spec_step(r1.0, LoopInput::Reloaded { ok: false });
            let r3 = spec_step(r2.0, LoopInput::Batch(b2));
            &&& r1.1 == LoopAction::Reload
            &&& r2.0 == ReloadState::Watching
            &&& r3.1 == LoopAction::Reload
        }),
{
}

/// The watch self-heals across a removal: after a batch reporting the file's
/// removal, the session is recreated, and once recreation succeeds the loop
/// watches again — a later content change is detected and reloaded as before.
pub proof fn lemma_watch_self_heals(b_remove: Vec<WatchEvent>, b_change: Vec<WatchEvent>)
    requires
        has_remove(b_remove@),
        !has_modify(b_remove@),
        has_modify(b_change@),
    ensures
        ({
            let r1 = spec_step(ReloadState::Watching, LoopInput::Batch(b_remove));
            let r2 = spec_step(r1.0, LoopInput::Recreated { ok: true });
            let r3 = spec_step(r2.0, LoopInput::Batch(b_change));
            &&& r1.0 == ReloadState::TearingDown
            &&& r1.1 == LoopAction::Recreate
            &&& r2.0 == ReloadState::Watching
            &&& r3.1 == LoopAction::Reload
        }),
{
}

/// `Terminated` is absorbing: once session recreation has failed, no input
/// ever restarts the loop, and the store serves its last mapping unrefreshed.
pub proof fn lemma_terminated_absorbing(input: LoopInput)
    ensures
        spec_step(ReloadState::Terminated, input).0 == ReloadState::Terminated,
{
}

} // verus!
