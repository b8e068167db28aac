use dataingester::watch::{step, LoopAction, LoopInput, ReloadState, WatchEvent};

#[test]
fn modify_batch_triggers_one_reload() {
    // several coalesced modifications still yield a single reload action
    let batch = LoopInput::Batch(vec![
        WatchEvent::Modify,
        WatchEvent::Modify,
        WatchEvent::Modify,
    ]);
    let (state, action) = step(ReloadState::Watching, &batch);
    assert_eq!(action, LoopAction::Reload);
    assert_eq!(state, ReloadState::Reloading { teardown_pending: false });
}

#[test]
fn error_only_batch_changes_nothing() {
    let batch = LoopInput::Batch(vec![WatchEvent::DeliveryError, WatchEvent::DeliveryError]);
    let (state, action) = step(ReloadState::Watching, &batch);
    assert_eq!(state, ReloadState::Watching);
    assert_eq!(action, LoopAction::Wait);
}

#[test]
fn empty_batch_changes_nothing() {
    let (state, action) = step(ReloadState::Watching, &LoopInput::Batch(vec![]));
    assert_eq!(state, ReloadState::Watching);
    assert_eq!(action, LoopAction::Wait);
}

#[test]
fn failed_reload_returns_to_watching() {
    let batch = LoopInput::Batch(vec![WatchEvent::Modify]);
    let (s1, a1) = step(ReloadState::Watching, &batch);
    assert_eq!(a1, LoopAction::Reload);
    let (s2, a2) = step(s1, &LoopInput::Reloaded { ok: false });
    assert_eq!(s2, ReloadState::Watching);
    assert_eq!(a2, LoopAction::Wait);
    // the next content change still triggers a fresh reload
    let (_, a3) = step(s2, &LoopInput::Batch(vec![WatchEvent::Modify]));
    assert_eq!(a3, LoopAction::Reload);
}

#[test]
fn removal_recreates_watch_and_changes_are_still_seen() {
    let (s1, a1) = step(ReloadState::Watching, &LoopInput::Batch(vec![WatchEvent::Remove]));
    assert_eq!(s1, ReloadState::TearingDown);
    assert_eq!(a1, LoopAction::Recreate);
    let (s2, a2) = step(s1, &LoopInput::Recreated { ok: true });
    assert_eq!(s2, ReloadState::Watching);
    assert_eq!(a2, LoopAction::Wait);
    let (_, a3) = step(s2, &LoopInput::Batch(vec![WatchEvent::Modify]));
    assert_eq!(a3, LoopAction::Reload);
}

#[test]
fn modify_and_remove_in_one_batch_reloads_then_recreates() {
    let batch = LoopInput::Batch(vec![WatchEvent::Modify, WatchEvent::Remove]);
    let (s1, a1) = step(ReloadState::Watching, &batch);
    assert_eq!(a1, LoopAction::Reload);
    assert_eq!(s1, ReloadState::Reloading { teardown_pending: true });
    let (s2, a2) = step(s1, &LoopInput::Reloaded { ok: true });
    assert_eq!(s2, ReloadState::TearingDown);
    assert_eq!(a2, LoopAction::Recreate);
}

#[test]
fn failed_recreation_terminates_the_loop() {
    let (s1, _) = step(ReloadState::Watching, &LoopInput::Batch(vec![WatchEvent::Remove]));
    let (s2, a2) = step(s1, &LoopInput::Recreated { ok: false });
    assert_eq!(s2, ReloadState::Terminated);
    assert_eq!(a2, LoopAction::Stop);
    // absorbing: nothing restarts it
    let (s3, a3) = step(s2, &LoopInput::Batch(vec![WatchEvent::Modify]));
    assert_eq!(s3, ReloadState::Terminated);
    assert_eq!(a3, LoopAction::Stop);
}
