use ignoreit::sync::{
    is_stale, MirrorStatus, SyncError, SyncEvent, SyncSession, SyncStep, MAX_REINITIALIZATIONS,
    STALE_AFTER_MS,
};

const T: u64 = 1_700_000_000_000;

#[test]
fn staleness_is_at_least_the_threshold() {
    let w = STALE_AFTER_MS;
    assert_eq!(w, 86_400_000);
    assert!(!is_stale(Some(T), T + w - 1, w));
    assert!(is_stale(Some(T), T + w, w));
    assert!(is_stale(Some(T), T + w + 1, w));
    assert!(is_stale(None, T, w));
    assert!(!is_stale(Some(T), T - 5, w));
}

#[test]
fn fresh_right_after_refresh() {
    assert!(!is_stale(Some(T), T, STALE_AFTER_MS));
}

fn ok(marker: u64) -> SyncEvent {
    SyncEvent::Found(MirrorStatus { exists: true, marker: Some(marker), content_ok: true })
}

#[test]
fn absent_mirror_is_cloned_then_ready() {
    let mut s = SyncSession::new(STALE_AFTER_MS);
    let absent = SyncEvent::Found(MirrorStatus { exists: false, marker: None, content_ok: false });
    assert_eq!(s.step(absent, T), SyncStep::Clone);
    assert_eq!(s.step(SyncEvent::Cloned(true), T), SyncStep::Inspect);
    assert_eq!(s.step(ok(T), T + 10), SyncStep::Ready { warning: false });
    assert_eq!(s.reinit_attempts, 0);
}

#[test]
fn failed_first_clone_is_fatal() {
    let mut s = SyncSession::new(STALE_AFTER_MS);
    assert_eq!(s.step(SyncEvent::Cloned(false), T), SyncStep::Fail(SyncError::SyncFailure));
}

#[test]
fn stale_mirror_is_refreshed_and_offline_degrades() {
    let mut s = SyncSession::new(STALE_AFTER_MS);
    assert_eq!(s.step(ok(T), T + STALE_AFTER_MS), SyncStep::Refresh);
    assert_eq!(s.step(SyncEvent::Refreshed(true), T), SyncStep::Ready { warning: false });
    assert_eq!(s.step(SyncEvent::Refreshed(false), T), SyncStep::Ready { warning: true });
}

#[test]
fn deleted_marker_heals_by_recloning() {
    let mut s = SyncSession::new(STALE_AFTER_MS);
    let no_marker = SyncEvent::Found(MirrorStatus { exists: true, marker: None, content_ok: true });
    assert_eq!(s.step(no_marker, T), SyncStep::Reinitialize);
    assert_eq!(s.reinit_attempts, 1);
    assert_eq!(s.step(SyncEvent::Cloned(true), T + 1), SyncStep::Inspect);
    assert_eq!(s.step(ok(T + 1), T + 2), SyncStep::Ready { warning: false });
    assert_eq!(s.reinit_attempts, 1);
}

#[test]
fn persistent_corruption_gives_up_after_two_attempts() {
    let mut s = SyncSession::new(STALE_AFTER_MS);
    let broken = SyncEvent::Found(MirrorStatus { exists: true, marker: Some(T), content_ok: false });
    assert_eq!(s.step(broken, T), SyncStep::Reinitialize);
    assert_eq!(s.step(SyncEvent::Cloned(true), T), SyncStep::Inspect);
    assert_eq!(s.step(broken, T), SyncStep::Reinitialize);
    assert_eq!(s.step(SyncEvent::Cloned(true), T), SyncStep::Inspect);
    assert_eq!(s.step(broken, T), SyncStep::Fail(SyncError::CorruptMirror));
    assert_eq!(s.reinit_attempts, MAX_REINITIALIZATIONS);
}

#[test]
fn unresolvable_location_is_fatal() {
    let mut s = SyncSession::new(STALE_AFTER_MS);
    assert_eq!(
        s.step(SyncEvent::Unresolvable, T),
        SyncStep::Fail(SyncError::IrrecoverableEnvironment)
    );
}
