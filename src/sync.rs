//! The mirror's synchronisation policy: when the local copy is stale, when it
//! is corrupt and must be re-cloned, and how failures degrade. The caller
//! performs each step (clone, delete, fetch) and reports back.
use vstd::prelude::*;

verus! {

/// How long a mirror stays fresh after a sync: one day, in milliseconds.
pub const STALE_AFTER_MS: u64 = 24 * 60 * 60 * 1000;

/// How many times a corrupt mirror is deleted and cloned again before giving up.
pub const MAX_REINITIALIZATIONS: u8 = 2;

/// Why the mirror cannot be used.
#[derive(Debug, Clone, Copy, PartialEq, Eq, Structural)]
pub enum SyncError {
    /// No local directory can be resolved for this platform.
    IrrecoverableEnvironment,
    /// Cloning failed and no mirror is left to fall back on.
    SyncFailure,
    /// The mirror stayed corrupt after every allowed re-initialisation.
    CorruptMirror,
}

/// What is found on disk where the mirror should be.
#[derive(Debug, Clone, Copy, PartialEq, Eq, Structural)]
pub struct MirrorStatus {
    /// The mirror's directory exists.
    pub exists: bool,
    /// The sync time the marker records (epoch milliseconds), if there is a marker.
    pub marker: Option<u64>,
    /// The paths a complete mirror has are all there.
    pub content_ok: bool,
}

/// What the caller reports.
#[derive(Debug, Clone, Copy, PartialEq, Eq, Structural)]
pub enum SyncEvent {
    /// No directory for the mirror can be resolved on this platform.
    Unresolvable,
    /// The mirror was inspected.
    Found(MirrorStatus),
    /// A clone (fresh, or after deleting a corrupt mirror) finished, successfully or not.
    Cloned(bool),
    /// A fetch-and-compare refresh finished, successfully or not.
    Refreshed(bool),
}

/// What the caller does next.
#[derive(Debug, Clone, Copy, PartialEq, Eq, Structural)]
pub enum SyncStep {
    /// Clone the remote collection into the (absent) mirror directory.
    Clone,
    /// Delete the mirror, then clone it again.
    Reinitialize,
    /// Fetch and compare; rewrite the marker on success.
    Refresh,
    /// Inspect the mirror again and report what was found.
    Inspect,
    /// Use the mirror; `warning` asks to tell the user it may be outdated.
    Ready { warning: bool },
    /// Give up.
    Fail(SyncError),
}

/// Whether a mirror synced at `marker` is stale at `now` for threshold `w`:
/// always without a marker, else when at least `w` has passed.
pub open spec fn stale(marker: Option<u64>, now: u64, w: u64) -> bool {
    match marker {
        None => true,
        Some(t) => now - t >= w,
    }
}

/// A mirror that exists but cannot be trusted: its marker or its content is missing.
pub open spec fn corrupt(s: MirrorStatus) -> bool {
    s.exists && (s.marker is None || !s.content_ok)
}

/// The policy: from the re-initialisations made so far and an event, the
/// re-initialisations made after it and the next step.
pub open spec fn next_step(attempts: nat, event: SyncEvent, now: u64, w: u64) -> (nat, SyncStep) {
    match event {
        SyncEvent::Unresolvable => (attempts, SyncStep::Fail(SyncError::IrrecoverableEnvironment)),
        SyncEvent::Found(s) => {
            if !s.exists {
                (attempts, SyncStep::Clone)
            } else if corrupt(s) {
                if attempts < MAX_REINITIALIZATIONS {
                    (attempts + 1, SyncStep::Reinitialize)
                } else {
                    (attempts, SyncStep::Fail(SyncError::CorruptMirror))
                }
            } else if stale(s.marker, now, w) {
                (attempts, SyncStep::Refresh)
            } else {
                (attempts, SyncStep::Ready { warning: false })
            }
        },
        SyncEvent::Cloned(ok) => {
            if ok {
                (attempts, SyncStep::Inspect)
            } else {
                (attempts, SyncStep::Fail(SyncError::SyncFailure))
            }
        },
        SyncEvent::Refreshed(ok) => (attempts, SyncStep::Ready { warning: !ok }),
    }
}

/// Whether the mirror synced at `marker` is stale at `now` for the threshold `w`.
pub fn is_stale(marker: Option<u64>, now: u64, w: u64) -> (r: bool)
    ensures
        r == stale(marker, now, w),
{
    match marker {
        None => true,
        Some(t) => now >= t && now - t >= w,
    }
}

/// One run of the synchronisation policy.
#[derive(Debug)]
pub struct SyncSession {
    /// Deletions and re-clones of a corrupt mirror made so far.
    pub reinit_attempts: u8,
    /// How long a sync stays fresh, in milliseconds.
    pub threshold_ms: u64,
}

impl SyncSession {
    pub open spec fn wf(&self) -> bool {
        self.reinit_attempts <= MAX_REINITIALIZATIONS
    }

    pub fn new(threshold_ms: u64) -> (r: SyncSession)
        ensures
            r.wf(),
            r.reinit_attempts == 0,
            r.threshold_ms == threshold_ms,
    {
        SyncSession { reinit_attempts: 0, threshold_ms }
    }

    /// The next step after `event`, reported at time `now`.
    pub fn step(&mut self, event: SyncEvent, now: u64) -> (r: SyncStep)
        requires
            old(self).wf(),
        ensures
            final(self).wf(),
            final(self).threshold_ms == old(self).threshold_ms,
            (final(self).reinit_attempts as nat, r) == next_step(old(self).reinit_attempts as nat, event, now, old(self).threshold_ms),
    {
        match event {
            SyncEvent::Unresolvable => SyncStep::Fail(SyncError::IrrecoverableEnvironment),
            SyncEvent::Found(s) => {
                if !s.exists {
                    SyncStep::Clone
                } else if s.marker.is_none() || !s.content_ok {
                    if self.reinit_attempts < MAX_REINITIALIZATIONS {
                        self.reinit_attempts = self.reinit_attempts + 1;
                        SyncStep::Reinitialize
                    } else {
                        SyncStep::Fail(SyncError::CorruptMirror)
                    }
                } else if is_stale(s.marker, now, self.threshold_ms) {
                    SyncStep::Refresh
                } else {
                    SyncStep::Ready { warning: false }
                }
            },
            SyncEvent::Cloned(ok) => {
                if ok {
                    SyncStep::Inspect
                } else {
                    SyncStep::Fail(SyncError::SyncFailure)
                }
            },
            SyncEvent::Refreshed(ok) => SyncStep::Ready { warning: !ok },
        }
    }
}

/// A refresh writes the marker at the time it finishes, so right after it the
/// mirror is not stale.
pub proof fn lemma_fresh_after_refresh(now: u64, w: u64)
    requires
        w > 0,
    ensures
        !stale(Some(now), now, w),
{
}

/// The policy run over a sequence of events (each with its time), from
/// `attempts` re-initialisations: the re-initialisations after it, and how
/// many of its steps were re-initialisations.
pub open spec fn run(attempts: nat, events: Seq<(SyncEvent, u64)>, w: u64) -> (nat, nat)
    decreases events.len(),
{
    if events.len() == 0 {
        (attempts, 0)
    } else {
        let (a, step) = next_step(attempts, events[0].0, events[0].1, w);
        let (a2, count) = run(a, events.drop_first(), w);
        (a2, count + if step is Reinitialize { 1nat } else { 0nat })
    }
}

proof fn lemma_run_counts(attempts: nat, events: Seq<(SyncEvent, u64)>, w: u64)
    requires
        attempts <= MAX_REINITIALIZATIONS,
    ensures
        run(attempts, events, w).0 == attempts + run(attempts, events, w).1,
        run(attempts, events, w).0 <= MAX_REINITIALIZATIONS,
    decreases events.len(),
{
    if events.len() > 0 {
        let (a, step) = next_step(attempts, events[0].0, events[0].1, w);
        lemma_run_counts(a, events.drop_first(), w);
    }
}

/// Bounded self-healing: whatever is found and reported, one run of the
/// policy deletes and re-clones the mirror at most twice.
pub proof fn lemma_reinitializations_bounded(events: Seq<(SyncEvent, u64)>, w: u64)
    ensures
        run(0, events, w).1 <= MAX_REINITIALIZATIONS,
{
    lemma_run_counts(0, events, w);
}

/// Corruption self-heal: a mirror whose marker alone was deleted is deleted
/// and cloned again, and once the clone has written a new marker the mirror
/// is ready, after one re-initialisation.
pub proof fn lemma_self_heal(w: u64, t0: u64, cloned_at: u64, checked_at: u64)
    requires
        cloned_at <= checked_at,
        checked_at - cloned_at < w,
    ensures
        next_step(0, SyncEvent::Found(MirrorStatus { exists: true, marker: None, content_ok: true }), t0, w)
            == (1nat, SyncStep::Reinitialize),
        next_step(1, SyncEvent::Cloned(true), cloned_at, w) == (1nat, SyncStep::Inspect),
        next_step(1, SyncEvent::Found(MirrorStatus { exists: true, marker: Some(cloned_at), content_ok: true }), checked_at, w)
            == (1nat, SyncStep::Ready { warning: false }),
{
}

} // verus!
