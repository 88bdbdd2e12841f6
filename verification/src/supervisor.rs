use vstd::prelude::*;

verus! {

/// How long the whole run lives, how often the refresher wakes, and how
/// often the persister wakes, all in seconds.
pub const LIFETIME_SECONDS: i64 = 30;

pub const REFRESH_PERIOD_SECONDS: u64 = 30;

pub const PERSIST_PERIOD_SECONDS: u64 = 60;

/// The lifecycle of the run.
#[derive(Clone, Copy, PartialEq, Eq, Structural, Debug)]
pub enum Phase {
    /// No tasks started.
    Idle,
    /// Refresher and persister run against the shared set.
    Running,
    /// The lifetime elapsed and the termination flag is set; the tasks exit
    /// at their next wake-up.
    Stopping,
    /// Both tasks have been joined.
    Stopped,
}

/// The supervisor's decisions: it owns the phase, the moment the run
/// started, and the cooperative termination flag both tasks poll.
pub struct Supervisor {
    pub phase: Phase,
    pub started_at: i64,
    pub terminate: bool,
}

impl Supervisor {
    /// The flag is raised exactly from the moment the lifetime elapses.
    pub open spec fn wf(self) -> bool {
        self.terminate <==> (self.phase is Stopping || self.phase is Stopped)
    }

    /// A fresh supervisor: nothing started, nothing signalled.
    pub fn new() -> (r: Self)
        ensures
            r.wf(),
            r.phase is Idle,
            r.started_at == 0,
            !r.terminate,
    {
        Supervisor { phase: Phase::Idle, started_at: 0, terminate: false }
    }

    /// Starts both tasks at clock reading `now`.
    pub fn start(&mut self, now: i64)
        requires
            old(self).phase is Idle,
            old(self).wf(),
        ensures
            final(self).wf(),
            final(self).phase is Running,
            final(self).started_at == now,
            !final(self).terminate,
    {
        self.phase = Phase::Running;
        self.started_at = now;
    }

    /// One poll of the lifetime timer at clock reading `now`: once the
    /// lifetime has elapsed the phase moves to Stopping and the termination
    /// flag is raised; before that nothing changes. Returns whether the
    /// controlling loop should stop polling.
    pub fn poll(&mut self, now: i64) -> (stop: bool)
        requires
            old(self).phase is Running,
            old(self).wf(),
            old(self).started_at <= now,
            now - old(self).started_at <= i64::MAX,
        ensures
            final(self).wf(),
            final(self).started_at == old(self).started_at,
            stop == (now - old(self).started_at >= LIFETIME_SECONDS),
            stop ==> final(self).phase is Stopping && final(self).terminate,
            !stop ==> *final(self) == *old(self),
    {
        if now - self.started_at >= LIFETIME_SECONDS {
            self.phase = Phase::Stopping;
            self.terminate = true;
            true
        } else {
            false
        }
    }

    /// What each background task checks at its wake-up: whether the
    /// termination flag has been raised.
    pub fn should_stop(&self) -> (r: bool)
        ensures
            r == self.terminate,
    {
        self.terminate
    }

    /// Both tasks have been joined; the run is over.
    pub fn tasks_joined(&mut self)
        requires
            old(self).phase is Stopping,
            old(self).wf(),
        ensures
            final(self).wf(),
            final(self).phase is Stopped,
            final(self).started_at == old(self).started_at,
            final(self).terminate,
    {
        self.phase = Phase::Stopped;
    }
}

/// While the supervisor is Idle or Running the tasks have not been told to
/// stop, and from Stopping on they have: the flag never lags the phase.
pub proof fn lemma_flag_tracks_phase(s: Supervisor)
    requires
        s.wf(),
    ensures
        (s.phase is Idle || s.phase is Running) ==> !s.terminate,
        (s.phase is Stopping || s.phase is Stopped) ==> s.terminate,
{
}

} // verus!
