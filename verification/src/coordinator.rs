//! Admission of workflow runs: at most one run at a time, and automatic triggers
//! that arrive within the cooldown of the last admitted automatic trigger are dropped.
use std::time::{Duration, Instant};
use vstd::prelude::*;

verus! {

/// What started a workflow run.
#[derive(Clone, Copy, Debug, PartialEq, Eq)]
pub enum RunTrigger {
    Launch,
    Resume,
    ScreenResume,
    SessionActive,
    Manual,
}

/// Every trigger but a manual one is automatic.
pub open spec fn is_automatic_spec(t: RunTrigger) -> bool {
    !(t is Manual)
}

/// The user-facing name of a trigger.
pub open spec fn label_spec(t: RunTrigger) -> Seq<char> {
    match t {
        RunTrigger::Launch => "登录启动"@,
        RunTrigger::Resume => "系统唤醒"@,
        RunTrigger::ScreenResume => "屏幕恢复"@,
        RunTrigger::SessionActive => "会话恢复"@,
        RunTrigger::Manual => "手动检测"@,
    }
}

impl RunTrigger {
    /// Whether the trigger came from the system rather than the user.
    pub fn is_automatic(self) -> (b: bool)
        ensures
            b == is_automatic_spec(self),
    {
        !matches!(self, RunTrigger::Manual)
    }

    /// The user-facing name of the trigger.
    pub fn label(self) -> (s: &'static str)
        ensures
            s@ == label_spec(self),
    {
        match self {
            RunTrigger::Launch => "登录启动",
            RunTrigger::Resume => "系统唤醒",
            RunTrigger::ScreenResume => "屏幕恢复",
            RunTrigger::SessionActive => "会话恢复",
            RunTrigger::Manual => "手动检测",
        }
    }
}

/// `std::time::Instant`, carried as an opaque clock origin.
#[verifier::external_type_specification]
#[verifier::external_body]
pub struct ExInstant(Instant);

/// Calls `Instant::now`. Nothing is claimed of the reading.
#[verifier::external_body]
fn instant_now() -> Instant {
    Instant::now()
}

/// Calls `Instant::elapsed`. Nothing is claimed of the reading.
#[verifier::external_body]
fn elapsed_since(origin: &Instant) -> Duration {
    origin.elapsed()
}

/// The whole number of nanoseconds in `d`, as `Duration::as_nanos` counts them.
pub uninterp spec fn nanos_of(d: Duration) -> nat;

/// Calls `Duration::as_nanos`. Claimed: the count is the named nanoseconds of `d`.
#[verifier::external_body]
fn duration_nanos(d: &Duration) -> (n: u128)
    ensures
        n as nat == nanos_of(*d),
{
    d.as_nanos()
}

/// The abstract state of a coordinator: whether a run is active, when the last automatic
/// trigger was admitted and the cooldown (both in nanoseconds of its own clock).
pub struct CoordinatorState {
    pub running: bool,
    pub last_automatic: Option<nat>,
    pub cooldown: nat,
}

/// Time from `previous` to `now`, zero if the clock reads earlier.
pub open spec fn elapsed_nanos(now: nat, previous: nat) -> nat {
    if now >= previous {
        (now - previous) as nat
    } else {
        0
    }
}

/// Whether an automatic trigger at `now` falls within the cooldown.
pub open spec fn in_cooldown(s: CoordinatorState, now: nat) -> bool {
    match s.last_automatic {
        Some(previous) => elapsed_nanos(now, previous) < s.cooldown,
        None => false,
    }
}

/// Whether a trigger at `now` is dropped before the run check.
pub open spec fn suppressed(s: CoordinatorState, t: RunTrigger, now: nat) -> bool {
    is_automatic_spec(t) && in_cooldown(s, now)
}

/// The state after a trigger at `now` passed the cooldown check: an automatic trigger
/// is recorded, and a run starts unless one is active.
pub open spec fn after_admission(s: CoordinatorState, t: RunTrigger, now: nat) -> CoordinatorState {
    CoordinatorState {
        running: true,
        last_automatic: if is_automatic_spec(t) {
            Some(now)
        } else {
            s.last_automatic
        },
        cooldown: s.cooldown,
    }
}

/// Whether a trigger at `now` starts a run: it is not dropped by the cooldown and no run
/// is active.
pub open spec fn admits(s: CoordinatorState, t: RunTrigger, now: nat) -> bool {
    !suppressed(s, t, now) && !s.running
}

/// The state after a trigger at `now`.
pub open spec fn next_state(s: CoordinatorState, t: RunTrigger, now: nat) -> CoordinatorState {
    if suppressed(s, t, now) {
        s
    } else {
        after_admission(s, t, now)
    }
}

/// The state after the active run ended: nothing else changes.
pub open spec fn finished_state(s: CoordinatorState) -> CoordinatorState {
    CoordinatorState { running: false, ..s }
}

/// Proof that a run was admitted; hand it back with [`WorkflowCoordinator::finish`].
pub struct RunGuard {
    started_at: u128,
}

/// Serialises workflow runs.
pub struct WorkflowCoordinator {
    running: bool,
    last_automatic: Option<u128>,
    cooldown: u128,
    origin: Instant,
}

impl View for WorkflowCoordinator {
    type V = CoordinatorState;

    closed spec fn view(&self) -> CoordinatorState {
        CoordinatorState {
            running: self.running,
            last_automatic: match self.last_automatic {
                Some(t) => Some(t as nat),
                None => None,
            },
            cooldown: self.cooldown as nat,
        }
    }
}

impl WorkflowCoordinator {
    /// A coordinator with no active run and no recorded trigger, using `cooldown`
    /// between automatic runs.
    pub fn new(cooldown: Duration) -> (c: Self)
        ensures
            !c@.running,
            c@.last_automatic is None,
            c@.cooldown == nanos_of(cooldown),
    {
        WorkflowCoordinator {
            running: false,
            last_automatic: None,
            cooldown: duration_nanos(&cooldown),
            origin: instant_now(),
        }
    }

    /// Decides a trigger arriving at `now` (nanoseconds of this coordinator's clock).
    /// An automatic trigger within the cooldown of the last admitted automatic trigger is
    /// dropped and changes nothing. Otherwise an automatic trigger is recorded as the last
    /// one, and a run is admitted if and only if none is active.
    pub fn begin_at(&mut self, trigger: RunTrigger, now: u128) -> (guard: Option<RunGuard>)
        ensures
            guard is Some <==> admits(old(self)@, trigger, now as nat),
            final(self)@ == next_state(old(self)@, trigger, now as nat),
    {
        if trigger.is_automatic() {
            if let Some(previous) = self.last_automatic {
                let elapsed = if now >= previous {
                    now - previous
                } else {
                    0
                };
                if elapsed < self.cooldown {
                    return None;
                }
            }
            self.last_automatic = Some(now);
        }
        if self.running {
            None
        } else {
            self.running = true;
            Some(RunGuard { started_at: now })
        }
    }

    /// Decides a trigger arriving now: the rule of [`Self::begin_at`] at the reading of
    /// this coordinator's clock (nanoseconds since it was made), whatever that reading is.
    /// In particular a manual trigger is admitted exactly when no run is active, and no
    /// trigger is admitted while a run is active.
    pub fn try_begin(&mut self, trigger: RunTrigger) -> (guard: Option<RunGuard>)
        ensures
            guard is Some ==> !old(self)@.running && final(self)@.running,
            old(self)@.running ==> guard is None && final(self)@.running,
            !is_automatic_spec(trigger) ==> (guard is Some <==> !old(self)@.running),
            final(self)@.cooldown == old(self)@.cooldown,
            exists|now: nat|
                final(self)@ == next_state(old(self)@, trigger, now) && (guard is Some <==> admits(
                    old(self)@,
                    trigger,
                    now,
                )),
    {
        let now = duration_nanos(&elapsed_since(&self.origin));
        self.begin_at(trigger, now)
    }

    /// Ends the run that `guard` admitted.
    pub fn finish(&mut self, guard: RunGuard)
        ensures
            !final(self)@.running,
            final(self)@.last_automatic == old(self)@.last_automatic,
            final(self)@.cooldown == old(self)@.cooldown,
            final(self)@ == finished_state(old(self)@),
    {
        let _ = guard.started_at;
        self.running = false;
    }

    /// Whether a run is active.
    pub fn is_running(&self) -> (b: bool)
        ensures
            b == self@.running,
    {
        self.running
    }
}

impl Default for WorkflowCoordinator {
    /// A coordinator with a 20-second cooldown.
    fn default() -> (c: Self)
        ensures
            !c@.running,
            c@.last_automatic is None,
            c@.cooldown == 20_000_000_000,
    {
        WorkflowCoordinator {
            running: false,
            last_automatic: None,
            cooldown: 20_000_000_000,
            origin: instant_now(),
        }
    }
}

// ----- Laws -----
/// While a run is active no trigger starts another, whatever its kind and time; in
/// particular, once a trigger started a run, no later trigger does until the run finishes.
pub proof fn lemma_one_run_at_a_time(s: CoordinatorState, t1: RunTrigger, n1: nat, t2: RunTrigger, n2: nat)
    requires
        admits(s, t1, n1),
    ensures
        next_state(s, t1, n1).running,
        !admits(next_state(s, t1, n1), t2, n2),
        next_state(next_state(s, t1, n1), t2, n2).running,
{
}

/// A manual trigger is never dropped by the cooldown: it starts a run exactly when none is
/// active, and it leaves the recorded automatic trigger as it was.
pub proof fn lemma_manual_ignores_cooldown(s: CoordinatorState, now: nat)
    ensures
        !suppressed(s, RunTrigger::Manual, now),
        admits(s, RunTrigger::Manual, now) <==> !s.running,
        next_state(s, RunTrigger::Manual, now).last_automatic == s.last_automatic,
{
}

/// Automatic triggers are deduplicated: after an automatic trigger at `n1` passed the
/// cooldown check, any automatic trigger before `n1 + cooldown` is dropped, whether or not
/// the run in between has finished.
pub proof fn lemma_automatic_triggers_deduplicated(
    s: CoordinatorState,
    t1: RunTrigger,
    n1: nat,
    t2: RunTrigger,
    n2: nat,
    running: bool,
)
    requires
        is_automatic_spec(t1),
        is_automatic_spec(t2),
        !suppressed(s, t1, n1),
        n1 <= n2 < n1 + s.cooldown,
    ensures
        suppressed(CoordinatorState { running, ..next_state(s, t1, n1) }, t2, n2),
{
}

/// With no cooldown, automatic triggers are never dropped.
pub proof fn lemma_zero_cooldown_never_suppresses(s: CoordinatorState, t: RunTrigger, now: nat)
    requires
        s.cooldown == 0,
    ensures
        !suppressed(s, t, now),
{
}

/// One operation on a coordinator: a trigger arriving at a clock reading, or handing back
/// the guard of the active run.
pub enum CoordinatorOp {
    Trigger { trigger: RunTrigger, now: nat },
    Finish,
}

/// The state after `ops`, starting from `s` with `live` guards handed out and not handed
/// back, together with the number of such guards afterwards.
pub open spec fn replay(s: CoordinatorState, live: nat, ops: Seq<CoordinatorOp>) -> (CoordinatorState, nat)
    decreases ops.len(),
{
    if ops.len() == 0 {
        (s, live)
    } else {
        match ops[0] {
            CoordinatorOp::Trigger { trigger, now } => replay(
                next_state(s, trigger, now),
                if admits(s, trigger, now) {
                    live + 1
                } else {
                    live
                },
                ops.drop_first(),
            ),
            CoordinatorOp::Finish => replay(finished_state(s), (live - 1) as nat, ops.drop_first()),
        }
    }
}

/// Every `Finish` in `ops` hands back a guard that is still out.
pub open spec fn finishes_hand_back_guards(s: CoordinatorState, live: nat, ops: Seq<CoordinatorOp>) -> bool
    decreases ops.len(),
{
    if ops.len() == 0 {
        true
    } else {
        match ops[0] {
            CoordinatorOp::Trigger { trigger, now } => finishes_hand_back_guards(
                next_state(s, trigger, now),
                if admits(s, trigger, now) {
                    live + 1
                } else {
                    live
                },
                ops.drop_first(),
            ),
            CoordinatorOp::Finish => live > 0 && finishes_hand_back_guards(
                finished_state(s),
                (live - 1) as nat,
                ops.drop_first(),
            ),
        }
    }
}

/// A coordinator reports a run as active exactly while a guard it handed out has not been
/// handed back, and at most one guard is ever out: from a state that agrees with the
/// guards out (in particular a new coordinator, with none), every sequence of triggers and
/// hand-backs of guards that are out keeps that agreement.
pub proof fn lemma_running_iff_guard_out(s: CoordinatorState, live: nat, ops: Seq<CoordinatorOp>)
    requires
        live == (if s.running { 1nat } else { 0nat }),
        finishes_hand_back_guards(s, live, ops),
    ensures
        replay(s, live, ops).1 <= 1,
        replay(s, live, ops).0.running <==> replay(s, live, ops).1 == 1,
    decreases ops.len(),
{
    if ops.len() > 0 {
        match ops[0] {
            CoordinatorOp::Trigger { trigger, now } => {
                let l1 = if admits(s, trigger, now) {
                    live + 1
                } else {
                    live
                };
                lemma_running_iff_guard_out(next_state(s, trigger, now), l1, ops.drop_first());
            },
            CoordinatorOp::Finish => {
                lemma_running_iff_guard_out(finished_state(s), (live - 1) as nat, ops.drop_first());
            },
        }
    }
}

} // verus!
