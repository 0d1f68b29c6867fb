//! The decisions of the shell's supervise loop: when an exited service is restarted, when
//! its restarts are exhausted, when a stable run clears its count of restarts, and what
//! each cycle and the whole run report.
use vstd::prelude::*;

use crate::json::{push_all, push_text};
use crate::json_doc::{json_quoted, quote};
use crate::shell::ServiceStartPlan;
use crate::text::{decimal, owned, string_of, u64_text};

verus! {

/// The restart settings of the loop, used where a plan names none, and its failure flags.
#[derive(Debug, Clone, Copy, PartialEq, Eq, Structural)]
pub struct RestartDefaults {
    pub restart_exited: bool,
    pub max_attempts: u32,
    pub backoff_ms: u64,
    pub reset_after_ms: u64,
    pub fail_on_start_error: bool,
    pub fail_on_exhausted_restart: bool,
}

/// The restart settings that hold for one service.
#[derive(Debug, Clone, Copy, PartialEq, Eq, Structural)]
pub struct RestartPolicy {
    pub restart_on_exit: bool,
    pub max_attempts: u32,
    pub backoff_ms: u64,
    pub reset_after_ms: u64,
}

/// A plan's settings, each falling back to the loop's default.
pub fn policy_for(plan: &ServiceStartPlan, defaults: &RestartDefaults) -> (p: RestartPolicy)
    ensures
        p.restart_on_exit == plan.restart_on_exit,
        p.max_attempts == match plan.restart_max_attempts {
            Some(n) => n,
            None => defaults.max_attempts,
        },
        p.backoff_ms == match plan.restart_backoff_ms {
            Some(n) => n,
            None => defaults.backoff_ms,
        },
        p.reset_after_ms == match plan.restart_reset_after_ms {
            Some(n) => n,
            None => defaults.reset_after_ms,
        },
{
    RestartPolicy {
        restart_on_exit: plan.restart_on_exit,
        max_attempts: match plan.restart_max_attempts {
            Some(n) => n,
            None => defaults.max_attempts,
        },
        backoff_ms: match plan.restart_backoff_ms {
            Some(n) => n,
            None => defaults.backoff_ms,
        },
        reset_after_ms: match plan.restart_reset_after_ms {
            Some(n) => n,
            None => defaults.reset_after_ms,
        },
    }
}

/// What the loop does for a service after polling it.
#[derive(Debug, Clone, Copy, PartialEq, Eq, Structural)]
pub enum ServiceAction {
    /// Leave it as it is.
    Keep,
    /// Wait `backoff_ms` (where it is not zero) and start it again; then report with
    /// `record_restart`.
    Restart { backoff_ms: u64 },
}

/// The counts of one cycle, or of the whole run.
#[derive(Debug, Clone, Copy, PartialEq, Eq, Structural)]
pub struct CycleCounts {
    pub running: u64,
    pub exited: u64,
    pub restarted: u64,
    pub restart_exhausted: u64,
    pub restart_failed: u64,
    pub restart_reset: u64,
}

/// No counts yet.
pub open spec fn zero_counts() -> CycleCounts {
    CycleCounts { running: 0, exited: 0, restarted: 0, restart_exhausted: 0, restart_failed: 0, restart_reset: 0 }
}

/// `a + b`, capped at `u64::MAX`.
pub open spec fn sat(a: u64, b: u64) -> u64 {
    if a + b > u64::MAX {
        u64::MAX
    } else {
        (a + b) as u64
    }
}

/// The counts of `total` with those of `c` added, each capped at `u64::MAX`.
pub open spec fn added(total: CycleCounts, c: CycleCounts) -> CycleCounts {
    CycleCounts {
        running: sat(total.running, c.running),
        exited: sat(total.exited, c.exited),
        restarted: sat(total.restarted, c.restarted),
        restart_exhausted: sat(total.restart_exhausted, c.restart_exhausted),
        restart_failed: sat(total.restart_failed, c.restart_failed),
        restart_reset: sat(total.restart_reset, c.restart_reset),
    }
}

/// What one poll leads to: a running service with restarts on record has its count cleared
/// once it has run `reset_after_ms` (where that is set); an exited service that may be
/// restarted is restarted, unless it has used up `max_attempts` (where that is set).
pub enum PollOutcome {
    Running { reset: bool },
    ExitedKept,
    Exhausted,
    Restart,
}

/// The outcome of polling a service with `attempts` restarts on record.
pub open spec fn poll_outcome(policy: RestartPolicy, restart_exited: bool, attempts: u32, exited: bool, stable_for_ms: u64) -> PollOutcome {
    if !exited {
        PollOutcome::Running {
            reset: policy.reset_after_ms > 0 && attempts > 0 && stable_for_ms >= policy.reset_after_ms,
        }
    } else if !(restart_exited && policy.restart_on_exit) {
        PollOutcome::ExitedKept
    } else if policy.max_attempts > 0 && attempts >= policy.max_attempts {
        PollOutcome::Exhausted
    } else {
        PollOutcome::Restart
    }
}

/// The loop goes on after cycle `cycle` of a run of `cycles` cycles (zero for no end).
pub open spec fn goes_on(cycles: u64, cycle: u64) -> bool {
    !(cycles > 0 && cycle >= cycles)
}

/// Some exhausted restart is on record, in the finished cycles or the running one.
pub open spec fn exhausted_seen(s: Supervisor) -> bool {
    s.spec_totals().restart_exhausted > 0 || s.spec_current().restart_exhausted > 0
}

/// The failures the run has seen are those on its record: a start error where a service
/// could not be started at first and the run fails on that, an exhausted restart where one
/// is counted and the run fails on that.
pub open spec fn run_record(s: Supervisor) -> bool {
    &&& s.spec_saw_start_error() == (s.spec_defaults().fail_on_start_error && s.spec_startup_errors() > 0)
    &&& s.spec_saw_restart_exhausted() == (s.spec_defaults().fail_on_exhausted_restart && exhausted_seen(s))
}

/// Between cycles: what the running cycle counted of exhausted restarts is in the totals.
pub open spec fn between_cycles(s: Supervisor) -> bool {
    s.spec_current().restart_exhausted > 0 ==> s.spec_totals().restart_exhausted > 0
}

/// The supervise loop's record: restarts per service, the counts of the running cycle, the
/// totals of the finished cycles, start errors, and the failures seen.
#[derive(Debug)]
pub struct Supervisor {
    defaults: RestartDefaults,
    cycles: u64,
    attempts: Vec<u32>,
    cycle: u64,
    current: CycleCounts,
    totals: CycleCounts,
    startup_errors: u64,
    saw_start_error: bool,
    saw_restart_exhausted: bool,
}

impl Supervisor {
    pub closed spec fn spec_defaults(&self) -> RestartDefaults {
        self.defaults
    }

    /// How many cycles the loop runs; zero for no end.
    pub closed spec fn spec_cycles(&self) -> u64 {
        self.cycles
    }

    /// The restarts on record, per service.
    pub closed spec fn spec_attempts(&self) -> Seq<u32> {
        self.attempts@
    }

    /// The number of the running cycle; zero before the first.
    pub closed spec fn spec_cycle(&self) -> u64 {
        self.cycle
    }

    pub closed spec fn spec_current(&self) -> CycleCounts {
        self.current
    }

    pub closed spec fn spec_totals(&self) -> CycleCounts {
        self.totals
    }

    pub closed spec fn spec_startup_errors(&self) -> u64 {
        self.startup_errors
    }

    pub closed spec fn spec_saw_start_error(&self) -> bool {
        self.saw_start_error
    }

    pub closed spec fn spec_saw_restart_exhausted(&self) -> bool {
        self.saw_restart_exhausted
    }

    /// A loop over `services` services, none restarted yet, that runs `cycles` cycles.
    pub fn new(defaults: RestartDefaults, cycles: u64, services: usize) -> (s: Supervisor)
        ensures
            s.spec_defaults() == defaults,
            s.spec_cycles() == cycles,
            s.spec_attempts() == Seq::new(services as nat, |i: int| 0u32),
            s.spec_cycle() == 0,
            s.spec_current() == zero_counts(),
            s.spec_totals() == zero_counts(),
            s.spec_startup_errors() == 0,
            !s.spec_saw_start_error(),
            !s.spec_saw_restart_exhausted(),
            run_record(s),
            between_cycles(s),
    {
        let mut attempts: Vec<u32> = Vec::new();
        let mut i: usize = 0;
        while i < services
            invariant
                i <= services,
                attempts@ == Seq::new(i as nat, |j: int| 0u32),
            decreases services - i,
        {
            attempts.push(0);
            assert(attempts@ =~= Seq::new((i + 1) as nat, |j: int| 0u32));
            i = i + 1;
        }
        Supervisor {
            defaults,
            cycles,
            attempts,
            cycle: 0,
            current: CycleCounts { running: 0, exited: 0, restarted: 0, restart_exhausted: 0, restart_failed: 0, restart_reset: 0 },
            totals: CycleCounts { running: 0, exited: 0, restarted: 0, restart_exhausted: 0, restart_failed: 0, restart_reset: 0 },
            startup_errors: 0,
            saw_start_error: false,
            saw_restart_exhausted: false,
        }
    }

    /// Records a service that could not be started at first.
    pub fn record_start_error(&mut self)
        ensures
            final(self).spec_startup_errors() == sat(old(self).spec_startup_errors(), 1),
            final(self).spec_saw_start_error() == (old(self).spec_saw_start_error()
                || old(self).spec_defaults().fail_on_start_error),
            final(self).spec_attempts() == old(self).spec_attempts(),
            final(self).spec_defaults() == old(self).spec_defaults(),
            final(self).spec_cycles() == old(self).spec_cycles(),
            final(self).spec_cycle() == old(self).spec_cycle(),
            final(self).spec_current() == old(self).spec_current(),
            final(self).spec_totals() == old(self).spec_totals(),
            final(self).spec_saw_restart_exhausted() == old(self).spec_saw_restart_exhausted(),
            run_record(*old(self)) ==> run_record(*final(self)),
            between_cycles(*old(self)) ==> between_cycles(*final(self)),
    {
        self.startup_errors = self.startup_errors.saturating_add(1);
        if self.defaults.fail_on_start_error {
            self.saw_start_error = true;
        }
    }

    /// Begins the next cycle.
    pub fn begin_cycle(&mut self)
        ensures
            final(self).spec_cycle() == sat(old(self).spec_cycle(), 1),
            final(self).spec_current() == zero_counts(),
            final(self).spec_attempts() == old(self).spec_attempts(),
            final(self).spec_defaults() == old(self).spec_defaults(),
            final(self).spec_cycles() == old(self).spec_cycles(),
            final(self).spec_totals() == old(self).spec_totals(),
            final(self).spec_startup_errors() == old(self).spec_startup_errors(),
            final(self).spec_saw_start_error() == old(self).spec_saw_start_error(),
            final(self).spec_saw_restart_exhausted() == old(self).spec_saw_restart_exhausted(),
            run_record(*old(self)) && between_cycles(*old(self)) ==> run_record(*final(self)),
            between_cycles(*final(self)),
    {
        self.cycle = self.cycle.saturating_add(1);
        self.current = CycleCounts { running: 0, exited: 0, restarted: 0, restart_exhausted: 0, restart_failed: 0, restart_reset: 0 };
    }

    /// Takes in the poll of service `i`, which has run `stable_for_ms` since it was last
    /// started, and says what to do with it.
    pub fn observe(&mut self, i: usize, policy: &RestartPolicy, exited: bool, stable_for_ms: u64) -> (action: ServiceAction)
        requires
            i < old(self).spec_attempts().len(),
        ensures
            ({
                let a = old(self).spec_attempts()[i as int];
                let c = old(self).spec_current();
                let c2 = final(self).spec_current();
                match poll_outcome(*policy, old(self).spec_defaults().restart_exited, a, exited, stable_for_ms) {
                    PollOutcome::Running { reset } => {
                        &&& action == ServiceAction::Keep
                        &&& final(self).spec_attempts() == if reset {
                            old(self).spec_attempts().update(i as int, 0)
                        } else {
                            old(self).spec_attempts()
                        }
                        &&& c2 == CycleCounts {
                            running: sat(c.running, 1),
                            restart_reset: if reset {
                                sat(c.restart_reset, 1)
                            } else {
                                c.restart_reset
                            },
                            ..c
                        }
                        &&& final(self).spec_saw_restart_exhausted() == old(self).spec_saw_restart_exhausted()
                    },
                    PollOutcome::ExitedKept => {
                        &&& action == ServiceAction::Keep
                        &&& final(self).spec_attempts() == old(self).spec_attempts()
                        &&& c2 == CycleCounts { exited: sat(c.exited, 1), ..c }
                        &&& final(self).spec_saw_restart_exhausted() == old(self).spec_saw_restart_exhausted()
                    },
                    PollOutcome::Exhausted => {
                        &&& action == ServiceAction::Keep
                        &&& final(self).spec_attempts() == old(self).spec_attempts()
                        &&& c2 == CycleCounts {
                            exited: sat(c.exited, 1),
                            restart_exhausted: sat(c.restart_exhausted, 1),
                            ..c
                        }
                        &&& final(self).spec_saw_restart_exhausted() == (old(self).spec_saw_restart_exhausted()
                            || old(self).spec_defaults().fail_on_exhausted_restart)
                    },
                    PollOutcome::Restart => {
                        &&& action == ServiceAction::Restart { backoff_ms: policy.backoff_ms }
                        &&& final(self).spec_attempts() == old(self).spec_attempts()
                        &&& c2 == CycleCounts { exited: sat(c.exited, 1), ..c }
                        &&& final(self).spec_saw_restart_exhausted() == old(self).spec_saw_restart_exhausted()
                    },
                }
            }),
            final(self).spec_defaults() == old(self).spec_defaults(),
            final(self).spec_cycles() == old(self).spec_cycles(),
            final(self).spec_cycle() == old(self).spec_cycle(),
            final(self).spec_totals() == old(self).spec_totals(),
            final(self).spec_startup_errors() == old(self).spec_startup_errors(),
            final(self).spec_saw_start_error() == old(self).spec_saw_start_error(),
            run_record(*old(self)) ==> run_record(*final(self)),
    {
        let attempts = self.attempts[i];
        if !exited {
            self.current.running = self.current.running.saturating_add(1);
            if policy.reset_after_ms > 0 && attempts > 0 && stable_for_ms >= policy.reset_after_ms {
                self.attempts.set(i, 0);
                self.current.restart_reset = self.current.restart_reset.saturating_add(1);
            }
            return ServiceAction::Keep;
        }
        self.current.exited = self.current.exited.saturating_add(1);
        if !(self.defaults.restart_exited && policy.restart_on_exit) {
            return ServiceAction::Keep;
        }
        if policy.max_attempts > 0 && attempts >= policy.max_attempts {
            self.current.restart_exhausted = self.current.restart_exhausted.saturating_add(1);
            if self.defaults.fail_on_exhausted_restart {
                self.saw_restart_exhausted = true;
            }
            return ServiceAction::Keep;
        }
        ServiceAction::Restart { backoff_ms: policy.backoff_ms }
    }

    /// Records a restart of service `i`: it counts as an attempt whether or not the service
    /// started.
    pub fn record_restart(&mut self, i: usize, started: bool)
        requires
            i < old(self).spec_attempts().len(),
        ensures
            final(self).spec_attempts() == old(self).spec_attempts().update(
                i as int,
                if old(self).spec_attempts()[i as int] == u32::MAX {
                    u32::MAX
                } else {
                    (old(self).spec_attempts()[i as int] + 1) as u32
                },
            ),
            final(self).spec_current() == if started {
                CycleCounts { restarted: sat(old(self).spec_current().restarted, 1), ..old(self).spec_current() }
            } else {
                CycleCounts { restart_failed: sat(old(self).spec_current().restart_failed, 1), ..old(self).spec_current() }
            },
            final(self).spec_defaults() == old(self).spec_defaults(),
            final(self).spec_cycles() == old(self).spec_cycles(),
            final(self).spec_cycle() == old(self).spec_cycle(),
            final(self).spec_totals() == old(self).spec_totals(),
            final(self).spec_startup_errors() == old(self).spec_startup_errors(),
            final(self).spec_saw_start_error() == old(self).spec_saw_start_error(),
            final(self).spec_saw_restart_exhausted() == old(self).spec_saw_restart_exhausted(),
            run_record(*old(self)) ==> run_record(*final(self)),
            between_cycles(*old(self)) ==> between_cycles(*final(self)),
    {
        let a = self.attempts[i];
        self.attempts.set(i, a.saturating_add(1));
        if started {
            self.current.restarted = self.current.restarted.saturating_add(1);
        } else {
            self.current.restart_failed = self.current.restart_failed.saturating_add(1);
        }
    }

    /// Ends the running cycle: its counts join the totals; tells whether the loop goes on
    /// (it stops once it has run the cycles it was asked for, where that is not zero).
    pub fn end_cycle(&mut self) -> (go_on: bool)
        ensures
            final(self).spec_totals() == added(old(self).spec_totals(), old(self).spec_current()),
            go_on == goes_on(old(self).spec_cycles(), old(self).spec_cycle()),
            final(self).spec_current() == old(self).spec_current(),
            final(self).spec_attempts() == old(self).spec_attempts(),
            final(self).spec_defaults() == old(self).spec_defaults(),
            final(self).spec_cycles() == old(self).spec_cycles(),
            final(self).spec_cycle() == old(self).spec_cycle(),
            final(self).spec_startup_errors() == old(self).spec_startup_errors(),
            final(self).spec_saw_start_error() == old(self).spec_saw_start_error(),
            final(self).spec_saw_restart_exhausted() == old(self).spec_saw_restart_exhausted(),
            run_record(*old(self)) ==> run_record(*final(self)),
            between_cycles(*final(self)),
    {
        let c = self.current;
        let t = self.totals;
        self.totals = CycleCounts {
            running: t.running.saturating_add(c.running),
            exited: t.exited.saturating_add(c.exited),
            restarted: t.restarted.saturating_add(c.restarted),
            restart_exhausted: t.restart_exhausted.saturating_add(c.restart_exhausted),
            restart_failed: t.restart_failed.saturating_add(c.restart_failed),
            restart_reset: t.restart_reset.saturating_add(c.restart_reset),
        };
        !(self.cycles > 0 && self.cycle >= self.cycles)
    }

    /// The counts of the running cycle.
    pub fn current(&self) -> (c: CycleCounts)
        ensures
            c == self.spec_current(),
    {
        self.current
    }

    /// The counts of the finished cycles.
    pub fn totals(&self) -> (c: CycleCounts)
        ensures
            c == self.spec_totals(),
    {
        self.totals
    }

    /// The number of the running cycle.
    pub fn cycle(&self) -> (c: u64)
        ensures
            c == self.spec_cycle(),
    {
        self.cycle
    }

    /// The restarts on record for service `i`.
    pub fn attempts(&self, i: usize) -> (n: u32)
        requires
            i < self.spec_attempts().len(),
        ensures
            n == self.spec_attempts()[i as int],
    {
        self.attempts[i]
    }

    /// How many services could not be started at first.
    pub fn startup_errors(&self) -> (n: u64)
        ensures
            n == self.spec_startup_errors(),
    {
        self.startup_errors
    }

    /// How the run ends: an error where a start error or an exhausted restart was seen and
    /// the loop was asked to fail on it.
    pub fn outcome(&self) -> (r: Result<(), String>)
        ensures
            match r {
                Ok(()) => !(self.spec_defaults().fail_on_start_error && self.spec_saw_start_error()) && !(
                self.spec_defaults().fail_on_exhausted_restart && self.spec_saw_restart_exhausted()),
                Err(e) => if self.spec_defaults().fail_on_start_error && self.spec_saw_start_error() {
                    e@ == "start error detected in supervise-loop"@
                } else {
                    self.spec_defaults().fail_on_exhausted_restart && self.spec_saw_restart_exhausted() && e@
                        == "restart attempts exhausted in supervise-loop"@
                },
            },
    {
        if self.defaults.fail_on_start_error && self.saw_start_error {
            return Err(owned("start error detected in supervise-loop"));
        }
        if self.defaults.fail_on_exhausted_restart && self.saw_restart_exhausted {
            return Err(owned("restart attempts exhausted in supervise-loop"));
        }
        Ok(())
    }
}

/// A run with a number of cycles lasts exactly that many: the loop goes on after each
/// earlier cycle and stops after that one; a run of zero cycles has no end.
pub proof fn a_run_lasts_its_cycles(cycles: u64, cycle: u64)
    ensures
        cycles == 0 ==> goes_on(cycles, cycle),
        cycles > 0 && cycle < cycles ==> goes_on(cycles, cycle),
        cycles > 0 && cycle == cycles ==> !goes_on(cycles, cycle),
{
}

/// A run ends in the start error exactly where it fails on start errors and a service
/// could not be started at first; otherwise in the exhausted-restart error exactly where it
/// fails on those and an exhausted restart was counted; otherwise well.
pub proof fn a_run_ends_as_its_record_says(s: Supervisor)
    requires
        run_record(s),
    ensures
        (s.spec_defaults().fail_on_start_error && s.spec_saw_start_error()) == (s.spec_defaults().fail_on_start_error
            && s.spec_startup_errors() > 0),
        (s.spec_defaults().fail_on_exhausted_restart && s.spec_saw_restart_exhausted()) == (
        s.spec_defaults().fail_on_exhausted_restart && exhausted_seen(s)),
{
}

/// An exited service is restarted, or found out of restarts, only where the loop restarts
/// exited services and its own plan asks for restarts on exit; otherwise it is left
/// exited, its restarts untouched.
pub proof fn restarts_need_both_the_loop_and_the_plan(
    policy: RestartPolicy,
    restart_exited: bool,
    attempts: u32,
    stable_for_ms: u64,
)
    ensures
        (poll_outcome(policy, restart_exited, attempts, true, stable_for_ms) is Restart || poll_outcome(
            policy,
            restart_exited,
            attempts,
            true,
            stable_for_ms,
        ) is Exhausted) ==> restart_exited && policy.restart_on_exit,
        !(restart_exited && policy.restart_on_exit) ==> poll_outcome(policy, restart_exited, attempts, true, stable_for_ms)
            is ExitedKept,
        restart_exited && policy.restart_on_exit && policy.max_attempts == 0 ==> poll_outcome(
            policy,
            restart_exited,
            attempts,
            true,
            stable_for_ms,
        ) is Restart,
{
}

/// A service is restarted only while it has restarts left: where a maximum is set, a
/// restart is granted only below it, so the count of attempts never passes the maximum.
pub proof fn restarts_stay_within_the_maximum(
    policy: RestartPolicy,
    restart_exited: bool,
    attempts: u32,
    stable_for_ms: u64,
)
    requires
        poll_outcome(policy, restart_exited, attempts, true, stable_for_ms) is Restart,
    ensures
        policy.max_attempts > 0 ==> attempts + 1 <= policy.max_attempts,
{
}

/// A service whose restarts are used up is never restarted again until a stable run
/// clears its count; a running service is never restarted; and a stable run clears the
/// count exactly when it has lasted the reset period.
pub proof fn exhaustion_and_reset(policy: RestartPolicy, restart_exited: bool, attempts: u32, exited: bool, stable_for_ms: u64)
    ensures
        (exited && restart_exited && policy.restart_on_exit && policy.max_attempts > 0 && attempts
            >= policy.max_attempts) ==> poll_outcome(policy, restart_exited, attempts, exited, stable_for_ms) is Exhausted,
        !exited ==> poll_outcome(policy, restart_exited, attempts, exited, stable_for_ms) is Running,
        !exited ==> (poll_outcome(policy, restart_exited, attempts, exited, stable_for_ms) matches PollOutcome::Running {
            reset,
        } && reset == (policy.reset_after_ms > 0 && attempts > 0 && stable_for_ms >= policy.reset_after_ms)),
{
}

/// The event codes of a cycle, in fixed order, or `NONE`.
pub open spec fn cycle_events(startup: u64, restarted: u64, exhausted: u64, failed: u64, reset: u64) -> Seq<char> {
    let codes = seq![
        if startup > 0 { seq!["START_ERROR"@] } else { seq![] },
        if restarted > 0 { seq!["RESTARTED"@] } else { seq![] },
        if exhausted > 0 { seq!["RESTART_EXHAUSTED"@] } else { seq![] },
        if failed > 0 { seq!["RESTART_FAILED"@] } else { seq![] },
        if reset > 0 { seq!["RESTART_RESET"@] } else { seq![] },
    ];
    let all = codes[0] + codes[1] + codes[2] + codes[3] + codes[4];
    if all.len() == 0 {
        "NONE"@
    } else {
        crate::screen::join_with(all, ","@)
    }
}

/// The event codes of a cycle: which kinds of events it saw.
pub fn format_cycle_events(
    startup_error_count: u64,
    restarted_count: u64,
    restart_exhausted_count: u64,
    restart_failed_count: u64,
    restart_reset_count: u64,
) -> (r: String)
    ensures
        r@ == cycle_events(
            startup_error_count,
            restarted_count,
            restart_exhausted_count,
            restart_failed_count,
            restart_reset_count,
        ),
{
    let mut events: Vec<String> = Vec::new();
    if startup_error_count > 0 {
        events.push(owned("START_ERROR"));
    }
    if restarted_count > 0 {
        events.push(owned("RESTARTED"));
    }
    if restart_exhausted_count > 0 {
        events.push(owned("RESTART_EXHAUSTED"));
    }
    if restart_failed_count > 0 {
        events.push(owned("RESTART_FAILED"));
    }
    if restart_reset_count > 0 {
        events.push(owned("RESTART_RESET"));
    }
    let ghost all = cycle_events(
        startup_error_count,
        restarted_count,
        restart_exhausted_count,
        restart_failed_count,
        restart_reset_count,
    );
    assert(crate::json_doc::string_views(events@) =~= {
        let codes = seq![
            if startup_error_count > 0 { seq!["START_ERROR"@] } else { seq![] },
            if restarted_count > 0 { seq!["RESTARTED"@] } else { seq![] },
            if restart_exhausted_count > 0 { seq!["RESTART_EXHAUSTED"@] } else { seq![] },
            if restart_failed_count > 0 { seq!["RESTART_FAILED"@] } else { seq![] },
            if restart_reset_count > 0 { seq!["RESTART_RESET"@] } else { seq![] },
        ];
        codes[0] + codes[1] + codes[2] + codes[3] + codes[4]
    });
    if events.len() == 0 {
        return owned("NONE");
    }
    crate::screen::join_strings(&events, ",")
}

fn push_u64(out: &mut Vec<char>, n: u64)
    ensures
        final(out)@ == old(out)@ + decimal(n as nat),
{
    let t = u64_text(n);
    push_all(out, t.as_slice());
}

/// The JSON line of a cycle summary, keys in order as `serde_json` writes its map.
pub open spec fn cycle_summary_json(cycle: u64, c: CycleCounts, startup: u64, events: Seq<char>) -> Seq<char> {
    "{\"cycle\":"@ + decimal(cycle as nat) + ",\"events\":"@ + json_quoted(events) + ",\"exited\":"@ + decimal(
        c.exited as nat,
    ) + ",\"restart_exhausted\":"@ + decimal(c.restart_exhausted as nat) + ",\"restart_failed\":"@ + decimal(
        c.restart_failed as nat,
    ) + ",\"restart_reset\":"@ + decimal(c.restart_reset as nat) + ",\"restarted\":"@ + decimal(c.restarted as nat)
        + ",\"running\":"@ + decimal(c.running as nat) + ",\"startup_errors\":"@ + decimal(startup as nat)
        + ",\"type\":\"cycle_summary\"}"@
}

/// The text line of a cycle summary.
pub open spec fn cycle_summary_line(cycle: u64, c: CycleCounts, startup: u64, events: Seq<char>) -> Seq<char> {
    "cycle="@ + decimal(cycle as nat) + " summary running="@ + decimal(c.running as nat) + " exited="@ + decimal(
        c.exited as nat,
    ) + " restarted="@ + decimal(c.restarted as nat) + " restart_exhausted="@ + decimal(c.restart_exhausted as nat)
        + " restart_failed="@ + decimal(c.restart_failed as nat) + " restart_reset="@ + decimal(c.restart_reset as nat)
        + " startup_errors="@ + decimal(startup as nat) + " events="@ + events
}

/// The JSON and text lines of a cycle summary.
pub fn cycle_summary(cycle: u64, c: &CycleCounts, startup_errors: u64) -> (r: (String, String))
    ensures
        ({
            let events = cycle_events(startup_errors, c.restarted, c.restart_exhausted, c.restart_failed, c.restart_reset);
            r.0@ == cycle_summary_json(cycle, *c, startup_errors, events) && r.1@ == cycle_summary_line(
                cycle,
                *c,
                startup_errors,
                events,
            )
        }),
{
    let events = format_cycle_events(startup_errors, c.restarted, c.restart_exhausted, c.restart_failed, c.restart_reset);
    let mut j: Vec<char> = Vec::new();
    push_text(&mut j, "{\"cycle\":");
    push_u64(&mut j, cycle);
    push_text(&mut j, ",\"events\":");
    let q = quote(events.as_str());
    push_text(&mut j, q.as_str());
    push_text(&mut j, ",\"exited\":");
    push_u64(&mut j, c.exited);
    push_text(&mut j, ",\"restart_exhausted\":");
    push_u64(&mut j, c.restart_exhausted);
    push_text(&mut j, ",\"restart_failed\":");
    push_u64(&mut j, c.restart_failed);
    push_text(&mut j, ",\"restart_reset\":");
    push_u64(&mut j, c.restart_reset);
    push_text(&mut j, ",\"restarted\":");
    push_u64(&mut j, c.restarted);
    push_text(&mut j, ",\"running\":");
    push_u64(&mut j, c.running);
    push_text(&mut j, ",\"startup_errors\":");
    push_u64(&mut j, startup_errors);
    push_text(&mut j, ",\"type\":\"cycle_summary\"}");
    let mut t: Vec<char> = Vec::new();
    push_text(&mut t, "cycle=");
    push_u64(&mut t, cycle);
    push_text(&mut t, " summary running=");
    push_u64(&mut t, c.running);
    push_text(&mut t, " exited=");
    push_u64(&mut t, c.exited);
    push_text(&mut t, " restarted=");
    push_u64(&mut t, c.restarted);
    push_text(&mut t, " restart_exhausted=");
    push_u64(&mut t, c.restart_exhausted);
    push_text(&mut t, " restart_failed=");
    push_u64(&mut t, c.restart_failed);
    push_text(&mut t, " restart_reset=");
    push_u64(&mut t, c.restart_reset);
    push_text(&mut t, " startup_errors=");
    push_u64(&mut t, startup_errors);
    push_text(&mut t, " events=");
    push_text(&mut t, events.as_str());
    (string_of(j.as_slice()), string_of(t.as_slice()))
}

fn bool_text(b: bool) -> (r: &'static str)
    ensures
        r@ == if b {
            "true"@
        } else {
            "false"@
        },
{
    if b {
        "true"
    } else {
        "false"
    }
}

/// The JSON line of the final summary, keys in order as `serde_json` writes its map.
pub open spec fn final_summary_json(cycles: u64, t: CycleCounts, startup: u64, fail_start: bool, fail_exhausted: bool, events: Seq<char>) -> Seq<char> {
    "{\"cycles\":"@ + decimal(cycles as nat) + ",\"events\":"@ + json_quoted(events) + ",\"exited_total\":"@
        + decimal(t.exited as nat) + ",\"fail_on_exhausted_restart\":"@ + (if fail_exhausted {
        "true"@
    } else {
        "false"@
    }) + ",\"fail_on_start_error\":"@ + (if fail_start {
        "true"@
    } else {
        "false"@
    }) + ",\"restart_exhausted_total\":"@ + decimal(t.restart_exhausted as nat) + ",\"restart_failed_total\":"@
        + decimal(t.restart_failed as nat) + ",\"restart_reset_total\":"@ + decimal(t.restart_reset as nat)
        + ",\"restarted_total\":"@ + decimal(t.restarted as nat) + ",\"running_total\":"@ + decimal(t.running as nat)
        + ",\"startup_errors\":"@ + decimal(startup as nat) + ",\"type\":\"final_summary\"}"@
}

/// The text line of the final summary.
pub open spec fn final_summary_line(cycles: u64, t: CycleCounts, startup: u64, fail_start: bool, fail_exhausted: bool, events: Seq<char>) -> Seq<char> {
    "final_summary cycles="@ + decimal(cycles as nat) + " running_total="@ + decimal(t.running as nat)
        + " exited_total="@ + decimal(t.exited as nat) + " restarted_total="@ + decimal(t.restarted as nat)
        + " restart_exhausted_total="@ + decimal(t.restart_exhausted as nat) + " restart_failed_total="@ + decimal(
        t.restart_failed as nat,
    ) + " restart_reset_total="@ + decimal(t.restart_reset as nat) + " startup_errors="@ + decimal(startup as nat)
        + " fail_on_start_error="@ + (if fail_start {
        "true"@
    } else {
        "false"@
    }) + " fail_on_exhausted_restart="@ + (if fail_exhausted {
        "true"@
    } else {
        "false"@
    }) + " events="@ + events
}

impl Supervisor {
    /// The JSON and text lines of the final summary.
    pub fn final_summary(&self) -> (r: (String, String))
        ensures
            ({
                let t = self.spec_totals();
                let events = cycle_events(
                    self.spec_startup_errors(),
                    t.restarted,
                    t.restart_exhausted,
                    t.restart_failed,
                    t.restart_reset,
                );
                &&& r.0@ == final_summary_json(
                    self.spec_cycle(),
                    t,
                    self.spec_startup_errors(),
                    self.spec_saw_start_error(),
                    self.spec_saw_restart_exhausted(),
                    events,
                )
                &&& r.1@ == final_summary_line(
                    self.spec_cycle(),
                    t,
                    self.spec_startup_errors(),
                    self.spec_saw_start_error(),
                    self.spec_saw_restart_exhausted(),
                    events,
                )
            }),
    {
        let t = self.totals;
        let events = format_cycle_events(self.startup_errors, t.restarted, t.restart_exhausted, t.restart_failed, t.restart_reset);
        let mut j: Vec<char> = Vec::new();
        push_text(&mut j, "{\"cycles\":");
        push_u64(&mut j, self.cycle);
        push_text(&mut j, ",\"events\":");
        let q = quote(events.as_str());
        push_text(&mut j, q.as_str());
        push_text(&mut j, ",\"exited_total\":");
        push_u64(&mut j, t.exited);
        push_text(&mut j, ",\"fail_on_exhausted_restart\":");
        push_text(&mut j, bool_text(self.saw_restart_exhausted));
        push_text(&mut j, ",\"fail_on_start_error\":");
        push_text(&mut j, bool_text(self.saw_start_error));
        push_text(&mut j, ",\"restart_exhausted_total\":");
        push_u64(&mut j, t.restart_exhausted);
        push_text(&mut j, ",\"restart_failed_total\":");
        push_u64(&mut j, t.restart_failed);
        push_text(&mut j, ",\"restart_reset_total\":");
        push_u64(&mut j, t.restart_reset);
        push_text(&mut j, ",\"restarted_total\":");
        push_u64(&mut j, t.restarted);
        push_text(&mut j, ",\"running_total\":");
        push_u64(&mut j, t.running);
        push_text(&mut j, ",\"startup_errors\":");
        push_u64(&mut j, self.startup_errors);
        push_text(&mut j, ",\"type\":\"final_summary\"}");
        let mut l: Vec<char> = Vec::new();
        push_text(&mut l, "final_summary cycles=");
        push_u64(&mut l, self.cycle);
        push_text(&mut l, " running_total=");
        push_u64(&mut l, t.running);
        push_text(&mut l, " exited_total=");
        push_u64(&mut l, t.exited);
        push_text(&mut l, " restarted_total=");
        push_u64(&mut l, t.restarted);
        push_text(&mut l, " restart_exhausted_total=");
        push_u64(&mut l, t.restart_exhausted);
        push_text(&mut l, " restart_failed_total=");
        push_u64(&mut l, t.restart_failed);
        push_text(&mut l, " restart_reset_total=");
        push_u64(&mut l, t.restart_reset);
        push_text(&mut l, " startup_errors=");
        push_u64(&mut l, self.startup_errors);
        push_text(&mut l, " fail_on_start_error=");
        push_text(&mut l, bool_text(self.saw_start_error));
        push_text(&mut l, " fail_on_exhausted_restart=");
        push_text(&mut l, bool_text(self.saw_restart_exhausted));
        push_text(&mut l, " events=");
        push_text(&mut l, events.as_str());
        (string_of(j.as_slice()), string_of(l.as_slice()))
    }
}

} // verus!
