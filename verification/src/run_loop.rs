//! The decisions of the vCPU run loop.
//!
//! The loop itself enters the guest, which only the host can do. What it does
//! with each entry's outcome, and when it ends, is decided here.
use crate::device_bus::PlatformEvent;
use crate::error::{Error, Result};
use crate::kvm_backend::{GuestExit, KvmBackend};
use crate::msr::{denies_all, no_msr_exits_text, too_many_ranges_text, MsrFilter};
use crate::msr::{FILTER_DEFAULT_ALLOW, MAX_FILTER_RANGES, MSR_EXIT_REASONS};
use crate::text::{dec, push_dec};
use vstd::prelude::*;
use vstd::string::*;

verus! {

/// The outcome of a single entry into the guest.
#[derive(Debug, Clone, Copy, PartialEq, Eq, Structural)]
pub struct RunStep {
    /// How the guest left the vCPU.
    pub exit: GuestExit,
    /// The guest's reference cycles on this entry.
    pub guest_cycles: u64,
    /// A platform event that the guest raised on this entry.
    pub event: Option<PlatformEvent>,
}

/// How a managed run ended.
#[derive(Debug, Clone, Copy, PartialEq, Eq, Structural)]
pub enum LoopOutcome {
    /// The guest halted.
    Halted,
    /// The guest went to sleep, with the sleep type; 5 means power off.
    Shutdown(u8),
    /// The bound on entries was reached first.
    Exhausted,
}

impl RunStep {
    /// The guest halted or raised a platform event.
    pub open spec fn stops(self) -> bool {
        self.exit == GuestExit::Halted || self.event is Some
    }

    /// Whether a bounded run stops here: the guest halted, or it raised a
    /// platform event that must be handled before it is entered again.
    #[must_use]
    pub fn is_stop(&self) -> (r: bool)
        ensures
            r == self.stops(),
    {
        let halted: bool = match self.exit {
            GuestExit::Halted => true,
            _ => false,
        };
        halted || self.event.is_some()
    }
}

/// Cycles at `tsc_khz` in nanoseconds, rounded down; 0 where no rate is known.
pub open spec fn ns_of(cycles: u64, tsc_khz: u32) -> int {
    if tsc_khz == 0 {
        0
    } else {
        cycles * 1_000_000 / tsc_khz as int
    }
}

/// Converts reference cycles to nanoseconds at `tsc_khz`. The low 64 bits of
/// the result; 0 where no rate is known.
#[must_use]
pub fn cycles_to_ns(cycles: u64, tsc_khz: u32) -> (r: u64)
    ensures
        r == ns_of(cycles, tsc_khz) % 0x1_0000_0000_0000_0000,
{
    if tsc_khz == 0 {
        return 0;
    }
    let product: u128 = cycles as u128 * 1_000_000;
    let ns: u128 = product / tsc_khz as u128;
    (ns % 0x1_0000_0000_0000_0000) as u64
}

/// More cycles are never less time.
pub proof fn law_time_is_monotonic(a: u64, b: u64, tsc_khz: u32)
    requires
        a <= b,
    ensures
        ns_of(a, tsc_khz) <= ns_of(b, tsc_khz),
{
    if tsc_khz != 0 {
        vstd::arithmetic::div_mod::lemma_div_is_ordered(
            a * 1_000_000,
            b * 1_000_000,
            tsc_khz as int,
        );
    }
}

// ---------------------------------------------------------------------------
// Running until something happens
// ---------------------------------------------------------------------------

/// `a + b`, or the largest number where that does not fit.
pub open spec fn capped_sum(a: u64, b: u64) -> u64 {
    if a + b > u64::MAX {
        u64::MAX
    } else {
        (a + b) as u64
    }
}

/// What a run reports before its first entry.
pub open spec fn no_step() -> RunStep {
    RunStep { exit: GuestExit::Interrupted, guest_cycles: 0, event: None }
}

/// The last step and the cycles of a run over `steps`, one for each entry that
/// the guest would be given, with at most `max_entries`: it ends at the first
/// step that stops.
pub open spec fn run_until_event(
    steps: Seq<RunStep>,
    max_entries: nat,
    last: RunStep,
    total: u64,
) -> (RunStep, u64)
    decreases max_entries,
{
    if max_entries == 0 || steps.len() == 0 {
        (last, total)
    } else {
        let step = steps[0];
        let sum = capped_sum(total, step.guest_cycles);
        if step.stops() {
            (step, sum)
        } else {
            run_until_event(steps.drop_first(), (max_entries - 1) as nat, step, sum)
        }
    }
}

/// A bounded run that ends when the guest halts or raises a platform event.
#[derive(Debug, Clone, Copy)]
pub struct EventRun {
    /// Entries that may still be made.
    pub entries_left: usize,
    /// The last step.
    pub last: RunStep,
    /// The cycles of all steps.
    pub total_cycles: u64,
}

impl EventRun {
    /// A run that has not entered the guest.
    pub fn new(max_entries: usize) -> (r: Self)
        ensures
            r.entries_left == max_entries,
            r.last == no_step(),
            r.total_cycles == 0,
    {
        EventRun {
            entries_left: max_entries,
            last: RunStep { exit: GuestExit::Interrupted, guest_cycles: 0, event: None },
            total_cycles: 0,
        }
    }

    /// Whether the guest is to be entered again.
    pub fn wants_entry(&self) -> (r: bool)
        ensures
            r == (self.entries_left > 0),
    {
        self.entries_left > 0
    }

    /// The run after one more step.
    pub open spec fn stepped(self, step: RunStep) -> EventRun {
        EventRun {
            entries_left: if step.stops() {
                0
            } else {
                (self.entries_left - 1) as usize
            },
            last: step,
            total_cycles: capped_sum(self.total_cycles, step.guest_cycles),
        }
    }

    /// Takes the outcome of an entry.
    pub fn on_step(&mut self, step: RunStep)
        requires
            old(self).entries_left > 0,
        ensures
            *final(self) == old(self).stepped(step),
    {
        self.total_cycles = self.total_cycles.saturating_add(step.guest_cycles);
        let stop: bool = step.is_stop();
        self.last = step;
        self.entries_left = if stop { 0 } else { self.entries_left - 1 };
    }
}

/// The run over `steps`, as long as it wants an entry and there is one.
pub open spec fn event_run_over(run: EventRun, steps: Seq<RunStep>) -> EventRun
    decreases steps.len(),
{
    if run.entries_left == 0 || steps.len() == 0 {
        run
    } else {
        event_run_over(run.stepped(steps[0]), steps.drop_first())
    }
}

/// Driven step by step, a run reports the first step that stops, or the last
/// one within the bound, and the sum of the cycles up to there.
pub proof fn law_event_run_reports_the_first_stop(run: EventRun, steps: Seq<RunStep>)
    ensures
        ({
            let end = event_run_over(run, steps);
            (end.last, end.total_cycles) == run_until_event(
                steps,
                run.entries_left as nat,
                run.last,
                run.total_cycles,
            )
        }),
    decreases steps.len(),
{
    if run.entries_left > 0 && steps.len() > 0 {
        law_event_run_reports_the_first_stop(run.stepped(steps[0]), steps.drop_first());
    }
}

// ---------------------------------------------------------------------------
// Managed runs
// ---------------------------------------------------------------------------

/// What a managed run does after an entry.
#[derive(Debug, Clone, Copy, PartialEq, Eq, Structural)]
pub enum AfterStep {
    /// It ends.
    Finish(LoopOutcome),
    /// It restarts the vCPU at this address and goes on.
    Restart(u64),
    /// It goes on.
    Continue,
}

/// What a managed run does after an entry: sleep ends it, a reset restarts the
/// vCPU at its reset address, and without an event a halt ends it.
pub open spec fn after_step(step: RunStep, reset_entry: u64) -> AfterStep {
    match step.event {
        Some(PlatformEvent::Sleep(slp_typ)) => AfterStep::Finish(LoopOutcome::Shutdown(slp_typ)),
        Some(PlatformEvent::Reset) => AfterStep::Restart(reset_entry),
        None => if step.exit == GuestExit::Halted {
            AfterStep::Finish(LoopOutcome::Halted)
        } else {
            AfterStep::Continue
        },
    }
}

/// How a managed run over `steps` ends, with at most `max_entries`; `None`
/// where the steps run out first.
pub open spec fn managed_outcome(steps: Seq<RunStep>, max_entries: nat) -> Option<LoopOutcome>
    decreases max_entries,
{
    if max_entries == 0 {
        Some(LoopOutcome::Exhausted)
    } else if steps.len() == 0 {
        None
    } else {
        match after_step(steps[0], 0) {
            AfterStep::Finish(outcome) => Some(outcome),
            _ => managed_outcome(steps.drop_first(), (max_entries - 1) as nat),
        }
    }
}

/// A bounded run that acts on the guest's platform events.
#[derive(Debug, Clone, Copy)]
pub struct ManagedRun {
    /// Entries that may still be made.
    pub entries_left: usize,
    /// Where a reset restarts the vCPU.
    pub reset_entry: u64,
    /// How the run ended, once it did.
    pub outcome: Option<LoopOutcome>,
}

impl ManagedRun {
    /// A run that has not entered the guest.
    pub fn new(reset_entry: u64, max_entries: usize) -> (r: Self)
        ensures
            r.entries_left == max_entries,
            r.reset_entry == reset_entry,
            r.outcome == (if max_entries == 0 {
                Some(LoopOutcome::Exhausted)
            } else {
                None
            }),
    {
        let outcome: Option<LoopOutcome> = if max_entries == 0 {
            Some(LoopOutcome::Exhausted)
        } else {
            None
        };
        ManagedRun { entries_left: max_entries, reset_entry, outcome }
    }

    /// The run after one more step.
    pub open spec fn stepped(self, step: RunStep) -> ManagedRun {
        ManagedRun {
            entries_left: (self.entries_left - 1) as usize,
            outcome: match after_step(step, self.reset_entry) {
                AfterStep::Finish(outcome) => Some(outcome),
                _ => if self.entries_left == 1 {
                    Some(LoopOutcome::Exhausted)
                } else {
                    None
                },
            },
            ..self
        }
    }

    /// Takes the outcome of an entry; what is to be done about it.
    pub fn on_step(&mut self, step: RunStep) -> (r: AfterStep)
        requires
            old(self).outcome is None,
            old(self).entries_left > 0,
        ensures
            r == after_step(step, old(self).reset_entry),
            *final(self) == old(self).stepped(step),
            final(self).outcome is None ==> final(self).entries_left > 0,
    {
        self.entries_left = self.entries_left - 1;
        let r: AfterStep = match step.event {
            Some(PlatformEvent::Sleep(slp_typ)) => AfterStep::Finish(
                LoopOutcome::Shutdown(slp_typ),
            ),
            Some(PlatformEvent::Reset) => AfterStep::Restart(self.reset_entry),
            None => match step.exit {
                GuestExit::Halted => AfterStep::Finish(LoopOutcome::Halted),
                _ => AfterStep::Continue,
            },
        };
        match r {
            AfterStep::Finish(outcome) => {
                self.outcome = Some(outcome);
            },
            _ => {
                if self.entries_left == 0 {
                    self.outcome = Some(LoopOutcome::Exhausted);
                }
            },
        }
        r
    }
}

/// The run over `steps`, as long as it has not ended and there is a step.
pub open spec fn managed_run_over(run: ManagedRun, steps: Seq<RunStep>) -> ManagedRun
    decreases steps.len(),
{
    if run.outcome is Some || steps.len() == 0 {
        run
    } else {
        managed_run_over(run.stepped(steps[0]), steps.drop_first())
    }
}

/// Driven step by step, a managed run ends as its steps say: with the first
/// sleep or halt, or exhausted at the bound.
pub proof fn law_managed_run_ends_as_its_steps_say(run: ManagedRun, steps: Seq<RunStep>)
    requires
        run.outcome is None,
        run.entries_left > 0,
    ensures
        managed_run_over(run, steps).outcome == managed_outcome(steps, run.entries_left as nat),
    decreases steps.len(),
{
    if steps.len() > 0 {
        let next = run.stepped(steps[0]);
        let finishes = after_step(steps[0], 0) is Finish;
        assert(after_step(steps[0], run.reset_entry) is Finish <==> finishes);
        if next.outcome is None {
            law_managed_run_ends_as_its_steps_say(next, steps.drop_first());
        } else if !finishes {
            assert(managed_outcome(steps.drop_first(), 0) == Some(LoopOutcome::Exhausted));
        }
    }
}

/// No run is longer than its bound: with as many steps, it has ended.
pub proof fn law_managed_run_is_bounded(steps: Seq<RunStep>, max_entries: nat)
    requires
        steps.len() >= max_entries,
    ensures
        managed_outcome(steps, max_entries) is Some,
    decreases max_entries,
{
    if max_entries > 0 {
        law_managed_run_is_bounded(steps.drop_first(), (max_entries - 1) as nat);
    }
}

// ---------------------------------------------------------------------------
// The loop's own state
// ---------------------------------------------------------------------------

/// The register that arms the deadline timer.
pub const IA32_TSC_DEADLINE: u32 = 0x6E0;

/// The state of a run loop: the machine, how many vCPUs have shadow registers,
/// which one is entered, and the rate of the time-stamp counter once known.
pub struct StealthRunLoop {
    pub backend: KvmBackend,
    pub vcpus: usize,
    pub active: usize,
    pub tsc_khz: Option<u32>,
}

/// What KVM has to be told before the first entry.
pub struct StealthSetup {
    /// The arguments that enable register exits.
    pub msr_exits: [u64; 4],
    /// The registers that exit.
    pub filter: MsrFilter,
}

/// The message for a vCPU without shadow registers.
pub open spec fn no_router_text(index: usize) -> Seq<char> {
    "no stealth router/timing for vcpu "@ + dec(index as nat)
}

impl StealthRunLoop {
    /// The invariant: the active vCPU has shadow registers.
    pub open spec fn wf(&self) -> bool {
        self.active < self.vcpus
    }

    /// A run loop for one vCPU: see [`install_smp`](Self::install_smp).
    pub fn install(backend: KvmBackend, shadow_ranges: Vec<(u32, u32)>, msr_exits_available: bool) -> (r:
        Result<(Self, StealthSetup)>)
        ensures
            installed(backend, 1, shadow_ranges@, msr_exits_available, r),
    {
        Self::install_smp(backend, shadow_ranges, msr_exits_available, 1)
    }

    /// A run loop over a machine, for `vcpu_count` vCPUs with shadow registers,
    /// and what KVM has to be told: to let the registers in `shadow_ranges`
    /// exit, and the one that arms the deadline timer.
    ///
    /// Fails where the host cannot let registers exit, and where there are more
    /// ranges than a filter holds.
    pub fn install_smp(
        backend: KvmBackend,
        shadow_ranges: Vec<(u32, u32)>,
        msr_exits_available: bool,
        vcpu_count: usize,
    ) -> (r: Result<(Self, StealthSetup)>)
        requires
            vcpu_count > 0,
        ensures
            installed(backend, vcpu_count, shadow_ranges@, msr_exits_available, r),
    {
        let mut ranges: Vec<(u32, u32)> = shadow_ranges;
        ranges.push((IA32_TSC_DEADLINE, 1));
        let msr_exits: [u64; 4] = match backend.enable_userspace_msr_exits(msr_exits_available) {
            Ok(a) => a,
            Err(e) => {
                return Err(e);
            },
        };
        let filter: MsrFilter = match backend.forward_msrs_to_userspace(ranges.as_slice()) {
            Ok(f) => f,
            Err(e) => {
                return Err(e);
            },
        };
        Ok(
            (
                StealthRunLoop { backend, vcpus: vcpu_count, active: 0, tsc_khz: None },
                StealthSetup { msr_exits, filter },
            ),
        )
    }

    /// Selects the vCPU to be entered, so that its own shadow registers answer.
    ///
    /// Fails, with the selection unchanged, where it has none.
    pub fn select_vcpu(&mut self, index: usize) -> (r: Result<()>)
        requires
            old(self).wf(),
        ensures
            final(self).wf(),
            r is Ok <==> index < old(self).vcpus,
            *final(self) == (StealthRunLoop {
                active: if index < old(self).vcpus {
                    index
                } else {
                    old(self).active
                },
                ..*old(self)
            }),
            r matches Err(e) ==> e matches Error::Vcpu(m) && m@ == no_router_text(index),
    {
        if index >= self.vcpus {
            let mut m: String = String::new();
            m.append("no stealth router/timing for vcpu ");
            push_dec(&mut m, index as u64);
            return Err(Error::Vcpu(m));
        }
        self.active = index;
        Ok(())
    }

    /// Whether the rate of the time-stamp counter has yet to be read.
    #[must_use]
    pub fn needs_tsc_khz(&self) -> (r: bool)
        ensures
            r == (self.tsc_khz is None),
    {
        self.tsc_khz.is_none()
    }

    /// The nanoseconds by which an entry advances the platform's timers. The
    /// rate is read once: `read` counts only where none is known yet.
    pub fn advance_platform_clocks(&mut self, read: u32, guest_ref_cycles: u64) -> (r: u64)
        ensures
            ({
                let khz = match old(self).tsc_khz {
                    Some(k) => k,
                    None => read,
                };
                &&& r == ns_of(guest_ref_cycles, khz) % 0x1_0000_0000_0000_0000
                &&& *final(self) == (StealthRunLoop { tsc_khz: Some(khz), ..*old(self) })
            }),
    {
        let khz: u32 = match self.tsc_khz {
            Some(k) => k,
            None => read,
        };
        self.tsc_khz = Some(khz);
        cycles_to_ns(guest_ref_cycles, khz)
    }

    /// The number of vCPUs with shadow registers.
    #[must_use]
    pub fn vcpu_count(&self) -> (r: usize)
        ensures
            r == self.vcpus,
    {
        self.vcpus
    }

    /// The machine.
    pub fn backend_mut(&mut self) -> (r: &mut KvmBackend)
        ensures
            *r == old(self).backend,
            *final(self) == (StealthRunLoop { backend: *final(r), ..*old(self) }),
    {
        &mut self.backend
    }
}

/// What KVM has to be told, for these shadow registers: to let registers exit,
/// and which, the deadline register last.
pub open spec fn is_setup(shadow_ranges: Seq<(u32, u32)>, setup: StealthSetup) -> bool {
    let ranges = shadow_ranges.push((IA32_TSC_DEADLINE, 1u32));
    &&& setup.msr_exits@ == seq![MSR_EXIT_REASONS, 0u64, 0u64, 0u64]
    &&& setup.filter.flags == FILTER_DEFAULT_ALLOW
    &&& setup.filter.ranges@.len() == ranges.len()
    &&& forall|i: int|
        0 <= i < ranges.len() ==> denies_all(#[trigger] setup.filter.ranges@[i], ranges[i])
}

/// What installing a run loop leads to.
pub open spec fn installed(
    backend: KvmBackend,
    vcpu_count: usize,
    shadow_ranges: Seq<(u32, u32)>,
    msr_exits_available: bool,
    r: Result<(StealthRunLoop, StealthSetup)>,
) -> bool {
    let ranges = shadow_ranges.push((IA32_TSC_DEADLINE, 1u32));
    if !msr_exits_available {
        r matches Err(Error::HypervisorError(m)) && m@ == no_msr_exits_text()
    } else if ranges.len() > MAX_FILTER_RANGES {
        r matches Err(Error::HypervisorError(m)) && m@ == too_many_ranges_text(ranges.len())
    } else {
        &&& r is Ok
        &&& (r->Ok_0).0 == (StealthRunLoop {
            backend,
            vcpus: vcpu_count,
            active: 0,
            tsc_khz: None,
        })
        &&& is_setup(shadow_ranges, (r->Ok_0).1)
    }
}

/// A run loop lets exactly the shadow registers and the deadline register exit.
pub proof fn law_installed_filter_is_exact(
    shadow_ranges: Seq<(u32, u32)>,
    setup: StealthSetup,
    msr: u32,
)
    requires
        is_setup(shadow_ranges, setup),
    ensures
        setup.filter.denies(msr) <==> crate::msr::listed(shadow_ranges, msr) || msr
            == IA32_TSC_DEADLINE,
{
    let ranges = shadow_ranges.push((IA32_TSC_DEADLINE, 1u32));
    crate::msr::law_filter_denies_exactly_the_listed(setup.filter, ranges, msr);
    if crate::msr::listed(shadow_ranges, msr) {
        let i: int = choose|i: int|
            0 <= i < shadow_ranges.len() && (#[trigger] shadow_ranges[i]).0 <= msr
                < shadow_ranges[i].0 + shadow_ranges[i].1;
        assert(ranges[i].0 <= msr < ranges[i].0 + ranges[i].1);
    }
    if msr == IA32_TSC_DEADLINE {
        let n = shadow_ranges.len() as int;
        assert(ranges[n].0 <= msr < ranges[n].0 + ranges[n].1);
    }
    if crate::msr::listed(ranges, msr) {
        let i: int = choose|i: int|
            0 <= i < ranges.len() && (#[trigger] ranges[i]).0 <= msr < ranges[i].0 + ranges[i].1;
        if i < shadow_ranges.len() {
            assert(shadow_ranges[i] == ranges[i]);
        }
    }
}

// ---------------------------------------------------------------------------
// What a step means
// ---------------------------------------------------------------------------

/// What one step does to a managed run. It ends as halted exactly if the guest
/// halted without an event, as shut down exactly if the guest asked for sleep,
/// with that sleep type, and as exhausted exactly if nothing else ended it and
/// no entry is left. A reset, and nothing else, restarts the vCPU, at the address
/// that the run was made with. After any other exit the guest is entered again.
pub proof fn law_managed_step(run: ManagedRun, step: RunStep)
    requires
        run.outcome is None,
        run.entries_left > 0,
    ensures
        ({
            let a = after_step(step, run.reset_entry);
            let next = run.stepped(step);
            let halts = step.event is None && step.exit is Halted;
            let sleeps = step.event matches Some(PlatformEvent::Sleep(_));
            &&& a == AfterStep::Finish(LoopOutcome::Halted) <==> halts
            &&& step.event matches Some(PlatformEvent::Sleep(t)) ==> a == AfterStep::Finish(
                LoopOutcome::Shutdown(t),
            )
            &&& a matches AfterStep::Finish(LoopOutcome::Shutdown(t)) ==> step.event == Some(
                PlatformEvent::Sleep(t),
            )
            &&& a != AfterStep::Finish(LoopOutcome::Exhausted)
            &&& a is Restart <==> step.event == Some(PlatformEvent::Reset)
            &&& a matches AfterStep::Restart(at) ==> at == run.reset_entry
            &&& a is Continue <==> step.event is None && !(step.exit is Halted)
            &&& next.entries_left == run.entries_left - 1
            &&& next.reset_entry == run.reset_entry
            &&& next.outcome is None <==> run.entries_left > 1 && !halts && !sleeps
            &&& next.outcome == Some(LoopOutcome::Halted) <==> halts
            &&& step.event matches Some(PlatformEvent::Sleep(t)) ==> next.outcome == Some(
                LoopOutcome::Shutdown(t),
            )
            &&& next.outcome matches Some(LoopOutcome::Shutdown(t)) ==> step.event == Some(
                PlatformEvent::Sleep(t),
            )
            &&& next.outcome == Some(LoopOutcome::Exhausted) <==> run.entries_left == 1 && !halts
                && !sleeps
        }),
{
}

/// How a managed run over `steps` ends is told by one of them: it is halted at
/// the first step that halts without an event, shut down at the first that asks
/// for sleep, whichever comes first, and exhausted if neither comes within the
/// bound. Without such a step and below the bound it has not ended.
pub proof fn law_managed_run_ends_at_the_first_end(run: ManagedRun, steps: Seq<RunStep>)
    requires
        run.outcome is None,
        run.entries_left > 0,
    ensures
        ({
            let end = managed_run_over(run, steps).outcome;
            let ends = |s: RunStep|
                (s.event is None && s.exit is Halted) || (s.event matches Some(
                    PlatformEvent::Sleep(_),
                ));
            match end {
                Some(LoopOutcome::Exhausted) => steps.len() >= run.entries_left && forall|i: int|
                    0 <= i < run.entries_left ==> !ends(#[trigger] steps[i]),
                Some(LoopOutcome::Halted) => exists|k: int|
                    0 <= k < steps.len() && k < run.entries_left && (#[trigger] steps[k]).event
                        is None && steps[k].exit is Halted && forall|i: int|
                        0 <= i < k ==> !ends(#[trigger] steps[i]),
                Some(LoopOutcome::Shutdown(t)) => exists|k: int|
                    0 <= k < steps.len() && k < run.entries_left && (#[trigger] steps[k]).event
                        == Some(PlatformEvent::Sleep(t)) && forall|i: int|
                        0 <= i < k ==> !ends(#[trigger] steps[i]),
                None => steps.len() < run.entries_left && forall|i: int|
                    0 <= i < steps.len() ==> !ends(#[trigger] steps[i]),
            }
        }),
    decreases steps.len(),
{
    let ends = |s: RunStep|
        (s.event is None && s.exit is Halted) || (s.event matches Some(PlatformEvent::Sleep(_)));
    if steps.len() > 0 {
        let next = run.stepped(steps[0]);
        let rest = steps.drop_first();
        let end = managed_run_over(run, steps).outcome;
        if next.outcome is None {
            law_managed_run_ends_at_the_first_end(next, rest);
            assert(!ends(steps[0]));
            assert forall|i: int| 0 < i < steps.len() implies #[trigger] steps[i] == rest[i - 1] by {}
            match end {
                Some(LoopOutcome::Halted) => {
                    let k: int = choose|k: int|
                        0 <= k < rest.len() && k < next.entries_left && (#[trigger] rest[k]).event
                            is None && rest[k].exit is Halted && forall|i: int|
                            0 <= i < k ==> !ends(#[trigger] rest[i]);
                    assert(steps[k + 1] == rest[k]);
                    assert forall|i: int| 0 <= i < k + 1 implies !ends(#[trigger] steps[i]) by {
                        if i > 0 {
                            assert(!ends(rest[i - 1]));
                        }
                    }
                },
                Some(LoopOutcome::Shutdown(t)) => {
                    let k: int = choose|k: int|
                        0 <= k < rest.len() && k < next.entries_left && (#[trigger] rest[k]).event
                            == Some(PlatformEvent::Sleep(t)) && forall|i: int|
                            0 <= i < k ==> !ends(#[trigger] rest[i]);
                    assert(steps[k + 1] == rest[k]);
                    assert forall|i: int| 0 <= i < k + 1 implies !ends(#[trigger] steps[i]) by {
                        if i > 0 {
                            assert(!ends(rest[i - 1]));
                        }
                    }
                },
                Some(LoopOutcome::Exhausted) => {
                    assert forall|i: int| 0 <= i < run.entries_left implies !ends(
                        #[trigger] steps[i],
                    ) by {
                        if i > 0 {
                            assert(!ends(rest[i - 1]));
                        }
                    }
                },
                None => {
                    assert forall|i: int| 0 <= i < steps.len() implies !ends(
                        #[trigger] steps[i],
                    ) by {
                        if i > 0 {
                            assert(!ends(rest[i - 1]));
                        }
                    }
                },
            }
        } else {
            reveal_with_fuel(managed_run_over, 2);
            assert(end == next.outcome);
        }
    }
}

/// What one step does to a run that waits for an event: it is reported as the
/// last one, its cycles are added as far as they fit, and the run ends exactly
/// if the guest halted, raised an event or has no entry left.
pub proof fn law_event_step(run: EventRun, step: RunStep)
    requires
        run.entries_left > 0,
    ensures
        ({
            let next = run.stepped(step);
            &&& next.last == step
            &&& next.total_cycles == vstd::math::min(
                run.total_cycles + step.guest_cycles,
                u64::MAX as int,
            )
            &&& next.entries_left == 0 <==> run.entries_left == 1 || step.exit is Halted
                || step.event is Some
            &&& next.entries_left > 0 ==> next.entries_left == run.entries_left - 1
        }),
{
}

/// The cycles of the first `n` steps.
pub open spec fn cycles_of(steps: Seq<RunStep>, n: nat) -> int
    decreases n,
{
    if n == 0 {
        0
    } else {
        cycles_of(steps, (n - 1) as nat) + steps[n - 1].guest_cycles
    }
}

proof fn lemma_cycles_shift(steps: Seq<RunStep>, n: nat)
    requires
        n < steps.len(),
    ensures
        cycles_of(steps, n + 1) == steps[0].guest_cycles + cycles_of(steps.drop_first(), n),
        cycles_of(steps, n) >= 0,
    decreases n,
{
    if n > 0 {
        lemma_cycles_shift(steps, (n - 1) as nat);
        assert(steps.drop_first()[n - 1] == steps[n as int]);
    } else {
        reveal_with_fuel(cycles_of, 2);
    }
}

/// A run that waits for an event reports the step at which the guest first
/// halted or raised an event, or else the last one within its bound, and the
/// cycles of all steps up to it, as far as they fit.
pub proof fn law_event_run_ends_at_the_first_event(run: EventRun, steps: Seq<RunStep>) -> (k: int)
    requires
        run.entries_left > 0,
        steps.len() > 0,
    ensures
        0 <= k < steps.len(),
        k < run.entries_left,
        event_run_over(run, steps).last == steps[k],
        forall|i: int|
            0 <= i < k ==> !((#[trigger] steps[i]).exit is Halted) && steps[i].event is None,
        steps[k].exit is Halted || steps[k].event is Some || k + 1 == steps.len() || k + 1
            == run.entries_left,
        event_run_over(run, steps).total_cycles == vstd::math::min(
            run.total_cycles + cycles_of(steps, (k + 1) as nat),
            u64::MAX as int,
        ),
    decreases steps.len(),
{
    let next = run.stepped(steps[0]);
    let rest = steps.drop_first();
    lemma_cycles_shift(steps, 0);
    reveal_with_fuel(event_run_over, 2);
    reveal_with_fuel(cycles_of, 2);
    if next.entries_left > 0 && rest.len() > 0 {
        let k: int = law_event_run_ends_at_the_first_event(next, rest);
        lemma_cycles_shift(steps, (k + 1) as nat);
        if k + 2 <= steps.len() - 1 {
            lemma_cycles_shift(rest, (k + 1) as nat);
        }
        lemma_cycles_nonnegative(rest, (k + 1) as nat);
        assert forall|i: int| 0 <= i < k + 1 implies !((#[trigger] steps[i]).exit is Halted)
            && steps[i].event is None by {
            if i > 0 {
                assert(steps[i] == rest[i - 1]);
            }
        }
        k + 1
    } else {
        0
    }
}

proof fn lemma_cycles_nonnegative(steps: Seq<RunStep>, n: nat)
    ensures
        cycles_of(steps, n) >= 0,
    decreases n,
{
    if n > 0 {
        lemma_cycles_nonnegative(steps, (n - 1) as nat);
    }
}

/// Cycles and time belong together: at a known rate, `ns` nanoseconds are what
/// that many cycles take, to the nanosecond, and without a rate no time passes.
pub proof fn law_cycles_take_their_time(cycles: u64, tsc_khz: u32)
    ensures
        ({
            let ns = ns_of(cycles, tsc_khz);
            &&& tsc_khz > 0 ==> ns * tsc_khz <= cycles * 1_000_000 < (ns + 1) * tsc_khz
            &&& tsc_khz == 0 ==> ns == 0
        }),
{
    if tsc_khz > 0 {
        let x = cycles * 1_000_000;
        let k = tsc_khz as int;
        vstd::arithmetic::div_mod::lemma_fundamental_div_mod(x, k);
        assert((x / k) * k <= x < (x / k + 1) * k) by (nonlinear_arith)
            requires
                x == k * (x / k) + x % k,
                0 <= x % k < k,
        ;
    }
}

/// What KVM has to be told is all there: registers exit by reads and writes that
/// are filtered, everything that no range denies is allowed, and the deadline
/// register exits too.
pub proof fn law_setup_lets_registers_exit(shadow_ranges: Seq<(u32, u32)>, setup: StealthSetup)
    requires
        is_setup(shadow_ranges, setup),
    ensures
        setup.msr_exits@[0] == 6,
        forall|i: int| 0 < i < 4 ==> #[trigger] setup.msr_exits@[i] == 0,
        setup.filter.flags == 0,
        setup.filter.denies(0x6E0),
        setup.filter.ranges@.len() == shadow_ranges.len() + 1,
{
    law_installed_filter_is_exact(shadow_ranges, setup, 0x6E0);
}

/// A run that has not entered the guest reports an interruption without cycles and
/// without an event, so that nothing is taken for a halt.
pub proof fn law_nothing_happened_yet()
    ensures
        no_step().exit is Interrupted,
        no_step().guest_cycles == 0,
        no_step().event is None,
        !no_step().stops(),
{
}

/// A run loop is installed exactly if registers can exit and the filter holds all
/// ranges with the deadline register. It then runs the given machine with as many
/// vCPUs as asked for, the first one selected and no rate known yet.
pub proof fn law_what_is_installed(
    backend: KvmBackend,
    vcpu_count: usize,
    shadow_ranges: Seq<(u32, u32)>,
    available: bool,
    r: Result<(StealthRunLoop, StealthSetup)>,
)
    requires
        installed(backend, vcpu_count, shadow_ranges, available, r),
    ensures
        r is Ok <==> available && shadow_ranges.len() + 1 <= 16,
        r matches Err(e) ==> e is HypervisorError,
        r matches Ok((run, setup)) ==> {
            &&& run.backend == backend
            &&& run.vcpus == vcpu_count
            &&& run.active == 0
            &&& run.tsc_khz is None
            &&& is_setup(shadow_ranges, setup)
        },
{
}

} // verus!
