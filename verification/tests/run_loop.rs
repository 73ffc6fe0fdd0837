use enlil_core::device_bus::PlatformEvent;
use enlil_core::kvm_backend::{GuestExit, KvmBackend};
use enlil_core::run_loop::{
    cycles_to_ns, AfterStep, EventRun, LoopOutcome, ManagedRun, RunStep, StealthRunLoop,
    IA32_TSC_DEADLINE,
};
use enlil_core::Error;

#[test]
fn cycles_to_ns_converts_at_the_tsc_rate() {
    // 3_000_000 kHz = 3 GHz: 3 billion cycles == 1 second == 1e9 ns.
    assert_eq!(cycles_to_ns(3_000_000_000, 3_000_000), 1_000_000_000);
    // 1 GHz: cycles and ns are 1:1.
    assert_eq!(cycles_to_ns(1_000, 1_000_000), 1_000);
    // Sub-tick rounding truncates toward zero.
    assert_eq!(cycles_to_ns(1, 3_000_000), 0);
    // A zero rate (unknown) yields zero rather than dividing by zero.
    assert_eq!(cycles_to_ns(10_000, 0), 0);
    // A large cycle count does not overflow (computed in u128).
    assert_eq!(
        cycles_to_ns(u64::MAX, 1_000_000),
        (u128::from(u64::MAX)) as u64
    );
}

#[test]
fn more_cycles_are_never_less_time() {
    assert!(cycles_to_ns(2_999, 3_000_000) <= cycles_to_ns(3_000, 3_000_000));
    assert_eq!(cycles_to_ns(2_999, 3_000_000), 999);
    // Past 64 bits the low bits are kept.
    assert_eq!(cycles_to_ns(u64::MAX, 1), u64::MAX.wrapping_mul(1_000_000));
}

fn step(exit: GuestExit, guest_cycles: u64, event: Option<PlatformEvent>) -> RunStep {
    RunStep { exit, guest_cycles, event }
}

#[test]
fn a_step_stops_at_a_halt_or_an_event() {
    assert!(step(GuestExit::Halted, 0, None).is_stop());
    assert!(step(GuestExit::Interrupted, 0, Some(PlatformEvent::Reset)).is_stop());
    assert!(step(GuestExit::Interrupted, 0, Some(PlatformEvent::Sleep(5))).is_stop());
    assert!(!step(GuestExit::Shutdown, 0, None).is_stop());
}

#[test]
fn a_run_reports_the_first_stop_and_the_cycles_up_to_it() {
    let steps = [
        step(GuestExit::Interrupted, 10, None),
        step(GuestExit::IoOut { port: 0x80, size: 1 }, 20, None),
        step(GuestExit::Halted, 5, None),
        step(GuestExit::Interrupted, 1000, None),
    ];
    let mut run = EventRun::new(10);
    let mut entries = 0;
    while run.wants_entry() {
        run.on_step(steps[entries]);
        entries += 1;
    }
    assert_eq!(entries, 3);
    assert_eq!(run.last, steps[2]);
    assert_eq!(run.total_cycles, 35);
}

#[test]
fn a_run_ends_at_its_bound() {
    let mut run = EventRun::new(2);
    run.on_step(step(GuestExit::Interrupted, u64::MAX, None));
    assert!(run.wants_entry());
    run.on_step(step(GuestExit::Debug, 2, None));
    assert!(!run.wants_entry());
    assert_eq!(run.last.exit, GuestExit::Debug);
    assert_eq!(run.total_cycles, u64::MAX, "the sum saturates");

    let none = EventRun::new(0);
    assert!(!none.wants_entry());
    assert_eq!(none.last, step(GuestExit::Interrupted, 0, None));
}

#[test]
fn a_managed_run_reboots_on_reset_and_ends_on_sleep() {
    let mut run = ManagedRun::new(0x1000, 10);
    assert_eq!(
        run.on_step(step(GuestExit::Halted, 1, Some(PlatformEvent::Reset))),
        AfterStep::Restart(0x1000),
        "a reset outweighs a halt"
    );
    assert_eq!(run.outcome, None);
    assert_eq!(run.on_step(step(GuestExit::Interrupted, 1, None)), AfterStep::Continue);
    assert_eq!(
        run.on_step(step(GuestExit::Halted, 1, Some(PlatformEvent::Sleep(5)))),
        AfterStep::Finish(LoopOutcome::Shutdown(5)),
        "a sleep outweighs a halt"
    );
    assert_eq!(run.outcome, Some(LoopOutcome::Shutdown(5)));
}

#[test]
fn a_managed_run_ends_on_a_halt_or_at_its_bound() {
    let mut run = ManagedRun::new(0, 2);
    run.on_step(step(GuestExit::Interrupted, 1, None));
    run.on_step(step(GuestExit::Halted, 1, None));
    assert_eq!(run.outcome, Some(LoopOutcome::Halted));

    let mut run = ManagedRun::new(0, 2);
    run.on_step(step(GuestExit::Interrupted, 1, Some(PlatformEvent::Reset)));
    assert_eq!(run.outcome, None);
    run.on_step(step(GuestExit::Interrupted, 1, Some(PlatformEvent::Reset)));
    assert_eq!(run.outcome, Some(LoopOutcome::Exhausted), "a reboot loop is bounded");

    assert_eq!(ManagedRun::new(0, 0).outcome, Some(LoopOutcome::Exhausted));
}

fn backend() -> KvmBackend {
    KvmBackend::new_without_irqchip(12).unwrap().0
}

#[test]
fn installing_forwards_the_shadow_registers_and_the_deadline() {
    let (run, setup) = StealthRunLoop::install(backend(), vec![(0xE7, 2)], true).unwrap();
    assert_eq!(run.vcpu_count(), 1);
    assert_eq!(setup.msr_exits, [6, 0, 0, 0]);
    let listed: Vec<(u32, u32)> = setup.filter.ranges.iter().map(|r| (r.base, r.nmsrs)).collect();
    assert_eq!(listed, vec![(0xE7, 2), (IA32_TSC_DEADLINE, 1)]);
    // Every listed register is denied: its bit is clear.
    for range in &setup.filter.ranges {
        for i in 0..range.nmsrs as usize {
            assert_eq!(range.bitmap[i / 8] & (1 << (i % 8)), 0);
        }
    }
}

#[test]
fn installing_fails_where_the_host_cannot() {
    let refused = StealthRunLoop::install(backend(), vec![], false);
    assert!(matches!(refused, Err(Error::HypervisorError(_))));
    let too_many: Vec<(u32, u32)> = (0..16).map(|i| (i * 0x100, 1)).collect();
    let refused = StealthRunLoop::install_smp(backend(), too_many.clone(), true, 2);
    assert!(matches!(refused, Err(Error::HypervisorError(_))));
    let fits = StealthRunLoop::install_smp(backend(), too_many[1..].to_vec(), true, 2);
    assert_eq!(fits.unwrap().0.vcpu_count(), 2);
}

#[test]
fn only_an_installed_vcpu_can_be_selected() {
    let (mut run, _) = StealthRunLoop::install_smp(backend(), vec![], true, 2).unwrap();
    assert!(run.select_vcpu(1).is_ok());
    match run.select_vcpu(2) {
        Err(Error::Vcpu(m)) => assert_eq!(m, "no stealth router/timing for vcpu 2"),
        _ => panic!("selected a vCPU that is not there"),
    }
    assert_eq!(run.active, 1);
}

#[test]
fn the_rate_is_read_once() {
    let (mut run, _) = StealthRunLoop::install(backend(), vec![], true).unwrap();
    assert!(run.needs_tsc_khz());
    assert_eq!(run.advance_platform_clocks(3_000_000, 6_000), 2_000);
    assert!(!run.needs_tsc_khz());
    assert_eq!(run.advance_platform_clocks(1, 6_000), 2_000);
    assert_eq!(run.backend_mut().create_vcpu(0), 0);
    assert_eq!(run.backend.vcpu_count(), 1);
}
