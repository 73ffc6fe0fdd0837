use enlil_core::device_bus::{
    deliver_expired, dual_irq_line, hotplug_interrupt, hpet_ticks, route_pci_intx, DeviceBus, LineDrive, MsrShadow,
    PlatformEvent, PlatformLatches, IRQ_COM1, IRQ_KEYBOARD, IRQ_MOUSE, IRQ_PIT, IRQ_RTC,
};

const IA32_APERF: u32 = 0xE8;
const IA32_DEBUGCTL: u32 = 0x1D9;

/// The two registers that these tests look at.
#[derive(Default)]
struct Shadow {
    aperf: u64,
    debugctl: u64,
}

impl MsrShadow for Shadow {
    fn read_msr(&mut self, msr: u32) -> Option<u64> {
        match msr {
            IA32_APERF => Some(self.aperf),
            IA32_DEBUGCTL => Some(self.debugctl),
            _ => None,
        }
    }
    fn write_msr(&mut self, msr: u32, value: u64) -> bool {
        match msr {
            IA32_APERF => self.aperf = value,
            IA32_DEBUGCTL => self.debugctl = value,
            _ => return false,
        }
        true
    }
}

#[test]
fn stealth_bank_serves_the_active_vcpu_shadow() {
    // Two vCPUs, each APERF distinct so we can tell whose shadow answered.
    let mut bus = DeviceBus::new();
    bus.set_stealth_msr_routers(vec![
        Shadow { aperf: 0xAAAA, ..Default::default() },
        Shadow { aperf: 0xBBBB, ..Default::default() },
    ]);
    assert_eq!(bus.stealth_vcpu_count(), 2);
    assert_eq!(bus.active_vcpu(), Some(0), "active starts at vCPU 0");

    assert_eq!(bus.rdmsr(IA32_APERF), Some(0xAAAA));
    assert!(bus.set_active_vcpu(1));
    assert_eq!(bus.active_vcpu(), Some(1));
    assert_eq!(bus.rdmsr(IA32_APERF), Some(0xBBBB));
    assert!(bus.set_active_vcpu(0));
    assert_eq!(bus.rdmsr(IA32_APERF), Some(0xAAAA));
}

#[test]
fn stealth_bank_writes_isolate_per_vcpu() {
    let mut bus = DeviceBus::new();
    bus.set_stealth_msr_routers(vec![Shadow::default(), Shadow::default()]);

    assert!(bus.set_active_vcpu(1));
    assert!(bus.wrmsr(IA32_DEBUGCTL, 1));
    assert_eq!(bus.stealth_msr_for_mut(1).unwrap().debugctl, 1);
    // vCPU 0 never saw the write.
    assert_eq!(bus.stealth_msr_for_mut(0).unwrap().debugctl, 0);
    assert!(bus.set_active_vcpu(0));
    assert_eq!(bus.rdmsr(IA32_DEBUGCTL), Some(0));
}

#[test]
fn stealth_bank_rejects_out_of_range_active() {
    let mut bus = DeviceBus::new();
    // No bank installed: selection fails, count is 0, active is None.
    assert!(!bus.set_active_vcpu(0));
    assert_eq!(bus.active_vcpu(), None);
    assert_eq!(bus.stealth_vcpu_count(), 0);

    bus.set_stealth_msr_routers(vec![Shadow::default(), Shadow::default()]);
    assert!(bus.set_active_vcpu(1));
    // Index == len and beyond are rejected; the prior selection stands.
    assert!(!bus.set_active_vcpu(2));
    assert!(!bus.set_active_vcpu(99));
    assert_eq!(
        bus.active_vcpu(),
        Some(1),
        "rejected selection left active as-is"
    );
    // A specific vCPU's router is reachable regardless of the active one.
    assert!(bus.stealth_msr_for_mut(0).is_some());
    assert!(bus.stealth_msr_for_mut(1).is_some());
    assert!(bus.stealth_msr_for_mut(2).is_none());
}

#[test]
fn an_unmodelled_register_is_refused() {
    let mut bus: DeviceBus<Shadow> = DeviceBus::new();
    assert_eq!(bus.rdmsr(IA32_APERF), None);
    assert!(!bus.wrmsr(IA32_APERF, 1));
    assert!(bus.stealth_msr_mut().is_none());
    bus.set_stealth_msr_router(Shadow { aperf: 3, ..Default::default() });
    assert_eq!(bus.rdmsr(0x10), None);
    assert!(!bus.wrmsr(0x10, 1));
    assert_eq!(bus.stealth_msr_mut().unwrap().aperf, 3);
    assert_eq!(bus.stealth_vcpu_count(), 1);
}

#[test]
fn poll_platform_events_surfaces_guest_shutdown_and_reset() {
    let mut latches = PlatformLatches::new();
    // Nothing pending on a fresh machine.
    assert_eq!(latches.poll_platform_events(), None);

    // An S5 transition.
    latches.raise(Some(5), false, false);
    assert_eq!(latches.poll_platform_events(), Some(PlatformEvent::Sleep(5)));
    assert_eq!(latches.poll_platform_events(), None, "latch consumed");

    // A fast reset through System Control Port A.
    latches.raise(None, true, false);
    assert_eq!(latches.poll_platform_events(), Some(PlatformEvent::Reset));
    assert_eq!(latches.poll_platform_events(), None);

    // A reset through the chipset Reset Control Register.
    latches.raise(None, false, true);
    assert_eq!(latches.poll_platform_events(), Some(PlatformEvent::Reset));
    assert_eq!(latches.poll_platform_events(), None, "0xCF9 latch consumed");
}

#[test]
fn a_reset_waits_behind_a_sleep_and_is_served_once() {
    let mut latches = PlatformLatches::new();
    latches.raise(Some(3), true, true);
    latches.raise(Some(5), false, false);
    assert_eq!(latches.poll_platform_events(), Some(PlatformEvent::Sleep(3)));
    assert_eq!(latches.poll_platform_events(), Some(PlatformEvent::Reset));
    assert_eq!(latches.poll_platform_events(), None);
}

#[test]
fn an_expired_timer_pulses_its_pin() {
    assert_eq!(
        deliver_expired(&vec![(0, 16)], false),
        vec![
            LineDrive::IoApic { gsi: 16, level: true },
            LineDrive::IoApic { gsi: 16, level: false },
        ]
    );
    assert!(deliver_expired(&vec![], true).is_empty());
}

#[test]
fn in_legacy_replacement_two_timers_stand_in_for_the_old_ones() {
    let isa = |irq| {
        vec![
            LineDrive::Pic { irq, level: true },
            LineDrive::Pic { irq, level: false },
            LineDrive::IoApicIsa { irq, level: true },
            LineDrive::IoApicIsa { irq, level: false },
        ]
    };
    assert_eq!(deliver_expired(&vec![(0, 0)], true), isa(IRQ_PIT));
    assert_eq!(deliver_expired(&vec![(1, 9)], true), isa(IRQ_RTC));
    let mut both = isa(IRQ_PIT);
    both.push(LineDrive::IoApic { gsi: 11, level: true });
    both.push(LineDrive::IoApic { gsi: 11, level: false });
    assert_eq!(deliver_expired(&vec![(0, 0), (2, 11)], true), both);
}

#[test]
fn the_high_precision_timer_counts_at_10_mhz() {
    assert_eq!(hpet_ticks(1_000_000_000), 10_000_000);
    assert_eq!(hpet_ticks(199), 1);
}

#[test]
fn a_pci_interrupt_reaches_both_controllers() {
    assert_eq!(
        route_pci_intx(true, Some(11), Some(16), true),
        vec![
            LineDrive::PicLevel { irq: 11, level: true },
            LineDrive::IoApic { gsi: 16, level: true },
        ]
    );
    assert_eq!(
        route_pci_intx(true, None, Some(19), false),
        vec![LineDrive::IoApic { gsi: 19, level: false }]
    );
    assert!(route_pci_intx(true, None, None, true).is_empty());
    assert!(route_pci_intx(false, Some(11), Some(16), true).is_empty());
}

#[test]
fn a_port_that_has_not_changed_does_not_interrupt() {
    assert!(hotplug_interrupt(false, true, Some(11), Some(16), true).is_empty());
    assert_eq!(
        hotplug_interrupt(true, true, None, Some(16), true),
        vec![LineDrive::IoApic { gsi: 16, level: true }]
    );
}

#[test]
fn a_legacy_line_drives_both_controllers() {
    assert_eq!(
        dual_irq_line(IRQ_COM1, true),
        [
            LineDrive::Pic { irq: 4, level: true },
            LineDrive::IoApicIsa { irq: 4, level: true },
        ]
    );
    assert_eq!((IRQ_PIT, IRQ_KEYBOARD, IRQ_RTC, IRQ_MOUSE), (0, 1, 8, 12));
}
