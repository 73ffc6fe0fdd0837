//! The machine around the vCPUs: the registers that each vCPU reads as its own,
//! the platform's events, its interrupt lines and the devices of a standard PC.
//!
//! The device models themselves are driven by the executable. What is mounted
//! where, which lines an event drives and which latch is served first is decided
//! here.
use vstd::prelude::*;

verus! {

// ---------------------------------------------------------------------------
// Registers of each vCPU
// ---------------------------------------------------------------------------

/// The shadow registers of one vCPU.
pub trait MsrShadow: Sized {
    /// The value of a register, where it is modelled.
    fn read_msr(&mut self, msr: u32) -> Option<u64>;

    /// Writes a register; whether it is modelled.
    fn write_msr(&mut self, msr: u32, value: u64) -> bool;
}

/// The shadow registers of every vCPU, and which vCPU is running.
pub struct StealthBank<R> {
    pub routers: Vec<R>,
    pub active: usize,
}

impl<R> StealthBank<R> {
    /// The invariant: the running vCPU has shadow registers.
    pub open spec fn wf(&self) -> bool {
        self.active < self.routers@.len()
    }

    /// A bank over these registers, with vCPU 0 running.
    pub fn new(routers: Vec<R>) -> (r: Self)
        requires
            routers@.len() > 0,
        ensures
            r.wf(),
            r.routers@ == routers@,
            r.active == 0,
    {
        StealthBank { routers, active: 0 }
    }

    /// The registers of the running vCPU.
    pub fn active(&mut self) -> (r: &mut R)
        requires
            old(self).wf(),
        ensures
            *r == old(self).routers@[old(self).active as int],
            final(self).active == old(self).active,
            final(self).routers@ == old(self).routers@.update(
                old(self).active as int,
                *final(r),
            ),
    {
        &mut self.routers[self.active]
    }

    /// Selects the running vCPU. Where it has no registers the selection stays.
    pub fn set_active(&mut self, index: usize) -> (r: bool)
        requires
            old(self).wf(),
        ensures
            final(self).wf(),
            r == (index < old(self).routers@.len()),
            final(self).active == (if r {
                index
            } else {
                old(self).active
            }),
            final(self).routers == old(self).routers,
    {
        if index < self.routers.len() {
            self.active = index;
            true
        } else {
            false
        }
    }
}

/// The bus that all vCPUs share, as far as it is not the devices' own: it
/// answers an access to a modelled register from the running vCPU's shadow.
pub struct DeviceBus<R> {
    pub stealth: Option<StealthBank<R>>,
}

impl<R> DeviceBus<R> {
    /// The invariant: where there are shadow registers, the running vCPU has
    /// some.
    pub open spec fn wf(&self) -> bool {
        match self.stealth {
            Some(bank) => bank.wf(),
            None => true,
        }
    }

    /// The shadow registers of all vCPUs.
    pub open spec fn shadows(&self) -> Seq<R> {
        match self.stealth {
            Some(bank) => bank.routers@,
            None => Seq::empty(),
        }
    }

    /// The index of the running vCPU.
    pub open spec fn running(&self) -> Option<usize> {
        match self.stealth {
            Some(bank) => Some(bank.active),
            None => None,
        }
    }

    /// A bus without shadow registers.
    #[must_use]
    pub fn new() -> (r: Self)
        ensures
            r.wf(),
            r.shadows() == Seq::<R>::empty(),
            r.running() is None,
    {
        DeviceBus { stealth: None }
    }

    /// Installs the shadow registers of a single vCPU.
    pub fn set_stealth_msr_router(&mut self, router: R)
        ensures
            final(self).wf(),
            final(self).shadows() == seq![router],
            final(self).running() == Some(0usize),
    {
        let mut routers: Vec<R> = Vec::new();
        routers.push(router);
        self.stealth = Some(StealthBank::new(routers));
    }

    /// Installs the shadow registers of each vCPU, with vCPU 0 running.
    pub fn set_stealth_msr_routers(&mut self, routers: Vec<R>)
        requires
            routers@.len() > 0,
        ensures
            final(self).wf(),
            final(self).shadows() == routers@,
            final(self).running() == Some(0usize),
    {
        self.stealth = Some(StealthBank::new(routers));
    }

    /// Selects the vCPU whose registers answer. Without registers for it the
    /// selection stays.
    pub fn set_active_vcpu(&mut self, index: usize) -> (r: bool)
        requires
            old(self).wf(),
        ensures
            final(self).wf(),
            r == (index < old(self).shadows().len()),
            final(self).shadows() == old(self).shadows(),
            final(self).running() == (if r {
                Some(index)
            } else {
                old(self).running()
            }),
    {
        match &mut self.stealth {
            Some(bank) => bank.set_active(index),
            None => false,
        }
    }

    /// The vCPU whose registers answer.
    #[must_use]
    pub fn active_vcpu(&self) -> (r: Option<usize>)
        ensures
            r == self.running(),
    {
        match &self.stealth {
            Some(bank) => Some(bank.active),
            None => None,
        }
    }

    /// The number of vCPUs with shadow registers.
    #[must_use]
    pub fn stealth_vcpu_count(&self) -> (r: usize)
        ensures
            r == self.shadows().len(),
    {
        match &self.stealth {
            Some(bank) => bank.routers.len(),
            None => 0,
        }
    }

    /// The registers of the running vCPU.
    #[must_use]
    pub fn stealth_msr_mut(&mut self) -> (r: Option<&mut R>)
        requires
            old(self).wf(),
        ensures
            r is Some <==> old(self).running() is Some,
            final(self).running() == old(self).running(),
            match r {
                Some(router) => {
                    let i = old(self).running()->0 as int;
                    &&& *router == old(self).shadows()[i]
                    &&& final(self).shadows() == old(self).shadows().update(i, *final(router))
                },
                None => *final(self) == *old(self),
            },
    {
        match &mut self.stealth {
            Some(bank) => Some(bank.active()),
            None => None,
        }
    }

    /// The registers of vCPU `index`, whichever vCPU is running.
    #[must_use]
    pub fn stealth_msr_for_mut(&mut self, index: usize) -> (r: Option<&mut R>)
        requires
            old(self).wf(),
        ensures
            r is Some <==> index < old(self).shadows().len(),
            final(self).running() == old(self).running(),
            match r {
                Some(router) => {
                    &&& *router == old(self).shadows()[index as int]
                    &&& final(self).shadows() == old(self).shadows().update(
                        index as int,
                        *final(router),
                    )
                },
                None => *final(self) == *old(self),
            },
    {
        match &mut self.stealth {
            Some(bank) => if index < bank.routers.len() {
                Some(&mut bank.routers[index])
            } else {
                None
            },
            None => None,
        }
    }
}

impl<R: MsrShadow> DeviceBus<R> {
    /// Reads a register of the running vCPU. Nothing answers without shadow
    /// registers; with them, exactly the running vCPU's do, once.
    pub fn rdmsr(&mut self, msr: u32) -> (r: Option<u64>)
        requires
            old(self).wf(),
        ensures
            final(self).wf(),
            final(self).running() == old(self).running(),
            match old(self).running() {
                Some(active) => exists|h: &mut R|
                    *h == old(self).shadows()[active as int] && final(self).shadows() == old(
                        self,
                    ).shadows().update(active as int, *final(h)) && #[trigger] call_ensures(
                        R::read_msr,
                        (h, msr),
                        r,
                    ),
                None => r is None && *final(self) == *old(self),
            },
    {
        match self.stealth_msr_mut() {
            Some(router) => {
                let call = R::read_msr;
                call(router, msr)
            },
            None => None,
        }
    }

    /// Writes a register of the running vCPU; whether it was accepted. Nothing
    /// accepts it without shadow registers; with them, exactly the running
    /// vCPU's decide, once.
    pub fn wrmsr(&mut self, msr: u32, value: u64) -> (r: bool)
        requires
            old(self).wf(),
        ensures
            final(self).wf(),
            final(self).running() == old(self).running(),
            match old(self).running() {
                Some(active) => exists|h: &mut R|
                    *h == old(self).shadows()[active as int] && final(self).shadows() == old(
                        self,
                    ).shadows().update(active as int, *final(h)) && #[trigger] call_ensures(
                        R::write_msr,
                        (h, msr, value),
                        r,
                    ),
                None => !r && *final(self) == *old(self),
            },
    {
        match self.stealth_msr_mut() {
            Some(router) => {
                let call = R::write_msr;
                call(router, msr, value)
            },
            None => false,
        }
    }
}

/// The reference cycles that a vCPU's shadow clocks are advanced by when they
/// are installed, so that their first readings show the modelled ratio.
pub const STEALTH_SEED_REF_CYCLES: u64 = 1_000_000;

// ---------------------------------------------------------------------------
// Platform events
// ---------------------------------------------------------------------------

/// A request of the guest to its platform.
#[derive(Debug, Clone, Copy, PartialEq, Eq, Structural)]
pub enum PlatformEvent {
    /// Go to sleep, with the sleep type; 5 means power off.
    Sleep(u8),
    /// Reset the processor.
    Reset,
}

/// The requests that the guest has raised and that are still to be served.
#[derive(Debug, Clone, Copy, PartialEq, Eq, Structural)]
pub struct PlatformLatches {
    /// The sleep type, where the guest has asked for sleep.
    pub sleep: Option<u8>,
    /// A reset through system control port A.
    pub system_reset: bool,
    /// A reset through the chipset's reset control register.
    pub pci_reset: bool,
}

/// The most urgent of the requests: sleep before reset.
pub open spec fn most_urgent(latches: PlatformLatches) -> Option<PlatformEvent> {
    match latches.sleep {
        Some(slp_typ) => Some(PlatformEvent::Sleep(slp_typ)),
        None => if latches.system_reset || latches.pci_reset {
            Some(PlatformEvent::Reset)
        } else {
            None
        },
    }
}

/// The requests left once the most urgent one is served. A reset clears both of
/// its sources, so that neither is served twice.
pub open spec fn once_served(latches: PlatformLatches) -> PlatformLatches {
    match latches.sleep {
        Some(_) => PlatformLatches { sleep: None, ..latches },
        None => PlatformLatches { sleep: None, system_reset: false, pci_reset: false },
    }
}

impl PlatformLatches {
    /// No request.
    #[must_use]
    pub fn new() -> (r: Self)
        ensures
            r.sleep is None,
            !r.system_reset,
            !r.pci_reset,
    {
        PlatformLatches { sleep: None, system_reset: false, pci_reset: false }
    }

    /// Adds what the devices have latched. A request that is still to be served
    /// stays.
    pub fn raise(&mut self, sleep: Option<u8>, system_reset: bool, pci_reset: bool)
        ensures
            final(self).sleep == (if old(self).sleep is Some {
                old(self).sleep
            } else {
                sleep
            }),
            final(self).system_reset == (old(self).system_reset || system_reset),
            final(self).pci_reset == (old(self).pci_reset || pci_reset),
    {
        if self.sleep.is_none() {
            self.sleep = sleep;
        }
        self.system_reset = self.system_reset || system_reset;
        self.pci_reset = self.pci_reset || pci_reset;
    }

    /// The most urgent request, which is served by this.
    pub fn poll_platform_events(&mut self) -> (r: Option<PlatformEvent>)
        ensures
            r == most_urgent(*old(self)),
            *final(self) == once_served(*old(self)),
    {
        if let Some(slp_typ) = self.sleep {
            self.sleep = None;
            return Some(PlatformEvent::Sleep(slp_typ));
        }
        // Both sources are cleared before either is looked at.
        let reset: bool = self.system_reset || self.pci_reset;
        self.system_reset = false;
        self.pci_reset = false;
        if reset {
            Some(PlatformEvent::Reset)
        } else {
            None
        }
    }
}

/// A sleep does not lose a reset that is pending beside it, a reset is served
/// once whichever sources raised it, and after two polls nothing is left.
pub proof fn law_every_request_is_served_once(latches: PlatformLatches)
    ensures
        ({
            let first = most_urgent(latches);
            let second = most_urgent(once_served(latches));
            let third = most_urgent(once_served(once_served(latches)));
            let reset = latches.system_reset || latches.pci_reset;
            &&& latches.sleep matches Some(t) ==> first == Some(PlatformEvent::Sleep(t))
            &&& latches.sleep is Some && reset ==> second == Some(PlatformEvent::Reset)
            &&& latches.sleep is None && reset ==> first == Some(PlatformEvent::Reset)
                && second is None
            &&& latches.sleep is None && !reset ==> first is None
            &&& third is None
        }),
{
}

// ---------------------------------------------------------------------------
// Interrupt lines
// ---------------------------------------------------------------------------

/// The line of the 8254 timer.
pub const IRQ_PIT: u8 = 0;

/// The line of the first serial port.
pub const IRQ_COM1: u8 = 4;

/// The line of the real-time clock.
pub const IRQ_RTC: u8 = 8;

/// The line of the keyboard.
pub const IRQ_KEYBOARD: u8 = 1;

/// The line of the mouse.
pub const IRQ_MOUSE: u8 = 12;

/// An interrupt line taking on a level.
#[derive(Debug, Clone, Copy, PartialEq, Eq, Structural)]
pub enum LineDrive {
    /// A line of the legacy controller that is triggered by its edge.
    Pic { irq: u8, level: bool },
    /// A line of the legacy controller that is triggered by its level.
    PicLevel { irq: u8, level: bool },
    /// A legacy line of the I/O APIC, which applies the source overrides.
    IoApicIsa { irq: u8, level: bool },
    /// A pin of the I/O APIC.
    IoApic { gsi: u8, level: bool },
}

/// What a legacy device's line drives: both controllers, the legacy one first,
/// so that whichever the guest has unmasked delivers it.
pub fn dual_irq_line(irq: u8, level: bool) -> (r: [LineDrive; 2])
    ensures
        r@ == seq![LineDrive::Pic { irq, level }, LineDrive::IoApicIsa { irq, level }],
{
    [LineDrive::Pic { irq, level }, LineDrive::IoApicIsa { irq, level }]
}

/// What an interrupt of a PCI device drives: the legacy line that its interrupt
/// is routed to and its fixed pin of the I/O APIC, each where there is one, and
/// nothing where no bridge holds the routing.
pub open spec fn intx_drives(
    has_bridge: bool,
    isa_irq: Option<u8>,
    gsi: Option<u8>,
    level: bool,
) -> Seq<LineDrive> {
    if !has_bridge {
        Seq::empty()
    } else {
        (match isa_irq {
            Some(irq) => seq![LineDrive::PicLevel { irq, level }],
            None => Seq::empty(),
        }) + (match gsi {
            Some(g) => seq![LineDrive::IoApic { gsi: g, level }],
            None => Seq::empty(),
        })
    }
}

/// The lines that an interrupt of a PCI device drives.
pub fn route_pci_intx(has_bridge: bool, isa_irq: Option<u8>, gsi: Option<u8>, level: bool) -> (r:
    Vec<LineDrive>)
    ensures
        r@ == intx_drives(has_bridge, isa_irq, gsi, level),
{
    let mut out: Vec<LineDrive> = Vec::new();
    if !has_bridge {
        return out;
    }
    if let Some(irq) = isa_irq {
        out.push(LineDrive::PicLevel { irq, level });
    }
    if let Some(g) = gsi {
        out.push(LineDrive::IoApic { gsi: g, level });
    }
    out
}

/// The lines that plugging a USB device in or out drives: the controller's
/// interrupt at its level, where a port has changed, and none where not.
pub fn hotplug_interrupt(
    changed: bool,
    has_bridge: bool,
    isa_irq: Option<u8>,
    gsi: Option<u8>,
    level: bool,
) -> (r: Vec<LineDrive>)
    ensures
        r@ == (if changed {
            intx_drives(has_bridge, isa_irq, gsi, level)
        } else {
            Seq::empty()
        }),
{
    if changed {
        route_pci_intx(has_bridge, isa_irq, gsi, level)
    } else {
        Vec::new()
    }
}

/// The length of a tick of the high-precision timer, which counts at 10 MHz.
pub const HPET_TICK_NS: u64 = 100;

/// The whole ticks of the high-precision timer in `ns` nanoseconds.
#[must_use]
pub fn hpet_ticks(ns: u64) -> (r: u64)
    ensures
        r == ns / HPET_TICK_NS,
        r * HPET_TICK_NS <= ns < (r + 1) * HPET_TICK_NS,
{
    ns / HPET_TICK_NS
}

/// What one expired timer of the high-precision timer drives. Each line is
/// pulsed. In legacy replacement timer 0 stands in for the 8254 and timer 1 for
/// the real-time clock, on both controllers; any other goes to its own pin.
pub open spec fn expiry_drives(fired: (usize, u8), legacy: bool) -> Seq<LineDrive> {
    if legacy && fired.0 <= 1 {
        let irq = if fired.0 == 0 {
            IRQ_PIT
        } else {
            IRQ_RTC
        };
        seq![
            LineDrive::Pic { irq, level: true },
            LineDrive::Pic { irq, level: false },
            LineDrive::IoApicIsa { irq, level: true },
            LineDrive::IoApicIsa { irq, level: false },
        ]
    } else {
        seq![
            LineDrive::IoApic { gsi: fired.1, level: true },
            LineDrive::IoApic { gsi: fired.1, level: false },
        ]
    }
}

/// What the first `n` expired timers drive.
pub open spec fn expiries_drive(fired: Seq<(usize, u8)>, legacy: bool, n: nat) -> Seq<LineDrive>
    decreases n,
{
    if n == 0 {
        Seq::empty()
    } else {
        expiries_drive(fired, legacy, (n - 1) as nat) + expiry_drives(fired[n - 1], legacy)
    }
}

/// The lines that the expired timers of the high-precision timer drive, in the
/// order in which they expired: a timer's number and its pin for each.
#[must_use]
pub fn deliver_expired(fired: &Vec<(usize, u8)>, legacy: bool) -> (r: Vec<LineDrive>)
    ensures
        r@ == expiries_drive(fired@, legacy, fired@.len()),
{
    let mut out: Vec<LineDrive> = Vec::new();
    let mut i: usize = 0;
    while i < fired.len()
        invariant
            i <= fired@.len(),
            out@ == expiries_drive(fired@, legacy, i as nat),
        decreases fired@.len() - i,
    {
        let timer: usize = fired[i].0;
        let gsi: u8 = fired[i].1;
        let ghost before = out@;
        if legacy && timer <= 1 {
            let irq: u8 = if timer == 0 { IRQ_PIT } else { IRQ_RTC };
            out.push(LineDrive::Pic { irq, level: true });
            out.push(LineDrive::Pic { irq, level: false });
            out.push(LineDrive::IoApicIsa { irq, level: true });
            out.push(LineDrive::IoApicIsa { irq, level: false });
        } else {
            out.push(LineDrive::IoApic { gsi, level: true });
            out.push(LineDrive::IoApic { gsi, level: false });
        }
        assert(out@ =~= before + expiry_drives(fired@[i as int], legacy));
        i = i + 1;
    }
    out
}

/// The last level that a sequence of drives gives a line, if it drives it.
pub open spec fn last_level(drives: Seq<LineDrive>, line: spec_fn(LineDrive) -> Option<bool>) -> Option<
    bool,
>
    decreases drives.len(),
{
    if drives.len() == 0 {
        None
    } else {
        match line(drives.last()) {
            Some(level) => Some(level),
            None => last_level(drives.drop_last(), line),
        }
    }
}

/// The level that a drive gives to pin `gsi` of the I/O APIC, if it drives it.
pub open spec fn pin_level(gsi: u8) -> spec_fn(LineDrive) -> Option<bool> {
    |d: LineDrive|
        match d {
            LineDrive::IoApic { gsi: g, level } => if g == gsi {
                Some(level)
            } else {
                None
            },
            _ => None,
        }
}

/// The level that a drive gives to line `irq` of the legacy controller, however
/// it is triggered.
pub open spec fn pic_level(irq: u8) -> spec_fn(LineDrive) -> Option<bool> {
    |d: LineDrive|
        match d {
            LineDrive::Pic { irq: i, level } => if i == irq {
                Some(level)
            } else {
                None
            },
            LineDrive::PicLevel { irq: i, level } => if i == irq {
                Some(level)
            } else {
                None
            },
            _ => None,
        }
}

/// The level that a drive gives to legacy line `irq` of the I/O APIC.
pub open spec fn isa_level(irq: u8) -> spec_fn(LineDrive) -> Option<bool> {
    |d: LineDrive|
        match d {
            LineDrive::IoApicIsa { irq: i, level } => if i == irq {
                Some(level)
            } else {
                None
            },
            _ => None,
        }
}

/// Expired timers interrupt by pulses: no line that they drive is left
/// asserted.
pub proof fn law_expiries_leave_no_line_asserted(
    fired: Seq<(usize, u8)>,
    legacy: bool,
    n: nat,
    line: u8,
)
    requires
        n <= fired.len(),
    ensures
        last_level(expiries_drive(fired, legacy, n), pin_level(line)) != Some(true),
        last_level(expiries_drive(fired, legacy, n), pic_level(line)) != Some(true),
        last_level(expiries_drive(fired, legacy, n), isa_level(line)) != Some(true),
    decreases n,
{
    if n > 0 {
        law_expiries_leave_no_line_asserted(fired, legacy, (n - 1) as nat, line);
        let before = expiries_drive(fired, legacy, (n - 1) as nat);
        let pulse = expiry_drives(fired[n - 1], legacy);
        lemma_last_level_append(before, pulse, pin_level(line));
        lemma_last_level_append(before, pulse, pic_level(line));
        lemma_last_level_append(before, pulse, isa_level(line));
        reveal_with_fuel(last_level, 5);
    }
}

/// The last level after two sequences of drives: the second's where it drives
/// the line, else the first's.
proof fn lemma_last_level_append(
    a: Seq<LineDrive>,
    b: Seq<LineDrive>,
    line: spec_fn(LineDrive) -> Option<bool>,
)
    ensures
        last_level(a + b, line) == (match last_level(b, line) {
            Some(level) => Some(level),
            None => last_level(a, line),
        }),
    decreases b.len(),
{
    if b.len() == 0 {
        assert(a + b =~= a);
    } else {
        assert((a + b).last() == b.last());
        assert((a + b).drop_last() =~= a + b.drop_last());
        lemma_last_level_append(a, b.drop_last(), line);
    }
}

impl LineDrive {
    /// The level that the line takes on.
    pub open spec fn level(self) -> bool {
        match self {
            LineDrive::Pic { level, .. } => level,
            LineDrive::PicLevel { level, .. } => level,
            LineDrive::IoApicIsa { level, .. } => level,
            LineDrive::IoApic { level, .. } => level,
        }
    }
}

/// An interrupt of a PCI device reaches exactly the lines that it is routed to:
/// the level-triggered line of the legacy controller and the pin of the I/O
/// APIC, each once, and each takes on the level of the interrupt.
pub proof fn law_intx_reaches_its_lines_at_its_level(
    has_bridge: bool,
    isa_irq: Option<u8>,
    gsi: Option<u8>,
    level: bool,
)
    ensures
        ({
            let d = intx_drives(has_bridge, isa_irq, gsi, level);
            &&& forall|i: int| 0 <= i < d.len() ==> (#[trigger] d[i]).level() == level
            &&& forall|i: int|
                0 <= i < d.len() ==> (#[trigger] d[i]) is PicLevel || d[i] is IoApic
            &&& forall|irq: u8|
                #![trigger d.contains(LineDrive::PicLevel { irq, level })]
                d.contains(LineDrive::PicLevel { irq, level }) <==> has_bridge && isa_irq == Some(
                    irq,
                )
            &&& forall|g: u8|
                #![trigger d.contains(LineDrive::IoApic { gsi: g, level })]
                d.contains(LineDrive::IoApic { gsi: g, level }) <==> has_bridge && gsi == Some(g)
            &&& d.no_duplicates()
        }),
{
    let d = intx_drives(has_bridge, isa_irq, gsi, level);
    if has_bridge {
        if let Some(irq) = isa_irq {
            assert(d[0] == LineDrive::PicLevel { irq, level });
        }
        if let Some(g) = gsi {
            assert(d[d.len() - 1] == LineDrive::IoApic { gsi: g, level });
        }
    }
}

/// An interrupt of a PCI device that was asserted and is then deasserted leaves
/// no line asserted, on either controller, and as long as it is asserted its
/// lines are.
pub proof fn law_intx_deasserts_what_it_asserted(
    has_bridge: bool,
    isa_irq: Option<u8>,
    gsi: Option<u8>,
    line: u8,
)
    ensures
        ({
            let on = intx_drives(has_bridge, isa_irq, gsi, true);
            let off = intx_drives(has_bridge, isa_irq, gsi, false);
            &&& last_level(on + off, pic_level(line)) != Some(true)
            &&& last_level(on + off, pin_level(line)) != Some(true)
            &&& last_level(on + off, isa_level(line)) is None
            &&& has_bridge && isa_irq == Some(line) ==> last_level(on, pic_level(line)) == Some(
                true,
            ) && last_level(on + off, pic_level(line)) == Some(false)
            &&& has_bridge && gsi == Some(line) ==> last_level(on, pin_level(line)) == Some(true)
                && last_level(on + off, pin_level(line)) == Some(false)
        }),
{
    let on = intx_drives(has_bridge, isa_irq, gsi, true);
    let off = intx_drives(has_bridge, isa_irq, gsi, false);
    lemma_last_level_append(on, off, pic_level(line));
    lemma_last_level_append(on, off, pin_level(line));
    lemma_last_level_append(on, off, isa_level(line));
    reveal_with_fuel(last_level, 4);
}

/// An expired timer pulses lines, each raised and lowered again before the next.
/// In legacy replacement timer 0 pulses line 0 and timer 1 line 8, on the legacy
/// controller and on the I/O APIC; every other timer, and without legacy
/// replacement every timer, pulses its own pin and nothing else.
pub proof fn law_expiry_pulses_its_lines(timer: usize, gsi: u8, legacy: bool)
    ensures
        ({
            let d = expiry_drives((timer, gsi), legacy);
            &&& d.len() % 2 == 0
            &&& forall|i: int| 0 <= i < d.len() ==> (#[trigger] d[i]).level() == (i % 2 == 0)
            &&& legacy && timer == 0 ==> d.len() == 4 && forall|i: int|
                0 <= i < 4 ==> match #[trigger] d[i] {
                    LineDrive::Pic { irq, .. } => irq == 0 && i < 2,
                    LineDrive::IoApicIsa { irq, .. } => irq == 0 && i >= 2,
                    _ => false,
                }
            &&& legacy && timer == 1 ==> d.len() == 4 && forall|i: int|
                0 <= i < 4 ==> match #[trigger] d[i] {
                    LineDrive::Pic { irq, .. } => irq == 8 && i < 2,
                    LineDrive::IoApicIsa { irq, .. } => irq == 8 && i >= 2,
                    _ => false,
                }
            &&& !legacy || timer > 1 ==> d.len() == 2 && forall|i: int|
                0 <= i < 2 ==> match #[trigger] d[i] {
                    LineDrive::IoApic { gsi: g, .. } => g == gsi,
                    _ => false,
                }
        }),
{
}

/// Every expired timer is delivered, in order: what the first `n` timers drive
/// starts what all of them drive, and the next timer's pulses follow it.
pub proof fn law_expiries_are_delivered_in_order(fired: Seq<(usize, u8)>, legacy: bool, n: nat)
    requires
        n < fired.len(),
    ensures
        ({
            let before = expiries_drive(fired, legacy, n);
            let all = expiries_drive(fired, legacy, fired.len());
            let pulse = expiry_drives(fired[n as int], legacy);
            &&& before.len() + pulse.len() <= all.len()
            &&& all.take(before.len() as int) == before
            &&& all.subrange(before.len() as int, (before.len() + pulse.len()) as int) == pulse
            &&& n == 0 ==> before.len() == 0
            &&& n + 1 == fired.len() ==> all.len() == before.len() + pulse.len()
        }),
{
    let before = expiries_drive(fired, legacy, n);
    let next = expiries_drive(fired, legacy, n + 1);
    let all = expiries_drive(fired, legacy, fired.len());
    let pulse = expiry_drives(fired[n as int], legacy);
    assert(next == before + pulse);
    lemma_expiries_prefix(fired, legacy, n + 1, fired.len());
    assert(all.take(next.len() as int) == next);
    assert(all.take(before.len() as int) =~= next.take(before.len() as int));
    assert(next.take(before.len() as int) =~= before);
    assert forall|i: int| 0 <= i < pulse.len() implies #[trigger] pulse[i] == all[before.len()
        + i] by {
        assert(all.take(next.len() as int)[before.len() + i] == next[before.len() + i]);
    }
    assert(all.subrange(before.len() as int, next.len() as int) =~= pulse);
}

proof fn lemma_expiries_prefix(fired: Seq<(usize, u8)>, legacy: bool, n: nat, m: nat)
    requires
        n <= m <= fired.len(),
    ensures
        ({
            let a = expiries_drive(fired, legacy, n);
            let b = expiries_drive(fired, legacy, m);
            a.len() <= b.len() && b.take(a.len() as int) == a
        }),
    decreases m,
{
    let a = expiries_drive(fired, legacy, n);
    let b = expiries_drive(fired, legacy, m);
    if n == m {
        assert(b.take(a.len() as int) =~= a);
    } else {
        let p = expiries_drive(fired, legacy, (m - 1) as nat);
        lemma_expiries_prefix(fired, legacy, n, (m - 1) as nat);
        assert(b.take(a.len() as int) =~= p.take(a.len() as int));
    }
}

/// Without legacy replacement, timer `i` of the expired ones pulses its pin as
/// drives number `2 i` and `2 i + 1`.
pub proof fn law_expiries_pulse_their_pins(fired: Seq<(usize, u8)>, n: nat)
    requires
        n <= fired.len(),
    ensures
        ({
            let d = expiries_drive(fired, false, n);
            &&& d.len() == 2 * n
            &&& forall|i: int|
                0 <= i < 2 * n ==> (#[trigger] d[i]) == (LineDrive::IoApic {
                    gsi: fired[i / 2].1,
                    level: i % 2 == 0,
                })
        }),
    decreases n,
{
    if n > 0 {
        law_expiries_pulse_their_pins(fired, (n - 1) as nat);
    }
}

/// The high-precision timer counts ten million ticks in a second.
pub proof fn law_timer_counts_at_10_mhz(seconds: u64)
    requires
        seconds * 1_000_000_000 <= u64::MAX,
    ensures
        seconds * 1_000_000_000 / HPET_TICK_NS as int == seconds * 10_000_000,
{
}

/// The requests that a poll leaves are those that it did not answer: a sleep is
/// answered alone, and a reset from either source answers both.
pub proof fn law_poll_answers_what_was_raised(latches: PlatformLatches)
    ensures
        ({
            let e = most_urgent(latches);
            let left = once_served(latches);
            &&& e is None <==> latches.sleep is None && !latches.system_reset
                && !latches.pci_reset
            &&& latches.sleep matches Some(t) ==> e == Some(PlatformEvent::Sleep(t))
            &&& e matches Some(PlatformEvent::Sleep(t)) ==> latches.sleep == Some(t)
            &&& left.sleep is None
            &&& left.system_reset <==> latches.sleep is Some && latches.system_reset
            &&& left.pci_reset <==> latches.sleep is Some && latches.pci_reset
        }),
{
}

} // verus!
