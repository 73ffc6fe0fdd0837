//! The devices of a standard PC: which are mounted, in what order, on which
//! addresses and with which interrupt lines.
use crate::device_bus::{IRQ_COM1, IRQ_KEYBOARD, IRQ_MOUSE, IRQ_PIT, IRQ_RTC};
use vstd::prelude::*;

verus! {

/// Where the PCI Express configuration window starts. The firmware tables
/// advertise the same address.
pub const DEFAULT_ECAM_BASE: u64 = 0xB000_0000;

/// The size of that window: 256 buses of 1 MiB each.
pub const ECAM_SIZE: u64 = 0x1000_0000;

/// The PCI device number of the USB controller, on bus 0.
pub const XHCI_DEVICE: u8 = 4;

/// The interrupt pin of the USB controller: INTA#.
pub const XHCI_PIN: u8 = 1;

/// The PCI device number of the SMBus controller, on bus 0.
pub const SMBUS_DEVICE: u8 = 31;

/// The interrupt pin of the SMBus controller: INTB#.
pub const SMBUS_PIN: u8 = 2;

/// Where the USB controller's registers start.
pub const XHCI_MMIO_BASE: u64 = 0xFE90_0000;

/// The size of the USB controller's register window.
pub const XHCI_MMIO_SIZE: u64 = 0x1_0000;

/// The ports of the USB controller's root hub.
pub const XHCI_PORTS: u8 = 4;

/// The interrupt controllers that a device's line is wired to.
#[derive(Debug, Clone, Copy, PartialEq, Eq, Structural)]
pub enum Wiring {
    /// To none.
    Unwired,
    /// To the I/O APIC.
    IoApic,
    /// To the legacy controller.
    Pic,
    /// To both, as in hardware.
    Both,
}

/// A device to be mounted.
#[derive(Debug, Clone, Copy, PartialEq, Eq, Structural)]
pub enum Mount {
    /// The first serial port.
    Serial { irq: u8, wiring: Wiring },
    /// The 8254 timer.
    Pit { irq: u8, wiring: Wiring },
    /// The speaker and refresh port.
    SystemControlB,
    /// The fast reset port.
    SystemControlA,
    /// The real-time clock, set to this time, on both controllers.
    Rtc { irq: u8, unix_secs: u64 },
    /// The keyboard and mouse controller, on both controllers.
    Ps2 { keyboard_irq: u8, mouse_irq: u8 },
    /// The legacy interrupt controllers.
    Pic,
    /// The I/O APIC, with one local APIC for each of so many vCPUs.
    IoApic { vcpu_count: u8 },
    /// The high-precision timer.
    Hpet,
    /// The ACPI timer.
    PmTimer,
    /// The ACPI event and control block.
    Pm1,
    /// The port that switches ACPI on.
    SmiCommand,
    /// The ACPI general-purpose events.
    Gpe0,
    /// The DMA controllers and their page registers.
    Dma,
    /// PCI Express: the configuration ports and the configuration window, with
    /// a host bridge where there is none yet.
    Pcie { ecam_base: u64 },
    /// The configuration space of the LPC bridge, where there is none yet.
    LpcBridge,
    /// The configuration space of the SMBus controller, where there is none yet.
    SmbusFunction,
    /// The registers of the SMBus controller: a first port and how many.
    SmbusHost { base: u16, len: u16 },
    /// The configuration space of the USB controller, where there is none yet.
    XhciFunction { device: u8, base: u64 },
    /// The registers of the USB controller. With `guest_transfers` it works off
    /// the transfer rings in the guest's memory, as hardware does.
    Xhci { base: u64, size: u64, ports: u8, guest_transfers: bool },
}

/// The two address spaces of a bus.
#[derive(Debug, Clone, Copy, PartialEq, Eq, Structural)]
pub enum Space {
    /// Ports.
    Pio,
    /// Memory addresses.
    Mmio,
}

impl Mount {
    /// The device answers at this address.
    pub open spec fn answers_at(self, space: Space, addr: int) -> bool {
        let pio = space == Space::Pio;
        let mmio = space == Space::Mmio;
        match self {
            Mount::Serial { .. } => pio && 0x3F8 <= addr < 0x400,
            Mount::Pit { .. } => pio && 0x40 <= addr < 0x44,
            Mount::SystemControlB => pio && addr == 0x61,
            Mount::SystemControlA => pio && addr == 0x92,
            Mount::Rtc { .. } => pio && 0x70 <= addr < 0x72,
            Mount::Ps2 { .. } => pio && (addr == 0x60 || addr == 0x64),
            Mount::Pic => pio && (0x20 <= addr < 0x22 || 0xA0 <= addr < 0xA2 || 0x4D0 <= addr
                < 0x4D2),
            Mount::IoApic { .. } => mmio && 0xFEC0_0000 <= addr < 0xFEC0_1000,
            Mount::Hpet => mmio && 0xFED0_0000 <= addr < 0xFED0_0400,
            Mount::PmTimer => pio && 0x608 <= addr < 0x60C,
            Mount::Pm1 => pio && 0x600 <= addr < 0x606,
            Mount::SmiCommand => pio && addr == 0xB2,
            Mount::Gpe0 => pio && 0x620 <= addr < 0x630,
            Mount::Dma => pio && (0 <= addr < 0x10 || 0x80 <= addr < 0x90 || 0xC0 <= addr < 0xE0),
            Mount::Pcie { ecam_base } => (pio && 0xCF8 <= addr < 0xD00) || (mmio && ecam_base
                <= addr < ecam_base + ECAM_SIZE),
            Mount::SmbusHost { base, len } => pio && base <= addr < base + len,
            Mount::Xhci { base, size, .. } => mmio && base <= addr < base + size,
            Mount::LpcBridge => false,
            Mount::SmbusFunction => false,
            Mount::XhciFunction { .. } => false,
        }
    }

    /// The PCI device number and the pin that the device's interrupt arrives
    /// on; `None` for a device that is not on the PCI bus or raises none.
    pub open spec fn pci_pin(self) -> Option<(u8, u8)> {
        match self {
            Mount::SmbusHost { .. } => Some((SMBUS_DEVICE, SMBUS_PIN)),
            Mount::Xhci { .. } => Some((XHCI_DEVICE, XHCI_PIN)),
            _ => None,
        }
    }

    /// The PCI device number and the pin that the device's interrupt arrives
    /// on; `None` for a device that is not on the PCI bus or raises none.
    #[must_use]
    pub fn pci_interrupt(&self) -> (r: Option<(u8, u8)>)
        ensures
            r == self.pci_pin(),
    {
        match *self {
            Mount::SmbusHost { .. } => Some((SMBUS_DEVICE, SMBUS_PIN)),
            Mount::Xhci { .. } => Some((XHCI_DEVICE, XHCI_PIN)),
            _ => None,
        }
    }

    /// Whether the device answers at this address.
    pub fn claims(&self, space: Space, addr: u64) -> (r: bool)
        ensures
            r == self.answers_at(space, addr as int),
    {
        let pio: bool = matches!(space, Space::Pio);
        let mmio: bool = matches!(space, Space::Mmio);
        match *self {
            Mount::Serial { .. } => pio && 0x3F8 <= addr && addr < 0x400,
            Mount::Pit { .. } => pio && 0x40 <= addr && addr < 0x44,
            Mount::SystemControlB => pio && addr == 0x61,
            Mount::SystemControlA => pio && addr == 0x92,
            Mount::Rtc { .. } => pio && 0x70 <= addr && addr < 0x72,
            Mount::Ps2 { .. } => pio && (addr == 0x60 || addr == 0x64),
            Mount::Pic => pio && (addr == 0x20 || addr == 0x21 || addr == 0xA0 || addr == 0xA1
                || addr == 0x4D0 || addr == 0x4D1),
            Mount::IoApic { .. } => mmio && 0xFEC0_0000 <= addr && addr < 0xFEC0_1000,
            Mount::Hpet => mmio && 0xFED0_0000 <= addr && addr < 0xFED0_0400,
            Mount::PmTimer => pio && 0x608 <= addr && addr < 0x60C,
            Mount::Pm1 => pio && 0x600 <= addr && addr < 0x606,
            Mount::SmiCommand => pio && addr == 0xB2,
            Mount::Gpe0 => pio && 0x620 <= addr && addr < 0x630,
            Mount::Dma => pio && (addr < 0x10 || (0x80 <= addr && addr < 0x90) || (0xC0 <= addr
                && addr < 0xE0)),
            Mount::Pcie { ecam_base } => (pio && 0xCF8 <= addr && addr < 0xD00) || (mmio
                && ecam_base <= addr && addr - ecam_base < ECAM_SIZE),
            Mount::SmbusHost { base, len } => pio && base as u64 <= addr && addr - (base as u64)
                < len as u64,
            Mount::Xhci { base, size, .. } => mmio && base <= addr && addr - base < size,
            Mount::LpcBridge => false,
            Mount::SmbusFunction => false,
            Mount::XhciFunction { .. } => false,
        }
    }
}

/// Some device of the plan answers at this address.
pub open spec fn answered(plan: Seq<Mount>, space: Space, addr: int) -> bool {
    exists|i: int| 0 <= i < plan.len() && (#[trigger] plan[i]).answers_at(space, addr)
}

/// Whether some device of the plan answers at this address.
#[must_use]
pub fn is_mapped(plan: &Vec<Mount>, space: Space, addr: u64) -> (r: bool)
    ensures
        r == answered(plan@, space, addr as int),
{
    let mut i: usize = 0;
    while i < plan.len()
        invariant
            i <= plan@.len(),
            forall|j: int|
                0 <= j < i ==> !(#[trigger] plan@[j]).answers_at(space, addr as int),
        decreases plan@.len() - i,
    {
        if plan[i].claims(space, addr) {
            assert(plan@[i as int].answers_at(space, addr as int));
            return true;
        }
        i = i + 1;
    }
    false
}

/// The smallest PC: a serial port, the timer and PCI Express, with the
/// controllers that the lines are wired to. The I/O APIC serves `vcpu_count`
/// vCPUs.
pub open spec fn standard_pc_plan(wiring: Wiring, vcpu_count: u8) -> Seq<Mount> {
    seq![Mount::Serial { irq: IRQ_COM1, wiring }, Mount::Pit { irq: IRQ_PIT, wiring }]
        + (match wiring {
        Wiring::Unwired => Seq::empty(),
        Wiring::IoApic => seq![Mount::IoApic { vcpu_count }],
        Wiring::Pic => seq![Mount::Pic],
        Wiring::Both => seq![Mount::Pic, Mount::IoApic { vcpu_count }],
    }) + seq![Mount::Pcie { ecam_base: DEFAULT_ECAM_BASE }]
}

/// The smallest PC with its lines wired as given, and the controllers that
/// they are wired to.
fn wired_pc(wiring: Wiring, vcpu_count: u8) -> (r: Vec<Mount>)
    ensures
        r@ == standard_pc_plan(wiring, vcpu_count),
{
    let mut plan: Vec<Mount> = Vec::new();
    plan.push(Mount::Serial { irq: IRQ_COM1, wiring });
    plan.push(Mount::Pit { irq: IRQ_PIT, wiring });
    match wiring {
        Wiring::Unwired => {},
        Wiring::IoApic => plan.push(Mount::IoApic { vcpu_count }),
        Wiring::Pic => plan.push(Mount::Pic),
        Wiring::Both => {
            plan.push(Mount::Pic);
            plan.push(Mount::IoApic { vcpu_count });
        },
    }
    plan.push(Mount::Pcie { ecam_base: DEFAULT_ECAM_BASE });
    plan
}

/// A serial port, the timer and PCI Express, without interrupts.
#[must_use]
pub fn standard_pc() -> (r: Vec<Mount>)
    ensures
        r@ == standard_pc_plan(Wiring::Unwired, 0),
{
    wired_pc(Wiring::Unwired, 0)
}

/// The same with the lines wired to the I/O APIC of `vcpu_count` vCPUs.
#[must_use]
pub fn standard_pc_with_interrupts(vcpu_count: u8) -> (r: Vec<Mount>)
    ensures
        r@ == standard_pc_plan(Wiring::IoApic, vcpu_count),
{
    wired_pc(Wiring::IoApic, vcpu_count)
}

/// The same with the lines wired to the legacy controller.
#[must_use]
pub fn standard_pc_with_pic() -> (r: Vec<Mount>)
    ensures
        r@ == standard_pc_plan(Wiring::Pic, 0),
{
    wired_pc(Wiring::Pic, 0)
}

/// The same with the lines wired to both controllers.
#[must_use]
pub fn standard_pc_with_dual_irq(vcpu_count: u8) -> (r: Vec<Mount>)
    ensures
        r@ == standard_pc_plan(Wiring::Both, vcpu_count),
{
    wired_pc(Wiring::Both, vcpu_count)
}

/// The complete PC: every device that a guest touches at boot, with its line
/// wired to both controllers.
pub open spec fn complete_pc_plan(
    rtc_unix_secs: u64,
    vcpu_count: u8,
    smbus_base: u16,
    smbus_len: u16,
) -> Seq<Mount> {
    seq![
        Mount::Serial { irq: IRQ_COM1, wiring: Wiring::Both },
        Mount::Pit { irq: IRQ_PIT, wiring: Wiring::Both },
        Mount::SystemControlB,
        Mount::SystemControlA,
        Mount::Rtc { irq: IRQ_RTC, unix_secs: rtc_unix_secs },
        Mount::Ps2 { keyboard_irq: IRQ_KEYBOARD, mouse_irq: IRQ_MOUSE },
        Mount::Pic,
        Mount::IoApic { vcpu_count },
        Mount::Hpet,
        Mount::PmTimer,
        Mount::Pm1,
        Mount::SmiCommand,
        Mount::Gpe0,
        Mount::Dma,
        Mount::Pcie { ecam_base: DEFAULT_ECAM_BASE },
        Mount::LpcBridge,
        Mount::SmbusFunction,
        Mount::SmbusHost { base: smbus_base, len: smbus_len },
        Mount::XhciFunction { device: XHCI_DEVICE, base: XHCI_MMIO_BASE },
        Mount::Xhci {
            base: XHCI_MMIO_BASE,
            size: XHCI_MMIO_SIZE,
            ports: XHCI_PORTS,
            guest_transfers: true,
        },
    ]
}

/// The devices of a complete PC, in the order in which they are mounted, with
/// the clock set to `rtc_unix_secs`, a local APIC for each of `vcpu_count`
/// vCPUs, and the SMBus controller's registers at `smbus_len` ports from
/// `smbus_base`.
#[must_use]
pub fn standard_pc_complete(
    rtc_unix_secs: u64,
    vcpu_count: u8,
    smbus_base: u16,
    smbus_len: u16,
) -> (r: Vec<Mount>)
    ensures
        r@ == complete_pc_plan(rtc_unix_secs, vcpu_count, smbus_base, smbus_len),
{
    let mut plan: Vec<Mount> = Vec::new();
    plan.push(Mount::Serial { irq: IRQ_COM1, wiring: Wiring::Both });
    plan.push(Mount::Pit { irq: IRQ_PIT, wiring: Wiring::Both });
    plan.push(Mount::SystemControlB);
    plan.push(Mount::SystemControlA);
    plan.push(Mount::Rtc { irq: IRQ_RTC, unix_secs: rtc_unix_secs });
    plan.push(Mount::Ps2 { keyboard_irq: IRQ_KEYBOARD, mouse_irq: IRQ_MOUSE });
    plan.push(Mount::Pic);
    plan.push(Mount::IoApic { vcpu_count });
    plan.push(Mount::Hpet);
    plan.push(Mount::PmTimer);
    plan.push(Mount::Pm1);
    // The port that switches ACPI on acts on the block mounted just before.
    plan.push(Mount::SmiCommand);
    plan.push(Mount::Gpe0);
    plan.push(Mount::Dma);
    plan.push(Mount::Pcie { ecam_base: DEFAULT_ECAM_BASE });
    plan.push(Mount::LpcBridge);
    plan.push(Mount::SmbusFunction);
    plan.push(Mount::SmbusHost { base: smbus_base, len: smbus_len });
    plan.push(Mount::XhciFunction { device: XHCI_DEVICE, base: XHCI_MMIO_BASE });
    plan.push(
        Mount::Xhci {
            base: XHCI_MMIO_BASE,
            size: XHCI_MMIO_SIZE,
            ports: XHCI_PORTS,
            guest_transfers: true,
        },
    );
    plan
}

/// No address is answered by two devices of the plan.
pub open spec fn without_overlap(plan: Seq<Mount>) -> bool {
    forall|i: int, j: int, space: Space, addr: int|
        0 <= i < plan.len() && 0 <= j < plan.len() && #[trigger] plan[i].answers_at(space, addr)
            && #[trigger] plan[j].answers_at(space, addr) ==> i == j
}

/// A number for each kind of device.
spec fn kind(m: Mount) -> int {
    match m {
        Mount::Serial { .. } => 0,
        Mount::Pit { .. } => 1,
        Mount::SystemControlB => 2,
        Mount::SystemControlA => 3,
        Mount::Rtc { .. } => 4,
        Mount::Ps2 { .. } => 5,
        Mount::Pic => 6,
        Mount::IoApic { .. } => 7,
        Mount::Hpet => 8,
        Mount::PmTimer => 9,
        Mount::Pm1 => 10,
        Mount::SmiCommand => 11,
        Mount::Gpe0 => 12,
        Mount::Dma => 13,
        Mount::Pcie { .. } => 14,
        Mount::LpcBridge => 15,
        Mount::SmbusFunction => 16,
        Mount::SmbusHost { .. } => 17,
        Mount::XhciFunction { .. } => 18,
        Mount::Xhci { .. } => 19,
    }
}

/// The device stands at its usual place, and is not the SMBus controller.
spec fn usual(m: Mount) -> bool {
    match m {
        Mount::Pcie { ecam_base } => ecam_base == DEFAULT_ECAM_BASE,
        Mount::SmbusHost { .. } => false,
        Mount::Xhci { base, size, .. } => base == XHCI_MMIO_BASE && size == XHCI_MMIO_SIZE,
        _ => true,
    }
}

/// Devices of different kinds at their usual places have no address in common.
proof fn lemma_kinds_are_apart(a: Mount, b: Mount, space: Space, addr: int)
    requires
        usual(a),
        usual(b),
        a.answers_at(space, addr),
        b.answers_at(space, addr),
    ensures
        kind(a) == kind(b),
{
}

/// The devices of the small PCs do not overlap, so mounting them cannot fail.
pub proof fn law_small_pcs_are_without_overlap(wiring: Wiring, vcpu_count: u8)
    ensures
        without_overlap(standard_pc_plan(wiring, vcpu_count)),
{
    let plan = standard_pc_plan(wiring, vcpu_count);
    assert forall|i: int, j: int, space: Space, addr: int|
        0 <= i < plan.len() && 0 <= j < plan.len() && #[trigger] plan[i].answers_at(space, addr)
            && #[trigger] plan[j].answers_at(space, addr) implies i == j by {
        lemma_kinds_are_apart(plan[i], plan[j], space, addr);
    }
}

/// The devices of the complete PC do not overlap, so mounting them cannot fail,
/// where the SMBus controller's ports are free.
pub proof fn law_complete_pc_is_without_overlap(
    rtc_unix_secs: u64,
    vcpu_count: u8,
    smbus_base: u16,
    smbus_len: u16,
)
    requires
        forall|i: int, addr: int|
            0 <= i < 20 && i != 17 && smbus_base <= addr < smbus_base + smbus_len
                ==> !#[trigger] complete_pc_plan(
                rtc_unix_secs,
                vcpu_count,
                smbus_base,
                smbus_len,
            )[i].answers_at(Space::Pio, addr),
    ensures
        without_overlap(complete_pc_plan(rtc_unix_secs, vcpu_count, smbus_base, smbus_len)),
{
    let plan = complete_pc_plan(rtc_unix_secs, vcpu_count, smbus_base, smbus_len);
    assert forall|i: int| 0 <= i < plan.len() implies kind(#[trigger] plan[i]) == i && (i != 17
        ==> usual(plan[i])) by {
    }
    assert forall|i: int, j: int, space: Space, addr: int|
        0 <= i < plan.len() && 0 <= j < plan.len() && #[trigger] plan[i].answers_at(space, addr)
            && #[trigger] plan[j].answers_at(space, addr) implies i == j by {
        if i != 17 && j != 17 {
            lemma_kinds_are_apart(plan[i], plan[j], space, addr);
        }
    }
}

/// The ports through which firmware tables are delivered.
pub open spec fn is_firmware_port(addr: int) -> bool {
    0x510 <= addr < 0x512
}

/// The complete PC leaves the ports for firmware tables free, where the SMBus
/// controller does.
pub proof fn law_complete_pc_leaves_firmware_ports_free(
    rtc_unix_secs: u64,
    vcpu_count: u8,
    smbus_base: u16,
    smbus_len: u16,
    addr: int,
)
    requires
        is_firmware_port(addr),
        !(smbus_base <= addr < smbus_base + smbus_len),
    ensures
        !answered(
            complete_pc_plan(rtc_unix_secs, vcpu_count, smbus_base, smbus_len),
            Space::Pio,
            addr,
        ),
{
}

// ---------------------------------------------------------------------------
// The LPC bridge
// ---------------------------------------------------------------------------

/// A write to a PCI function's configuration space.
#[derive(Debug, Clone, Copy, PartialEq, Eq, Structural)]
pub enum ConfigWrite {
    /// The header type.
    HeaderType(u8),
    /// The subsystem ids.
    Subsystem { vendor: u16, device: u16 },
    /// A byte.
    Byte { offset: u16, value: u8 },
    /// Four bytes.
    Dword { offset: u16, value: u32 },
}

/// What the LPC bridge is set up with.
#[derive(Debug, Clone, Copy)]
pub struct LpcSetup {
    /// The board's subsystem ids.
    pub subsystem_vendor: u16,
    pub subsystem_device: u16,
    /// Where the base of the ACPI ports is kept.
    pub pmbase_offset: u16,
    /// The first of the ACPI ports.
    pub pm_port: u16,
    /// Where ACPI is enabled.
    pub acpi_cntl_offset: u16,
    /// The bit that enables it.
    pub acpi_enable: u8,
    /// The bits that select its interrupt.
    pub sci_select: u8,
    /// Where the routing of the first interrupt line is kept; the others
    /// follow it.
    pub pirq_base: u16,
    /// The routing of the four lines.
    pub pirq_irqs: [u8; 4],
}

/// The header type of a device with several functions.
pub const MULTIFUNCTION: u8 = 0x80;

/// The writes that set the LPC bridge up.
pub open spec fn lpc_writes(s: LpcSetup) -> Seq<ConfigWrite> {
    seq![
        ConfigWrite::HeaderType(MULTIFUNCTION),
        ConfigWrite::Subsystem { vendor: s.subsystem_vendor, device: s.subsystem_device },
        ConfigWrite::Dword { offset: s.pmbase_offset, value: (s.pm_port as u32) | 1 },
        ConfigWrite::Byte { offset: s.acpi_cntl_offset, value: s.acpi_enable | s.sci_select },
    ] + Seq::new(
        4,
        |line: int|
            ConfigWrite::Byte { offset: (s.pirq_base + line) as u16, value: s.pirq_irqs@[line] },
    )
}

/// The writes that set the LPC bridge up, as firmware does: it has several
/// functions, the board's subsystem ids, the ACPI ports at their base and
/// enabled, and the four interrupt lines routed.
#[must_use]
pub fn lpc_bridge_config(setup: &LpcSetup) -> (r: Vec<ConfigWrite>)
    requires
        setup.pirq_base + 3 <= u16::MAX,
    ensures
        r@ == lpc_writes(*setup),
{
    let mut out: Vec<ConfigWrite> = Vec::new();
    out.push(ConfigWrite::HeaderType(MULTIFUNCTION));
    out.push(
        ConfigWrite::Subsystem { vendor: setup.subsystem_vendor, device: setup.subsystem_device },
    );
    out.push(
        ConfigWrite::Dword { offset: setup.pmbase_offset, value: (setup.pm_port as u32) | 1 },
    );
    out.push(
        ConfigWrite::Byte {
            offset: setup.acpi_cntl_offset,
            value: setup.acpi_enable | setup.sci_select,
        },
    );
    let mut line: usize = 0;
    while line < 4
        invariant
            line <= 4,
            setup.pirq_base + 3 <= u16::MAX,
            out@ == lpc_writes(*setup).take(4 + line as int),
        decreases 4 - line,
    {
        out.push(
            ConfigWrite::Byte {
                offset: setup.pirq_base + line as u16,
                value: setup.pirq_irqs[line],
            },
        );
        line = line + 1;
    }
    assert(lpc_writes(*setup).take(8) =~= lpc_writes(*setup));
    out
}

/// The base of the ACPI ports reads back from what is written for it, with the
/// bit that marks it as a port, for every base that the register can hold.
pub proof fn law_pmbase_reads_back(pm_port: u16)
    requires
        pm_port % 0x80 == 0,
    ensures
        ((pm_port as u32) | 1) & 0xFF80 == pm_port,
        ((pm_port as u32) | 1) & 1 == 1,
{
    assert(((pm_port as u32) | 1) & 0xFF80 == pm_port && ((pm_port as u32) | 1) & 1 == 1)
        by (bit_vector)
        requires
            pm_port % 0x80 == 0,
    ;
}

// ---------------------------------------------------------------------------
// Who answers where
// ---------------------------------------------------------------------------

/// The complete PC answers at the ports and addresses of a standard PC, and at
/// the SMBus controller's ports, and nowhere else.
pub proof fn law_where_the_complete_pc_answers(
    rtc_unix_secs: u64,
    vcpu_count: u8,
    smbus_base: u16,
    smbus_len: u16,
    a: int,
)
    ensures
        ({
            let plan = complete_pc_plan(rtc_unix_secs, vcpu_count, smbus_base, smbus_len);
            &&& answered(plan, Space::Pio, a) <==> {
                ||| 0x3F8 <= a <= 0x3FF
                ||| 0x40 <= a <= 0x43
                ||| a == 0x61 || a == 0x92
                ||| a == 0x70 || a == 0x71
                ||| a == 0x60 || a == 0x64
                ||| a == 0x20 || a == 0x21 || a == 0xA0 || a == 0xA1 || a == 0x4D0 || a == 0x4D1
                ||| 0x600 <= a <= 0x605
                ||| 0x608 <= a <= 0x60B
                ||| 0x620 <= a <= 0x62F
                ||| a == 0xB2
                ||| 0 <= a <= 0xF
                ||| 0x80 <= a <= 0x8F
                ||| 0xC0 <= a <= 0xDF
                ||| 0xCF8 <= a <= 0xCFF
                ||| smbus_base <= a < smbus_base + smbus_len
            }
            &&& answered(plan, Space::Mmio, a) <==> {
                ||| 0xFEC0_0000 <= a <= 0xFEC0_0FFF
                ||| 0xFED0_0000 <= a <= 0xFED0_03FF
                ||| 0xB000_0000 <= a <= 0xBFFF_FFFF
                ||| 0xFE90_0000 <= a <= 0xFE90_FFFF
            }
        }),
{
    let plan = complete_pc_plan(rtc_unix_secs, vcpu_count, smbus_base, smbus_len);
    assert(forall|space: Space| #[trigger]
        plan[0].answers_at(space, a) ==> answered(plan, space, a));
    assert(forall|space: Space| #[trigger]
        plan[1].answers_at(space, a) ==> answered(plan, space, a));
    assert(forall|space: Space| #[trigger]
        plan[2].answers_at(space, a) ==> answered(plan, space, a));
    assert(forall|space: Space| #[trigger]
        plan[3].answers_at(space, a) ==> answered(plan, space, a));
    assert(forall|space: Space| #[trigger]
        plan[4].answers_at(space, a) ==> answered(plan, space, a));
    assert(forall|space: Space| #[trigger]
        plan[5].answers_at(space, a) ==> answered(plan, space, a));
    assert(forall|space: Space| #[trigger]
        plan[6].answers_at(space, a) ==> answered(plan, space, a));
    assert(forall|space: Space| #[trigger]
        plan[7].answers_at(space, a) ==> answered(plan, space, a));
    assert(forall|space: Space| #[trigger]
        plan[8].answers_at(space, a) ==> answered(plan, space, a));
    assert(forall|space: Space| #[trigger]
        plan[9].answers_at(space, a) ==> answered(plan, space, a));
    assert(forall|space: Space| #[trigger]
        plan[10].answers_at(space, a) ==> answered(plan, space, a));
    assert(forall|space: Space| #[trigger]
        plan[11].answers_at(space, a) ==> answered(plan, space, a));
    assert(forall|space: Space| #[trigger]
        plan[12].answers_at(space, a) ==> answered(plan, space, a));
    assert(forall|space: Space| #[trigger]
        plan[13].answers_at(space, a) ==> answered(plan, space, a));
    assert(forall|space: Space| #[trigger]
        plan[14].answers_at(space, a) ==> answered(plan, space, a));
    assert(forall|space: Space| #[trigger]
        plan[17].answers_at(space, a) ==> answered(plan, space, a));
    assert(forall|space: Space| #[trigger]
        plan[19].answers_at(space, a) ==> answered(plan, space, a));
    assert(plan[0].answers_at(Space::Pio, a) <==> 0x3F8 <= a <= 0x3FF);
    assert(plan[1].answers_at(Space::Pio, a) <==> 0x40 <= a <= 0x43);
    assert(plan[2].answers_at(Space::Pio, a) <==> a == 0x61);
    assert(plan[3].answers_at(Space::Pio, a) <==> a == 0x92);
    assert(plan[4].answers_at(Space::Pio, a) <==> a == 0x70 || a == 0x71);
    assert(plan[5].answers_at(Space::Pio, a) <==> a == 0x60 || a == 0x64);
    assert(plan[6].answers_at(Space::Pio, a) <==> a == 0x20 || a == 0x21 || a == 0xA0 || a == 0xA1
        || a == 0x4D0 || a == 0x4D1);
    assert(plan[7].answers_at(Space::Mmio, a) <==> 0xFEC0_0000 <= a <= 0xFEC0_0FFF);
    assert(plan[8].answers_at(Space::Mmio, a) <==> 0xFED0_0000 <= a <= 0xFED0_03FF);
    assert(plan[9].answers_at(Space::Pio, a) <==> 0x608 <= a <= 0x60B);
    assert(plan[10].answers_at(Space::Pio, a) <==> 0x600 <= a <= 0x605);
    assert(plan[11].answers_at(Space::Pio, a) <==> a == 0xB2);
    assert(plan[12].answers_at(Space::Pio, a) <==> 0x620 <= a <= 0x62F);
    assert(plan[13].answers_at(Space::Pio, a) <==> 0 <= a <= 0xF || 0x80 <= a <= 0x8F || 0xC0 <= a
        <= 0xDF);
    assert(plan[14].answers_at(Space::Pio, a) <==> 0xCF8 <= a <= 0xCFF);
    assert(plan[14].answers_at(Space::Mmio, a) <==> 0xB000_0000 <= a <= 0xBFFF_FFFF);
    assert(plan[17].answers_at(Space::Pio, a) <==> smbus_base <= a < smbus_base + smbus_len);
    assert(plan[19].answers_at(Space::Mmio, a) <==> 0xFE90_0000 <= a <= 0xFE90_FFFF);
}

/// Which device an address leads to: each answers in its own range only.
pub proof fn law_each_device_answers_in_its_own_range(m: Mount, space: Space, a: int)
    requires
        m.answers_at(space, a),
    ensures
        space is Pio ==> {
            &&& m is Serial ==> 0x3F8 <= a <= 0x3FF
            &&& m is Pit ==> 0x40 <= a <= 0x43
            &&& m is SystemControlB ==> a == 0x61
            &&& m is SystemControlA ==> a == 0x92
            &&& m is Rtc ==> a == 0x70 || a == 0x71
            &&& m is Ps2 ==> a == 0x60 || a == 0x64
            &&& m is Pic ==> a == 0x20 || a == 0x21 || a == 0xA0 || a == 0xA1 || a == 0x4D0 || a
                == 0x4D1
            &&& m is PmTimer ==> 0x608 <= a <= 0x60B
            &&& m is Pm1 ==> 0x600 <= a <= 0x605
            &&& m is SmiCommand ==> a == 0xB2
            &&& m is Gpe0 ==> 0x620 <= a <= 0x62F
            &&& m is Dma ==> 0 <= a <= 0xF || 0x80 <= a <= 0x8F || 0xC0 <= a <= 0xDF
            &&& m is Pcie ==> 0xCF8 <= a <= 0xCFF
            &&& !(m is IoApic) && !(m is Hpet) && !(m is Xhci)
        },
        space is Mmio ==> {
            &&& m is IoApic || m is Hpet || m is Pcie || m is Xhci
            &&& m is IoApic ==> 0xFEC0_0000 <= a <= 0xFEC0_0FFF
            &&& m is Hpet ==> 0xFED0_0000 <= a <= 0xFED0_03FF
        },
        !(m is LpcBridge) && !(m is SmbusFunction) && !(m is XhciFunction),
        m matches Mount::SmbusHost { base, len } ==> base <= a < base + len,
        m matches Mount::Xhci { base, size, .. } ==> base <= a < base + size,
        m matches Mount::Pcie { ecam_base } ==> space is Mmio ==> ecam_base <= a < ecam_base
            + 0x1000_0000,
{
}

/// The complete PC has one of each device, in the order in which they depend on
/// each other: the lines of a standard PC on both controllers, a clock set to the
/// given time, a local APIC for each vCPU, the SMBus controller where it was
/// asked for, and a USB controller with four ports that works in guest memory.
pub proof fn law_what_the_complete_pc_holds(
    rtc_unix_secs: u64,
    vcpu_count: u8,
    smbus_base: u16,
    smbus_len: u16,
)
    ensures
        ({
            let p = complete_pc_plan(rtc_unix_secs, vcpu_count, smbus_base, smbus_len);
            &&& p.len() == 20
            &&& p[0] matches Mount::Serial { irq, wiring } && irq == 4 && wiring is Both
            &&& p[1] matches Mount::Pit { irq, wiring } && irq == 0 && wiring is Both
            &&& p[2] is SystemControlB && p[3] is SystemControlA
            &&& p[4] matches Mount::Rtc { irq, unix_secs } && irq == 8 && unix_secs
                == rtc_unix_secs
            &&& p[5] matches Mount::Ps2 { keyboard_irq, mouse_irq } && keyboard_irq == 1
                && mouse_irq == 12
            &&& p[6] is Pic
            &&& p[7] matches Mount::IoApic { vcpu_count: n } && n == vcpu_count
            &&& p[8] is Hpet && p[9] is PmTimer && p[10] is Pm1 && p[11] is SmiCommand
            &&& p[12] is Gpe0 && p[13] is Dma
            &&& p[14] matches Mount::Pcie { ecam_base } && ecam_base == 0xB000_0000
            &&& p[15] is LpcBridge && p[16] is SmbusFunction
            &&& p[17] matches Mount::SmbusHost { base, len } && base == smbus_base && len
                == smbus_len
            &&& p[18] matches Mount::XhciFunction { device, base } && device == 4 && base
                == 0xFE90_0000
            &&& p[19] matches Mount::Xhci { base, size, ports, guest_transfers } && base
                == 0xFE90_0000 && size == 0x1_0000 && ports == 4 && guest_transfers
        }),
{
}

/// The small PCs have a serial port on line 4, a timer on line 0 and PCI Express,
/// wired as asked for, and exactly the controllers that they are wired to.
pub proof fn law_what_the_small_pcs_hold(wiring: Wiring, vcpu_count: u8)
    ensures
        ({
            let p = standard_pc_plan(wiring, vcpu_count);
            let pic: int = if wiring is Pic || wiring is Both {
                1
            } else {
                0
            };
            let apic: int = if wiring is IoApic || wiring is Both {
                1
            } else {
                0
            };
            &&& p.len() == 3 + pic + apic
            &&& p[0] matches Mount::Serial { irq, wiring: w } && irq == 4 && w == wiring
            &&& p[1] matches Mount::Pit { irq, wiring: w } && irq == 0 && w == wiring
            &&& pic == 1 ==> p[2] is Pic
            &&& apic == 1 ==> (p[2 + pic] matches Mount::IoApic { vcpu_count: n } && n
                == vcpu_count)
            &&& p.last() matches Mount::Pcie { ecam_base } && ecam_base == 0xB000_0000
        }),
{
}

/// Two devices interrupt through PCI: the SMBus controller on pin 2 of device 31,
/// and the USB controller on pin 1 of device 4.
pub proof fn law_pci_pins(m: Mount)
    ensures
        m.pci_pin() is Some <==> m is SmbusHost || m is Xhci,
        m is SmbusHost ==> m.pci_pin() == Some((31u8, 2u8)),
        m is Xhci ==> m.pci_pin() == Some((4u8, 1u8)),
{
}

/// The LPC bridge is set up by eight writes: it has several functions, carries the
/// board's ids, keeps the ACPI ports at their base, with ACPI enabled on its
/// interrupt, and routes each of the four lines as given.
pub proof fn law_lpc_bridge_is_set_up(s: LpcSetup, line: int)
    requires
        s.pirq_base + 3 <= u16::MAX,
        0 <= line < 4,
    ensures
        ({
            let w = lpc_writes(s);
            &&& w.len() == 8
            &&& w[0] == ConfigWrite::HeaderType(0x80)
            &&& w[1] matches ConfigWrite::Subsystem { vendor, device } && vendor
                == s.subsystem_vendor && device == s.subsystem_device
            &&& w[2] matches ConfigWrite::Dword { offset, value } && offset == s.pmbase_offset
                && value == (s.pm_port as u32 | 1)
            &&& w[3] matches ConfigWrite::Byte { offset, value } && offset == s.acpi_cntl_offset
                && value == (s.acpi_enable | s.sci_select)
            &&& w[4 + line] matches ConfigWrite::Byte { offset, value } && offset == s.pirq_base
                + line && value == s.pirq_irqs@[line]
        }),
{
}

} // verus!
