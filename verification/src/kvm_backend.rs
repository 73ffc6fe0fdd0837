//! The virtual machine, its vCPUs and the reasons why they stop.
//!
//! Reads and writes of the guest go to a [`VmExitHandler`]. On an exit that
//! reads, the handler fills the buffer in place and the guest gets those bytes
//! when it is entered again.
use crate::error::{Error, Result};
pub use crate::guest_ram::{validate_region, GuestMemory, GuestRam, MemSlot, HOST_PAGE_SIZE};
use crate::guest_ram::{misaligned_text, region_aligned};
use crate::text::{dec, push_dec, push_signed, signed_dec};
use vstd::prelude::*;
use vstd::string::*;

verus! {

/// Why a vCPU stopped executing guest code.
#[derive(Debug, Clone, Copy, PartialEq, Eq, Structural)]
pub enum GuestExit {
    /// Guest executed `in` from a port; `size` bytes were requested.
    IoIn { port: u16, size: usize },
    /// Guest executed `out` to a port with `size` bytes of data.
    IoOut { port: u16, size: usize },
    /// Guest read from an MMIO address; `size` bytes were requested.
    MmioRead { addr: u64, size: usize },
    /// Guest wrote `size` bytes to an MMIO address.
    MmioWrite { addr: u64, size: usize },
    /// Guest executed `rdmsr` on a forwarded model-specific register.
    MsrRead { msr: u32 },
    /// Guest executed `wrmsr` of `value` on a forwarded model-specific register.
    MsrWrite { msr: u32, value: u64 },
    /// Guest executed `hlt`.
    Halted,
    /// Guest requested shutdown or took a triple fault.
    Shutdown,
    /// Hardware debug event.
    Debug,
    /// An interrupt arrived for the host; the run loop should continue.
    Interrupted,
    /// KVM reported an internal error.
    InternalError,
    /// VM entry failed, with the hardware's reason.
    FailedEntry(u64),
    /// An exit reason that is not modelled, with the raw value.
    Unsupported(u32),
}

/// What the run loop should do after a single run.
#[derive(Debug, Clone, Copy, PartialEq, Eq, Structural)]
pub enum RunOutcome {
    /// Enter the guest again.
    Continue,
    /// The guest stopped for good.
    Stopped,
}

impl GuestExit {
    /// The guest stopped for good: it halted, shut down, could not be entered
    /// or KVM failed.
    pub open spec fn is_terminal(self) -> bool {
        self is Halted || self is Shutdown || self is InternalError || self is FailedEntry
    }

    /// Whether the guest should stop running. I/O, MMIO, register, debug and
    /// interrupt exits can be resumed.
    #[must_use]
    pub fn outcome(&self) -> (r: RunOutcome)
        ensures
            r == (if self.is_terminal() {
                RunOutcome::Stopped
            } else {
                RunOutcome::Continue
            }),
    {
        match self {
            GuestExit::Halted => RunOutcome::Stopped,
            GuestExit::Shutdown => RunOutcome::Stopped,
            GuestExit::InternalError => RunOutcome::Stopped,
            GuestExit::FailedEntry(_) => RunOutcome::Stopped,
            _ => RunOutcome::Continue,
        }
    }
}

/// Handles the guest's I/O, MMIO and register accesses.
///
/// For reads the implementation fills `data` in place; those bytes go to the
/// guest. What a method does by default is right for an unmapped address: the
/// buffer is left as it is, writes are ignored and registers are refused.
pub trait VmExitHandler: Sized {
    /// Guest reads `data.len()` bytes from I/O `port`; fill `data`.
    fn io_in(&mut self, port: u16, data: &mut [u8])
        default_ensures
            *final(self) == *old(self),
            final(data)@ == old(data)@,
    {
    }

    /// Guest wrote `data` to I/O `port`.
    fn io_out(&mut self, port: u16, data: &[u8])
        default_ensures
            *final(self) == *old(self),
    {
    }

    /// Guest reads `data.len()` bytes from MMIO `addr`; fill `data`.
    fn mmio_read(&mut self, addr: u64, data: &mut [u8])
        default_ensures
            *final(self) == *old(self),
            final(data)@ == old(data)@,
    {
    }

    /// Guest wrote `data` to MMIO `addr`.
    fn mmio_write(&mut self, addr: u64, data: &[u8])
        default_ensures
            *final(self) == *old(self),
    {
    }

    /// Guest executed `rdmsr` on register `msr`: its contents, or `None` to
    /// inject a general-protection fault.
    fn rdmsr(&mut self, msr: u32) -> (r: Option<u64>)
        default_ensures
            *final(self) == *old(self),
            r is None,
    {
        None
    }

    /// Guest executed `wrmsr` of `value` to register `msr`: `true` to accept,
    /// `false` to inject a general-protection fault.
    fn wrmsr(&mut self, msr: u32, value: u64) -> (r: bool)
        default_ensures
            *final(self) == *old(self),
            !r,
    {
        false
    }
}

/// A [`VmExitHandler`] that records every access, for tests and tracing.
#[derive(Debug)]
pub struct RecordingHandler {
    /// Port and bytes of each `out` access, in order.
    pub io_out: Vec<(u16, Vec<u8>)>,
    /// Port and size of each `in` access, in order.
    pub io_in: Vec<(u16, usize)>,
    /// Address and bytes of each MMIO write, in order.
    pub mmio_write: Vec<(u64, Vec<u8>)>,
    /// Address and size of each MMIO read, in order.
    pub mmio_read: Vec<(u64, usize)>,
    /// Each register read, in order.
    pub msr_read: Vec<u32>,
    /// Register and value of each register write, in order.
    pub msr_write: Vec<(u32, u64)>,
}

impl Default for RecordingHandler {
    fn default() -> (r: Self)
        ensures
            r.io_out@.len() == 0,
            r.io_in@.len() == 0,
            r.mmio_write@.len() == 0,
            r.mmio_read@.len() == 0,
            r.msr_read@.len() == 0,
            r.msr_write@.len() == 0,
    {
        RecordingHandler {
            io_out: Vec::new(),
            io_in: Vec::new(),
            mmio_write: Vec::new(),
            mmio_read: Vec::new(),
            msr_read: Vec::new(),
            msr_write: Vec::new(),
        }
    }
}

/// `t` is `s` with one more record: `key` and the bytes `data`.
pub open spec fn recorded<K>(s: Seq<(K, Vec<u8>)>, key: K, data: Seq<u8>, t: Seq<(K, Vec<u8>)>) -> bool {
    &&& t.len() == s.len() + 1
    &&& t.drop_last() == s
    &&& t.last().0 == key
    &&& t.last().1@ == data
}

impl VmExitHandler for RecordingHandler {
    fn io_in(&mut self, port: u16, data: &mut [u8])
        ensures
            *final(self) == (RecordingHandler { io_in: final(self).io_in, ..*old(self) }),
            final(self).io_in@ == old(self).io_in@.push((port, old(data)@.len() as usize)),
            final(data)@ == old(data)@,
    {
        self.io_in.push((port, data.len()));
    }

    fn io_out(&mut self, port: u16, data: &[u8])
        ensures
            *final(self) == (RecordingHandler { io_out: final(self).io_out, ..*old(self) }),
            recorded(old(self).io_out@, port, data@, final(self).io_out@),
    {
        self.io_out.push((port, vstd::slice::slice_to_vec(data)));
        assert(self.io_out@.drop_last() =~= old(self).io_out@);
    }

    fn mmio_read(&mut self, addr: u64, data: &mut [u8])
        ensures
            *final(self) == (RecordingHandler { mmio_read: final(self).mmio_read, ..*old(self) }),
            final(self).mmio_read@ == old(self).mmio_read@.push((addr, old(data)@.len() as usize)),
            final(data)@ == old(data)@,
    {
        self.mmio_read.push((addr, data.len()));
    }

    fn mmio_write(&mut self, addr: u64, data: &[u8])
        ensures
            *final(self) == (RecordingHandler { mmio_write: final(self).mmio_write, ..*old(self) }),
            recorded(old(self).mmio_write@, addr, data@, final(self).mmio_write@),
    {
        self.mmio_write.push((addr, vstd::slice::slice_to_vec(data)));
        assert(self.mmio_write@.drop_last() =~= old(self).mmio_write@);
    }

    fn rdmsr(&mut self, msr: u32) -> (r: Option<u64>)
        ensures
            *final(self) == (RecordingHandler { msr_read: final(self).msr_read, ..*old(self) }),
            final(self).msr_read@ == old(self).msr_read@.push(msr),
            r == Some(0u64),
    {
        self.msr_read.push(msr);
        Some(0)
    }

    fn wrmsr(&mut self, msr: u32, value: u64) -> (r: bool)
        ensures
            *final(self) == (RecordingHandler { msr_write: final(self).msr_write, ..*old(self) }),
            final(self).msr_write@ == old(self).msr_write@.push((msr, value)),
            r,
    {
        self.msr_write.push((msr, value));
        true
    }
}

// ---------------------------------------------------------------------------
// Dispatch
// ---------------------------------------------------------------------------

/// An exit as it comes from the run page: with the buffers that the guest
/// reads its answer from.
pub enum VcpuEvent<'a> {
    IoIn(u16, &'a mut [u8]),
    IoOut(u16, &'a [u8]),
    MmioRead(u64, &'a mut [u8]),
    MmioWrite(u64, &'a [u8]),
    Rdmsr { msr: u32, data: &'a mut u64, error: &'a mut u8 },
    Wrmsr { msr: u32, value: u64, error: &'a mut u8 },
    Hlt,
    Shutdown,
    SystemEvent,
    Debug,
    Intr,
    IrqWindowOpen,
    InternalError,
    FailEntry(u64),
    Unsupported(u32),
    /// Any other exit.
    Other,
}

/// The summary of an exit.
pub open spec fn exit_of(event: VcpuEvent<'_>) -> GuestExit {
    match event {
        VcpuEvent::IoIn(port, data) => GuestExit::IoIn { port, size: data@.len() as usize },
        VcpuEvent::IoOut(port, data) => GuestExit::IoOut { port, size: data@.len() as usize },
        VcpuEvent::MmioRead(addr, data) => GuestExit::MmioRead { addr, size: data@.len() as usize },
        VcpuEvent::MmioWrite(addr, data) => GuestExit::MmioWrite {
            addr,
            size: data@.len() as usize,
        },
        VcpuEvent::Rdmsr { msr, .. } => GuestExit::MsrRead { msr },
        VcpuEvent::Wrmsr { msr, value, .. } => GuestExit::MsrWrite { msr, value },
        VcpuEvent::Hlt => GuestExit::Halted,
        VcpuEvent::Shutdown => GuestExit::Shutdown,
        VcpuEvent::SystemEvent => GuestExit::Shutdown,
        VcpuEvent::Debug => GuestExit::Debug,
        VcpuEvent::Intr => GuestExit::Interrupted,
        VcpuEvent::IrqWindowOpen => GuestExit::Interrupted,
        VcpuEvent::InternalError => GuestExit::InternalError,
        VcpuEvent::FailEntry(reason) => GuestExit::FailedEntry(reason),
        VcpuEvent::Unsupported(reason) => GuestExit::Unsupported(reason),
        VcpuEvent::Other => GuestExit::Unsupported(u32::MAX),
    }
}

/// Answers a register read: the value and no fault, or a fault.
pub fn answer_rdmsr(answer: Option<u64>, data: &mut u64, error: &mut u8)
    ensures
        *final(data) == (match answer {
            Some(value) => value,
            None => *old(data),
        }),
        *final(error) == (if answer is Some {
            0u8
        } else {
            1u8
        }),
{
    match answer {
        Some(value) => {
            *data = value;
            *error = 0;
        },
        None => {
            *error = 1;
        },
    }
}

/// The fault flag for a register write: clear where it was accepted.
pub fn answer_wrmsr(accepted: bool) -> (r: u8)
    ensures
        r == (if accepted {
            0u8
        } else {
            1u8
        }),
{
    if accepted {
        0
    } else {
        1
    }
}

/// Translates one exit, letting the handler do the data transfer.
///
/// The handler is called at most once: with the port, address or register of
/// the exit and, for a read, with the buffer that goes back to the guest. A
/// register access that it refuses raises the fault flag.
pub fn dispatch<H: VmExitHandler>(event: VcpuEvent<'_>, handler: &mut H) -> (r: GuestExit)
    ensures
        r == exit_of(event),
        match event {
            VcpuEvent::IoIn(port, data) => exists|h: &mut H, d: &mut [u8]|
                *h == *old(handler) && *final(h) == *final(handler) && d@ == data@ && final(d)@
                    == final(data)@ && #[trigger] call_ensures(H::io_in, (h, port, d), ()),
            VcpuEvent::IoOut(port, data) => exists|h: &mut H|
                *h == *old(handler) && *final(h) == *final(handler) && #[trigger] call_ensures(
                    H::io_out,
                    (h, port, data),
                    (),
                ),
            VcpuEvent::MmioRead(addr, data) => exists|h: &mut H, d: &mut [u8]|
                *h == *old(handler) && *final(h) == *final(handler) && d@ == data@ && final(d)@
                    == final(data)@ && #[trigger] call_ensures(H::mmio_read, (h, addr, d), ()),
            VcpuEvent::MmioWrite(addr, data) => exists|h: &mut H|
                *h == *old(handler) && *final(h) == *final(handler) && #[trigger] call_ensures(
                    H::mmio_write,
                    (h, addr, data),
                    (),
                ),
            VcpuEvent::Rdmsr { msr, data, error } => exists|h: &mut H, answer: Option<u64>|
                *h == *old(handler) && *final(h) == *final(handler) && #[trigger] call_ensures(
                    H::rdmsr,
                    (h, msr),
                    answer,
                ) && *final(data) == (match answer {
                    Some(value) => value,
                    None => *data,
                }) && *final(error) == (if answer is Some {
                    0u8
                } else {
                    1u8
                }),
            VcpuEvent::Wrmsr { msr, value, error } => exists|h: &mut H, accepted: bool|
                *h == *old(handler) && *final(h) == *final(handler) && #[trigger] call_ensures(
                    H::wrmsr,
                    (h, msr, value),
                    accepted,
                ) && *final(error) == (if accepted {
                    0u8
                } else {
                    1u8
                }),
            _ => *final(handler) == *old(handler),
        },
{
    // The handler's methods are called as function values, so that the contract
    // can say which call was made.
    match event {
        VcpuEvent::IoIn(port, data) => {
            let size: usize = data.len();
            let call = H::io_in;
            call(handler, port, data);
            GuestExit::IoIn { port, size }
        },
        VcpuEvent::IoOut(port, data) => {
            let size: usize = data.len();
            let call = H::io_out;
            call(handler, port, data);
            GuestExit::IoOut { port, size }
        },
        VcpuEvent::MmioRead(addr, data) => {
            let size: usize = data.len();
            let call = H::mmio_read;
            call(handler, addr, data);
            GuestExit::MmioRead { addr, size }
        },
        VcpuEvent::MmioWrite(addr, data) => {
            let size: usize = data.len();
            let call = H::mmio_write;
            call(handler, addr, data);
            GuestExit::MmioWrite { addr, size }
        },
        VcpuEvent::Rdmsr { msr, data, error } => {
            let call = H::rdmsr;
            let answer: Option<u64> = call(handler, msr);
            answer_rdmsr(answer, data, error);
            GuestExit::MsrRead { msr }
        },
        VcpuEvent::Wrmsr { msr, value, error } => {
            let call = H::wrmsr;
            let accepted: bool = call(handler, msr, value);
            *error = answer_wrmsr(accepted);
            GuestExit::MsrWrite { msr, value }
        },
        VcpuEvent::Hlt => GuestExit::Halted,
        VcpuEvent::Shutdown => GuestExit::Shutdown,
        VcpuEvent::SystemEvent => GuestExit::Shutdown,
        VcpuEvent::Debug => GuestExit::Debug,
        VcpuEvent::Intr => GuestExit::Interrupted,
        VcpuEvent::IrqWindowOpen => GuestExit::Interrupted,
        VcpuEvent::InternalError => GuestExit::InternalError,
        VcpuEvent::FailEntry(reason) => GuestExit::FailedEntry(reason),
        VcpuEvent::Unsupported(reason) => GuestExit::Unsupported(reason),
        VcpuEvent::Other => GuestExit::Unsupported(u32::MAX),
    }
}

/// What is known of a virtual machine: its vCPUs and its memory.
pub struct KvmBackend {
    /// The APIC id that each vCPU was created with.
    pub apic_ids: Vec<u64>,
    /// The registered memory regions, in the order of registration.
    pub slots: Vec<MemSlot>,
    /// The number of the next memory slot.
    pub next_slot: u32,
}

/// The KVM interface version that this hypervisor is written for.
pub const KVM_API_VERSION: i32 = 12;

/// Where KVM keeps its task-state segment on Intel hosts, below 4 GiB.
pub const TSS_ADDRESS: u64 = 0xfffb_d000;

/// One step in setting up a virtual machine.
#[derive(Debug, Clone, Copy, PartialEq, Eq, Structural)]
pub enum SetupStep {
    /// Create the virtual machine.
    CreateVm,
    /// Give KVM a place for its task-state segment.
    SetTssAddress(u64),
    /// Create the in-kernel interrupt controllers.
    CreateIrqChip,
}

/// The message for an unexpected interface version.
pub open spec fn api_text(api: i32) -> Seq<char> {
    "unexpected KVM API version "@ + signed_dec(api as int) + " (expected 12)"@
}

/// The message for a vCPU that does not exist.
pub open spec fn no_vcpu_text(index: usize) -> Seq<char> {
    "no vcpu at index "@ + dec(index as nat)
}

/// The steps that set up a virtual machine.
pub open spec fn setup_steps(create_irqchip: bool) -> Seq<SetupStep> {
    if create_irqchip {
        seq![SetupStep::CreateVm, SetupStep::SetTssAddress(TSS_ADDRESS), SetupStep::CreateIrqChip]
    } else {
        seq![SetupStep::CreateVm, SetupStep::SetTssAddress(TSS_ADDRESS)]
    }
}

impl KvmBackend {
    /// The invariant: slots are numbered in order and hold whole pages.
    pub open spec fn wf(&self) -> bool {
        &&& self.next_slot == self.slots@.len()
        &&& forall|i: int|
            0 <= i < self.slots@.len() ==> {
                let s = #[trigger] self.slots@[i];
                s.slot == i && s.size != 0 && region_aligned(
                    s.guest_phys_addr,
                    s.host_addr,
                    s.size,
                )
            }
    }

    /// A machine without vCPUs and memory.
    pub open spec fn is_fresh(&self) -> bool {
        self.apic_ids@.len() == 0 && self.slots@.len() == 0 && self.next_slot == 0
    }

    /// A new machine with the in-kernel interrupt controllers, and the steps to
    /// set it up, if KVM reports the expected interface version `api`.
    ///
    /// With the in-kernel local APIC a `hlt` parks the vCPU inside KVM and does
    /// not come back as [`GuestExit::Halted`].
    pub fn new(api: i32) -> (r: Result<(Self, Vec<SetupStep>)>)
        ensures
            r is Ok <==> api == 12,
            r matches Ok(p) ==> p.0.is_fresh() && p.0.wf() && p.1@ == setup_steps(true),
            r matches Err(e) ==> e matches Error::HypervisorError(m) && m@ == api_text(api),
    {
        Self::with_irqchip(api, true)
    }

    /// Like [`new`](Self::new) but without the in-kernel interrupt controllers,
    /// so that `hlt` comes back as [`GuestExit::Halted`].
    pub fn new_without_irqchip(api: i32) -> (r: Result<(Self, Vec<SetupStep>)>)
        ensures
            r is Ok <==> api == 12,
            r matches Ok(p) ==> p.0.is_fresh() && p.0.wf() && p.1@ == setup_steps(false),
            r matches Err(e) ==> e matches Error::HypervisorError(m) && m@ == api_text(api),
    {
        Self::with_irqchip(api, false)
    }

    fn with_irqchip(api: i32, create_irqchip: bool) -> (r: Result<(Self, Vec<SetupStep>)>)
        ensures
            r is Ok <==> api == 12,
            r matches Ok(p) ==> p.0.is_fresh() && p.0.wf() && p.1@ == setup_steps(create_irqchip),
            r matches Err(e) ==> e matches Error::HypervisorError(m) && m@ == api_text(api),
    {
        if api != KVM_API_VERSION {
            let mut m: String = String::new();
            m.append("unexpected KVM API version ");
            push_signed(&mut m, api);
            m.append(" (expected 12)");
            return Err(Error::HypervisorError(m));
        }
        let mut steps: Vec<SetupStep> = Vec::new();
        steps.push(SetupStep::CreateVm);
        steps.push(SetupStep::SetTssAddress(TSS_ADDRESS));
        if create_irqchip {
            steps.push(SetupStep::CreateIrqChip);
        }
        assert(steps@ =~= setup_steps(create_irqchip));
        Ok((KvmBackend { apic_ids: Vec::new(), slots: Vec::new(), next_slot: 0 }, steps))
    }

    /// Checks that there is a vCPU `index`.
    pub fn check_vcpu(&self, index: usize) -> (r: Result<()>)
        ensures
            r is Ok <==> index < self.apic_ids@.len(),
            r matches Err(e) ==> e matches Error::Vcpu(m) && m@ == no_vcpu_text(index),
    {
        if index < self.apic_ids.len() {
            Ok(())
        } else {
            let mut m: String = String::new();
            m.append("no vcpu at index ");
            push_dec(&mut m, index as u64);
            Err(Error::Vcpu(m))
        }
    }

    /// The memory slot for a host buffer at a guest address: what KVM is to
    /// register next.
    ///
    /// Fails where the region does not consist of whole pages.
    pub fn map_memory(&self, guest_phys_addr: u64, host_addr: u64, size: u64) -> (r: Result<
        MemSlot,
    >)
        ensures
            r is Ok <==> size != 0 && region_aligned(guest_phys_addr, host_addr, size),
            r matches Ok(s) ==> s == (MemSlot {
                slot: self.next_slot,
                guest_phys_addr,
                size,
                host_addr,
            }),
            r matches Err(e) ==> e matches Error::HypervisorError(m) && m@ == (if size == 0 {
                "guest memory region size must be non-zero"@
            } else {
                misaligned_text(guest_phys_addr, host_addr, size)
            }),
    {
        match validate_region(guest_phys_addr, host_addr, size) {
            Ok(()) => Ok(MemSlot { slot: self.next_slot, guest_phys_addr, size, host_addr }),
            Err(e) => Err(e),
        }
    }

    /// Records a memory slot that KVM has registered.
    pub fn commit_memory(&mut self, entry: MemSlot)
        requires
            old(self).next_slot < u32::MAX,
        ensures
            final(self).slots@ == old(self).slots@.push(entry),
            final(self).next_slot == old(self).next_slot + 1,
            final(self).apic_ids@ == old(self).apic_ids@,
            old(self).wf() && entry.slot == old(self).next_slot && entry.size != 0
                && region_aligned(entry.guest_phys_addr, entry.host_addr, entry.size)
                ==> final(self).wf(),
    {
        self.next_slot = self.next_slot + 1;
        self.slots.push(entry);
    }

    /// Records a vCPU that KVM has created with APIC id `id`; its index.
    pub fn create_vcpu(&mut self, id: u64) -> (r: usize)
        ensures
            r == old(self).apic_ids@.len(),
            final(self).apic_ids@ == old(self).apic_ids@.push(id),
            final(self).slots@ == old(self).slots@,
            final(self).next_slot == old(self).next_slot,
            old(self).wf() ==> final(self).wf(),
    {
        let index: usize = self.apic_ids.len();
        self.apic_ids.push(id);
        index
    }

    /// Number of vCPUs created.
    #[must_use]
    pub fn vcpu_count(&self) -> (r: usize)
        ensures
            r == self.apic_ids@.len(),
    {
        self.apic_ids.len()
    }

    /// Registered guest memory slots.
    #[must_use]
    pub fn mem_slots(&self) -> (r: &[MemSlot])
        ensures
            r@ == self.slots@,
    {
        self.slots.as_slice()
    }

    /// A device's view of the registered guest memory.
    #[must_use]
    pub fn guest_memory(&self) -> (r: GuestMemory<'_>)
        ensures
            r.slots@ == self.slots@,
    {
        GuestMemory::new(self.slots.as_slice())
    }

    /// The vCPU to ask for the frequency of the time-stamp counter: the first.
    ///
    /// Fails where there is none.
    pub fn tsc_khz(&self) -> (r: Result<usize>)
        ensures
            r is Ok <==> self.apic_ids@.len() > 0,
            r matches Ok(i) ==> i == 0,
            r matches Err(e) ==> e matches Error::Vcpu(m) && m@
                == "no vcpu created; cannot read TSC frequency"@,
    {
        if self.apic_ids.len() > 0 {
            Ok(0)
        } else {
            Err(Error::Vcpu("no vcpu created; cannot read TSC frequency".to_owned()))
        }
    }
}

// ---------------------------------------------------------------------------
// Running
// ---------------------------------------------------------------------------

/// The error number of an interrupted system call.
pub const EINTR: i32 = 4;

/// What a failed run means: an interruption by the host is an exit like any
/// other, everything else an error with the host's description of it.
pub fn run_failure(errno: i32, description: &str) -> (r: Result<GuestExit>)
    ensures
        r is Ok <==> errno == 4,
        r matches Ok(x) ==> x == GuestExit::Interrupted,
        r matches Err(e) ==> e matches Error::Vcpu(m) && m@ == "KVM_RUN: "@ + description@,
{
    if errno == EINTR {
        Ok(GuestExit::Interrupted)
    } else {
        let mut m: String = String::new();
        m.append("KVM_RUN: ");
        m.append(description);
        Err(Error::Vcpu(m))
    }
}

/// The guest's reference cycles between two readings of the host's counter.
pub fn guest_ref_cycles(entry_tsc: u64, exit_tsc: u64) -> (r: u64)
    ensures
        r == (if exit_tsc >= entry_tsc {
            (exit_tsc - entry_tsc) as u64
        } else {
            0
        }),
{
    exit_tsc.saturating_sub(entry_tsc)
}

/// Each exit is summed up as what happened: an access with its port, address or
/// register and its size or value, and everything else by its kind. Only `hlt` is
/// a halt; a shutdown and a system event shut the guest down; an interrupt and an
/// open interrupt window interrupt it.
pub proof fn law_exits_are_summed_up(event: VcpuEvent<'_>)
    ensures
        ({
            let x = exit_of(event);
            &&& x is Halted <==> event is Hlt
            &&& x is Shutdown <==> event is Shutdown || event is SystemEvent
            &&& x is Interrupted <==> event is Intr || event is IrqWindowOpen
            &&& x is Debug <==> event is Debug
            &&& x is InternalError <==> event is InternalError
            &&& x is FailedEntry <==> event is FailEntry
            &&& x is Unsupported <==> event is Unsupported || event is Other
            &&& x is IoIn <==> event is IoIn
            &&& x is IoOut <==> event is IoOut
            &&& x is MmioRead <==> event is MmioRead
            &&& x is MmioWrite <==> event is MmioWrite
            &&& x is MsrRead <==> event is Rdmsr
            &&& x is MsrWrite <==> event is Wrmsr
            &&& match event {
                VcpuEvent::IoIn(p, data) => x matches GuestExit::IoIn { port, size } && port == p
                    && size == data@.len(),
                VcpuEvent::IoOut(p, data) => x matches GuestExit::IoOut { port, size } && port == p
                    && size == data@.len(),
                VcpuEvent::MmioRead(a, data) => x matches GuestExit::MmioRead { addr, size }
                    && addr == a && size == data@.len(),
                VcpuEvent::MmioWrite(a, data) => x matches GuestExit::MmioWrite { addr, size }
                    && addr == a && size == data@.len(),
                VcpuEvent::Rdmsr { msr: m, .. } => x matches GuestExit::MsrRead { msr } && msr
                    == m,
                VcpuEvent::Wrmsr { msr: m, value: v, .. } => x matches GuestExit::MsrWrite {
                    msr,
                    value,
                } && msr == m && value == v,
                VcpuEvent::FailEntry(reason) => x == GuestExit::FailedEntry(reason),
                VcpuEvent::Unsupported(reason) => x == GuestExit::Unsupported(reason),
                VcpuEvent::Other => x == GuestExit::Unsupported(0xFFFF_FFFF),
                _ => true,
            }
        }),
{
    match event {
        VcpuEvent::IoIn(_, data) => {
            vstd::slice::axiom_spec_len(data);
        },
        VcpuEvent::IoOut(_, data) => {
            vstd::slice::axiom_spec_len(data);
        },
        VcpuEvent::MmioRead(_, data) => {
            vstd::slice::axiom_spec_len(data);
        },
        VcpuEvent::MmioWrite(_, data) => {
            vstd::slice::axiom_spec_len(data);
        },
        _ => {},
    }
}

/// The guest goes on after an access, a debug event, an interruption and an exit
/// that is not modelled, and after nothing else.
pub proof fn law_which_exits_are_resumed(x: GuestExit)
    ensures
        !x.is_terminal() <==> {
            ||| x is IoIn || x is IoOut
            ||| x is MmioRead || x is MmioWrite
            ||| x is MsrRead || x is MsrWrite
            ||| x is Debug || x is Interrupted || x is Unsupported
        },
{
}

/// A machine is created first and then given a place for the task-state segment:
/// three pages below 4 GiB. Interrupt controllers come last, and only where they
/// are asked for.
pub proof fn law_setup_order(create_irqchip: bool)
    ensures
        ({
            let s = setup_steps(create_irqchip);
            &&& s.len() == (if create_irqchip {
                3int
            } else {
                2
            })
            &&& s[0] == SetupStep::CreateVm
            &&& s[1] matches SetupStep::SetTssAddress(at) && at == 0xFFFB_D000 && at % 4096 == 0
                && at + 3 * 4096 <= 0x1_0000_0000
            &&& s.contains(SetupStep::CreateIrqChip) <==> create_irqchip
            &&& create_irqchip ==> s[2] == SetupStep::CreateIrqChip
        }),
{
    let s = setup_steps(create_irqchip);
    if create_irqchip {
        assert(s[2] == SetupStep::CreateIrqChip);
    }
}

/// A record is added behind the others, with its key and its bytes, and the
/// others stay.
pub proof fn law_records_are_appended<K>(
    s: Seq<(K, Vec<u8>)>,
    key: K,
    data: Seq<u8>,
    t: Seq<(K, Vec<u8>)>,
    i: int,
)
    requires
        recorded(s, key, data, t),
    ensures
        t.len() == s.len() + 1,
        t[s.len() as int].0 == key,
        t[s.len() as int].1@ == data,
        0 <= i < s.len() ==> t[i] == s[i],
{
    if 0 <= i < s.len() {
        assert(t.drop_last()[i] == s[i]);
    }
}

/// A fresh machine has no vCPU and no memory, and its first slot is number 0.
pub proof fn law_fresh_machine_is_empty(b: KvmBackend)
    requires
        b.is_fresh(),
    ensures
        b.apic_ids@ == Seq::<u64>::empty(),
        b.slots@ == Seq::<MemSlot>::empty(),
        b.next_slot == 0,
{
    assert(b.apic_ids@ =~= Seq::<u64>::empty());
    assert(b.slots@ =~= Seq::<MemSlot>::empty());
}

} // verus!
