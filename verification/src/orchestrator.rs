//! Booting a guest: from a description of what to boot to RAM with the payload
//! in it and a vCPU that starts at it.
use crate::bits::field;
use crate::bytes::{copy_into, le_bytes, overwritten};
use crate::bzimage::{boot_params, build_boot_params, has_setup_header, header_info};
use crate::bzimage::{is_loaded_high, loaded_high, parse_bzimage_header};
use crate::bzimage::{BOOT_PARAMS_SIZE, PROTECTED_MODE_LOAD_ADDR};
use crate::error::{Error, Result};
use crate::guest_ram::{backs, law_ram_is_whole_pages, misaligned_text, page_rounded};
use crate::guest_ram::{region_aligned, GuestRam, MemSlot};
use crate::kvm_backend::{api_text, no_vcpu_text, setup_steps, KvmBackend, SetupStep};
use crate::kvm_backend::KVM_API_VERSION;
use crate::kvm_cpuid::{cpuid_set_entries, law_vcpu_reads_the_table, rebuild_text, shows_table};
use crate::kvm_cpuid::{stamped_all, topology_template, CpuidSet, CpuidStealthTable};
use crate::kvm_cpuid::KvmCpuidEntry;
use crate::msr::{no_msr_exits_text, too_many_ranges_text, MAX_FILTER_RANGES};
use crate::run_loop::{is_setup, StealthRunLoop, StealthSetup};
use crate::text::{dec, hex, push_dec, push_hex};
use crate::vcpu_regs::{entered_at, long_mode, protected_mode, real_mode};
use crate::vcpu_regs::{GeneralRegs, SpecialRegs};
use vstd::prelude::*;
use vstd::slice::{slice_subrange, slice_to_vec};
use vstd::string::*;

verus! {

// ---------------------------------------------------------------------------
// What to boot
// ---------------------------------------------------------------------------

/// The parts of a guest's configuration that its boot depends on.
#[derive(Debug, Clone)]
pub struct GuestConfig {
    pub name: String,
    pub memory_mb: u64,
    pub serial_enabled: bool,
    /// Where the serial console goes.
    pub serial_output: String,
}

/// One guest's payload and the resources it runs in.
#[derive(Debug)]
pub struct GuestBootSpec {
    /// Guest name.
    pub name: String,
    /// Where the guest's first serial port goes; `None` for nowhere.
    pub serial: Option<String>,
    /// Guest RAM size in bytes.
    pub ram_bytes: usize,
    /// Guest-physical base the RAM is mapped at.
    pub load_base: u64,
    /// Guest-physical entry point; the payload is loaded here.
    pub entry: u64,
    /// The image loaded at `entry`.
    pub image: Vec<u8>,
    /// Seconds since the Unix epoch that the clock starts at.
    pub rtc_unix_secs: u64,
}

/// The number of vCPUs that a guest is prepared with.
pub const GUEST_VCPUS: u8 = 1;

/// Megabytes in bytes, as far as they fit.
pub open spec fn ram_size(memory_mb: u64) -> int {
    if memory_mb * 0x10_0000 <= usize::MAX {
        memory_mb * 0x10_0000
    } else {
        usize::MAX as int
    }
}

impl GuestBootSpec {
    /// The boot spec for a guest's configuration and the payload to run: the
    /// name, the RAM size and the serial console come from the configuration.
    #[must_use]
    pub fn from_guest_config(
        config: &GuestConfig,
        image: Vec<u8>,
        load_base: u64,
        entry: u64,
        rtc_unix_secs: u64,
    ) -> (r: Self)
        ensures
            r.name@ == config.name@,
            r.ram_bytes == ram_size(config.memory_mb),
            r.load_base == load_base,
            r.entry == entry,
            r.image@ == image@,
            r.rtc_unix_secs == rtc_unix_secs,
            r.serial is Some <==> config.serial_enabled,
            r.serial matches Some(s) ==> s@ == config.serial_output@,
    {
        let serial: Option<String> = if config.serial_enabled {
            Some(config.serial_output.clone())
        } else {
            None
        };
        let max_mb: u64 = (usize::MAX / 0x10_0000) as u64;
        let ram_bytes: usize = if config.memory_mb > max_mb {
            usize::MAX
        } else {
            config.memory_mb as usize * 0x10_0000
        };
        GuestBootSpec {
            name: config.name.clone(),
            serial,
            ram_bytes,
            load_base,
            entry,
            image,
            rtc_unix_secs,
        }
    }
}

/// The message for an entry point below the RAM.
pub open spec fn entry_below_text(entry: u64, load_base: u64) -> Seq<char> {
    "entry "@ + hex(entry as nat) + " is below the load base "@ + hex(load_base as nat)
}

/// The message for an image that does not fit.
pub open spec fn image_overflow_text(len: nat, offset: nat, ram_bytes: nat) -> Seq<char> {
    "image of "@ + dec(len) + " bytes at entry offset "@ + hex(offset) + " does not fit in "@ + dec(
        ram_bytes,
    ) + " bytes of guest RAM"@
}

/// The payload lies in the RAM.
pub open spec fn payload_fits(spec: GuestBootSpec) -> bool {
    &&& spec.load_base <= spec.entry
    &&& (spec.entry - spec.load_base) + spec.image@.len() <= spec.ram_bytes
}

/// What is wrong with a boot spec, in words.
pub open spec fn spec_error(spec: GuestBootSpec) -> Seq<char> {
    if spec.entry < spec.load_base {
        entry_below_text(spec.entry, spec.load_base)
    } else {
        image_overflow_text(
            spec.image@.len(),
            (spec.entry - spec.load_base) as nat,
            spec.ram_bytes as nat,
        )
    }
}

/// Checks that the payload lies in the RAM.
pub fn validate_spec(spec: &GuestBootSpec) -> (r: Result<()>)
    ensures
        r is Ok <==> payload_fits(*spec),
        r matches Err(e) ==> e matches Error::Config(m) && m@ == spec_error(*spec),
{
    let mut m: String = String::new();
    if spec.entry < spec.load_base {
        m.append("entry ");
        push_hex(&mut m, spec.entry);
        m.append(" is below the load base ");
        push_hex(&mut m, spec.load_base);
        return Err(Error::Config(m));
    }
    let offset: u64 = spec.entry - spec.load_base;
    let len: u64 = spec.image.len() as u64;
    let fits: bool = match offset.checked_add(len) {
        Some(end) => end <= spec.ram_bytes as u64,
        None => false,
    };
    if !fits {
        m.append("image of ");
        push_dec(&mut m, len);
        m.append(" bytes at entry offset ");
        push_hex(&mut m, offset);
        m.append(" does not fit in ");
        push_dec(&mut m, spec.ram_bytes as u64);
        m.append(" bytes of guest RAM");
        return Err(Error::Config(m));
    }
    Ok(())
}

// ---------------------------------------------------------------------------
// A guest that can be run
// ---------------------------------------------------------------------------

/// Where a loaded kernel lies.
#[derive(Debug, Clone, Copy, PartialEq, Eq, Structural)]
pub struct KernelBoot {
    /// Guest-physical entry of the protected-mode kernel.
    pub kernel_entry: u64,
    /// Guest-physical address of the boot parameters.
    pub boot_params: u64,
}

/// A guest with its RAM, mapped at `load_base`.
pub struct GuestRuntime {
    /// The run loop, which owns the machine.
    pub run: StealthRunLoop,
    /// Where the RAM starts for the guest.
    pub load_base: u64,
    pub ram: GuestRam,
}

/// The mode that the boot vCPU starts in.
#[derive(Debug, Clone, Copy, PartialEq, Eq, Structural)]
pub enum BootMode {
    /// 16-bit real mode.
    Real,
    /// Flat 32-bit protected mode.
    Protected,
    /// Long mode, through page tables that identity-map the first 2 MiB.
    Long,
}

/// What the host and the device models report.
pub struct HostReport {
    /// The version of KVM's interface.
    pub api: i32,
    /// Whether KVM can let registers exit.
    pub msr_exits: bool,
    /// The registers that the device models shadow: a first one and how many,
    /// for each range.
    pub shadow_ranges: Vec<(u32, u32)>,
}

/// A guest that is ready to be set up: the steps to create the machine, what
/// KVM is told before the first entry, and where and how the boot vCPU starts.
pub struct PreparedGuest {
    pub runtime: GuestRuntime,
    pub steps: Vec<SetupStep>,
    pub setup: StealthSetup,
    pub entry: u64,
    pub mode: BootMode,
}

/// Where the page tables for long mode are built.
pub const TABLES_GPA: u64 = 0x4000;

/// The RAM of a guest once its payload is loaded: zeros but for the image.
pub open spec fn loaded_ram(spec: GuestBootSpec) -> Seq<u8> {
    overwritten(
        Seq::new(page_rounded(spec.ram_bytes as int) as nat, |i: int| 0u8),
        spec.entry - spec.load_base,
        spec.image@,
    )
}

/// The RAM can be allocated.
pub open spec fn ram_allocatable(spec: GuestBootSpec) -> bool {
    0 < spec.ram_bytes && page_rounded(spec.ram_bytes as int) + 4096 <= isize::MAX
}

/// `p` is the guest that a valid boot spec describes: one vCPU, and one memory
/// slot over its RAM, which holds `ram`.
pub open spec fn prepared_from(
    spec: GuestBootSpec,
    host: HostReport,
    p: PreparedGuest,
    ram: Seq<u8>,
) -> bool {
    &&& p.runtime.wf()
    &&& p.runtime.run.wf()
    &&& p.runtime.run.vcpus == GUEST_VCPUS
    &&& p.runtime.run.tsc_khz is None
    &&& p.runtime.run.backend.wf()
    &&& p.runtime.ram@ == ram
    &&& p.runtime.load_base == spec.load_base
    &&& p.runtime.run.backend.apic_ids@ == seq![0u64]
    &&& p.runtime.run.backend.slots@ == seq![
        MemSlot {
            slot: 0,
            guest_phys_addr: spec.load_base,
            size: p.runtime.ram@.len() as u64,
            host_addr: p.runtime.ram.address(),
        },
    ]
    &&& p.steps@ == setup_steps(false)
    &&& is_setup(host.shadow_ranges@, p.setup)
    &&& p.entry == spec.entry
}

/// The RAM of a prepared guest is what KVM maps into it: the buffer behind its
/// one memory slot, at the address and of the size that the slot names.
pub proof fn law_prepared_ram_backs_its_slot(
    spec: GuestBootSpec,
    host: HostReport,
    p: PreparedGuest,
    ram: Seq<u8>,
)
    requires
        prepared_from(spec, host, p, ram),
    ensures
        backs(p.runtime.run.backend.slots@, seq![p.runtime.ram]),
{
    law_ram_is_whole_pages(p.runtime.ram);
}

/// What keeps a boot spec from being prepared.
pub open spec fn prepare_error(spec: GuestBootSpec, host: HostReport, e: Error) -> bool {
    if !payload_fits(spec) {
        e matches Error::Config(m) && m@ == spec_error(spec)
    } else if host.api != KVM_API_VERSION {
        e matches Error::HypervisorError(m) && m@ == api_text(host.api)
    } else if !host.msr_exits {
        e matches Error::HypervisorError(m) && m@ == no_msr_exits_text()
    } else if host.shadow_ranges@.len() >= MAX_FILTER_RANGES {
        e matches Error::HypervisorError(m) && m@ == too_many_ranges_text(
            host.shadow_ranges@.len() + 1,
        )
    } else {
        e matches Error::HypervisorError(m) && exists|host: u64|
            m@ == #[trigger] misaligned_text(
                spec.load_base,
                host,
                page_rounded(spec.ram_bytes as int) as u64,
            )
    }
}

/// The payload lies in the RAM, and a run loop can be installed.
pub open spec fn installable(spec: GuestBootSpec, host: HostReport) -> bool {
    &&& payload_fits(spec)
    &&& host.api == KVM_API_VERSION
    &&& host.msr_exits
    &&& host.shadow_ranges@.len() < MAX_FILTER_RANGES
}

/// A boot spec can be prepared.
pub open spec fn preparable(spec: GuestBootSpec, host: HostReport) -> bool {
    &&& installable(spec, host)
    &&& spec.load_base % 4096 == 0
}

impl GuestRuntime {
    /// Validates a boot spec, installs the run loop, allocates the RAM, loads
    /// the payload into it and lays out the machine: one memory slot and one
    /// vCPU.
    fn assemble(spec: GuestBootSpec, host: HostReport, mode: BootMode) -> (r: Result<PreparedGuest>)
        requires
            installable(spec, host) ==> ram_allocatable(spec),
        ensures
            r is Ok <==> preparable(spec, host),
            r matches Ok(p) ==> prepared_from(spec, host, p, loaded_ram(spec)) && p.mode == mode,
            r matches Err(e) ==> prepare_error(spec, host, e),
    {
        match validate_spec(&spec) {
            Ok(()) => {},
            Err(e) => {
                return Err(e);
            },
        }
        let (backend, steps) = match KvmBackend::new_without_irqchip(host.api) {
            Ok(p) => p,
            Err(e) => {
                return Err(e);
            },
        };
        let (mut run, setup) = match StealthRunLoop::install(
            backend,
            host.shadow_ranges,
            host.msr_exits,
        ) {
            Ok(p) => p,
            Err(e) => {
                return Err(e);
            },
        };
        let offset: usize = (spec.entry - spec.load_base) as usize;
        let mut ram: GuestRam = GuestRam::new(spec.ram_bytes);
        assert(ram@ =~= Seq::new(page_rounded(spec.ram_bytes as int) as nat, |i: int| 0u8));
        let host_addr: u64 = ram.host_addr();
        let len: u64 = ram.len() as u64;
        copy_into(ram.as_mut_slice(), offset, spec.image.as_slice());
        let slot: MemSlot = match run.backend.map_memory(spec.load_base, host_addr, len) {
            Ok(s) => s,
            Err(e) => {
                assert(e matches Error::HypervisorError(m) && m@ == misaligned_text(
                    spec.load_base,
                    host_addr,
                    len,
                ));
                return Err(e);
            },
        };
        run.backend.commit_memory(slot);
        let _index: usize = run.backend.create_vcpu(0);
        assert(run.backend.apic_ids@ =~= seq![0u64]);
        assert(run.backend.slots@ =~= seq![slot]);
        Ok(
            PreparedGuest {
                runtime: GuestRuntime { run, load_base: spec.load_base, ram },
                steps,
                setup,
                entry: spec.entry,
                mode,
            },
        )
    }

    /// Prepares a guest that starts in real mode.
    ///
    /// Fails where the payload does not lie in the RAM, where KVM reports an
    /// unexpected interface version or cannot let the shadowed registers exit,
    /// and where the RAM is not mapped at a page boundary.
    pub fn prepare_real_mode(spec: GuestBootSpec, host: HostReport) -> (r: Result<PreparedGuest>)
        requires
            installable(spec, host) ==> ram_allocatable(spec),
        ensures
            r is Ok <==> preparable(spec, host),
            r matches Ok(p) ==> prepared_from(spec, host, p, loaded_ram(spec)) && p.mode == BootMode::Real,
            r matches Err(e) ==> prepare_error(spec, host, e),
    {
        Self::assemble(spec, host, BootMode::Real)
    }

    /// Like [`prepare_real_mode`](Self::prepare_real_mode), but the guest starts
    /// in flat 32-bit protected mode, from which it reaches all of the low 4 GiB.
    pub fn prepare_protected_mode(spec: GuestBootSpec, host: HostReport) -> (r: Result<PreparedGuest>)
        requires
            installable(spec, host) ==> ram_allocatable(spec),
        ensures
            r is Ok <==> preparable(spec, host),
            r matches Ok(p) ==> prepared_from(spec, host, p, loaded_ram(spec)) && p.mode == BootMode::Protected,
            r matches Err(e) ==> prepare_error(spec, host, e),
    {
        Self::assemble(spec, host, BootMode::Protected)
    }

    /// Like [`prepare_real_mode`](Self::prepare_real_mode), but the guest starts
    /// in long mode, through page tables at [`TABLES_GPA`] that identity-map the
    /// first 2 MiB. The RAM must be mapped at 0 and hold the tables, and the
    /// payload must end below them. `tables_fault` is how the platform words
    /// that page tables do not lie in the RAM.
    pub fn prepare_long_mode(spec: GuestBootSpec, host: HostReport, tables_fault: &str) -> (r:
        Result<PreparedGuest>)
        requires
            installable(spec, host) ==> ram_allocatable(spec),
            spec.load_base == 0 ==> spec.entry + spec.image@.len() <= usize::MAX,
        ensures
            r is Ok <==> long_mode_error(spec) is None && preparable(spec, host)
                && identity_tables_written(loaded_ram(spec), 0).1 is None,
            r matches Ok(p) ==> prepared_from(
                spec,
                host,
                p,
                identity_tables_written(loaded_ram(spec), 0).0,
            ) && p.mode == BootMode::Long,
            r matches Err(e) ==> match long_mode_error(spec) {
                Some(text) => e matches Error::Config(m) && m@ == text,
                None => if preparable(spec, host) {
                    e matches Error::Config(m) && m@ == tables_error_text(tables_fault@)
                } else {
                    prepare_error(spec, host, e)
                },
            },
    {
        let mut m: String = String::new();
        if spec.load_base != 0 {
            m.append("long-mode boot requires load_base 0, got ");
            push_hex(&mut m, spec.load_base);
            return Err(Error::Config(m));
        }
        let image_end: u64 = spec.entry + spec.image.len() as u64;
        if image_end > TABLES_GPA {
            m.append("long-mode payload ends at ");
            push_hex(&mut m, image_end);
            m.append(", overlapping the identity page tables at ");
            push_hex(&mut m, TABLES_GPA);
            return Err(Error::Config(m));
        }
        let mut prepared: PreparedGuest = match Self::assemble(spec, host, BootMode::Long) {
            Ok(p) => p,
            Err(e) => {
                return Err(e);
            },
        };
        match prepared.runtime.install_identity_page_tables() {
            Ok(_) => Ok(prepared),
            Err(_) => {
                m.append("long-mode boot could not build page tables: ");
                m.append(tables_fault);
                Err(Error::Config(m))
            },
        }
    }
}

/// The message for page tables that do not lie in the RAM, which `fault` words.
pub open spec fn tables_error_text(fault: Seq<char>) -> Seq<char> {
    "long-mode boot could not build page tables: "@ + fault
}

/// What keeps a boot spec from being started in long mode.
pub open spec fn long_mode_error(spec: GuestBootSpec) -> Option<Seq<char>> {
    let end = spec.entry + spec.image@.len();
    if spec.load_base != 0 {
        Some("long-mode boot requires load_base 0, got "@ + hex(spec.load_base as nat))
    } else if end > TABLES_GPA {
        Some(
            "long-mode payload ends at "@ + hex(end as nat)
                + ", overlapping the identity page tables at "@ + hex(TABLES_GPA as nat),
        )
    } else {
        None
    }
}

impl PreparedGuest {
    /// The registers that the boot vCPU starts with, from those that it was
    /// created with.
    pub fn boot_registers(&self, sregs: SpecialRegs, regs: GeneralRegs) -> (r: Result<
        (SpecialRegs, GeneralRegs),
    >)
        ensures
            r is Ok <==> self.runtime.run.backend.apic_ids@.len() > 0,
            r matches Ok(p) ==> p == (
                match self.mode {
                    BootMode::Real => real_mode(sregs),
                    BootMode::Protected => protected_mode(sregs),
                    BootMode::Long => long_mode(sregs, 0x4000),
                },
                entered_at(regs, self.entry),
            ),
            r matches Err(e) ==> e matches Error::Vcpu(m) && m@ == no_vcpu_text(0),
    {
        match self.mode {
            BootMode::Real => self.runtime.run.backend.prepare_real_mode_vcpu(0, self.entry, sregs, regs),
            BootMode::Protected => self.runtime.run.backend.prepare_protected_mode_vcpu(
                0,
                self.entry,
                sregs,
                regs,
            ),
            BootMode::Long => self.runtime.run.backend.prepare_long_mode_vcpu(
                0,
                self.entry,
                TABLES_GPA,
                sregs,
                regs,
            ),
        }
    }

    /// The CPUID table that the boot vCPU is given before the guest runs: what
    /// KVM supports, with the identity, topology and counters of `table`, and
    /// without the hypervisor-present bit.
    ///
    /// Fails if the table grows beyond what KVM accepts.
    pub fn cpuid_sets(
        &self,
        table: &CpuidStealthTable,
        supported: &[KvmCpuidEntry],
        tsc_khz: Option<u32>,
    ) -> (r: Result<Vec<CpuidSet>>)
        requires
            self.runtime.run.backend.apic_ids@ == seq![0u64],
            tsc_khz matches Some(khz) ==> table.regs(0x16, 0).eax != 0 ==> khz + 500 <= u32::MAX,
        ensures
            r is Ok <==> topology_template(supported@, *table, tsc_khz).len() <= 80,
            r matches Ok(sets) ==> {
                &&& sets@.len() == 1
                &&& cpuid_set_entries(sets@[0]) == boot_cpuid(supported@, *table, tsc_khz)
                &&& shows_table(cpuid_set_entries(sets@[0]), *table)
            },
            r matches Err(e) ==> e matches Error::Vcpu(m) && m@ == rebuild_text(),
    {
        proof {
            law_boot_vcpu_reads_the_table(supported@, *table, tsc_khz);
        }
        self.runtime.run.backend.apply_topology_stealth(table, supported, tsc_khz)
    }
}

/// The CPUID entries of the boot vCPU, whose APIC id is 0.
pub open spec fn boot_cpuid(
    supported: Seq<KvmCpuidEntry>,
    table: CpuidStealthTable,
    tsc_khz: Option<u32>,
) -> Seq<KvmCpuidEntry> {
    stamped_all(
        topology_template(supported, table, tsc_khz),
        0,
        field(table.regs(0xB, 0).eax, 0, 0x1F),
    )
}

/// The boot vCPU reads what the table says: no hypervisor, and the table's
/// package width, topology levels, counters and identity.
pub proof fn law_boot_vcpu_reads_the_table(
    supported: Seq<KvmCpuidEntry>,
    table: CpuidStealthTable,
    tsc_khz: Option<u32>,
)
    ensures
        shows_table(boot_cpuid(supported, table, tsc_khz), table),
{
    law_vcpu_reads_the_table(
        supported,
        table,
        tsc_khz,
        0,
        field(table.regs(0xB, 0).eax, 0, 0x1F),
    );
}

// ---------------------------------------------------------------------------
// Guest memory by guest address
// ---------------------------------------------------------------------------

/// The message for an address below the RAM.
pub open spec fn gpa_below_text(gpa: u64) -> Seq<char> {
    "gpa "@ + hex(gpa as nat) + " is below the load base"@
}

/// The message for a range that ends beyond the RAM.
pub open spec fn gpa_overrun_text(gpa: u64, len: nat) -> Seq<char> {
    "gpa "@ + hex(gpa as nat) + "+"@ + hex(len) + " overruns guest RAM"@
}

/// What is wrong with a range of guest addresses, in words; `None` where it
/// lies in `size` bytes of RAM from `load_base` on.
pub open spec fn range_error(size: nat, load_base: u64, gpa: u64, len: nat) -> Option<Seq<char>> {
    if gpa < load_base || gpa - load_base > usize::MAX {
        Some(gpa_below_text(gpa))
    } else if (gpa - load_base) + len > size {
        Some(gpa_overrun_text(gpa, len))
    } else {
        None
    }
}

/// RAM, and what went wrong so far: a write, unless something went wrong
/// before or it does not lie in the RAM.
pub open spec fn then_write(
    state: (Seq<u8>, Option<Seq<char>>),
    load_base: u64,
    gpa: u64,
    bytes: Seq<u8>,
) -> (Seq<u8>, Option<Seq<char>>) {
    if state.1 is Some {
        state
    } else {
        match range_error(state.0.len(), load_base, gpa, bytes.len()) {
            Some(text) => (state.0, Some(text)),
            None => (overwritten(state.0, gpa - load_base, bytes), None),
        }
    }
}

impl GuestRuntime {
    /// The invariant: the RAM is one.
    pub open spec fn wf(&self) -> bool {
        self.ram.wf()
    }

    /// The offset in the RAM of a range of guest addresses.
    ///
    /// Fails where the range does not lie in the RAM.
    pub fn ram_range(&self, gpa: u64, len: usize) -> (r: Result<usize>)
        requires
            self.wf(),
        ensures
            r is Ok <==> range_error(self.ram@.len(), self.load_base, gpa, len as nat) is None,
            r matches Ok(start) ==> start == gpa - self.load_base && start + len
                <= self.ram@.len(),
            r matches Err(e) ==> e matches Error::Config(m) && Some(m@) == range_error(
                self.ram@.len(),
                self.load_base,
                gpa,
                len as nat,
            ),
    {
        let mut m: String = String::new();
        if gpa < self.load_base || gpa - self.load_base > usize::MAX as u64 {
            m.append("gpa ");
            push_hex(&mut m, gpa);
            m.append(" is below the load base");
            return Err(Error::Config(m));
        }
        let start: usize = (gpa - self.load_base) as usize;
        let size: usize = self.ram.len();
        let fits: bool = match start.checked_add(len) {
            Some(end) => end <= size,
            None => false,
        };
        if !fits {
            m.append("gpa ");
            push_hex(&mut m, gpa);
            m.append("+");
            push_hex(&mut m, len as u64);
            m.append(" overruns guest RAM");
            return Err(Error::Config(m));
        }
        Ok(start)
    }

    /// Writes bytes into guest RAM at a guest address.
    ///
    /// Fails, with the RAM untouched, where they do not lie in it.
    pub fn write_guest_bytes(&mut self, gpa: u64, bytes: &[u8]) -> (r: Result<()>)
        requires
            old(self).wf(),
        ensures
            final(self).wf(),
            final(self).load_base == old(self).load_base,
            final(self).run == old(self).run,
            final(self).ram@.len() == old(self).ram@.len(),
            final(self).ram.address() == old(self).ram.address(),
            ({
                let after = then_write((old(self).ram@, None), old(self).load_base, gpa, bytes@);
                &&& final(self).ram@ == after.0
                &&& r is Ok <==> after.1 is None
                &&& r matches Err(e) ==> e matches Error::Config(m) && Some(m@) == after.1
            }),
    {
        let start: usize = match self.ram_range(gpa, bytes.len()) {
            Ok(s) => s,
            Err(e) => {
                return Err(e);
            },
        };
        copy_into(self.ram.as_mut_slice(), start, bytes);
        Ok(())
    }

    /// Reads bytes of guest RAM at a guest address.
    ///
    /// Fails where they do not lie in it.
    pub fn read_guest_bytes(&self, gpa: u64, len: usize) -> (r: Result<Vec<u8>>)
        requires
            self.wf(),
        ensures
            r is Ok <==> range_error(self.ram@.len(), self.load_base, gpa, len as nat) is None,
            r matches Ok(v) ==> v@ == self.ram@.subrange(
                gpa - self.load_base,
                gpa - self.load_base + len,
            ),
            r matches Err(e) ==> e matches Error::Config(m) && Some(m@) == range_error(
                self.ram@.len(),
                self.load_base,
                gpa,
                len as nat,
            ),
    {
        let start: usize = match self.ram_range(gpa, len) {
            Ok(s) => s,
            Err(e) => {
                return Err(e);
            },
        };
        let bytes: &[u8] = self.ram.as_slice();
        assert(bytes.len() <= usize::MAX);
        Ok(slice_to_vec(slice_subrange(bytes, start, start + len)))
    }
}

/// What was written at a guest address is what is read there.
pub proof fn law_guest_bytes_round_trip(ram: Seq<u8>, load_base: u64, gpa: u64, bytes: Seq<u8>)
    requires
        range_error(ram.len(), load_base, gpa, bytes.len()) is None,
    ensures
        ({
            let after = then_write((ram, None), load_base, gpa, bytes).0;
            let at = gpa - load_base;
            after.len() == ram.len() && after.subrange(at, at + bytes.len()) == bytes
        }),
{
    crate::guest_ram::law_write_then_read(ram, gpa - load_base, bytes);
}

/// A write leaves what lies outside of it as it was.
pub proof fn law_guest_write_keeps_the_rest(
    ram: Seq<u8>,
    load_base: u64,
    gpa: u64,
    bytes: Seq<u8>,
    i: int,
    j: int,
)
    requires
        0 <= i <= j <= ram.len(),
        gpa < load_base || j <= gpa - load_base || (gpa - load_base) + bytes.len() <= i,
    ensures
        then_write((ram, None), load_base, gpa, bytes).0.subrange(i, j) == ram.subrange(i, j),
{
    if range_error(ram.len(), load_base, gpa, bytes.len()) is None {
        crate::guest_ram::law_write_keeps_the_rest(ram, gpa - load_base, bytes, i, j);
    }
}

// ---------------------------------------------------------------------------
// Linux kernels
// ---------------------------------------------------------------------------

/// Where the boot parameters go.
pub const BOOT_PARAMS_GPA: u64 = 0x1_0000;

/// Where the kernel command line goes.
pub const CMDLINE_GPA: u64 = 0x2_0000;

/// Where usable low RAM ends and the firmware's area begins.
pub const LOW_RAM_END: u64 = 0x9_FC00;

/// The memory map of a standard PC: low RAM, the firmware's reserved area up
/// to 1 MiB, and high RAM.
pub open spec fn standard_e820(ram_len: u64) -> Seq<(u64, u64, u32)> {
    seq![
        (0u64, LOW_RAM_END, 1u32),
        (LOW_RAM_END, (PROTECTED_MODE_LOAD_ADDR - LOW_RAM_END) as u64, 2u32),
        (PROTECTED_MODE_LOAD_ADDR, ram_len.wrapping_sub(PROTECTED_MODE_LOAD_ADDR), 1u32),
    ]
}

/// Where the initial RAM disk goes: as high in RAM as it fits, at a page
/// boundary.
pub open spec fn initrd_address(ram_len: int, len: int) -> int {
    if len > ram_len {
        0
    } else {
        (ram_len - len) / 4096 * 4096
    }
}

/// The RAM once the RAM disk, if there is one, has been placed above a kernel
/// of `kernel_len` bytes; and its address and size for the kernel, or what
/// went wrong.
pub open spec fn initrd_placed(
    ram: Seq<u8>,
    kernel_len: nat,
    initrd: Option<Seq<u8>>,
) -> (Seq<u8>, std::result::Result<(u32, u32), Seq<char>>) {
    match initrd {
        Some(d) => if d.len() == 0 {
            (ram, Ok((0, 0)))
        } else {
            let addr = initrd_address(ram.len() as int, d.len() as int);
            if addr < PROTECTED_MODE_LOAD_ADDR + kernel_len {
                (ram, Err("initrd does not fit above the kernel in guest RAM"@))
            } else {
                let placed = overwritten(ram, addr, d);
                if addr > u32::MAX {
                    (placed, Err("initrd address exceeds 4 GiB"@))
                } else if d.len() > u32::MAX {
                    (placed, Err("initrd larger than 4 GiB"@))
                } else {
                    (placed, Ok((addr as u32, d.len() as u32)))
                }
            }
        },
        None => (ram, Ok((0, 0))),
    }
}

/// The protected-mode kernel in an image.
pub open spec fn kernel_of(image: Seq<u8>) -> Seq<u8> {
    image.subrange(
        header_info(image).protected_mode_kernel_offset as int,
        image.len() as int,
    )
}

/// What keeps an image from being loaded, in words.
pub open spec fn image_error(load_base: u64, image: Seq<u8>) -> Option<Seq<char>> {
    if load_base != 0 {
        Some("bzImage loading requires load_base 0"@)
    } else if !has_setup_header(image) {
        Some("not a boot-protocol bzImage"@)
    } else if !loaded_high(image) {
        Some("kernel is not loaded-high (a legacy zImage); only bzImage is supported"@)
    } else if header_info(image).protected_mode_kernel_offset > image.len() {
        Some("bzImage shorter than its setup header claims"@)
    } else {
        None
    }
}

/// RAM with the boot parameters, the command line with a zero behind it, and
/// the kernel written into it, as far as they fit.
pub open spec fn kernel_written(
    ram: Seq<u8>,
    image: Seq<u8>,
    cmdline: Seq<u8>,
    ramdisk: (u32, u32),
) -> (Seq<u8>, Option<Seq<char>>) {
    let params = boot_params(
        image,
        CMDLINE_GPA as u32,
        ramdisk.0,
        ramdisk.1,
        standard_e820(ram.len() as u64),
    );
    let a = then_write((ram, None), 0, BOOT_PARAMS_GPA, params);
    let b = then_write(a, 0, CMDLINE_GPA, cmdline);
    let c = then_write(b, 0, (CMDLINE_GPA + cmdline.len()) as u64, seq![0u8]);
    then_write(c, 0, PROTECTED_MODE_LOAD_ADDR, kernel_of(image))
}

/// The RAM once a kernel image, a command line and a RAM disk have been
/// loaded, and what went wrong, if anything did.
pub open spec fn bzimage_loaded(
    load_base: u64,
    ram: Seq<u8>,
    image: Seq<u8>,
    cmdline: Seq<u8>,
    initrd: Option<Seq<u8>>,
) -> (Seq<u8>, Option<Seq<char>>) {
    match image_error(load_base, image) {
        Some(text) => (ram, Some(text)),
        None => {
            let (placed, ramdisk) = initrd_placed(ram, kernel_of(image).len(), initrd);
            match ramdisk {
                Err(text) => (placed, Some(text)),
                Ok(d) => if image.len() < 0x268 {
                    (placed, Some("bzImage too short for its boot_params"@))
                } else {
                    kernel_written(placed, image, cmdline, d)
                },
            }
        },
    }
}

/// The bytes of an optional slice.
pub open spec fn optional_bytes(s: Option<&[u8]>) -> Option<Seq<u8>> {
    match s {
        Some(b) => Some(b@),
        None => None,
    }
}

impl GuestRuntime {
    /// Places the initial RAM disk, if there is one, high in RAM; its address
    /// and size, zero for none.
    fn place_initrd(&mut self, kernel_len: usize, initrd: Option<&[u8]>) -> (r: Result<(u32, u32)>)
        requires
            old(self).wf(),
            old(self).load_base == 0,
        ensures
            final(self).wf(),
            final(self).load_base == 0,
            final(self).run == old(self).run,
            final(self).ram@.len() == old(self).ram@.len(),
            final(self).ram.address() == old(self).ram.address(),
            ({
                let (placed, ramdisk) = initrd_placed(
                    old(self).ram@,
                    kernel_len as nat,
                    optional_bytes(initrd),
                );
                &&& final(self).ram@ == placed
                &&& match ramdisk {
                    Ok(d) => r matches Ok(x) && x == d,
                    Err(text) => r matches Err(Error::Config(m)) && m@ == text,
                }
            }),
    {
        let disk: &[u8] = match initrd {
            Some(d) => d,
            None => {
                return Ok((0, 0));
            },
        };
        if disk.len() == 0 {
            return Ok((0, 0));
        }
        let ram_len: u64 = self.ram.len() as u64;
        let kernel_end: u64 = PROTECTED_MODE_LOAD_ADDR.saturating_add(kernel_len as u64);
        let addr: u64 = ram_len.saturating_sub(disk.len() as u64) / 4096 * 4096;
        if addr < kernel_end {
            return Err(
                Error::Config("initrd does not fit above the kernel in guest RAM".to_owned()),
            );
        }
        match self.write_guest_bytes(addr, disk) {
            Ok(()) => {},
            Err(e) => {
                return Err(e);
            },
        }
        if addr > u32::MAX as u64 {
            return Err(Error::Config("initrd address exceeds 4 GiB".to_owned()));
        }
        if disk.len() as u64 > u32::MAX as u64 {
            return Err(Error::Config("initrd larger than 4 GiB".to_owned()));
        }
        Ok((addr as u32, disk.len() as u32))
    }

    /// Loads a Linux `bzImage` into guest RAM: the RAM disk high in RAM, the
    /// boot parameters and the command line at fixed low addresses, and the
    /// protected-mode kernel at 1 MiB.
    ///
    /// Fails where the RAM is not mapped at 0, where the image is not a kernel
    /// that is loaded high, and where anything does not fit. What was placed
    /// before that stays.
    pub fn load_bzimage(&mut self, image: &[u8], cmdline: &str, initrd: Option<&[u8]>) -> (r: Result<
        KernelBoot,
    >)
        requires
            old(self).wf(),
        ensures
            final(self).wf(),
            final(self).load_base == old(self).load_base,
            final(self).run == old(self).run,
            final(self).ram@.len() == old(self).ram@.len(),
            final(self).ram.address() == old(self).ram.address(),
            ({
                let (loaded, error) = bzimage_loaded(
                    old(self).load_base,
                    old(self).ram@,
                    image@,
                    cmdline.spec_bytes(),
                    optional_bytes(initrd),
                );
                &&& final(self).ram@ == loaded
                &&& match error {
                    None => r matches Ok(b) && b == (KernelBoot {
                        kernel_entry: 0x10_0000,
                        boot_params: 0x1_0000,
                    }),
                    Some(text) => r matches Err(Error::Config(m)) && m@ == text,
                }
            }),
    {
        if self.load_base != 0 {
            return Err(Error::Config("bzImage loading requires load_base 0".to_owned()));
        }
        let info = match parse_bzimage_header(image) {
            Some(i) => i,
            None => {
                return Err(Error::Config("not a boot-protocol bzImage".to_owned()));
            },
        };
        if !is_loaded_high(image) {
            return Err(
                Error::Config(
                    "kernel is not loaded-high (a legacy zImage); only bzImage is supported".to_owned(),
                ),
            );
        }
        if info.protected_mode_kernel_offset > image.len() {
            return Err(Error::Config("bzImage shorter than its setup header claims".to_owned()));
        }
        let kernel: &[u8] = slice_subrange(image, info.protected_mode_kernel_offset, image.len());
        let ramdisk: (u32, u32) = match self.place_initrd(kernel.len(), initrd) {
            Ok(d) => d,
            Err(e) => {
                return Err(e);
            },
        };
        let ram_len: u64 = self.ram.len() as u64;
        let e820: [(u64, u64, u32); 3] = [
            (0u64, LOW_RAM_END, 1u32),
            (LOW_RAM_END, PROTECTED_MODE_LOAD_ADDR - LOW_RAM_END, 2u32),
            (PROTECTED_MODE_LOAD_ADDR, ram_len.wrapping_sub(PROTECTED_MODE_LOAD_ADDR), 1u32),
        ];
        assert(e820@ =~= standard_e820(ram_len));
        let params: [u8; 4096] = match build_boot_params(
            image,
            0x2_0000,
            ramdisk.0,
            ramdisk.1,
            e820.as_slice(),
        ) {
            Some(p) => p,
            None => {
                return Err(Error::Config("bzImage too short for its boot_params".to_owned()));
            },
        };
        let text: &[u8] = cmdline.as_bytes();
        match self.write_guest_bytes(BOOT_PARAMS_GPA, params.as_slice()) {
            Ok(()) => {},
            Err(e) => {
                return Err(e);
            },
        }
        match self.write_guest_bytes(CMDLINE_GPA, text) {
            Ok(()) => {},
            Err(e) => {
                return Err(e);
            },
        }
        let zero: [u8; 1] = [0u8];
        assert(zero@ =~= seq![0u8]);
        let terminator: u64 = CMDLINE_GPA + text.len() as u64;
        match self.write_guest_bytes(terminator, zero.as_slice()) {
            Ok(()) => {},
            Err(e) => {
                return Err(e);
            },
        }
        match self.write_guest_bytes(PROTECTED_MODE_LOAD_ADDR, kernel) {
            Ok(()) => {},
            Err(e) => {
                return Err(e);
            },
        }
        Ok(KernelBoot { kernel_entry: PROTECTED_MODE_LOAD_ADDR, boot_params: BOOT_PARAMS_GPA })
    }
}

/// After a load that succeeded, the guest finds in its RAM the kernel at
/// 1 MiB, the boot parameters, the command line with its terminator, unless it
/// is so long that the kernel lies over it, and the RAM disk where the boot
/// parameters say.
pub proof fn law_loaded_kernel_is_in_place(
    ram: Seq<u8>,
    image: Seq<u8>,
    cmdline: Seq<u8>,
    initrd: Option<Seq<u8>>,
)
    requires
        bzimage_loaded(0, ram, image, cmdline, initrd).1 is None,
        cmdline.len() < PROTECTED_MODE_LOAD_ADDR - CMDLINE_GPA,
        ram.len() <= u64::MAX,
    ensures
        ({
            let loaded = bzimage_loaded(0, ram, image, cmdline, initrd).0;
            let kernel = kernel_of(image);
            let disk = initrd_placed(ram, kernel.len(), initrd).1->Ok_0;
            &&& loaded.len() == ram.len()
            &&& loaded.subrange(0x10_0000, 0x10_0000int + kernel.len()) == kernel
            &&& loaded.subrange(0x1_0000, 0x1_1000) == boot_params(
                image,
                0x2_0000,
                disk.0,
                disk.1,
                standard_e820(ram.len() as u64),
            )
            &&& loaded.subrange(0x2_0000, 0x2_0000int + cmdline.len()) == cmdline
            &&& loaded[0x2_0000int + cmdline.len()] == 0
            &&& initrd matches Some(d) ==> d.len() > 0 ==> disk.1 == d.len() && loaded.subrange(
                disk.0 as int,
                disk.0 + d.len(),
            ) == d
        }),
{
    let kernel = kernel_of(image);
    let (placed, ramdisk) = initrd_placed(ram, kernel.len(), initrd);
    let disk = ramdisk->Ok_0;
    let params = boot_params(
        image,
        0x2_0000,
        disk.0,
        disk.1,
        standard_e820(ram.len() as u64),
    );
    crate::bzimage::law_boot_params_read_back(
        image,
        0x2_0000,
        disk.0,
        disk.1,
        standard_e820(ram.len() as u64),
    );
    assert(placed.len() == ram.len());
    let a = then_write((placed, None), 0, BOOT_PARAMS_GPA, params);
    let b = then_write(a, 0, CMDLINE_GPA, cmdline);
    let c = then_write(b, 0, (CMDLINE_GPA + cmdline.len()) as u64, seq![0u8]);
    let d = then_write(c, 0, PROTECTED_MODE_LOAD_ADDR, kernel);
    assert(d == kernel_written(placed, image, cmdline, disk));
    let loaded = d.0;
    assert(loaded.subrange(0x10_0000, 0x10_0000int + kernel.len()) =~= kernel);
    assert(loaded.subrange(0x1_0000, 0x1_1000) =~= params);
    assert(loaded.subrange(0x2_0000, 0x2_0000int + cmdline.len()) =~= cmdline);
    if initrd is Some && (initrd->0).len() > 0 {
        let bytes = initrd->0;
        assert(loaded.subrange(disk.0 as int, disk.0 + bytes.len()) =~= bytes);
    }
}

// ---------------------------------------------------------------------------
// Entering a kernel
// ---------------------------------------------------------------------------

/// Where the 64-bit entry point lies behind the 32-bit one.
pub const ENTRY_64_OFFSET: u64 = 0x200;

/// RAM with page tables that identity-map the first 2 MiB with one large page:
/// one entry in each of three tables.
pub open spec fn identity_tables_written(ram: Seq<u8>, load_base: u64) -> (
    Seq<u8>,
    Option<Seq<char>>,
) {
    let a = then_write((ram, None), load_base, 0x4000, le_bytes(0x5003, 8));
    let b = then_write(a, load_base, 0x5000, le_bytes(0x6003, 8));
    then_write(b, load_base, 0x6000, le_bytes(0x83, 8))
}

/// The eight bytes of a page table entry.
fn entry_bytes(v: u64) -> (r: [u8; 8])
    ensures
        r@ == le_bytes(v as nat, 8),
{
    let mut b: [u8; 8] = [0u8; 8];
    proof {
        crate::bytes::lemma_le_bytes_len(v as nat, 8);
    }
    crate::bytes::put_le(&mut b, 0, v, 8);
    assert(b@ =~= le_bytes(v as nat, 8));
    b
}

impl GuestRuntime {
    /// The registers with which the boot vCPU enters a loaded kernel by the
    /// 32-bit boot protocol.
    pub fn boot_kernel(&self, boot: &KernelBoot, sregs: SpecialRegs, regs: GeneralRegs) -> (r: Result<
        (SpecialRegs, GeneralRegs),
    >)
        ensures
            r is Ok <==> self.run.backend.apic_ids@.len() > 0,
            r matches Ok(p) ==> p == (
                protected_mode(sregs),
                (GeneralRegs {
                    rsi: boot.boot_params,
                    ..entered_at(regs, boot.kernel_entry)
                }),
            ),
            r matches Err(e) ==> e matches Error::Vcpu(m) && m@ == no_vcpu_text(0),
    {
        self.run.backend.prepare_linux_boot_vcpu(0, boot.kernel_entry, boot.boot_params, sregs, regs)
    }

    /// Writes page tables that identity-map the first 2 MiB; their address.
    ///
    /// Fails where they do not lie in the RAM.
    pub fn install_identity_page_tables(&mut self) -> (r: Result<u64>)
        requires
            old(self).wf(),
        ensures
            final(self).wf(),
            final(self).load_base == old(self).load_base,
            final(self).run == old(self).run,
            final(self).ram@.len() == old(self).ram@.len(),
            final(self).ram.address() == old(self).ram.address(),
            ({
                let (ram, error) = identity_tables_written(old(self).ram@, old(self).load_base);
                &&& final(self).ram@ == ram
                &&& match error {
                    None => r matches Ok(g) && g == 0x4000,
                    Some(text) => r matches Err(Error::Config(m)) && m@ == text,
                }
            }),
    {
        match self.write_guest_bytes(0x4000, entry_bytes(0x5003).as_slice()) {
            Ok(()) => {},
            Err(e) => {
                return Err(e);
            },
        }
        match self.write_guest_bytes(0x5000, entry_bytes(0x6003).as_slice()) {
            Ok(()) => {},
            Err(e) => {
                return Err(e);
            },
        }
        match self.write_guest_bytes(0x6000, entry_bytes(0x83).as_slice()) {
            Ok(()) => {},
            Err(e) => {
                return Err(e);
            },
        }
        Ok(0x4000)
    }

    /// Installs page tables and gives the registers with which the boot vCPU
    /// enters a loaded kernel by the 64-bit boot protocol.
    ///
    /// Fails where the RAM is not mapped at 0 or does not hold the tables.
    pub fn boot_kernel_64(&mut self, boot: &KernelBoot, sregs: SpecialRegs, regs: GeneralRegs) -> (r:
        Result<(SpecialRegs, GeneralRegs)>)
        requires
            old(self).wf(),
            boot.kernel_entry + 0x200 <= u64::MAX,
        ensures
            final(self).wf(),
            final(self).load_base == old(self).load_base,
            final(self).run == old(self).run,
            final(self).ram@.len() == old(self).ram@.len(),
            final(self).ram.address() == old(self).ram.address(),
            if old(self).load_base != 0 {
                &&& final(self).ram@ == old(self).ram@
                &&& r matches Err(Error::Config(m)) && m@
                    == "64-bit kernel entry requires load_base 0"@
            } else {
                let (ram, error) = identity_tables_written(old(self).ram@, 0);
                &&& final(self).ram@ == ram
                &&& match error {
                    Some(text) => r matches Err(Error::Config(m)) && m@ == text,
                    None => if old(self).run.backend.apic_ids@.len() > 0 {
                        r matches Ok(p) && p == (
                            long_mode(sregs, 0x4000),
                            (GeneralRegs {
                                rsi: boot.boot_params,
                                ..entered_at(regs, (boot.kernel_entry + 0x200) as u64)
                            }),
                        )
                    } else {
                        r matches Err(Error::Vcpu(m)) && m@ == no_vcpu_text(0)
                    },
                }
            },
    {
        if self.load_base != 0 {
            return Err(Error::Config("64-bit kernel entry requires load_base 0".to_owned()));
        }
        let pml4: u64 = match self.install_identity_page_tables() {
            Ok(g) => g,
            Err(e) => {
                return Err(e);
            },
        };
        self.run.backend.prepare_linux_boot_vcpu_64(
            0,
            boot.kernel_entry + ENTRY_64_OFFSET,
            boot.boot_params,
            pml4,
            sregs,
            regs,
        )
    }
}

/// The page table entry at `at`.
pub open spec fn table_entry(ram: Seq<u8>, at: int) -> nat {
    crate::bytes::le_value(ram.subrange(at, at + 8))
}

/// The tables lead from one to the next, present and writable, and the last
/// entry is a large page at 0.
pub proof fn law_identity_tables_chain(ram: Seq<u8>)
    requires
        ram.len() >= 0x7000,
    ensures
        ({
            let (t, error) = identity_tables_written(ram, 0);
            &&& error is None
            &&& table_entry(t, 0x4000) == 0x5000 + 3
            &&& table_entry(t, 0x5000) == 0x6000 + 3
            &&& table_entry(t, 0x6000) == 0x80 + 3
        }),
{
    crate::bytes::lemma_le_bytes_len(0x5003, 8);
    crate::bytes::lemma_le_bytes_len(0x6003, 8);
    crate::bytes::lemma_le_bytes_len(0x83, 8);
    crate::bytes::law_le_round_trip(0x5003, 8);
    crate::bytes::law_le_round_trip(0x6003, 8);
    crate::bytes::law_le_round_trip(0x83, 8);
    assert(vstd::arithmetic::power::pow(256, 8) == 0x1_0000_0000_0000_0000) by {
        reveal_with_fuel(vstd::arithmetic::power::pow, 9);
    }
    let t = identity_tables_written(ram, 0).0;
    assert(t.subrange(0x4000, 0x4008) =~= le_bytes(0x5003, 8));
    assert(t.subrange(0x5000, 0x5008) =~= le_bytes(0x6003, 8));
    assert(t.subrange(0x6000, 0x6008) =~= le_bytes(0x83, 8));
}

/// A prepared guest finds its payload at its entry point, and the page tables
/// of long mode are written beside it.
pub proof fn law_payload_is_in_place(spec: GuestBootSpec)
    requires
        payload_fits(spec),
    ensures
        ({
            let start = spec.entry - spec.load_base;
            let end = start + spec.image@.len();
            let tables = identity_tables_written(loaded_ram(spec), 0).0;
            &&& loaded_ram(spec).subrange(start, end) == spec.image@
            &&& long_mode_error(spec) is None ==> tables.subrange(start, end) == spec.image@
        }),
{
    let start = spec.entry - spec.load_base;
    let end = start + spec.image@.len();
    assert(loaded_ram(spec).subrange(start, end) =~= spec.image@);
    if long_mode_error(spec) is None {
        crate::bytes::lemma_le_bytes_len(0x5003, 8);
        crate::bytes::lemma_le_bytes_len(0x6003, 8);
        crate::bytes::lemma_le_bytes_len(0x83, 8);
        let tables = identity_tables_written(loaded_ram(spec), 0).0;
        assert(tables.subrange(start, end) =~= spec.image@);
    }
}

// ---------------------------------------------------------------------------
// Resuming
// ---------------------------------------------------------------------------

/// Where a guest wants to be resumed after a sleep.
#[derive(Debug, Clone, Copy, PartialEq, Eq, Structural)]
pub enum ResumeTarget {
    /// In real mode at this address.
    RealMode(u32),
    /// In long mode at this address.
    Extended(u64),
    /// Nowhere.
    Unarmed,
}

/// What keeps a guest from being resumed, in words. `waking` is what its
/// firmware control structure says, if that could be decoded.
pub open spec fn resume_error(waking: Option<ResumeTarget>) -> Option<Seq<char>> {
    match waking {
        None => Some("FACS buffer too short"@),
        Some(ResumeTarget::RealMode(_)) => None,
        Some(ResumeTarget::Extended(vector)) => Some(
            "S3 X waking vector "@ + hex(vector as nat)
                + " needs a long-mode resume entry, which is not implemented yet"@,
        ),
        Some(ResumeTarget::Unarmed) => Some("no S3 waking vector armed in the FACS"@),
    }
}

impl GuestRuntime {
    /// Resumes the guest from suspend-to-RAM: where to, and the registers with
    /// which the boot vCPU is entered there. The RAM is as the guest left it.
    ///
    /// Fails where no real-mode waking vector is armed.
    pub fn resume_from_s3(
        &self,
        waking: Option<ResumeTarget>,
        sregs: SpecialRegs,
        regs: GeneralRegs,
    ) -> (r: Result<(ResumeTarget, SpecialRegs, GeneralRegs)>)
        ensures
            match resume_error(waking) {
                Some(text) => r matches Err(Error::Config(m)) && m@ == text,
                None => if self.run.backend.apic_ids@.len() > 0 {
                    r matches Ok(p) && waking matches Some(ResumeTarget::RealMode(vector)) && p == (
                        ResumeTarget::RealMode(vector),
                        real_mode(sregs),
                        entered_at(regs, vector as u64),
                    )
                } else {
                    r matches Err(Error::Vcpu(m)) && m@ == no_vcpu_text(0)
                },
            },
    {
        match waking {
            None => Err(Error::Config("FACS buffer too short".to_owned())),
            Some(ResumeTarget::RealMode(vector)) => match self.run.backend.prepare_real_mode_vcpu(
                0,
                vector as u64,
                sregs,
                regs,
            ) {
                Ok((s, g)) => Ok((ResumeTarget::RealMode(vector), s, g)),
                Err(e) => Err(e),
            },
            Some(ResumeTarget::Extended(vector)) => {
                let mut m: String = String::new();
                m.append("S3 X waking vector ");
                push_hex(&mut m, vector);
                m.append(" needs a long-mode resume entry, which is not implemented yet");
                Err(Error::Config(m))
            },
            Some(ResumeTarget::Unarmed) => Err(
                Error::Config("no S3 waking vector armed in the FACS".to_owned()),
            ),
        }
    }

    /// Checks that the guest's ACPI tables can be walked: by address, from 0.
    pub fn check_table_walk(&self) -> (r: Result<()>)
        ensures
            r is Ok <==> self.load_base == 0,
            r matches Err(e) ==> e matches Error::Config(m) && m@
                == "ACPI-table discovery requires load_base 0"@,
    {
        if self.load_base != 0 {
            return Err(Error::Config("ACPI-table discovery requires load_base 0".to_owned()));
        }
        Ok(())
    }
}

/// The address of the firmware control structure, if walking the guest's ACPI
/// tables led to one.
pub fn discovered_facs(found: Option<u64>) -> (r: Result<u64>)
    ensures
        r is Ok <==> found is Some,
        r matches Ok(a) ==> Some(a) == found,
        r matches Err(e) ==> e matches Error::Config(m) && m@
            == "could not discover the FACS from the guest's ACPI tables"@,
{
    match found {
        Some(a) => Ok(a),
        None => Err(
            Error::Config("could not discover the FACS from the guest's ACPI tables".to_owned()),
        ),
    }
}

/// What to boot for the first configured guest: its configuration with a
/// single `hlt` at address 0, which the kernel is loaded beside.
///
/// Fails where no guest is configured.
pub fn run_first_guest(first: Option<&GuestConfig>) -> (r: Result<GuestBootSpec>)
    ensures
        r is Ok <==> first is Some,
        r matches Ok(s) ==> ({
            let config = first->0;
            &&& s.name@ == config.name@
            &&& s.ram_bytes == ram_size(config.memory_mb)
            &&& s.load_base == 0 && s.entry == 0 && s.rtc_unix_secs == 0
            &&& s.image@ == seq![0xF4u8]
            &&& s.serial is Some <==> config.serial_enabled
            &&& s.serial matches Some(o) ==> o@ == config.serial_output@
        }),
        r matches Err(e) ==> e matches Error::Config(m) && m@
            == "configuration has no guests to boot"@,
{
    match first {
        Some(config) => {
            let mut image: Vec<u8> = Vec::new();
            image.push(0xF4);
            assert(image@ =~= seq![0xF4u8]);
            Ok(GuestBootSpec::from_guest_config(config, image, 0, 0, 0))
        },
        None => Err(Error::Config("configuration has no guests to boot".to_owned())),
    }
}

// ---------------------------------------------------------------------------
// What a guest finds
// ---------------------------------------------------------------------------

/// A range of guest addresses is refused exactly if it does not lie in the RAM.
pub proof fn law_range_lies_in_the_ram(size: nat, load_base: u64, gpa: u64, len: nat)
    requires
        size <= usize::MAX,
    ensures
        range_error(size, load_base, gpa, len) is None <==> load_base <= gpa && gpa + len
            <= load_base + size,
{
}

/// A write that lies in the RAM puts each byte at its address and changes no
/// other; one that does not changes nothing and is refused.
pub proof fn law_guest_write_is_exact(
    ram: Seq<u8>,
    load_base: u64,
    gpa: u64,
    bytes: Seq<u8>,
    at: int,
)
    requires
        ram.len() <= usize::MAX,
        0 <= at < ram.len(),
    ensures
        ({
            let (after, error) = then_write((ram, None), load_base, gpa, bytes);
            let fits = load_base <= gpa && gpa + bytes.len() <= load_base + ram.len();
            &&& after.len() == ram.len()
            &&& error is None <==> fits
            &&& fits && gpa <= load_base + at < gpa + bytes.len() ==> after[at] == bytes[load_base
                + at - gpa]
            &&& !fits || !(gpa <= load_base + at < gpa + bytes.len()) ==> after[at] == ram[at]
        }),
{
}

/// A guest's RAM is as large as its configuration says, in mebibytes, as far as
/// the host can count.
pub proof fn law_ram_size_is_in_mebibytes(memory_mb: u64)
    ensures
        memory_mb * 1024 * 1024 <= usize::MAX ==> ram_size(memory_mb) == memory_mb * 1024 * 1024,
        memory_mb * 1024 * 1024 > usize::MAX ==> ram_size(memory_mb) == usize::MAX,
{
}

/// The RAM of a prepared guest holds its payload from the entry point on and
/// zeros everywhere else; it is as large as asked for, rounded up to whole pages.
pub proof fn law_loaded_ram_is_payload_and_zeros(spec: GuestBootSpec, gpa: int)
    requires
        payload_fits(spec),
        spec.load_base <= gpa < spec.load_base + loaded_ram(spec).len(),
    ensures
        ({
            let ram = loaded_ram(spec);
            &&& ram.len() % 4096 == 0
            &&& spec.ram_bytes <= ram.len() < spec.ram_bytes + 4096
            &&& spec.entry <= gpa < spec.entry + spec.image@.len() ==> ram[gpa - spec.load_base]
                == spec.image@[gpa - spec.entry]
            &&& !(spec.entry <= gpa < spec.entry + spec.image@.len()) ==> ram[gpa - spec.load_base]
                == 0
        }),
{
}

/// A boot spec is prepared exactly if its payload lies in the RAM, the RAM starts
/// at a page boundary, KVM's interface has version 12, registers can exit, and a
/// filter holds the shadow registers with the deadline register.
pub proof fn law_what_can_be_prepared(spec: GuestBootSpec, host: HostReport)
    ensures
        payload_fits(spec) <==> spec.load_base <= spec.entry && spec.entry + spec.image@.len()
            <= spec.load_base + spec.ram_bytes,
        preparable(spec, host) <==> {
            &&& spec.load_base <= spec.entry
            &&& spec.entry + spec.image@.len() <= spec.load_base + spec.ram_bytes
            &&& spec.load_base % 4096 == 0
            &&& host.api == 12
            &&& host.msr_exits
            &&& host.shadow_ranges@.len() + 1 <= 16
        },
        long_mode_error(spec) is None <==> spec.load_base == 0 && spec.entry + spec.image@.len()
            <= 0x4000,
{
}

/// A prepared guest has one vCPU, with APIC id 0, that starts at the entry of its
/// boot spec, and all of its RAM in one slot from its load base on; exactly the
/// shadow registers and the deadline register exit. Its machine is created without
/// interrupt controllers in the kernel, so that a halt comes back.
pub proof fn law_prepared_guest_is_as_described(
    spec: GuestBootSpec,
    host: HostReport,
    p: PreparedGuest,
    msr: u32,
)
    requires
        prepared_from(spec, host, p, loaded_ram(spec)),
    ensures
        ({
            let b = p.runtime.run.backend;
            &&& p.runtime.run.vcpus == 1
            &&& p.runtime.run.active == 0
            &&& b.apic_ids@.len() == 1 && b.apic_ids@[0] == 0
            &&& p.entry == spec.entry
            &&& p.runtime.load_base == spec.load_base
            &&& b.slots@.len() == 1
            &&& b.slots@[0].slot == 0
            &&& b.slots@[0].guest_phys_addr == spec.load_base
            &&& b.slots@[0].size == p.runtime.ram@.len()
            &&& b.slots@[0].host_addr == p.runtime.ram.address()
            &&& p.setup.filter.denies(msr) <==> crate::msr::listed(host.shadow_ranges@, msr) || msr
                == 0x6E0
            &&& p.steps@.len() == 2
            &&& p.steps@[0] == SetupStep::CreateVm
            &&& p.steps@[1] == SetupStep::SetTssAddress(0xFFFB_D000)
        }),
{
    crate::kvm_backend::law_setup_order(false);
    law_ram_is_whole_pages(p.runtime.ram);
    crate::run_loop::law_installed_filter_is_exact(host.shadow_ranges@, p.setup, msr);
}

/// The length of the kernel in an image with a setup header: what lies behind
/// the boot sector and the setup sectors.
pub proof fn law_kernel_is_the_rest_of_the_image(image: Seq<u8>)
    requires
        image_error(0, image) is None,
    ensures
        ({
            let sectors: int = if image[0x1F1] == 0 {
                4
            } else {
                image[0x1F1] as int
            };
            let start = 512 * (1 + sectors);
            &&& start <= image.len()
            &&& kernel_of(image).len() == image.len() - start
            &&& forall|i: int|
                0 <= i < kernel_of(image).len() ==> #[trigger] kernel_of(image)[i] == image[start
                    + i]
        }),
{
    crate::bzimage::law_header_says_where_the_kernel_begins(image);
}

/// An image is refused unless the RAM is mapped at 0 and the image has a setup
/// header, is loaded high and is as long as its header claims.
pub proof fn law_which_images_are_refused(load_base: u64, image: Seq<u8>)
    ensures
        image_error(load_base, image) is None <==> {
            &&& load_base == 0
            &&& image.len() > 0x211
            &&& image[0x1FE] == 0x55 && image[0x1FF] == 0xAA
            &&& image[0x202] == 0x48 && image[0x203] == 0x64 && image[0x204] == 0x72
                && image[0x205] == 0x53
            &&& image[0x211] % 2 == 1
            &&& image.len() >= 512 * (1 + (if image[0x1F1] == 0 {
                4
            } else {
                image[0x1F1] as int
            }))
        },
{
    crate::bzimage::law_header_says_where_the_kernel_begins(image);
}

/// A RAM disk lies at a page boundary above the kernel, as high in RAM as it
/// fits, and its address and size are what the kernel is told; without one, or
/// with an empty one, both are zero. Nothing else in RAM changes.
pub proof fn law_initrd_lies_high_above_the_kernel(
    ram: Seq<u8>,
    kernel_len: nat,
    initrd: Option<Seq<u8>>,
)
    requires
        initrd_placed(ram, kernel_len, initrd).1 is Ok,
    ensures
        ({
            let (placed, disk) = initrd_placed(ram, kernel_len, initrd);
            let (addr, size) = disk->Ok_0;
            &&& placed.len() == ram.len()
            &&& initrd is None || (initrd->0).len() == 0 ==> addr == 0 && size == 0 && placed
                == ram
            &&& initrd is Some && (initrd->0).len() > 0 ==> {
                let d = initrd->0;
                &&& size == d.len()
                &&& addr % 4096 == 0
                &&& 0x10_0000 + kernel_len <= addr
                &&& addr + d.len() <= ram.len() < addr + d.len() + 4096
                &&& forall|i: int|
                    0 <= i < ram.len() ==> #[trigger] placed[i] == (if addr <= i < addr + d.len() {
                        d[i - addr]
                    } else {
                        ram[i]
                    })
            }
        }),
{
}

/// A RAM disk is placed exactly if there is room for it above the kernel and its
/// address and size fit in 32 bits.
pub proof fn law_when_an_initrd_fits(ram: Seq<u8>, kernel_len: nat, initrd: Option<Seq<u8>>)
    requires
        initrd is Some,
        (initrd->0).len() > 0,
    ensures
        ({
            let d = initrd->0;
            let addr = (ram.len() - d.len()) - (ram.len() - d.len()) % 4096;
            initrd_placed(ram, kernel_len, initrd).1 is Ok <==> d.len() <= ram.len() && 0x10_0000
                + kernel_len <= addr <= u32::MAX && d.len() <= u32::MAX
        }),
{
}

proof fn lemma_loaded_params(
    ram: Seq<u8>,
    image: Seq<u8>,
    cmdline: Seq<u8>,
    initrd: Option<Seq<u8>>,
)
    requires
        bzimage_loaded(0, ram, image, cmdline, initrd).1 is None,
        ram.len() <= usize::MAX,
    ensures
        ({
            let loaded = bzimage_loaded(0, ram, image, cmdline, initrd).0;
            let disk = initrd_placed(ram, kernel_of(image).len(), initrd).1->Ok_0;
            &&& image.len() >= 0x268
            &&& image_error(0, image) is None
            &&& initrd_placed(ram, kernel_of(image).len(), initrd).1 is Ok
            &&& loaded.len() == ram.len()
            &&& 0x10_0000 + kernel_of(image).len() <= ram.len()
            &&& loaded.subrange(0x1_0000, 0x1_1000) == boot_params(
                image,
                0x2_0000,
                disk.0,
                disk.1,
                standard_e820(ram.len() as u64),
            )
        }),
{
    let kernel = kernel_of(image);
    let (placed, ramdisk) = initrd_placed(ram, kernel.len(), initrd);
    let disk = ramdisk->Ok_0;
    let params = boot_params(image, 0x2_0000, disk.0, disk.1, standard_e820(ram.len() as u64));
    crate::bzimage::law_boot_params_read_back(
        image,
        0x2_0000,
        disk.0,
        disk.1,
        standard_e820(ram.len() as u64),
    );
    assert(placed.len() == ram.len());
    let a = then_write((placed, None), 0, BOOT_PARAMS_GPA, params);
    let b = then_write(a, 0, CMDLINE_GPA, cmdline);
    let c = then_write(b, 0, (CMDLINE_GPA + cmdline.len()) as u64, seq![0u8]);
    let d = then_write(c, 0, PROTECTED_MODE_LOAD_ADDR, kernel);
    assert(d == kernel_written(placed, image, cmdline, disk));
    assert(d.0.subrange(0x1_0000, 0x1_1000) =~= params);
}

/// The boot parameters in the RAM of a guest whose kernel was loaded.
pub open spec fn params_in(ram: Seq<u8>) -> Seq<u8> {
    ram.subrange(0x1_0000, 0x1_1000)
}

/// Some entry of the memory map in boot parameters gives address `a` this type.
pub open spec fn map_says(params: Seq<u8>, a: int, kind: nat) -> bool {
    exists|i: int|
        0 <= i < params[0x1E8] && ({
            let (base, size, k) = #[trigger] crate::bzimage::map_entry(params, i);
            k == kind && base <= a < base + size
        })
}

/// A kernel that was loaded is told what memory it has: an address is usable
/// exactly if it lies in RAM below the firmware's area or from 1 MiB on, it is
/// reserved exactly if it lies in the firmware's area, and the map says nothing
/// else of any address.
pub proof fn law_loaded_kernel_is_told_its_memory(
    ram: Seq<u8>,
    image: Seq<u8>,
    cmdline: Seq<u8>,
    initrd: Option<Seq<u8>>,
    a: int,
    kind: nat,
)
    requires
        bzimage_loaded(0, ram, image, cmdline, initrd).1 is None,
        ram.len() <= usize::MAX,
        0 <= a,
    ensures
        ({
            let params = params_in(bzimage_loaded(0, ram, image, cmdline, initrd).0);
            let usable = a < 0x9_FC00 || 0x10_0000 <= a < ram.len();
            let reserved = 0x9_FC00 <= a < 0x10_0000;
            &&& map_says(params, a, 1) <==> usable
            &&& map_says(params, a, 2) <==> reserved
            &&& map_says(params, a, kind) ==> kind == 1 || kind == 2
        }),
{
    let loaded = bzimage_loaded(0, ram, image, cmdline, initrd).0;
    let disk = initrd_placed(ram, kernel_of(image).len(), initrd).1->Ok_0;
    let e820 = standard_e820(ram.len() as u64);
    let params = params_in(loaded);
    lemma_loaded_params(ram, image, cmdline, initrd);
    crate::bzimage::law_boot_params_spell_the_memory_map(image, 0x2_0000, disk.0, disk.1, e820);
    assert(e820.len() == 3);
    assert(params[0x1E8] == 3);
    let m0 = crate::bzimage::map_entry(params, 0);
    let m1 = crate::bzimage::map_entry(params, 1);
    let m2 = crate::bzimage::map_entry(params, 2);
    assert(m0 == (e820[0].0 as nat, e820[0].1 as nat, e820[0].2 as nat));
    assert(m1 == (e820[1].0 as nat, e820[1].1 as nat, e820[1].2 as nat));
    assert(m2 == (e820[2].0 as nat, e820[2].1 as nat, e820[2].2 as nat));
    assert(m0 == (0nat, 0x9_FC00nat, 1nat));
    assert(m1 == (0x9_FC00nat, 0x6_0400nat, 2nat));
    assert(m2 == (0x10_0000nat, (ram.len() - 0x10_0000) as nat, 1nat));
    if map_says(params, a, kind) {
        let i: int = choose|i: int|
            0 <= i < params[0x1E8] && ({
                let (base, size, k) = #[trigger] crate::bzimage::map_entry(params, i);
                k == kind && base <= a < base + size
            });
        assert(i == 0 || i == 1 || i == 2);
    }
    if map_says(params, a, 1) {
        let i: int = choose|i: int|
            0 <= i < params[0x1E8] && ({
                let (base, size, k) = #[trigger] crate::bzimage::map_entry(params, i);
                k == 1 && base <= a < base + size
            });
        assert(i == 0 || i == 1 || i == 2);
    }
    if map_says(params, a, 2) {
        let i: int = choose|i: int|
            0 <= i < params[0x1E8] && ({
                let (base, size, k) = #[trigger] crate::bzimage::map_entry(params, i);
                k == 2 && base <= a < base + size
            });
        assert(i == 0 || i == 1 || i == 2);
    }
}

/// A kernel that was loaded is told where its command line and its RAM disk lie,
/// finds itself at 1 MiB byte by byte, and finds its own setup header in the boot
/// parameters but for what its loader fills in.
pub proof fn law_loaded_kernel_is_told_where_things_are(
    ram: Seq<u8>,
    image: Seq<u8>,
    cmdline: Seq<u8>,
    initrd: Option<Seq<u8>>,
)
    requires
        bzimage_loaded(0, ram, image, cmdline, initrd).1 is None,
        cmdline.len() < 0x10_0000 - 0x2_0000,
        ram.len() <= usize::MAX,
    ensures
        ({
            let loaded = bzimage_loaded(0, ram, image, cmdline, initrd).0;
            let params = params_in(loaded);
            let sectors: int = if image[0x1F1] == 0 {
                4
            } else {
                image[0x1F1] as int
            };
            let start = 512 * (1 + sectors);
            let disk = crate::bytes::le_value(params.subrange(0x218, 0x21C));
            let disk_len = crate::bytes::le_value(params.subrange(0x21C, 0x220));
            &&& loaded.len() == ram.len()
            &&& forall|i: int|
                start <= i < image.len() ==> loaded[0x10_0000 + (i - start)] == #[trigger] image[i]
            &&& crate::bytes::le_value(params.subrange(0x228, 0x22C)) == 0x2_0000
            &&& forall|i: int|
                0 <= i < cmdline.len() ==> loaded[0x2_0000 + i] == #[trigger] cmdline[i]
            &&& loaded[0x2_0000int + cmdline.len()] == 0
            &&& params[0x210] == 0xFF
            &&& forall|i: int|
                0x1F1 <= i < 0x268 && i != 0x210 && !(0x218 <= i < 0x220) && !(0x228 <= i < 0x22C)
                    ==> #[trigger] params[i] == image[i]
            &&& initrd is None || (initrd->0).len() == 0 ==> disk == 0 && disk_len == 0
            &&& initrd is Some && (initrd->0).len() > 0 ==> {
                let d = initrd->0;
                &&& disk_len == d.len()
                &&& disk % 4096 == 0
                &&& 0x10_0000 + (image.len() - start) <= disk
                &&& disk + d.len() <= ram.len() < disk + d.len() + 4096
                &&& forall|i: int| 0 <= i < d.len() ==> loaded[disk + i] == #[trigger] d[i]
            }
        }),
{
    let loaded = bzimage_loaded(0, ram, image, cmdline, initrd).0;
    let kernel = kernel_of(image);
    let (placed, ramdisk) = initrd_placed(ram, kernel.len(), initrd);
    let disk = ramdisk->Ok_0;
    let e820 = standard_e820(ram.len() as u64);
    lemma_loaded_params(ram, image, cmdline, initrd);
    law_loaded_kernel_is_in_place(ram, image, cmdline, initrd);
    law_kernel_is_the_rest_of_the_image(image);
    law_initrd_lies_high_above_the_kernel(ram, kernel.len(), initrd);
    crate::bzimage::law_boot_params_read_back(image, 0x2_0000, disk.0, disk.1, e820);
    let sectors: int = if image[0x1F1] == 0 {
        4
    } else {
        image[0x1F1] as int
    };
    let start = 512 * (1 + sectors);
    assert forall|i: int| start <= i < image.len() implies loaded[0x10_0000 + (i - start)]
        == #[trigger] image[i] by {
        assert(loaded.subrange(0x10_0000, 0x10_0000int + kernel.len())[i - start] == kernel[i
            - start]);
    }
    assert forall|i: int| 0 <= i < cmdline.len() implies loaded[0x2_0000 + i]
        == #[trigger] cmdline[i] by {
        assert(loaded.subrange(0x2_0000, 0x2_0000int + cmdline.len())[i] == cmdline[i]);
    }
    if initrd is Some && (initrd->0).len() > 0 {
        let d = initrd->0;
        assert forall|i: int| 0 <= i < d.len() implies loaded[disk.0 + i] == #[trigger] d[i] by {
            assert(loaded.subrange(disk.0 as int, disk.0 + d.len())[i] == d[i]);
        }
    }
}

/// A kernel is loaded exactly if the image is a kernel that can be, its setup
/// header is whole, and kernel, command line and RAM disk find room; otherwise
/// something is said of why not.
pub proof fn law_which_kernels_are_loaded(
    ram: Seq<u8>,
    image: Seq<u8>,
    cmdline: Seq<u8>,
    initrd: Option<Seq<u8>>,
)
    requires
        ram.len() <= usize::MAX,
        cmdline.len() <= usize::MAX - 0x3_0000,
    ensures
        bzimage_loaded(0, ram, image, cmdline, initrd).1 is None <==> {
            &&& image_error(0, image) is None
            &&& image.len() >= 0x268
            &&& initrd_placed(ram, kernel_of(image).len(), initrd).1 is Ok
            &&& 0x10_0000 + kernel_of(image).len() <= ram.len()
            &&& 0x2_0000 + cmdline.len() + 1 <= ram.len()
        },
{
    if image_error(0, image) is None && image.len() >= 0x268 {
        let kernel = kernel_of(image);
        let (placed, ramdisk) = initrd_placed(ram, kernel.len(), initrd);
        if ramdisk is Ok {
            let disk = ramdisk->Ok_0;
            assert(placed.len() == ram.len());
            crate::bzimage::law_boot_params_read_back(
                image,
                0x2_0000,
                disk.0,
                disk.1,
                standard_e820(ram.len() as u64),
            );
        }
    }
}

/// The tables that identity-map the first 2 MiB are written exactly if they lie
/// in the RAM, and they change nothing but their three entries.
pub proof fn law_identity_tables_change_three_entries(ram: Seq<u8>, at: int)
    requires
        ram.len() <= usize::MAX,
        0 <= at < ram.len(),
    ensures
        ({
            let (t, error) = identity_tables_written(ram, 0);
            &&& error is None <==> ram.len() >= 0x6008
            &&& t.len() == ram.len()
            &&& !(0x4000 <= at < 0x4008) && !(0x5000 <= at < 0x5008) && !(0x6000 <= at < 0x6008)
                ==> t[at] == ram[at]
        }),
{
    crate::bytes::lemma_le_bytes_len(0x5003, 8);
    crate::bytes::lemma_le_bytes_len(0x6003, 8);
    crate::bytes::lemma_le_bytes_len(0x83, 8);
}

/// A guest is resumed exactly if a real-mode waking vector is armed.
pub proof fn law_only_real_mode_vectors_resume(waking: Option<ResumeTarget>)
    ensures
        resume_error(waking) is None <==> (waking matches Some(ResumeTarget::RealMode(_))),
{
}

/// A payload that does not lie in the RAM is a fault of the configuration, and the
/// message gives its place and its size; everything else that keeps a guest from
/// being prepared lies with the hypervisor.
pub proof fn law_who_is_at_fault(spec: GuestBootSpec, host: HostReport, e: Error)
    requires
        prepare_error(spec, host, e),
    ensures
        e is Config <==> !payload_fits(spec),
        e is HypervisorError <==> payload_fits(spec),
        spec.entry < spec.load_base ==> (e matches Error::Config(m) && m@ == "entry "@ + hex(
            spec.entry as nat,
        ) + " is below the load base "@ + hex(spec.load_base as nat)),
        spec.entry >= spec.load_base && !payload_fits(spec) ==> (e matches Error::Config(m) && m@
            == "image of "@ + dec(spec.image@.len()) + " bytes at entry offset "@ + hex(
            (spec.entry - spec.load_base) as nat,
        ) + " does not fit in "@ + dec(spec.ram_bytes as nat) + " bytes of guest RAM"@),
{
}

} // verus!
