//! The register state that a vCPU starts a boot protocol with.
use crate::error::{Error, Result};
use crate::kvm_backend::{no_vcpu_text, KvmBackend};
use vstd::prelude::*;

verus! {

/// A segment register with its cached descriptor.
#[derive(Debug, Clone, Copy, PartialEq, Eq, Structural)]
pub struct Segment {
    pub base: u64,
    pub limit: u32,
    pub selector: u16,
    pub type_: u8,
    pub present: u8,
    pub dpl: u8,
    pub db: u8,
    pub s: u8,
    pub l: u8,
    pub g: u8,
    pub avl: u8,
    pub unusable: u8,
}

/// The segment and control registers that decide a vCPU's mode.
#[derive(Debug, Clone, Copy, PartialEq, Eq, Structural)]
pub struct SpecialRegs {
    pub cs: Segment,
    pub ds: Segment,
    pub es: Segment,
    pub fs: Segment,
    pub gs: Segment,
    pub ss: Segment,
    pub cr0: u64,
    pub cr3: u64,
    pub cr4: u64,
    pub efer: u64,
}

/// The general registers that a boot protocol sets.
#[derive(Debug, Clone, Copy, PartialEq, Eq, Structural)]
pub struct GeneralRegs {
    pub rip: u64,
    pub rflags: u64,
    pub rsi: u64,
}

/// The flags register with nothing but its reserved bit.
pub const RFLAGS_RESERVED: u64 = 2;

/// Protection enable, bit 0 of CR0.
pub const CR0_PE: u64 = 0x1;

/// Paging, bit 31 of CR0.
pub const CR0_PG: u64 = 0x8000_0000;

/// Both of them.
pub const CR0_PE_PG: u64 = 0x8000_0001;

/// Physical address extension, bit 5 of CR4.
pub const CR4_PAE: u64 = 0x20;

/// Long mode enable and long mode active, bits 8 and 10 of EFER.
pub const EFER_LME_LMA: u64 = 0x500;

/// The segment moved to address 0 with a null selector.
pub open spec fn at_zero(seg: Segment) -> Segment {
    Segment { base: 0, selector: 0, ..seg }
}

/// A flat segment over 4 GiB: present, ring 0, page-granular.
pub open spec fn flat(seg: Segment, selector: u16, type_: u8, db: u8, l: u8) -> Segment {
    Segment {
        base: 0,
        limit: 0xFFFF_FFFF,
        selector,
        type_,
        s: 1,
        dpl: 0,
        present: 1,
        db,
        l,
        g: 1,
        ..seg
    }
}

/// A flat code segment: selector 0x08, execute/read, accessed.
pub open spec fn flat_code(seg: Segment, long: bool) -> Segment {
    if long {
        flat(seg, 0x08, 0b1011, 0, 1)
    } else {
        flat(seg, 0x08, 0b1011, 1, 0)
    }
}

/// A flat data segment: selector 0x10, read/write, accessed.
pub open spec fn flat_data(seg: Segment) -> Segment {
    flat(seg, 0x10, 0b0011, 1, 0)
}

/// 16-bit real mode with every segment at address 0.
pub open spec fn real_mode(s: SpecialRegs) -> SpecialRegs {
    SpecialRegs {
        cs: at_zero(s.cs),
        ds: at_zero(s.ds),
        es: at_zero(s.es),
        fs: at_zero(s.fs),
        gs: at_zero(s.gs),
        ss: at_zero(s.ss),
        ..s
    }
}

/// Flat code and data segments.
pub open spec fn flat_segments(s: SpecialRegs, long: bool) -> SpecialRegs {
    SpecialRegs {
        cs: flat_code(s.cs, long),
        ds: flat_data(s.ds),
        es: flat_data(s.es),
        fs: flat_data(s.fs),
        gs: flat_data(s.gs),
        ss: flat_data(s.ss),
        ..s
    }
}

/// 32-bit protected mode with flat segments and paging off.
pub open spec fn protected_mode(s: SpecialRegs) -> SpecialRegs {
    SpecialRegs { cr0: (s.cr0 | CR0_PE) & !CR0_PG, ..flat_segments(s, false) }
}

/// 64-bit long mode with flat segments, paging through the tables at `pml4_gpa`.
pub open spec fn long_mode(s: SpecialRegs, pml4_gpa: u64) -> SpecialRegs {
    SpecialRegs {
        cr3: pml4_gpa,
        cr4: s.cr4 | CR4_PAE,
        efer: s.efer | EFER_LME_LMA,
        cr0: s.cr0 | CR0_PE_PG,
        ..flat_segments(s, true)
    }
}

/// Execution from `entry` with clear flags.
pub open spec fn entered_at(r: GeneralRegs, entry: u64) -> GeneralRegs {
    GeneralRegs { rip: entry, rflags: RFLAGS_RESERVED, ..r }
}

/// Protected mode is on and paging off, and no other bit of CR0 has changed.
pub proof fn law_protected_mode_bits(s: SpecialRegs)
    ensures
        protected_mode(s).cr0 & CR0_PE == CR0_PE,
        protected_mode(s).cr0 & CR0_PG == 0,
        protected_mode(s).cr0 & !0x8000_0001u64 == s.cr0 & !0x8000_0001u64,
        protected_mode(s).cr3 == s.cr3,
        protected_mode(s).cr4 == s.cr4,
        protected_mode(s).efer == s.efer,
{
    let c = s.cr0;
    assert(((c | 0x1) & !0x8000_0000) & 0x1 == 0x1 && ((c | 0x1) & !0x8000_0000) & 0x8000_0000 == 0
        && ((c | 0x1) & !0x8000_0000) & !0x8000_0001 == c & !0x8000_0001) by (bit_vector);
}

/// Paging, protection, address extension and long mode are all on, and no
/// other control bit has changed.
pub proof fn law_long_mode_bits(s: SpecialRegs, pml4_gpa: u64)
    ensures
        ({
            let r = long_mode(s, pml4_gpa);
            &&& r.cr0 & 0x8000_0001 == 0x8000_0001
            &&& r.cr0 & !0x8000_0001 == s.cr0 & !0x8000_0001
            &&& r.cr4 & CR4_PAE == CR4_PAE
            &&& r.cr4 & !CR4_PAE == s.cr4 & !CR4_PAE
            &&& r.efer & EFER_LME_LMA == EFER_LME_LMA
            &&& r.efer & !EFER_LME_LMA == s.efer & !EFER_LME_LMA
            &&& r.cr3 == pml4_gpa
        }),
{
    let c = s.cr0;
    let d = s.cr4;
    let e = s.efer;
    assert((c | 0x8000_0001u64) & 0x8000_0001 == 0x8000_0001 && (c | 0x8000_0001u64)
        & !0x8000_0001 == c & !0x8000_0001 && (d | 0x20) & 0x20 == 0x20 && (d | 0x20) & !0x20 == d
        & !0x20 && (e | 0x500) & 0x500 == 0x500 && (e | 0x500) & !0x500 == e & !0x500)
        by (bit_vector);
}

/// Preparing a vCPU twice is preparing it once, with the later entry.
pub proof fn law_preparing_again_replaces(s: SpecialRegs, a: u64, b: u64)
    ensures
        real_mode(real_mode(s)) == real_mode(s),
        protected_mode(protected_mode(s)) == protected_mode(s),
        long_mode(long_mode(s, a), b) == long_mode(s, b),
{
    let c = s.cr0;
    let d = s.cr4;
    let e = s.efer;
    assert((((c | 0x1) & !0x8000_0000) | 0x1) & !0x8000_0000 == (c | 0x1) & !0x8000_0000 && (c
        | 0x8000_0001u64) | 0x8000_0001u64 == c | 0x8000_0001u64 && (d | 0x20) | 0x20 == d | 0x20
        && (e | 0x500) | 0x500 == e | 0x500) by (bit_vector);
}

fn to_zero(seg: Segment) -> (r: Segment)
    ensures
        r == at_zero(seg),
{
    Segment { base: 0, selector: 0, ..seg }
}

fn to_flat(seg: Segment, selector: u16, type_: u8, db: u8, l: u8) -> (r: Segment)
    ensures
        r == flat(seg, selector, type_, db, l),
{
    Segment {
        base: 0,
        limit: 0xFFFF_FFFF,
        selector,
        type_,
        s: 1,
        dpl: 0,
        present: 1,
        db,
        l,
        g: 1,
        ..seg
    }
}

fn to_flat_segments(s: SpecialRegs, long: bool) -> (r: SpecialRegs)
    ensures
        r == flat_segments(s, long),
{
    let cs: Segment = if long {
        to_flat(s.cs, 0x08, 0b1011, 0, 1)
    } else {
        to_flat(s.cs, 0x08, 0b1011, 1, 0)
    };
    SpecialRegs {
        cs,
        ds: to_flat(s.ds, 0x10, 0b0011, 1, 0),
        es: to_flat(s.es, 0x10, 0b0011, 1, 0),
        fs: to_flat(s.fs, 0x10, 0b0011, 1, 0),
        gs: to_flat(s.gs, 0x10, 0b0011, 1, 0),
        ss: to_flat(s.ss, 0x10, 0b0011, 1, 0),
        ..s
    }
}

impl KvmBackend {
    /// Points vCPU `index` at a flat 16-bit real-mode entry, from the registers
    /// that it has: every segment gets base 0, so that the instruction pointer
    /// is a guest-physical address.
    ///
    /// Fails where there is no such vCPU.
    pub fn prepare_real_mode_vcpu(
        &self,
        index: usize,
        entry: u64,
        sregs: SpecialRegs,
        regs: GeneralRegs,
    ) -> (r: Result<(SpecialRegs, GeneralRegs)>)
        ensures
            r is Ok <==> index < self.apic_ids@.len(),
            r matches Ok(p) ==> p == (real_mode(sregs), entered_at(regs, entry)),
            r matches Err(e) ==> e matches Error::Vcpu(m) && m@ == no_vcpu_text(index),
    {
        match self.check_vcpu(index) {
            Ok(()) => {},
            Err(e) => {
                return Err(e);
            },
        }
        let s = SpecialRegs {
            cs: to_zero(sregs.cs),
            ds: to_zero(sregs.ds),
            es: to_zero(sregs.es),
            fs: to_zero(sregs.fs),
            gs: to_zero(sregs.gs),
            ss: to_zero(sregs.ss),
            ..sregs
        };
        Ok((s, GeneralRegs { rip: entry, rflags: RFLAGS_RESERVED, ..regs }))
    }

    /// Prepares vCPU `index` for 32-bit protected-mode code at `entry`, with
    /// flat segments loaded straight into the descriptor caches and paging off.
    ///
    /// Fails where there is no such vCPU.
    pub fn prepare_protected_mode_vcpu(
        &self,
        index: usize,
        entry: u64,
        sregs: SpecialRegs,
        regs: GeneralRegs,
    ) -> (r: Result<(SpecialRegs, GeneralRegs)>)
        ensures
            r is Ok <==> index < self.apic_ids@.len(),
            r matches Ok(p) ==> p == (protected_mode(sregs), entered_at(regs, entry)),
            r matches Err(e) ==> e matches Error::Vcpu(m) && m@ == no_vcpu_text(index),
    {
        match self.check_vcpu(index) {
            Ok(()) => {},
            Err(e) => {
                return Err(e);
            },
        }
        let f: SpecialRegs = to_flat_segments(sregs, false);
        let s = SpecialRegs { cr0: (sregs.cr0 | CR0_PE) & !CR0_PG, ..f };
        Ok((s, GeneralRegs { rip: entry, rflags: RFLAGS_RESERVED, ..regs }))
    }

    /// Prepares vCPU `index` for 64-bit long-mode code at `entry`, with paging
    /// through the tables that the caller has placed at `pml4_gpa`.
    ///
    /// Fails where there is no such vCPU.
    pub fn prepare_long_mode_vcpu(
        &self,
        index: usize,
        entry: u64,
        pml4_gpa: u64,
        sregs: SpecialRegs,
        regs: GeneralRegs,
    ) -> (r: Result<(SpecialRegs, GeneralRegs)>)
        ensures
            r is Ok <==> index < self.apic_ids@.len(),
            r matches Ok(p) ==> p == (long_mode(sregs, pml4_gpa), entered_at(regs, entry)),
            r matches Err(e) ==> e matches Error::Vcpu(m) && m@ == no_vcpu_text(index),
    {
        match self.check_vcpu(index) {
            Ok(()) => {},
            Err(e) => {
                return Err(e);
            },
        }
        let f: SpecialRegs = to_flat_segments(sregs, true);
        let s = SpecialRegs {
            cr3: pml4_gpa,
            cr4: sregs.cr4 | CR4_PAE,
            efer: sregs.efer | EFER_LME_LMA,
            cr0: sregs.cr0 | CR0_PE_PG,
            ..f
        };
        Ok((s, GeneralRegs { rip: entry, rflags: RFLAGS_RESERVED, ..regs }))
    }

    /// Prepares vCPU `index` to enter a Linux kernel by the 32-bit boot
    /// protocol: protected mode, with RSI at the boot parameters.
    ///
    /// Fails where there is no such vCPU.
    pub fn prepare_linux_boot_vcpu(
        &self,
        index: usize,
        entry: u64,
        boot_params: u64,
        sregs: SpecialRegs,
        regs: GeneralRegs,
    ) -> (r: Result<(SpecialRegs, GeneralRegs)>)
        ensures
            r is Ok <==> index < self.apic_ids@.len(),
            r matches Ok(p) ==> p == (
                protected_mode(sregs),
                (GeneralRegs { rsi: boot_params, ..entered_at(regs, entry) }),
            ),
            r matches Err(e) ==> e matches Error::Vcpu(m) && m@ == no_vcpu_text(index),
    {
        match self.prepare_protected_mode_vcpu(index, entry, sregs, regs) {
            Ok((s, g)) => Ok((s, GeneralRegs { rsi: boot_params, ..g })),
            Err(e) => Err(e),
        }
    }

    /// Prepares vCPU `index` to enter a Linux kernel by the 64-bit boot
    /// protocol: long mode, with RSI at the boot parameters.
    ///
    /// Fails where there is no such vCPU.
    pub fn prepare_linux_boot_vcpu_64(
        &self,
        index: usize,
        entry: u64,
        boot_params: u64,
        pml4_gpa: u64,
        sregs: SpecialRegs,
        regs: GeneralRegs,
    ) -> (r: Result<(SpecialRegs, GeneralRegs)>)
        ensures
            r is Ok <==> index < self.apic_ids@.len(),
            r matches Ok(p) ==> p == (
                long_mode(sregs, pml4_gpa),
                (GeneralRegs { rsi: boot_params, ..entered_at(regs, entry) }),
            ),
            r matches Err(e) ==> e matches Error::Vcpu(m) && m@ == no_vcpu_text(index),
    {
        match self.prepare_long_mode_vcpu(index, entry, pml4_gpa, sregs, regs) {
            Ok((s, g)) => Ok((s, GeneralRegs { rsi: boot_params, ..g })),
            Err(e) => Err(e),
        }
    }
}

/// `r` is `s` at address 0 with a null selector, and otherwise as it was.
pub open spec fn moved_to_zero(s: Segment, r: Segment) -> bool {
    &&& r.base == 0
    &&& r.selector == 0
    &&& r.limit == s.limit && r.type_ == s.type_ && r.present == s.present
    &&& r.dpl == s.dpl && r.db == s.db && r.s == s.s && r.l == s.l && r.g == s.g
    &&& r.avl == s.avl && r.unusable == s.unusable
}

/// A vCPU in real mode has every segment at address 0, so that addresses count
/// from there, and nothing else of its mode changes.
pub proof fn law_real_mode_segments(s: SpecialRegs)
    ensures
        moved_to_zero(s.cs, real_mode(s).cs),
        moved_to_zero(s.ds, real_mode(s).ds),
        moved_to_zero(s.es, real_mode(s).es),
        moved_to_zero(s.fs, real_mode(s).fs),
        moved_to_zero(s.gs, real_mode(s).gs),
        moved_to_zero(s.ss, real_mode(s).ss),
        real_mode(s).cr0 == s.cr0,
        real_mode(s).cr3 == s.cr3,
        real_mode(s).cr4 == s.cr4,
        real_mode(s).efer == s.efer,
{
}

/// A segment of the kernel over all of the low 4 GiB.
pub open spec fn covers_4g(r: Segment) -> bool {
    &&& r.base == 0
    &&& r.limit == 0xFFFF_FFFF
    &&& r.g == 1
    &&& r.present == 1
    &&& r.dpl == 0
    &&& r.s == 1
}

/// A 32-bit data segment of the kernel that can be written, behind selector 0x10.
pub open spec fn writable_data(r: Segment) -> bool {
    covers_4g(r) && r.selector == 0x10 && r.type_ == 3 && r.db == 1 && r.l == 0
}

/// In protected and in long mode all segments cover the low 4 GiB; the code
/// segment, behind selector 0x08, can be executed and read, in 32-bit or in
/// 64-bit code, and the others can be written.
pub proof fn law_flat_segments(s: SpecialRegs, pml4_gpa: u64)
    ensures
        ({
            let p = protected_mode(s);
            let q = long_mode(s, pml4_gpa);
            &&& covers_4g(p.cs) && p.cs.selector == 8 && p.cs.type_ == 11
            &&& p.cs.db == 1 && p.cs.l == 0
            &&& covers_4g(q.cs) && q.cs.selector == 8 && q.cs.type_ == 11
            &&& q.cs.db == 0 && q.cs.l == 1
            &&& writable_data(p.ds) && writable_data(p.es) && writable_data(p.fs)
                && writable_data(p.gs) && writable_data(p.ss)
            &&& writable_data(q.ds) && writable_data(q.es) && writable_data(q.fs)
                && writable_data(q.gs) && writable_data(q.ss)
            &&& p.cs.avl == s.cs.avl && p.cs.unusable == s.cs.unusable
            &&& p.ss.avl == s.ss.avl && p.ss.unusable == s.ss.unusable
            &&& q.cs.avl == s.cs.avl && q.cs.unusable == s.cs.unusable
            &&& q.ss.avl == s.ss.avl && q.ss.unusable == s.ss.unusable
        }),
{
}

/// Protected mode sets bit 0 of CR0 and clears bit 31; long mode sets bits 0 and
/// 31 of CR0, bit 5 of CR4 and bits 8 and 10 of EFER.
pub proof fn law_mode_bits_by_number(s: SpecialRegs, pml4_gpa: u64)
    ensures
        ({
            let p = protected_mode(s);
            let q = long_mode(s, pml4_gpa);
            &&& p.cr0 & (1u64 << 0) != 0
            &&& p.cr0 & (1u64 << 31) == 0
            &&& q.cr0 & (1u64 << 0) != 0
            &&& q.cr0 & (1u64 << 31) != 0
            &&& q.cr4 & (1u64 << 5) != 0
            &&& q.efer & (1u64 << 8) != 0
            &&& q.efer & (1u64 << 10) != 0
            &&& q.cr4 | (1u64 << 5) == s.cr4 | (1u64 << 5)
            &&& q.efer | 0x500 == s.efer | 0x500
            &&& q.cr0 | 0x8000_0001 == s.cr0 | 0x8000_0001
        }),
{
    let c = s.cr0;
    let d = s.cr4;
    let e = s.efer;
    assert({
        let p = (c | 0x1) & !0x8000_0000;
        &&& p & (1u64 << 0) != 0
        &&& p & (1u64 << 31) == 0
        &&& (c | 0x8000_0001u64) & (1u64 << 0) != 0
        &&& (c | 0x8000_0001u64) & (1u64 << 31) != 0
        &&& (d | 0x20) & (1u64 << 5) != 0
        &&& (d | 0x20) | (1u64 << 5) == d | (1u64 << 5)
        &&& (e | 0x500) & (1u64 << 8) != 0
        &&& (e | 0x500) & (1u64 << 10) != 0
        &&& (e | 0x500) | 0x500 == e | 0x500
        &&& (c | 0x8000_0001u64) | 0x8000_0001u64 == c | 0x8000_0001u64
    }) by (bit_vector);
}

/// A vCPU is entered where it was told, with interrupts off: of its flags only
/// bit 1, which is always set. Its other registers stay.
pub proof fn law_entered_at(r: GeneralRegs, entry: u64)
    ensures
        entered_at(r, entry).rip == entry,
        entered_at(r, entry).rflags == 2,
        entered_at(r, entry).rsi == r.rsi,
{
}

} // verus!
