//! CPUID filtering for guest transparency.
//!
//! The hypervisor intercepts CPUID and returns crafted responses that hide
//! its presence and report the topology of the guest's allocated cores.
use crate::bits::{bit_length, bits_needed, field, set_field, with_field};
use crate::bits::{law_with_field, law_with_field_commutes, law_with_field_twice};
use crate::bytes::{le32, le_bytes, le_value};
use vstd::prelude::*;

verus! {

/// A single CPUID leaf entry.
#[derive(Debug, Clone, Copy, PartialEq, Eq, Structural)]
pub struct CpuidEntry {
    pub function: u32,
    pub index: u32,
    pub eax: u32,
    pub ebx: u32,
    pub ecx: u32,
    pub edx: u32,
}

/// Guest CPU topology description for CPUID crafting.
#[derive(Debug, Clone, Copy, PartialEq, Eq, Structural)]
pub struct GuestTopology {
    /// Number of logical CPUs the guest sees.
    pub logical_cpus: u32,
    /// Cores per package (physical cores visible to the guest).
    pub cores_per_package: u32,
    /// Threads per core (typically 1 unless exposing hyper-threads).
    pub threads_per_core: u32,
    /// Package (socket) count visible to the guest.
    pub packages: u32,
    /// L1 cache sharing (cores sharing L1, typically 1).
    pub l1_sharing: u32,
    /// L2 cache sharing (cores sharing L2, typically 1-2).
    pub l2_sharing: u32,
    /// L3 cache sharing (cores sharing L3, typically all).
    pub l3_sharing: u32,
}

impl GuestTopology {
    /// A simple topology: `core_count` cores, one thread each, one package.
    #[must_use]
    pub fn simple(core_count: u32) -> (r: Self)
        ensures
            r == simple_topology(core_count),
    {
        GuestTopology {
            logical_cpus: core_count,
            cores_per_package: core_count,
            threads_per_core: 1,
            packages: 1,
            l1_sharing: 1,
            l2_sharing: 1,
            l3_sharing: core_count,
        }
    }
}

/// `core_count` cores with one thread each in one package; private L1 and L2
/// caches and one shared L3 cache.
pub open spec fn simple_topology(core_count: u32) -> GuestTopology {
    GuestTopology {
        logical_cpus: core_count,
        cores_per_package: core_count,
        threads_per_core: 1,
        packages: 1,
        l1_sharing: 1,
        l2_sharing: 1,
        l3_sharing: core_count,
    }
}

/// CPUID filter that modifies host CPUID data for guest consumption.
pub struct CpuidFilter {
    /// Guest topology description.
    pub topology: GuestTopology,
    /// Whether to hide the hypervisor from the guest.
    pub hide_hypervisor: bool,
    /// Custom vendor string; `None` passes the host's vendor through.
    pub custom_vendor: Option<[u8; 12]>,
}

/// `n - 1`, but not below zero.
pub open spec fn minus_one(n: u32) -> u32 {
    if n == 0 {
        0
    } else {
        (n - 1) as u32
    }
}

/// The vendor string in the order in which the registers hold it.
pub open spec fn with_vendor(e: CpuidEntry, v: Seq<u8>) -> CpuidEntry {
    CpuidEntry {
        ebx: le_value(seq![v[0], v[1], v[2], v[3]]) as u32,
        edx: le_value(seq![v[4], v[5], v[6], v[7]]) as u32,
        ecx: le_value(seq![v[8], v[9], v[10], v[11]]) as u32,
        ..e
    }
}

/// How many cores share the cache that sub-leaf `index` describes.
pub open spec fn cache_sharing(t: GuestTopology, index: u32) -> u32 {
    if index == 0 || index == 1 {
        t.l1_sharing
    } else if index == 2 {
        t.l2_sharing
    } else if index == 3 {
        t.l3_sharing
    } else {
        1
    }
}

/// The shift that separates the threads of one core in an APIC id.
pub open spec fn smt_shift(t: GuestTopology) -> u32 {
    if t.threads_per_core > 1 {
        1
    } else {
        0
    }
}

/// The shift that separates the logical CPUs of one package in an APIC id.
pub open spec fn core_shift(t: GuestTopology) -> u32 {
    bit_length(t.logical_cpus as nat) as u32
}

/// `leaf` is one of the leaves in which hypervisors describe themselves.
pub open spec fn is_hypervisor_leaf(leaf: u32) -> bool {
    0x4000_0000 <= leaf <= 0x4000_00FF
}

/// One level of the extended topology leaf: the APIC id shift, the number of
/// logical processors and the level type.
pub open spec fn with_level(e: CpuidEntry, shift: u32, count: u32, level_type: u32) -> CpuidEntry {
    CpuidEntry {
        eax: with_field(e.eax, 0, 0x1F, shift),
        ebx: with_field(e.ebx, 0, 0xFFFF, count),
        ecx: with_field(e.ecx, 8, 0xFF, level_type),
        ..e
    }
}

impl CpuidFilter {
    /// What a guest behind this filter sees of the host's entry `e`.
    pub open spec fn filtered(self, e: CpuidEntry) -> Option<CpuidEntry> {
        let t = self.topology;
        if e.function == 0 {
            match self.custom_vendor {
                Some(v) => Some(with_vendor(e, v@)),
                None => Some(e),
            }
        } else if e.function == 1 {
            Some(
                CpuidEntry {
                    ebx: with_field(e.ebx, 16, 0xFF, t.logical_cpus),
                    ecx: if self.hide_hypervisor {
                        with_field(e.ecx, 31, 1, 0)
                    } else {
                        e.ecx
                    },
                    ..e
                },
            )
        } else if e.function == 4 {
            if field(e.eax, 0, 0x1F) == 0 {
                Some(e)
            } else {
                let shared = with_field(e.eax, 14, 0xFFF, minus_one(cache_sharing(t, e.index)));
                Some(
                    CpuidEntry {
                        eax: with_field(shared, 26, 0x3F, minus_one(t.cores_per_package)),
                        ..e
                    },
                )
            }
        } else if e.function == 0xB {
            if e.index == 0 {
                Some(with_level(e, smt_shift(t), t.threads_per_core, 1))
            } else if e.index == 1 {
                Some(with_level(e, core_shift(t), t.logical_cpus, 2))
            } else {
                Some(CpuidEntry { eax: 0, ebx: 0, ecx: e.index, ..e })
            }
        } else if is_hypervisor_leaf(e.function) && self.hide_hypervisor {
            None
        } else {
            Some(e)
        }
    }

    /// A filter for a simple topology that hides the hypervisor.
    #[must_use]
    pub fn new(guest_cpu_count: u32) -> (r: Self)
        ensures
            r == (CpuidFilter {
                topology: simple_topology(guest_cpu_count),
                hide_hypervisor: true,
                custom_vendor: None,
            }),
    {
        CpuidFilter {
            topology: GuestTopology::simple(guest_cpu_count),
            hide_hypervisor: true,
            custom_vendor: None,
        }
    }

    /// A filter with full topology control that hides the hypervisor.
    #[must_use]
    pub fn with_topology(topology: GuestTopology) -> (r: Self)
        ensures
            r == (CpuidFilter { topology, hide_hypervisor: true, custom_vendor: None }),
    {
        CpuidFilter { topology, hide_hypervisor: true, custom_vendor: None }
    }

    /// Sets whether to hide the hypervisor.
    pub fn set_hide_hypervisor(&mut self, hide: bool)
        ensures
            *final(self) == (CpuidFilter { hide_hypervisor: hide, ..*old(self) }),
    {
        self.hide_hypervisor = hide;
    }

    /// Sets a custom vendor string of twelve bytes.
    pub fn set_vendor(&mut self, vendor: [u8; 12])
        ensures
            *final(self) == (CpuidFilter { custom_vendor: Some(vendor), ..*old(self) }),
    {
        self.custom_vendor = Some(vendor);
    }

    /// The topology that guests are shown.
    #[must_use]
    pub fn topology(&self) -> (r: &GuestTopology)
        ensures
            *r == self.topology,
    {
        &self.topology
    }

    /// Filters a CPUID entry for guest consumption; `None` where the leaf is
    /// hidden entirely.
    #[must_use]
    pub fn filter(&self, entry: &CpuidEntry) -> (r: Option<CpuidEntry>)
        ensures
            r == self.filtered(*entry),
    {
        let mut out: CpuidEntry = *entry;
        let t: GuestTopology = self.topology;
        if entry.function == 0 {
            match &self.custom_vendor {
                Some(v) => {
                    out.ebx = le32(v[0], v[1], v[2], v[3]);
                    out.edx = le32(v[4], v[5], v[6], v[7]);
                    out.ecx = le32(v[8], v[9], v[10], v[11]);
                },
                None => {},
            }
        } else if entry.function == 1 {
            if self.hide_hypervisor {
                out.ecx = set_field(out.ecx, 31, 1, 0);
            }
            out.ebx = set_field(out.ebx, 16, 0xFF, t.logical_cpus);
        } else if entry.function == 4 {
            let cache_type: u32 = (out.eax >> 0) & 0x1F;
            if cache_type == 0 {
                return Some(out);
            }
            let sharing: u32 = match entry.index {
                0 => t.l1_sharing,
                1 => t.l1_sharing,
                2 => t.l2_sharing,
                3 => t.l3_sharing,
                _ => 1,
            };
            out.eax = set_field(out.eax, 14, 0xFFF, sharing.saturating_sub(1));
            out.eax = set_field(out.eax, 26, 0x3F, t.cores_per_package.saturating_sub(1));
        } else if entry.function == 0xB {
            if entry.index == 0 {
                let shift: u32 = if t.threads_per_core > 1 { 1 } else { 0 };
                out.eax = set_field(out.eax, 0, 0x1F, shift);
                out.ebx = set_field(out.ebx, 0, 0xFFFF, t.threads_per_core);
                out.ecx = set_field(out.ecx, 8, 0xFF, 1);
            } else if entry.index == 1 {
                let shift: u32 = bits_needed(t.logical_cpus);
                out.eax = set_field(out.eax, 0, 0x1F, shift);
                out.ebx = set_field(out.ebx, 0, 0xFFFF, t.logical_cpus);
                out.ecx = set_field(out.ecx, 8, 0xFF, 2);
            } else {
                out.eax = 0;
                out.ebx = 0;
                out.ecx = entry.index;
            }
        } else if 0x4000_0000 <= entry.function && entry.function <= 0x4000_00FF
            && self.hide_hypervisor {
            return None;
        }
        Some(out)
    }

    /// The topology leaves of the vCPU with initial APIC id `apic_id`.
    pub open spec fn topology_entries(self, apic_id: u32) -> Seq<CpuidEntry> {
        let t = self.topology;
        seq![
            CpuidEntry {
                function: 1,
                index: 0,
                eax: 0,
                ebx: with_field(
                    with_field(with_field(0, 8, 0xFF, 8), 16, 0xFF, t.logical_cpus),
                    24,
                    0xFF,
                    apic_id,
                ),
                ecx: 0,
                edx: 0,
            },
            CpuidEntry {
                function: 0xB,
                index: 0,
                eax: smt_shift(t),
                ebx: t.threads_per_core,
                ecx: 0x100,
                edx: apic_id,
            },
            CpuidEntry {
                function: 0xB,
                index: 1,
                eax: core_shift(t),
                ebx: t.logical_cpus,
                ecx: 0x201,
                edx: apic_id,
            },
        ]
    }

    /// Generates the topology-related CPUID entries of one vCPU, the one with
    /// initial APIC id `apic_id`.
    #[must_use]
    pub fn generate_topology_entries(&self, apic_id: u32) -> (r: Vec<CpuidEntry>)
        ensures
            r@ == self.topology_entries(apic_id),
    {
        let t: GuestTopology = self.topology;
        let mut entries: Vec<CpuidEntry> = Vec::new();
        // Eight 8-byte words per CLFLUSH line, in bits 15:8.
        let line: u32 = set_field(0, 8, 0xFF, 8);
        let ebx: u32 = set_field(set_field(line, 16, 0xFF, t.logical_cpus), 24, 0xFF, apic_id);
        entries.push(CpuidEntry { function: 1, index: 0, eax: 0, ebx, ecx: 0, edx: 0 });
        let smt: u32 = if t.threads_per_core > 1 { 1 } else { 0 };
        entries.push(
            CpuidEntry {
                function: 0xB,
                index: 0,
                eax: smt,
                ebx: t.threads_per_core,
                ecx: 0x100,
                edx: apic_id,
            },
        );
        entries.push(
            CpuidEntry {
                function: 0xB,
                index: 1,
                eax: bits_needed(t.logical_cpus),
                ebx: t.logical_cpus,
                ecx: 0x201,
                edx: apic_id,
            },
        );
        entries
    }
}

/// With the hypervisor hidden, exactly the hypervisor leaves disappear, and
/// the hypervisor-present bit of the feature leaf is clear.
pub proof fn law_hypervisor_is_hidden(f: CpuidFilter, e: CpuidEntry)
    requires
        f.hide_hypervisor,
    ensures
        f.filtered(e) is None <==> is_hypervisor_leaf(e.function),
        e.function == 1 ==> field((f.filtered(e)->0).ecx, 31, 1) == 0,
{
    assert((1u32 << 31) >> 31 == 1u32) by (bit_vector);
    assert(0u32 & 1u32 == 0u32) by (bit_vector);
    law_with_field(e.ecx, 31, 1, 0);
}

/// With the hypervisor shown, no leaf disappears, and the feature leaf keeps
/// its hypervisor-present bit.
pub proof fn law_hypervisor_is_shown(f: CpuidFilter, e: CpuidEntry)
    requires
        !f.hide_hypervisor,
    ensures
        f.filtered(e) is Some,
        e.function == 1 ==> (f.filtered(e)->0).ecx == e.ecx,
{
}

/// The feature leaf reports the guest's CPU count and keeps the other fields
/// of EBX.
pub proof fn law_feature_leaf_counts_cpus(f: CpuidFilter, e: CpuidEntry)
    requires
        e.function == 1,
    ensures
        field((f.filtered(e)->0).ebx, 16, 0xFF) == f.topology.logical_cpus & 0xFF,
        (f.filtered(e)->0).ebx & !(0xFFu32 << 16) == e.ebx & !(0xFFu32 << 16),
{
    assert((0xFFu32 << 16) >> 16 == 0xFFu32) by (bit_vector);
    law_with_field(e.ebx, 16, 0xFF, f.topology.logical_cpus);
}

/// The cache leaf reports how many cores share the cache and how many the
/// package holds, and keeps the rest of EAX.
pub proof fn law_cache_leaf_fields(f: CpuidFilter, e: CpuidEntry)
    requires
        e.function == 4,
        field(e.eax, 0, 0x1F) != 0,
    ensures
        field((f.filtered(e)->0).eax, 26, 0x3F) == minus_one(f.topology.cores_per_package) & 0x3F,
        field((f.filtered(e)->0).eax, 14, 0xFFF) == minus_one(cache_sharing(f.topology, e.index))
            & 0xFFF,
        (f.filtered(e)->0).eax & 0x3FFF == e.eax & 0x3FFF,
{
    let cores = minus_one(f.topology.cores_per_package);
    let sharing = minus_one(cache_sharing(f.topology, e.index));
    lemma_cache_fields(e.eax, sharing, cores);
}

proof fn lemma_cache_fields(x: u32, sharing: u32, cores: u32)
    ensures
        ({
            let r = with_field(with_field(x, 14, 0xFFF, sharing), 26, 0x3F, cores);
            &&& field(r, 26, 0x3F) == cores & 0x3F
            &&& field(r, 14, 0xFFF) == sharing & 0xFFF
            &&& r & 0x3FFF == x & 0x3FFF
            &&& field(r, 0, 0x1F) == field(x, 0, 0x1F)
        }),
{
    let y = with_field(x, 14, 0xFFF, sharing);
    let r = with_field(y, 26, 0x3F, cores);
    assert((0x3Fu32 << 26) >> 26 == 0x3Fu32 && (0xFFFu32 << 14) >> 14 == 0xFFFu32) by (bit_vector);
    law_with_field(y, 26, 0x3F, cores);
    law_with_field(x, 14, 0xFFF, sharing);
    assert((r >> 14) & 0xFFF == (y >> 14) & 0xFFF && r & 0x3FFF == x & 0x3FFF && (r >> 0) & 0x1F
        == (x >> 0) & 0x1F) by (bit_vector)
        requires
            r & !(0x3Fu32 << 26) == y & !(0x3Fu32 << 26),
            y & !(0xFFFu32 << 14) == x & !(0xFFFu32 << 14),
    ;
}

/// A custom vendor string comes out of EBX, EDX and ECX byte by byte.
pub proof fn law_vendor_reads_back(f: CpuidFilter, e: CpuidEntry)
    requires
        e.function == 0,
        f.custom_vendor is Some,
    ensures
        ({
            let r = f.filtered(e)->0;
            &&& le_bytes(r.ebx as nat, 4) + le_bytes(r.edx as nat, 4) + le_bytes(r.ecx as nat, 4)
                == (f.custom_vendor->0)@
            &&& r.eax == e.eax
        }),
{
    let v = (f.custom_vendor->0)@;
    let a = seq![v[0], v[1], v[2], v[3]];
    let b = seq![v[4], v[5], v[6], v[7]];
    let c = seq![v[8], v[9], v[10], v[11]];
    crate::bytes::law_le_bytes_of_value(a);
    crate::bytes::law_le_bytes_of_value(b);
    crate::bytes::law_le_bytes_of_value(c);
    crate::bytes::law_le_value_bound(a);
    crate::bytes::law_le_value_bound(b);
    crate::bytes::law_le_value_bound(c);
    assert(vstd::arithmetic::power::pow(256, 4) == 0x1_0000_0000) by {
        reveal_with_fuel(vstd::arithmetic::power::pow, 5);
    }
    assert(a + b + c == v);
}

/// Filtering what was filtered changes nothing.
pub proof fn law_filter_is_idempotent(f: CpuidFilter, e: CpuidEntry)
    requires
        f.filtered(e) is Some,
    ensures
        f.filtered(f.filtered(e)->0) == f.filtered(e),
{
    let t = f.topology;
    let r = f.filtered(e)->0;
    if e.function == 1 {
        law_with_field_twice(e.ebx, 16, 0xFF, t.logical_cpus, t.logical_cpus);
        law_with_field_twice(e.ecx, 31, 1, 0, 0);
    } else if e.function == 4 && field(e.eax, 0, 0x1F) != 0 {
        let s = minus_one(cache_sharing(t, e.index));
        let c = minus_one(t.cores_per_package);
        lemma_cache_fields(e.eax, s, c);
        let y = with_field(e.eax, 14, 0xFFF, s);
        assert((0x3Fu32 << 26) & (0xFFFu32 << 14) == 0) by (bit_vector);
        law_with_field_commutes(y, 26, 0x3F, c, 14, 0xFFF, s);
        law_with_field_twice(e.eax, 14, 0xFFF, s, s);
        law_with_field_twice(y, 26, 0x3F, c, c);
    } else if e.function == 0xB && e.index <= 1 {
        let shift = if e.index == 0 { smt_shift(t) } else { core_shift(t) };
        let count = if e.index == 0 { t.threads_per_core } else { t.logical_cpus };
        let level: u32 = if e.index == 0 { 1 } else { 2 };
        law_with_field_twice(e.eax, 0, 0x1F, shift, shift);
        law_with_field_twice(e.ebx, 0, 0xFFFF, count, count);
        law_with_field_twice(e.ecx, 8, 0xFF, level, level);
    }
}

/// The generated topology entries carry the APIC id of the vCPU: in the top
/// byte of leaf 1 and in EDX of both topology levels.
pub proof fn law_topology_entries_carry_apic_id(f: CpuidFilter, apic_id: u32)
    ensures
        ({
            let s = f.topology_entries(apic_id);
            &&& field(s[0].ebx, 24, 0xFF) == apic_id & 0xFF
            &&& s[1].edx == apic_id
            &&& s[2].edx == apic_id
        }),
{
    assert((0xFFu32 << 24) >> 24 == 0xFFu32) by (bit_vector);
    law_with_field(
        with_field(with_field(0, 8, 0xFF, 8), 16, 0xFF, f.topology.logical_cpus),
        24,
        0xFF,
        apic_id,
    );
}

/// A filter answers for the leaf that it was asked for, and passes a leaf through
/// as it is unless it is one of those that it has something to say of.
pub proof fn law_filter_passes_other_leaves(f: CpuidFilter, e: CpuidEntry)
    ensures
        f.filtered(e) matches Some(r) ==> r.function == e.function && r.index == e.index,
        e.function != 0 && e.function != 1 && e.function != 4 && e.function != 0xB && !(0x4000_0000
            <= e.function <= 0x4000_00FF) ==> f.filtered(e) == Some(e),
        e.function == 0 && f.custom_vendor is None ==> f.filtered(e) == Some(e),
        e.function == 4 && e.eax % 32 == 0 ==> f.filtered(e) == Some(e),
        e.function == 1 ==> (f.filtered(e)->0).eax == e.eax && (f.filtered(e)->0).edx == e.edx,
        e.function == 4 ==> (f.filtered(e)->0).ebx == e.ebx && (f.filtered(e)->0).ecx == e.ecx && (
        f.filtered(e)->0).edx == e.edx,
        0x4000_0000 <= e.function <= 0x4000_00FF ==> (f.filtered(e) is None <==> f.hide_hypervisor),
        0x4000_0000 <= e.function <= 0x4000_00FF && !f.hide_hypervisor ==> f.filtered(e) == Some(e),
{
    let x = e.eax;
    assert((x >> 0) & 0x1F == x % 32) by (bit_vector);
}

/// Hiding the hypervisor clears bit 31 of ECX in leaf 1 and no other bit.
pub proof fn law_hiding_clears_one_bit(f: CpuidFilter, e: CpuidEntry)
    requires
        e.function == 1,
        f.hide_hypervisor,
    ensures
        (f.filtered(e)->0).ecx == e.ecx & 0x7FFF_FFFF,
{
    let x = e.ecx;
    crate::bits::law_clearing_bit_31(x);
}

/// The caches are told apart by their sub-leaf: the two first-level caches, the
/// second level, the third level, and any further one, which is shared by none.
/// Each reports one less than the number of cores that share it.
pub proof fn law_cache_leaf_by_level(f: CpuidFilter, e: CpuidEntry)
    requires
        e.function == 4,
        e.eax % 32 != 0,
    ensures
        ({
            let t = f.topology;
            let shared: int = if e.index <= 1 {
                t.l1_sharing as int
            } else if e.index == 2 {
                t.l2_sharing as int
            } else if e.index == 3 {
                t.l3_sharing as int
            } else {
                1
            };
            let r = (f.filtered(e)->0).eax;
            &&& shared > 0 ==> field(r, 14, 0xFFF) == ((shared - 1) as u32) & 0xFFF
            &&& shared == 0 ==> field(r, 14, 0xFFF) == 0
            &&& t.cores_per_package > 0 ==> field(r, 26, 0x3F) == ((t.cores_per_package - 1) as u32)
                & 0x3F
            &&& t.cores_per_package == 0 ==> field(r, 26, 0x3F) == 0
            &&& r & 0x3FFF == e.eax & 0x3FFF
        }),
{
    let x = e.eax;
    assert((x >> 0) & 0x1F == x % 32) by (bit_vector);
    law_cache_leaf_fields(f, e);
    assert(0u32 & 0xFFF == 0 && 0u32 & 0x3F == 0) by (bit_vector);
}

proof fn lemma_level_fields(e: CpuidEntry, shift: u32, count: u32, level: u32)
    ensures
        ({
            let r = with_level(e, shift, count, level);
            &&& field(r.eax, 0, 0x1F) == shift & 0x1F
            &&& r.eax & 0xFFFF_FFE0 == e.eax & 0xFFFF_FFE0
            &&& field(r.ebx, 0, 0xFFFF) == count & 0xFFFF
            &&& r.ebx & 0xFFFF_0000 == e.ebx & 0xFFFF_0000
            &&& field(r.ecx, 8, 0xFF) == level & 0xFF
            &&& r.ecx & 0xFFFF_00FF == e.ecx & 0xFFFF_00FF
            &&& r.edx == e.edx
        }),
{
    assert((0x1Fu32 << 0) >> 0 == 0x1Fu32 && (0xFFFFu32 << 0) >> 0 == 0xFFFFu32 && (0xFFu32 << 8)
        >> 8 == 0xFFu32 && !(0x1Fu32 << 0) == 0xFFFF_FFE0u32 && !(0xFFFFu32 << 0) == 0xFFFF_0000u32
        && !(0xFFu32 << 8) == 0xFFFF_00FFu32) by (bit_vector);
    law_with_field(e.eax, 0, 0x1F, shift);
    law_with_field(e.ebx, 0, 0xFFFF, count);
    law_with_field(e.ecx, 8, 0xFF, level);
}

/// `shift` bits are enough to number `n` CPUs from 0 to `n`, and no fewer are.
pub open spec fn numbers(shift: u32, n: u32) -> bool {
    &&& n < vstd::arithmetic::power2::pow2(shift as nat)
    &&& n > 0 ==> shift > 0 && vstd::arithmetic::power2::pow2((shift - 1) as nat) <= n
    &&& n == 0 ==> shift == 0
}

proof fn lemma_core_shift_numbers(t: GuestTopology)
    ensures
        numbers(core_shift(t), t.logical_cpus),
        core_shift(t) <= 32,
{
    crate::bits::law_bit_length(t.logical_cpus as nat);
    let b: nat = bit_length(t.logical_cpus as nat);
    vstd::arithmetic::power2::lemma2_to64();
    if b > 32 {
        if b > 33 {
            vstd::arithmetic::power2::lemma_pow2_strictly_increases(32, (b - 1) as nat);
        }
        assert(false);
    }
}

/// The extended topology leaf reports, at sub-leaf 0, the threads of a core and
/// whether a bit of the APIC id tells them apart, as level type 1; at sub-leaf 1
/// the logical CPUs of the guest and how many bits of the APIC id number them, as
/// level type 2; and from sub-leaf 2 on no level. EDX stays the host's.
pub proof fn law_topology_leaf_levels(f: CpuidFilter, e: CpuidEntry)
    requires
        e.function == 0xB,
    ensures
        ({
            let t = f.topology;
            let r = f.filtered(e)->0;
            &&& f.filtered(e) is Some
            &&& r.edx == e.edx
            &&& e.index == 0 ==> {
                &&& t.threads_per_core > 1 ==> field(r.eax, 0, 0x1F) == 1
                &&& t.threads_per_core <= 1 ==> field(r.eax, 0, 0x1F) == 0
                &&& field(r.ebx, 0, 0xFFFF) == t.threads_per_core & 0xFFFF
                &&& field(r.ecx, 8, 0xFF) == 1
            }
            &&& e.index == 1 ==> {
                &&& t.logical_cpus < 0x8000_0000 ==> numbers(field(r.eax, 0, 0x1F), t.logical_cpus)
                &&& field(r.ebx, 0, 0xFFFF) == t.logical_cpus & 0xFFFF
                &&& field(r.ecx, 8, 0xFF) == 2
            }
            &&& e.index <= 1 ==> {
                &&& r.eax & 0xFFFF_FFE0 == e.eax & 0xFFFF_FFE0
                &&& r.ebx & 0xFFFF_0000 == e.ebx & 0xFFFF_0000
                &&& r.ecx & 0xFFFF_00FF == e.ecx & 0xFFFF_00FF
            }
            &&& e.index >= 2 ==> r.eax == 0 && r.ebx == 0 && r.ecx == e.index
        }),
{
    let t = f.topology;
    lemma_level_fields(e, smt_shift(t), t.threads_per_core, 1);
    lemma_level_fields(e, core_shift(t), t.logical_cpus, 2);
    lemma_core_shift_numbers(t);
    assert(1u32 & 0x1F == 1 && 0u32 & 0x1F == 0 && 1u32 & 0xFF == 1 && 2u32 & 0xFF == 2)
        by (bit_vector);
    let s = core_shift(t);
    if t.logical_cpus < 0x8000_0000 {
        vstd::arithmetic::power2::lemma2_to64();
        assert(s < 32);
        assert(s & 0x1F == s) by (bit_vector)
            requires
                s < 32,
        ;
    }
}

/// A simple guest has as many logical CPUs as cores, one thread on each and one
/// package, and only the third-level cache is shared, by all of them.
pub proof fn law_simple_topology(core_count: u32)
    ensures
        ({
            let t = simple_topology(core_count);
            &&& t.logical_cpus == core_count
            &&& t.threads_per_core == 1
            &&& t.packages == 1
            &&& t.packages * t.cores_per_package * t.threads_per_core == t.logical_cpus
            &&& t.l1_sharing == 1 && t.l2_sharing == 1
            &&& t.l3_sharing == core_count
        }),
{
}

/// The topology entries of a vCPU are leaf 1 and the two levels of leaf 0xB: with
/// a CLFLUSH line of 8 words, the guest's CPU count, its threads per core and the
/// bits of the APIC id that number each, the level types 1 and 2, and the vCPU's
/// own APIC id.
pub proof fn law_topology_entries_describe_the_guest(f: CpuidFilter, apic_id: u32)
    ensures
        ({
            let t = f.topology;
            let s = f.topology_entries(apic_id);
            &&& s.len() == 3
            &&& s[0].function == 1 && s[0].index == 0
            &&& s[0].eax == 0 && s[0].ecx == 0 && s[0].edx == 0
            &&& field(s[0].ebx, 0, 0xFF) == 0
            &&& field(s[0].ebx, 8, 0xFF) == 8
            &&& field(s[0].ebx, 16, 0xFF) == t.logical_cpus & 0xFF
            &&& field(s[0].ebx, 24, 0xFF) == apic_id & 0xFF
            &&& s[1].function == 0xB && s[1].index == 0
            &&& t.threads_per_core > 1 ==> s[1].eax == 1
            &&& t.threads_per_core <= 1 ==> s[1].eax == 0
            &&& s[1].ebx == t.threads_per_core
            &&& s[1].ecx == 0x100
            &&& s[1].edx == apic_id
            &&& s[2].function == 0xB && s[2].index == 1
            &&& numbers(s[2].eax, t.logical_cpus)
            &&& s[2].ebx == t.logical_cpus
            &&& s[2].ecx == 0x201
            &&& s[2].edx == apic_id
        }),
{
    let n = f.topology.logical_cpus;
    lemma_core_shift_numbers(f.topology);
    let a = with_field(0, 8, 0xFF, 8);
    let b = with_field(a, 16, 0xFF, n);
    let c = with_field(b, 24, 0xFF, apic_id);
    assert({
        let a = (0u32 & !(0xFFu32 << 8)) | ((8u32 & 0xFF) << 8);
        let b = (a & !(0xFFu32 << 16)) | ((n & 0xFF) << 16);
        let c = (b & !(0xFFu32 << 24)) | ((apic_id & 0xFF) << 24);
        &&& (c >> 0) & 0xFF == 0
        &&& (c >> 8) & 0xFF == 8
        &&& (c >> 16) & 0xFF == n & 0xFF
        &&& (c >> 24) & 0xFF == apic_id & 0xFF
    }) by (bit_vector);
}

} // verus!
