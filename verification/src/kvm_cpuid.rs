//! The CPUID table that KVM exchanges with the hypervisor, and the edits that
//! make a guest see its own processor in it.
use crate::bits::{field, set_field, with_field};
use crate::error::{Error, Result};
use crate::kvm_backend::KvmBackend;
use kvm_bindings::{kvm_cpuid_entry2, CpuId};
use vstd::prelude::*;

verus! {

/// KVM accepts at most this many CPUID entries.
pub const MAX_CPUID_ENTRIES: usize = 80;

/// The flag of an entry whose sub-leaf index is significant.
pub const FLAG_SIGNIFICANT_INDEX: u32 = 1;

/// One entry of KVM's CPUID table.
#[derive(Debug, Clone, Copy, PartialEq, Eq)]
pub struct KvmCpuidEntry {
    pub function: u32,
    pub index: u32,
    pub flags: u32,
    pub eax: u32,
    pub ebx: u32,
    pub ecx: u32,
    pub edx: u32,
    pub padding: [u32; 3],
}

/// An all-zero entry.
pub open spec fn zero_entry() -> KvmCpuidEntry {
    KvmCpuidEntry {
        function: 0,
        index: 0,
        flags: 0,
        eax: 0,
        ebx: 0,
        ecx: 0,
        edx: 0,
        padding: [0u32, 0u32, 0u32],
    }
}

impl Default for KvmCpuidEntry {
    fn default() -> (r: Self)
        ensures
            r == zero_entry(),
    {
        KvmCpuidEntry {
            function: 0,
            index: 0,
            flags: 0,
            eax: 0,
            ebx: 0,
            ecx: 0,
            edx: 0,
            padding: [0u32, 0u32, 0u32],
        }
    }
}

// ---------------------------------------------------------------------------
// The collection that is handed to KVM
// ---------------------------------------------------------------------------

/// Why a collection could not be built.
#[derive(Debug, Clone, Copy, PartialEq, Eq, Structural)]
pub enum CollectionError {
    /// More entries than KVM accepts.
    SizeLimitExceeded,
}

/// `kvm_bindings::CpuId`, the length-prefixed array that the CPUID calls of KVM
/// take.
#[verifier::external_body]
pub struct CpuidSet {
    inner: CpuId,
}

/// The entries that a [`CpuidSet`] holds, in order.
pub uninterp spec fn cpuid_set_entries(s: CpuidSet) -> Seq<KvmCpuidEntry>;

impl CpuidSet {
    /// `kvm_bindings::CpuId::from_entries`: a collection of exactly the given
    /// entries in their order. It is refused, as too large, if and only if
    /// there are more than [`MAX_CPUID_ENTRIES`].
    #[verifier::external_body]
    pub(crate) fn from_entries(entries: &[KvmCpuidEntry]) -> (r: std::result::Result<
        CpuidSet,
        CollectionError,
    >)
        ensures
            r is Ok <==> entries@.len() <= MAX_CPUID_ENTRIES,
            r matches Ok(s) ==> cpuid_set_entries(s) == entries@,
            r matches Err(e) ==> e == CollectionError::SizeLimitExceeded,
    {
        let raw: Vec<kvm_cpuid_entry2> = entries.iter().map(
            |e| kvm_cpuid_entry2 {
                function: e.function, index: e.index, flags: e.flags,
                eax: e.eax, ebx: e.ebx, ecx: e.ecx, edx: e.edx, padding: e.padding,
            },
        ).collect();
        match CpuId::from_entries(&raw) {
            Ok(inner) => Ok(CpuidSet { inner }),
            Err(vmm_sys_util::fam::Error::SizeLimitExceeded) => Err(
                CollectionError::SizeLimitExceeded,
            ),
        }
    }

    /// `kvm_bindings::CpuId::as_slice`: the entries of the collection, in
    /// order.
    #[verifier::external_body]
    pub(crate) fn to_entries(&self) -> (r: Vec<KvmCpuidEntry>)
        ensures
            r@ == cpuid_set_entries(*self),
    {
        self.inner.as_slice().iter().map(
            |e| KvmCpuidEntry {
                function: e.function, index: e.index, flags: e.flags,
                eax: e.eax, ebx: e.ebx, ecx: e.ecx, edx: e.edx, padding: e.padding,
            },
        ).collect()
    }

    /// The entries of the collection, in order.
    pub fn entries(&self) -> (r: Vec<KvmCpuidEntry>)
        ensures
            r@ == cpuid_set_entries(*self),
    {
        self.to_entries()
    }
}

// ---------------------------------------------------------------------------
// What the guest is to see
// ---------------------------------------------------------------------------

/// The four registers that CPUID returns.
#[derive(Debug, Clone, Copy, PartialEq, Eq, Structural)]
pub struct CpuidRegs {
    pub eax: u32,
    pub ebx: u32,
    pub ecx: u32,
    pub edx: u32,
}

/// One leaf of a [`CpuidStealthTable`].
#[derive(Debug, Clone, Copy, PartialEq, Eq, Structural)]
pub struct StealthLeaf {
    pub function: u32,
    pub index: u32,
    pub regs: CpuidRegs,
}

/// The processor that a guest is to see: registers by leaf and sub-leaf.
#[derive(Debug, Clone)]
pub struct CpuidStealthTable {
    pub leaves: Vec<StealthLeaf>,
}

/// The registers of the first leaf in `leaves`, from `i` on, with that
/// function and index; all zero where there is none.
pub open spec fn regs_from(leaves: Seq<StealthLeaf>, function: u32, index: u32, i: int) -> CpuidRegs
    decreases leaves.len() - i,
{
    if i < 0 || i >= leaves.len() {
        CpuidRegs { eax: 0, ebx: 0, ecx: 0, edx: 0 }
    } else if leaves[i].function == function && leaves[i].index == index {
        leaves[i].regs
    } else {
        regs_from(leaves, function, index, i + 1)
    }
}

impl CpuidStealthTable {
    /// The registers of a leaf; all zero where the table lacks it.
    pub open spec fn regs(self, function: u32, index: u32) -> CpuidRegs {
        regs_from(self.leaves@, function, index, 0)
    }

    /// Looks up the registers of a leaf. A leaf outside the table reads zero.
    #[must_use]
    pub fn lookup(&self, function: u32, index: u32) -> (r: CpuidRegs)
        ensures
            r == self.regs(function, index),
    {
        let mut i: usize = 0;
        while i < self.leaves.len()
            invariant
                i <= self.leaves.len(),
                self.regs(function, index) == regs_from(self.leaves@, function, index, i as int),
            decreases self.leaves.len() - i,
        {
            let leaf: StealthLeaf = self.leaves[i];
            if leaf.function == function && leaf.index == index {
                return leaf.regs;
            }
            i = i + 1;
        }
        CpuidRegs { eax: 0, ebx: 0, ecx: 0, edx: 0 }
    }
}

/// A leaf reads as it first stands in the table, and as zero where it does not
/// stand in it.
pub proof fn law_table_lookup(table: CpuidStealthTable, function: u32, index: u32)
    ensures
        forall|i: int|
            0 <= i < table.leaves@.len() && (#[trigger] table.leaves@[i]).function == function
                && table.leaves@[i].index == index && (forall|j: int|
                0 <= j < i ==> !((#[trigger] table.leaves@[j]).function == function
                    && table.leaves@[j].index == index)) ==> table.regs(function, index)
                == table.leaves@[i].regs,
        (forall|i: int|
            0 <= i < table.leaves@.len() ==> !((#[trigger] table.leaves@[i]).function == function
                && table.leaves@[i].index == index)) ==> table.regs(function, index) == (CpuidRegs {
            eax: 0,
            ebx: 0,
            ecx: 0,
            edx: 0,
        }),
{
    lemma_regs_from(table.leaves@, function, index, 0);
}

proof fn lemma_regs_from(leaves: Seq<StealthLeaf>, function: u32, index: u32, from: int)
    requires
        0 <= from <= leaves.len(),
    ensures
        forall|i: int|
            from <= i < leaves.len() && (#[trigger] leaves[i]).function == function
                && leaves[i].index == index && (forall|j: int|
                from <= j < i ==> !((#[trigger] leaves[j]).function == function && leaves[j].index
                    == index)) ==> regs_from(leaves, function, index, from) == leaves[i].regs,
        (forall|i: int|
            from <= i < leaves.len() ==> !((#[trigger] leaves[i]).function == function
                && leaves[i].index == index)) ==> regs_from(leaves, function, index, from) == (
        CpuidRegs { eax: 0, ebx: 0, ecx: 0, edx: 0 }),
    decreases leaves.len() - from,
{
    if from < leaves.len() {
        lemma_regs_from(leaves, function, index, from + 1);
    }
}

// ---------------------------------------------------------------------------
// Finding an entry
// ---------------------------------------------------------------------------

/// Which entry to look for: a function, and where given a sub-leaf index and
/// the low byte of EAX (a cache's type and level).
#[derive(Clone, Copy)]
pub struct LeafQuery {
    pub function: u32,
    pub index: Option<u32>,
    pub cache: Option<u32>,
}

impl LeafQuery {
    /// `e` is an entry that is looked for.
    pub open spec fn accepts(self, e: KvmCpuidEntry) -> bool {
        &&& e.function == self.function
        &&& self.index matches Some(i) ==> e.index == i
        &&& self.cache matches Some(c) ==> field(e.eax, 0, 0xFF) == c
    }

    fn test(&self, e: &KvmCpuidEntry) -> (r: bool)
        ensures
            r == self.accepts(*e),
    {
        let index_ok: bool = match self.index {
            Some(i) => e.index == i,
            None => true,
        };
        let cache_ok: bool = match self.cache {
            Some(c) => (e.eax >> 0) & 0xFF == c,
            None => true,
        };
        e.function == self.function && index_ok && cache_ok
    }
}

/// The query for a function, whatever its sub-leaf.
pub open spec fn leaf(function: u32) -> LeafQuery {
    LeafQuery { function, index: None, cache: None }
}

/// The query for one sub-leaf.
pub open spec fn subleaf(function: u32, index: u32) -> LeafQuery {
    LeafQuery { function, index: Some(index), cache: None }
}

/// The query for one sub-leaf that describes a cache of the given type and level.
pub open spec fn cache_leaf(function: u32, index: u32, cache: u32) -> LeafQuery {
    LeafQuery { function, index: Some(index), cache: Some(cache) }
}

/// The first position from `i` on with an entry that is looked for; the
/// length where there is none.
pub open spec fn find_from(s: Seq<KvmCpuidEntry>, q: LeafQuery, i: int) -> int
    decreases s.len() - i,
{
    if i < 0 || i >= s.len() {
        s.len() as int
    } else if q.accepts(s[i]) {
        i
    } else {
        find_from(s, q, i + 1)
    }
}

/// The first position of an entry that is looked for; the length where there
/// is none.
pub open spec fn find(s: Seq<KvmCpuidEntry>, q: LeafQuery) -> int {
    find_from(s, q, 0)
}

/// What it means to be the first position.
proof fn lemma_find_from(s: Seq<KvmCpuidEntry>, q: LeafQuery, i: int)
    requires
        0 <= i <= s.len(),
    ensures
        i <= find_from(s, q, i) <= s.len(),
        find_from(s, q, i) < s.len() ==> q.accepts(s[find_from(s, q, i)]),
        forall|j: int| i <= j < find_from(s, q, i) ==> !q.accepts(#[trigger] s[j]),
    decreases s.len() - i,
{
    if i < s.len() && !q.accepts(s[i]) {
        lemma_find_from(s, q, i + 1);
    }
}

/// An entry that is looked for is found, and it is the first one.
pub proof fn law_find(s: Seq<KvmCpuidEntry>, q: LeafQuery)
    ensures
        0 <= find(s, q) <= s.len(),
        find(s, q) < s.len() ==> q.accepts(s[find(s, q)]),
        forall|j: int| 0 <= j < find(s, q) ==> !q.accepts(#[trigger] s[j]),
{
    lemma_find_from(s, q, 0);
}

/// Searches for the first entry that is looked for.
fn find_leaf(s: &Vec<KvmCpuidEntry>, q: LeafQuery) -> (r: usize)
    ensures
        r == find(s@, q),
        r <= s.len(),
{
    let mut i: usize = 0;
    while i < s.len()
        invariant
            i <= s.len(),
            find(s@, q) == find_from(s@, q, i as int),
        decreases s.len() - i,
    {
        if q.test(&s[i]) {
            return i;
        }
        i = i + 1;
    }
    i
}

// ---------------------------------------------------------------------------
// Single edits
// ---------------------------------------------------------------------------

/// `e` with the four registers replaced and the sub-leaf index zero.
pub open spec fn with_regs(e: KvmCpuidEntry, r: CpuidRegs) -> KvmCpuidEntry {
    KvmCpuidEntry { index: 0, eax: r.eax, ebx: r.ebx, ecx: r.ecx, edx: r.edx, ..e }
}

/// A new entry without sub-leaves.
pub open spec fn new_entry(function: u32, r: CpuidRegs) -> KvmCpuidEntry {
    with_regs(KvmCpuidEntry { function, ..zero_entry() }, r)
}

/// `s` with the registers of `function` set: in its first entry, or in a new
/// entry at the end.
pub open spec fn upserted(s: Seq<KvmCpuidEntry>, function: u32, r: CpuidRegs) -> Seq<KvmCpuidEntry> {
    let i = find(s, leaf(function));
    if i < s.len() {
        s.update(i, with_regs(s[i], r))
    } else {
        s.push(new_entry(function, r))
    }
}

fn upsert(entries: &mut Vec<KvmCpuidEntry>, function: u32, r: CpuidRegs)
    ensures
        final(entries)@ == upserted(old(entries)@, function, r),
{
    let i: usize = find_leaf(entries, LeafQuery { function, index: None, cache: None });
    if i < entries.len() {
        let e: KvmCpuidEntry = entries[i];
        entries[i] = KvmCpuidEntry { index: 0, eax: r.eax, ebx: r.ebx, ecx: r.ecx, edx: r.edx, ..e };
    } else {
        entries.push(
            KvmCpuidEntry {
                function,
                index: 0,
                flags: 0,
                eax: r.eax,
                ebx: r.ebx,
                ecx: r.ecx,
                edx: r.edx,
                padding: [0u32, 0u32, 0u32],
            },
        );
    }
}

/// `e` without the hypervisor-present bit, if it is the feature leaf.
pub open spec fn without_hypervisor_bit(e: KvmCpuidEntry) -> KvmCpuidEntry {
    if e.function == 1 {
        KvmCpuidEntry { ecx: with_field(e.ecx, 31, 1, 0), ..e }
    } else {
        e
    }
}

/// Clears the hypervisor-present bit (leaf 1, ECX bit 31) in every feature
/// leaf. No bare-metal processor sets it.
pub fn clear_hypervisor_bit(entries: &mut Vec<KvmCpuidEntry>)
    ensures
        final(entries)@ == old(entries)@.map_values(
            |e: KvmCpuidEntry| without_hypervisor_bit(e),
        ),
{
    let ghost before = entries@;
    let mut i: usize = 0;
    while i < entries.len()
        invariant
            i <= entries.len(),
            entries@.len() == before.len(),
            forall|j: int|
                0 <= j < before.len() ==> #[trigger] entries@[j] == (if j < i {
                    without_hypervisor_bit(before[j])
                } else {
                    before[j]
                }),
        decreases entries.len() - i,
    {
        let e: KvmCpuidEntry = entries[i];
        if e.function == 1 {
            entries[i] = KvmCpuidEntry { ecx: set_field(e.ecx, 31, 1, 0), ..e };
        }
        i = i + 1;
    }
    assert(entries@ =~= before.map_values(|e: KvmCpuidEntry| without_hypervisor_bit(e)));
}

/// `e` with the package width of the feature leaf taken from `ebx`.
pub open spec fn with_package_width(e: KvmCpuidEntry, ebx: u32) -> KvmCpuidEntry {
    if e.function == 1 {
        KvmCpuidEntry { ebx: with_field(e.ebx, 16, 0xFF, field(ebx, 16, 0xFF)), ..e }
    } else {
        e
    }
}

/// Aligns the package width (leaf 1, EBX bits 23:16) with that of `ebx`.
fn set_package_width(entries: &mut Vec<KvmCpuidEntry>, ebx: u32)
    ensures
        final(entries)@ == old(entries)@.map_values(
            |e: KvmCpuidEntry| with_package_width(e, ebx),
        ),
{
    let ghost before = entries@;
    let mut i: usize = 0;
    while i < entries.len()
        invariant
            i <= entries.len(),
            entries@.len() == before.len(),
            forall|j: int|
                0 <= j < before.len() ==> #[trigger] entries@[j] == (if j < i {
                    with_package_width(before[j], ebx)
                } else {
                    before[j]
                }),
        decreases entries.len() - i,
    {
        let e: KvmCpuidEntry = entries[i];
        if e.function == 1 {
            let width: u32 = (ebx >> 16) & 0xFF;
            entries[i] = KvmCpuidEntry { ebx: set_field(e.ebx, 16, 0xFF, width), ..e };
        }
        i = i + 1;
    }
    assert(entries@ =~= before.map_values(|e: KvmCpuidEntry| with_package_width(e, ebx)));
}

/// The entry for one level of the extended topology leaf.
pub open spec fn with_topology(e: KvmCpuidEntry, r: CpuidRegs) -> KvmCpuidEntry {
    KvmCpuidEntry {
        eax: r.eax,
        ebx: r.ebx,
        ecx: r.ecx,
        flags: e.flags | FLAG_SIGNIFICANT_INDEX,
        ..e
    }
}

/// `s` with the first `n` levels of the extended topology leaf taken from the
/// table, each in its entry or in a new one at the end. EDX is left alone: it
/// holds the APIC id of a vCPU.
pub open spec fn with_levels(s: Seq<KvmCpuidEntry>, table: CpuidStealthTable, n: nat) -> Seq<
    KvmCpuidEntry,
>
    decreases n,
{
    if n == 0 {
        s
    } else {
        let t = with_levels(s, table, (n - 1) as nat);
        let sub = (n - 1) as u32;
        let r = table.regs(0xB, sub);
        let i = find(t, subleaf(0xB, sub));
        if i < t.len() {
            t.update(i, with_topology(t[i], r))
        } else {
            t.push(
                KvmCpuidEntry {
                    function: 0xB,
                    index: sub,
                    flags: FLAG_SIGNIFICANT_INDEX,
                    eax: r.eax,
                    ebx: r.ebx,
                    ecx: r.ecx,
                    ..zero_entry()
                },
            )
        }
    }
}

/// Sets the three levels of the extended topology leaf from the table.
fn set_levels(entries: &mut Vec<KvmCpuidEntry>, table: &CpuidStealthTable)
    ensures
        final(entries)@ == with_levels(old(entries)@, *table, 3),
{
    let ghost before = entries@;
    let mut sub: u32 = 0;
    while sub < 3
        invariant
            sub <= 3,
            entries@ == with_levels(before, *table, sub as nat),
        decreases 3 - sub,
    {
        let r: CpuidRegs = table.lookup(0xB, sub);
        let i: usize = find_leaf(
            entries,
            LeafQuery { function: 0xB, index: Some(sub), cache: None },
        );
        if i < entries.len() {
            let e: KvmCpuidEntry = entries[i];
            entries[i] =
            KvmCpuidEntry {
                eax: r.eax,
                ebx: r.ebx,
                ecx: r.ecx,
                flags: e.flags | FLAG_SIGNIFICANT_INDEX,
                ..e
            };
        } else {
            entries.push(
                KvmCpuidEntry {
                    function: 0xB,
                    index: sub,
                    flags: FLAG_SIGNIFICANT_INDEX,
                    eax: r.eax,
                    ebx: r.ebx,
                    ecx: r.ecx,
                    edx: 0,
                    padding: [0u32, 0u32, 0u32],
                },
            );
        }
        sub = sub + 1;
    }
}

/// `s` with ECX of leaf 0x8000_0008 (core count and APIC id width) replaced.
pub open spec fn with_core_count(s: Seq<KvmCpuidEntry>, ecx: u32) -> Seq<KvmCpuidEntry> {
    let i = find(s, leaf(0x8000_0008));
    if i < s.len() {
        s.update(i, KvmCpuidEntry { ecx, ..s[i] })
    } else {
        s
    }
}

/// `s` with the sharing counts of leaf 0x8000_001D taken from the table, for
/// the caches from sub-leaf `sub` on. The table's list ends at a null cache
/// type; a cache of `s` counts where its type and level agree.
pub open spec fn with_cache_sharing(
    s: Seq<KvmCpuidEntry>,
    table: CpuidStealthTable,
    sub: u32,
) -> Seq<KvmCpuidEntry>
    decreases 16 - sub,
{
    let t = table.regs(0x8000_001D, sub).eax;
    if sub >= 16 || field(t, 0, 0x1F) == 0 {
        s
    } else {
        let i = find(s, cache_leaf(0x8000_001D, sub, field(t, 0, 0xFF)));
        let patched = if i < s.len() {
            s.update(
                i,
                KvmCpuidEntry {
                    eax: with_field(s[i].eax, 14, 0xFFF, field(t, 14, 0xFFF)),
                    ..s[i]
                },
            )
        } else {
            s
        };
        with_cache_sharing(patched, table, (sub + 1) as u32)
    }
}

fn set_cache_sharing(entries: &mut Vec<KvmCpuidEntry>, table: &CpuidStealthTable)
    ensures
        final(entries)@ == with_cache_sharing(old(entries)@, *table, 0),
{
    let ghost before = entries@;
    let mut sub: u32 = 0;
    while sub < 16
        invariant
            sub <= 16,
            before == old(entries)@,
            with_cache_sharing(before, *table, 0) == with_cache_sharing(entries@, *table, sub),
        decreases 16 - sub,
    {
        let t: u32 = table.lookup(0x8000_001D, sub).eax;
        if (t >> 0) & 0x1F == 0 {
            return;
        }
        let i: usize = find_leaf(
            entries,
            LeafQuery { function: 0x8000_001D, index: Some(sub), cache: Some((t >> 0) & 0xFF) },
        );
        if i < entries.len() {
            let e: KvmCpuidEntry = entries[i];
            entries[i] =
            KvmCpuidEntry { eax: set_field(e.eax, 14, 0xFFF, (t >> 14) & 0xFFF), ..e };
        }
        sub = sub + 1;
    }
}

/// `s` with the thread count of leaf 0x8000_001E (EBX bits 15:8) taken from `ebx`.
pub open spec fn with_smt_width(s: Seq<KvmCpuidEntry>, ebx: u32) -> Seq<KvmCpuidEntry> {
    let i = find(s, leaf(0x8000_001E));
    if i < s.len() {
        s.update(
            i,
            KvmCpuidEntry { ebx: with_field(s[i].ebx, 8, 0xFF, field(ebx, 8, 0xFF)), ..s[i] },
        )
    } else {
        s
    }
}

// ---------------------------------------------------------------------------
// Leaves taken over from the table
// ---------------------------------------------------------------------------

/// Kilohertz as megahertz, to the nearest.
pub open spec fn mhz(khz: u32) -> u32 {
    ((khz + 500) / 1000) as u32
}

/// The rate that the frequency leaves are pinned to: the measured one, unless
/// it is missing or rounds to zero.
pub open spec fn pinned_mhz(measured_tsc_khz: Option<u32>) -> Option<u32> {
    match measured_tsc_khz {
        Some(khz) => if mhz(khz) != 0 {
            Some(mhz(khz))
        } else {
            None
        },
        None => None,
    }
}

/// Leaf 0x15 for a rate: the table's crystal with the ratio set to the rate.
pub open spec fn tsc_leaf(r: CpuidRegs, rate: Option<u32>) -> CpuidRegs {
    match rate {
        Some(m) => CpuidRegs { ebx: m, ..r },
        None => r,
    }
}

/// Leaf 0x16 for a rate: it is the base frequency, and the maximum is not below it.
pub open spec fn frequency_leaf(r: CpuidRegs, rate: Option<u32>) -> CpuidRegs {
    match rate {
        Some(m) => CpuidRegs {
            eax: m,
            ebx: if r.ebx < m {
                m
            } else {
                r.ebx
            },
            ..r
        },
        None => r,
    }
}

/// `s` with a maximum basic leaf of at least `least` in leaf 0.
pub open spec fn with_max_leaf(s: Seq<KvmCpuidEntry>, least: u32) -> Seq<KvmCpuidEntry> {
    let i = find(s, leaf(0));
    if i < s.len() && s[i].eax < least {
        s.update(i, KvmCpuidEntry { eax: least, ..s[i] })
    } else {
        s
    }
}

/// `s` with the frequency leaves of the table, pinned to the measured rate,
/// and reachable from leaf 0. A table without leaf 0x16 changes nothing.
pub open spec fn with_frequency_leaves(
    s: Seq<KvmCpuidEntry>,
    table: CpuidStealthTable,
    measured_tsc_khz: Option<u32>,
) -> Seq<KvmCpuidEntry> {
    let rate = pinned_mhz(measured_tsc_khz);
    if table.regs(0x16, 0).eax == 0 {
        s
    } else {
        let a = upserted(s, 0x15, tsc_leaf(table.regs(0x15, 0), rate));
        let b = upserted(a, 0x16, frequency_leaf(table.regs(0x16, 0), rate));
        with_max_leaf(b, 0x16)
    }
}

/// `s` with the vendor string of the table in leaf 0; EAX there, the maximum
/// basic leaf, stays.
pub open spec fn with_vendor_regs(s: Seq<KvmCpuidEntry>, r: CpuidRegs) -> Seq<KvmCpuidEntry> {
    let i = find(s, leaf(0));
    if i < s.len() {
        s.update(i, KvmCpuidEntry { ebx: r.ebx, ecx: r.ecx, edx: r.edx, ..s[i] })
    } else {
        s
    }
}

/// `s` with family, model and stepping in EAX of leaf 1.
pub open spec fn with_signature(s: Seq<KvmCpuidEntry>, eax: u32) -> Seq<KvmCpuidEntry> {
    let i = find(s, leaf(1));
    if i < s.len() {
        s.update(i, KvmCpuidEntry { eax, ..s[i] })
    } else {
        s
    }
}

/// `s` with the identity of the table: vendor string, signature and the three
/// brand string leaves.
pub open spec fn with_identity_leaves(s: Seq<KvmCpuidEntry>, table: CpuidStealthTable) -> Seq<
    KvmCpuidEntry,
> {
    let a = with_vendor_regs(s, table.regs(0, 0));
    let b = with_signature(a, table.regs(1, 0).eax);
    let c = upserted(b, 0x8000_0002, table.regs(0x8000_0002, 0));
    let d = upserted(c, 0x8000_0003, table.regs(0x8000_0003, 0));
    upserted(d, 0x8000_0004, table.regs(0x8000_0004, 0))
}

/// The entries that all vCPUs share: the supported ones with the guest's
/// topology, performance counters, frequency and identity.
pub open spec fn topology_template(
    supported: Seq<KvmCpuidEntry>,
    table: CpuidStealthTable,
    tsc_khz: Option<u32>,
) -> Seq<KvmCpuidEntry> {
    let a = supported.map_values(|e: KvmCpuidEntry| without_hypervisor_bit(e));
    let b = a.map_values(|e: KvmCpuidEntry| with_package_width(e, table.regs(1, 0).ebx));
    let c = with_levels(b, table, 3);
    let d = with_core_count(c, table.regs(0x8000_0008, 0).ecx);
    let e = with_cache_sharing(d, table, 0);
    let f = with_smt_width(e, table.regs(0x8000_001E, 0).ebx);
    let g = upserted(f, 0xA, table.regs(0xA, 0));
    let h = with_frequency_leaves(g, table, tsc_khz);
    with_identity_leaves(h, table)
}

/// `e` with the identity of the vCPU that has the given APIC id.
pub open spec fn stamped(e: KvmCpuidEntry, apic_id: u32, smt_shift: u32) -> KvmCpuidEntry {
    if e.function == 1 {
        KvmCpuidEntry { ebx: with_field(e.ebx, 24, 0xFF, apic_id), ..e }
    } else if e.function == 0xB || e.function == 0x1F {
        KvmCpuidEntry { edx: apic_id, ..e }
    } else if e.function == 0x8000_001E {
        KvmCpuidEntry {
            eax: apic_id,
            ebx: with_field(e.ebx, 0, 0xFF, apic_id >> smt_shift),
            ..e
        }
    } else {
        e
    }
}

/// The entries of the vCPU with the given APIC id.
pub open spec fn stamped_all(s: Seq<KvmCpuidEntry>, apic_id: u32, smt_shift: u32) -> Seq<
    KvmCpuidEntry,
> {
    s.map_values(|e: KvmCpuidEntry| stamped(e, apic_id, smt_shift))
}

/// The entries for a guest whose performance counters alone are taken from
/// the table.
pub open spec fn pmu_template(supported: Seq<KvmCpuidEntry>, table: CpuidStealthTable) -> Seq<
    KvmCpuidEntry,
> {
    upserted(
        supported.map_values(|e: KvmCpuidEntry| without_hypervisor_bit(e)),
        0xA,
        table.regs(0xA, 0),
    )
}

/// The message for a table that KVM does not accept.
pub open spec fn rebuild_text() -> Seq<char> {
    "rebuild CpuId: SizeLimitExceeded"@
}

/// Puts the entries into the form that KVM takes.
fn rebuild(entries: &[KvmCpuidEntry]) -> (r: Result<CpuidSet>)
    ensures
        r is Ok <==> entries@.len() <= MAX_CPUID_ENTRIES,
        r matches Ok(s) ==> cpuid_set_entries(s) == entries@,
        r matches Err(e) ==> e matches Error::Vcpu(m) && m@ == rebuild_text(),
{
    match CpuidSet::from_entries(entries) {
        Ok(s) => Ok(s),
        Err(CollectionError::SizeLimitExceeded) => Err(
            Error::Vcpu("rebuild CpuId: SizeLimitExceeded".to_owned()),
        ),
    }
}

impl KvmBackend {
    /// Overwrites or inserts leaf 0xA, the performance counters, from the table.
    pub fn upsert_pmu_leaf(entries: &mut Vec<KvmCpuidEntry>, table: &CpuidStealthTable)
        ensures
            final(entries)@ == upserted(old(entries)@, 0xA, table.regs(0xA, 0)),
    {
        let r: CpuidRegs = table.lookup(0xA, 0);
        upsert(entries, 0xA, r);
    }

    /// Overwrites or inserts the frequency leaves 0x15 and 0x16 from the table,
    /// pinned to the measured rate of the guest's time-stamp counter, and raises
    /// the maximum basic leaf so that the guest finds them.
    pub fn upsert_frequency_leaves(
        entries: &mut Vec<KvmCpuidEntry>,
        table: &CpuidStealthTable,
        measured_tsc_khz: Option<u32>,
    )
        requires
            measured_tsc_khz matches Some(khz) ==> table.regs(0x16, 0).eax != 0 ==> khz + 500
                <= u32::MAX,
        ensures
            final(entries)@ == with_frequency_leaves(old(entries)@, *table, measured_tsc_khz),
    {
        let mut r15: CpuidRegs = table.lookup(0x15, 0);
        let mut r16: CpuidRegs = table.lookup(0x16, 0);
        if r16.eax == 0 {
            return;
        }
        match measured_tsc_khz {
            Some(khz) => {
                let base_mhz: u32 = (khz + 500) / 1000;
                if base_mhz != 0 {
                    r15.ebx = base_mhz;
                    r16.eax = base_mhz;
                    if r16.ebx < base_mhz {
                        r16.ebx = base_mhz;
                    }
                }
            },
            None => {},
        }
        upsert(entries, 0x15, r15);
        upsert(entries, 0x16, r16);
        let i: usize = find_leaf(entries, LeafQuery { function: 0, index: None, cache: None });
        if i < entries.len() {
            let e: KvmCpuidEntry = entries[i];
            if e.eax < 0x16 {
                entries[i] = KvmCpuidEntry { eax: 0x16, ..e };
            }
        }
    }

    /// Installs the identity of the table: the vendor string, the signature and
    /// the brand string.
    pub fn upsert_identity_leaves(entries: &mut Vec<KvmCpuidEntry>, table: &CpuidStealthTable)
        ensures
            final(entries)@ == with_identity_leaves(old(entries)@, *table),
    {
        let l0: CpuidRegs = table.lookup(0, 0);
        let i: usize = find_leaf(entries, LeafQuery { function: 0, index: None, cache: None });
        if i < entries.len() {
            let e: KvmCpuidEntry = entries[i];
            entries[i] = KvmCpuidEntry { ebx: l0.ebx, ecx: l0.ecx, edx: l0.edx, ..e };
        }
        let l1: CpuidRegs = table.lookup(1, 0);
        let j: usize = find_leaf(entries, LeafQuery { function: 1, index: None, cache: None });
        if j < entries.len() {
            let e: KvmCpuidEntry = entries[j];
            entries[j] = KvmCpuidEntry { eax: l1.eax, ..e };
        }
        upsert(entries, 0x8000_0002, table.lookup(0x8000_0002, 0));
        upsert(entries, 0x8000_0003, table.lookup(0x8000_0003, 0));
        upsert(entries, 0x8000_0004, table.lookup(0x8000_0004, 0));
    }

    /// Stamps the APIC identity of one vCPU: the initial APIC id in leaf 1, the
    /// x2APIC id in leaves 0xB and 0x1F, and the extended APIC id and core id in
    /// leaf 0x8000_001E. The core id is the APIC id without the thread bits.
    pub fn stamp_apic_identity(entries: &mut Vec<KvmCpuidEntry>, apic_id: u32, smt_shift: u32)
        requires
            smt_shift < 32,
        ensures
            final(entries)@ == stamped_all(old(entries)@, apic_id, smt_shift),
    {
        let ghost before = entries@;
        let core_id: u32 = apic_id >> smt_shift;
        let mut i: usize = 0;
        while i < entries.len()
            invariant
                i <= entries.len(),
                core_id == apic_id >> smt_shift,
                entries@.len() == before.len(),
                forall|j: int|
                    0 <= j < before.len() ==> #[trigger] entries@[j] == (if j < i {
                        stamped(before[j], apic_id, smt_shift)
                    } else {
                        before[j]
                    }),
            decreases entries.len() - i,
        {
            let e: KvmCpuidEntry = entries[i];
            if e.function == 1 {
                entries[i] = KvmCpuidEntry { ebx: set_field(e.ebx, 24, 0xFF, apic_id), ..e };
            } else if e.function == 0xB || e.function == 0x1F {
                entries[i] = KvmCpuidEntry { edx: apic_id, ..e };
            } else if e.function == 0x8000_001E {
                entries[i] =
                KvmCpuidEntry { eax: apic_id, ebx: set_field(e.ebx, 0, 0xFF, core_id), ..e };
            }
            i = i + 1;
        }
        assert(entries@ =~= stamped_all(before, apic_id, smt_shift));
    }

    /// Builds the entries that all vCPUs share.
    pub fn build_topology_template(
        supported: &[KvmCpuidEntry],
        table: &CpuidStealthTable,
        tsc_khz: Option<u32>,
    ) -> (r: Vec<KvmCpuidEntry>)
        requires
            tsc_khz matches Some(khz) ==> table.regs(0x16, 0).eax != 0 ==> khz + 500 <= u32::MAX,
        ensures
            r@ == topology_template(supported@, *table, tsc_khz),
    {
        let mut entries: Vec<KvmCpuidEntry> = Vec::new();
        entries.extend_from_slice(supported);
        assert(entries@ =~= supported@);
        clear_hypervisor_bit(&mut entries);
        set_package_width(&mut entries, table.lookup(1, 0).ebx);
        set_levels(&mut entries, table);
        let ecx: u32 = table.lookup(0x8000_0008, 0).ecx;
        let i: usize = find_leaf(&entries, LeafQuery { function: 0x8000_0008, index: None, cache: None });
        if i < entries.len() {
            let e: KvmCpuidEntry = entries[i];
            entries[i] = KvmCpuidEntry { ecx, ..e };
        }
        set_cache_sharing(&mut entries, table);
        let ebx: u32 = table.lookup(0x8000_001E, 0).ebx;
        let j: usize = find_leaf(&entries, LeafQuery { function: 0x8000_001E, index: None, cache: None });
        if j < entries.len() {
            let e: KvmCpuidEntry = entries[j];
            entries[j] = KvmCpuidEntry { ebx: set_field(e.ebx, 8, 0xFF, (ebx >> 8) & 0xFF), ..e };
        }
        Self::upsert_pmu_leaf(&mut entries, table);
        Self::upsert_frequency_leaves(&mut entries, table, tsc_khz);
        Self::upsert_identity_leaves(&mut entries, table);
        entries
    }

    /// The CPUID tables for all vCPUs, in the order of their creation: what KVM
    /// supports, with the guest's own topology, counters, frequency and
    /// identity, and with the APIC identity of the vCPU stamped in.
    ///
    /// Fails, where there is a vCPU, if the table grows beyond what KVM accepts.
    pub fn apply_topology_stealth(
        &self,
        table: &CpuidStealthTable,
        supported: &[KvmCpuidEntry],
        tsc_khz: Option<u32>,
    ) -> (r: Result<Vec<CpuidSet>>)
        requires
            tsc_khz matches Some(khz) ==> table.regs(0x16, 0).eax != 0 ==> khz + 500 <= u32::MAX,
        ensures
            r is Ok <==> self.apic_ids@.len() == 0 || topology_template(
                supported@,
                *table,
                tsc_khz,
            ).len() <= 80,
            r matches Ok(sets) ==> {
                &&& sets@.len() == self.apic_ids@.len()
                &&& forall|i: int|
                    0 <= i < sets@.len() ==> cpuid_set_entries(#[trigger] sets@[i]) == stamped_all(
                        topology_template(supported@, *table, tsc_khz),
                        self.apic_ids@[i] as u32,
                        field(table.regs(0xB, 0).eax, 0, 0x1F),
                    )
            },
            r matches Err(e) ==> e matches Error::Vcpu(m) && m@ == rebuild_text(),
    {
        let entries: Vec<KvmCpuidEntry> = Self::build_topology_template(supported, table, tsc_khz);
        let top: u32 = table.lookup(0xB, 0).eax;
        let smt_shift: u32 = (top >> 0) & 0x1F;
        assert((top >> 0) & 0x1F < 32) by (bit_vector);
        let mut sets: Vec<CpuidSet> = Vec::new();
        let mut i: usize = 0;
        while i < self.apic_ids.len()
            invariant
                i <= self.apic_ids.len(),
                smt_shift < 32,
                smt_shift == field(table.regs(0xB, 0).eax, 0, 0x1F),
                entries@ == topology_template(supported@, *table, tsc_khz),
                i > 0 ==> entries@.len() <= MAX_CPUID_ENTRIES,
                sets@.len() == i,
                forall|j: int|
                    0 <= j < i ==> cpuid_set_entries(#[trigger] sets@[j]) == stamped_all(
                        entries@,
                        self.apic_ids@[j] as u32,
                        smt_shift,
                    ),
            decreases self.apic_ids.len() - i,
        {
            let apic_id: u32 = #[verifier::truncate] (self.apic_ids[i] as u32);
            let mut per_vcpu: Vec<KvmCpuidEntry> = Vec::new();
            per_vcpu.extend_from_slice(entries.as_slice());
            assert(per_vcpu@ =~= entries@);
            Self::stamp_apic_identity(&mut per_vcpu, apic_id, smt_shift);
            match rebuild(per_vcpu.as_slice()) {
                Ok(set) => sets.push(set),
                Err(e) => {
                    return Err(e);
                },
            }
            i = i + 1;
        }
        Ok(sets)
    }

    /// The CPUID table for every vCPU of a guest that gets only the table's
    /// performance counters: what KVM supports, without the hypervisor-present
    /// bit and with leaf 0xA replaced.
    ///
    /// Fails if the table grows beyond what KVM accepts.
    pub fn apply_pmu_stealth(&self, table: &CpuidStealthTable, supported: &[KvmCpuidEntry]) -> (r:
        Result<CpuidSet>)
        ensures
            r is Ok <==> pmu_template(supported@, *table).len() <= MAX_CPUID_ENTRIES,
            r matches Ok(set) ==> cpuid_set_entries(set) == pmu_template(supported@, *table),
            r matches Err(e) ==> e matches Error::Vcpu(m) && m@ == rebuild_text(),
    {
        let mut entries: Vec<KvmCpuidEntry> = Vec::new();
        entries.extend_from_slice(supported);
        assert(entries@ =~= supported@);
        clear_hypervisor_bit(&mut entries);
        Self::upsert_pmu_leaf(&mut entries, table);
        rebuild(entries.as_slice())
    }

    /// The CPUID table for every vCPU of a guest that is only not to see the
    /// hypervisor-present bit.
    pub fn clear_cpuid_hypervisor_bit(&self, supported: &[KvmCpuidEntry]) -> (r: Vec<
        KvmCpuidEntry,
    >)
        ensures
            r@ == supported@.map_values(|e: KvmCpuidEntry| without_hypervisor_bit(e)),
    {
        let mut entries: Vec<KvmCpuidEntry> = Vec::new();
        entries.extend_from_slice(supported);
        assert(entries@ =~= supported@);
        clear_hypervisor_bit(&mut entries);
        entries
    }
}

// ---------------------------------------------------------------------------
// Laws
// ---------------------------------------------------------------------------

/// The leaves that a guest's own topology, counters, frequency and identity
/// go into.
pub open spec fn is_guest_leaf(function: u32) -> bool {
    ||| function == 0
    ||| function == 1
    ||| function == 0xA
    ||| function == 0xB
    ||| function == 0x15
    ||| function == 0x16
    ||| 0x8000_0002 <= function <= 0x8000_0004
    ||| function == 0x8000_0008
    ||| function == 0x8000_001D
    ||| function == 0x8000_001E
}

/// `t` is `s` with guest leaves edited in place or added behind: no entry
/// moves, no other leaf changes, no feature leaf is added and those there keep
/// their feature bits in ECX and EDX.
pub open spec fn refines(s: Seq<KvmCpuidEntry>, t: Seq<KvmCpuidEntry>) -> bool {
    &&& s.len() <= t.len()
    &&& forall|i: int|
        0 <= i < s.len() ==> {
            &&& (#[trigger] t[i]).function == s[i].function
            &&& !is_guest_leaf(s[i].function) ==> t[i] == s[i]
            &&& s[i].function == 1 ==> t[i].ecx == s[i].ecx && t[i].edx == s[i].edx
        }
    &&& forall|i: int|
        s.len() <= i < t.len() ==> is_guest_leaf((#[trigger] t[i]).function) && t[i].function != 1
}

proof fn lemma_refines_trans(a: Seq<KvmCpuidEntry>, b: Seq<KvmCpuidEntry>, c: Seq<KvmCpuidEntry>)
    requires
        refines(a, b),
        refines(b, c),
    ensures
        refines(a, c),
{
    assert forall|i: int| 0 <= i < a.len() implies {
        &&& (#[trigger] c[i]).function == a[i].function
        &&& !is_guest_leaf(a[i].function) ==> c[i] == a[i]
        &&& a[i].function == 1 ==> c[i].ecx == a[i].ecx && c[i].edx == a[i].edx
    } by {
        assert(b[i].function == a[i].function);
    }
    assert forall|i: int| a.len() <= i < c.len() implies is_guest_leaf(
        (#[trigger] c[i]).function,
    ) && c[i].function != 1 by {
        if i < b.len() {
            assert(is_guest_leaf(b[i].function));
        }
    }
}

proof fn lemma_upserted_refines(s: Seq<KvmCpuidEntry>, function: u32, r: CpuidRegs)
    requires
        is_guest_leaf(function),
        function != 1,
    ensures
        refines(s, upserted(s, function, r)),
{
    law_find(s, leaf(function));
}

proof fn lemma_levels_refines(s: Seq<KvmCpuidEntry>, table: CpuidStealthTable, n: nat)
    requires
        n <= 3,
    ensures
        refines(s, with_levels(s, table, n)),
    decreases n,
{
    if n > 0 {
        let m: nat = (n - 1) as nat;
        lemma_levels_refines(s, table, m);
        let t = with_levels(s, table, m);
        law_find(t, subleaf(0xB, m as u32));
        lemma_refines_trans(s, t, with_levels(s, table, n));
    }
}

proof fn lemma_cache_refines(s: Seq<KvmCpuidEntry>, table: CpuidStealthTable, sub: u32)
    requires
        sub <= 16,
    ensures
        refines(s, with_cache_sharing(s, table, sub)),
    decreases 16 - sub,
{
    let t = table.regs(0x8000_001D, sub).eax;
    if sub < 16 && field(t, 0, 0x1F) != 0 {
        let q = cache_leaf(0x8000_001D, sub, field(t, 0, 0xFF));
        law_find(s, q);
        let i = find(s, q);
        let patched = if i < s.len() {
            s.update(
                i,
                KvmCpuidEntry {
                    eax: with_field(s[i].eax, 14, 0xFFF, field(t, 14, 0xFFF)),
                    ..s[i]
                },
            )
        } else {
            s
        };
        assert(refines(s, patched));
        lemma_cache_refines(patched, table, (sub + 1) as u32);
        lemma_refines_trans(s, patched, with_cache_sharing(patched, table, (sub + 1) as u32));
    }
}

proof fn lemma_frequency_refines(
    s: Seq<KvmCpuidEntry>,
    table: CpuidStealthTable,
    khz: Option<u32>,
)
    ensures
        refines(s, with_frequency_leaves(s, table, khz)),
{
    if table.regs(0x16, 0).eax != 0 {
        let rate = pinned_mhz(khz);
        let r15 = tsc_leaf(table.regs(0x15, 0), rate);
        let r16 = frequency_leaf(table.regs(0x16, 0), rate);
        let a = upserted(s, 0x15, r15);
        let b = upserted(a, 0x16, r16);
        lemma_upserted_refines(s, 0x15, r15);
        lemma_upserted_refines(a, 0x16, r16);
        law_find(b, leaf(0));
        lemma_refines_trans(s, a, b);
        lemma_refines_trans(s, b, with_max_leaf(b, 0x16));
    }
}

proof fn lemma_identity_refines(s: Seq<KvmCpuidEntry>, table: CpuidStealthTable)
    ensures
        refines(s, with_identity_leaves(s, table)),
{
    let a = with_vendor_regs(s, table.regs(0, 0));
    law_find(s, leaf(0));
    let b = with_signature(a, table.regs(1, 0).eax);
    law_find(a, leaf(1));
    lemma_refines_trans(s, a, b);
    let c = upserted(b, 0x8000_0002, table.regs(0x8000_0002, 0));
    lemma_upserted_refines(b, 0x8000_0002, table.regs(0x8000_0002, 0));
    lemma_refines_trans(s, b, c);
    let d = upserted(c, 0x8000_0003, table.regs(0x8000_0003, 0));
    lemma_upserted_refines(c, 0x8000_0003, table.regs(0x8000_0003, 0));
    lemma_refines_trans(s, c, d);
    lemma_upserted_refines(d, 0x8000_0004, table.regs(0x8000_0004, 0));
    lemma_refines_trans(s, d, with_identity_leaves(s, table));
}

/// Apart from the hypervisor-present bit, the shared entries are the supported
/// ones with guest leaves edited or added; every other leaf KVM supports comes
/// through as it is, and the features of leaf 1 are neither widened nor cut.
pub proof fn law_template_refines_supported(
    supported: Seq<KvmCpuidEntry>,
    table: CpuidStealthTable,
    tsc_khz: Option<u32>,
)
    ensures
        refines(
            supported.map_values(|e: KvmCpuidEntry| without_hypervisor_bit(e)),
            topology_template(supported, table, tsc_khz),
        ),
{
    let a = supported.map_values(|e: KvmCpuidEntry| without_hypervisor_bit(e));
    let b = a.map_values(|e: KvmCpuidEntry| with_package_width(e, table.regs(1, 0).ebx));
    assert(refines(a, b));
    let c = with_levels(b, table, 3);
    lemma_levels_refines(b, table, 3);
    lemma_refines_trans(a, b, c);
    let d = with_core_count(c, table.regs(0x8000_0008, 0).ecx);
    law_find(c, leaf(0x8000_0008));
    lemma_refines_trans(a, c, d);
    let e = with_cache_sharing(d, table, 0);
    lemma_cache_refines(d, table, 0);
    lemma_refines_trans(a, d, e);
    let f = with_smt_width(e, table.regs(0x8000_001E, 0).ebx);
    law_find(e, leaf(0x8000_001E));
    lemma_refines_trans(a, e, f);
    let g = upserted(f, 0xA, table.regs(0xA, 0));
    lemma_upserted_refines(f, 0xA, table.regs(0xA, 0));
    lemma_refines_trans(a, f, g);
    let h = with_frequency_leaves(g, table, tsc_khz);
    lemma_frequency_refines(g, table, tsc_khz);
    lemma_refines_trans(a, g, h);
    lemma_identity_refines(h, table);
    lemma_refines_trans(a, h, with_identity_leaves(h, table));
}

/// No vCPU sees the hypervisor-present bit, whatever KVM supports and the
/// table says.
pub proof fn law_no_vcpu_sees_the_hypervisor_bit(
    supported: Seq<KvmCpuidEntry>,
    table: CpuidStealthTable,
    tsc_khz: Option<u32>,
    apic_id: u32,
    smt_shift: u32,
    i: int,
)
    requires
        ({
            let t = stamped_all(topology_template(supported, table, tsc_khz), apic_id, smt_shift);
            0 <= i < t.len() && t[i].function == 1
        }),
    ensures
        field(
            stamped_all(
                topology_template(supported, table, tsc_khz),
                apic_id,
                smt_shift,
            )[i].ecx,
            31,
            1,
        ) == 0,
{
    law_template_refines_supported(supported, table, tsc_khz);
    let a = supported.map_values(|e: KvmCpuidEntry| without_hypervisor_bit(e));
    let t = topology_template(supported, table, tsc_khz);
    assert(t[i].function == 1);
    assert(i < a.len());
    assert(t[i].ecx == a[i].ecx);
    assert((1u32 << 31) >> 31 == 1u32) by (bit_vector);
    assert(0u32 & 1u32 == 0u32) by (bit_vector);
    crate::bits::law_with_field(supported[i].ecx, 31, 1, 0);
}

/// Every identity field of a vCPU's table holds its APIC id: the top byte of
/// leaf 1, EDX of the topology leaves and EAX of the extended identity leaf,
/// whose low EBX byte is the core id. All other leaves and fields are kept.
pub proof fn law_stamp_writes_identity(e: KvmCpuidEntry, apic_id: u32, smt_shift: u32)
    ensures
        ({
            let r = stamped(e, apic_id, smt_shift);
            &&& r.function == e.function && r.index == e.index && r.ecx == e.ecx
            &&& e.function == 1 ==> field(r.ebx, 24, 0xFF) == apic_id & 0xFF && r.ebx & 0xFF_FFFF
                == e.ebx & 0xFF_FFFF && r.eax == e.eax && r.edx == e.edx
            &&& e.function == 0xB || e.function == 0x1F ==> r.edx == apic_id && r.eax == e.eax
                && r.ebx == e.ebx
            &&& e.function == 0x8000_001E ==> r.eax == apic_id && field(r.ebx, 0, 0xFF) == (apic_id
                >> smt_shift) & 0xFF && field(r.ebx, 8, 0xFF) == field(e.ebx, 8, 0xFF)
        }),
{
    let ebx = e.ebx;
    let core = apic_id >> smt_shift;
    assert((0xFFu32 << 24) >> 24 == 0xFFu32 && (0xFFu32 << 0) >> 0 == 0xFFu32) by (bit_vector);
    crate::bits::law_with_field(ebx, 24, 0xFF, apic_id);
    crate::bits::law_with_field(ebx, 0, 0xFF, core);
    let x = with_field(ebx, 24, 0xFF, apic_id);
    let y = with_field(ebx, 0, 0xFF, core);
    assert(x & 0xFF_FFFF == ebx & 0xFF_FFFF && (y >> 8) & 0xFF == (ebx >> 8) & 0xFF)
        by (bit_vector)
        requires
            x & !(0xFFu32 << 24) == ebx & !(0xFFu32 << 24),
            y & !(0xFFu32 << 0) == ebx & !(0xFFu32 << 0),
    ;
}

proof fn lemma_find_is(s: Seq<KvmCpuidEntry>, q: LeafQuery, i: int)
    requires
        0 <= i < s.len(),
        q.accepts(s[i]),
        forall|j: int| 0 <= j < i ==> !q.accepts(#[trigger] s[j]),
    ensures
        find(s, q) == i,
{
    law_find(s, q);
    if find(s, q) < i {
        assert(!q.accepts(s[find(s, q)]));
    } else if find(s, q) > i {
        assert(!q.accepts(s[i]));
    }
}

/// What was put into a leaf is what is found there, and looking for another
/// leaf finds what it found before.
pub proof fn law_upserted_reads_back(s: Seq<KvmCpuidEntry>, function: u32, r: CpuidRegs)
    ensures
        ({
            let t = upserted(s, function, r);
            let i = find(t, leaf(function));
            &&& i < t.len()
            &&& t[i] == with_regs(t[i], r)
            &&& t.len() == s.len() + (if find(s, leaf(function)) < s.len() { 0int } else { 1int })
            &&& forall|g: u32|
                g != function && (#[trigger] find(s, leaf(g))) < s.len() ==> find(t, leaf(g))
                    == find(s, leaf(g)) && t[find(t, leaf(g))] == s[find(s, leaf(g))]
        }),
{
    let t = upserted(s, function, r);
    law_find(s, leaf(function));
    let k = find(s, leaf(function));
    lemma_find_is(t, leaf(function), k);
    assert forall|g: u32|
        g != function && (#[trigger] find(s, leaf(g))) < s.len() implies find(t, leaf(g)) == find(
        s,
        leaf(g),
    ) && t[find(t, leaf(g))] == s[find(s, leaf(g))] by {
        law_find(s, leaf(g));
        lemma_find_is(t, leaf(g), find(s, leaf(g)));
    }
}

/// With the usual table, whose crystal runs at 24 MHz and whose ratio divides
/// by 24, the rate that a guest derives from leaf 0x15 is the pinned rate.
pub proof fn law_frequency_leaf_spells_the_rate(table: CpuidStealthTable, khz: u32)
    requires
        table.regs(0x15, 0).eax == 24,
        table.regs(0x15, 0).ecx == 24_000_000,
        mhz(khz) != 0,
    ensures
        ({
            let r15 = tsc_leaf(table.regs(0x15, 0), pinned_mhz(Some(khz)));
            let r16 = frequency_leaf(table.regs(0x16, 0), pinned_mhz(Some(khz)));
            &&& r15.ecx * r15.ebx / r15.eax as int == mhz(khz) * 1_000_000
            &&& r16.eax == mhz(khz)
            &&& r16.eax <= r16.ebx
        }),
{
    let m = mhz(khz);
    assert(24_000_000 * m / 24 == m * 1_000_000);
}

/// The guest finds the leaf 0x16 that was installed: where leaf 0 is there,
/// its maximum basic leaf covers it, and it is never lowered.
pub proof fn law_frequency_leaves_are_reachable(
    s: Seq<KvmCpuidEntry>,
    table: CpuidStealthTable,
    khz: Option<u32>,
)
    requires
        table.regs(0x16, 0).eax != 0,
        find(s, leaf(0)) < s.len(),
    ensures
        ({
            let t = with_frequency_leaves(s, table, khz);
            let i = find(s, leaf(0));
            &&& find(t, leaf(0)) == i
            &&& t[i].eax >= 0x16
            &&& t[i].eax >= s[i].eax
            &&& find(t, leaf(0x16)) < t.len()
            &&& find(t, leaf(0x15)) < t.len()
        }),
{
    let rate = pinned_mhz(khz);
    let r15 = tsc_leaf(table.regs(0x15, 0), rate);
    let r16 = frequency_leaf(table.regs(0x16, 0), rate);
    let a = upserted(s, 0x15, r15);
    let b = upserted(a, 0x16, r16);
    let t = with_max_leaf(b, 0x16);
    law_upserted_reads_back(s, 0x15, r15);
    law_upserted_reads_back(a, 0x16, r16);
    assert(find(s, leaf(0)) < s.len());
    assert(find(a, leaf(0)) == find(s, leaf(0)));
    assert(find(a, leaf(0)) < a.len());
    assert(find(b, leaf(0)) == find(s, leaf(0)));
    assert(find(a, leaf(0x15)) < a.len());
    assert(find(b, leaf(0x15)) < b.len());
    law_find(b, leaf(0));
    law_find(b, leaf(0x15));
    law_find(b, leaf(0x16));
    lemma_find_is(t, leaf(0), find(b, leaf(0)));
    lemma_find_is(t, leaf(0x15), find(b, leaf(0x15)));
    lemma_find_is(t, leaf(0x16), find(b, leaf(0x16)));
}

/// `t` holds the topology leaf of `s` and the widths of its feature leaf, in
/// the same places, and no more of either.
pub open spec fn keeps_topology(s: Seq<KvmCpuidEntry>, t: Seq<KvmCpuidEntry>) -> bool {
    &&& s.len() <= t.len()
    &&& forall|i: int|
        0 <= i < s.len() ==> {
            &&& (#[trigger] t[i]).function == s[i].function
            &&& s[i].function == 0xB ==> t[i] == s[i]
            &&& s[i].function == 1 ==> t[i].ebx == s[i].ebx
        }
    &&& forall|i: int|
        s.len() <= i < t.len() ==> (#[trigger] t[i]).function != 0xB && t[i].function != 1
}

proof fn lemma_cache_keeps_topology(s: Seq<KvmCpuidEntry>, table: CpuidStealthTable, sub: u32)
    requires
        sub <= 16,
    ensures
        keeps_topology(s, with_cache_sharing(s, table, sub)),
    decreases 16 - sub,
{
    let t = table.regs(0x8000_001D, sub).eax;
    if sub < 16 && field(t, 0, 0x1F) != 0 {
        let q = cache_leaf(0x8000_001D, sub, field(t, 0, 0xFF));
        law_find(s, q);
        let i = find(s, q);
        let patched = if i < s.len() {
            s.update(
                i,
                KvmCpuidEntry {
                    eax: with_field(s[i].eax, 14, 0xFFF, field(t, 14, 0xFFF)),
                    ..s[i]
                },
            )
        } else {
            s
        };
        assert(keeps_topology(s, patched));
        lemma_cache_keeps_topology(patched, table, (sub + 1) as u32);
        lemma_keeps_topology_trans(
            s,
            patched,
            with_cache_sharing(patched, table, (sub + 1) as u32),
        );
    }
}

proof fn lemma_keeps_topology_trans(
    a: Seq<KvmCpuidEntry>,
    b: Seq<KvmCpuidEntry>,
    c: Seq<KvmCpuidEntry>,
)
    requires
        keeps_topology(a, b),
        keeps_topology(b, c),
    ensures
        keeps_topology(a, c),
{
    assert forall|i: int| 0 <= i < a.len() implies {
        &&& (#[trigger] c[i]).function == a[i].function
        &&& a[i].function == 0xB ==> c[i] == a[i]
        &&& a[i].function == 1 ==> c[i].ebx == a[i].ebx
    } by {
        assert(b[i].function == a[i].function);
    }
    assert forall|i: int| a.len() <= i < c.len() implies (#[trigger] c[i]).function != 0xB
        && c[i].function != 1 by {
        if i < b.len() {
            assert(b[i].function != 0xB);
        }
    }
}

proof fn lemma_upserted_keeps_topology(s: Seq<KvmCpuidEntry>, function: u32, r: CpuidRegs)
    requires
        function != 0xB,
        function != 1,
    ensures
        keeps_topology(s, upserted(s, function, r)),
{
    law_find(s, leaf(function));
}

/// After the topology levels, no later edit touches them.
proof fn lemma_template_keeps_topology(
    c: Seq<KvmCpuidEntry>,
    table: CpuidStealthTable,
    khz: Option<u32>,
) -> (t: Seq<KvmCpuidEntry>)
    ensures
        t == ({
            let d = with_core_count(c, table.regs(0x8000_0008, 0).ecx);
            let e = with_cache_sharing(d, table, 0);
            let f = with_smt_width(e, table.regs(0x8000_001E, 0).ebx);
            let g = upserted(f, 0xA, table.regs(0xA, 0));
            let h = with_frequency_leaves(g, table, khz);
            with_identity_leaves(h, table)
        }),
        keeps_topology(c, t),
{
    let d = with_core_count(c, table.regs(0x8000_0008, 0).ecx);
    law_find(c, leaf(0x8000_0008));
    let e = with_cache_sharing(d, table, 0);
    lemma_cache_keeps_topology(d, table, 0);
    lemma_keeps_topology_trans(c, d, e);
    let f = with_smt_width(e, table.regs(0x8000_001E, 0).ebx);
    law_find(e, leaf(0x8000_001E));
    lemma_keeps_topology_trans(c, e, f);
    let g = upserted(f, 0xA, table.regs(0xA, 0));
    lemma_upserted_keeps_topology(f, 0xA, table.regs(0xA, 0));
    lemma_keeps_topology_trans(c, f, g);
    let h = with_frequency_leaves(g, table, khz);
    if table.regs(0x16, 0).eax != 0 {
        let rate = pinned_mhz(khz);
        let r15 = tsc_leaf(table.regs(0x15, 0), rate);
        let r16 = frequency_leaf(table.regs(0x16, 0), rate);
        let h1 = upserted(g, 0x15, r15);
        let h2 = upserted(h1, 0x16, r16);
        lemma_upserted_keeps_topology(g, 0x15, r15);
        lemma_upserted_keeps_topology(h1, 0x16, r16);
        law_find(h2, leaf(0));
        lemma_keeps_topology_trans(c, g, h1);
        lemma_keeps_topology_trans(c, h1, h2);
        lemma_keeps_topology_trans(c, h2, h);
    }
    let i1 = with_vendor_regs(h, table.regs(0, 0));
    law_find(h, leaf(0));
    lemma_keeps_topology_trans(c, h, i1);
    let i2 = with_signature(i1, table.regs(1, 0).eax);
    law_find(i1, leaf(1));
    lemma_keeps_topology_trans(c, i1, i2);
    let i3 = upserted(i2, 0x8000_0002, table.regs(0x8000_0002, 0));
    lemma_upserted_keeps_topology(i2, 0x8000_0002, table.regs(0x8000_0002, 0));
    lemma_keeps_topology_trans(c, i2, i3);
    let i4 = upserted(i3, 0x8000_0003, table.regs(0x8000_0003, 0));
    lemma_upserted_keeps_topology(i3, 0x8000_0003, table.regs(0x8000_0003, 0));
    lemma_keeps_topology_trans(c, i3, i4);
    let i5 = upserted(i4, 0x8000_0004, table.regs(0x8000_0004, 0));
    lemma_upserted_keeps_topology(i4, 0x8000_0004, table.regs(0x8000_0004, 0));
    lemma_keeps_topology_trans(c, i4, i5);
    i5
}

/// Level `sub` of the topology leaf is in `s`, with the table's registers.
pub open spec fn shows_level(s: Seq<KvmCpuidEntry>, table: CpuidStealthTable, sub: u32) -> bool {
    let i = find(s, subleaf(0xB, sub));
    let r = table.regs(0xB, sub);
    &&& i < s.len()
    &&& s[i].eax == r.eax && s[i].ebx == r.ebx && s[i].ecx == r.ecx
}

proof fn lemma_levels_shown(s: Seq<KvmCpuidEntry>, table: CpuidStealthTable, n: nat, sub: u32)
    requires
        sub < n <= 3,
    ensures
        shows_level(with_levels(s, table, n), table, sub),
    decreases n,
{
    let m: nat = (n - 1) as nat;
    let t = with_levels(s, table, m);
    let u = with_levels(s, table, n);
    law_find(t, subleaf(0xB, m as u32));
    let k = find(t, subleaf(0xB, m as u32));
    if sub == m {
        lemma_find_is(u, subleaf(0xB, sub), k);
    } else {
        lemma_levels_shown(s, table, m, sub);
        law_find(t, subleaf(0xB, sub));
        let j = find(t, subleaf(0xB, sub));
        assert(j != k);
        assert forall|x: int| 0 <= x < j implies !subleaf(0xB, sub).accepts(#[trigger] u[x]) by {
            assert(!subleaf(0xB, sub).accepts(t[x]));
        }
        lemma_find_is(u, subleaf(0xB, sub), j);
    }
}

/// Every vCPU reads the guest's topology: each of the three levels of leaf 0xB
/// is there with the table's registers, and EDX holds the vCPU's APIC id.
pub proof fn law_vcpu_reads_its_topology(
    supported: Seq<KvmCpuidEntry>,
    table: CpuidStealthTable,
    tsc_khz: Option<u32>,
    apic_id: u32,
    smt_shift: u32,
    sub: u32,
)
    requires
        sub < 3,
    ensures
        ({
            let t = stamped_all(topology_template(supported, table, tsc_khz), apic_id, smt_shift);
            shows_level(t, table, sub) && t[find(t, subleaf(0xB, sub))].edx == apic_id
        }),
{
    let a = supported.map_values(|e: KvmCpuidEntry| without_hypervisor_bit(e));
    let b = a.map_values(|e: KvmCpuidEntry| with_package_width(e, table.regs(1, 0).ebx));
    let c = with_levels(b, table, 3);
    let t = lemma_template_keeps_topology(c, table, tsc_khz);
    let u = stamped_all(t, apic_id, smt_shift);
    lemma_levels_shown(b, table, 3, sub);
    let q = subleaf(0xB, sub);
    law_find(c, q);
    let i = find(c, q);
    assert(t[i] == c[i]);
    assert forall|x: int| 0 <= x < i implies !q.accepts(#[trigger] u[x]) by {
        assert(!q.accepts(c[x]));
        assert(t[x].function == c[x].function);
    }
    lemma_find_is(u, q, i);
}

/// Every feature leaf that a vCPU reads gives the table's package width.
pub proof fn law_vcpu_reads_its_package_width(
    supported: Seq<KvmCpuidEntry>,
    table: CpuidStealthTable,
    tsc_khz: Option<u32>,
    apic_id: u32,
    smt_shift: u32,
    i: int,
)
    requires
        ({
            let t = stamped_all(topology_template(supported, table, tsc_khz), apic_id, smt_shift);
            0 <= i < t.len() && t[i].function == 1
        }),
    ensures
        field(
            stamped_all(
                topology_template(supported, table, tsc_khz),
                apic_id,
                smt_shift,
            )[i].ebx,
            16,
            0xFF,
        ) == field(table.regs(1, 0).ebx, 16, 0xFF),
{
    let w = table.regs(1, 0).ebx;
    let a = supported.map_values(|e: KvmCpuidEntry| without_hypervisor_bit(e));
    let b = a.map_values(|e: KvmCpuidEntry| with_package_width(e, w));
    let c = with_levels(b, table, 3);
    let t = lemma_template_keeps_topology(c, table, tsc_khz);
    lemma_levels_keep_features(b, table, 3);
    assert(t[i].function == c[i].function && c[i].function == b[i].function);
    assert(t[i].ebx == b[i].ebx);
    assert((0xFFu32 << 16) >> 16 == 0xFFu32) by (bit_vector);
    crate::bits::law_with_field(a[i].ebx, 16, 0xFF, field(w, 16, 0xFF));
    law_stamp_writes_identity(t[i], apic_id, smt_shift);
    let x = t[i].ebx;
    let y = stamped(t[i], apic_id, smt_shift).ebx;
    assert((y >> 16) & 0xFF == (x >> 16) & 0xFF && ((w >> 16) & 0xFF) & 0xFF == (w >> 16) & 0xFF)
        by (bit_vector)
        requires
            y & 0xFF_FFFF == x & 0xFF_FFFF,
    ;
}

proof fn lemma_levels_keep_features(s: Seq<KvmCpuidEntry>, table: CpuidStealthTable, n: nat)
    requires
        n <= 3,
    ensures
        ({
            let t = with_levels(s, table, n);
            &&& s.len() <= t.len()
            &&& forall|i: int|
                0 <= i < s.len() ==> (#[trigger] t[i]).function == s[i].function && (
                s[i].function == 1 ==> t[i] == s[i])
            &&& forall|i: int| s.len() <= i < t.len() ==> (#[trigger] t[i]).function != 1
        }),
    decreases n,
{
    if n > 0 {
        let m: nat = (n - 1) as nat;
        lemma_levels_keep_features(s, table, m);
        law_find(with_levels(s, table, m), subleaf(0xB, m as u32));
    }
}

/// The counter leaf is in `s`, with the table's registers.
pub open spec fn shows_counters(s: Seq<KvmCpuidEntry>, table: CpuidStealthTable) -> bool {
    shows_regs(s, 0xA, table.regs(0xA, 0))
}

/// Every vCPU reads the counter leaf of the table.
pub proof fn law_vcpu_reads_its_counters(
    supported: Seq<KvmCpuidEntry>,
    table: CpuidStealthTable,
    tsc_khz: Option<u32>,
    apic_id: u32,
    smt_shift: u32,
)
    ensures
        shows_counters(
            stamped_all(topology_template(supported, table, tsc_khz), apic_id, smt_shift),
            table,
        ),
{
    let a = supported.map_values(|e: KvmCpuidEntry| without_hypervisor_bit(e));
    let b = a.map_values(|e: KvmCpuidEntry| with_package_width(e, table.regs(1, 0).ebx));
    let c = with_levels(b, table, 3);
    let d = with_core_count(c, table.regs(0x8000_0008, 0).ecx);
    let e = with_cache_sharing(d, table, 0);
    let f = with_smt_width(e, table.regs(0x8000_001E, 0).ebx);
    let g = upserted(f, 0xA, table.regs(0xA, 0));
    law_upserted_reads_back(f, 0xA, table.regs(0xA, 0));
    let h = with_frequency_leaves(g, table, tsc_khz);
    if table.regs(0x16, 0).eax != 0 {
        let rate = pinned_mhz(tsc_khz);
        let r15 = tsc_leaf(table.regs(0x15, 0), rate);
        let r16 = frequency_leaf(table.regs(0x16, 0), rate);
        let h1 = upserted(g, 0x15, r15);
        let h2 = upserted(h1, 0x16, r16);
        lemma_upserted_keeps_counters(g, table, 0x15, r15);
        lemma_upserted_keeps_counters(h1, table, 0x16, r16);
        law_find(h2, leaf(0));
        lemma_edit_keeps_counters(h2, h, table);
    }
    let i1 = with_vendor_regs(h, table.regs(0, 0));
    law_find(h, leaf(0));
    lemma_edit_keeps_counters(h, i1, table);
    let i2 = with_signature(i1, table.regs(1, 0).eax);
    law_find(i1, leaf(1));
    lemma_edit_keeps_counters(i1, i2, table);
    let i3 = upserted(i2, 0x8000_0002, table.regs(0x8000_0002, 0));
    lemma_upserted_keeps_counters(i2, table, 0x8000_0002, table.regs(0x8000_0002, 0));
    let i4 = upserted(i3, 0x8000_0003, table.regs(0x8000_0003, 0));
    lemma_upserted_keeps_counters(i3, table, 0x8000_0003, table.regs(0x8000_0003, 0));
    let i5 = upserted(i4, 0x8000_0004, table.regs(0x8000_0004, 0));
    lemma_upserted_keeps_counters(i4, table, 0x8000_0004, table.regs(0x8000_0004, 0));
    lemma_edit_keeps_counters(i5, stamped_all(i5, apic_id, smt_shift), table);
}

/// An edit that moves no entry and leaves the counter leaf alone.
proof fn lemma_edit_keeps_counters(
    s: Seq<KvmCpuidEntry>,
    t: Seq<KvmCpuidEntry>,
    table: CpuidStealthTable,
)
    requires
        shows_counters(s, table),
        s.len() <= t.len(),
        forall|i: int|
            0 <= i < s.len() ==> (#[trigger] t[i]).function == s[i].function && (s[i].function
                == 0xA ==> t[i] == s[i]),
    ensures
        shows_counters(t, table),
{
    let q = leaf(0xA);
    law_find(s, q);
    let i = find(s, q);
    assert(t[i] == s[i]);
    assert forall|j: int| 0 <= j < i implies !q.accepts(#[trigger] t[j]) by {
        assert(!q.accepts(s[j]));
    }
    lemma_find_is(t, q, i);
}

proof fn lemma_upserted_keeps_counters(
    s: Seq<KvmCpuidEntry>,
    table: CpuidStealthTable,
    function: u32,
    r: CpuidRegs,
)
    requires
        shows_counters(s, table),
        function != 0xA,
    ensures
        shows_counters(upserted(s, function, r), table),
{
    law_find(s, leaf(function));
    lemma_edit_keeps_counters(s, upserted(s, function, r), table);
}

/// Looking for a leaf that no edit touches finds what it found before.
proof fn lemma_kept_leaf(s: Seq<KvmCpuidEntry>, t: Seq<KvmCpuidEntry>, function: u32)
    requires
        s.len() <= t.len(),
        forall|i: int|
            0 <= i < s.len() ==> (#[trigger] t[i]).function == s[i].function && (s[i].function
                == function ==> t[i] == s[i]),
        forall|i: int| s.len() <= i < t.len() ==> (#[trigger] t[i]).function != function,
    ensures
        find(t, leaf(function)) < t.len() <==> find(s, leaf(function)) < s.len(),
        find(s, leaf(function)) < s.len() ==> find(t, leaf(function)) == find(s, leaf(function))
            && t[find(t, leaf(function))] == s[find(s, leaf(function))],
{
    let q = leaf(function);
    law_find(s, q);
    law_find(t, q);
    let i = find(s, q);
    if i < s.len() {
        assert(t[i] == s[i]);
        assert forall|j: int| 0 <= j < i implies !q.accepts(#[trigger] t[j]) by {
            assert(!q.accepts(s[j]));
        }
        lemma_find_is(t, q, i);
    } else if find(t, q) < t.len() {
        let j = find(t, q);
        if j < s.len() {
            assert(!q.accepts(s[j]));
        }
    }
}

proof fn lemma_upserted_keeps_leaf(
    s: Seq<KvmCpuidEntry>,
    function: u32,
    r: CpuidRegs,
    other: u32,
)
    requires
        other != function,
    ensures
        ({
            let t = upserted(s, function, r);
            &&& find(t, leaf(other)) < t.len() <==> find(s, leaf(other)) < s.len()
            &&& find(s, leaf(other)) < s.len() ==> find(t, leaf(other)) == find(s, leaf(other))
                && t[find(t, leaf(other))] == s[find(s, leaf(other))]
        }),
{
    law_find(s, leaf(function));
    lemma_kept_leaf(s, upserted(s, function, r), other);
}

/// The leaf of the given function is in `s`, with the given registers.
pub open spec fn shows_regs(s: Seq<KvmCpuidEntry>, function: u32, r: CpuidRegs) -> bool {
    let i = find(s, leaf(function));
    i < s.len() && s[i] == with_regs(s[i], r)
}

/// The identity of the table is what `s` shows: its vendor string in leaf 0 and
/// its signature in leaf 1, where these are there, and its brand string.
pub open spec fn shows_identity(s: Seq<KvmCpuidEntry>, table: CpuidStealthTable) -> bool {
    let vendor = find(s, leaf(0));
    let features = find(s, leaf(1));
    let r = table.regs(0, 0);
    &&& vendor < s.len() ==> s[vendor].ebx == r.ebx && s[vendor].ecx == r.ecx && s[vendor].edx
        == r.edx
    &&& features < s.len() ==> s[features].eax == table.regs(1, 0).eax
    &&& shows_regs(s, 0x8000_0002, table.regs(0x8000_0002, 0))
    &&& shows_regs(s, 0x8000_0003, table.regs(0x8000_0003, 0))
    &&& shows_regs(s, 0x8000_0004, table.regs(0x8000_0004, 0))
}

proof fn lemma_identity_is_shown(s: Seq<KvmCpuidEntry>, table: CpuidStealthTable)
    ensures
        shows_identity(with_identity_leaves(s, table), table),
{
    let r2 = table.regs(0x8000_0002, 0);
    let r3 = table.regs(0x8000_0003, 0);
    let r4 = table.regs(0x8000_0004, 0);
    let a = with_vendor_regs(s, table.regs(0, 0));
    law_find(s, leaf(0));
    if find(s, leaf(0)) < s.len() {
        lemma_find_is(a, leaf(0), find(s, leaf(0)));
    }
    let b = with_signature(a, table.regs(1, 0).eax);
    law_find(a, leaf(1));
    lemma_kept_leaf(a, b, 0);
    if find(a, leaf(1)) < a.len() {
        lemma_find_is(b, leaf(1), find(a, leaf(1)));
    }
    let c = upserted(b, 0x8000_0002, r2);
    law_upserted_reads_back(b, 0x8000_0002, r2);
    lemma_upserted_keeps_leaf(b, 0x8000_0002, r2, 0);
    lemma_upserted_keeps_leaf(b, 0x8000_0002, r2, 1);
    let d = upserted(c, 0x8000_0003, r3);
    law_upserted_reads_back(c, 0x8000_0003, r3);
    lemma_upserted_keeps_leaf(c, 0x8000_0003, r3, 0);
    lemma_upserted_keeps_leaf(c, 0x8000_0003, r3, 1);
    lemma_upserted_keeps_leaf(c, 0x8000_0003, r3, 0x8000_0002);
    law_upserted_reads_back(d, 0x8000_0004, r4);
    lemma_upserted_keeps_leaf(d, 0x8000_0004, r4, 0);
    lemma_upserted_keeps_leaf(d, 0x8000_0004, r4, 1);
    lemma_upserted_keeps_leaf(d, 0x8000_0004, r4, 0x8000_0002);
    lemma_upserted_keeps_leaf(d, 0x8000_0004, r4, 0x8000_0003);
}

/// Stamping an APIC id moves no leaf.
proof fn lemma_stamp_moves_nothing(
    s: Seq<KvmCpuidEntry>,
    apic_id: u32,
    smt_shift: u32,
    function: u32,
)
    ensures
        find(stamped_all(s, apic_id, smt_shift), leaf(function)) == find(s, leaf(function)),
{
    let t = stamped_all(s, apic_id, smt_shift);
    let q = leaf(function);
    law_find(s, q);
    law_find(t, q);
    assert forall|i: int| 0 <= i < s.len() implies (q.accepts(#[trigger] t[i]) <==> q.accepts(
        s[i],
    )) by {
    }
    if find(s, q) < find(t, q) {
        assert(!q.accepts(t[find(s, q)]));
    } else if find(t, q) < find(s, q) {
        assert(!q.accepts(s[find(t, q)]));
    }
}

/// Every vCPU reads the identity of the table.
pub proof fn law_vcpu_reads_its_identity(
    supported: Seq<KvmCpuidEntry>,
    table: CpuidStealthTable,
    tsc_khz: Option<u32>,
    apic_id: u32,
    smt_shift: u32,
)
    ensures
        shows_identity(
            stamped_all(topology_template(supported, table, tsc_khz), apic_id, smt_shift),
            table,
        ),
{
    let a = supported.map_values(|e: KvmCpuidEntry| without_hypervisor_bit(e));
    let b = a.map_values(|e: KvmCpuidEntry| with_package_width(e, table.regs(1, 0).ebx));
    let c = with_levels(b, table, 3);
    let d = with_core_count(c, table.regs(0x8000_0008, 0).ecx);
    let e = with_cache_sharing(d, table, 0);
    let f = with_smt_width(e, table.regs(0x8000_001E, 0).ebx);
    let g = upserted(f, 0xA, table.regs(0xA, 0));
    let h = with_frequency_leaves(g, table, tsc_khz);
    let t = with_identity_leaves(h, table);
    assert(t == topology_template(supported, table, tsc_khz));
    lemma_identity_is_shown(h, table);
    law_find(t, leaf(0));
    law_find(t, leaf(1));
    law_find(t, leaf(0x8000_0002));
    law_find(t, leaf(0x8000_0003));
    law_find(t, leaf(0x8000_0004));
    lemma_stamp_moves_nothing(t, apic_id, smt_shift, 0);
    lemma_stamp_moves_nothing(t, apic_id, smt_shift, 1);
    lemma_stamp_moves_nothing(t, apic_id, smt_shift, 0x8000_0002);
    lemma_stamp_moves_nothing(t, apic_id, smt_shift, 0x8000_0003);
    lemma_stamp_moves_nothing(t, apic_id, smt_shift, 0x8000_0004);
}

/// A vCPU with these entries reads what the table says: no feature leaf shows
/// a hypervisor or another package width, and the topology levels, the
/// counters and the identity are the table's.
pub open spec fn shows_table(s: Seq<KvmCpuidEntry>, table: CpuidStealthTable) -> bool {
    &&& forall|i: int|
        0 <= i < s.len() && (#[trigger] s[i]).function == 1 ==> field(s[i].ecx, 31, 1) == 0
            && field(s[i].ebx, 16, 0xFF) == field(table.regs(1, 0).ebx, 16, 0xFF)
    &&& forall|sub: u32| sub < 3 ==> #[trigger] shows_level(s, table, sub)
    &&& shows_counters(s, table)
    &&& shows_identity(s, table)
}

/// Every vCPU reads what the table says, whatever KVM supports.
pub proof fn law_vcpu_reads_the_table(
    supported: Seq<KvmCpuidEntry>,
    table: CpuidStealthTable,
    tsc_khz: Option<u32>,
    apic_id: u32,
    smt_shift: u32,
)
    ensures
        shows_table(
            stamped_all(topology_template(supported, table, tsc_khz), apic_id, smt_shift),
            table,
        ),
{
    let t = stamped_all(topology_template(supported, table, tsc_khz), apic_id, smt_shift);
    assert forall|i: int| 0 <= i < t.len() && (#[trigger] t[i]).function == 1 implies field(
        t[i].ecx,
        31,
        1,
    ) == 0 && field(t[i].ebx, 16, 0xFF) == field(table.regs(1, 0).ebx, 16, 0xFF) by {
        law_no_vcpu_sees_the_hypervisor_bit(supported, table, tsc_khz, apic_id, smt_shift, i);
        law_vcpu_reads_its_package_width(supported, table, tsc_khz, apic_id, smt_shift, i);
    }
    assert forall|sub: u32| sub < 3 implies #[trigger] shows_level(t, table, sub) by {
        law_vcpu_reads_its_topology(supported, table, tsc_khz, apic_id, smt_shift, sub);
    }
    law_vcpu_reads_its_counters(supported, table, tsc_khz, apic_id, smt_shift);
    law_vcpu_reads_its_identity(supported, table, tsc_khz, apic_id, smt_shift);
}

/// Two vCPUs with different APIC ids never read the same table.
pub proof fn law_vcpus_are_told_apart(
    supported: Seq<KvmCpuidEntry>,
    table: CpuidStealthTable,
    tsc_khz: Option<u32>,
    a: u32,
    b: u32,
    smt_shift: u32,
)
    requires
        a != b,
    ensures
        stamped_all(topology_template(supported, table, tsc_khz), a, smt_shift) != stamped_all(
            topology_template(supported, table, tsc_khz),
            b,
            smt_shift,
        ),
{
    law_vcpu_reads_its_topology(supported, table, tsc_khz, a, smt_shift, 0);
    law_vcpu_reads_its_topology(supported, table, tsc_khz, b, smt_shift, 0);
}

// ---------------------------------------------------------------------------
// Leaf by leaf
// ---------------------------------------------------------------------------

/// `t` holds the entries of one function as `s` does, in the same places, and no
/// more of them.
pub open spec fn keeps_leaf(s: Seq<KvmCpuidEntry>, t: Seq<KvmCpuidEntry>, function: u32) -> bool {
    &&& s.len() <= t.len()
    &&& forall|i: int|
        0 <= i < s.len() ==> (#[trigger] t[i]).function == s[i].function && (s[i].function
            == function ==> t[i] == s[i])
    &&& forall|i: int| s.len() <= i < t.len() ==> (#[trigger] t[i]).function != function
}

proof fn lemma_keeps_leaf_trans(
    a: Seq<KvmCpuidEntry>,
    b: Seq<KvmCpuidEntry>,
    c: Seq<KvmCpuidEntry>,
    function: u32,
)
    requires
        keeps_leaf(a, b, function),
        keeps_leaf(b, c, function),
    ensures
        keeps_leaf(a, c, function),
{
    assert forall|i: int| 0 <= i < a.len() implies (#[trigger] c[i]).function == a[i].function && (
    a[i].function == function ==> c[i] == a[i]) by {
        assert(b[i].function == a[i].function);
    }
    assert forall|i: int| a.len() <= i < c.len() implies (#[trigger] c[i]).function != function by {
        if i < b.len() {
            assert(b[i].function != function);
        }
    }
}

proof fn lemma_levels_keep_leaf(
    s: Seq<KvmCpuidEntry>,
    table: CpuidStealthTable,
    n: nat,
    function: u32,
)
    requires
        n <= 3,
        function != 0xB,
    ensures
        keeps_leaf(s, with_levels(s, table, n), function),
    decreases n,
{
    if n > 0 {
        let m: nat = (n - 1) as nat;
        lemma_levels_keep_leaf(s, table, m, function);
        let t = with_levels(s, table, m);
        law_find(t, subleaf(0xB, m as u32));
        lemma_keeps_leaf_trans(s, t, with_levels(s, table, n), function);
    }
}

/// `s` with the sharing count of the cache at `sub` taken from the table.
spec fn with_one_cache(s: Seq<KvmCpuidEntry>, table: CpuidStealthTable, sub: u32) -> Seq<
    KvmCpuidEntry,
> {
    let t = table.regs(0x8000_001D, sub).eax;
    let i = find(s, cache_leaf(0x8000_001D, sub, field(t, 0, 0xFF)));
    if i < s.len() {
        s.update(
            i,
            KvmCpuidEntry {
                eax: with_field(s[i].eax, 14, 0xFFF, field(t, 14, 0xFFF)),
                ..s[i]
            },
        )
    } else {
        s
    }
}

proof fn lemma_cache_keeps_leaf(
    s: Seq<KvmCpuidEntry>,
    table: CpuidStealthTable,
    sub: u32,
    function: u32,
)
    requires
        sub <= 16,
        function != 0x8000_001D,
    ensures
        keeps_leaf(s, with_cache_sharing(s, table, sub), function),
    decreases 16 - sub,
{
    let t = table.regs(0x8000_001D, sub).eax;
    if sub < 16 && field(t, 0, 0x1F) != 0 {
        let patched = with_one_cache(s, table, sub);
        law_find(s, cache_leaf(0x8000_001D, sub, field(t, 0, 0xFF)));
        lemma_cache_keeps_leaf(patched, table, (sub + 1) as u32, function);
        lemma_keeps_leaf_trans(
            s,
            patched,
            with_cache_sharing(patched, table, (sub + 1) as u32),
            function,
        );
    }
}

proof fn lemma_upserted_keeps(
    s: Seq<KvmCpuidEntry>,
    at: u32,
    r: CpuidRegs,
    function: u32,
)
    requires
        function != at,
    ensures
        keeps_leaf(s, upserted(s, at, r), function),
{
    law_find(s, leaf(at));
}

proof fn lemma_frequency_keeps_leaf(
    s: Seq<KvmCpuidEntry>,
    table: CpuidStealthTable,
    khz: Option<u32>,
    function: u32,
)
    requires
        table.regs(0x16, 0).eax == 0 || (function != 0 && function != 0x15 && function != 0x16),
    ensures
        keeps_leaf(s, with_frequency_leaves(s, table, khz), function),
{
    if table.regs(0x16, 0).eax != 0 {
        let rate = pinned_mhz(khz);
        let r15 = tsc_leaf(table.regs(0x15, 0), rate);
        let r16 = frequency_leaf(table.regs(0x16, 0), rate);
        let a = upserted(s, 0x15, r15);
        let b = upserted(a, 0x16, r16);
        lemma_upserted_keeps(s, 0x15, r15, function);
        lemma_upserted_keeps(a, 0x16, r16, function);
        law_find(b, leaf(0));
        lemma_keeps_leaf_trans(s, a, b, function);
        lemma_keeps_leaf_trans(s, b, with_max_leaf(b, 0x16), function);
    }
}

proof fn lemma_identity_keeps_leaf(
    s: Seq<KvmCpuidEntry>,
    table: CpuidStealthTable,
    function: u32,
)
    requires
        function != 0,
        function != 1,
        !(0x8000_0002 <= function <= 0x8000_0004),
    ensures
        keeps_leaf(s, with_identity_leaves(s, table), function),
{
    let a = with_vendor_regs(s, table.regs(0, 0));
    law_find(s, leaf(0));
    let b = with_signature(a, table.regs(1, 0).eax);
    law_find(a, leaf(1));
    lemma_keeps_leaf_trans(s, a, b, function);
    let c = upserted(b, 0x8000_0002, table.regs(0x8000_0002, 0));
    lemma_upserted_keeps(b, 0x8000_0002, table.regs(0x8000_0002, 0), function);
    lemma_keeps_leaf_trans(s, b, c, function);
    let d = upserted(c, 0x8000_0003, table.regs(0x8000_0003, 0));
    lemma_upserted_keeps(c, 0x8000_0003, table.regs(0x8000_0003, 0), function);
    lemma_keeps_leaf_trans(s, c, d, function);
    lemma_upserted_keeps(d, 0x8000_0004, table.regs(0x8000_0004, 0), function);
    lemma_keeps_leaf_trans(s, d, with_identity_leaves(s, table), function);
}

/// The supported entries with the topology levels set.
spec fn levelled(supported: Seq<KvmCpuidEntry>, table: CpuidStealthTable) -> Seq<KvmCpuidEntry> {
    let a = supported.map_values(|e: KvmCpuidEntry| without_hypervisor_bit(e));
    let b = a.map_values(|e: KvmCpuidEntry| with_package_width(e, table.regs(1, 0).ebx));
    with_levels(b, table, 3)
}

/// Up to the topology levels, only leaf 1 and leaf 0xB are touched.
proof fn lemma_levelled_keeps_leaf(
    supported: Seq<KvmCpuidEntry>,
    table: CpuidStealthTable,
    function: u32,
)
    requires
        function != 1,
        function != 0xB,
    ensures
        keeps_leaf(supported, levelled(supported, table), function),
{
    let a = supported.map_values(|e: KvmCpuidEntry| without_hypervisor_bit(e));
    let b = a.map_values(|e: KvmCpuidEntry| with_package_width(e, table.regs(1, 0).ebx));
    assert(keeps_leaf(supported, b, function));
    lemma_levels_keep_leaf(b, table, 3, function);
    lemma_keeps_leaf_trans(supported, b, levelled(supported, table), function);
}

/// Stamping an APIC id touches the identity leaves only.
proof fn lemma_stamp_keeps_leaf(
    s: Seq<KvmCpuidEntry>,
    apic_id: u32,
    smt_shift: u32,
    function: u32,
)
    requires
        function != 1,
        function != 0xB,
        function != 0x1F,
        function != 0x8000_001E,
    ensures
        keeps_leaf(s, stamped_all(s, apic_id, smt_shift), function),
{
}

/// From the counters on, only leaves 0, 0xA, 1, 0x15, 0x16 and the brand are
/// touched.
proof fn lemma_counters_and_after_keep_leaf(
    f: Seq<KvmCpuidEntry>,
    table: CpuidStealthTable,
    khz: Option<u32>,
    function: u32,
)
    requires
        function != 0,
        function != 1,
        function != 0xA,
        function != 0x15,
        function != 0x16,
        !(0x8000_0002 <= function <= 0x8000_0004),
    ensures
        keeps_leaf(
            f,
            with_identity_leaves(
                with_frequency_leaves(upserted(f, 0xA, table.regs(0xA, 0)), table, khz),
                table,
            ),
            function,
        ),
{
    let g = upserted(f, 0xA, table.regs(0xA, 0));
    let h = with_frequency_leaves(g, table, khz);
    lemma_upserted_keeps(f, 0xA, table.regs(0xA, 0), function);
    lemma_frequency_keeps_leaf(g, table, khz, function);
    lemma_identity_keeps_leaf(h, table, function);
    lemma_keeps_leaf_trans(f, g, h, function);
    lemma_keeps_leaf_trans(f, h, with_identity_leaves(h, table), function);
}

/// Every vCPU reads the guest's number of cores and the width of its APIC ids in
/// ECX of leaf 0x8000_0008, and there the host's EAX, EBX and EDX; the leaf is
/// there exactly if KVM supports it.
pub proof fn law_vcpu_reads_its_core_count(
    supported: Seq<KvmCpuidEntry>,
    table: CpuidStealthTable,
    tsc_khz: Option<u32>,
    apic_id: u32,
    smt_shift: u32,
)
    ensures
        ({
            let t = stamped_all(topology_template(supported, table, tsc_khz), apic_id, smt_shift);
            let i = find(supported, leaf(0x8000_0008));
            &&& find(t, leaf(0x8000_0008)) < t.len() <==> i < supported.len()
            &&& i < supported.len() ==> {
                &&& find(t, leaf(0x8000_0008)) == i
                &&& t[i].ecx == table.regs(0x8000_0008, 0).ecx
                &&& t[i].eax == supported[i].eax
                &&& t[i].ebx == supported[i].ebx
                &&& t[i].edx == supported[i].edx
                &&& t[i].index == supported[i].index && t[i].flags == supported[i].flags
            }
        }),
{
    let f0 = 0x8000_0008u32;
    let c = levelled(supported, table);
    lemma_levelled_keeps_leaf(supported, table, f0);
    lemma_kept_leaf(supported, c, f0);
    let d = with_core_count(c, table.regs(0x8000_0008, 0).ecx);
    law_find(c, leaf(f0));
    law_find(d, leaf(f0));
    if find(c, leaf(f0)) < c.len() {
        lemma_find_is(d, leaf(f0), find(c, leaf(f0)));
    }
    let e = with_cache_sharing(d, table, 0);
    lemma_cache_keeps_leaf(d, table, 0, f0);
    let f = with_smt_width(e, table.regs(0x8000_001E, 0).ebx);
    law_find(e, leaf(0x8000_001E));
    lemma_keeps_leaf_trans(d, e, f, f0);
    let t = topology_template(supported, table, tsc_khz);
    lemma_counters_and_after_keep_leaf(f, table, tsc_khz, f0);
    lemma_keeps_leaf_trans(d, f, t, f0);
    lemma_stamp_keeps_leaf(t, apic_id, smt_shift, f0);
    lemma_keeps_leaf_trans(d, t, stamped_all(t, apic_id, smt_shift), f0);
    lemma_kept_leaf(d, stamped_all(t, apic_id, smt_shift), f0);
}

/// Every vCPU reads, in leaf 0x8000_001E, its own APIC id in EAX, its core id in
/// the low byte of EBX and the guest's threads per core in the next, and the
/// host's values in everything else; the leaf is there exactly if KVM supports it.
pub proof fn law_vcpu_reads_its_thread_count(
    supported: Seq<KvmCpuidEntry>,
    table: CpuidStealthTable,
    tsc_khz: Option<u32>,
    apic_id: u32,
    smt_shift: u32,
)
    ensures
        ({
            let t = stamped_all(topology_template(supported, table, tsc_khz), apic_id, smt_shift);
            let i = find(supported, leaf(0x8000_001E));
            &&& find(t, leaf(0x8000_001E)) < t.len() <==> i < supported.len()
            &&& i < supported.len() ==> {
                &&& find(t, leaf(0x8000_001E)) == i
                &&& t[i].eax == apic_id
                &&& field(t[i].ebx, 0, 0xFF) == (apic_id >> smt_shift) & 0xFF
                &&& field(t[i].ebx, 8, 0xFF) == field(table.regs(0x8000_001E, 0).ebx, 8, 0xFF)
                &&& t[i].ebx & 0xFFFF_0000 == supported[i].ebx & 0xFFFF_0000
                &&& t[i].ecx == supported[i].ecx
                &&& t[i].edx == supported[i].edx
            }
        }),
{
    let f0 = 0x8000_001Eu32;
    let c = levelled(supported, table);
    lemma_levelled_keeps_leaf(supported, table, f0);
    let d = with_core_count(c, table.regs(0x8000_0008, 0).ecx);
    law_find(c, leaf(0x8000_0008));
    lemma_keeps_leaf_trans(supported, c, d, f0);
    let e = with_cache_sharing(d, table, 0);
    lemma_cache_keeps_leaf(d, table, 0, f0);
    lemma_keeps_leaf_trans(supported, d, e, f0);
    lemma_kept_leaf(supported, e, f0);
    let w = table.regs(0x8000_001E, 0).ebx;
    let f = with_smt_width(e, w);
    law_find(e, leaf(f0));
    law_find(f, leaf(f0));
    if find(e, leaf(f0)) < e.len() {
        lemma_find_is(f, leaf(f0), find(e, leaf(f0)));
    }
    let t = topology_template(supported, table, tsc_khz);
    lemma_counters_and_after_keep_leaf(f, table, tsc_khz, f0);
    lemma_kept_leaf(f, t, f0);
    lemma_stamp_moves_nothing(t, apic_id, smt_shift, f0);
    law_find(t, leaf(f0));
    let i = find(supported, leaf(f0));
    if i < supported.len() {
        law_stamp_writes_identity(t[i], apic_id, smt_shift);
        assert((0xFFu32 << 8) >> 8 == 0xFFu32 && (0xFFu32 << 0) >> 0 == 0xFFu32) by (bit_vector);
        let x = supported[i].ebx;
        let core = apic_id >> smt_shift;
        crate::bits::law_with_field(x, 8, 0xFF, field(w, 8, 0xFF));
        let y = with_field(x, 8, 0xFF, field(w, 8, 0xFF));
        crate::bits::law_with_field(y, 0, 0xFF, core);
        let z = with_field(y, 0, 0xFF, core);
        assert(z & 0xFFFF_0000 == x & 0xFFFF_0000 && ((w >> 8) & 0xFF) & 0xFF == (w >> 8) & 0xFF)
            by (bit_vector)
            requires
                y & !(0xFFu32 << 8) == x & !(0xFFu32 << 8),
                z & !(0xFFu32 << 0) == y & !(0xFFu32 << 0),
        ;
    }
}

/// What sharing counts leave alone: all leaves but 0x8000_001D, and there
/// everything but bits 25:14 of EAX.
spec fn keeps_caches(s: Seq<KvmCpuidEntry>, t: Seq<KvmCpuidEntry>) -> bool {
    &&& s.len() == t.len()
    &&& forall|i: int|
        0 <= i < s.len() ==> {
            &&& (#[trigger] t[i]).function == s[i].function
            &&& t[i].index == s[i].index && t[i].flags == s[i].flags
            &&& t[i].ebx == s[i].ebx && t[i].ecx == s[i].ecx && t[i].edx == s[i].edx
            &&& t[i].eax & !(0xFFFu32 << 14) == s[i].eax & !(0xFFFu32 << 14)
        }
}

proof fn lemma_sharing_bits(x: u32, v: u32)
    ensures
        ({
            let y = with_field(x, 14, 0xFFF, v);
            &&& field(y, 14, 0xFFF) == v & 0xFFF
            &&& y & !(0xFFFu32 << 14) == x & !(0xFFFu32 << 14)
            &&& field(y, 0, 0xFF) == field(x, 0, 0xFF)
        }),
{
    assert((0xFFFu32 << 14) >> 14 == 0xFFFu32) by (bit_vector);
    crate::bits::law_with_field(x, 14, 0xFFF, v);
    let y = with_field(x, 14, 0xFFF, v);
    assert((y >> 0) & 0xFF == (x >> 0) & 0xFF) by (bit_vector)
        requires
            y & !(0xFFFu32 << 14) == x & !(0xFFFu32 << 14),
    ;
}

proof fn lemma_cache_sharing(
    s: Seq<KvmCpuidEntry>,
    table: CpuidStealthTable,
    from: u32,
    sub: u32,
)
    requires
        from <= sub < 16,
        forall|j: u32|
            from <= j <= sub ==> field((#[trigger] table.regs(0x8000_001D, j)).eax, 0, 0x1F) != 0,
    ensures
        ({
            let t = with_cache_sharing(s, table, from);
            let r = table.regs(0x8000_001D, sub).eax;
            let i = find(s, cache_leaf(0x8000_001D, sub, field(r, 0, 0xFF)));
            i < s.len() ==> field(t[i].eax, 14, 0xFFF) == field(r, 14, 0xFFF)
        }),
    decreases 16 - from,
{
    let r = table.regs(0x8000_001D, sub).eax;
    let q = cache_leaf(0x8000_001D, sub, field(r, 0, 0xFF));
    let t0 = table.regs(0x8000_001D, from).eax;
    let q0 = cache_leaf(0x8000_001D, from, field(t0, 0, 0xFF));
    let patched = with_one_cache(s, table, from);
    let t = with_cache_sharing(s, table, from);
    law_find(s, q);
    law_find(s, q0);
    let i = find(s, q);
    let i0 = find(s, q0);
    assert(field(t0, 0, 0x1F) != 0);
    assert(t == with_cache_sharing(patched, table, (from + 1) as u32));
    if i < s.len() {
        if from == sub {
            lemma_sharing_bits(s[i].eax, field(r, 14, 0xFFF));
            assert(((r >> 14) & 0xFFF) & 0xFFF == (r >> 14) & 0xFFF) by (bit_vector);
            lemma_cache_leaves_index(patched, table, (from + 1) as u32, i);
        } else {
            if i0 < s.len() {
                lemma_sharing_bits(s[i0].eax, field(t0, 14, 0xFFF));
            }
            assert forall|j: int| 0 <= j < i implies !q.accepts(#[trigger] patched[j]) by {
                assert(!q.accepts(s[j]));
            }
            assert(q.accepts(patched[i]));
            lemma_find_is(patched, q, i);
            lemma_cache_sharing(patched, table, (from + 1) as u32, sub);
        }
    }
}

/// An entry whose sub-leaf comes before `from` is left alone.
proof fn lemma_cache_leaves_index(
    s: Seq<KvmCpuidEntry>,
    table: CpuidStealthTable,
    from: u32,
    i: int,
)
    requires
        from <= 16,
        0 <= i < s.len(),
        s[i].index < from,
    ensures
        with_cache_sharing(s, table, from)[i] == s[i],
    decreases 16 - from,
{
    let t = table.regs(0x8000_001D, from).eax;
    if from < 16 && field(t, 0, 0x1F) != 0 {
        law_find(s, cache_leaf(0x8000_001D, from, field(t, 0, 0xFF)));
        lemma_cache_leaves_index(with_one_cache(s, table, from), table, (from + 1) as u32, i);
    }
}

proof fn lemma_cache_keeps_the_rest(s: Seq<KvmCpuidEntry>, table: CpuidStealthTable, from: u32)
    requires
        from <= 16,
    ensures
        keeps_caches(s, with_cache_sharing(s, table, from)),
    decreases 16 - from,
{
    let t = table.regs(0x8000_001D, from).eax;
    if from < 16 && field(t, 0, 0x1F) != 0 {
        let q = cache_leaf(0x8000_001D, from, field(t, 0, 0xFF));
        let patched = with_one_cache(s, table, from);
        law_find(s, q);
        if find(s, q) < s.len() {
            lemma_sharing_bits(s[find(s, q)].eax, field(t, 14, 0xFFF));
        }
        assert(keeps_caches(s, patched));
        lemma_cache_keeps_the_rest(patched, table, (from + 1) as u32);
        let w = with_cache_sharing(patched, table, (from + 1) as u32);
        assert forall|i: int| 0 <= i < s.len() implies {
            &&& (#[trigger] w[i]).function == s[i].function
            &&& w[i].index == s[i].index && w[i].flags == s[i].flags
            &&& w[i].ebx == s[i].ebx && w[i].ecx == s[i].ecx && w[i].edx == s[i].edx
            &&& w[i].eax & !(0xFFFu32 << 14) == s[i].eax & !(0xFFFu32 << 14)
        } by {
            assert(patched[i].function == s[i].function);
        }
    }
}

/// Every vCPU reads, for each cache that the guest's table describes and KVM
/// supports with the same type and level, the guest's sharing count, and
/// otherwise the host's description of its caches.
pub proof fn law_vcpu_reads_its_cache_sharing(
    supported: Seq<KvmCpuidEntry>,
    table: CpuidStealthTable,
    tsc_khz: Option<u32>,
    apic_id: u32,
    smt_shift: u32,
    sub: u32,
    k: int,
)
    requires
        sub < 16,
        forall|j: u32|
            j <= sub ==> field((#[trigger] table.regs(0x8000_001D, j)).eax, 0, 0x1F) != 0,
    ensures
        ({
            let t = stamped_all(topology_template(supported, table, tsc_khz), apic_id, smt_shift);
            let r = table.regs(0x8000_001D, sub).eax;
            let i = find(supported, cache_leaf(0x8000_001D, sub, field(r, 0, 0xFF)));
            &&& i < supported.len() ==> field(t[i].eax, 14, 0xFFF) == field(r, 14, 0xFFF)
            &&& 0 <= k < supported.len() && supported[k].function == 0x8000_001D ==> {
                &&& t[k].function == 0x8000_001D && t[k].index == supported[k].index
                &&& t[k].ebx == supported[k].ebx && t[k].ecx == supported[k].ecx && t[k].edx
                    == supported[k].edx
                &&& t[k].eax & !(0xFFFu32 << 14) == supported[k].eax & !(0xFFFu32 << 14)
            }
        }),
{
    let f0 = 0x8000_001Du32;
    let r = table.regs(f0, sub).eax;
    let q = cache_leaf(f0, sub, field(r, 0, 0xFF));
    let c = levelled(supported, table);
    lemma_levelled_keeps_leaf(supported, table, f0);
    let d = with_core_count(c, table.regs(0x8000_0008, 0).ecx);
    law_find(c, leaf(0x8000_0008));
    lemma_keeps_leaf_trans(supported, c, d, f0);
    let e = with_cache_sharing(d, table, 0);
    law_find(supported, q);
    let i = find(supported, q);
    if i < supported.len() {
        assert(d[i] == supported[i]);
        assert forall|j: int| 0 <= j < i implies !q.accepts(#[trigger] d[j]) by {
            assert(!q.accepts(supported[j]));
            assert(d[j].function == supported[j].function);
        }
        lemma_find_is(d, q, i);
        lemma_cache_sharing(d, table, 0, sub);
    }
    lemma_cache_keeps_the_rest(d, table, 0);
    let f = with_smt_width(e, table.regs(0x8000_001E, 0).ebx);
    law_find(e, leaf(0x8000_001E));
    let t = topology_template(supported, table, tsc_khz);
    lemma_counters_and_after_keep_leaf(f, table, tsc_khz, f0);
    assert(keeps_leaf(e, f, f0));
    lemma_keeps_leaf_trans(e, f, t, f0);
    lemma_stamp_keeps_leaf(t, apic_id, smt_shift, f0);
    let w = stamped_all(t, apic_id, smt_shift);
    lemma_keeps_leaf_trans(e, t, w, f0);
    if i < supported.len() {
        assert(e[i].function == d[i].function);
        assert(w[i] == e[i]);
    }
    if 0 <= k < supported.len() && supported[k].function == f0 {
        assert(d[k] == supported[k]);
        assert(e[k].function == d[k].function);
        assert(w[k] == e[k]);
    }
}

/// Kilohertz are rounded to the nearest megahertz.
pub proof fn law_mhz_is_nearest(khz: u32)
    requires
        khz + 500 <= u32::MAX,
    ensures
        1000 * mhz(khz) <= khz + 500 < 1000 * mhz(khz) + 1000,
{
}

/// Where the guest's table has a frequency, every vCPU reads it in leaves 0x15 and
/// 0x16: at a measured rate of at least half a megahertz that rate, rounded to
/// megahertz, as the ratio over the table's crystal and as the base frequency,
/// with a maximum that is not below it; without one the table's own values.
pub proof fn law_vcpu_reads_its_frequency(
    supported: Seq<KvmCpuidEntry>,
    table: CpuidStealthTable,
    tsc_khz: Option<u32>,
    apic_id: u32,
    smt_shift: u32,
)
    requires
        table.regs(0x16, 0).eax != 0,
        tsc_khz matches Some(khz) ==> khz + 500 <= u32::MAX,
    ensures
        ({
            let t = stamped_all(topology_template(supported, table, tsc_khz), apic_id, smt_shift);
            let c = table.regs(0x15, 0);
            let b = table.regs(0x16, 0);
            let x = t[find(t, leaf(0x15))];
            let y = t[find(t, leaf(0x16))];
            let rate: int = match tsc_khz {
                Some(khz) => (khz + 500) / 1000,
                None => 0,
            };
            &&& find(t, leaf(0x15)) < t.len()
            &&& find(t, leaf(0x16)) < t.len()
            &&& x.index == 0 && y.index == 0
            &&& x.eax == c.eax && x.ecx == c.ecx && x.edx == c.edx
            &&& y.ecx == b.ecx && y.edx == b.edx
            &&& rate == 0 ==> x.ebx == c.ebx && y.eax == b.eax && y.ebx == b.ebx
            &&& rate != 0 ==> x.ebx == rate && y.eax == rate && y.ebx == (if b.ebx < rate {
                rate
            } else {
                b.ebx as int
            })
        }),
{
    let c = levelled(supported, table);
    let d = with_core_count(c, table.regs(0x8000_0008, 0).ecx);
    let e = with_cache_sharing(d, table, 0);
    let f = with_smt_width(e, table.regs(0x8000_001E, 0).ebx);
    let g = upserted(f, 0xA, table.regs(0xA, 0));
    let rate = pinned_mhz(tsc_khz);
    let r15 = tsc_leaf(table.regs(0x15, 0), rate);
    let r16 = frequency_leaf(table.regs(0x16, 0), rate);
    let h1 = upserted(g, 0x15, r15);
    let h2 = upserted(h1, 0x16, r16);
    let h = with_max_leaf(h2, 0x16);
    law_upserted_reads_back(g, 0x15, r15);
    law_upserted_reads_back(h1, 0x16, r16);
    lemma_upserted_keeps_leaf(h1, 0x16, r16, 0x15);
    law_find(h2, leaf(0));
    law_find(h2, leaf(0x15));
    law_find(h2, leaf(0x16));
    assert(keeps_leaf(h2, h, 0x15));
    assert(keeps_leaf(h2, h, 0x16));
    let t = topology_template(supported, table, tsc_khz);
    assert(t == with_identity_leaves(h, table));
    lemma_identity_keeps_leaf(h, table, 0x15);
    lemma_identity_keeps_leaf(h, table, 0x16);
    let w = stamped_all(t, apic_id, smt_shift);
    lemma_stamp_keeps_leaf(t, apic_id, smt_shift, 0x15);
    lemma_stamp_keeps_leaf(t, apic_id, smt_shift, 0x16);
    lemma_keeps_leaf_trans(h2, h, t, 0x15);
    lemma_keeps_leaf_trans(h2, h, t, 0x16);
    lemma_keeps_leaf_trans(h2, t, w, 0x15);
    lemma_keeps_leaf_trans(h2, t, w, 0x16);
    lemma_kept_leaf(h2, w, 0x15);
    lemma_kept_leaf(h2, w, 0x16);
}

/// Every vCPU reads, in leaf 0, the host's highest leaf, raised to 0x16 where the
/// guest's table has a frequency and the host's is lower.
pub proof fn law_vcpu_reads_its_highest_leaf(
    supported: Seq<KvmCpuidEntry>,
    table: CpuidStealthTable,
    tsc_khz: Option<u32>,
    apic_id: u32,
    smt_shift: u32,
)
    ensures
        ({
            let t = stamped_all(topology_template(supported, table, tsc_khz), apic_id, smt_shift);
            let i = find(supported, leaf(0));
            &&& find(t, leaf(0)) < t.len() <==> i < supported.len()
            &&& i < supported.len() ==> find(t, leaf(0)) == i && t[i].eax == (if table.regs(
                0x16,
                0,
            ).eax != 0 && supported[i].eax < 0x16 {
                0x16
            } else {
                supported[i].eax
            })
        }),
{
    let c = levelled(supported, table);
    lemma_levelled_keeps_leaf(supported, table, 0);
    let d = with_core_count(c, table.regs(0x8000_0008, 0).ecx);
    law_find(c, leaf(0x8000_0008));
    lemma_keeps_leaf_trans(supported, c, d, 0);
    let e = with_cache_sharing(d, table, 0);
    lemma_cache_keeps_leaf(d, table, 0, 0);
    lemma_keeps_leaf_trans(supported, d, e, 0);
    let f = with_smt_width(e, table.regs(0x8000_001E, 0).ebx);
    law_find(e, leaf(0x8000_001E));
    lemma_keeps_leaf_trans(supported, e, f, 0);
    let g = upserted(f, 0xA, table.regs(0xA, 0));
    lemma_upserted_keeps(f, 0xA, table.regs(0xA, 0), 0);
    lemma_keeps_leaf_trans(supported, f, g, 0);
    lemma_kept_leaf(supported, g, 0);
    let h = with_frequency_leaves(g, table, tsc_khz);
    if table.regs(0x16, 0).eax != 0 {
        let rate = pinned_mhz(tsc_khz);
        let r15 = tsc_leaf(table.regs(0x15, 0), rate);
        let r16 = frequency_leaf(table.regs(0x16, 0), rate);
        let h1 = upserted(g, 0x15, r15);
        let h2 = upserted(h1, 0x16, r16);
        lemma_upserted_keeps(g, 0x15, r15, 0);
        lemma_upserted_keeps(h1, 0x16, r16, 0);
        lemma_keeps_leaf_trans(g, h1, h2, 0);
        lemma_kept_leaf(g, h2, 0);
        law_find(h2, leaf(0));
        law_find(h, leaf(0));
        if find(h2, leaf(0)) < h2.len() {
            lemma_find_is(h, leaf(0), find(h2, leaf(0)));
        }
    }
    let a1 = with_vendor_regs(h, table.regs(0, 0));
    law_find(h, leaf(0));
    law_find(a1, leaf(0));
    if find(h, leaf(0)) < h.len() {
        lemma_find_is(a1, leaf(0), find(h, leaf(0)));
    }
    let a2 = with_signature(a1, table.regs(1, 0).eax);
    law_find(a1, leaf(1));
    let r2 = table.regs(0x8000_0002, 0);
    let r3 = table.regs(0x8000_0003, 0);
    let r4 = table.regs(0x8000_0004, 0);
    let a3 = upserted(a2, 0x8000_0002, r2);
    let a4 = upserted(a3, 0x8000_0003, r3);
    let a5 = upserted(a4, 0x8000_0004, r4);
    lemma_upserted_keeps(a2, 0x8000_0002, r2, 0);
    lemma_upserted_keeps(a3, 0x8000_0003, r3, 0);
    lemma_upserted_keeps(a4, 0x8000_0004, r4, 0);
    assert(keeps_leaf(a1, a2, 0));
    lemma_keeps_leaf_trans(a1, a2, a3, 0);
    lemma_keeps_leaf_trans(a1, a3, a4, 0);
    lemma_keeps_leaf_trans(a1, a4, a5, 0);
    let t = topology_template(supported, table, tsc_khz);
    assert(t == a5);
    lemma_stamp_keeps_leaf(t, apic_id, smt_shift, 0);
    lemma_keeps_leaf_trans(a1, t, stamped_all(t, apic_id, smt_shift), 0);
    lemma_kept_leaf(a1, stamped_all(t, apic_id, smt_shift), 0);
}

/// Every vCPU reads the host's features in leaf 1: EDX as KVM supports it, ECX but
/// for the hypervisor-present bit, and the low half of EBX; its top byte is the
/// vCPU's APIC id.
pub proof fn law_vcpu_reads_the_host_features(
    supported: Seq<KvmCpuidEntry>,
    table: CpuidStealthTable,
    tsc_khz: Option<u32>,
    apic_id: u32,
    smt_shift: u32,
    i: int,
)
    requires
        0 <= i < supported.len(),
        supported[i].function == 1,
    ensures
        ({
            let t = stamped_all(topology_template(supported, table, tsc_khz), apic_id, smt_shift);
            &&& i < t.len() && t[i].function == 1
            &&& t[i].edx == supported[i].edx
            &&& t[i].ecx == supported[i].ecx & 0x7FFF_FFFF
            &&& t[i].ebx & 0xFFFF == supported[i].ebx & 0xFFFF
            &&& field(t[i].ebx, 24, 0xFF) == apic_id & 0xFF
        }),
{
    let w = table.regs(1, 0).ebx;
    let a = supported.map_values(|e: KvmCpuidEntry| without_hypervisor_bit(e));
    let b = a.map_values(|e: KvmCpuidEntry| with_package_width(e, w));
    let c = with_levels(b, table, 3);
    law_template_refines_supported(supported, table, tsc_khz);
    let t = lemma_template_keeps_topology(c, table, tsc_khz);
    assert(t == topology_template(supported, table, tsc_khz));
    lemma_levels_keep_features(b, table, 3);
    assert(t[i].function == c[i].function && c[i].function == b[i].function);
    assert(t[i].ebx == b[i].ebx);
    let x = supported[i].ecx;
    crate::bits::law_clearing_bit_31(x);
    let p = supported[i].ebx;
    let q = b[i].ebx;
    assert((0xFFu32 << 16) >> 16 == 0xFFu32) by (bit_vector);
    crate::bits::law_with_field(p, 16, 0xFF, field(w, 16, 0xFF));
    law_stamp_writes_identity(t[i], apic_id, smt_shift);
    let z = stamped(t[i], apic_id, smt_shift).ebx;
    assert(z & 0xFFFF == p & 0xFFFF) by (bit_vector)
        requires
            z & 0xFF_FFFF == q & 0xFF_FFFF,
            q & !(0xFFu32 << 16) == p & !(0xFFu32 << 16),
    ;
}

/// A leaf that is none of the guest's own, and carries no APIC id, is read by
/// every vCPU just as KVM supports it.
pub proof fn law_vcpu_reads_other_leaves_as_supported(
    supported: Seq<KvmCpuidEntry>,
    table: CpuidStealthTable,
    tsc_khz: Option<u32>,
    apic_id: u32,
    smt_shift: u32,
    i: int,
)
    requires
        0 <= i < supported.len(),
        ({
            let f = supported[i].function;
            &&& f != 0 && f != 1 && f != 0xA && f != 0xB && f != 0x15 && f != 0x16 && f != 0x1F
            &&& !(0x8000_0002 <= f <= 0x8000_0004)
            &&& f != 0x8000_0008 && f != 0x8000_001D && f != 0x8000_001E
        }),
    ensures
        stamped_all(topology_template(supported, table, tsc_khz), apic_id, smt_shift)[i]
            == supported[i],
{
    law_template_refines_supported(supported, table, tsc_khz);
    let a = supported.map_values(|e: KvmCpuidEntry| without_hypervisor_bit(e));
    let t = topology_template(supported, table, tsc_khz);
    assert(a[i] == supported[i]);
    assert(t[i].function == a[i].function);
    assert(t[i] == a[i]);
}

/// Where the counters alone are taken from the table, the guest reads them in
/// leaf 0xA, no hypervisor in leaf 1, and every other leaf as KVM supports it.
pub proof fn law_pmu_template_changes_counters_only(
    supported: Seq<KvmCpuidEntry>,
    table: CpuidStealthTable,
    i: int,
)
    requires
        0 <= i < supported.len(),
    ensures
        ({
            let t = pmu_template(supported, table);
            let e = supported[i];
            &&& shows_counters(t, table)
            &&& i < t.len() && t[i].function == e.function
            &&& e.function == 1 ==> t[i].ecx == e.ecx & 0x7FFF_FFFF && t[i].eax == e.eax
                && t[i].ebx == e.ebx && t[i].edx == e.edx
            &&& e.function != 1 && e.function != 0xA ==> t[i] == e
        }),
{
    let a = supported.map_values(|e: KvmCpuidEntry| without_hypervisor_bit(e));
    law_upserted_reads_back(a, 0xA, table.regs(0xA, 0));
    law_find(a, leaf(0xA));
    let x = supported[i].ecx;
    crate::bits::law_clearing_bit_31(x);
}

/// The hypervisor-present bit, and nothing else, is cleared in feature leaves, and
/// no other leaf changes.
pub proof fn law_only_the_hypervisor_bit_is_cleared(e: KvmCpuidEntry)
    ensures
        ({
            let r = without_hypervisor_bit(e);
            &&& r.function == e.function && r.index == e.index && r.flags == e.flags
            &&& r.eax == e.eax && r.ebx == e.ebx && r.edx == e.edx
            &&& e.function == 1 ==> r.ecx == e.ecx & 0x7FFF_FFFF
            &&& e.function != 1 ==> r.ecx == e.ecx
        }),
{
    let x = e.ecx;
    crate::bits::law_clearing_bit_31(x);
}

proof fn lemma_levels_indexed(s: Seq<KvmCpuidEntry>, table: CpuidStealthTable, n: nat, sub: u32)
    requires
        sub < n <= 3,
    ensures
        ({
            let t = with_levels(s, table, n);
            let i = find(t, subleaf(0xB, sub));
            i < t.len() && t[i].flags & 1 == 1
        }),
    decreases n,
{
    let m: nat = (n - 1) as nat;
    let t = with_levels(s, table, m);
    let u = with_levels(s, table, n);
    law_find(t, subleaf(0xB, m as u32));
    let k = find(t, subleaf(0xB, m as u32));
    if sub == m {
        lemma_find_is(u, subleaf(0xB, sub), k);
        if k < t.len() {
            let flags = t[k].flags;
            assert((flags | 1u32) & 1 == 1) by (bit_vector);
        } else {
            assert(1u32 & 1 == 1) by (bit_vector);
        }
    } else {
        lemma_levels_indexed(s, table, m, sub);
        law_find(t, subleaf(0xB, sub));
        let j = find(t, subleaf(0xB, sub));
        assert(j != k);
        assert forall|x: int| 0 <= x < j implies !subleaf(0xB, sub).accepts(#[trigger] u[x]) by {
            assert(!subleaf(0xB, sub).accepts(t[x]));
        }
        lemma_find_is(u, subleaf(0xB, sub), j);
    }
}

/// Each of the three topology levels that a vCPU reads is marked as one of
/// several: bit 0 of its flags says that its index counts.
pub proof fn law_topology_levels_are_told_apart(
    supported: Seq<KvmCpuidEntry>,
    table: CpuidStealthTable,
    tsc_khz: Option<u32>,
    apic_id: u32,
    smt_shift: u32,
    sub: u32,
)
    requires
        sub < 3,
    ensures
        ({
            let t = stamped_all(topology_template(supported, table, tsc_khz), apic_id, smt_shift);
            let i = find(t, subleaf(0xB, sub));
            i < t.len() && t[i].index == sub && t[i].flags & 1 == 1
        }),
{
    let c = levelled(supported, table);
    let a = supported.map_values(|e: KvmCpuidEntry| without_hypervisor_bit(e));
    let b = a.map_values(|e: KvmCpuidEntry| with_package_width(e, table.regs(1, 0).ebx));
    lemma_levels_indexed(b, table, 3, sub);
    let t = lemma_template_keeps_topology(c, table, tsc_khz);
    let u = stamped_all(t, apic_id, smt_shift);
    let q = subleaf(0xB, sub);
    law_find(c, q);
    let i = find(c, q);
    assert(t[i] == c[i]);
    assert forall|x: int| 0 <= x < i implies !q.accepts(#[trigger] u[x]) by {
        assert(!q.accepts(c[x]));
        assert(t[x].function == c[x].function);
    }
    lemma_find_is(u, q, i);
}

/// A new entry is blank but for what is put into it.
pub proof fn law_new_entries_are_blank(function: u32, r: CpuidRegs)
    ensures
        ({
            let z = zero_entry();
            let e = new_entry(function, r);
            &&& z.function == 0 && z.index == 0 && z.flags == 0
            &&& z.eax == 0 && z.ebx == 0 && z.ecx == 0 && z.edx == 0
            &&& z.padding@ == seq![0u32, 0u32, 0u32]
            &&& e.function == function && e.index == 0 && e.flags == 0
            &&& e.eax == r.eax && e.ebx == r.ebx && e.ecx == r.ecx && e.edx == r.edx
            &&& e.padding@ == seq![0u32, 0u32, 0u32]
        }),
{
    assert(zero_entry().padding@ =~= seq![0u32, 0u32, 0u32]);
}

} // verus!
