//! Second-level page tables for guest memory isolation.
//!
//! Per-guest tables with write protection per page, tracking of the pages
//! that were written, and large pages.
use crate::text::{hex, push_hex};
use std::collections::BTreeMap;
use std::collections::HashSet;
use vstd::prelude::*;
use vstd::std_specs::cmp::OrdSpec;
use vstd::std_specs::iter::IteratorSpec;
use vstd::string::*;

verus! {

broadcast use {
    vstd::std_specs::btree::group_btree_axioms,
    vstd::std_specs::hash::group_hash_axioms,
    vstd::laws_cmp::group_laws_cmp,
};

/// The size of a small page.
pub const PAGE_SIZE_4K: u64 = 0x1000;

/// The size of a large page.
pub const PAGE_SIZE_2M: u64 = 0x20_0000;

/// The size of a huge page.
pub const PAGE_SIZE_1G: u64 = 0x4000_0000;

/// Permissions of a page.
#[derive(Debug, Clone, Copy, PartialEq, Eq, Structural)]
pub struct EptPermissions {
    pub read: bool,
    pub write: bool,
    pub execute: bool,
}

impl EptPermissions {
    /// Read, write and execute.
    #[must_use]
    pub fn rwx() -> (r: Self)
        ensures
            r == (EptPermissions { read: true, write: true, execute: true }),
    {
        EptPermissions { read: true, write: true, execute: true }
    }

    /// Read and execute.
    #[must_use]
    pub fn rx() -> (r: Self)
        ensures
            r == (EptPermissions { read: true, write: false, execute: true }),
    {
        EptPermissions { read: true, write: false, execute: true }
    }

    /// Read and write.
    #[must_use]
    pub fn rw() -> (r: Self)
        ensures
            r == (EptPermissions { read: true, write: true, execute: false }),
    {
        EptPermissions { read: true, write: true, execute: false }
    }

    /// Read only.
    #[must_use]
    pub fn ro() -> (r: Self)
        ensures
            r == (EptPermissions { read: true, write: false, execute: false }),
    {
        EptPermissions { read: true, write: false, execute: false }
    }

    /// No access.
    #[must_use]
    pub fn none() -> (r: Self)
        ensures
            r == (EptPermissions { read: false, write: false, execute: false }),
    {
        EptPermissions { read: false, write: false, execute: false }
    }
}

impl Default for EptPermissions {
    fn default() -> (r: Self)
        ensures
            r.read && r.write && r.execute,
    {
        EptPermissions { read: true, write: true, execute: true }
    }
}

/// Memory type of a page.
#[derive(Debug, Clone, Copy, PartialEq, Eq, Structural)]
pub enum EptMemoryType {
    Uncacheable,
    WriteCombining,
    WriteThrough,
    WriteProtected,
    WriteBack,
}

impl Default for EptMemoryType {
    fn default() -> (r: Self)
        ensures
            r == EptMemoryType::WriteBack,
    {
        EptMemoryType::WriteBack
    }
}

impl EptMemoryType {
    /// The code of the type in a table entry.
    pub open spec fn code_of(self) -> u8 {
        match self {
            EptMemoryType::Uncacheable => 0,
            EptMemoryType::WriteCombining => 1,
            EptMemoryType::WriteThrough => 4,
            EptMemoryType::WriteProtected => 5,
            EptMemoryType::WriteBack => 6,
        }
    }

    /// The code of the type in a table entry.
    #[must_use]
    pub fn code(&self) -> (r: u8)
        ensures
            r == self.code_of(),
    {
        match self {
            EptMemoryType::Uncacheable => 0,
            EptMemoryType::WriteCombining => 1,
            EptMemoryType::WriteThrough => 4,
            EptMemoryType::WriteProtected => 5,
            EptMemoryType::WriteBack => 6,
        }
    }
}

/// Page size used for a mapping.
#[derive(Debug, Clone, Copy, PartialEq, Eq, Structural)]
pub enum PageSize {
    Page4K,
    Page2M,
    Page1G,
}

impl PageSize {
    /// The size in bytes.
    pub open spec fn size(self) -> u64 {
        match self {
            PageSize::Page4K => PAGE_SIZE_4K,
            PageSize::Page2M => PAGE_SIZE_2M,
            PageSize::Page1G => PAGE_SIZE_1G,
        }
    }

    /// The size in bytes.
    #[must_use]
    pub fn bytes(&self) -> (r: u64)
        ensures
            r == self.size(),
    {
        match self {
            PageSize::Page4K => PAGE_SIZE_4K,
            PageSize::Page2M => PAGE_SIZE_2M,
            PageSize::Page1G => PAGE_SIZE_1G,
        }
    }

    /// The short name of the size.
    #[must_use]
    pub fn name(&self) -> (r: String)
        ensures
            r@ == (match self {
                PageSize::Page4K => "4K"@,
                PageSize::Page2M => "2M"@,
                PageSize::Page1G => "1G"@,
            }),
    {
        match self {
            PageSize::Page4K => "4K".to_owned(),
            PageSize::Page2M => "2M".to_owned(),
            PageSize::Page1G => "1G".to_owned(),
        }
    }
}

/// A single mapping.
#[derive(Debug, Clone, Copy, PartialEq, Eq, Structural)]
pub struct EptMapping {
    /// Guest physical address, page-aligned.
    pub gpa: u64,
    /// Host physical address, page-aligned.
    pub hpa: u64,
    /// Page size of this mapping.
    pub page_size: PageSize,
    /// Current permissions.
    pub permissions: EptPermissions,
    /// Memory type.
    pub memory_type: EptMemoryType,
    /// Whether the page was written since the dirty pages were last taken.
    pub dirty: bool,
    /// Whether write protection overrides the permissions.
    pub write_protected: bool,
}

impl EptMapping {
    /// The permissions, without writing where the page is write-protected.
    #[must_use]
    pub fn effective_permissions(&self) -> (r: EptPermissions)
        ensures
            r.read == self.permissions.read,
            r.execute == self.permissions.execute,
            r.write == (self.permissions.write && !self.write_protected),
    {
        if self.write_protected {
            EptPermissions { write: false, ..self.permissions }
        } else {
            self.permissions
        }
    }
}

/// Operation statistics.
#[derive(Debug, Clone, Copy, PartialEq, Eq, Structural)]
pub struct EptStats {
    pub total_mappings: u64,
    pub write_protected_count: u64,
    pub dirty_page_count: u64,
    pub total_mapped_bytes: u64,
    pub map_operations: u64,
    pub unmap_operations: u64,
    pub protect_operations: u64,
    pub dirty_clears: u64,
}

/// No operation yet.
pub open spec fn no_stats() -> EptStats {
    EptStats {
        total_mappings: 0,
        write_protected_count: 0,
        dirty_page_count: 0,
        total_mapped_bytes: 0,
        map_operations: 0,
        unmap_operations: 0,
        protect_operations: 0,
        dirty_clears: 0,
    }
}

impl Default for EptStats {
    fn default() -> (r: Self)
        ensures
            r == no_stats(),
    {
        EptStats {
            total_mappings: 0,
            write_protected_count: 0,
            dirty_page_count: 0,
            total_mapped_bytes: 0,
            map_operations: 0,
            unmap_operations: 0,
            protect_operations: 0,
            dirty_clears: 0,
        }
    }
}

/// What can go wrong with a table operation.
#[derive(Debug, Clone, Copy, PartialEq, Eq, Structural)]
pub enum EptError {
    MisalignedGpa { gpa: u64, required_alignment: u64 },
    MisalignedHpa { hpa: u64, required_alignment: u64 },
    AlreadyMapped { gpa: u64 },
    NotMapped { gpa: u64 },
    OverlappingMapping { gpa: u64, existing_gpa: u64 },
}

/// What an error prints as.
pub open spec fn ept_error_text(e: EptError) -> Seq<char> {
    match e {
        EptError::MisalignedGpa { gpa, required_alignment } => "GPA "@ + hex(gpa as nat)
            + " not aligned to "@ + hex(required_alignment as nat),
        EptError::MisalignedHpa { hpa, required_alignment } => "HPA "@ + hex(hpa as nat)
            + " not aligned to "@ + hex(required_alignment as nat),
        EptError::AlreadyMapped { gpa } => "GPA "@ + hex(gpa as nat) + " already mapped"@,
        EptError::NotMapped { gpa } => "GPA "@ + hex(gpa as nat) + " not mapped"@,
        EptError::OverlappingMapping { gpa, existing_gpa } => "GPA "@ + hex(gpa as nat)
            + " overlaps with existing mapping at "@ + hex(existing_gpa as nat),
    }
}

impl EptError {
    /// The text of the error.
    #[must_use]
    pub fn message(&self) -> (r: String)
        ensures
            r@ == ept_error_text(*self),
    {
        let mut out: String = String::new();
        match self {
            EptError::MisalignedGpa { gpa, required_alignment } => {
                out.append("GPA ");
                push_hex(&mut out, *gpa);
                out.append(" not aligned to ");
                push_hex(&mut out, *required_alignment);
            },
            EptError::MisalignedHpa { hpa, required_alignment } => {
                out.append("HPA ");
                push_hex(&mut out, *hpa);
                out.append(" not aligned to ");
                push_hex(&mut out, *required_alignment);
            },
            EptError::AlreadyMapped { gpa } => {
                out.append("GPA ");
                push_hex(&mut out, *gpa);
                out.append(" already mapped");
            },
            EptError::NotMapped { gpa } => {
                out.append("GPA ");
                push_hex(&mut out, *gpa);
                out.append(" not mapped");
            },
            EptError::OverlappingMapping { gpa, existing_gpa } => {
                out.append("GPA ");
                push_hex(&mut out, *gpa);
                out.append(" overlaps with existing mapping at ");
                push_hex(&mut out, *existing_gpa);
            },
        }
        out
    }
}

// ---------------------------------------------------------------------------
// The state of a guest's tables
// ---------------------------------------------------------------------------

/// What an [`EptManager`] stands for.
pub struct EptView {
    /// The mappings by guest address.
    pub mappings: Map<u64, EptMapping>,
    /// The write-protected guest addresses.
    pub protected: Set<u64>,
    /// The dirty guest addresses.
    pub dirty: Set<u64>,
    /// Whether writes are tracked.
    pub tracking: bool,
    pub stats: EptStats,
}

/// The sum of the sizes of all mapped pages.
pub open spec fn mapped_size(m: Map<u64, EptMapping>) -> int
    decreases m.dom().len(),
    when m.dom().finite()
{
    if m.dom().len() == 0 {
        0
    } else {
        let k: u64 = m.dom().choose();
        m[k].page_size.size() + mapped_size(m.remove(k))
    }
}

proof fn lemma_mapped_size_remove(m: Map<u64, EptMapping>, k: u64)
    requires
        m.dom().finite(),
        m.contains_key(k),
    ensures
        mapped_size(m) == m[k].page_size.size() + mapped_size(m.remove(k)),
    decreases m.dom().len(),
{
    let c: u64 = m.dom().choose();
    assert(m.dom().len() > 0) by {
        vstd::set::axiom_set_contains_len(m.dom(), k);
    }
    assert(m.contains_key(c));
    if c != k {
        let mc = m.remove(c);
        let mk = m.remove(k);
        lemma_mapped_size_remove(mc, k);
        lemma_mapped_size_remove(mk, c);
        assert(mc.remove(k) == mk.remove(c));
    }
}

/// A page takes at least one small page.
proof fn lemma_mapped_size_bound(m: Map<u64, EptMapping>)
    requires
        m.dom().finite(),
    ensures
        mapped_size(m) >= PAGE_SIZE_4K * m.dom().len(),
    decreases m.dom().len(),
{
    if m.dom().len() > 0 {
        let k: u64 = m.dom().choose();
        assert(m.contains_key(k));
        lemma_mapped_size_bound(m.remove(k));
    }
}

proof fn lemma_mapped_size_insert(m: Map<u64, EptMapping>, k: u64, e: EptMapping)
    requires
        m.dom().finite(),
    ensures
        mapped_size(m.insert(k, e)) == e.page_size.size() + mapped_size(m.remove(k)),
{
    let t = m.insert(k, e);
    lemma_mapped_size_remove(t, k);
    assert(t.remove(k) == m.remove(k));
}

/// A change that keeps the page sizes keeps their sum.
proof fn lemma_mapped_size_same(a: Map<u64, EptMapping>, b: Map<u64, EptMapping>)
    requires
        a.dom().finite(),
        a.dom() == b.dom(),
        forall|k: u64| #[trigger] a.contains_key(k) ==> a[k].page_size == b[k].page_size,
    ensures
        mapped_size(a) == mapped_size(b),
    decreases a.dom().len(),
{
    if a.dom().len() > 0 {
        let k: u64 = a.dom().choose();
        assert(a.contains_key(k));
        let ra = a.remove(k);
        let rb = b.remove(k);
        assert(ra.dom() =~= rb.dom());
        assert forall|j: u64| #[trigger] ra.contains_key(j) implies ra[j].page_size
            == rb[j].page_size by {
            assert(a.contains_key(j));
        }
        lemma_mapped_size_same(ra, rb);
    }
}

impl EptView {
    /// The invariant: every mapping stands under its address, whole pages at
    /// page boundaries; the two sets hold exactly the pages whose mappings
    /// say so; and the counters agree with the tables.
    pub open spec fn wf(self) -> bool {
        &&& self.mappings.dom().finite()
        &&& self.protected.finite()
        &&& self.dirty.finite()
        &&& forall|k: u64| #[trigger]
            self.mappings.contains_key(k) ==> {
                &&& self.mappings[k].gpa == k
                &&& k % self.mappings[k].page_size.size() == 0
                &&& self.mappings[k].hpa % self.mappings[k].page_size.size() == 0
            }
        &&& forall|k: u64| #[trigger]
            self.protected.contains(k) <==> self.mappings.contains_key(k)
                && self.mappings[k].write_protected
        &&& forall|k: u64| #[trigger]
            self.dirty.contains(k) <==> self.mappings.contains_key(k) && self.mappings[k].dirty
        &&& self.stats.total_mappings == self.mappings.dom().len()
        &&& self.stats.write_protected_count == self.protected.len()
        &&& self.stats.total_mapped_bytes == mapped_size(self.mappings)
    }

    /// A new mapping: clean and not write-protected.
    pub open spec fn fresh(
        gpa: u64,
        hpa: u64,
        page_size: PageSize,
        permissions: EptPermissions,
        memory_type: EptMemoryType,
    ) -> EptMapping {
        EptMapping {
            gpa,
            hpa,
            page_size,
            permissions,
            memory_type,
            dirty: false,
            write_protected: false,
        }
    }

    /// What keeps a page from being mapped.
    pub open spec fn map_error(self, gpa: u64, hpa: u64, page_size: PageSize) -> Option<EptError> {
        let size = page_size.size();
        if gpa % size != 0 {
            Some(EptError::MisalignedGpa { gpa, required_alignment: size })
        } else if hpa % size != 0 {
            Some(EptError::MisalignedHpa { hpa, required_alignment: size })
        } else if self.mappings.contains_key(gpa) {
            Some(EptError::AlreadyMapped { gpa })
        } else {
            None
        }
    }

    /// The state once `e` has been mapped.
    pub open spec fn mapped(self, e: EptMapping) -> EptView {
        EptView {
            mappings: self.mappings.insert(e.gpa, e),
            stats: EptStats {
                total_mappings: (self.stats.total_mappings + 1) as u64,
                total_mapped_bytes: (self.stats.total_mapped_bytes + e.page_size.size()) as u64,
                map_operations: (self.stats.map_operations + 1) as u64,
                ..self.stats
            },
            ..self
        }
    }

    /// The state once the page at `gpa` has been unmapped.
    pub open spec fn unmapped(self, gpa: u64) -> EptView {
        let e = self.mappings[gpa];
        EptView {
            mappings: self.mappings.remove(gpa),
            protected: self.protected.remove(gpa),
            dirty: self.dirty.remove(gpa),
            stats: EptStats {
                total_mappings: (self.stats.total_mappings - 1) as u64,
                total_mapped_bytes: (self.stats.total_mapped_bytes - e.page_size.size()) as u64,
                unmap_operations: (self.stats.unmap_operations + 1) as u64,
                write_protected_count: if e.write_protected {
                    (self.stats.write_protected_count - 1) as u64
                } else {
                    self.stats.write_protected_count
                },
                ..self.stats
            },
            ..self
        }
    }

    /// The state once the page at `gpa` has write protection on or off.
    pub open spec fn with_protection(self, gpa: u64, on: bool) -> EptView {
        let e = self.mappings[gpa];
        if e.write_protected == on {
            self
        } else {
            EptView {
                mappings: self.mappings.insert(gpa, EptMapping { write_protected: on, ..e }),
                protected: if on {
                    self.protected.insert(gpa)
                } else {
                    self.protected.remove(gpa)
                },
                stats: EptStats {
                    write_protected_count: if on {
                        (self.stats.write_protected_count + 1) as u64
                    } else {
                        (self.stats.write_protected_count - 1) as u64
                    },
                    protect_operations: (self.stats.protect_operations + 1) as u64,
                    ..self.stats
                },
                ..self
            }
        }
    }

    /// The state once every page has write protection on or off.
    pub open spec fn with_all_protection(self, on: bool) -> EptView {
        EptView {
            mappings: Map::new(
                |k: u64| self.mappings.contains_key(k),
                |k: u64| EptMapping { write_protected: on, ..self.mappings[k] },
            ),
            protected: if on {
                self.mappings.dom()
            } else {
                Set::empty()
            },
            stats: EptStats {
                write_protected_count: if on {
                    self.mappings.dom().len() as u64
                } else {
                    0
                },
                protect_operations: (self.stats.protect_operations + 1) as u64,
                ..self.stats
            },
            ..self
        }
    }

    /// The state once the page at `gpa` was written.
    pub open spec fn written(self, gpa: u64) -> EptView {
        let e = self.mappings[gpa];
        if !self.tracking || e.dirty {
            self
        } else {
            EptView {
                mappings: self.mappings.insert(gpa, EptMapping { dirty: true, ..e }),
                dirty: self.dirty.insert(gpa),
                stats: EptStats {
                    dirty_page_count: (self.stats.dirty_page_count + 1) as u64,
                    ..self.stats
                },
                ..self
            }
        }
    }

    /// A write to the page at `gpa` is one more to be counted.
    pub open spec fn newly_dirty(self, gpa: u64) -> bool {
        self.tracking && self.mappings.contains_key(gpa) && !self.mappings[gpa].dirty
    }

    /// The mappings with no page dirty.
    pub open spec fn all_clean(self) -> Map<u64, EptMapping> {
        Map::new(
            |k: u64| self.mappings.contains_key(k),
            |k: u64| EptMapping { dirty: false, ..self.mappings[k] },
        )
    }

    /// The state once the dirty pages have been taken.
    pub open spec fn taken(self) -> EptView {
        EptView {
            mappings: self.all_clean(),
            dirty: Set::empty(),
            stats: EptStats {
                dirty_page_count: 0,
                dirty_clears: (self.stats.dirty_clears + 1) as u64,
                ..self.stats
            },
            ..self
        }
    }

    /// The state once writes are no longer tracked.
    pub open spec fn untracked(self) -> EptView {
        EptView {
            mappings: self.all_clean(),
            dirty: Set::empty(),
            tracking: false,
            stats: EptStats { dirty_page_count: 0, ..self.stats },
            ..self
        }
    }
}

/// Mapping a new page keeps the invariant.
pub proof fn law_map_keeps_wf(v: EptView, e: EptMapping)
    requires
        v.wf(),
        v.map_error(e.gpa, e.hpa, e.page_size) is None,
        !e.dirty && !e.write_protected,
        v.stats.total_mapped_bytes + e.page_size.size() <= u64::MAX,
    ensures
        v.mapped(e).wf(),
        v.stats.total_mappings < u64::MAX,
{
    lemma_mapped_size_insert(v.mappings, e.gpa, e);
    assert(v.mappings.remove(e.gpa) =~= v.mappings);
    lemma_mapped_size_bound(v.mappings);
    let t = v.mapped(e);
    assert forall|k: u64| #[trigger] t.mappings.contains_key(k) implies {
        &&& t.mappings[k].gpa == k
        &&& k % t.mappings[k].page_size.size() == 0
        &&& t.mappings[k].hpa % t.mappings[k].page_size.size() == 0
    } by {
        if k != e.gpa {
            assert(v.mappings.contains_key(k));
        }
    }
    assert(!v.protected.contains(e.gpa));
    assert(!v.dirty.contains(e.gpa));
}

/// Unmapping keeps the invariant, and the counters do not fall below zero.
pub proof fn law_unmap_keeps_wf(v: EptView, gpa: u64)
    requires
        v.wf(),
        v.mappings.contains_key(gpa),
    ensures
        v.unmapped(gpa).wf(),
        v.stats.total_mappings >= 1,
        v.stats.total_mapped_bytes >= v.mappings[gpa].page_size.size(),
        v.mappings[gpa].write_protected ==> v.stats.write_protected_count >= 1,
{
    lemma_mapped_size_remove(v.mappings, gpa);
    lemma_mapped_size_bound(v.mappings.remove(gpa));
    let t = v.unmapped(gpa);
    assert forall|k: u64| #[trigger] t.mappings.contains_key(k) implies {
        &&& t.mappings[k].gpa == k
        &&& k % t.mappings[k].page_size.size() == 0
        &&& t.mappings[k].hpa % t.mappings[k].page_size.size() == 0
    } by {
        assert(v.mappings.contains_key(k));
    }
    if v.mappings[gpa].write_protected {
        assert(v.protected.contains(gpa));
    } else {
        assert(!v.protected.contains(gpa));
        assert(v.protected.remove(gpa) =~= v.protected);
    }
}

/// Write protection keeps the invariant.
pub proof fn law_protection_keeps_wf(v: EptView, gpa: u64, on: bool)
    requires
        v.wf(),
        v.mappings.contains_key(gpa),
    ensures
        v.with_protection(gpa, on).wf(),
        v.stats.write_protected_count < u64::MAX,
        v.mappings[gpa].write_protected ==> v.stats.write_protected_count >= 1,
{
    let e = v.mappings[gpa];
    let t = v.with_protection(gpa, on);
    lemma_mapped_size_bound(v.mappings);
    lemma_protected_within(v);
    assert(v.protected.contains(gpa) <==> e.write_protected);
    if e.write_protected != on {
        assert(t.mappings.dom() =~= v.mappings.dom());
        assert forall|k: u64| #[trigger] v.mappings.contains_key(k) implies v.mappings[k].page_size
            == t.mappings[k].page_size by {}
        lemma_mapped_size_same(v.mappings, t.mappings);
        assert forall|k: u64| #[trigger] t.mappings.contains_key(k) implies {
            &&& t.mappings[k].gpa == k
            &&& k % t.mappings[k].page_size.size() == 0
            &&& t.mappings[k].hpa % t.mappings[k].page_size.size() == 0
        } by {
            assert(v.mappings.contains_key(k));
        }
        assert forall|k: u64| #[trigger] t.protected.contains(k) <==> t.mappings.contains_key(k)
            && t.mappings[k].write_protected by {
            assert(v.protected.contains(k) <==> v.mappings.contains_key(k)
                && v.mappings[k].write_protected);
        }
        assert forall|k: u64| #[trigger] t.dirty.contains(k) <==> t.mappings.contains_key(k)
            && t.mappings[k].dirty by {
            assert(v.dirty.contains(k) <==> v.mappings.contains_key(k) && v.mappings[k].dirty);
        }
    }
}

/// There are no more protected pages than pages.
proof fn lemma_protected_within(v: EptView)
    requires
        v.wf(),
    ensures
        v.protected.len() <= v.mappings.dom().len(),
{
    assert(v.protected.subset_of(v.mappings.dom())) by {
        assert forall|k: u64| #[trigger] v.protected.contains(k) implies v.mappings.dom().contains(
            k,
        ) by {
            assert(v.mappings.contains_key(k));
        }
    }
    vstd::set_lib::lemma_len_subset(v.protected, v.mappings.dom());
}

/// A change of nothing but flags keeps the sum of the sizes.
proof fn lemma_flags_keep_size(v: EptView, t: EptView)
    requires
        v.wf(),
        t.mappings.dom() == v.mappings.dom(),
        forall|k: u64| #[trigger]
            v.mappings.contains_key(k) ==> t.mappings[k].page_size == v.mappings[k].page_size,
    ensures
        mapped_size(t.mappings) == mapped_size(v.mappings),
{
    assert forall|k: u64| #[trigger] v.mappings.contains_key(k) implies v.mappings[k].page_size
        == t.mappings[k].page_size by {}
    lemma_mapped_size_same(v.mappings, t.mappings);
}

/// Write protection of all pages keeps the invariant.
pub proof fn law_all_protection_keeps_wf(v: EptView, on: bool)
    requires
        v.wf(),
    ensures
        v.with_all_protection(on).wf(),
{
    let t = v.with_all_protection(on);
    assert(t.mappings.dom() =~= v.mappings.dom());
    lemma_flags_keep_size(v, t);
    assert forall|k: u64| #[trigger] t.mappings.contains_key(k) implies {
        &&& t.mappings[k].gpa == k
        &&& k % t.mappings[k].page_size.size() == 0
        &&& t.mappings[k].hpa % t.mappings[k].page_size.size() == 0
    } by {
        assert(v.mappings.contains_key(k));
    }
    assert forall|k: u64| #[trigger] t.dirty.contains(k) <==> t.mappings.contains_key(k)
        && t.mappings[k].dirty by {
        assert(v.dirty.contains(k) <==> v.mappings.contains_key(k) && v.mappings[k].dirty);
    }
}

/// A tracked write keeps the invariant.
pub proof fn law_write_keeps_wf(v: EptView, gpa: u64)
    requires
        v.wf(),
        v.mappings.contains_key(gpa),
    ensures
        v.written(gpa).wf(),
{
    let t = v.written(gpa);
    assert(t.mappings.dom() =~= v.mappings.dom());
    lemma_flags_keep_size(v, t);
    assert forall|k: u64| #[trigger] t.mappings.contains_key(k) implies {
        &&& t.mappings[k].gpa == k
        &&& k % t.mappings[k].page_size.size() == 0
        &&& t.mappings[k].hpa % t.mappings[k].page_size.size() == 0
    } by {
        assert(v.mappings.contains_key(k));
    }
    assert forall|k: u64| #[trigger] t.protected.contains(k) <==> t.mappings.contains_key(k)
        && t.mappings[k].write_protected by {
        assert(v.protected.contains(k) <==> v.mappings.contains_key(k)
            && v.mappings[k].write_protected);
    }
    assert forall|k: u64| #[trigger] t.dirty.contains(k) <==> t.mappings.contains_key(k)
        && t.mappings[k].dirty by {
        assert(v.dirty.contains(k) <==> v.mappings.contains_key(k) && v.mappings[k].dirty);
    }
}

/// Taking the dirty pages, and ending the tracking, keep the invariant.
pub proof fn law_clean_keeps_wf(v: EptView)
    requires
        v.wf(),
    ensures
        v.taken().wf(),
        v.untracked().wf(),
{
    let t = v.taken();
    assert(t.mappings.dom() =~= v.mappings.dom());
    lemma_flags_keep_size(v, t);
    assert forall|k: u64| #[trigger] t.mappings.contains_key(k) implies {
        &&& t.mappings[k].gpa == k
        &&& k % t.mappings[k].page_size.size() == 0
        &&& t.mappings[k].hpa % t.mappings[k].page_size.size() == 0
    } by {
        assert(v.mappings.contains_key(k));
    }
    assert forall|k: u64| #[trigger] t.protected.contains(k) <==> t.mappings.contains_key(k)
        && t.mappings[k].write_protected by {
        assert(v.protected.contains(k) <==> v.mappings.contains_key(k)
            && v.mappings[k].write_protected);
    }
    assert(v.untracked().mappings == t.mappings);
}

// ---------------------------------------------------------------------------
// Ranges
// ---------------------------------------------------------------------------

/// The page size for the rest of a range: large where both addresses are
/// aligned to it and enough is left, else small.
pub open spec fn range_page(gpa: int, hpa: int, remaining: int) -> PageSize {
    if gpa % PAGE_SIZE_2M as int == 0 && hpa % PAGE_SIZE_2M as int == 0 && remaining
        >= PAGE_SIZE_2M {
        PageSize::Page2M
    } else {
        PageSize::Page4K
    }
}

/// Mapping `size` bytes page by page, from `offset` on, with `count` pages
/// done: the state and the outcome. The first page that cannot be mapped ends
/// it; the pages before it stay.
pub open spec fn range_mapped(
    v: EptView,
    gpa_base: u64,
    hpa_base: u64,
    size: u64,
    permissions: EptPermissions,
    memory_type: EptMemoryType,
    offset: int,
    count: int,
) -> (EptView, Result<u64, EptError>)
    decreases (if offset < size { size - offset } else { 0 }),
{
    if offset >= size {
        (v, Ok(count as u64))
    } else {
        let gpa = (gpa_base + offset) as u64;
        let hpa = (hpa_base + offset) as u64;
        let page = range_page(gpa_base + offset, hpa_base + offset, size - offset);
        match v.map_error(gpa, hpa, page) {
            Some(e) => (v, Err(e)),
            None => range_mapped(
                v.mapped(EptView::fresh(gpa, hpa, page, permissions, memory_type)),
                gpa_base,
                hpa_base,
                size,
                permissions,
                memory_type,
                offset + page.size(),
                count + 1,
            ),
        }
    }
}

/// The addresses of a range and the counters that mapping it raises stay
/// within 64 bits.
pub open spec fn range_in_bounds(v: EptView, gpa_base: u64, hpa_base: u64, size: u64) -> bool {
    &&& gpa_base + size <= u64::MAX + 1
    &&& hpa_base + size <= u64::MAX + 1
    &&& v.stats.total_mapped_bytes + (size + 4095) / 4096 * 4096 <= u64::MAX
    &&& v.stats.map_operations + (size + 4095) / 4096 <= u64::MAX
}

/// The same, from `offset` on and only up to the first page that cannot be
/// mapped.
pub open spec fn reached_in_bounds(
    v: EptView,
    gpa_base: u64,
    hpa_base: u64,
    size: u64,
    permissions: EptPermissions,
    memory_type: EptMemoryType,
    offset: int,
) -> bool
    decreases (if offset < size { size - offset } else { 0 }),
{
    offset < size ==> {
        let gpa = (gpa_base + offset) as u64;
        let hpa = (hpa_base + offset) as u64;
        let page = range_page(gpa_base + offset, hpa_base + offset, size - offset);
        &&& gpa_base + offset <= u64::MAX
        &&& hpa_base + offset <= u64::MAX
        &&& v.map_error(gpa, hpa, page) is None ==> {
            &&& offset + page.size() <= u64::MAX
            &&& v.stats.total_mapped_bytes + page.size() <= u64::MAX
            &&& v.stats.map_operations < u64::MAX
            &&& reached_in_bounds(
                v.mapped(EptView::fresh(gpa, hpa, page, permissions, memory_type)),
                gpa_base,
                hpa_base,
                size,
                permissions,
                memory_type,
                offset + page.size(),
            )
        }
    }
}

proof fn lemma_range_reached(
    v: EptView,
    gpa_base: u64,
    hpa_base: u64,
    size: u64,
    permissions: EptPermissions,
    memory_type: EptMemoryType,
    offset: int,
)
    requires
        0 <= offset,
        offset % 4096 == 0,
        gpa_base + size <= u64::MAX + 1,
        hpa_base + size <= u64::MAX + 1,
        offset <= (size + 4095) / 4096 * 4096,
        (size + 4095) / 4096 * 4096 <= u64::MAX,
        v.stats.total_mapped_bytes + (size + 4095) / 4096 * 4096 - offset <= u64::MAX,
        v.stats.map_operations + (size + 4095) / 4096 - offset / 4096 <= u64::MAX,
    ensures
        reached_in_bounds(v, gpa_base, hpa_base, size, permissions, memory_type, offset),
    decreases (if offset < size { size - offset } else { 0 }),
{
    if offset < size {
        let gpa = (gpa_base + offset) as u64;
        let hpa = (hpa_base + offset) as u64;
        let page = range_page(gpa_base + offset, hpa_base + offset, size - offset);
        if v.map_error(gpa, hpa, page) is None {
            lemma_range_reached(
                v.mapped(EptView::fresh(gpa, hpa, page, permissions, memory_type)),
                gpa_base,
                hpa_base,
                size,
                permissions,
                memory_type,
                offset + page.size(),
            );
        }
    }
}

// ---------------------------------------------------------------------------
// The manager
// ---------------------------------------------------------------------------

/// The tables of one guest: mappings from guest to host addresses with write
/// protection and tracking of writes.
pub struct EptManager {
    guest_id: String,
    mappings: BTreeMap<u64, EptMapping>,
    write_protected_pages: HashSet<u64>,
    dirty_pages: HashSet<u64>,
    dirty_tracking_enabled: bool,
    stats: EptStats,
}

impl View for EptManager {
    type V = EptView;

    closed spec fn view(&self) -> EptView {
        EptView {
            mappings: self.mappings@,
            protected: self.write_protected_pages@,
            dirty: self.dirty_pages@,
            tracking: self.dirty_tracking_enabled,
            stats: self.stats,
        }
    }
}

impl EptManager {
    /// The guest that the tables belong to.
    pub closed spec fn owner(&self) -> Seq<char> {
        self.guest_id@
    }

    /// Empty tables for a guest, with tracking off.
    #[must_use]
    pub fn new(guest_id: &str) -> (r: Self)
        ensures
            r@.wf(),
            r.owner() == guest_id@,
            r@.mappings == Map::<u64, EptMapping>::empty(),
            r@.protected == Set::<u64>::empty(),
            r@.dirty == Set::<u64>::empty(),
            !r@.tracking,
            r@.stats == no_stats(),
    {
        EptManager {
            guest_id: guest_id.to_owned(),
            mappings: BTreeMap::new(),
            write_protected_pages: HashSet::new(),
            dirty_pages: HashSet::new(),
            dirty_tracking_enabled: false,
            stats: EptStats::default(),
        }
    }

    /// The guest that the tables belong to.
    #[must_use]
    pub fn guest_id(&self) -> (r: &str)
        ensures
            r@ == self.owner(),
    {
        self.guest_id.as_str()
    }

    /// The operation statistics.
    #[must_use]
    pub fn stats(&self) -> (r: &EptStats)
        ensures
            *r == self@.stats,
    {
        &self.stats
    }

    /// Maps a page. Both addresses must be aligned to the page size.
    ///
    /// Fails where one is not, or where the guest address is mapped.
    pub fn map(
        &mut self,
        gpa: u64,
        hpa: u64,
        page_size: PageSize,
        permissions: EptPermissions,
        memory_type: EptMemoryType,
    ) -> (r: Result<(), EptError>)
        requires
            old(self)@.wf(),
            old(self)@.map_error(gpa, hpa, page_size) is None ==> old(
                self,
            )@.stats.total_mapped_bytes + page_size.size() <= u64::MAX && old(
                self,
            )@.stats.map_operations < u64::MAX,
        ensures
            final(self)@.wf(),
            final(self).owner() == old(self).owner(),
            match old(self)@.map_error(gpa, hpa, page_size) {
                Some(e) => r == Err::<(), EptError>(e) && final(self)@ == old(self)@,
                None => r == Ok::<(), EptError>(()) && final(self)@ == old(self)@.mapped(
                    EptView::fresh(gpa, hpa, page_size, permissions, memory_type),
                ),
            },
            r is Ok ==> final(self)@.mappings.contains_key(gpa) && ({
                let m = final(self)@.mappings[gpa];
                &&& m.gpa == gpa && m.hpa == hpa && m.page_size == page_size
                &&& m.permissions == permissions && m.memory_type == memory_type
                &&& !m.dirty && !m.write_protected
            }),
    {
        let size: u64 = page_size.bytes();
        if gpa % size != 0 {
            return Err(EptError::MisalignedGpa { gpa, required_alignment: size });
        }
        if hpa % size != 0 {
            return Err(EptError::MisalignedHpa { hpa, required_alignment: size });
        }
        if self.mappings.contains_key(&gpa) {
            return Err(EptError::AlreadyMapped { gpa });
        }
        let mapping = EptMapping {
            gpa,
            hpa,
            page_size,
            permissions,
            memory_type,
            dirty: false,
            write_protected: false,
        };
        proof {
            law_map_keeps_wf(self@, mapping);
        }
        self.mappings.insert(gpa, mapping);
        self.stats.total_mappings = self.stats.total_mappings + 1;
        self.stats.total_mapped_bytes = self.stats.total_mapped_bytes + size;
        self.stats.map_operations = self.stats.map_operations + 1;
        assert(self@ == old(self)@.mapped(mapping));
        Ok(())
    }

    /// Maps a contiguous range with the largest pages that alignment allows,
    /// large or small; the number of pages.
    ///
    /// Fails at the first page that cannot be mapped; the pages before it stay
    /// mapped.
    pub fn map_range(
        &mut self,
        gpa_base: u64,
        hpa_base: u64,
        size: u64,
        permissions: EptPermissions,
        memory_type: EptMemoryType,
    ) -> (r: Result<u64, EptError>)
        requires
            old(self)@.wf(),
            range_in_bounds(old(self)@, gpa_base, hpa_base, size) || reached_in_bounds(
                old(self)@,
                gpa_base,
                hpa_base,
                size,
                permissions,
                memory_type,
                0,
            ),
        ensures
            final(self)@.wf(),
            final(self).owner() == old(self).owner(),
            final(self)@.stats.unmap_operations == old(self)@.stats.unmap_operations,
            final(self)@.stats.protect_operations == old(self)@.stats.protect_operations,
            final(self)@.stats.dirty_clears == old(self)@.stats.dirty_clears,
            final(self)@.stats.dirty_page_count == old(self)@.stats.dirty_page_count,
            final(self)@.stats.write_protected_count == old(self)@.stats.write_protected_count,
            (final(self)@, r) == range_mapped(
                old(self)@,
                gpa_base,
                hpa_base,
                size,
                permissions,
                memory_type,
                0,
                0,
            ),
    {
        let mut offset: u64 = 0;
        let mut pages_mapped: u64 = 0;
        let ghost pre = self@;
        let ghost owner = self.owner();
        proof {
            if range_in_bounds(pre, gpa_base, hpa_base, size) {
                lemma_range_reached(
                    pre,
                    gpa_base,
                    hpa_base,
                    size,
                    permissions,
                    memory_type,
                    0,
                );
            }
        }
        while offset < size
            invariant
                self@.wf(),
                self.owner() == owner,
                self@.stats.unmap_operations == pre.stats.unmap_operations,
                self@.stats.protect_operations == pre.stats.protect_operations,
                self@.stats.dirty_clears == pre.stats.dirty_clears,
                self@.stats.dirty_page_count == pre.stats.dirty_page_count,
                self@.stats.write_protected_count == pre.stats.write_protected_count,
                reached_in_bounds(
                    self@,
                    gpa_base,
                    hpa_base,
                    size,
                    permissions,
                    memory_type,
                    offset as int,
                ),
                pages_mapped * 4096 <= offset,
                pre == old(self)@,
                owner == old(self).owner(),
                range_mapped(
                    pre,
                    gpa_base,
                    hpa_base,
                    size,
                    permissions,
                    memory_type,
                    0,
                    0,
                ) == range_mapped(
                    self@,
                    gpa_base,
                    hpa_base,
                    size,
                    permissions,
                    memory_type,
                    offset as int,
                    pages_mapped as int,
                ),
            decreases size + PAGE_SIZE_4K - offset,
        {
            let remaining: u64 = size - offset;
            let gpa: u64 = gpa_base + offset;
            let hpa: u64 = hpa_base + offset;
            let page_size: PageSize = if gpa % PAGE_SIZE_2M == 0 && hpa % PAGE_SIZE_2M == 0
                && remaining >= PAGE_SIZE_2M {
                PageSize::Page2M
            } else {
                PageSize::Page4K
            };
            match self.map(gpa, hpa, page_size, permissions, memory_type) {
                Ok(()) => {},
                Err(e) => {
                    return Err(e);
                },
            }
            offset = offset + page_size.bytes();
            pages_mapped = pages_mapped + 1;
        }
        Ok(pages_mapped)
    }

    /// Unmaps a page; what it was.
    ///
    /// Fails where the guest address is not mapped.
    pub fn unmap(&mut self, gpa: u64) -> (r: Result<EptMapping, EptError>)
        requires
            old(self)@.wf(),
            old(self)@.mappings.contains_key(gpa) ==> old(self)@.stats.unmap_operations < u64::MAX,
        ensures
            final(self)@.wf(),
            final(self).owner() == old(self).owner(),
            if old(self)@.mappings.contains_key(gpa) {
                r == Ok::<EptMapping, EptError>(old(self)@.mappings[gpa]) && final(self)@ == old(
                    self,
                )@.unmapped(gpa)
            } else {
                r == Err::<EptMapping, EptError>(EptError::NotMapped { gpa }) && final(self)@
                    == old(self)@
            },
    {
        let ghost pre = self@;
        match self.mappings.remove(&gpa) {
            Some(mapping) => {
                proof {
                    law_unmap_keeps_wf(pre, gpa);
                }
                self.write_protected_pages.remove(&gpa);
                self.dirty_pages.remove(&gpa);
                self.stats.total_mappings = self.stats.total_mappings - 1;
                self.stats.total_mapped_bytes = self.stats.total_mapped_bytes
                    - mapping.page_size.bytes();
                self.stats.unmap_operations = self.stats.unmap_operations + 1;
                if mapping.write_protected {
                    self.stats.write_protected_count = self.stats.write_protected_count - 1;
                }
                assert(self@ == pre.unmapped(gpa));
                Ok(mapping)
            },
            None => {
                assert(self@.mappings =~= pre.mappings);
                Err(EptError::NotMapped { gpa })
            },
        }
    }

    /// Looks up the mapping of a guest page.
    #[must_use]
    pub fn lookup(&self, gpa: u64) -> (r: Option<&EptMapping>)
        ensures
            r == (if self@.mappings.contains_key(gpa) {
                Some(&self@.mappings[gpa])
            } else {
                None
            }),
    {
        self.mappings.get(&gpa)
    }

    /// Sets or clears write protection on one page.
    fn set_protection(&mut self, gpa: u64, on: bool) -> (r: Result<(), EptError>)
        requires
            old(self)@.wf(),
            old(self)@.mappings.contains_key(gpa) && old(self)@.mappings[gpa].write_protected != on
                ==> old(self)@.stats.protect_operations < u64::MAX,
        ensures
            final(self)@.wf(),
            final(self).owner() == old(self).owner(),
            if old(self)@.mappings.contains_key(gpa) {
                r == Ok::<(), EptError>(()) && final(self)@ == old(self)@.with_protection(gpa, on)
            } else {
                r == Err::<(), EptError>(EptError::NotMapped { gpa }) && final(self)@ == old(
                    self,
                )@
            },
    {
        let ghost pre = self@;
        let mut mapping: EptMapping = match self.mappings.get(&gpa) {
            Some(m) => *m,
            None => {
                return Err(EptError::NotMapped { gpa });
            },
        };
        proof {
            law_protection_keeps_wf(pre, gpa, on);
        }
        if mapping.write_protected != on {
            mapping.write_protected = on;
            self.mappings.insert(gpa, mapping);
            if on {
                self.write_protected_pages.insert(gpa);
                self.stats.write_protected_count = self.stats.write_protected_count + 1;
            } else {
                self.write_protected_pages.remove(&gpa);
                self.stats.write_protected_count = self.stats.write_protected_count - 1;
            }
            self.stats.protect_operations = self.stats.protect_operations + 1;
        }
        assert(self@ == pre.with_protection(gpa, on));
        Ok(())
    }

    /// Sets write protection on a guest page. It keeps its other permissions,
    /// but writes come to the hypervisor.
    ///
    /// Fails where the guest address is not mapped.
    pub fn ept_set_write_protect(&mut self, gpa: u64) -> (r: Result<(), EptError>)
        requires
            old(self)@.wf(),
            old(self)@.mappings.contains_key(gpa) && !old(self)@.mappings[gpa].write_protected
                ==> old(self)@.stats.protect_operations < u64::MAX,
        ensures
            final(self)@.wf(),
            final(self).owner() == old(self).owner(),
            if old(self)@.mappings.contains_key(gpa) {
                r == Ok::<(), EptError>(()) && final(self)@ == old(self)@.with_protection(gpa, true)
            } else {
                r == Err::<(), EptError>(EptError::NotMapped { gpa }) && final(self)@ == old(
                    self,
                )@
            },
    {
        self.set_protection(gpa, true)
    }

    /// Clears write protection on a guest page.
    ///
    /// Fails where the guest address is not mapped.
    pub fn ept_clear_write_protect(&mut self, gpa: u64) -> (r: Result<(), EptError>)
        requires
            old(self)@.wf(),
            old(self)@.mappings.contains_key(gpa) && old(self)@.mappings[gpa].write_protected
                ==> old(self)@.stats.protect_operations < u64::MAX,
        ensures
            final(self)@.wf(),
            final(self).owner() == old(self).owner(),
            if old(self)@.mappings.contains_key(gpa) {
                r == Ok::<(), EptError>(()) && final(self)@ == old(self)@.with_protection(
                    gpa,
                    false,
                )
            } else {
                r == Err::<(), EptError>(EptError::NotMapped { gpa }) && final(self)@ == old(
                    self,
                )@
            },
    {
        self.set_protection(gpa, false)
    }

    /// The guest addresses of all mappings.
    fn keys(&self) -> (r: Vec<u64>)
        ensures
            r@.to_set() == self@.mappings.dom(),
            r@.no_duplicates(),
    {
        let mut out: Vec<u64> = Vec::new();
        let keys = self.mappings.keys();
        let ghost all = keys.remaining();
        for k in it: keys
            invariant
                it.seq() == all,
                out@.len() == it.index(),
                forall|i: int| 0 <= i < it.index() ==> out@[i] == *#[trigger] all[i],
        {
            out.push(*k);
        }
        assert(out@ =~= all.unref());
        proof {
            lemma_unref_no_duplicates(all, out@);
        }
        out
    }
}

proof fn lemma_unref_no_duplicates(all: Seq<&u64>, out: Seq<u64>)
    requires
        all.no_duplicates(),
        out == all.unref(),
    ensures
        out.no_duplicates(),
{
    assert forall|i: int, j: int| 0 <= i < out.len() && 0 <= j < out.len() && i
        != j implies out[i] != out[j] by {
        assert(all[i] != all[j]);
    }
}

/// Collects the elements of a set, in no particular order.
fn elements(s: &HashSet<u64>) -> (r: Vec<u64>)
    ensures
        r@.to_set() == s@,
        r@.no_duplicates(),
{
    let mut out: Vec<u64> = Vec::new();
    let items = s.iter();
    let ghost all = items.remaining();
    for k in it: items
        invariant
            it.seq() == all,
            out@.len() == it.index(),
            forall|i: int| 0 <= i < it.index() ==> out@[i] == *#[trigger] all[i],
    {
        out.push(*k);
    }
    assert(out@ =~= all.unref());
    proof {
        lemma_unref_no_duplicates(all, out@);
    }
    out
}

/// Page `k` is protected, or it is among the first `n` keys.
spec fn first_protected(v: EptView, keys: Seq<u64>, n: int, k: u64) -> bool {
    v.protected.contains(k) || exists|i: int| 0 <= i < n && keys[i] == k
}

proof fn lemma_increasing_keys(keys: Seq<u64>)
    requires
        vstd::std_specs::btree::increasing_seq(keys),
    ensures
        forall|i: int, j: int|
            0 <= i < j < keys.len() ==> #[trigger] keys[i] < #[trigger] keys[j],
{
    vstd::std_specs::btree::axiom_increasing_seq_meaning(keys);
    assert forall|i: int, j: int| 0 <= i < j < keys.len() implies #[trigger] keys[i]
        < #[trigger] keys[j] by {
        assert(keys[i].cmp_spec(&keys[j]) is Less);
    }
}

impl EptManager {
    /// Write-protects every page, as for a snapshot; the number of pages that
    /// were not protected before.
    pub fn write_protect_all(&mut self) -> (r: u64)
        requires
            old(self)@.wf(),
            old(self)@.stats.protect_operations < u64::MAX,
        ensures
            final(self)@.wf(),
            final(self).owner() == old(self).owner(),
            final(self)@ == old(self)@.with_all_protection(true),
            r == old(self)@.mappings.dom().len() - old(self)@.protected.len(),
    {
        let ghost pre = self@;
        let ghost owner = self.owner();
        let gpas: Vec<u64> = self.keys();
        let mut count: u64 = 0;
        let mut i: usize = 0;
        proof {
            lemma_mapped_size_bound(pre.mappings);
        }
        while i < gpas.len()
            invariant
                i <= gpas@.len(),
                pre.wf(),
                pre == old(self)@,
                owner == old(self).owner(),
                self.owner() == owner,
                gpas@.to_set() == pre.mappings.dom(),
                gpas@.no_duplicates(),
                pre.mappings.dom().len() < u64::MAX,
                self@.mappings.dom() == pre.mappings.dom(),
                forall|k: u64| #[trigger]
                    pre.mappings.contains_key(k) ==> self@.mappings[k] == (EptMapping {
                        write_protected: first_protected(pre, gpas@, i as int, k),
                        ..pre.mappings[k]
                    }),
                forall|k: u64| #[trigger]
                    self@.protected.contains(k) <==> first_protected(pre, gpas@, i as int, k),
                self@.protected.finite(),
                self@.protected.subset_of(pre.mappings.dom()),
                self@.stats.write_protected_count == self@.protected.len(),
                self@.protected.len() == pre.protected.len() + count,
                self@.dirty == pre.dirty,
                self@.tracking == pre.tracking,
                self@.stats == (EptStats {
                    write_protected_count: self@.stats.write_protected_count,
                    ..pre.stats
                }),
            decreases gpas@.len() - i,
        {
            let gpa: u64 = gpas[i];
            let ghost mid = self@;
            proof {
                assert(gpas@.to_set().contains(gpa));
                assert(pre.mappings.contains_key(gpa));
                vstd::set_lib::lemma_len_subset(mid.protected, pre.mappings.dom());
                assert forall|k: u64| first_protected(pre, gpas@, i + 1, k) == (first_protected(
                    pre,
                    gpas@,
                    i as int,
                    k,
                ) || k == gpa) by {
                    if first_protected(pre, gpas@, i + 1, k) && !pre.protected.contains(k) {
                        let j: int = choose|j: int| 0 <= j < i + 1 && gpas@[j] == k;
                        assert(j < i || k == gpa);
                    }
                    if k == gpa {
                        assert(gpas@[i as int] == k);
                    }
                    if first_protected(pre, gpas@, i as int, k) && !pre.protected.contains(k) {
                        let j: int = choose|j: int| 0 <= j < i && gpas@[j] == k;
                        assert(0 <= j < i + 1 && gpas@[j] == k);
                    }
                }
            }
            match self.mappings.get(&gpa) {
                Some(m) => {
                    let mut mapping: EptMapping = *m;
                    if !mapping.write_protected {
                        proof {
                            assert(!mid.protected.contains(gpa));
                            lemma_strict_subset(mid.protected, pre.mappings.dom(), gpa);
                        }
                        mapping.write_protected = true;
                        self.mappings.insert(gpa, mapping);
                        self.write_protected_pages.insert(gpa);
                        self.stats.write_protected_count = self.stats.write_protected_count + 1;
                        count = count + 1;
                        assert(self@.mappings.dom() =~= pre.mappings.dom());
                    } else {
                        assert(mid.protected.contains(gpa));
                    }
                },
                None => {},
            }
            i = i + 1;
        }
        self.stats.protect_operations = self.stats.protect_operations + 1;
        proof {
            assert forall|k: u64| #[trigger] pre.mappings.contains_key(k) implies first_protected(
                pre,
                gpas@,
                gpas@.len() as int,
                k,
            ) by {
                assert(gpas@.to_set().contains(k));
                let j: int = choose|j: int| 0 <= j < gpas@.len() && gpas@[j] == k;
                assert(0 <= j < gpas@.len() && gpas@[j] == k);
            }
            assert(self@.protected =~= pre.mappings.dom());
            assert(self@.mappings =~= pre.with_all_protection(true).mappings);
            law_all_protection_keeps_wf(pre, true);
            assert(self@ == pre.with_all_protection(true));
        }
        count
    }

    /// Clears write protection on every page; the number of pages that were
    /// protected.
    pub fn clear_all_write_protect(&mut self) -> (r: u64)
        requires
            old(self)@.wf(),
            old(self)@.stats.protect_operations < u64::MAX,
        ensures
            final(self)@.wf(),
            final(self).owner() == old(self).owner(),
            final(self)@ == old(self)@.with_all_protection(false),
            r == old(self)@.protected.len(),
    {
        let ghost pre = self@;
        let ghost owner = self.owner();
        let count: u64 = self.write_protected_pages.len() as u64;
        let gpas: Vec<u64> = elements(&self.write_protected_pages);
        let mut i: usize = 0;
        while i < gpas.len()
            invariant
                i <= gpas@.len(),
                pre.wf(),
                pre == old(self)@,
                owner == old(self).owner(),
                self.owner() == owner,
                gpas@.to_set() == pre.protected,
                self@.mappings.dom() == pre.mappings.dom(),
                forall|k: u64| #[trigger]
                    pre.mappings.contains_key(k) ==> self@.mappings[k] == (EptMapping {
                        write_protected: self@.mappings[k].write_protected,
                        ..pre.mappings[k]
                    }),
                forall|k: u64| #[trigger]
                    pre.mappings.contains_key(k) && self@.mappings[k].write_protected ==> (
                    pre.protected.contains(k) && !(exists|j: int| 0 <= j < i && gpas@[j] == k)),
                self@.dirty == pre.dirty,
                self@.tracking == pre.tracking,
                self@.stats == pre.stats,
            decreases gpas@.len() - i,
        {
            let gpa: u64 = gpas[i];
            match self.mappings.get(&gpa) {
                Some(m) => {
                    let mut mapping: EptMapping = *m;
                    mapping.write_protected = false;
                    self.mappings.insert(gpa, mapping);
                    assert(self@.mappings.dom() =~= pre.mappings.dom());
                },
                None => {},
            }
            i = i + 1;
        }
        self.write_protected_pages.clear();
        self.stats.write_protected_count = 0;
        self.stats.protect_operations = self.stats.protect_operations + 1;
        proof {
            assert forall|k: u64| #[trigger] pre.mappings.contains_key(
                k,
            ) implies !self@.mappings[k].write_protected by {
                if self@.mappings[k].write_protected {
                    assert(gpas@.to_set().contains(k));
                    let j: int = choose|j: int| 0 <= j < gpas@.len() && gpas@[j] == k;
                    assert(0 <= j < gpas@.len() && gpas@[j] == k);
                }
            }
            assert(self@.mappings =~= pre.with_all_protection(false).mappings);
            law_all_protection_keeps_wf(pre, false);
            assert(self@ == pre.with_all_protection(false));
        }
        count
    }

    /// Whether a page is write-protected.
    #[must_use]
    pub fn is_write_protected(&self, gpa: u64) -> (r: bool)
        ensures
            r == self@.protected.contains(gpa),
    {
        self.write_protected_pages.contains(&gpa)
    }

    /// Starts the tracking of writes.
    pub fn enable_dirty_tracking(&mut self)
        ensures
            final(self)@ == (EptView { tracking: true, ..old(self)@ }),
            final(self).owner() == old(self).owner(),
            old(self)@.wf() ==> final(self)@.wf(),
    {
        self.dirty_tracking_enabled = true;
    }

    /// Clears the dirty flag of every dirty page.
    fn clean(&mut self, gpas: &Vec<u64>)
        requires
            old(self)@.wf(),
            gpas@.to_set() == old(self)@.dirty,
        ensures
            final(self).owner() == old(self).owner(),
            final(self)@ == (EptView { mappings: old(self)@.all_clean(), ..old(self)@ }),
    {
        let ghost pre = self@;
        let ghost owner = self.owner();
        let mut i: usize = 0;
        while i < gpas.len()
            invariant
                i <= gpas@.len(),
                pre.wf(),
                pre == old(self)@,
                owner == old(self).owner(),
                self.owner() == owner,
                gpas@.to_set() == pre.dirty,
                self@.mappings.dom() == pre.mappings.dom(),
                forall|k: u64| #[trigger]
                    pre.mappings.contains_key(k) ==> self@.mappings[k] == (EptMapping {
                        dirty: self@.mappings[k].dirty,
                        ..pre.mappings[k]
                    }),
                forall|k: u64| #[trigger]
                    pre.mappings.contains_key(k) && self@.mappings[k].dirty ==> (
                    pre.dirty.contains(k) && !(exists|j: int| 0 <= j < i && gpas@[j] == k)),
                self@.protected == pre.protected,
                self@.dirty == pre.dirty,
                self@.tracking == pre.tracking,
                self@.stats == pre.stats,
            decreases gpas@.len() - i,
        {
            let gpa: u64 = gpas[i];
            match self.mappings.get(&gpa) {
                Some(m) => {
                    let mut mapping: EptMapping = *m;
                    mapping.dirty = false;
                    self.mappings.insert(gpa, mapping);
                    assert(self@.mappings.dom() =~= pre.mappings.dom());
                },
                None => {},
            }
            i = i + 1;
        }
        proof {
            assert forall|k: u64| #[trigger] pre.mappings.contains_key(
                k,
            ) implies !self@.mappings[k].dirty by {
                if self@.mappings[k].dirty {
                    assert(gpas@.to_set().contains(k));
                    let j: int = choose|j: int| 0 <= j < gpas@.len() && gpas@[j] == k;
                    assert(0 <= j < gpas@.len() && gpas@[j] == k);
                }
            }
            assert(self@.mappings =~= pre.all_clean());
        }
    }

    /// Ends the tracking of writes and forgets what was tracked.
    pub fn disable_dirty_tracking(&mut self)
        requires
            old(self)@.wf(),
        ensures
            final(self)@.wf(),
            final(self).owner() == old(self).owner(),
            final(self)@ == old(self)@.untracked(),
    {
        let ghost pre = self@;
        proof {
            law_clean_keeps_wf(pre);
        }
        let gpas: Vec<u64> = elements(&self.dirty_pages);
        self.clean(&gpas);
        self.dirty_tracking_enabled = false;
        self.dirty_pages.clear();
        self.stats.dirty_page_count = 0;
        assert(self@ == pre.untracked());
    }

    /// Notes that a page was written, if writes are tracked.
    ///
    /// Fails where the guest address is not mapped.
    pub fn mark_dirty(&mut self, gpa: u64) -> (r: Result<(), EptError>)
        requires
            old(self)@.wf(),
            old(self)@.newly_dirty(gpa) ==> old(self)@.stats.dirty_page_count < u64::MAX,
        ensures
            final(self)@.wf(),
            final(self).owner() == old(self).owner(),
            if old(self)@.mappings.contains_key(gpa) {
                r == Ok::<(), EptError>(()) && final(self)@ == old(self)@.written(gpa)
            } else {
                r == Err::<(), EptError>(EptError::NotMapped { gpa }) && final(self)@ == old(
                    self,
                )@
            },
    {
        let ghost pre = self@;
        let mut mapping: EptMapping = match self.mappings.get(&gpa) {
            Some(m) => *m,
            None => {
                return Err(EptError::NotMapped { gpa });
            },
        };
        proof {
            law_write_keeps_wf(pre, gpa);
        }
        if self.dirty_tracking_enabled && !mapping.dirty {
            mapping.dirty = true;
            self.mappings.insert(gpa, mapping);
            self.dirty_pages.insert(gpa);
            self.stats.dirty_page_count = self.stats.dirty_page_count + 1;
        }
        assert(self@ == pre.written(gpa));
        Ok(())
    }

    /// Takes the pages that were written since the last call, in no particular
    /// order, and makes them clean.
    pub fn ept_get_and_clear_dirty_bitmap(&mut self) -> (r: Vec<u64>)
        requires
            old(self)@.wf(),
            old(self)@.stats.dirty_clears < u64::MAX,
        ensures
            final(self)@.wf(),
            final(self).owner() == old(self).owner(),
            final(self)@ == old(self)@.taken(),
            r@.to_set() == old(self)@.dirty,
            r@.no_duplicates(),
    {
        let ghost pre = self@;
        proof {
            law_clean_keeps_wf(pre);
        }
        let dirty: Vec<u64> = elements(&self.dirty_pages);
        self.clean(&dirty);
        self.dirty_pages.clear();
        self.stats.dirty_page_count = 0;
        self.stats.dirty_clears = self.stats.dirty_clears + 1;
        assert(self@ == pre.taken());
        dirty
    }

    /// Number of dirty pages.
    #[must_use]
    pub fn dirty_page_count(&self) -> (r: usize)
        ensures
            r == self@.dirty.len(),
    {
        self.dirty_pages.len()
    }

    /// Number of mapped pages.
    #[must_use]
    pub fn mapping_count(&self) -> (r: usize)
        ensures
            r == self@.mappings.dom().len(),
    {
        self.mappings.len()
    }

    /// Total mapped bytes.
    #[must_use]
    pub fn total_mapped_bytes(&self) -> (r: u64)
        requires
            self@.wf(),
        ensures
            r == mapped_size(self@.mappings),
            r == self@.stats.total_mapped_bytes,
    {
        self.stats.total_mapped_bytes
    }

    /// All mappings, by increasing guest address.
    pub fn mappings(&self) -> (r: std::collections::btree_map::Values<'_, u64, EptMapping>)
        ensures
            exists|keys: Seq<u64>| #[trigger]
                ascending(self@.mappings, keys) && r.remaining() == keys.map(
                    |i: int, k: u64| &self@.mappings[k],
                ),
            r.decrease() is Some,
            r.initial_value_relation(&r),
    {
        let r = self.mappings.values();
        proof {
            let keys: Seq<u64> = choose|keys: Seq<u64>|
                {
                    &&& vstd::std_specs::btree::increasing_seq(keys)
                    &&& keys.to_set() == self.mappings@.dom()
                    &&& keys.no_duplicates()
                    &&& r.remaining() == keys.map(|i: int, k: u64| &self.mappings@[k])
                };
            lemma_increasing_keys(keys);
            assert forall|k: u64| #[trigger] self@.mappings.contains_key(k) implies keys.contains(
                k,
            ) by {
                assert(keys.to_set().contains(k));
            }
            assert forall|i: int| 0 <= i < keys.len() implies self@.mappings.contains_key(
                #[trigger] keys[i],
            ) by {
                assert(keys.to_set().contains(keys[i]));
            }
            assert(ascending(self@.mappings, keys));
        }
        r
    }

    /// The guest addresses of all write-protected pages, in no particular order.
    pub fn write_protected_pages(&self) -> (r: Vec<u64>)
        ensures
            r@.to_set() == self@.protected,
            r@.no_duplicates(),
    {
        elements(&self.write_protected_pages)
    }

    /// Handles a write to a page: marks it dirty, and clears its write
    /// protection if asked to. The mapping that results, for copy-on-write.
    ///
    /// Fails where the guest address is not mapped.
    pub fn handle_ept_violation(&mut self, gpa: u64, clear_protection: bool) -> (r: Result<
        EptMapping,
        EptError,
    >)
        requires
            old(self)@.wf(),
            old(self)@.newly_dirty(gpa) ==> old(self)@.stats.dirty_page_count < u64::MAX,
            clear_protection && old(self)@.mappings.contains_key(gpa) && old(
                self,
            )@.mappings[gpa].write_protected ==> old(self)@.stats.protect_operations < u64::MAX,
        ensures
            final(self)@.wf(),
            final(self).owner() == old(self).owner(),
            if old(self)@.mappings.contains_key(gpa) {
                &&& final(self)@ == (if clear_protection {
                    old(self)@.written(gpa).with_protection(gpa, false)
                } else {
                    old(self)@.written(gpa)
                })
                &&& r == Ok::<EptMapping, EptError>(final(self)@.mappings[gpa])
            } else {
                r == Err::<EptMapping, EptError>(EptError::NotMapped { gpa }) && final(self)@
                    == old(self)@
            },
    {
        match self.mark_dirty(gpa) {
            Ok(()) => {},
            Err(e) => {
                return Err(e);
            },
        }
        if clear_protection {
            match self.ept_clear_write_protect(gpa) {
                Ok(()) => {},
                Err(e) => {
                    return Err(e);
                },
            }
        }
        match self.mappings.get(&gpa) {
            Some(m) => Ok(*m),
            None => Err(EptError::NotMapped { gpa }),
        }
    }
}

/// `keys` are the mapped guest addresses in increasing order.
pub open spec fn ascending(m: Map<u64, EptMapping>, keys: Seq<u64>) -> bool {
    &&& forall|i: int| 0 <= i < keys.len() ==> m.contains_key(#[trigger] keys[i])
    &&& forall|k: u64| #[trigger] m.contains_key(k) ==> keys.contains(k)
    &&& forall|i: int, j: int| 0 <= i < j < keys.len() ==> #[trigger] keys[i] < #[trigger] keys[j]
}

proof fn lemma_strict_subset(a: Set<u64>, b: Set<u64>, k: u64)
    requires
        a.subset_of(b),
        b.finite(),
        b.contains(k),
        !a.contains(k),
    ensures
        a.len() < b.len(),
{
    assert(a.subset_of(b.remove(k)));
    vstd::set_lib::lemma_len_subset(a, b.remove(k));
}

// ---------------------------------------------------------------------------
// Laws
// ---------------------------------------------------------------------------

/// What was mapped is looked up again, other pages are as they were, and
/// unmapping the page brings the former mappings back.
pub proof fn law_map_then_unmap(v: EptView, e: EptMapping)
    requires
        v.wf(),
        v.map_error(e.gpa, e.hpa, e.page_size) is None,
    ensures
        v.mapped(e).mappings.contains_key(e.gpa),
        v.mapped(e).mappings[e.gpa] == e,
        v.mapped(e).unmapped(e.gpa).mappings == v.mappings,
        v.mapped(e).unmapped(e.gpa).protected == v.protected,
        v.mapped(e).unmapped(e.gpa).dirty == v.dirty,
{
    assert(v.mapped(e).unmapped(e.gpa).mappings =~= v.mappings);
    assert(!v.protected.contains(e.gpa));
    assert(!v.dirty.contains(e.gpa));
    assert(v.protected.remove(e.gpa) =~= v.protected);
    assert(v.dirty.remove(e.gpa) =~= v.dirty);
}

/// Protecting a page takes effect, touches no other page, is the same done
/// twice, and is undone by clearing it.
pub proof fn law_protect_then_clear(v: EptView, gpa: u64)
    requires
        v.wf(),
        v.mappings.contains_key(gpa),
    ensures
        ({
            let p = v.with_protection(gpa, true);
            let c = p.with_protection(gpa, false);
            &&& p.protected.contains(gpa)
            &&& p.mappings[gpa].write_protected
            &&& p.with_protection(gpa, true) == p
            &&& !c.protected.contains(gpa)
            &&& forall|k: u64| k != gpa ==> (#[trigger] p.protected.contains(k)
                <==> v.protected.contains(k)) && (p.mappings.contains_key(k)
                <==> v.mappings.contains_key(k)) && p.mappings[k] == v.mappings[k]
            &&& !v.mappings[gpa].write_protected ==> c.mappings == v.mappings && c.protected
                == v.protected
        }),
{
    let p = v.with_protection(gpa, true);
    let c = p.with_protection(gpa, false);
    assert(v.protected.contains(gpa) <==> v.mappings[gpa].write_protected);
    if !v.mappings[gpa].write_protected {
        assert(c.mappings =~= v.mappings);
        assert(c.protected =~= v.protected);
    }
}

/// After a snapshot every page is write-protected; clearing that leaves none.
pub proof fn law_protect_all_then_clear_all(v: EptView)
    requires
        v.wf(),
    ensures
        forall|k: u64|
            v.mappings.contains_key(k) <==> #[trigger] v.with_all_protection(
                true,
            ).protected.contains(k),
        v.with_all_protection(true).with_all_protection(false).protected == Set::<u64>::empty(),
        v.with_all_protection(true).with_all_protection(false).mappings
            == v.with_all_protection(false).mappings,
{
    assert(v.with_all_protection(true).with_all_protection(false).mappings
        =~= v.with_all_protection(false).mappings);
}

/// A tracked write is reported by the next taking of dirty pages, and by that
/// one only.
pub proof fn law_write_is_reported_once(v: EptView, gpa: u64)
    requires
        v.wf(),
        v.tracking,
        v.mappings.contains_key(gpa),
    ensures
        v.written(gpa).dirty.contains(gpa),
        !v.written(gpa).taken().dirty.contains(gpa),
        v.taken().dirty == Set::<u64>::empty(),
        v.taken().tracking,
{
    assert(v.dirty.contains(gpa) <==> v.mappings[gpa].dirty);
}

/// Without tracking no write is reported.
pub proof fn law_untracked_write_changes_nothing(v: EptView, gpa: u64)
    requires
        !v.tracking,
    ensures
        v.written(gpa) == v,
{
}

/// Some mapping sends guest address `gpa` to host address `hpa`.
pub open spec fn sends(m: Map<u64, EptMapping>, gpa: int, hpa: int) -> bool {
    exists|k: u64| #[trigger]
        m.contains_key(k) && k <= gpa < k + m[k].page_size.size() && m[k].hpa + (gpa - k) == hpa
}

/// Mapping a range keeps what was mapped, and where it succeeds it sends every
/// byte of the range to the byte at the same distance from the host base.
pub proof fn law_map_range_covers(
    v: EptView,
    gpa_base: u64,
    hpa_base: u64,
    size: u64,
    permissions: EptPermissions,
    memory_type: EptMemoryType,
    offset: int,
    count: int,
)
    requires
        gpa_base + size <= u64::MAX + 1,
        hpa_base + size <= u64::MAX + 1,
        0 <= offset,
    ensures
        ({
            let (w, r) = range_mapped(
                v,
                gpa_base,
                hpa_base,
                size,
                permissions,
                memory_type,
                offset,
                count,
            );
            &&& forall|k: u64| #[trigger]
                v.mappings.contains_key(k) ==> w.mappings.contains_key(k) && w.mappings[k]
                    == v.mappings[k]
            &&& r is Ok ==> forall|o: int|
                offset <= o < size ==> sends(
                    w.mappings,
                    #[trigger] (gpa_base + o),
                    hpa_base + o,
                )
        }),
    decreases (if offset < size { size - offset } else { 0 }),
{
    if offset < size {
        let gpa = (gpa_base + offset) as u64;
        let hpa = (hpa_base + offset) as u64;
        let page = range_page(gpa_base + offset, hpa_base + offset, size - offset);
        if v.map_error(gpa, hpa, page) is None {
            let e = EptView::fresh(gpa, hpa, page, permissions, memory_type);
            let n = v.mapped(e);
            let next = offset + page.size();
            law_map_range_covers(
                n,
                gpa_base,
                hpa_base,
                size,
                permissions,
                memory_type,
                next,
                count + 1,
            );
            let (w, r) = range_mapped(
                v,
                gpa_base,
                hpa_base,
                size,
                permissions,
                memory_type,
                offset,
                count,
            );
            assert forall|k: u64| #[trigger] v.mappings.contains_key(
                k,
            ) implies w.mappings.contains_key(k) && w.mappings[k] == v.mappings[k] by {
                assert(n.mappings.contains_key(k));
            }
            if r is Ok {
                assert(n.mappings.contains_key(gpa));
                assert forall|o: int| offset <= o < size implies sends(
                    w.mappings,
                    #[trigger] (gpa_base + o),
                    hpa_base + o,
                ) by {
                    if o < next {
                        assert(w.mappings.contains_key(gpa) && w.mappings[gpa] == e);
                    }
                }
            }
        }
    }
}

/// The page sizes are 4 KiB, 2 MiB and 1 GiB, each 512 times the one before.
pub proof fn law_page_sizes(page_size: PageSize)
    ensures
        page_size is Page4K ==> page_size.size() == 4096,
        page_size is Page2M ==> page_size.size() == 512 * 4096,
        page_size is Page1G ==> page_size.size() == 512 * 512 * 4096,
{
}

/// The codes of the memory types are those of table entries, and no two types
/// share one.
pub proof fn law_memory_type_codes(a: EptMemoryType, b: EptMemoryType)
    ensures
        a.code_of() == b.code_of() <==> a == b,
        a is Uncacheable ==> a.code_of() == 0,
        a is WriteCombining ==> a.code_of() == 1,
        a is WriteThrough ==> a.code_of() == 4,
        a is WriteProtected ==> a.code_of() == 5,
        a is WriteBack ==> a.code_of() == 6,
{
}

/// A page is mapped if and only if both addresses are multiples of its size and
/// nothing is mapped there yet. A refusal names the address at fault: first the
/// guest's, then the host's, then the one that is mapped already.
pub proof fn law_map_refuses_misaligned_and_taken(
    v: EptView,
    gpa: u64,
    hpa: u64,
    page_size: PageSize,
)
    ensures
        ({
            let size: int = match page_size {
                PageSize::Page4K => 0x1000,
                PageSize::Page2M => 0x20_0000,
                PageSize::Page1G => 0x4000_0000,
            };
            let e = v.map_error(gpa, hpa, page_size);
            &&& e is None <==> gpa as int % size == 0 && hpa as int % size == 0
                && !v.mappings.contains_key(gpa)
            &&& gpa as int % size != 0 <==> e == Some(
                EptError::MisalignedGpa { gpa, required_alignment: size as u64 },
            )
            &&& gpa as int % size == 0 && hpa as int % size != 0 <==> e == Some(
                EptError::MisalignedHpa { hpa, required_alignment: size as u64 },
            )
            &&& gpa as int % size == 0 && hpa as int % size == 0 && v.mappings.contains_key(gpa)
                <==> e == Some(EptError::AlreadyMapped { gpa })
        }),
{
}

/// A page that was mapped has exactly the addresses, size, permissions and memory
/// type that were given; it is clean and not write-protected. No other page
/// changes, and the counters grow by that one page.
pub proof fn law_map_stores_what_was_given(
    v: EptView,
    gpa: u64,
    hpa: u64,
    page_size: PageSize,
    permissions: EptPermissions,
    memory_type: EptMemoryType,
)
    requires
        v.stats.total_mappings < u64::MAX,
        v.stats.total_mapped_bytes + page_size.size() <= u64::MAX,
        v.stats.map_operations < u64::MAX,
    ensures
        ({
            let w = v.mapped(EptView::fresh(gpa, hpa, page_size, permissions, memory_type));
            let m = w.mappings[gpa];
            &&& w.mappings.contains_key(gpa)
            &&& m.gpa == gpa
            &&& m.hpa == hpa
            &&& m.page_size == page_size
            &&& m.permissions.read == permissions.read
            &&& m.permissions.write == permissions.write
            &&& m.permissions.execute == permissions.execute
            &&& m.memory_type == memory_type
            &&& !m.dirty
            &&& !m.write_protected
            &&& forall|k: u64|
                k != gpa ==> (#[trigger] w.mappings.contains_key(k) <==> v.mappings.contains_key(
                    k,
                )) && w.mappings[k] == v.mappings[k]
            &&& w.protected == v.protected
            &&& w.dirty == v.dirty
            &&& w.tracking == v.tracking
            &&& w.stats.total_mappings == v.stats.total_mappings + 1
            &&& w.stats.total_mapped_bytes == v.stats.total_mapped_bytes + page_size.size()
            &&& w.stats.map_operations == v.stats.map_operations + 1
            &&& w.stats.unmap_operations == v.stats.unmap_operations
            &&& w.stats.protect_operations == v.stats.protect_operations
            &&& w.stats.dirty_clears == v.stats.dirty_clears
            &&& w.stats.dirty_page_count == v.stats.dirty_page_count
            &&& w.stats.write_protected_count == v.stats.write_protected_count
        }),
{
}

/// A page that was unmapped is gone from the mappings, from the protected and
/// from the dirty pages. No other page changes, and the counters shrink by that
/// one page.
pub proof fn law_unmap_forgets_the_page(v: EptView, gpa: u64)
    requires
        v.wf(),
        v.mappings.contains_key(gpa),
        v.stats.unmap_operations < u64::MAX,
    ensures
        ({
            let w = v.unmapped(gpa);
            &&& !w.mappings.contains_key(gpa)
            &&& !w.protected.contains(gpa)
            &&& !w.dirty.contains(gpa)
            &&& w.tracking == v.tracking
            &&& forall|k: u64|
                k != gpa ==> {
                    &&& #[trigger] w.mappings.contains_key(k) <==> v.mappings.contains_key(k)
                    &&& v.mappings.contains_key(k) ==> w.mappings[k] == v.mappings[k]
                    &&& w.protected.contains(k) <==> v.protected.contains(k)
                    &&& w.dirty.contains(k) <==> v.dirty.contains(k)
                }
            &&& w.stats.total_mappings + 1 == v.stats.total_mappings
            &&& w.stats.total_mapped_bytes + v.mappings[gpa].page_size.size()
                == v.stats.total_mapped_bytes
            &&& w.stats.unmap_operations == v.stats.unmap_operations + 1
            &&& w.stats.map_operations == v.stats.map_operations
            &&& w.stats.protect_operations == v.stats.protect_operations
            &&& w.stats.dirty_clears == v.stats.dirty_clears
            &&& w.stats.dirty_page_count == v.stats.dirty_page_count
            &&& w.stats.write_protected_count == w.protected.len()
        }),
{
    law_unmap_keeps_wf(v, gpa);
    lemma_mapped_size_remove(v.mappings, gpa);
    lemma_mapped_size_bound(v.mappings.remove(gpa));
    assert(v.mappings.dom().contains(gpa));
    vstd::set::axiom_set_contains_len(v.mappings.dom(), gpa);
}

/// Write protection changes nothing of a page but itself, and nothing of any
/// other page; an operation is counted exactly if it changed something.
pub proof fn law_protection_changes_nothing_else(v: EptView, gpa: u64, on: bool)
    requires
        v.wf(),
        v.mappings.contains_key(gpa),
        v.stats.protect_operations < u64::MAX,
    ensures
        ({
            let w = v.with_protection(gpa, on);
            let m = w.mappings[gpa];
            let e = v.mappings[gpa];
            &&& m.write_protected == on
            &&& m.gpa == e.gpa && m.hpa == e.hpa && m.page_size == e.page_size
            &&& m.permissions == e.permissions && m.memory_type == e.memory_type
            &&& m.dirty == e.dirty
            &&& w.protected.contains(gpa) <==> on
            &&& w.dirty == v.dirty
            &&& w.tracking == v.tracking
            &&& forall|k: u64| #[trigger]
                w.mappings.contains_key(k) <==> v.mappings.contains_key(k)
            &&& forall|k: u64|
                k != gpa ==> #[trigger] w.mappings[k] == v.mappings[k] && (w.protected.contains(k)
                    <==> v.protected.contains(k))
            &&& w.stats.protect_operations == v.stats.protect_operations + (if e.write_protected
                == on {
                0int
            } else {
                1
            })
            &&& w.stats.write_protected_count == w.protected.len()
            &&& w.stats.total_mappings == v.stats.total_mappings
            &&& w.stats.total_mapped_bytes == v.stats.total_mapped_bytes
            &&& w.stats.map_operations == v.stats.map_operations
            &&& w.stats.unmap_operations == v.stats.unmap_operations
            &&& w.stats.dirty_page_count == v.stats.dirty_page_count
            &&& w.stats.dirty_clears == v.stats.dirty_clears
        }),
{
    law_protection_keeps_wf(v, gpa, on);
    assert(v.protected.contains(gpa) <==> v.mappings[gpa].write_protected);
}

/// Protecting all pages, or clearing that, changes nothing but the protection,
/// and counts as one operation.
pub proof fn law_all_protection_changes_nothing_else(v: EptView, on: bool)
    requires
        v.wf(),
        v.stats.protect_operations < u64::MAX,
    ensures
        ({
            let w = v.with_all_protection(on);
            &&& forall|k: u64| #[trigger]
                w.mappings.contains_key(k) <==> v.mappings.contains_key(k)
            &&& forall|k: u64| #[trigger]
                v.mappings.contains_key(k) ==> {
                    let m = w.mappings[k];
                    let e = v.mappings[k];
                    &&& m.write_protected == on
                    &&& m.gpa == e.gpa && m.hpa == e.hpa && m.page_size == e.page_size
                    &&& m.permissions == e.permissions && m.memory_type == e.memory_type
                    &&& m.dirty == e.dirty
                }
            &&& forall|k: u64| #[trigger]
                w.protected.contains(k) <==> on && v.mappings.contains_key(k)
            &&& w.dirty == v.dirty
            &&& w.tracking == v.tracking
            &&& w.stats.write_protected_count == (if on {
                v.stats.total_mappings
            } else {
                0
            })
            &&& w.stats.protect_operations == v.stats.protect_operations + 1
            &&& w.stats.total_mappings == v.stats.total_mappings
            &&& w.stats.total_mapped_bytes == v.stats.total_mapped_bytes
            &&& w.stats.map_operations == v.stats.map_operations
            &&& w.stats.unmap_operations == v.stats.unmap_operations
            &&& w.stats.dirty_page_count == v.stats.dirty_page_count
            &&& w.stats.dirty_clears == v.stats.dirty_clears
        }),
{
}

/// A tracked write makes the page dirty and changes nothing else; a page that is
/// dirty already is not counted again.
pub proof fn law_write_changes_nothing_else(v: EptView, gpa: u64)
    requires
        v.wf(),
        v.tracking,
        v.mappings.contains_key(gpa),
        v.stats.dirty_page_count < u64::MAX,
    ensures
        ({
            let w = v.written(gpa);
            let m = w.mappings[gpa];
            let e = v.mappings[gpa];
            &&& m.dirty
            &&& m.gpa == e.gpa && m.hpa == e.hpa && m.page_size == e.page_size
            &&& m.permissions == e.permissions && m.memory_type == e.memory_type
            &&& m.write_protected == e.write_protected
            &&& forall|k: u64| #[trigger]
                w.mappings.contains_key(k) <==> v.mappings.contains_key(k)
            &&& forall|k: u64| k != gpa ==> #[trigger] w.mappings[k] == v.mappings[k]
            &&& forall|k: u64| #[trigger]
                w.dirty.contains(k) <==> v.dirty.contains(k) || k == gpa
            &&& w.protected == v.protected
            &&& w.tracking
            &&& w.stats.dirty_page_count == v.stats.dirty_page_count + (if e.dirty {
                0int
            } else {
                1
            })
            &&& w.stats.write_protected_count == v.stats.write_protected_count
            &&& w.stats.protect_operations == v.stats.protect_operations
            &&& w.stats.total_mappings == v.stats.total_mappings
            &&& w.stats.total_mapped_bytes == v.stats.total_mapped_bytes
            &&& w.stats.map_operations == v.stats.map_operations
            &&& w.stats.unmap_operations == v.stats.unmap_operations
            &&& w.stats.dirty_clears == v.stats.dirty_clears
        }),
{
    assert(v.dirty.contains(gpa) <==> v.mappings[gpa].dirty);
}

/// Taking the dirty pages, and ending the tracking, leave no page dirty and
/// change nothing else of any page; only the taking is counted, and only the
/// other ends the tracking.
pub proof fn law_cleaning_changes_nothing_else(v: EptView)
    requires
        v.stats.dirty_clears < u64::MAX,
    ensures
        ({
            let t = v.taken();
            let u = v.untracked();
            &&& forall|k: u64| #[trigger]
                t.mappings.contains_key(k) <==> v.mappings.contains_key(k)
            &&& forall|k: u64| #[trigger]
                v.mappings.contains_key(k) ==> {
                    let m = t.mappings[k];
                    let e = v.mappings[k];
                    &&& !m.dirty
                    &&& m.gpa == e.gpa && m.hpa == e.hpa && m.page_size == e.page_size
                    &&& m.permissions == e.permissions && m.memory_type == e.memory_type
                    &&& m.write_protected == e.write_protected
                }
            &&& u.mappings == t.mappings
            &&& forall|k: u64| !(#[trigger] t.dirty.contains(k)) && !u.dirty.contains(k)
            &&& t.protected == v.protected && u.protected == v.protected
            &&& t.tracking == v.tracking
            &&& !u.tracking
            &&& t.stats.dirty_page_count == 0 && u.stats.dirty_page_count == 0
            &&& t.stats.dirty_clears == v.stats.dirty_clears + 1
            &&& u.stats.dirty_clears == v.stats.dirty_clears
            &&& t.stats.write_protected_count == v.stats.write_protected_count
            &&& u.stats.write_protected_count == v.stats.write_protected_count
            &&& t.stats.protect_operations == v.stats.protect_operations
            &&& u.stats.protect_operations == v.stats.protect_operations
            &&& t.stats.total_mappings == v.stats.total_mappings
            &&& u.stats.total_mappings == v.stats.total_mappings
            &&& t.stats.total_mapped_bytes == v.stats.total_mapped_bytes
            &&& u.stats.total_mapped_bytes == v.stats.total_mapped_bytes
            &&& t.stats.map_operations == v.stats.map_operations
            &&& u.stats.map_operations == v.stats.map_operations
            &&& t.stats.unmap_operations == v.stats.unmap_operations
            &&& u.stats.unmap_operations == v.stats.unmap_operations
        }),
{
}

/// Every page that mapping a range adds has the given permissions and memory
/// type, lies in the range, as far from the host base as from the guest base, and
/// is a large page exactly where both addresses are aligned to it and the range
/// has room for it; nothing else than mappings changes. The number of pages that
/// is reported is the number of pages that were added.
pub proof fn law_map_range_adds_pages_as_given(
    v: EptView,
    gpa_base: u64,
    hpa_base: u64,
    size: u64,
    permissions: EptPermissions,
    memory_type: EptMemoryType,
    offset: int,
    count: int,
)
    requires
        v.mappings.dom().finite(),
        gpa_base + size <= u64::MAX + 1,
        hpa_base + size <= u64::MAX + 1,
        0 <= offset,
        0 <= count,
        offset < size ==> count + (size - offset) <= u64::MAX,
        count <= u64::MAX,
    ensures
        ({
            let (w, r) = range_mapped(
                v,
                gpa_base,
                hpa_base,
                size,
                permissions,
                memory_type,
                offset,
                count,
            );
            &&& forall|k: u64| #[trigger]
                w.mappings.contains_key(k) && !v.mappings.contains_key(k) ==> {
                    let m = w.mappings[k];
                    &&& m.gpa == k
                    &&& gpa_base + offset <= k < gpa_base + size
                    &&& m.hpa - hpa_base == k - gpa_base
                    &&& m.permissions == permissions
                    &&& m.memory_type == memory_type
                    &&& !m.dirty && !m.write_protected
                    &&& m.page_size is Page2M || m.page_size is Page4K
                    &&& m.page_size is Page2M <==> k % 0x20_0000 == 0 && m.hpa % 0x20_0000 == 0
                        && gpa_base + size - k >= 0x20_0000
                }
            &&& w.protected == v.protected
            &&& w.dirty == v.dirty
            &&& w.tracking == v.tracking
            &&& w.mappings.dom().finite()
            &&& r matches Ok(n) ==> n - count == w.mappings.dom().len() - v.mappings.dom().len()
        }),
    decreases (if offset < size { size - offset } else { 0 }),
{
    if offset < size {
        let gpa = (gpa_base + offset) as u64;
        let hpa = (hpa_base + offset) as u64;
        let page = range_page(gpa_base + offset, hpa_base + offset, size - offset);
        if v.map_error(gpa, hpa, page) is None {
            let e = EptView::fresh(gpa, hpa, page, permissions, memory_type);
            let n = v.mapped(e);
            let next = offset + page.size();
            assert(n.mappings.dom() =~= v.mappings.dom().insert(gpa));
            law_map_range_adds_pages_as_given(
                n,
                gpa_base,
                hpa_base,
                size,
                permissions,
                memory_type,
                next,
                count + 1,
            );
            law_map_range_covers(
                n,
                gpa_base,
                hpa_base,
                size,
                permissions,
                memory_type,
                next,
                count + 1,
            );
            let (w, r) = range_mapped(
                v,
                gpa_base,
                hpa_base,
                size,
                permissions,
                memory_type,
                offset,
                count,
            );
            assert(n.mappings.contains_key(gpa));
            assert(w.mappings[gpa] == e);
            assert forall|k: u64| #[trigger]
                w.mappings.contains_key(k) && !v.mappings.contains_key(k) implies {
                let m = w.mappings[k];
                &&& m.gpa == k
                &&& gpa_base + offset <= k < gpa_base + size
                &&& m.hpa - hpa_base == k - gpa_base
                &&& m.permissions == permissions
                &&& m.memory_type == memory_type
                &&& !m.dirty && !m.write_protected
                &&& m.page_size is Page2M || m.page_size is Page4K
                &&& m.page_size is Page2M <==> k % 0x20_0000 == 0 && m.hpa % 0x20_0000 == 0
                    && gpa_base + size - k >= 0x20_0000
            } by {
                if k != gpa {
                    assert(!n.mappings.contains_key(k));
                }
            }
        }
    }
}

/// A range whose bases are aligned to small pages is mapped whole if nothing in
/// it is mapped yet. Otherwise it is refused for one of these reasons, and the
/// refusal names a page of the range.
pub proof fn law_map_range_succeeds_on_free_pages(
    v: EptView,
    gpa_base: u64,
    hpa_base: u64,
    size: u64,
    permissions: EptPermissions,
    memory_type: EptMemoryType,
    offset: int,
    count: int,
)
    requires
        gpa_base + size <= u64::MAX + 1,
        hpa_base + size <= u64::MAX + 1,
        0 <= offset,
        offset % 0x1000 == 0,
    ensures
        ({
            let (w, r) = range_mapped(
                v,
                gpa_base,
                hpa_base,
                size,
                permissions,
                memory_type,
                offset,
                count,
            );
            &&& gpa_base % 0x1000 == 0 && hpa_base % 0x1000 == 0 && (forall|k: u64|
                gpa_base + offset <= k < gpa_base + size ==> !#[trigger] v.mappings.contains_key(
                    k,
                )) ==> r is Ok
            &&& offset >= size ==> r is Ok
            &&& r matches Err(e) ==> match e {
                EptError::MisalignedGpa { gpa, required_alignment } => gpa_base % 0x1000 != 0
                    && gpa == gpa_base + offset && required_alignment == 0x1000,
                EptError::MisalignedHpa { hpa, required_alignment } => gpa_base % 0x1000 == 0
                    && hpa_base % 0x1000 != 0 && hpa == hpa_base + offset && required_alignment
                    == 0x1000,
                EptError::AlreadyMapped { gpa } => gpa_base + offset <= gpa < gpa_base + size
                    && v.mappings.contains_key(gpa),
                _ => false,
            }
        }),
    decreases (if offset < size { size - offset } else { 0 }),
{
    if offset < size {
        let gpa = (gpa_base + offset) as u64;
        let hpa = (hpa_base + offset) as u64;
        let page = range_page(gpa_base + offset, hpa_base + offset, size - offset);
        if v.map_error(gpa, hpa, page) is None {
            let e = EptView::fresh(gpa, hpa, page, permissions, memory_type);
            let n = v.mapped(e);
            let next = offset + page.size();
            law_map_range_succeeds_on_free_pages(
                n,
                gpa_base,
                hpa_base,
                size,
                permissions,
                memory_type,
                next,
                count + 1,
            );
        }
    }
}

/// Counting starts at zero.
pub proof fn law_counting_starts_at_zero()
    ensures
        ({
            let s = no_stats();
            &&& s.total_mappings == 0 && s.total_mapped_bytes == 0
            &&& s.write_protected_count == 0 && s.dirty_page_count == 0
            &&& s.map_operations == 0 && s.unmap_operations == 0
            &&& s.protect_operations == 0 && s.dirty_clears == 0
        }),
{
}

/// A write is newly counted exactly if writes are tracked and the page is mapped
/// and clean.
pub proof fn law_when_a_write_is_counted(v: EptView, gpa: u64)
    requires
        v.mappings.contains_key(gpa),
        v.stats.dirty_page_count < u64::MAX,
    ensures
        v.newly_dirty(gpa) <==> v.written(gpa).stats.dirty_page_count
            == v.stats.dirty_page_count + 1,
        v.newly_dirty(gpa) <==> v.tracking && !v.mappings[gpa].dirty,
{
}

} // verus!
