//! Guest physical memory management.
//!
//! Tracks memory allocations across guests, keeps them apart, and provides
//! the foundation for second-level page tables. All allocations are aligned
//! to 2 MiB so that they can be mapped with large pages.
use crate::error::Error;
use crate::text::{dec, push_dec};
use vstd::arithmetic::power2::pow2;
use vstd::prelude::*;
use vstd::std_specs::iter::IteratorSpec;
use vstd::string::*;

verus! {

/// 2 MiB in bytes: the alignment of every guest memory region.
pub const LARGE_PAGE_SIZE: u64 = 0x20_0000;

/// `n` mebibytes in bytes.
pub open spec fn mib(n: int) -> int {
    n * 0x10_0000
}

// ---------------------------------------------------------------------------
// Alignment
// ---------------------------------------------------------------------------

/// `a` is one of the powers of two that fit in 64 bits.
pub open spec fn is_power_of_two(a: u64) -> bool {
    exists|n: nat| n < 64 && a == #[trigger] pow2(n)
}

/// `a` is a multiple of the large page size.
pub open spec fn page_aligned(a: int) -> bool {
    a % 0x20_0000 == 0
}

/// The least multiple of `align` that is not below `value`.
pub open spec fn aligned_up(value: int, align: int) -> int {
    ((value + align - 1) / align) * align
}

/// Clearing the low bits of `x` rounds it down to a multiple of `a`.
proof fn lemma_mask_rounds_down(x: u64, a: u64)
    requires
        is_power_of_two(a),
    ensures
        a > 0,
        x & !((a - 1) as u64) == x - x % a,
{
    let n: nat = choose|n: nat| n < 64 && a == #[trigger] pow2(n);
    vstd::arithmetic::power2::lemma_pow2_pos(n);
    vstd::bits::lemma_u64_low_bits_mask_is_mod(x, n);
    vstd::bits::lemma_low_bits_mask_values();
    let m: u64 = (a - 1) as u64;
    assert(vstd::bits::low_bits_mask(n) == m);
    assert(x & !m == x - (x & m)) by (bit_vector);
}

/// Rounds `value` up to the next multiple of `align`, a power of two.
pub fn align_up(value: u64, align: u64) -> (r: u64)
    requires
        is_power_of_two(align),
        value + align <= u64::MAX + 1,
    ensures
        r == aligned_up(value as int, align as int),
        r % align == 0,
        value <= r < value + align,
{
    proof {
        let n: nat = choose|n: nat| n < 64 && align == #[trigger] pow2(n);
        vstd::arithmetic::power2::lemma_pow2_pos(n);
        let x: u64 = (value + align - 1) as u64;
        lemma_mask_rounds_down(x, align);
        vstd::arithmetic::div_mod::lemma_fundamental_div_mod(x as int, align as int);
        assert((x - x % align) == (x as int / align as int) * align as int) by (nonlinear_arith)
            requires
                x as int == align as int * (x as int / align as int) + x as int % align as int,
        ;
        vstd::arithmetic::div_mod::lemma_mod_multiples_basic(x as int / align as int, align as int);
    }
    (value + (align - 1)) & !(align - 1)
}

proof fn lemma_large_page_is_power_of_two()
    ensures
        is_power_of_two(LARGE_PAGE_SIZE),
{
    vstd::arithmetic::power2::lemma2_to64();
    assert(pow2(21) == LARGE_PAGE_SIZE);
}

// ---------------------------------------------------------------------------
// Configuration and regions
// ---------------------------------------------------------------------------

/// Configuration for a guest's memory region.
#[derive(Debug, Clone)]
pub struct GuestMemoryConfig {
    /// Size in megabytes.
    pub size_mb: u64,
}

/// A reserved region of host physical memory assigned to a guest.
#[derive(Debug, Clone, PartialEq, Eq)]
pub struct MemoryRegion {
    /// Host physical base address of this region.
    pub host_base: u64,
    /// Size in bytes, a multiple of [`LARGE_PAGE_SIZE`].
    pub size: u64,
    /// Owning guest identifier.
    pub guest_id: String,
}

/// What a [`MemoryRegion`] stands for.
pub struct RegionView {
    pub host_base: u64,
    pub size: u64,
    pub guest_id: Seq<char>,
}

impl View for MemoryRegion {
    type V = RegionView;

    open spec fn view(&self) -> RegionView {
        RegionView { host_base: self.host_base, size: self.size, guest_id: self.guest_id@ }
    }
}

// ---------------------------------------------------------------------------
// Guest-physical to host-physical maps
// ---------------------------------------------------------------------------

/// A single entry in a guest's memory map.
#[derive(Debug, Clone, Copy, PartialEq, Eq, Structural)]
pub struct MemoryMapEntry {
    /// Guest physical address (start of range).
    pub gpa: u64,
    /// Host physical address that `gpa` maps to.
    pub hpa: u64,
    /// Length of the mapped range in bytes.
    pub size: u64,
}

impl MemoryMapEntry {
    /// `gpa` lies in the range that this entry maps.
    pub open spec fn covers(self, gpa: u64) -> bool {
        self.gpa <= gpa < self.gpa + self.size
    }

    /// Both ranges end below the top of the 64-bit address space.
    pub open spec fn in_range(self) -> bool {
        self.gpa + self.size <= u64::MAX && self.hpa + self.size <= u64::MAX
    }
}

/// The host address of `gpa` under the first entry that covers it.
pub open spec fn translated(entries: Seq<MemoryMapEntry>, gpa: u64) -> Option<u64>
    decreases entries.len(),
{
    if entries.len() == 0 {
        None
    } else if entries[0].covers(gpa) {
        Some((entries[0].hpa + (gpa - entries[0].gpa)) as u64)
    } else {
        translated(entries.drop_first(), gpa)
    }
}

/// The sum of the sizes of all entries.
pub open spec fn mapped_total(entries: Seq<MemoryMapEntry>) -> int
    decreases entries.len(),
{
    if entries.len() == 0 {
        0
    } else {
        mapped_total(entries.drop_last()) + entries.last().size
    }
}

proof fn lemma_mapped_total_prefix(entries: Seq<MemoryMapEntry>, n: int)
    requires
        0 <= n <= entries.len(),
    ensures
        0 <= mapped_total(entries.take(n)) <= mapped_total(entries),
    decreases entries.len(),
{
    if n < entries.len() {
        lemma_mapped_total_prefix(entries.drop_last(), n);
        assert(entries.drop_last().take(n) == entries.take(n));
    } else {
        assert(entries.take(n) == entries);
        if n > 0 {
            lemma_mapped_total_prefix(entries.drop_last(), n - 1);
            assert(entries.drop_last().take(n - 1) == entries.drop_last());
        }
    }
}

/// The guest-visible physical address space.
///
/// Every guest sees memory starting at guest address 0. The map records how
/// that space lies in host-physical memory, so that page tables can be
/// constructed from it.
#[derive(Debug, Clone)]
pub struct MemoryMap {
    guest_id: String,
    entries: Vec<MemoryMapEntry>,
}

/// What a [`MemoryMap`] stands for.
pub struct MapView {
    pub guest_id: Seq<char>,
    pub entries: Seq<MemoryMapEntry>,
}

impl View for MemoryMap {
    type V = MapView;

    closed spec fn view(&self) -> MapView {
        MapView { guest_id: self.guest_id@, entries: self.entries@ }
    }
}

impl MemoryMap {
    /// A new, empty memory map for `guest_id`.
    pub fn new(guest_id: &str) -> (r: Self)
        ensures
            r@ == (MapView { guest_id: guest_id@, entries: Seq::empty() }),
    {
        MemoryMap { guest_id: guest_id.to_owned(), entries: Vec::new() }
    }

    /// Adds a flat mapping: guest address `gpa` to host address `hpa` for
    /// `size` bytes.
    pub fn add(&mut self, gpa: u64, hpa: u64, size: u64)
        ensures
            final(self)@ == (MapView {
                guest_id: old(self)@.guest_id,
                entries: old(self)@.entries.push(MemoryMapEntry { gpa, hpa, size }),
            }),
    {
        self.entries.push(MemoryMapEntry { gpa, hpa, size });
    }

    /// Translates a guest physical address to a host physical address;
    /// `None` where the guest address is not mapped.
    #[must_use]
    pub fn translate(&self, gpa: u64) -> (r: Option<u64>)
        requires
            forall|i: int| 0 <= i < self@.entries.len() ==> #[trigger] self@.entries[i].in_range(),
        ensures
            r == translated(self@.entries, gpa),
    {
        let mut i: usize = 0;
        assert(self.entries@.skip(0) == self.entries@);
        while i < self.entries.len()
            invariant
                i <= self.entries.len(),
                forall|j: int| 0 <= j < self@.entries.len() ==> #[trigger] self@.entries[j].in_range(),
                self@.entries == self.entries@,
                translated(self.entries@, gpa) == translated(self.entries@.skip(i as int), gpa),
            decreases self.entries.len() - i,
        {
            let entry: MemoryMapEntry = self.entries[i];
            assert(self@.entries[i as int].in_range());
            assert(self.entries@.skip(i as int)[0] == entry);
            if gpa >= entry.gpa && gpa < entry.gpa + entry.size {
                return Some(entry.hpa + (gpa - entry.gpa));
            }
            assert(self.entries@.skip(i as int).drop_first() == self.entries@.skip(i + 1));
            i = i + 1;
        }
        None
    }

    /// The guest identifier this map belongs to.
    #[must_use]
    pub fn guest_id(&self) -> (r: &str)
        ensures
            r@ == self@.guest_id,
    {
        self.guest_id.as_str()
    }

    /// All mapping entries, in the order in which they were added.
    #[must_use]
    pub fn entries(&self) -> (r: &[MemoryMapEntry])
        ensures
            r@ == self@.entries,
    {
        self.entries.as_slice()
    }

    /// Total mapped bytes.
    #[must_use]
    pub fn mapped_bytes(&self) -> (r: u64)
        requires
            mapped_total(self@.entries) <= u64::MAX,
        ensures
            r == mapped_total(self@.entries),
    {
        let mut sum: u64 = 0;
        let mut i: usize = 0;
        while i < self.entries.len()
            invariant
                i <= self.entries.len(),
                self@.entries == self.entries@,
                mapped_total(self.entries@) <= u64::MAX,
                sum == mapped_total(self.entries@.take(i as int)),
            decreases self.entries.len() - i,
        {
            proof {
                lemma_mapped_total_prefix(self.entries@, i + 1);
                assert(self.entries@.take(i + 1).drop_last() == self.entries@.take(i as int));
            }
            sum = sum + self.entries[i].size;
            i = i + 1;
        }
        assert(self.entries@.take(i as int) == self.entries@);
        sum
    }
}

// ---------------------------------------------------------------------------
// The free list
// ---------------------------------------------------------------------------

/// Entry `i` is the first one in the free list with room for `size` bytes.
pub open spec fn is_first_fit(free: Seq<(u64, u64)>, size: u64, i: int) -> bool {
    &&& 0 <= i < free.len()
    &&& free[i].1 >= size
    &&& forall|j: int| 0 <= j < i ==> (#[trigger] free[j]).1 < size
}

/// Some entry of the free list has room for `size` bytes.
pub open spec fn has_fit(free: Seq<(u64, u64)>, size: u64) -> bool {
    exists|i: int| is_first_fit(free, size, i)
}

/// `s` with `e` put behind every entry whose base is not above that of `e`
/// and in front of the rest; `s` is ordered by base.
pub open spec fn insert_by_base(s: Seq<(u64, u64)>, e: (u64, u64)) -> Seq<(u64, u64)>
    decreases s.len(),
{
    if s.len() == 0 || s.last().0 <= e.0 {
        s.push(e)
    } else {
        insert_by_base(s.drop_last(), e).push(s.last())
    }
}

/// `s` ordered by base; entries with the same base keep their order.
pub open spec fn sort_by_base(s: Seq<(u64, u64)>) -> Seq<(u64, u64)>
    decreases s.len(),
{
    if s.len() == 0 {
        s
    } else {
        insert_by_base(sort_by_base(s.drop_last()), s.last())
    }
}

/// `m` followed by `e`, where `e` is joined to the last entry of `m` if it
/// starts where that one ends.
pub open spec fn push_merged(m: Seq<(u64, u64)>, e: (u64, u64)) -> Seq<(u64, u64)> {
    if m.len() > 0 && m.last().0 + m.last().1 == e.0 {
        m.drop_last().push((m.last().0, (m.last().1 + e.1) as u64))
    } else {
        m.push(e)
    }
}

/// `s` with every run of touching neighbours joined into one entry.
pub open spec fn merge_adjacent(s: Seq<(u64, u64)>) -> Seq<(u64, u64)>
    decreases s.len(),
{
    if s.len() == 0 {
        s
    } else {
        push_merged(merge_adjacent(s.drop_last()), s.last())
    }
}

/// The free list after coalescing: ordered by base, touching neighbours joined.
pub open spec fn coalesced(free: Seq<(u64, u64)>) -> Seq<(u64, u64)> {
    if free.len() < 2 {
        free
    } else {
        merge_adjacent(sort_by_base(free))
    }
}

/// The sum of the sizes of the free entries.
pub open spec fn free_bytes(free: Seq<(u64, u64)>) -> int
    decreases free.len(),
{
    if free.len() == 0 {
        0
    } else {
        free_bytes(free.drop_last()) + free.last().1
    }
}

/// The half-open ranges `[a.0, a.0 + a.1)` and `[b.0, b.0 + b.1)` share no byte.
pub open spec fn spans_disjoint(a: (u64, u64), b: (u64, u64)) -> bool {
    a.1 == 0 || b.1 == 0 || a.0 + a.1 <= b.0 || b.0 + b.1 <= a.0
}

proof fn lemma_insert_by_base_at(s: Seq<(u64, u64)>, e: (u64, u64), j: int)
    requires
        0 <= j <= s.len(),
        forall|k: int| j <= k < s.len() ==> (#[trigger] s[k]).0 > e.0,
        j > 0 ==> s[j - 1].0 <= e.0,
    ensures
        insert_by_base(s, e) == s.insert(j, e),
    decreases s.len(),
{
    if j == s.len() {
        assert(s.insert(j, e) == s.push(e));
    } else {
        assert(s[s.len() - 1].0 > e.0);
        lemma_insert_by_base_at(s.drop_last(), e, j);
        assert(s.drop_last().insert(j, e).push(s.last()) == s.insert(j, e));
    }
}

/// Where `insert_by_base` puts the new entry.
proof fn lemma_insert_position(s: Seq<(u64, u64)>, e: (u64, u64)) -> (j: int)
    ensures
        0 <= j <= s.len(),
        insert_by_base(s, e) == s.insert(j, e),
    decreases s.len(),
{
    if s.len() == 0 || s.last().0 <= e.0 {
        assert(s.insert(s.len() as int, e) == s.push(e));
        s.len() as int
    } else {
        let j: int = lemma_insert_position(s.drop_last(), e);
        assert(s.drop_last().insert(j, e).push(s.last()) == s.insert(j, e));
        j
    }
}

// ---------------------------------------------------------------------------
// The state of the memory manager
// ---------------------------------------------------------------------------

/// What a [`MemoryManager`] stands for.
pub struct ManagerView {
    /// End of the host memory that may be handed out.
    pub total: u64,
    /// Start of the host memory that may be handed out.
    pub reserved: u64,
    /// Allocated regions by increasing host base address. An empty region may
    /// stand at the base of another one.
    pub regions: Seq<RegionView>,
    /// The memory maps by guest identifier.
    pub maps: Map<Seq<char>, Seq<MemoryMapEntry>>,
    /// Start of the memory that was never handed out.
    pub next_base: u64,
    /// Returned memory, as base and size.
    pub free: Seq<(u64, u64)>,
}

/// `guest_id` owns a region.
pub open spec fn owns(regions: Seq<RegionView>, guest_id: Seq<char>) -> bool {
    exists|i: int| 0 <= i < regions.len() && (#[trigger] regions[i]).guest_id == guest_id
}

/// The position of the region that `guest_id` owns.
pub open spec fn owned_index(regions: Seq<RegionView>, guest_id: Seq<char>) -> int {
    choose|i: int| 0 <= i < regions.len() && (#[trigger] regions[i]).guest_id == guest_id
}

/// The sum of the sizes of all regions.
pub open spec fn region_bytes(regions: Seq<RegionView>) -> int
    decreases regions.len(),
{
    if regions.len() == 0 {
        0
    } else {
        region_bytes(regions.drop_last()) + regions.last().size
    }
}

/// `s` with `r` put behind every region whose base is not above that of `r`
/// and in front of the rest; `s` is ordered by base.
pub open spec fn insert_region(s: Seq<RegionView>, r: RegionView) -> Seq<RegionView>
    decreases s.len(),
{
    if s.len() == 0 || s.last().host_base <= r.host_base {
        s.push(r)
    } else {
        insert_region(s.drop_last(), r).push(s.last())
    }
}

impl RegionView {
    /// The bytes of the region, as base and size.
    pub open spec fn span(self) -> (u64, u64) {
        (self.host_base, self.size)
    }

    /// The memory map of a guest that owns this region: one flat range from
    /// guest address 0.
    pub open spec fn flat_map(self) -> Seq<MemoryMapEntry> {
        seq![MemoryMapEntry { gpa: 0, hpa: self.host_base, size: self.size }]
    }
}

impl ManagerView {
    /// The region lies where regions may lie, and its owner has its memory map.
    pub open spec fn region_ok(self, r: RegionView) -> bool {
        &&& page_aligned(r.host_base as int)
        &&& page_aligned(r.size as int)
        &&& self.reserved <= r.host_base
        &&& r.host_base + r.size <= self.total
        &&& r.host_base + r.size <= self.next_base
        &&& self.maps.contains_key(r.guest_id)
        &&& self.maps[r.guest_id] == r.flat_map()
    }

    /// The regions are ordered by base, share no byte and belong to different
    /// guests.
    pub open spec fn regions_wf(self) -> bool {
        &&& forall|i: int| 0 <= i < self.regions.len() ==> self.region_ok(#[trigger] self.regions[i])
        &&& forall|i: int, j: int|
            0 <= i < j < self.regions.len() ==> {
                &&& (#[trigger] self.regions[i]).host_base <= (#[trigger] self.regions[j]).host_base
                &&& spans_disjoint(self.regions[i].span(), self.regions[j].span())
                &&& self.regions[i].guest_id != self.regions[j].guest_id
            }
    }

    /// A guest has a memory map exactly if it owns a region.
    pub open spec fn maps_wf(self) -> bool {
        forall|id: Seq<char>| #[trigger]
            self.maps.contains_key(id) <==> owns(self.regions, id)
    }

    /// A free entry lies in memory that was handed out before.
    pub open spec fn free_ok(self, e: (u64, u64)) -> bool {
        &&& page_aligned(e.0 as int)
        &&& page_aligned(e.1 as int)
        &&& self.reserved <= e.0
        &&& e.0 + e.1 <= self.total
        &&& e.0 + e.1 <= self.next_base
    }

    /// `e` shares no byte with a region.
    pub open spec fn clear_of_regions(self, e: (u64, u64)) -> bool {
        forall|i: int|
            0 <= i < self.regions.len() ==> spans_disjoint(e, (#[trigger] self.regions[i]).span())
    }

    /// The entries of `free` share no byte with each other or with a region.
    pub open spec fn free_wf(self, free: Seq<(u64, u64)>) -> bool {
        &&& forall|i: int| 0 <= i < free.len() ==> self.free_ok(#[trigger] free[i])
        &&& forall|i: int| 0 <= i < free.len() ==> self.clear_of_regions(#[trigger] free[i])
        &&& forall|i: int, j: int|
            0 <= i < j < free.len() ==> spans_disjoint(#[trigger] free[i], #[trigger] free[j])
    }

    /// Regions and free entries lie apart, within the managed range.
    pub open spec fn laid_out(self) -> bool {
        &&& page_aligned(self.total as int)
        &&& page_aligned(self.reserved as int)
        &&& page_aligned(self.next_base as int)
        &&& self.reserved <= self.next_base
        &&& self.next_base <= self.total || self.next_base == self.reserved
        &&& self.regions_wf()
        &&& self.maps_wf()
        &&& self.free_wf(self.free)
    }

    /// All memory ever handed out is either allocated or in the free list.
    pub open spec fn conserved(self) -> bool {
        region_bytes(self.regions) + free_bytes(self.free) == self.next_base - self.reserved
    }

    /// The invariant of the memory manager.
    pub open spec fn wf(self) -> bool {
        self.laid_out() && self.conserved()
    }

    /// The state and the base address once `size` bytes have been taken from
    /// the first free entry with enough room, or else from the memory never
    /// handed out; `None` where neither has room.
    pub open spec fn take(self, size: u64) -> Option<(ManagerView, u64)> {
        if has_fit(self.free, size) {
            let i: int = choose|i: int| is_first_fit(self.free, size, i);
            let e = self.free[i];
            let rest = self.free.remove(i);
            let free = if e.1 > size {
                rest.push(((e.0 + size) as u64, (e.1 - size) as u64))
            } else {
                rest
            };
            Some((ManagerView { free, ..self }, e.0))
        } else {
            let base: int = aligned_up(self.next_base as int, LARGE_PAGE_SIZE as int);
            if base + size > self.total {
                None
            } else {
                Some((ManagerView { next_base: (base + size) as u64, ..self }, base as u64))
            }
        }
    }

    /// Region `i` shares a byte with the `size` bytes at `base`.
    pub open spec fn collides(self, base: u64, size: u64, i: int) -> bool {
        0 <= i < self.regions.len() && !spans_disjoint((base, size), self.regions[i].span())
    }

    /// Region `i` is the first one that shares a byte with the `size` bytes at `base`.
    pub open spec fn first_collision(self, base: u64, size: u64, i: int) -> bool {
        &&& self.collides(base, size, i)
        &&& forall|j: int| j < i ==> !#[trigger] self.collides(base, size, j)
    }

    /// The state once `guest_id` owns `size` bytes at `base`.
    pub open spec fn place(self, base: u64, size: u64, guest_id: Seq<char>) -> ManagerView {
        let r = RegionView { host_base: base, size, guest_id };
        ManagerView {
            regions: insert_region(self.regions, r),
            maps: self.maps.insert(guest_id, r.flat_map()),
            ..self
        }
    }

    /// The state once region `i` has been given back.
    pub open spec fn release(self, i: int) -> ManagerView {
        let r = self.regions[i];
        ManagerView {
            regions: self.regions.remove(i),
            maps: self.maps.remove(r.guest_id),
            free: coalesced(self.free.push(r.span())),
            ..self
        }
    }
}

proof fn lemma_insert_region_at(s: Seq<RegionView>, r: RegionView, j: int)
    requires
        0 <= j <= s.len(),
        forall|k: int| j <= k < s.len() ==> (#[trigger] s[k]).host_base > r.host_base,
        j > 0 ==> s[j - 1].host_base <= r.host_base,
    ensures
        insert_region(s, r) == s.insert(j, r),
    decreases s.len(),
{
    if j == s.len() {
        assert(s.insert(j, r) == s.push(r));
    } else {
        assert(s[s.len() - 1].host_base > r.host_base);
        lemma_insert_region_at(s.drop_last(), r, j);
        assert(s.drop_last().insert(j, r).push(s.last()) == s.insert(j, r));
    }
}

/// Where `insert_region` puts the new region, and that it keeps the order.
proof fn lemma_region_position(s: Seq<RegionView>, r: RegionView) -> (j: int)
    requires
        forall|a: int, b: int|
            0 <= a < b < s.len() ==> (#[trigger] s[a]).host_base <= (#[trigger] s[b]).host_base,
    ensures
        0 <= j <= s.len(),
        insert_region(s, r) == s.insert(j, r),
        forall|a: int| 0 <= a < j ==> (#[trigger] s[a]).host_base <= r.host_base,
        forall|a: int| j <= a < s.len() ==> (#[trigger] s[a]).host_base > r.host_base,
    decreases s.len(),
{
    if s.len() == 0 || s.last().host_base <= r.host_base {
        assert(s.insert(s.len() as int, r) == s.push(r));
        assert forall|a: int| 0 <= a < s.len() implies (#[trigger] s[a]).host_base
            <= r.host_base by {
            assert(s[a].host_base <= s[s.len() - 1].host_base);
        }
        s.len() as int
    } else {
        let p = s.drop_last();
        assert forall|a: int, b: int| 0 <= a < b < p.len() implies (#[trigger] p[a]).host_base <= (
        #[trigger] p[b]).host_base by {
            assert(p[a] == s[a] && p[b] == s[b]);
        }
        let j: int = lemma_region_position(p, r);
        assert(p.insert(j, r).push(s.last()) == s.insert(j, r));
        assert forall|a: int| 0 <= a < j implies (#[trigger] s[a]).host_base <= r.host_base by {
            assert(s[a] == p[a]);
        }
        assert forall|a: int| j <= a < s.len() implies (#[trigger] s[a]).host_base
            > r.host_base by {
            if a < p.len() {
                assert(s[a] == p[a]);
            }
        }
        j
    }
}

proof fn lemma_region_bytes_insert(s: Seq<RegionView>, j: int, r: RegionView)
    requires
        0 <= j <= s.len(),
    ensures
        region_bytes(s.insert(j, r)) == region_bytes(s) + r.size,
    decreases s.len(),
{
    let t = s.insert(j, r);
    if j == s.len() {
        assert(t.drop_last() == s);
    } else {
        assert(t.drop_last() == s.drop_last().insert(j, r));
        lemma_region_bytes_insert(s.drop_last(), j, r);
    }
}

proof fn lemma_region_bytes_remove(s: Seq<RegionView>, j: int)
    requires
        0 <= j < s.len(),
    ensures
        region_bytes(s.remove(j)) == region_bytes(s) - s[j].size,
{
    lemma_region_bytes_insert(s.remove(j), j, s[j]);
    assert(s.remove(j).insert(j, s[j]) == s);
}

/// The first `n` regions hold no more bytes than all of them.
proof fn lemma_region_bytes_prefix(s: Seq<RegionView>, n: int)
    requires
        0 <= n <= s.len(),
    ensures
        0 <= region_bytes(s.take(n)) <= region_bytes(s),
    decreases s.len(),
{
    if n < s.len() {
        lemma_region_bytes_prefix(s.drop_last(), n);
        assert(s.drop_last().take(n) == s.take(n));
    } else {
        assert(s.take(n) == s);
        if n > 0 {
            lemma_region_bytes_prefix(s.drop_last(), n - 1);
            assert(s.drop_last().take(n - 1) == s.drop_last());
        }
    }
}

// ---------------------------------------------------------------------------
// What every operation keeps
// ---------------------------------------------------------------------------

/// Taking memory keeps everything apart, and what was taken is aligned, lies
/// within the managed range and shares no byte with the free list or with
/// an allocated region.
pub proof fn law_take_keeps_apart(pre: ManagerView, size: u64)
    requires
        pre.laid_out(),
        page_aligned(size as int),
        pre.take(size) is Some,
    ensures
        ({
            let (mid, base) = pre.take(size)->0;
            &&& mid.laid_out()
            &&& page_aligned(base as int)
            &&& pre.reserved <= base
            &&& base + size <= pre.total
            &&& base + size <= mid.next_base
            &&& mid.clear_of_regions((base, size))
            &&& forall|i: int|
                0 <= i < mid.free.len() ==> spans_disjoint(#[trigger] mid.free[i], (base, size))
        }),
{
    let (mid, base) = pre.take(size)->0;
    assert forall|k: int| 0 <= k < mid.regions.len() implies mid.region_ok(
        #[trigger] mid.regions[k],
    ) by {
        assert(pre.region_ok(pre.regions[k]));
    }
    if has_fit(pre.free, size) {
        let i: int = choose|i: int| is_first_fit(pre.free, size, i);
        let e = pre.free[i];
        assert(pre.free_ok(e));
        assert(pre.clear_of_regions(e));
        let rest = pre.free.remove(i);
        assert forall|k: int| 0 <= k < mid.regions.len() implies spans_disjoint(
            (base, size),
            (#[trigger] mid.regions[k]).span(),
        ) by {
            assert(spans_disjoint(e, pre.regions[k].span()));
        }
        assert forall|j: int| 0 <= j < mid.free.len() implies mid.free_ok(#[trigger] mid.free[j])
            && mid.clear_of_regions(mid.free[j]) && spans_disjoint(mid.free[j], (base, size)) by {
            if j < rest.len() {
                let k: int = if j < i { j } else { j + 1 };
                assert(mid.free[j] == pre.free[k]);
                assert(spans_disjoint(pre.free[k], e) || spans_disjoint(e, pre.free[k]));
                assert(pre.free_ok(pre.free[k]));
                assert(pre.clear_of_regions(pre.free[k]));
            } else {
                assert forall|k: int| 0 <= k < mid.regions.len() implies spans_disjoint(
                    mid.free[j],
                    (#[trigger] mid.regions[k]).span(),
                ) by {
                    assert(spans_disjoint(e, pre.regions[k].span()));
                }
            }
        }
        assert forall|j: int, k: int| 0 <= j < k < mid.free.len() implies spans_disjoint(
            #[trigger] mid.free[j],
            #[trigger] mid.free[k],
        ) by {
            let jj: int = if j < i { j } else { j + 1 };
            assert(mid.free[j] == pre.free[jj]);
            if k < rest.len() {
                let kk: int = if k < i { k } else { k + 1 };
                assert(mid.free[k] == pre.free[kk]);
            } else {
                assert(spans_disjoint(pre.free[jj], e) || spans_disjoint(e, pre.free[jj]));
            }
        }
        assert(mid.free_wf(mid.free));
    } else {
        assert(aligned_up(pre.next_base as int, LARGE_PAGE_SIZE as int) == pre.next_base);
        assert(base == pre.next_base);
        assert forall|k: int| 0 <= k < mid.regions.len() implies spans_disjoint(
            (base, size),
            (#[trigger] mid.regions[k]).span(),
        ) by {
            assert(pre.region_ok(pre.regions[k]));
        }
        assert forall|j: int| 0 <= j < mid.free.len() implies mid.free_ok(#[trigger] mid.free[j])
            && mid.clear_of_regions(mid.free[j]) && spans_disjoint(mid.free[j], (base, size)) by {
            assert(pre.free_ok(pre.free[j]));
            assert(pre.clear_of_regions(pre.free[j]));
        }
    }
}

/// The memory that a request finds never collides with an allocated region.
pub proof fn law_requests_never_collide(pre: ManagerView, size: u64)
    requires
        pre.wf(),
        page_aligned(size as int),
        pre.take(size) is Some,
    ensures
        forall|i: int| !#[trigger] pre.collides((pre.take(size)->0).1, size, i),
{
    law_take_keeps_apart(pre, size);
    let (mid, base) = pre.take(size)->0;
    assert forall|i: int| !#[trigger] pre.collides(base, size, i) by {
        if 0 <= i < pre.regions.len() {
            assert(spans_disjoint((base, size), mid.regions[i].span()));
        }
    }
}

/// Handing out memory that was just taken keeps the invariant: no region is
/// displaced, no memory is lost, and the guest owns what it was given.
pub proof fn law_place_keeps_wf(pre: ManagerView, size: u64, guest_id: Seq<char>)
    requires
        pre.wf(),
        page_aligned(size as int),
        !owns(pre.regions, guest_id),
        pre.take(size) is Some,
    ensures
        ({
            let (mid, base) = pre.take(size)->0;
            let post = mid.place(base, size, guest_id);
            &&& post.wf()
            &&& owns(post.regions, guest_id)
            &&& forall|id: Seq<char>|
                id != guest_id ==> (#[trigger] owns(post.regions, id) <==> owns(pre.regions, id))
            &&& region_bytes(post.regions) == region_bytes(pre.regions) + size
        }),
{
    law_take_keeps_apart(pre, size);
    let (mid, base) = pre.take(size)->0;
    let r = RegionView { host_base: base, size, guest_id };
    let post = mid.place(base, size, guest_id);
    let p: int = lemma_region_position(pre.regions, r);
    lemma_region_bytes_insert(pre.regions, p, r);
    let from = |i: int| -> int { if i < p { i } else { i - 1 } };
    assert(post.regions[p] == r);
    assert forall|i: int| 0 <= i < post.regions.len() && i != p implies #[trigger] post.regions[i]
        == mid.regions[from(i)] && post.regions[i].guest_id != guest_id by {
        assert(pre.regions[from(i)].guest_id != guest_id);
    }
    assert forall|i: int| 0 <= i < post.regions.len() implies post.region_ok(
        #[trigger] post.regions[i],
    ) by {
        if i != p {
            assert(post.regions[i] == mid.regions[from(i)]);
            assert(mid.region_ok(mid.regions[from(i)]));
        }
    }
    assert forall|i: int, j: int| 0 <= i < j < post.regions.len() implies {
        &&& (#[trigger] post.regions[i]).host_base <= (#[trigger] post.regions[j]).host_base
        &&& spans_disjoint(post.regions[i].span(), post.regions[j].span())
        &&& post.regions[i].guest_id != post.regions[j].guest_id
    } by {
        if i == p {
            assert(post.regions[j] == mid.regions[from(j)]);
            assert(spans_disjoint((base, size), mid.regions[from(j)].span()));
        } else if j == p {
            assert(post.regions[i] == mid.regions[from(i)]);
            assert(spans_disjoint((base, size), mid.regions[from(i)].span()));
        } else {
            assert(post.regions[i] == mid.regions[from(i)]);
            assert(post.regions[j] == mid.regions[from(j)]);
        }
    }
    assert forall|i: int| 0 <= i < post.free.len() implies post.free_ok(#[trigger] post.free[i])
        && post.clear_of_regions(post.free[i]) by {
        assert(mid.free_ok(mid.free[i]));
        assert(mid.clear_of_regions(mid.free[i]));
        assert(spans_disjoint(mid.free[i], (base, size)));
        assert forall|k: int| 0 <= k < post.regions.len() implies spans_disjoint(
            post.free[i],
            (#[trigger] post.regions[k]).span(),
        ) by {
            if k != p {
                assert(post.regions[k] == mid.regions[from(k)]);
            }
        }
    }
    assert forall|id: Seq<char>| id != guest_id implies (#[trigger] owns(post.regions, id)
        <==> owns(pre.regions, id)) by {
        if owns(post.regions, id) {
            let k: int = owned_index(post.regions, id);
            assert(post.regions[k] == pre.regions[from(k)]);
        }
        if owns(pre.regions, id) {
            let k: int = owned_index(pre.regions, id);
            let kk: int = if k < p { k } else { k + 1 };
            assert(post.regions[kk] == pre.regions[k]);
        }
    }
    assert(owns(post.regions, guest_id));
    assert forall|id: Seq<char>| #[trigger] post.maps.contains_key(id) <==> owns(
        post.regions,
        id,
    ) by {
        if id != guest_id {
            assert(mid.maps.contains_key(id) <==> pre.maps.contains_key(id));
        }
    }
    if has_fit(pre.free, size) {
        let i: int = choose|i: int| is_first_fit(pre.free, size, i);
        lemma_free_bytes_remove(pre.free, i);
        if pre.free[i].1 > size {
            assert(mid.free.drop_last() == pre.free.remove(i));
        }
    } else {
        assert(aligned_up(pre.next_base as int, LARGE_PAGE_SIZE as int) == pre.next_base);
    }
}

proof fn lemma_sort_keeps_free_wf(v: ManagerView, s: Seq<(u64, u64)>)
    requires
        v.free_wf(s),
    ensures
        v.free_wf(sort_by_base(s)),
        sort_by_base(s).len() == s.len(),
        forall|i: int| 0 <= i < s.len() ==> s.contains(#[trigger] sort_by_base(s)[i]),
    decreases s.len(),
{
    if s.len() > 0 {
        let p = s.drop_last();
        let e = s.last();
        assert(v.free_wf(p)) by {
            assert forall|i: int| 0 <= i < p.len() implies v.free_ok(#[trigger] p[i])
                && v.clear_of_regions(p[i]) by {
                assert(p[i] == s[i]);
            }
            assert forall|i: int, j: int| 0 <= i < j < p.len() implies spans_disjoint(
                #[trigger] p[i],
                #[trigger] p[j],
            ) by {
                assert(p[i] == s[i] && p[j] == s[j]);
            }
        }
        lemma_sort_keeps_free_wf(v, p);
        let q = sort_by_base(p);
        let j: int = lemma_insert_position(q, e);
        let t = q.insert(j, e);
        assert forall|i: int| 0 <= i < q.len() implies spans_disjoint(#[trigger] q[i], e)
            && s.contains(q[i]) by {
            let k: int = choose|k: int| 0 <= k < p.len() && p[k] == q[i];
            assert(p.contains(q[i]));
            assert(s[k] == q[i]);
            assert(spans_disjoint(s[k], s[s.len() - 1]));
        }
        assert forall|i: int| 0 <= i < t.len() implies v.free_ok(#[trigger] t[i])
            && v.clear_of_regions(t[i]) && s.contains(t[i]) by {
            if i == j {
                assert(t[i] == s[s.len() - 1]);
            } else {
                let k: int = if i < j { i } else { i - 1 };
                assert(t[i] == q[k]);
            }
        }
        assert forall|a: int, b: int| 0 <= a < b < t.len() implies spans_disjoint(
            #[trigger] t[a],
            #[trigger] t[b],
        ) by {
            let aa: int = if a < j { a } else { a - 1 };
            let bb: int = if b < j { b } else { b - 1 };
            if a == j {
                assert(t[b] == q[bb]);
            } else if b == j {
                assert(t[a] == q[aa]);
            } else {
                assert(t[a] == q[aa] && t[b] == q[bb]);
            }
        }
    }
}

proof fn lemma_merge_keeps_free_ok(v: ManagerView, s: Seq<(u64, u64)>)
    requires
        forall|i: int| 0 <= i < s.len() ==> v.free_ok(#[trigger] s[i]),
    ensures
        forall|i: int|
            0 <= i < merge_adjacent(s).len() ==> v.free_ok(#[trigger] merge_adjacent(s)[i]),
    decreases s.len(),
{
    if s.len() > 0 {
        let p = s.drop_last();
        let m = merge_adjacent(p);
        let t = merge_adjacent(s);
        assert forall|i: int| 0 <= i < p.len() implies v.free_ok(#[trigger] p[i]) by {
            assert(p[i] == s[i]);
        }
        lemma_merge_keeps_free_ok(v, p);
        assert(v.free_ok(s[s.len() - 1]));
        assert forall|i: int| 0 <= i < t.len() implies v.free_ok(#[trigger] t[i]) by {
            if i < t.len() - 1 {
                assert(t[i] == m[i]);
            } else if m.len() > 0 {
                assert(v.free_ok(m[m.len() - 1]));
            }
        }
    }
}

/// What shares no byte with the entries of `s` shares none with the merged entries.
proof fn lemma_merge_keeps_disjoint(v: ManagerView, s: Seq<(u64, u64)>, x: (u64, u64))
    requires
        forall|i: int| 0 <= i < s.len() ==> v.free_ok(#[trigger] s[i]),
        forall|i: int| 0 <= i < s.len() ==> spans_disjoint(#[trigger] s[i], x),
    ensures
        forall|i: int|
            0 <= i < merge_adjacent(s).len() ==> spans_disjoint(
                #[trigger] merge_adjacent(s)[i],
                x,
            ),
    decreases s.len(),
{
    if s.len() > 0 {
        let p = s.drop_last();
        let m = merge_adjacent(p);
        let t = merge_adjacent(s);
        assert forall|i: int| 0 <= i < p.len() implies v.free_ok(#[trigger] p[i])
            && spans_disjoint(p[i], x) by {
            assert(p[i] == s[i]);
        }
        lemma_merge_keeps_free_ok(v, p);
        lemma_merge_keeps_disjoint(v, p, x);
        assert(v.free_ok(s[s.len() - 1]));
        assert(spans_disjoint(s[s.len() - 1], x));
        assert forall|i: int| 0 <= i < t.len() implies spans_disjoint(#[trigger] t[i], x) by {
            if i < t.len() - 1 {
                assert(t[i] == m[i]);
            } else if m.len() > 0 {
                assert(v.free_ok(m[m.len() - 1]));
                assert(spans_disjoint(m[m.len() - 1], x));
            }
        }
    }
}

proof fn lemma_merge_keeps_free_wf(v: ManagerView, s: Seq<(u64, u64)>)
    requires
        v.free_wf(s),
    ensures
        v.free_wf(merge_adjacent(s)),
    decreases s.len(),
{
    lemma_merge_keeps_free_ok(v, s);
    if s.len() > 0 {
        let p = s.drop_last();
        let e = s[s.len() - 1];
        assert forall|i: int| 0 <= i < p.len() implies v.free_ok(#[trigger] p[i])
            && v.clear_of_regions(p[i]) && spans_disjoint(p[i], e) by {
            assert(p[i] == s[i]);
        }
        assert forall|i: int, j: int| 0 <= i < j < p.len() implies spans_disjoint(
            #[trigger] p[i],
            #[trigger] p[j],
        ) by {
            assert(p[i] == s[i] && p[j] == s[j]);
        }
        lemma_merge_keeps_free_wf(v, p);
        lemma_merge_keeps_disjoint(v, p, e);
        let m = merge_adjacent(p);
        let t = merge_adjacent(s);
        assert(v.free_ok(e) && v.clear_of_regions(e));
        assert forall|i: int| 0 <= i < t.len() implies v.clear_of_regions(#[trigger] t[i]) by {
            if i < t.len() - 1 {
                assert(t[i] == m[i]);
            } else if m.len() > 0 {
                let last = m[m.len() - 1];
                assert(v.free_ok(last) && v.clear_of_regions(last));
                assert forall|k: int| 0 <= k < v.regions.len() implies spans_disjoint(
                    t[i],
                    (#[trigger] v.regions[k]).span(),
                ) by {
                    assert(spans_disjoint(last, v.regions[k].span()));
                    assert(spans_disjoint(e, v.regions[k].span()));
                }
            }
        }
        assert forall|i: int, j: int| 0 <= i < j < t.len() implies spans_disjoint(
            #[trigger] t[i],
            #[trigger] t[j],
        ) by {
            assert(t[i] == m[i]);
            if j < t.len() - 1 {
                assert(t[j] == m[j]);
            } else {
                let last = m[m.len() - 1];
                assert(v.free_ok(last) && v.free_ok(m[i]));
                assert(spans_disjoint(m[i], e));
                assert(i < m.len() - 1 ==> spans_disjoint(m[i], last));
            }
        }
    }
}

proof fn lemma_free_bytes_insert(s: Seq<(u64, u64)>, j: int, e: (u64, u64))
    requires
        0 <= j <= s.len(),
    ensures
        free_bytes(s.insert(j, e)) == free_bytes(s) + e.1,
    decreases s.len(),
{
    let t = s.insert(j, e);
    if j == s.len() {
        assert(t.drop_last() == s);
    } else {
        assert(t.drop_last() == s.drop_last().insert(j, e));
        lemma_free_bytes_insert(s.drop_last(), j, e);
    }
}

proof fn lemma_free_bytes_remove(s: Seq<(u64, u64)>, j: int)
    requires
        0 <= j < s.len(),
    ensures
        free_bytes(s.remove(j)) == free_bytes(s) - s[j].1,
{
    lemma_free_bytes_insert(s.remove(j), j, s[j]);
    assert(s.remove(j).insert(j, s[j]) == s);
}

proof fn lemma_sort_keeps_bytes(s: Seq<(u64, u64)>)
    ensures
        free_bytes(sort_by_base(s)) == free_bytes(s),
    decreases s.len(),
{
    if s.len() > 0 {
        lemma_sort_keeps_bytes(s.drop_last());
        let q = sort_by_base(s.drop_last());
        let j: int = lemma_insert_position(q, s.last());
        lemma_free_bytes_insert(q, j, s.last());
    }
}

proof fn lemma_merge_keeps_bytes(v: ManagerView, s: Seq<(u64, u64)>)
    requires
        forall|i: int| 0 <= i < s.len() ==> v.free_ok(#[trigger] s[i]),
    ensures
        free_bytes(merge_adjacent(s)) == free_bytes(s),
        forall|i: int|
            0 <= i < s.len() ==> exists|j: int|
                0 <= j < merge_adjacent(s).len() && (#[trigger] merge_adjacent(s)[j]).1 >= (
                #[trigger] s[i]).1,
    decreases s.len(),
{
    if s.len() > 0 {
        let p = s.drop_last();
        let e = s[s.len() - 1];
        let m = merge_adjacent(p);
        let t = merge_adjacent(s);
        assert forall|i: int| 0 <= i < p.len() implies v.free_ok(#[trigger] p[i]) by {
            assert(p[i] == s[i]);
        }
        lemma_merge_keeps_bytes(v, p);
        lemma_merge_keeps_free_ok(v, p);
        assert(v.free_ok(e));
        if m.len() > 0 {
            assert(v.free_ok(m[m.len() - 1]));
        }
        if m.len() > 0 && m.last().0 + m.last().1 == e.0 {
            assert(t.drop_last() == m.drop_last());
        } else {
            assert(t.drop_last() == m);
        }
        assert forall|i: int| 0 <= i < s.len() implies exists|j: int|
            0 <= j < t.len() && (#[trigger] t[j]).1 >= (#[trigger] s[i]).1 by {
            if i < p.len() {
                assert(p[i] == s[i]);
                let j: int = choose|j: int|
                    0 <= j < m.len() && (#[trigger] m[j]).1 >= p[i].1;
                assert(t[j].1 >= m[j].1);
            } else {
                assert(t[t.len() - 1].1 >= e.1);
            }
        }
    }
}

proof fn lemma_sort_keeps_members(s: Seq<(u64, u64)>)
    ensures
        forall|i: int| 0 <= i < s.len() ==> sort_by_base(s).contains(#[trigger] s[i]),
    decreases s.len(),
{
    if s.len() > 0 {
        let p = s.drop_last();
        lemma_sort_keeps_members(p);
        let q = sort_by_base(p);
        let j: int = lemma_insert_position(q, s.last());
        let t = sort_by_base(s);
        assert forall|i: int| 0 <= i < s.len() implies t.contains(#[trigger] s[i]) by {
            if i < p.len() {
                assert(q.contains(p[i]));
                let k: int = choose|k: int| 0 <= k < q.len() && q[k] == p[i];
                let kk: int = if k < j { k } else { k + 1 };
                assert(t[kk] == s[i]);
            } else {
                assert(t[j] == s[i]);
            }
        }
    }
}

proof fn lemma_free_bytes_nonnegative(s: Seq<(u64, u64)>)
    ensures
        0 <= free_bytes(s),
    decreases s.len(),
{
    if s.len() > 0 {
        lemma_free_bytes_nonnegative(s.drop_last());
    }
}

/// Giving a region back keeps the invariant. Its owner owns nothing and has no
/// memory map any more; what it held is no longer allocated and has been added
/// to the free list.
pub proof fn law_release_keeps_wf(pre: ManagerView, n: int)
    requires
        pre.wf(),
        0 <= n < pre.regions.len(),
    ensures
        ({
            let r = pre.regions[n];
            let post = pre.release(n);
            &&& post.wf()
            &&& !owns(post.regions, r.guest_id)
            &&& !post.maps.contains_key(r.guest_id)
            &&& forall|id: Seq<char>|
                id != r.guest_id ==> (#[trigger] owns(post.regions, id) <==> owns(pre.regions, id))
            &&& region_bytes(post.regions) + r.size == region_bytes(pre.regions)
            &&& free_bytes(post.free) == free_bytes(pre.free) + r.size
        }),
{
    let post = pre.release(n);
    let r = pre.regions[n];
    let e = r.span();
    let from = |i: int| -> int { if i < n { i } else { i + 1 } };
    assert(pre.region_ok(r));
    lemma_region_bytes_remove(pre.regions, n);
    let pushed = pre.free.push(e);
    assert forall|i: int| 0 <= i < post.regions.len() implies #[trigger] post.regions[i]
        == pre.regions[from(i)] && post.region_ok(post.regions[i]) && post.regions[i].guest_id
        != r.guest_id && spans_disjoint(e, post.regions[i].span()) by {
        let k: int = from(i);
        assert(post.regions[i] == pre.regions[k]);
        assert(pre.region_ok(pre.regions[k]));
        if k < n {
            assert(spans_disjoint(pre.regions[k].span(), pre.regions[n].span()));
        } else {
            assert(spans_disjoint(pre.regions[n].span(), pre.regions[k].span()));
        }
    }
    assert forall|i: int, j: int| 0 <= i < j < post.regions.len() implies {
        &&& (#[trigger] post.regions[i]).host_base <= (#[trigger] post.regions[j]).host_base
        &&& spans_disjoint(post.regions[i].span(), post.regions[j].span())
        &&& post.regions[i].guest_id != post.regions[j].guest_id
    } by {
        assert(post.regions[i] == pre.regions[from(i)]);
        assert(post.regions[j] == pre.regions[from(j)]);
    }
    assert(post.free_wf(pushed)) by {
        assert forall|i: int| 0 <= i < pushed.len() implies post.free_ok(#[trigger] pushed[i])
            && post.clear_of_regions(pushed[i]) by {
            if i < pre.free.len() {
                assert(pushed[i] == pre.free[i]);
                assert(pre.free_ok(pre.free[i]));
                assert(pre.clear_of_regions(pre.free[i]));
                assert forall|k: int| 0 <= k < post.regions.len() implies spans_disjoint(
                    pushed[i],
                    (#[trigger] post.regions[k]).span(),
                ) by {
                    assert(post.regions[k] == pre.regions[from(k)]);
                }
            }
        }
        assert forall|i: int, j: int| 0 <= i < j < pushed.len() implies spans_disjoint(
            #[trigger] pushed[i],
            #[trigger] pushed[j],
        ) by {
            assert(pushed[i] == pre.free[i]);
            assert(pre.clear_of_regions(pre.free[i]));
            assert(spans_disjoint(pre.free[i], pre.regions[n].span()));
            if j < pre.free.len() {
                assert(pushed[j] == pre.free[j]);
            }
        }
    }
    assert(pushed.drop_last() == pre.free);
    if pushed.len() >= 2 {
        let t = sort_by_base(pushed);
        lemma_sort_keeps_free_wf(post, pushed);
        lemma_merge_keeps_free_wf(post, t);
        lemma_sort_keeps_bytes(pushed);
        lemma_merge_keeps_bytes(post, t);
    }
    assert forall|id: Seq<char>| id != r.guest_id implies (#[trigger] owns(post.regions, id)
        <==> owns(pre.regions, id)) by {
        if owns(post.regions, id) {
            let k: int = owned_index(post.regions, id);
            assert(post.regions[k] == pre.regions[from(k)]);
        }
        if owns(pre.regions, id) {
            let k: int = owned_index(pre.regions, id);
            let kk: int = if k < n { k } else { k - 1 };
            assert(post.regions[kk] == pre.regions[k]);
        }
    }
    assert forall|id: Seq<char>| #[trigger] post.maps.contains_key(id) <==> owns(
        post.regions,
        id,
    ) by {
        if id != r.guest_id {
            assert(post.maps.contains_key(id) <==> pre.maps.contains_key(id));
        }
    }
}

// ---------------------------------------------------------------------------
// Memory manager
// ---------------------------------------------------------------------------

/// The maps in `s` by guest identifier.
pub open spec fn maps_by_guest(s: Seq<MemoryMap>) -> Map<Seq<char>, Seq<MemoryMapEntry>>
    decreases s.len(),
{
    if s.len() == 0 {
        Map::empty()
    } else {
        maps_by_guest(s.drop_last()).insert(s.last()@.guest_id, s.last()@.entries)
    }
}

/// No two maps in `s` belong to the same guest.
pub open spec fn guests_distinct(s: Seq<MemoryMap>) -> bool {
    forall|i: int, j: int|
        0 <= i < j < s.len() ==> (#[trigger] s[i])@.guest_id != (#[trigger] s[j])@.guest_id
}

proof fn lemma_maps_by_guest(s: Seq<MemoryMap>)
    requires
        guests_distinct(s),
    ensures
        forall|i: int|
            0 <= i < s.len() ==> maps_by_guest(s).contains_key((#[trigger] s[i])@.guest_id)
                && maps_by_guest(s)[s[i]@.guest_id] == s[i]@.entries,
        forall|id: Seq<char>| #[trigger]
            maps_by_guest(s).contains_key(id) ==> exists|i: int|
                0 <= i < s.len() && (#[trigger] s[i])@.guest_id == id,
    decreases s.len(),
{
    if s.len() > 0 {
        let p = s.drop_last();
        assert(guests_distinct(p)) by {
            assert forall|i: int, j: int| 0 <= i < j < p.len() implies (#[trigger] p[i])@.guest_id
                != (#[trigger] p[j])@.guest_id by {
                assert(p[i] == s[i] && p[j] == s[j]);
            }
        }
        lemma_maps_by_guest(p);
        assert forall|i: int| 0 <= i < s.len() implies maps_by_guest(s).contains_key(
            (#[trigger] s[i])@.guest_id,
        ) && maps_by_guest(s)[s[i]@.guest_id] == s[i]@.entries by {
            if i < p.len() {
                assert(p[i] == s[i]);
                assert(s[i]@.guest_id != s[s.len() - 1]@.guest_id);
            }
        }
        assert forall|id: Seq<char>| #[trigger] maps_by_guest(s).contains_key(id) implies exists|
            i: int,
        | 0 <= i < s.len() && (#[trigger] s[i])@.guest_id == id by {
            if id == s[s.len() - 1]@.guest_id {
            } else {
                assert(maps_by_guest(p).contains_key(id));
                let i: int = choose|i: int| 0 <= i < p.len() && (#[trigger] p[i])@.guest_id == id;
                assert(s[i]@.guest_id == id);
            }
        }
    }
}

/// Manages host memory allocation across all guests.
///
/// A bump allocator with 2 MiB alignment. Returned regions are kept in a free
/// list so that later allocations can reuse the space.
pub struct MemoryManager {
    /// Total available host memory in bytes.
    pub total_bytes: u64,
    /// Reserved for hypervisor overhead, at the bottom of the range.
    pub reserved_bytes: u64,
    /// Allocated regions by increasing host base address. An empty region may
    /// stand at the base of another one.
    pub regions: Vec<MemoryRegion>,
    /// The memory maps, one per guest.
    pub memory_maps: Vec<MemoryMap>,
    /// Next available base address.
    pub next_base: u64,
    /// Returned regions available for reuse, as base and size.
    pub free_list: Vec<(u64, u64)>,
}

impl View for MemoryManager {
    type V = ManagerView;

    open spec fn view(&self) -> ManagerView {
        ManagerView {
            total: self.total_bytes,
            reserved: self.reserved_bytes,
            regions: self.regions@.map_values(|r: MemoryRegion| r@),
            maps: maps_by_guest(self.memory_maps@),
            next_base: self.next_base,
            free: self.free_list@,
        }
    }
}

/// The message for a guest that already owns a region.
pub open spec fn duplicate_text(guest_id: Seq<char>) -> Seq<char> {
    "guest '"@ + guest_id + "' already has an allocated region"@
}

/// The message for a request that no free memory can meet.
pub open spec fn exhausted_text(size: nat, guest_id: Seq<char>, remaining: nat) -> Seq<char> {
    "cannot allocate "@ + dec(size / 0x10_0000) + " MB for '"@ + guest_id + "': only "@ + dec(
        remaining / 0x10_0000,
    ) + " MB remaining"@
}

/// The message for a request that collides with the region of `other`.
pub open spec fn overlap_text(guest_id: Seq<char>, other: Seq<char>) -> Seq<char> {
    "region for '"@ + guest_id + "' overlaps with '"@ + other + "'"@
}

/// The message for a guest that owns no region.
pub open spec fn not_found_text(guest_id: Seq<char>) -> Seq<char> {
    "no region found for guest '"@ + guest_id + "'"@
}

impl MemoryManager {
    /// The invariant of the memory manager.
    pub open spec fn wf(&self) -> bool {
        &&& guests_distinct(self.memory_maps@)
        &&& self@.wf()
    }

    /// A new memory manager.
    ///
    /// `total_mb` is the host memory the hypervisor may use, `reserved_mb` the
    /// part at its start that is kept for the hypervisor itself. Both are
    /// rounded up to the large page size.
    #[must_use]
    pub fn new(total_mb: u64, reserved_mb: u64) -> (r: Self)
        requires
            mib(total_mb as int) + LARGE_PAGE_SIZE <= u64::MAX + 1,
            mib(reserved_mb as int) + LARGE_PAGE_SIZE <= u64::MAX + 1,
        ensures
            r.wf(),
            r@.total == aligned_up(mib(total_mb as int), LARGE_PAGE_SIZE as int),
            r@.reserved == aligned_up(mib(reserved_mb as int), LARGE_PAGE_SIZE as int),
            r@.next_base == r@.reserved,
            r@.regions == Seq::<RegionView>::empty(),
            r@.maps == Map::<Seq<char>, Seq<MemoryMapEntry>>::empty(),
            r@.free == Seq::<(u64, u64)>::empty(),
    {
        proof {
            lemma_large_page_is_power_of_two();
        }
        let reserved_bytes: u64 = align_up(reserved_mb * 1024 * 1024, LARGE_PAGE_SIZE);
        let total_bytes: u64 = align_up(total_mb * 1024 * 1024, LARGE_PAGE_SIZE);
        let r = MemoryManager {
            total_bytes,
            reserved_bytes,
            regions: Vec::new(),
            memory_maps: Vec::new(),
            next_base: reserved_bytes,
            free_list: Vec::new(),
        };
        assert(r@.regions == Seq::<RegionView>::empty());
        r
    }

    /// All allocated regions, by increasing base address.
    pub fn regions(&self) -> (r: std::slice::Iter<'_, MemoryRegion>)
        ensures
            r.remaining() == self.regions@.as_ref(),
            r.decrease() is Some,
            r.initial_value_relation(&r),
    {
        self.regions.iter()
    }

    /// The position of the region that `guest_id` owns.
    fn region_index(&self, guest_id: &str) -> (r: Option<usize>)
        requires
            self.wf(),
        ensures
            r is Some <==> owns(self@.regions, guest_id@),
            r matches Some(i) ==> i < self.regions.len() && self@.regions[i as int].guest_id
                == guest_id@ && i == owned_index(self@.regions, guest_id@),
    {
        let id: String = guest_id.to_owned();
        let mut i: usize = 0;
        while i < self.regions.len()
            invariant
                self.wf(),
                i <= self.regions.len(),
                id@ == guest_id@,
                forall|j: int| 0 <= j < i ==> (#[trigger] self@.regions[j]).guest_id != id@,
            decreases self.regions.len() - i,
        {
            assert(self@.regions[i as int] == self.regions@[i as int]@);
            if self.regions[i].guest_id == id {
                proof {
                    let k: int = owned_index(self@.regions, guest_id@);
                    assert(self@.regions[k].guest_id == self@.regions[i as int].guest_id);
                }
                return Some(i);
            }
            i = i + 1;
        }
        None
    }

    /// Looks up the allocated region of `guest_id`.
    #[must_use]
    pub fn get_region(&self, guest_id: &str) -> (r: Option<&MemoryRegion>)
        requires
            self.wf(),
        ensures
            r is Some <==> owns(self@.regions, guest_id@),
            r matches Some(x) ==> x@ == self@.regions[owned_index(self@.regions, guest_id@)]
                && x@.guest_id == guest_id@,
    {
        match self.region_index(guest_id) {
            Some(i) => Some(&self.regions[i]),
            None => None,
        }
    }

    /// Checks that `[base, base + size)` shares no byte with an allocated region.
    pub fn check_overlap(&self, base: u64, size: u64, guest_id: &str) -> (r: Result<(), Error>)
        requires
            self.wf(),
            base + size <= u64::MAX,
        ensures
            r is Ok <==> forall|i: int| !#[trigger] self@.collides(base, size, i),
            r matches Err(e) ==> exists|i: int| #[trigger]
                self@.first_collision(base, size, i) && (e matches Error::Memory(m) && m@
                    == overlap_text(guest_id@, self@.regions[i].guest_id)),
    {
        let mut i: usize = 0;
        while i < self.regions.len()
            invariant
                self.wf(),
                i <= self.regions.len(),
                base + size <= u64::MAX,
                forall|j: int| j < i ==> !#[trigger] self@.collides(base, size, j),
            decreases self.regions.len() - i,
        {
            let region = &self.regions[i];
            assert(self@.regions[i as int] == region@);
            assert(self@.region_ok(self@.regions[i as int]));
            let existing_end: u64 = region.host_base + region.size;
            if size > 0 && region.size > 0 && base < existing_end && base + size
                > region.host_base {
                assert(self@.first_collision(base, size, i as int));
                let mut m: String = String::new();
                m.append("region for '");
                m.append(guest_id);
                m.append("' overlaps with '");
                m.append(region.guest_id.as_str());
                m.append("'");
                return Err(Error::Memory(m));
            }
            i = i + 1;
        }
        Ok(())
    }
}

proof fn lemma_sort_take(s: Seq<(u64, u64)>, i: int)
    requires
        0 <= i < s.len(),
    ensures
        sort_by_base(s.take(i + 1)) == insert_by_base(sort_by_base(s.take(i)), s[i]),
{
    assert(s.take(i + 1).drop_last() == s.take(i));
}

/// The entries of `free` ordered by base; entries with the same base keep
/// their order.
fn sorted_by_base(free: &Vec<(u64, u64)>) -> (r: Vec<(u64, u64)>)
    ensures
        r@ == sort_by_base(free@),
{
    let mut out: Vec<(u64, u64)> = Vec::new();
    let mut i: usize = 0;
    assert(free@.take(0) == Seq::<(u64, u64)>::empty());
    while i < free.len()
        invariant
            i <= free.len(),
            out@ == sort_by_base(free@.take(i as int)),
        decreases free.len() - i,
    {
        let e: (u64, u64) = free[i];
        let mut j: usize = out.len();
        while j > 0 && out[j - 1].0 > e.0
            invariant
                j <= out.len(),
                forall|k: int| j <= k < out.len() ==> (#[trigger] out[k]).0 > e.0,
            decreases j,
        {
            j = j - 1;
        }
        proof {
            lemma_insert_by_base_at(out@, e, j as int);
            lemma_sort_take(free@, i as int);
        }
        out.insert(j, e);
        i = i + 1;
    }
    assert(free@.take(i as int) == free@);
    out
}

impl MemoryManager {
    /// First-fit search in the free list for a slot of at least `size` bytes.
    pub fn find_free_slot(&self, size: u64) -> (r: Option<usize>)
        ensures
            r is Some <==> has_fit(self@.free, size),
            r matches Some(i) ==> is_first_fit(self@.free, size, i as int),
    {
        let mut i: usize = 0;
        while i < self.free_list.len()
            invariant
                i <= self.free_list.len(),
                forall|j: int| 0 <= j < i ==> (#[trigger] self.free_list@[j]).1 < size,
            decreases self.free_list.len() - i,
        {
            if self.free_list[i].1 >= size {
                assert(is_first_fit(self@.free, size, i as int));
                return Some(i);
            }
            i = i + 1;
        }
        None
    }

    /// Merges adjacent entries of the free list to reduce fragmentation.
    pub fn coalesce_free_list(&mut self)
        requires
            forall|i: int|
                0 <= i < old(self).free_list.len() ==> (#[trigger] old(self).free_list@[i]).0
                    + old(self).free_list@[i].1 <= u64::MAX,
        ensures
            final(self)@ == (ManagerView { free: coalesced(old(self)@.free), ..old(self)@ }),
            final(self).memory_maps == old(self).memory_maps,
    {
        if self.free_list.len() < 2 {
            return;
        }
        let sorted: Vec<(u64, u64)> = sorted_by_base(&self.free_list);
        let mut merged: Vec<(u64, u64)> = Vec::new();
        let mut i: usize = 0;
        proof {
            lemma_sort_keeps_entries(self.free_list@);
        }
        assert(sorted@.take(0) == Seq::<(u64, u64)>::empty());
        while i < sorted.len()
            invariant
                i <= sorted.len(),
                forall|j: int|
                    0 <= j < sorted.len() ==> (#[trigger] sorted@[j]).0 + sorted@[j].1 <= u64::MAX,
                merged@ == merge_adjacent(sorted@.take(i as int)),
                forall|j: int|
                    0 <= j < merged.len() ==> (#[trigger] merged@[j]).0 + merged@[j].1 <= u64::MAX,
            decreases sorted.len() - i,
        {
            let e: (u64, u64) = sorted[i];
            assert(sorted@.take(i + 1).drop_last() == sorted@.take(i as int));
            assert(sorted@.take(i + 1).last() == e);
            let n: usize = merged.len();
            if n > 0 && merged[n - 1].0 + merged[n - 1].1 == e.0 {
                let last: (u64, u64) = merged[n - 1];
                let ghost before = merged@;
                merged[n - 1] = (last.0, last.1 + e.1);
                assert(merged@ == before.drop_last().push((last.0, (last.1 + e.1) as u64)));
            } else {
                merged.push(e);
            }
            i = i + 1;
        }
        assert(sorted@.take(i as int) == sorted@);
        self.free_list = merged;
    }
}

proof fn lemma_sort_keeps_entries(s: Seq<(u64, u64)>)
    ensures
        sort_by_base(s).len() == s.len(),
        forall|i: int| 0 <= i < s.len() ==> s.contains(#[trigger] sort_by_base(s)[i]),
    decreases s.len(),
{
    if s.len() > 0 {
        let p = s.drop_last();
        lemma_sort_keeps_entries(p);
        let q = sort_by_base(p);
        let j: int = lemma_insert_position(q, s.last());
        let t = sort_by_base(s);
        assert forall|i: int| 0 <= i < t.len() implies s.contains(#[trigger] t[i]) by {
            if i == j {
                assert(t[i] == s[s.len() - 1]);
            } else {
                let k: int = if i < j { i } else { i - 1 };
                assert(t[i] == q[k]);
                assert(p.contains(q[k]));
                let n: int = choose|n: int| 0 <= n < p.len() && p[n] == q[k];
                assert(s[n] == t[i]);
            }
        }
    }
}

/// `s` with entry `i` taken out holds the maps of all guests but that one.
proof fn lemma_maps_remove(s: Seq<MemoryMap>, i: int)
    requires
        guests_distinct(s),
        0 <= i < s.len(),
    ensures
        guests_distinct(s.remove(i)),
        maps_by_guest(s.remove(i)) == maps_by_guest(s).remove(s[i]@.guest_id),
{
    let t = s.remove(i);
    assert forall|a: int, b: int| 0 <= a < b < t.len() implies (#[trigger] t[a])@.guest_id != (
    #[trigger] t[b])@.guest_id by {
        let aa: int = if a < i { a } else { a + 1 };
        let bb: int = if b < i { b } else { b + 1 };
        assert(t[a] == s[aa] && t[b] == s[bb]);
    }
    lemma_maps_by_guest(s);
    lemma_maps_by_guest(t);
    let ms = maps_by_guest(s).remove(s[i]@.guest_id);
    let mt = maps_by_guest(t);
    assert forall|id: Seq<char>| mt.contains_key(id) <==> ms.contains_key(id) by {
        if mt.contains_key(id) {
            let a: int = choose|a: int| 0 <= a < t.len() && (#[trigger] t[a])@.guest_id == id;
            let aa: int = if a < i { a } else { a + 1 };
            assert(t[a] == s[aa]);
            assert(s[aa]@.guest_id != s[i]@.guest_id);
        }
        if ms.contains_key(id) {
            assert(maps_by_guest(s).contains_key(id));
            let a: int = choose|a: int| 0 <= a < s.len() && (#[trigger] s[a])@.guest_id == id;
            let aa: int = if a < i { a } else { a - 1 };
            assert(t[aa] == s[a]);
        }
    }
    assert forall|id: Seq<char>| mt.contains_key(id) implies mt[id] == ms[id] by {
        let a: int = choose|a: int| 0 <= a < t.len() && (#[trigger] t[a])@.guest_id == id;
        let aa: int = if a < i { a } else { a + 1 };
        assert(t[a] == s[aa]);
    }
    assert(mt =~= ms);
}

/// `s` with a map for a new guest behind it.
proof fn lemma_maps_push(s: Seq<MemoryMap>, m: MemoryMap)
    requires
        guests_distinct(s),
        !maps_by_guest(s).contains_key(m@.guest_id),
    ensures
        guests_distinct(s.push(m)),
        maps_by_guest(s.push(m)) == maps_by_guest(s).insert(m@.guest_id, m@.entries),
{
    let t = s.push(m);
    lemma_maps_by_guest(s);
    assert(t.drop_last() == s);
    assert forall|a: int, b: int| 0 <= a < b < t.len() implies (#[trigger] t[a])@.guest_id != (
    #[trigger] t[b])@.guest_id by {
        assert(t[a] == s[a]);
        assert(maps_by_guest(s).contains_key(s[a]@.guest_id));
        if b < s.len() {
            assert(t[b] == s[b]);
        }
    }
}

impl MemoryManager {
    /// The position of the memory map of `guest_id`.
    fn map_index(&self, guest_id: &str) -> (r: Option<usize>)
        requires
            guests_distinct(self.memory_maps@),
        ensures
            r is Some <==> self@.maps.contains_key(guest_id@),
            r matches Some(i) ==> i < self.memory_maps.len() && self.memory_maps@[i as int]@.guest_id
                == guest_id@,
    {
        let id: String = guest_id.to_owned();
        let mut i: usize = 0;
        proof {
            lemma_maps_by_guest(self.memory_maps@);
        }
        while i < self.memory_maps.len()
            invariant
                i <= self.memory_maps.len(),
                id@ == guest_id@,
                forall|j: int| 0 <= j < i ==> (#[trigger] self.memory_maps@[j])@.guest_id != id@,
                forall|j: int|
                    0 <= j < self.memory_maps.len() ==> self@.maps.contains_key(
                        (#[trigger] self.memory_maps@[j])@.guest_id,
                    ),
            decreases self.memory_maps.len() - i,
        {
            if self.memory_maps[i].guest_id == id {
                assert(self@.maps.contains_key(self.memory_maps@[i as int]@.guest_id));
                return Some(i);
            }
            i = i + 1;
        }
        None
    }

    /// The memory map of `guest_id`.
    #[must_use]
    pub fn get_memory_map(&self, guest_id: &str) -> (r: Option<&MemoryMap>)
        requires
            self.wf(),
        ensures
            r is Some <==> self@.maps.contains_key(guest_id@),
            r matches Some(m) ==> m@ == (MapView {
                guest_id: guest_id@,
                entries: self@.maps[guest_id@],
            }),
            r matches Some(m) ==> forall|i: int|
                0 <= i < m@.entries.len() ==> #[trigger] m@.entries[i].in_range(),
            r matches Some(m) ==> mapped_total(m@.entries) <= u64::MAX,
    {
        match self.map_index(guest_id) {
            Some(i) => {
                proof {
                    lemma_maps_by_guest(self.memory_maps@);
                    law_owner_has_its_map(self@, guest_id@);
                    let e = self@.maps[guest_id@];
                    let n: int = owned_index(self@.regions, guest_id@);
                    assert(self@.region_ok(self@.regions[n]));
                    assert(e.drop_last() == Seq::<MemoryMapEntry>::empty());
                    reveal_with_fuel(mapped_total, 2);
                }
                Some(&self.memory_maps[i])
            },
            None => None,
        }
    }

    /// Forgets the memory map of `guest_id`.
    fn remove_map(&mut self, guest_id: &str)
        requires
            guests_distinct(old(self).memory_maps@),
        ensures
            guests_distinct(final(self).memory_maps@),
            final(self)@ == (ManagerView { maps: old(self)@.maps.remove(guest_id@), ..old(self)@ }),
    {
        match self.map_index(guest_id) {
            Some(i) => {
                proof {
                    lemma_maps_remove(self.memory_maps@, i as int);
                }
                let _removed: MemoryMap = self.memory_maps.remove(i);
            },
            None => {},
        }
        assert(self@.maps == old(self)@.maps.remove(guest_id@));
    }

    /// Records `map` as the memory map of its guest.
    fn insert_map(&mut self, map: MemoryMap)
        requires
            guests_distinct(old(self).memory_maps@),
        ensures
            guests_distinct(final(self).memory_maps@),
            final(self)@ == (ManagerView {
                maps: old(self)@.maps.insert(map@.guest_id, map@.entries),
                ..old(self)@
            }),
    {
        self.remove_map(map.guest_id());
        proof {
            lemma_maps_push(self.memory_maps@, map);
        }
        self.memory_maps.push(map);
        assert(self@.maps == old(self)@.maps.insert(map@.guest_id, map@.entries));
    }

    /// Puts `region` where the order by base address wants it.
    fn insert_region(&mut self, region: MemoryRegion)
        ensures
            final(self).memory_maps == old(self).memory_maps,
            final(self)@ == (ManagerView {
                regions: insert_region(old(self)@.regions, region@),
                ..old(self)@
            }),
    {
        let mut j: usize = self.regions.len();
        while j > 0 && self.regions[j - 1].host_base > region.host_base
            invariant
                j <= self.regions.len(),
                forall|k: int|
                    j <= k < self.regions.len() ==> (#[trigger] self.regions@[k]).host_base
                        > region.host_base,
            decreases j,
        {
            j = j - 1;
        }
        proof {
            assert forall|k: int| j <= k < self@.regions.len() implies (
            #[trigger] self@.regions[k]).host_base > region@.host_base by {
                assert(self.regions@[k].host_base > region.host_base);
            }
            lemma_insert_region_at(self@.regions, region@, j as int);
        }
        self.regions.insert(j, region);
        assert(self@.regions == old(self)@.regions.insert(j as int, region@));
    }

    /// The arithmetic of an allocation stays within 64 bits.
    pub open spec fn allocate_in_range(&self, guest_id: Seq<char>, size_mb: u64) -> bool {
        !owns(self@.regions, guest_id) ==> {
            &&& mib(size_mb as int) + LARGE_PAGE_SIZE <= u64::MAX + 1
            &&& !has_fit(self@.free, request_size(size_mb)) ==> self@.next_base + LARGE_PAGE_SIZE
                <= u64::MAX + 1 && self@.next_base + request_size(size_mb) <= u64::MAX
        }
    }

    /// Allocates a contiguous, aligned memory region for a guest.
    ///
    /// `size_mb` is rounded up to the large page size. The result is the host
    /// base address of the region. A [`MemoryMap`] from guest address 0 to that
    /// base is recorded for the guest.
    ///
    /// Fails where the guest already owns a region and where no memory is left;
    /// the manager is then left as it was.
    pub fn allocate(&mut self, guest_id: &str, size_mb: u64) -> (r: Result<u64, Error>)
        requires
            old(self).wf(),
            old(self).allocate_in_range(guest_id@, size_mb),
        ensures
            final(self).wf(),
            allocated(old(self)@, guest_id@, size_mb, final(self)@, r),
            old(self)@.maps.contains_key(guest_id@) ==> r is Err,
            r is Err ==> (r matches Err(Error::Memory(_))) && final(self)@ == old(self)@,
            r is Ok ==> final(self)@.maps.contains_key(guest_id@),
    {
        if self.get_region(guest_id).is_some() {
            let mut m: String = String::new();
            m.append("guest '");
            m.append(guest_id);
            m.append("' already has an allocated region");
            return Err(Error::Memory(m));
        }
        proof {
            lemma_large_page_is_power_of_two();
        }
        let size: u64 = align_up(size_mb * 1024 * 1024, LARGE_PAGE_SIZE);
        let ghost pre = self@;
        let slot: Option<usize> = self.find_free_slot(size);
        let base: u64 = match slot {
            Some(idx) => {
                proof {
                    let i: int = choose|i: int| is_first_fit(pre.free, size, i);
                    assert(i == idx);
                    assert(pre.free_ok(pre.free[i]));
                }
                self.free_list[idx].0
            },
            None => {
                let base: u64 = align_up(self.next_base, LARGE_PAGE_SIZE);
                assert(base == self.next_base);
                if base + size > self.total_bytes {
                    let mut m: String = String::new();
                    m.append("cannot allocate ");
                    push_dec(&mut m, size / (1024 * 1024));
                    m.append(" MB for '");
                    m.append(guest_id);
                    m.append("': only ");
                    push_dec(&mut m, self.total_bytes.saturating_sub(base) / (1024 * 1024));
                    m.append(" MB remaining");
                    return Err(Error::Memory(m));
                }
                base
            },
        };
        proof {
            assert(pre.take(size) is Some && (pre.take(size)->0).1 == base);
            law_requests_never_collide(pre, size);
            law_take_keeps_apart(pre, size);
            law_place_keeps_wf(pre, size, guest_id@);
        }
        match self.check_overlap(base, size, guest_id) {
            Ok(()) => {},
            Err(e) => {
                return Err(e);
            },
        }
        match slot {
            Some(idx) => {
                let slot: (u64, u64) = self.free_list.remove(idx);
                let leftover: u64 = slot.1 - size;
                if leftover > 0 {
                    self.free_list.push((slot.0 + size, leftover));
                }
            },
            None => {
                self.next_base = base + size;
            },
        }
        assert(pre.take(size) == Some((self@, base)));
        let ghost mid = self@;
        let region = MemoryRegion { host_base: base, size, guest_id: guest_id.to_owned() };
        self.insert_region(region);
        let mut mmap: MemoryMap = MemoryMap::new(guest_id);
        mmap.add(0, base, size);
        assert(mmap@.entries == region@.flat_map());
        self.insert_map(mmap);
        assert(self@ == mid.place(base, size, guest_id@));
        Ok(base)
    }

    /// Returns the memory region owned by `guest_id`.
    ///
    /// The region goes to the free list, where later allocations find it.
    /// Fails where the guest owns no region.
    pub fn deallocate(&mut self, guest_id: &str) -> (r: Result<(), Error>)
        requires
            old(self).wf(),
        ensures
            final(self).wf(),
            r is Ok <==> owns(old(self)@.regions, guest_id@),
            r is Ok ==> final(self)@ == old(self)@.release(
                owned_index(old(self)@.regions, guest_id@),
            ),
            r matches Err(e) ==> final(self)@ == old(self)@ && (e matches Error::Memory(m) && m@
                == not_found_text(guest_id@)),
    {
        let ghost pre = self@;
        match self.region_index(guest_id) {
            Some(i) => {
                let ghost k: int = i as int;
                proof {
                    assert(pre.region_ok(pre.regions[k]));
                    law_release_keeps_wf(pre, k);
                }
                let region: MemoryRegion = self.regions.remove(i);
                assert(self@.regions == pre.regions.remove(k));
                assert(region@ == pre.regions[k]);
                self.remove_map(guest_id);
                self.free_list.push((region.host_base, region.size));
                assert forall|i: int| 0 <= i < self.free_list.len() implies (
                #[trigger] self.free_list@[i]).0 + self.free_list@[i].1 <= u64::MAX by {
                    if i < pre.free.len() {
                        assert(pre.free_ok(pre.free[i]));
                        assert(self.free_list@[i] == pre.free[i]);
                    }
                }
                self.coalesce_free_list();
                assert(self@ == pre.release(k));
                Ok(())
            },
            None => {
                let mut m: String = String::new();
                m.append("no region found for guest '");
                m.append(guest_id);
                m.append("'");
                Err(Error::Memory(m))
            },
        }
    }
}

/// The size of the region that a request for `size_mb` megabytes leads to.
pub open spec fn request_size(size_mb: u64) -> u64 {
    aligned_up(mib(size_mb as int), LARGE_PAGE_SIZE as int) as u64
}

/// What an allocation does: the outcome `r` and the state `post` that follow
/// from the state `pre`.
pub open spec fn allocated(
    pre: ManagerView,
    guest_id: Seq<char>,
    size_mb: u64,
    post: ManagerView,
    r: Result<u64, Error>,
) -> bool {
    let size = request_size(size_mb);
    if owns(pre.regions, guest_id) {
        &&& r matches Err(Error::Memory(m)) && m@ == duplicate_text(guest_id)
        &&& post == pre
    } else {
        match pre.take(size) {
            None => {
                &&& r matches Err(Error::Memory(m)) && m@ == exhausted_text(
                    size as nat,
                    guest_id,
                    if pre.total >= pre.next_base {
                        (pre.total - pre.next_base) as nat
                    } else {
                        0
                    },
                )
                &&& post == pre
            },
            Some((mid, base)) => {
                &&& r matches Ok(b) && b == base
                &&& post == mid.place(base, size, guest_id)
            },
        }
    }
}

// ---------------------------------------------------------------------------
// Accounting
// ---------------------------------------------------------------------------

/// The memory that regions may take up.
pub open spec fn usable_bytes(v: ManagerView) -> int {
    if v.total >= v.reserved {
        v.total - v.reserved
    } else {
        0
    }
}

/// All regions together fit in the memory that they may take up.
proof fn lemma_bytes_within(v: ManagerView)
    requires
        v.wf(),
    ensures
        0 <= region_bytes(v.regions) <= usable_bytes(v),
        0 <= free_bytes(v.free),
{
    lemma_region_bytes_prefix(v.regions, 0);
    lemma_free_bytes_nonnegative(v.free);
}

impl MemoryManager {
    /// Total allocated memory in bytes. It never exceeds what may be used.
    #[must_use]
    pub fn allocated_bytes(&self) -> (r: u64)
        requires
            self.wf(),
        ensures
            r == region_bytes(self@.regions),
            r <= usable_bytes(self@),
    {
        proof {
            lemma_bytes_within(self@);
        }
        let mut sum: u64 = 0;
        let mut i: usize = 0;
        while i < self.regions.len()
            invariant
                i <= self.regions.len(),
                region_bytes(self@.regions) <= u64::MAX,
                sum == region_bytes(self@.regions.take(i as int)),
            decreases self.regions.len() - i,
        {
            proof {
                lemma_region_bytes_prefix(self@.regions, i + 1);
                assert(self@.regions.take(i + 1).drop_last() == self@.regions.take(i as int));
            }
            sum = sum + self.regions[i].size;
            i = i + 1;
        }
        assert(self@.regions.take(i as int) == self@.regions);
        sum
    }

    /// Available memory in bytes, without the reserved part. Together with the
    /// allocated memory it is all the memory that may be used.
    #[must_use]
    pub fn available_bytes(&self) -> (r: u64)
        requires
            self.wf(),
        ensures
            r + region_bytes(self@.regions) == usable_bytes(self@),
    {
        self.total_bytes.saturating_sub(self.reserved_bytes).saturating_sub(self.allocated_bytes())
    }

    /// The alignment of all allocations.
    #[must_use]
    pub fn page_size() -> (r: u64)
        ensures
            r == 0x20_0000,
    {
        LARGE_PAGE_SIZE
    }
}

// ---------------------------------------------------------------------------
// Laws across operations
// ---------------------------------------------------------------------------

/// A guest has a memory map exactly if it owns a region, and the map is then
/// one flat range from guest address 0 to that region.
pub proof fn law_owner_has_its_map(v: ManagerView, guest_id: Seq<char>)
    requires
        v.wf(),
    ensures
        v.maps.contains_key(guest_id) <==> owns(v.regions, guest_id),
        owns(v.regions, guest_id) ==> v.maps[guest_id] == v.regions[owned_index(
            v.regions,
            guest_id,
        )].flat_map(),
{
    if owns(v.regions, guest_id) {
        let i: int = owned_index(v.regions, guest_id);
        assert(v.region_ok(v.regions[i]));
    }
}

/// A guest that already owns a region, be it an empty one, is refused, and
/// nothing changes. Any other outcome leaves the guest with exactly one region.
pub proof fn law_one_region_per_guest(
    pre: ManagerView,
    guest_id: Seq<char>,
    size_mb: u64,
    post: ManagerView,
    r: Result<u64, Error>,
)
    requires
        pre.wf(),
        mib(size_mb as int) + LARGE_PAGE_SIZE <= u64::MAX + 1,
        allocated(pre, guest_id, size_mb, post, r),
    ensures
        owns(pre.regions, guest_id) ==> (r matches Err(Error::Memory(_))) && post == pre,
        r is Ok ==> owns(post.regions, guest_id) && post.maps.contains_key(guest_id),
        r is Err ==> post == pre,
        post.wf(),
{
    let size = request_size(size_mb);
    if !owns(pre.regions, guest_id) && pre.take(size) is Some {
        lemma_request_size(size_mb);
        law_place_keeps_wf(pre, size, guest_id);
    }
}

proof fn lemma_request_size(size_mb: u64)
    requires
        mib(size_mb as int) + LARGE_PAGE_SIZE <= u64::MAX + 1,
    ensures
        request_size(size_mb) == aligned_up(mib(size_mb as int), LARGE_PAGE_SIZE as int),
        page_aligned(request_size(size_mb) as int),
        mib(size_mb as int) <= request_size(size_mb) < mib(size_mb as int) + LARGE_PAGE_SIZE,
{
}

/// As long as nothing was returned, memory is handed out in one run from the
/// reserved part upwards: a request for memory succeeds exactly if the guest
/// owns nothing and the request fits in what is available, and the new region
/// then starts right behind everything allocated.
pub proof fn law_regions_follow_each_other(
    pre: ManagerView,
    guest_id: Seq<char>,
    size_mb: u64,
    post: ManagerView,
    r: Result<u64, Error>,
)
    requires
        pre.wf(),
        pre.free.len() == 0,
        mib(size_mb as int) + LARGE_PAGE_SIZE <= u64::MAX + 1,
        allocated(pre, guest_id, size_mb, post, r),
    ensures
        size_mb > 0 ==> (r is Ok <==> !owns(pre.regions, guest_id) && request_size(size_mb)
            <= usable_bytes(pre) - region_bytes(pre.regions)),
        r matches Ok(base) ==> base == pre.reserved + region_bytes(pre.regions),
        r matches Err(e) ==> e is Memory && post == pre,
        post.free.len() == 0,
{
    lemma_request_size(size_mb);
    lemma_bytes_within(pre);
    assert(free_bytes(pre.free) == 0);
    assert(pre.next_base == pre.reserved + region_bytes(pre.regions));
    assert(aligned_up(pre.next_base as int, LARGE_PAGE_SIZE as int) == pre.next_base);
    assert(!has_fit(pre.free, request_size(size_mb)));
}

/// The first region starts right behind the reserved part.
pub proof fn law_first_region_follows_the_reserve(
    pre: ManagerView,
    guest_id: Seq<char>,
    size_mb: u64,
    post: ManagerView,
    base: u64,
)
    requires
        pre.wf(),
        pre.regions.len() == 0,
        pre.free.len() == 0,
        mib(size_mb as int) + LARGE_PAGE_SIZE <= u64::MAX + 1,
        allocated(pre, guest_id, size_mb, post, Ok(base)),
    ensures
        base == pre.reserved,
{
    law_regions_follow_each_other(pre, guest_id, size_mb, post, Ok(base));
}

/// `post` follows from `pre` by an allocation or by the return of a region.
pub open spec fn manager_step(pre: ManagerView, post: ManagerView) -> bool {
    ||| exists|guest_id: Seq<char>, size_mb: u64, r: Result<u64, Error>|
        mib(size_mb as int) + LARGE_PAGE_SIZE <= u64::MAX + 1 && #[trigger] allocated(
            pre,
            guest_id,
            size_mb,
            post,
            r,
        )
    ||| exists|i: int| 0 <= i < pre.regions.len() && post == #[trigger] pre.release(i)
}

/// After any sequence of allocations and returns the invariant holds, and what
/// is allocated together with what is available is the memory that could be
/// used from the start. Once nobody owns a region, nothing is allocated.
pub proof fn law_accounting(states: Seq<ManagerView>, n: int)
    requires
        0 <= n < states.len(),
        states[0].wf(),
        forall|i: int|
            0 <= i < states.len() - 1 ==> manager_step(#[trigger] states[i], states[i + 1]),
    ensures
        states[n].wf(),
        usable_bytes(states[n]) == usable_bytes(states[0]),
        0 <= region_bytes(states[n].regions) <= usable_bytes(states[0]),
        (forall|id: Seq<char>| !owns(states[n].regions, id)) ==> region_bytes(states[n].regions)
            == 0,
    decreases n,
{
    if n > 0 {
        law_accounting(states, n - 1);
        let pre = states[n - 1];
        let post = states[n];
        assert(manager_step(states[n - 1], states[n - 1 + 1]));
        if exists|i: int| 0 <= i < pre.regions.len() && post == #[trigger] pre.release(i) {
            let i: int = choose|i: int|
                0 <= i < pre.regions.len() && post == #[trigger] pre.release(i);
            law_release_keeps_wf(pre, i);
        } else {
            let (guest_id, size_mb, r) = choose|guest_id: Seq<char>, size_mb: u64, r: Result<u64, Error>|
                mib(size_mb as int) + LARGE_PAGE_SIZE <= u64::MAX + 1 && #[trigger] allocated(
                    pre,
                    guest_id,
                    size_mb,
                    post,
                    r,
                );
            law_one_region_per_guest(pre, guest_id, size_mb, post, r);
        }
    }
    lemma_bytes_within(states[n]);
    if forall|id: Seq<char>| !owns(states[n].regions, id) {
        if states[n].regions.len() > 0 {
            assert(owns(states[n].regions, states[n].regions[0].guest_id));
        }
    }
}

/// After a region has been returned, a request that is not larger is served
/// from the free list.
pub proof fn law_release_makes_room(pre: ManagerView, n: int, size: u64)
    requires
        pre.wf(),
        0 <= n < pre.regions.len(),
        size <= pre.regions[n].size,
    ensures
        has_fit(pre.release(n).free, size),
{
    let e = pre.regions[n].span();
    let pushed = pre.free.push(e);
    let free = pre.release(n).free;
    assert(pushed[pushed.len() - 1] == e);
    assert(pre.region_ok(pre.regions[n]));
    if pushed.len() >= 2 {
        let t = sort_by_base(pushed);
        lemma_sort_keeps_members(pushed);
        lemma_sort_keeps_entries(pushed);
        assert forall|i: int| 0 <= i < t.len() implies pre.free_ok(#[trigger] t[i]) by {
            assert(pushed.contains(t[i]));
            let k: int = choose|k: int| 0 <= k < pushed.len() && pushed[k] == t[i];
            if k < pre.free.len() {
                assert(pre.free_ok(pre.free[k]));
            }
        }
        lemma_merge_keeps_bytes(pre, t);
        assert(t.contains(e));
        let i: int = choose|i: int| 0 <= i < t.len() && t[i] == e;
        let j: int = choose|j: int| 0 <= j < free.len() && (#[trigger] free[j]).1 >= t[i].1;
        lemma_fit_exists(free, size, j);
    } else {
        lemma_fit_exists(free, size, pushed.len() - 1);
    }
}

proof fn lemma_fit_exists(free: Seq<(u64, u64)>, size: u64, j: int)
    requires
        0 <= j < free.len(),
        free[j].1 >= size,
    ensures
        has_fit(free, size),
    decreases j,
{
    if exists|i: int| 0 <= i < j && (#[trigger] free[i]).1 >= size {
        let i: int = choose|i: int| 0 <= i < j && (#[trigger] free[i]).1 >= size;
        lemma_fit_exists(free, size, i);
    } else {
        assert(is_first_fit(free, size, j));
    }
}

/// Where nothing else is free, a returned region is handed out again, at the
/// same base, to the next request of the same size.
pub proof fn law_release_then_take_reuses(pre: ManagerView, n: int)
    requires
        pre.wf(),
        0 <= n < pre.regions.len(),
        pre.free.len() == 0,
    ensures
        ({
            let post = pre.release(n);
            post.take(pre.regions[n].size) == Some(
                (ManagerView { free: Seq::empty(), ..post }, pre.regions[n].host_base),
            )
        }),
{
    let post = pre.release(n);
    let size = pre.regions[n].size;
    assert(post.free == seq![pre.regions[n].span()]);
    assert(is_first_fit(post.free, size, 0));
    let i: int = choose|i: int| is_first_fit(post.free, size, i);
    assert(i == 0);
    assert(post.free.remove(0) == Seq::<(u64, u64)>::empty());
}

/// The memory map of a region's owner sends guest address 0 onwards to the
/// region, byte by byte, and nothing else anywhere.
pub proof fn law_translation_is_flat(v: ManagerView, n: int, gpa: u64)
    requires
        v.wf(),
        0 <= n < v.regions.len(),
    ensures
        translated(v.maps[v.regions[n].guest_id], gpa) == (if gpa < v.regions[n].size {
            Some((v.regions[n].host_base + gpa) as u64)
        } else {
            None
        }),
{
    assert(v.region_ok(v.regions[n]));
    let e = v.maps[v.regions[n].guest_id];
    assert(e.drop_first() == Seq::<MemoryMapEntry>::empty());
    reveal_with_fuel(translated, 2);
}

/// Two guests never reach the same host address through their memory maps.
pub proof fn law_guests_are_isolated(
    v: ManagerView,
    one: Seq<char>,
    other: Seq<char>,
    gpa_one: u64,
    gpa_other: u64,
)
    requires
        v.wf(),
        one != other,
        v.maps.contains_key(one),
        v.maps.contains_key(other),
        translated(v.maps[one], gpa_one) is Some,
        translated(v.maps[other], gpa_other) is Some,
    ensures
        translated(v.maps[one], gpa_one) != translated(v.maps[other], gpa_other),
{
    let i: int = owned_index(v.regions, one);
    let j: int = owned_index(v.regions, other);
    assert(v.regions[i].guest_id == one && v.regions[j].guest_id == other);
    law_translation_is_flat(v, i, gpa_one);
    law_translation_is_flat(v, j, gpa_other);
    assert(v.region_ok(v.regions[i]) && v.region_ok(v.regions[j]));
    if i < j {
        assert(spans_disjoint(v.regions[i].span(), v.regions[j].span()));
    } else {
        assert(spans_disjoint(v.regions[j].span(), v.regions[i].span()));
    }
}

// ---------------------------------------------------------------------------
// Addresses
// ---------------------------------------------------------------------------

/// Rounding up gives the next multiple: not below the value, and less than one
/// step above it.
pub proof fn law_rounding_up(value: int, align: int)
    requires
        align > 0,
    ensures
        aligned_up(value, align) % align == 0,
        value <= aligned_up(value, align) < value + align,
{
    let x = value + align - 1;
    vstd::arithmetic::div_mod::lemma_fundamental_div_mod(x, align);
    vstd::arithmetic::div_mod::lemma_mod_multiples_basic(x / align, align);
    assert((x / align) * align == x - x % align) by (nonlinear_arith)
        requires
            x == align * (x / align) + x % align,
    ;
}

/// A request for some megabytes leads to a region of whole large pages that holds
/// them and wastes less than one.
pub proof fn law_request_is_rounded_to_large_pages(size_mb: u64)
    requires
        size_mb * 0x10_0000 + 0x20_0000 <= u64::MAX + 1,
    ensures
        request_size(size_mb) % 0x20_0000 == 0,
        size_mb * 1024 * 1024 <= request_size(size_mb) < size_mb * 1024 * 1024 + 0x20_0000,
{
    lemma_request_size(size_mb);
}

/// A request is served from the first free entry, in the order of the list, that
/// is large enough: from its start on. What is left of it goes to the end of the
/// list, nothing is left of it where it fits exactly, and all other entries stay
/// in their order.
pub proof fn law_requests_are_served_first_fit(pre: ManagerView, size: u64, i: int)
    requires
        pre.laid_out(),
        0 <= i < pre.free.len(),
        pre.free[i].1 >= size,
        forall|j: int| 0 <= j < i ==> (#[trigger] pre.free[j]).1 < size,
    ensures
        ({
            let (mid, base) = pre.take(size)->0;
            let n = pre.free.len() - 1;
            &&& pre.take(size) is Some
            &&& base == pre.free[i].0
            &&& mid.next_base == pre.next_base
            &&& mid.regions == pre.regions && mid.maps == pre.maps
            &&& mid.total == pre.total && mid.reserved == pre.reserved
            &&& pre.free[i].1 == size ==> mid.free.len() == n
            &&& pre.free[i].1 > size ==> mid.free.len() == n + 1 && mid.free[n].0 == base + size
                && mid.free[n].1 == pre.free[i].1 - size
            &&& forall|j: int|
                0 <= j < n ==> #[trigger] mid.free[j] == pre.free[if j < i {
                    j
                } else {
                    j + 1
                }]
        }),
{
    assert(is_first_fit(pre.free, size, i));
    let k: int = choose|k: int| is_first_fit(pre.free, size, k);
    assert(k == i);
    assert(pre.free_ok(pre.free[i]));
}

/// Where no free entry is large enough, a request is served from the memory that
/// was never handed out, from its start on, and refused exactly if that ends
/// before the request does. The free list stays.
pub proof fn law_other_requests_are_served_behind_everything(pre: ManagerView, size: u64)
    requires
        pre.laid_out(),
        forall|j: int| 0 <= j < pre.free.len() ==> (#[trigger] pre.free[j]).1 < size,
    ensures
        pre.take(size) is None <==> pre.next_base + size > pre.total,
        pre.take(size) matches Some((mid, base)) ==> {
            &&& base == pre.next_base
            &&& mid.next_base == base + size
            &&& mid.free == pre.free
            &&& mid.regions == pre.regions && mid.maps == pre.maps
            &&& mid.total == pre.total && mid.reserved == pre.reserved
        },
{
    assert(aligned_up(pre.next_base as int, LARGE_PAGE_SIZE as int) == pre.next_base);
    if has_fit(pre.free, size) {
        let k: int = choose|k: int| is_first_fit(pre.free, size, k);
        assert(pre.free[k].1 < size);
    }
}

/// A guest that is given memory owns a region at that base and of that size, with
/// a memory map from guest address 0 to it, and every other guest keeps its region
/// and its map.
pub proof fn law_place_stores_what_was_given(
    v: ManagerView,
    base: u64,
    size: u64,
    guest_id: Seq<char>,
    other: Seq<char>,
)
    requires
        v.laid_out(),
        !owns(v.regions, guest_id),
        other != guest_id,
    ensures
        ({
            let w = v.place(base, size, guest_id);
            let mine = w.regions[owned_index(w.regions, guest_id)];
            let theirs = w.regions[owned_index(w.regions, other)];
            &&& owns(w.regions, guest_id)
            &&& mine.guest_id == guest_id
            &&& mine.host_base == base
            &&& mine.size == size
            &&& w.maps[guest_id].len() == 1
            &&& w.maps[guest_id][0].gpa == 0
            &&& w.maps[guest_id][0].hpa == base
            &&& w.maps[guest_id][0].size == size
            &&& w.regions.len() == v.regions.len() + 1
            &&& owns(w.regions, other) <==> owns(v.regions, other)
            &&& owns(v.regions, other) ==> theirs == v.regions[owned_index(v.regions, other)]
            &&& v.maps.contains_key(other) <==> w.maps.contains_key(other)
            &&& v.maps.contains_key(other) ==> w.maps[other] == v.maps[other]
            &&& w.next_base == v.next_base && w.free == v.free
            &&& w.total == v.total && w.reserved == v.reserved
        }),
{
    let r = RegionView { host_base: base, size, guest_id };
    let w = v.place(base, size, guest_id);
    let p: int = lemma_region_position(v.regions, r);
    assert(w.regions[p] == r);
    assert forall|i: int|
        0 <= i < w.regions.len() && (#[trigger] w.regions[i]).guest_id == guest_id implies i == p by {
        if i != p {
            let k: int = if i < p { i } else { i - 1 };
            assert(w.regions[i] == v.regions[k]);
            assert(owns(v.regions, guest_id));
        }
    }
    if owns(v.regions, other) {
        let k: int = owned_index(v.regions, other);
        let kk: int = if k < p { k } else { k + 1 };
        assert(w.regions[kk] == v.regions[k]);
        assert(owns(w.regions, other));
        let j: int = owned_index(w.regions, other);
        let jj: int = if j < p { j } else { j - 1 };
        assert(j != p);
        assert(w.regions[j] == v.regions[jj]);
        assert(jj == k) by {
            if jj < k {
                assert(v.regions[jj].guest_id != v.regions[k].guest_id);
            } else if k < jj {
                assert(v.regions[k].guest_id != v.regions[jj].guest_id);
            }
        }
    }
    if owns(w.regions, other) {
        let j: int = owned_index(w.regions, other);
        let jj: int = if j < p { j } else { j - 1 };
        assert(j != p);
        assert(v.regions[jj] == w.regions[j]);
    }
}

/// Some entry holds the byte at address `a`.
pub open spec fn holds_byte(free: Seq<(u64, u64)>, a: int) -> bool {
    exists|i: int| 0 <= i < free.len() && (#[trigger] free[i]).0 <= a < free[i].0 + free[i].1
}

proof fn lemma_sort_keeps_the_bytes(s: Seq<(u64, u64)>, a: int)
    ensures
        holds_byte(sort_by_base(s), a) <==> holds_byte(s, a),
{
    lemma_sort_keeps_entries(s);
    lemma_sort_keeps_members(s);
    let t = sort_by_base(s);
    if holds_byte(s, a) {
        let i: int = choose|i: int|
            0 <= i < s.len() && (#[trigger] s[i]).0 <= a < s[i].0 + s[i].1;
        assert(t.contains(s[i]));
        let k: int = choose|k: int| 0 <= k < t.len() && t[k] == s[i];
        assert(t[k].0 <= a < t[k].0 + t[k].1);
    }
    if holds_byte(t, a) {
        let i: int = choose|i: int|
            0 <= i < t.len() && (#[trigger] t[i]).0 <= a < t[i].0 + t[i].1;
        assert(s.contains(t[i]));
        let k: int = choose|k: int| 0 <= k < s.len() && s[k] == t[i];
        assert(s[k].0 <= a < s[k].0 + s[k].1);
    }
}

proof fn lemma_sort_is_ordered(s: Seq<(u64, u64)>)
    ensures
        forall|i: int, j: int|
            0 <= i < j < sort_by_base(s).len() ==> (#[trigger] sort_by_base(s)[i]).0 <= (
            #[trigger] sort_by_base(s)[j]).0,
    decreases s.len(),
{
    if s.len() > 0 {
        lemma_sort_is_ordered(s.drop_last());
        lemma_insert_is_ordered(sort_by_base(s.drop_last()), s.last());
    }
}

proof fn lemma_insert_is_ordered(s: Seq<(u64, u64)>, e: (u64, u64))
    requires
        forall|i: int, j: int|
            0 <= i < j < s.len() ==> (#[trigger] s[i]).0 <= (#[trigger] s[j]).0,
    ensures
        forall|i: int, j: int|
            0 <= i < j < insert_by_base(s, e).len() ==> (#[trigger] insert_by_base(s, e)[i]).0 <= (
            #[trigger] insert_by_base(s, e)[j]).0,
        insert_by_base(s, e).len() == s.len() + 1,
        forall|i: int|
            0 <= i < insert_by_base(s, e).len() ==> (#[trigger] insert_by_base(s, e)[i]).0 <= (
            if s.len() > 0 && s.last().0 > e.0 {
                s.last().0
            } else {
                e.0
            }),
    decreases s.len(),
{
    if s.len() > 0 {
        let p = s.drop_last();
        let t = insert_by_base(s, e);
        assert forall|i: int, j: int| 0 <= i < j < p.len() implies (#[trigger] p[i]).0 <= (
        #[trigger] p[j]).0 by {
            assert(p[i] == s[i] && p[j] == s[j]);
        }
        if s.last().0 > e.0 {
            lemma_insert_is_ordered(p, e);
            let q = insert_by_base(p, e);
            if p.len() > 0 {
                assert(s[p.len() - 1].0 <= s[s.len() - 1].0);
            }
            assert forall|i: int, j: int| 0 <= i < j < t.len() implies (#[trigger] t[i]).0 <= (
            #[trigger] t[j]).0 by {
                assert(t[i] == q[i]);
                if j < q.len() {
                    assert(t[j] == q[j]);
                }
            }
        } else {
            assert forall|i: int| 0 <= i < t.len() implies (#[trigger] t[i]).0 <= e.0 by {
                if i < s.len() {
                    assert(t[i] == s[i]);
                    assert(i < s.len() - 1 ==> s[i].0 <= s[s.len() - 1].0);
                }
            }
        }
    }
}

proof fn lemma_merge_keeps_the_bytes(s: Seq<(u64, u64)>, a: int)
    requires
        forall|i: int| 0 <= i < s.len() ==> (#[trigger] s[i]).0 + s[i].1 <= u64::MAX,
    ensures
        holds_byte(merge_adjacent(s), a) <==> holds_byte(s, a),
        forall|i: int|
            0 <= i < merge_adjacent(s).len() ==> (#[trigger] merge_adjacent(s)[i]).0
                + merge_adjacent(s)[i].1 <= u64::MAX,
    decreases s.len(),
{
    if s.len() > 0 {
        let p = s.drop_last();
        let e = s[s.len() - 1];
        let m = merge_adjacent(p);
        let t = merge_adjacent(s);
        assert forall|i: int| 0 <= i < p.len() implies (#[trigger] p[i]).0 + p[i].1 <= u64::MAX by {
            assert(p[i] == s[i]);
        }
        lemma_merge_keeps_the_bytes(p, a);
        if m.len() > 0 {
            assert(m[m.len() - 1].0 + m[m.len() - 1].1 <= u64::MAX);
        }
        assert forall|i: int| 0 <= i < t.len() implies (#[trigger] t[i]).0 + t[i].1 <= u64::MAX by {
            if i < t.len() - 1 {
                assert(t[i] == m[i]);
            }
        }
        if holds_byte(s, a) {
            let i: int = choose|i: int|
                0 <= i < s.len() && (#[trigger] s[i]).0 <= a < s[i].0 + s[i].1;
            if i < p.len() {
                assert(p[i] == s[i]);
                assert(holds_byte(p, a));
                let k: int = choose|k: int|
                    0 <= k < m.len() && (#[trigger] m[k]).0 <= a < m[k].0 + m[k].1;
                assert(t[k].0 <= a < t[k].0 + t[k].1);
            } else {
                let k = t.len() - 1;
                assert(t[k].0 <= a < t[k].0 + t[k].1);
            }
        }
        if holds_byte(t, a) {
            let k: int = choose|k: int|
                0 <= k < t.len() && (#[trigger] t[k]).0 <= a < t[k].0 + t[k].1;
            if e.0 <= a < e.0 + e.1 {
                assert(s[s.len() - 1].0 <= a < s[s.len() - 1].0 + s[s.len() - 1].1);
            } else {
                assert(m[k].0 <= a < m[k].0 + m[k].1);
                assert(holds_byte(m, a));
                let i: int = choose|i: int|
                    0 <= i < p.len() && (#[trigger] p[i]).0 <= a < p[i].0 + p[i].1;
                assert(s[i] == p[i]);
            }
        }
    }
}

proof fn lemma_merge_is_ordered_and_apart(s: Seq<(u64, u64)>)
    requires
        forall|i: int, j: int|
            0 <= i < j < s.len() ==> (#[trigger] s[i]).0 <= (#[trigger] s[j]).0,
    ensures
        ({
            let t = merge_adjacent(s);
            &&& forall|i: int, j: int|
                0 <= i < j < t.len() ==> (#[trigger] t[i]).0 <= (#[trigger] t[j]).0
            &&& forall|i: int|
                0 < i < t.len() ==> t[i - 1].0 + t[i - 1].1 != (#[trigger] t[i]).0
            &&& t.len() > 0 ==> s.len() > 0 && t.last().0 <= s.last().0
        }),
    decreases s.len(),
{
    if s.len() > 0 {
        let p = s.drop_last();
        let e = s[s.len() - 1];
        let m = merge_adjacent(p);
        let t = merge_adjacent(s);
        assert forall|i: int, j: int| 0 <= i < j < p.len() implies (#[trigger] p[i]).0 <= (
        #[trigger] p[j]).0 by {
            assert(p[i] == s[i] && p[j] == s[j]);
        }
        lemma_merge_is_ordered_and_apart(p);
        if p.len() > 0 {
            assert(s[p.len() - 1].0 <= e.0);
        }
        if m.len() > 0 && m.last().0 + m.last().1 == e.0 {
            assert forall|i: int, j: int| 0 <= i < j < t.len() implies (#[trigger] t[i]).0 <= (
            #[trigger] t[j]).0 by {
                assert(t[i].0 == m[i].0 && t[j].0 == m[j].0);
            }
            assert forall|i: int| 0 < i < t.len() implies t[i - 1].0 + t[i - 1].1 != (
            #[trigger] t[i]).0 by {
                assert(t[i - 1] == m[i - 1] && t[i].0 == m[i].0);
            }
        } else {
            assert forall|i: int, j: int| 0 <= i < j < t.len() implies (#[trigger] t[i]).0 <= (
            #[trigger] t[j]).0 by {
                assert(t[i] == m[i]);
                if j < m.len() {
                    assert(t[j] == m[j]);
                } else if i < m.len() - 1 {
                    assert(m[i].0 <= m[m.len() - 1].0);
                }
            }
            assert forall|i: int| 0 < i < t.len() implies t[i - 1].0 + t[i - 1].1 != (
            #[trigger] t[i]).0 by {
                assert(t[i - 1] == m[i - 1]);
                if i < m.len() {
                    assert(t[i] == m[i]);
                }
            }
        }
    }
}

/// Coalescing keeps exactly the bytes of the free list, puts its entries in the
/// order of their addresses and leaves no two neighbours that touch.
pub proof fn law_coalescing_joins_what_touches(free: Seq<(u64, u64)>, a: int)
    requires
        forall|i: int| 0 <= i < free.len() ==> (#[trigger] free[i]).0 + free[i].1 <= u64::MAX,
    ensures
        ({
            let c = coalesced(free);
            &&& holds_byte(c, a) <==> holds_byte(free, a)
            &&& forall|i: int, j: int|
                0 <= i < j < c.len() ==> (#[trigger] c[i]).0 <= (#[trigger] c[j]).0
            &&& forall|i: int|
                0 < i < c.len() ==> c[i - 1].0 + c[i - 1].1 != (#[trigger] c[i]).0
        }),
{
    if free.len() >= 2 {
        let t = sort_by_base(free);
        lemma_sort_keeps_entries(free);
        assert forall|i: int| 0 <= i < t.len() implies (#[trigger] t[i]).0 + t[i].1 <= u64::MAX by {
            assert(free.contains(t[i]));
        }
        lemma_sort_keeps_the_bytes(free, a);
        lemma_merge_keeps_the_bytes(t, a);
        lemma_sort_is_ordered(free);
        lemma_merge_is_ordered_and_apart(t);
    }
}

/// A guest that returns its region leaves exactly the bytes of that region free
/// that were not free before, and every other guest keeps its region and its map.
pub proof fn law_release_frees_exactly_the_region(
    pre: ManagerView,
    n: int,
    a: int,
    other: Seq<char>,
)
    requires
        pre.wf(),
        0 <= n < pre.regions.len(),
        other != pre.regions[n].guest_id,
    ensures
        ({
            let r = pre.regions[n];
            let post = pre.release(n);
            &&& holds_byte(post.free, a) <==> holds_byte(pre.free, a) || r.host_base <= a
                < r.host_base + r.size
            &&& !post.maps.contains_key(r.guest_id)
            &&& post.regions.len() == pre.regions.len() - 1
            &&& forall|i: int|
                0 <= i < post.regions.len() ==> #[trigger] post.regions[i] == pre.regions[if i < n {
                    i
                } else {
                    i + 1
                }]
            &&& post.maps.contains_key(other) <==> pre.maps.contains_key(other)
            &&& pre.maps.contains_key(other) ==> post.maps[other] == pre.maps[other]
            &&& post.next_base == pre.next_base
            &&& post.total == pre.total && post.reserved == pre.reserved
        }),
{
    let r = pre.regions[n];
    let pushed = pre.free.push(r.span());
    assert(pre.region_ok(r));
    assert forall|i: int| 0 <= i < pushed.len() implies (#[trigger] pushed[i]).0 + pushed[i].1
        <= u64::MAX by {
        if i < pre.free.len() {
            assert(pre.free_ok(pre.free[i]));
        }
    }
    law_coalescing_joins_what_touches(pushed, a);
    if holds_byte(pre.free, a) {
        let i: int = choose|i: int|
            0 <= i < pre.free.len() && (#[trigger] pre.free[i]).0 <= a < pre.free[i].0
                + pre.free[i].1;
        assert(pushed[i] == pre.free[i]);
    }
    if r.host_base <= a < r.host_base + r.size {
        assert(pushed[pre.free.len() as int] == r.span());
    }
    if holds_byte(pushed, a) {
        let i: int = choose|i: int|
            0 <= i < pushed.len() && (#[trigger] pushed[i]).0 <= a < pushed[i].0 + pushed[i].1;
        if i < pre.free.len() {
            assert(pre.free[i] == pushed[i]);
        }
    }
}

/// A memory map sends an address where its first entry that covers it says, as far
/// behind its host address as behind its guest address, and nowhere if no entry
/// covers it.
pub proof fn law_translation_follows_the_first_entry(entries: Seq<MemoryMapEntry>, gpa: u64, i: int)
    requires
        0 <= i <= entries.len(),
        forall|j: int|
            0 <= j < i ==> !((#[trigger] entries[j]).gpa <= gpa < entries[j].gpa + entries[j].size),
        i < entries.len() ==> entries[i].gpa <= gpa < entries[i].gpa + entries[i].size
            && entries[i].hpa + entries[i].size <= u64::MAX,
    ensures
        i == entries.len() ==> translated(entries, gpa) is None,
        i < entries.len() ==> (translated(entries, gpa) matches Some(hpa) && hpa - entries[i].hpa
            == gpa - entries[i].gpa),
    decreases entries.len(),
{
    if i > 0 {
        assert(!(entries[0].gpa <= gpa < entries[0].gpa + entries[0].size));
        let rest = entries.drop_first();
        assert forall|j: int| 0 <= j < i - 1 implies !((#[trigger] rest[j]).gpa <= gpa < rest[j].gpa
            + rest[j].size) by {
            assert(rest[j] == entries[j + 1]);
        }
        law_translation_follows_the_first_entry(rest, gpa, i - 1);
    }
}

/// What a memory map maps in all grows by the size of each entry that is added.
pub proof fn law_mapped_bytes_add_up(entries: Seq<MemoryMapEntry>, e: MemoryMapEntry)
    ensures
        mapped_total(entries.push(e)) == mapped_total(entries) + e.size,
        mapped_total(Seq::<MemoryMapEntry>::empty()) == 0,
{
    assert(entries.push(e).drop_last() =~= entries);
}

/// What may be used is what lies between the reserved part and the end, and
/// nothing if the reserved part reaches beyond it.
pub proof fn law_usable_memory(v: ManagerView)
    ensures
        v.reserved <= v.total ==> usable_bytes(v) + v.reserved == v.total,
        v.reserved > v.total ==> usable_bytes(v) == 0,
{
}

/// A region collides with a request exactly if both hold memory and each starts
/// before the other ends.
pub proof fn law_what_collides(v: ManagerView, base: u64, size: u64, i: int)
    requires
        0 <= i < v.regions.len(),
    ensures
        v.collides(base, size, i) <==> {
            &&& size > 0
            &&& v.regions[i].size > 0
            &&& base < v.regions[i].host_base + v.regions[i].size
            &&& v.regions[i].host_base < base + size
        },
{
}

/// A request that finds no room is told how much it asked for and how much was
/// never handed out, in megabytes.
pub proof fn law_refusal_says_what_is_left(
    pre: ManagerView,
    guest_id: Seq<char>,
    size_mb: u64,
    post: ManagerView,
    r: Result<u64, Error>,
)
    requires
        pre.wf(),
        !owns(pre.regions, guest_id),
        allocated(pre, guest_id, size_mb, post, r),
        r is Err,
    ensures
        ({
            let left: int = if pre.next_base <= pre.total {
                (pre.total - pre.next_base) / 0x10_0000
            } else {
                0
            };
            r matches Err(Error::Memory(m)) && m@ == "cannot allocate "@ + dec(
                (request_size(size_mb) / 0x10_0000) as nat,
            ) + " MB for '"@ + guest_id + "': only "@ + dec(left as nat) + " MB remaining"@
        }),
{
}

} // verus!
