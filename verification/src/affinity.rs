//! CPU affinity: which physical cores a thread may run on.
use crate::text::{dec, push_dec};
use std::collections::HashSet;
use vstd::prelude::*;
use vstd::std_specs::iter::IteratorSpec;
use vstd::string::*;

verus! {

broadcast use vstd::std_specs::hash::group_hash_axioms;

/// The size in bytes of the bit set in which the kernel takes cores.
pub const CPU_SET_SIZE: usize = 128;

/// The number of cores that the bit set has room for.
pub const CPU_SET_BITS: u32 = 1024;

/// The set of physical cores that a thread may run on.
#[derive(Debug, PartialEq, Eq)]
pub struct AffinityMask {
    cores: HashSet<u32>,
}

impl View for AffinityMask {
    type V = Set<u32>;

    closed spec fn view(&self) -> Set<u32> {
        self.cores@
    }
}

/// `s` is in strictly increasing order.
pub open spec fn increasing(s: Seq<u32>) -> bool {
    forall|i: int, j: int| 0 <= i < j < s.len() ==> #[trigger] s[i] < #[trigger] s[j]
}

/// `s` lists the elements of `m` in increasing order.
pub open spec fn lists(s: Seq<u32>, m: Set<u32>) -> bool {
    &&& increasing(s)
    &&& forall|i: int| 0 <= i < s.len() ==> m.contains(#[trigger] s[i])
    &&& forall|c: u32| #[trigger] m.contains(c) ==> s.contains(c)
}

/// The numbers in `s`, with a comma and a space between them.
pub open spec fn joined(s: Seq<u32>) -> Seq<char>
    decreases s.len(),
{
    if s.len() == 0 {
        Seq::empty()
    } else if s.len() == 1 {
        dec(s[0] as nat)
    } else {
        joined(s.drop_last()) + ", "@ + dec(s.last() as nat)
    }
}

/// There is only one list of a set.
pub proof fn law_list_is_unique(a: Seq<u32>, b: Seq<u32>, m: Set<u32>)
    requires
        lists(a, m),
        lists(b, m),
    ensures
        a == b,
    decreases a.len(),
{
    if a.len() == 0 {
        if b.len() > 0 {
            assert(m.contains(b[0]));
            assert(a.contains(b[0]));
        }
    } else {
        assert(m.contains(a[a.len() - 1]));
        assert(b.contains(a[a.len() - 1]));
        let x: u32 = a.last();
        let y: u32 = b.last();
        let i: int = choose|i: int| 0 <= i < b.len() && b[i] == x;
        assert(m.contains(b[b.len() - 1]));
        assert(a.contains(y));
        let j: int = choose|j: int| 0 <= j < a.len() && a[j] == y;
        assert(x == y) by {
            if i < b.len() - 1 {
                assert(b[i] < b[b.len() - 1]);
            }
            if j < a.len() - 1 {
                assert(a[j] < a[a.len() - 1]);
            }
        }
        lemma_list_drop_last(a, m);
        lemma_list_drop_last(b, m);
        law_list_is_unique(a.drop_last(), b.drop_last(), m.remove(x));
        assert(a =~= a.drop_last().push(x));
        assert(b =~= b.drop_last().push(x));
    }
}

proof fn lemma_list_drop_last(a: Seq<u32>, m: Set<u32>)
    requires
        lists(a, m),
        a.len() > 0,
    ensures
        lists(a.drop_last(), m.remove(a.last())),
{
    let p = a.drop_last();
    let x: u32 = a[a.len() - 1];
    assert forall|i: int| 0 <= i < p.len() implies m.remove(x).contains(#[trigger] p[i]) by {
        assert(p[i] == a[i]);
        assert(a[i] < a[a.len() - 1]);
    }
    assert forall|c: u32| #[trigger] m.remove(x).contains(c) implies p.contains(c) by {
        assert(m.contains(c));
        let i: int = choose|i: int| 0 <= i < a.len() && a[i] == c;
        assert(p[i] == c);
    }
}

proof fn lemma_cores_are_finite(m: Set<u32>)
    ensures
        m.finite(),
{
    let ids = vstd::set_lib::set_int_range(0, u32::MAX + 1);
    let all = ids.map(|i: int| i as u32);
    vstd::set_lib::lemma_int_range(0, u32::MAX + 1);
    ids.lemma_map_finite(|i: int| i as u32);
    assert forall|c: u32| m.contains(c) implies all.contains(c) by {
        assert(ids.contains(c as int) && (c as int) as u32 == c);
    }
    vstd::set_lib::lemma_set_subset_finite(all, m);
}

/// A core that is new to a mask raises its count by one, a core that it holds
/// already changes nothing; taking a core out undoes adding it.
pub proof fn law_cores_are_counted(m: Set<u32>, core: u32)
    ensures
        m.insert(core).len() == m.len() + (if m.contains(core) {
            0int
        } else {
            1
        }),
        m.contains(core) ==> m.insert(core) == m,
        !m.contains(core) ==> m.insert(core).remove(core) == m,
{
    lemma_cores_are_finite(m);
    assert(m.contains(core) ==> m.insert(core) =~= m);
    assert(!m.contains(core) ==> m.insert(core).remove(core) =~= m);
}

/// Puts `c` into an increasing list that does not hold it.
fn insert_core(list: &mut Vec<u32>, c: u32)
    requires
        increasing(old(list)@),
        !old(list)@.contains(c),
    ensures
        increasing(final(list)@),
        final(list)@.to_set() == old(list)@.to_set().insert(c),
{
    let ghost before = list@;
    let mut j: usize = list.len();
    while j > 0 && list[j - 1] > c
        invariant
            j <= list@.len(),
            list@ == before,
            increasing(before),
            forall|k: int| j <= k < before.len() ==> #[trigger] before[k] > c,
        decreases j,
    {
        j = j - 1;
    }
    assert(j > 0 ==> before[j - 1] < c) by {
        if j > 0 && before[j - 1] == c {
            assert(before.contains(c));
        }
    }
    list.insert(j, c);
    proof {
        let t = list@;
        assert(t == before.insert(j as int, c));
        assert forall|a: int, b: int| 0 <= a < b < t.len() implies #[trigger] t[a]
            < #[trigger] t[b] by {
            let aa: int = if a < j { a } else { a - 1 };
            let bb: int = if b < j { b } else { b - 1 };
            if a != j && b != j {
                assert(before[aa] < before[bb]);
            } else if a == j {
                assert(before[bb] > c);
            } else {
                assert(j > 0);
                if aa < j - 1 {
                    assert(before[aa] < before[j - 1]);
                }
            }
        }
        assert forall|x: u32| t.to_set().contains(x) <==> before.to_set().insert(c).contains(x) by {
            if t.to_set().contains(x) {
                let a: int = choose|a: int| 0 <= a < t.len() && t[a] == x;
                let aa: int = if a < j { a } else { a - 1 };
                if a != j {
                    assert(before[aa] == x);
                }
            }
            if before.to_set().contains(x) {
                let a: int = choose|a: int| 0 <= a < before.len() && before[a] == x;
                let aa: int = if a < j { a } else { a + 1 };
                assert(t[aa] == x);
            }
            assert(t[j as int] == c);
        }
        assert(t.to_set() =~= before.to_set().insert(c));
    }
}

impl AffinityMask {
    /// A mask without cores.
    #[must_use]
    pub fn empty() -> (r: Self)
        ensures
            r@ == Set::<u32>::empty(),
    {
        AffinityMask { cores: HashSet::new() }
    }

    /// A mask with a single core.
    #[must_use]
    pub fn single(core: u32) -> (r: Self)
        ensures
            r@ == Set::<u32>::empty().insert(core),
    {
        let mut cores: HashSet<u32> = HashSet::new();
        cores.insert(core);
        AffinityMask { cores }
    }

    /// A mask with the cores of a list.
    #[must_use]
    pub fn from_cores(cores: &[u32]) -> (r: Self)
        ensures
            r@ == cores@.to_set(),
    {
        let mut set: HashSet<u32> = HashSet::new();
        let mut i: usize = 0;
        assert(cores@.take(0).to_set() =~= Set::<u32>::empty());
        while i < cores.len()
            invariant
                i <= cores@.len(),
                set@ == cores@.take(i as int).to_set(),
            decreases cores@.len() - i,
        {
            set.insert(cores[i]);
            proof {
                let a = cores@.take(i as int);
                let b = cores@.take(i + 1);
                assert forall|c: u32| b.to_set().contains(c) <==> a.to_set().insert(
                    cores@[i as int],
                ).contains(c) by {
                    if b.to_set().contains(c) {
                        let k: int = choose|k: int| 0 <= k < b.len() && b[k] == c;
                        if k < i {
                            assert(a[k] == c);
                        }
                    }
                    if a.to_set().contains(c) {
                        let k: int = choose|k: int| 0 <= k < a.len() && a[k] == c;
                        assert(b[k] == c);
                    }
                    assert(b[i as int] == cores@[i as int]);
                }
                assert(b.to_set() =~= a.to_set().insert(cores@[i as int]));
            }
            i = i + 1;
        }
        assert(cores@.take(i as int) =~= cores@);
        AffinityMask { cores: set }
    }

    /// Adds a core to the mask.
    pub fn add(&mut self, core: u32)
        ensures
            final(self)@ == old(self)@.insert(core),
    {
        self.cores.insert(core);
    }

    /// Removes a core from the mask.
    pub fn remove(&mut self, core: u32)
        ensures
            final(self)@ == old(self)@.remove(core),
    {
        self.cores.remove(&core);
    }

    /// Whether a core is in the mask.
    #[must_use]
    pub fn contains(&self, core: u32) -> (r: bool)
        ensures
            r == self@.contains(core),
    {
        self.cores.contains(&core)
    }

    /// Number of cores in the mask.
    #[must_use]
    pub fn count(&self) -> (r: usize)
        ensures
            r == self@.len(),
            self@.finite(),
    {
        proof {
            lemma_cores_are_finite(self@);
        }
        self.cores.len()
    }

    /// Whether the mask is empty.
    #[must_use]
    pub fn is_empty(&self) -> (r: bool)
        ensures
            r == (self@ == Set::<u32>::empty()),
    {
        let r: bool = self.cores.is_empty();
        assert(r ==> self@ =~= Set::<u32>::empty());
        r
    }

    /// The cores in increasing order.
    #[must_use]
    pub fn cores(&self) -> (r: Vec<u32>)
        ensures
            lists(r@, self@),
    {
        let mut out: Vec<u32> = Vec::new();
        let items = self.cores.iter();
        let ghost all = items.remaining();
        assert(out@.to_set() =~= Set::<u32>::empty());
        for c in it: items
            invariant
                it.seq() == all,
                all.no_duplicates(),
                all.unref().to_set() == self@,
                increasing(out@),
                forall|x: u32| #[trigger]
                    out@.to_set().contains(x) <==> exists|i: int|
                        0 <= i < it.index() && *#[trigger] all[i] == x,
        {
            let ghost n: int = it.index() as int;
            let ghost before = out@;
            proof {
                if before.contains(*c) {
                    assert(before.to_set().contains(*c));
                    let i: int = choose|i: int| 0 <= i < n && *#[trigger] all[i] == *c;
                    assert(all[i] == all[n]);
                }
            }
            insert_core(&mut out, *c);
            assert forall|x: u32| #[trigger] out@.to_set().contains(x) <==> exists|i: int|
                0 <= i < n + 1 && *#[trigger] all[i] == x by {
                assert(out@.to_set().contains(x) <==> before.to_set().contains(x) || x == *c);
                if before.to_set().contains(x) {
                    let i: int = choose|i: int| 0 <= i < n && *#[trigger] all[i] == x;
                    assert(0 <= i < n + 1 && *all[i] == x);
                }
                assert(*all[n] == *c);
            }
        }
        proof {
            assert forall|i: int| 0 <= i < out@.len() implies self@.contains(#[trigger] out@[i]) by {
                assert(out@.to_set().contains(out@[i]));
                let k: int = choose|k: int| 0 <= k < all.len() && *#[trigger] all[k] == out@[i];
                assert(all.unref()[k] == out@[i]);
                assert(all.unref().to_set().contains(out@[i]));
            }
            assert forall|c: u32| #[trigger] self@.contains(c) implies out@.contains(c) by {
                assert(all.unref().to_set().contains(c));
                let k: int = choose|k: int| 0 <= k < all.unref().len() && all.unref()[k] == c;
                assert(*all[k] == c);
                assert(out@.to_set().contains(c));
            }
        }
        out
    }

    /// The cores in square brackets, in increasing order.
    #[must_use]
    pub fn text(&self) -> (r: String)
        ensures
            exists|s: Seq<u32>| #[trigger] lists(s, self@) && r@ == "["@ + joined(s) + "]"@,
    {
        let cores: Vec<u32> = self.cores();
        let mut out: String = String::new();
        out.append("[");
        let mut i: usize = 0;
        assert(cores@.take(0) =~= Seq::<u32>::empty());
        while i < cores.len()
            invariant
                i <= cores@.len(),
                out@ == "["@ + joined(cores@.take(i as int)),
            decreases cores@.len() - i,
        {
            assert(cores@.take(i + 1).drop_last() =~= cores@.take(i as int));
            let ghost before = out@;
            if i > 0 {
                out.append(", ");
            }
            push_dec(&mut out, cores[i] as u64);
            assert(out@ =~= "["@ + joined(cores@.take(i + 1)));
            i = i + 1;
        }
        assert(cores@.take(i as int) =~= cores@);
        out.append("]");
        assert(lists(cores@, self@) && out@ == "["@ + joined(cores@) + "]"@);
        out
    }
}

impl Clone for AffinityMask {
    fn clone(&self) -> (r: Self)
        ensures
            r@ == self@,
    {
        let list: Vec<u32> = self.cores();
        assert forall|c: u32| self@.contains(c) <==> list@.to_set().contains(c) by {
            if list@.to_set().contains(c) {
                let i: int = choose|i: int| 0 <= i < list@.len() && list@[i] == c;
                assert(self@.contains(list@[i]));
            }
        }
        assert(list@.to_set() =~= self@);
        AffinityMask::from_cores(list.as_slice())
    }
}

// ---------------------------------------------------------------------------
// The kernel's bit set
// ---------------------------------------------------------------------------

/// Bit `i` of `b` is set.
pub open spec fn bit(b: u8, i: u32) -> bool {
    b & (1u8 << (i as u8)) != 0
}

/// Core `c` is in the bit set.
pub open spec fn in_cpu_set(s: Seq<u8>, c: u32) -> bool {
    c < CPU_SET_BITS && bit(s[(c / 8) as int], c % 8)
}

proof fn lemma_set_bit(b: u8, i: u8, j: u8)
    requires
        i < 8,
        j < 8,
    ensures
        (b | (1u8 << i)) & (1u8 << j) != 0 <==> b & (1u8 << j) != 0 || i == j,
        0u8 & (1u8 << j) == 0,
{
    assert((b | (1u8 << i)) & (1u8 << j) != 0 <==> b & (1u8 << j) != 0 || i == j) by (bit_vector)
        requires
            i < 8,
            j < 8,
    ;
    assert(0u8 & (1u8 << j) == 0) by (bit_vector);
}

/// The bit set of a mask. Cores that it has no room for are left out.
pub fn encode_cpu_set(mask: &AffinityMask) -> (r: [u8; 128])
    ensures
        forall|c: u32|
            c < CPU_SET_BITS ==> (#[trigger] in_cpu_set(r@, c) <==> mask@.contains(c)),
{
    let list: Vec<u32> = mask.cores();
    let mut set: [u8; 128] = [0u8; 128];
    let mut i: usize = 0;
    proof {
        assert forall|c: u32| c < CPU_SET_BITS implies !#[trigger] in_cpu_set(set@, c) by {
            lemma_set_bit(0, 0, (c % 8) as u8);
        }
    }
    while i < list.len()
        invariant
            i <= list@.len(),
            lists(list@, mask@),
            set@.len() == 128,
            forall|c: u32|
                c < CPU_SET_BITS ==> (#[trigger] in_cpu_set(set@, c) <==> exists|k: int|
                    0 <= k < i && #[trigger] list@[k] == c),
        decreases list@.len() - i,
    {
        let core: u32 = list[i];
        let byte_idx: usize = (core / 8) as usize;
        let bit_idx: u32 = core % 8;
        let ghost before = set@;
        if byte_idx < CPU_SET_SIZE {
            set[byte_idx] = set[byte_idx] | (1u8 << (bit_idx as u8));
        }
        proof {
            assert forall|c: u32| c < CPU_SET_BITS implies (#[trigger] in_cpu_set(set@, c)
                <==> exists|k: int| 0 <= k < i + 1 && #[trigger] list@[k] == c) by {
                assert(in_cpu_set(set@, c) <==> in_cpu_set(before, c) || c == core) by {
                    if byte_idx < CPU_SET_SIZE && c / 8 == core / 8 {
                        lemma_set_bit(before[byte_idx as int], bit_idx as u8, (c % 8) as u8);
                    }
                }
                if in_cpu_set(before, c) {
                    let k: int = choose|k: int| 0 <= k < i && #[trigger] list@[k] == c;
                    assert(0 <= k < i + 1 && list@[k] == c);
                }
                assert(list@[i as int] == core);
            }
        }
        i = i + 1;
    }
    proof {
        assert forall|c: u32| c < CPU_SET_BITS implies (#[trigger] in_cpu_set(set@, c)
            <==> mask@.contains(c)) by {
            if mask@.contains(c) {
                assert(list@.contains(c));
            }
            if in_cpu_set(set@, c) {
                let k: int = choose|k: int| 0 <= k < list@.len() && #[trigger] list@[k] == c;
                assert(mask@.contains(list@[k]));
            }
        }
    }
    set
}

/// The mask of a bit set.
pub fn decode_cpu_set(set: &[u8; 128]) -> (r: AffinityMask)
    ensures
        forall|c: u32| #[trigger] r@.contains(c) <==> in_cpu_set(set@, c),
{
    let mut mask: AffinityMask = AffinityMask::empty();
    let mut c: u32 = 0;
    while c < CPU_SET_BITS
        invariant
            c <= CPU_SET_BITS,
            forall|x: u32| #[trigger] mask@.contains(x) <==> x < c && in_cpu_set(set@, x),
        decreases CPU_SET_BITS - c,
    {
        let b: u8 = set[(c / 8) as usize];
        if b & (1u8 << ((c % 8) as u8)) != 0 {
            mask.add(c);
        }
        c = c + 1;
    }
    mask
}

/// The bit set has room for every core of the mask.
pub open spec fn fits_cpu_set(mask: Set<u32>) -> bool {
    forall|c: u32| #[trigger] mask.contains(c) ==> c < CPU_SET_BITS
}

/// The bit set has room for some cores of the mask, but not for all.
pub open spec fn fits_in_part(mask: Set<u32>) -> bool {
    !fits_cpu_set(mask) && exists|c: u32| #[trigger] mask.contains(c) && c < CPU_SET_BITS
}

/// `core` is the lowest core of the mask that the bit set has no room for.
pub open spec fn is_first_beyond(mask: Set<u32>, core: u32) -> bool {
    &&& mask.contains(core)
    &&& core >= CPU_SET_BITS
    &&& forall|c: u32| CPU_SET_BITS <= c < core ==> !#[trigger] mask.contains(c)
}

/// The lowest core of the mask that the bit set has no room for.
pub fn first_beyond_cpu_set(mask: &AffinityMask) -> (r: Option<u32>)
    ensures
        r is None <==> fits_cpu_set(mask@),
        r matches Some(core) ==> is_first_beyond(mask@, core),
{
    let list: Vec<u32> = mask.cores();
    let mut i: usize = 0;
    while i < list.len()
        invariant
            i <= list@.len(),
            lists(list@, mask@),
            forall|k: int| 0 <= k < i ==> #[trigger] list@[k] < CPU_SET_BITS,
        decreases list@.len() - i,
    {
        let core: u32 = list[i];
        if core >= CPU_SET_BITS {
            proof {
                assert(mask@.contains(list@[i as int]));
                assert forall|c: u32| CPU_SET_BITS <= c < core implies !#[trigger] mask@.contains(
                    c,
                ) by {
                    if mask@.contains(c) {
                        assert(list@.contains(c));
                        let k: int = choose|k: int| 0 <= k < list@.len() && list@[k] == c;
                        assert(k < i || list@[i as int] < list@[k] || k == i);
                    }
                }
            }
            return Some(core);
        }
        i = i + 1;
    }
    proof {
        assert forall|c: u32| #[trigger] mask@.contains(c) implies c < CPU_SET_BITS by {
            assert(list@.contains(c));
        }
    }
    None
}

/// Whether the bit set has room for some core of the mask.
fn has_core_in_cpu_set(mask: &AffinityMask) -> (r: bool)
    ensures
        r <==> exists|c: u32| #[trigger] mask@.contains(c) && c < CPU_SET_BITS,
{
    let list: Vec<u32> = mask.cores();
    if list.len() > 0 && list[0] < CPU_SET_BITS {
        assert(mask@.contains(list@[0]));
        return true;
    }
    proof {
        assert forall|c: u32| #[trigger] mask@.contains(c) implies c >= CPU_SET_BITS by {
            assert(list@.contains(c));
            let k: int = choose|k: int| 0 <= k < list@.len() && list@[k] == c;
            assert(k > 0 ==> list@[0] < list@[k]);
        }
    }
    false
}

/// What is read back from the bit set of a mask is the mask, without the
/// cores that the bit set has no room for.
pub proof fn law_cpu_set_round_trip(mask: Set<u32>, set: Seq<u8>, back: Set<u32>)
    requires
        forall|c: u32| c < CPU_SET_BITS ==> (#[trigger] in_cpu_set(set, c) <==> mask.contains(c)),
        forall|c: u32| #[trigger] back.contains(c) <==> in_cpu_set(set, c),
    ensures
        back == mask.filter(|c: u32| c < CPU_SET_BITS),
{
    assert forall|c: u32| back.contains(c) <==> mask.filter(
        |c: u32| c < CPU_SET_BITS,
    ).contains(c) by {
        if c < CPU_SET_BITS {
            assert(in_cpu_set(set, c) <==> mask.contains(c));
        }
    }
    assert(back =~= mask.filter(|c: u32| c < CPU_SET_BITS));
}

// ---------------------------------------------------------------------------
// Pinning
// ---------------------------------------------------------------------------

/// Result of a pin operation.
#[derive(Debug, Clone, PartialEq, Eq)]
pub enum PinResult {
    /// Pinned to the requested cores.
    Pinned(AffinityMask),
    /// The platform does not support pinning; running unpinned.
    Unsupported,
    /// Pinning failed.
    Failed(String),
}

/// What the host can do about pinning.
#[derive(Debug, Clone, Copy, PartialEq, Eq, Structural)]
pub enum Platform {
    /// Linux: threads can be pinned.
    Linux,
    /// Any other system: they cannot.
    Other,
}

/// What is to be done to pin a thread.
#[derive(Debug, PartialEq, Eq)]
pub enum PinStep {
    /// Nothing more; this is the result.
    Done(PinResult),
    /// Hand this bit set to the kernel.
    SetAffinity([u8; 128]),
}

/// The step that pins a thread to the cores of a mask. The kernel is never
/// handed a part of them: it gets all, or, where it has room for none, the empty
/// set, which it refuses in its own words.
pub open spec fn is_pin_step(platform: Platform, mask: Set<u32>, step: PinStep) -> bool {
    if mask == Set::<u32>::empty() {
        step matches PinStep::Done(PinResult::Failed(m)) && m@ == "empty affinity mask"@
    } else if platform == Platform::Other {
        step == PinStep::Done(PinResult::Unsupported)
    } else if fits_in_part(mask) {
        step matches PinStep::Done(PinResult::Failed(m)) && is_beyond_text(mask, m@)
    } else {
        step matches PinStep::SetAffinity(set) && forall|c: u32| #[trigger]
            in_cpu_set(set@, c) <==> mask.contains(c) && c < CPU_SET_BITS
    }
}

/// The message for a core that the bit set has no room for.
pub open spec fn beyond_text(core: nat) -> Seq<char> {
    "core "@ + dec(core) + " is beyond the cores that can be pinned to"@
}

/// `text` names the lowest core of the mask that the bit set has no room for.
pub open spec fn is_beyond_text(mask: Set<u32>, text: Seq<char>) -> bool {
    exists|core: u32| #[trigger] is_first_beyond(mask, core) && text == beyond_text(core as nat)
}

/// No step claims that a thread is pinned before the kernel was asked; on Linux
/// none claims that pinning is unsupported, and a failure says why.
pub proof fn law_pin_step_claims_nothing(platform: Platform, mask: Set<u32>, step: PinStep)
    requires
        is_pin_step(platform, mask, step),
    ensures
        !(step matches PinStep::Done(PinResult::Pinned(_))),
        platform is Linux ==> !(step matches PinStep::Done(PinResult::Unsupported)),
        step matches PinStep::Done(PinResult::Failed(m)) ==> m@.len() > 0,
{
    reveal_strlit("empty affinity mask");
    reveal_strlit("core ");
}

/// Why a thread cannot be pinned to a core that the bit set has no room for.
fn beyond_message(core: u32) -> (r: String)
    ensures
        r@ == beyond_text(core as nat),
{
    let mut m: String = String::new();
    m.append("core ");
    push_dec(&mut m, core as u64);
    m.append(" is beyond the cores that can be pinned to");
    m
}

/// Pins the current thread to a single physical core: what is to be done.
#[must_use]
pub fn pin_current_thread(platform: Platform, core: u32) -> (r: PinStep)
    ensures
        platform is Other ==> r == PinStep::Done(PinResult::Unsupported),
        platform is Linux ==> (r matches PinStep::SetAffinity(set) && forall|c: u32| #[trigger]
            in_cpu_set(set@, c) <==> c == core && c < CPU_SET_BITS),
{
    let mask: AffinityMask = AffinityMask::single(core);
    assert(mask@.contains(core));
    pin_current_thread_to_mask(platform, &mask)
}

/// Pins the current thread to a set of cores: what is to be done.
#[must_use]
pub fn pin_current_thread_to_mask(platform: Platform, mask: &AffinityMask) -> (r: PinStep)
    ensures
        is_pin_step(platform, mask@, r),
{
    if mask.is_empty() {
        return PinStep::Done(PinResult::Failed("empty affinity mask".to_owned()));
    }
    match platform {
        Platform::Linux => {
            if has_core_in_cpu_set(mask) {
                if let Some(core) = first_beyond_cpu_set(mask) {
                    return PinStep::Done(PinResult::Failed(beyond_message(core)));
                }
            }
            PinStep::SetAffinity(encode_cpu_set(mask))
        },
        Platform::Other => PinStep::Done(PinResult::Unsupported),
    }
}

/// The result of pinning, from what the kernel returned and, where that is not
/// zero, its description of the error. A mask that the kernel cannot have been
/// given in full never counts as pinned.
pub fn pin_linux(mask: &AffinityMask, ret: i32, error: &str) -> (r: PinResult)
    ensures
        ret == 0 && fits_cpu_set(mask@) ==> (r matches PinResult::Pinned(m) && m@ == mask@),
        ret == 0 && !fits_cpu_set(mask@) ==> (r matches PinResult::Failed(m) && is_beyond_text(
            mask@,
            m@,
        )),
        ret != 0 ==> (r matches PinResult::Failed(m) && m@ == "sched_setaffinity failed: "@
            + error@),
{
    if ret == 0 {
        match first_beyond_cpu_set(mask) {
            Some(core) => PinResult::Failed(beyond_message(core)),
            None => PinResult::Pinned(mask.clone()),
        }
    } else {
        let mut m: String = String::new();
        m.append("sched_setaffinity failed: ");
        m.append(error);
        PinResult::Failed(m)
    }
}

/// The affinity of the current thread, from what the kernel returned, the bit
/// set that it filled and, where it failed, its description of the error.
pub fn get_affinity_linux(ret: i32, set: &[u8; 128], error: &str) -> (r: PinResult)
    ensures
        ret == 0 ==> (r matches PinResult::Pinned(m) && forall|c: u32| #[trigger]
            m@.contains(c) <==> in_cpu_set(set@, c)),
        ret != 0 ==> (r matches PinResult::Failed(m) && m@ == "sched_getaffinity failed: "@
            + error@),
{
    if ret == 0 {
        PinResult::Pinned(decode_cpu_set(set))
    } else {
        let mut m: String = String::new();
        m.append("sched_getaffinity failed: ");
        m.append(error);
        PinResult::Failed(m)
    }
}

/// The affinity of the current thread: supported on Linux only, and there what
/// the kernel reported.
pub fn get_current_affinity(platform: Platform, ret: i32, set: &[u8; 128], error: &str) -> (r:
    PinResult)
    ensures
        platform is Other ==> r is Unsupported,
        platform is Linux && ret == 0 ==> (r matches PinResult::Pinned(m) && forall|c: u32|
            #[trigger] m@.contains(c) <==> in_cpu_set(set@, c)),
        platform is Linux && ret != 0 ==> (r matches PinResult::Failed(m) && m@
            == "sched_getaffinity failed: "@ + error@),
{
    match platform {
        Platform::Linux => get_affinity_linux(ret, set, error),
        Platform::Other => PinResult::Unsupported,
    }
}

/// The ids of `count` online CPUs, from 0; at most as many as fit in 32 bits.
#[must_use]
pub fn online_cpus(count: usize) -> (r: Vec<u32>)
    ensures
        r@.len() == (if count <= u32::MAX {
            count as int
        } else {
            u32::MAX as int
        }),
        forall|i: int| 0 <= i < r@.len() ==> #[trigger] r@[i] == i,
{
    let n: u32 = if count <= u32::MAX as usize { count as u32 } else { u32::MAX };
    let mut out: Vec<u32> = Vec::new();
    let mut i: u32 = 0;
    while i < n
        invariant
            i <= n,
            out@.len() == i,
            forall|j: int| 0 <= j < i ==> #[trigger] out@[j] == j,
        decreases n - i,
    {
        out.push(i);
        i = i + 1;
    }
    out
}

/// Configuration for launching a vCPU thread.
#[derive(Debug, Clone)]
pub struct VcpuThreadConfig {
    /// Guest identifier.
    pub guest_id: String,
    /// vCPU index within the guest.
    pub vcpu_id: u32,
    /// Physical core to pin to.
    pub physical_core: u32,
}

impl VcpuThreadConfig {
    /// The name of the thread: the guest and the vCPU.
    #[must_use]
    pub fn thread_name(&self) -> (r: String)
        ensures
            r@ == self.guest_id@ + "-vcpu"@ + dec(self.vcpu_id as nat),
    {
        let mut out: String = String::new();
        out.append(self.guest_id.as_str());
        out.append("-vcpu");
        push_dec(&mut out, self.vcpu_id as u64);
        assert(out@ =~= self.guest_id@ + "-vcpu"@ + dec(self.vcpu_id as nat));
        out
    }
}

/// The bit set has room for 1024 cores, eight to a byte: core `c` is bit `c % 8`
/// of byte `c / 8`.
pub proof fn law_cpu_set_layout(s: Seq<u8>, c: u32)
    requires
        s.len() == 128,
    ensures
        in_cpu_set(s, c) <==> c < 1024 && (s[(c / 8) as int] >> ((c % 8) as u8)) & 1 == 1,
{
    if c < 1024 {
        let b = s[(c / 8) as int];
        let k = (c % 8) as u8;
        assert(b & (1u8 << k) != 0 <==> (b >> k) & 1 == 1) by (bit_vector)
            requires
                k < 8,
        ;
    }
}

/// What pinning does on Linux, core by core: with cores below 1024 only, the kernel
/// is handed each of them and no other; with none at all, or with some below 1024
/// and some not, nothing is handed over; with none below 1024 the empty set is.
pub proof fn law_pin_step_hands_over_the_mask(mask: Set<u32>, step: PinStep, core: u32)
    requires
        is_pin_step(Platform::Linux, mask, step),
        mask.contains(core),
    ensures
        (forall|c: u32| #[trigger] mask.contains(c) ==> c < 1024) ==> (
        step matches PinStep::SetAffinity(set) && forall|c: u32| #[trigger]
            in_cpu_set(set@, c) <==> mask.contains(c)),
        (forall|c: u32| #[trigger] mask.contains(c) ==> c >= 1024) ==> (
        step matches PinStep::SetAffinity(set) && forall|c: u32| !#[trigger] in_cpu_set(set@, c)),
        (exists|c: u32| #[trigger] mask.contains(c) && c < 1024) && (exists|c: u32| #[trigger]
            mask.contains(c) && c >= 1024) ==> (step matches PinStep::Done(PinResult::Failed(_))),
{
}

/// A list of cores names each of them, in order: one more core follows a comma and
/// a space, and the first one follows nothing.
pub proof fn law_every_core_is_named(s: Seq<u32>, core: u32)
    ensures
        s.len() == 0 ==> joined(s).len() == 0 && joined(s.push(core)) == dec(core as nat),
        s.len() > 0 ==> joined(s.push(core)) == joined(s) + ", "@ + dec(core as nat),
{
    assert(s.push(core).drop_last() =~= s);
}

} // verus!
