//! The host memory behind a guest's RAM, and access to it by guest address.
use crate::bytes::{copy_into, overwritten};
use crate::error::{Error, Result};
use crate::text::{hex, push_hex};
use vstd::prelude::*;
use vstd::slice::slice_subrange;
use vstd::string::*;

verus! {

/// Host page size. KVM wants a memory region's guest address, size and host
/// address to be multiples of it.
pub const HOST_PAGE_SIZE: usize = 4096;

/// `size` rounded up to whole pages.
pub open spec fn page_rounded(size: int) -> int {
    (size + 4095) / 4096 * 4096
}

/// The address of the first byte of a buffer: `Vec::as_ptr`, as a number.
/// Nothing is claimed of the address; it is the allocator's choice.
#[verifier::external_body]
fn buffer_address(buffer: &Vec<u8>) -> (r: u64) {
    buffer.as_ptr() as u64
}

/// The distance from an address to the first page boundary that is not below it.
pub open spec fn page_distance(base: u64) -> int {
    (4096 - base % 4096) % 4096
}

/// Where, in a buffer at address `base`, the first whole page starts.
#[must_use]
pub fn first_page(base: u64) -> (r: usize)
    ensures
        r == page_distance(base),
        r < 4096,
        (base + r) % 4096 == 0,
{
    let past: usize = (base % 4096) as usize;
    if past == 0 {
        0
    } else {
        4096 - past
    }
}

/// A page-aligned, zeroed host buffer that backs guest RAM.
///
/// KVM wants the host address of a memory slot to be page-aligned. The buffer
/// is allocated one page larger than asked for, and the RAM starts at the
/// first page boundary in it.
pub struct GuestRam {
    backing: Vec<u8>,
    start: usize,
    size: usize,
    base: u64,
}

impl View for GuestRam {
    type V = Seq<u8>;

    closed spec fn view(&self) -> Seq<u8> {
        self.backing@.subrange(self.start as int, self.start + self.size)
    }
}

impl GuestRam {
    /// The invariant: whole pages, within the buffer, from the first page
    /// boundary in it on.
    pub closed spec fn wf(&self) -> bool {
        &&& self.start + self.size <= self.backing@.len()
        &&& self.size > 0
        &&& self.size % 4096 == 0
        &&& self.start == page_distance(self.base)
        &&& self.address() % 4096 == 0
    }

    /// The host address of the first byte: as far behind that of the buffer as
    /// the byte lies in the buffer.
    pub closed spec fn address(&self) -> u64 {
        self.base.wrapping_add(self.start as u64)
    }

    /// Allocates `size` bytes of zeroed, page-aligned host memory. The size is
    /// rounded up to whole pages.
    #[must_use]
    pub fn new(size: usize) -> (r: Self)
        requires
            size > 0,
            page_rounded(size as int) + HOST_PAGE_SIZE <= isize::MAX,
        ensures
            r.wf(),
            r@.len() == page_rounded(size as int),
            forall|i: int| 0 <= i < r@.len() ==> #[trigger] r@[i] == 0,
    {
        let pages: usize = (size + (HOST_PAGE_SIZE - 1)) / HOST_PAGE_SIZE;
        let rounded: usize = pages * HOST_PAGE_SIZE;
        let backing: Vec<u8> = vec![0u8; rounded + HOST_PAGE_SIZE];
        let base: u64 = buffer_address(&backing);
        let start: usize = first_page(base);
        GuestRam { backing, start, size: rounded, base }
    }

    /// The page-aligned host address to register with KVM.
    #[must_use]
    pub fn host_addr(&self) -> (r: u64)
        requires
            self.wf(),
        ensures
            r == self.address(),
            r % 4096 == 0,
    {
        self.base.wrapping_add(self.start as u64)
    }

    /// The size in bytes, whole pages.
    #[must_use]
    pub fn len(&self) -> (r: usize)
        requires
            self.wf(),
        ensures
            r == self@.len(),
            r > 0,
            r % 4096 == 0,
    {
        self.size
    }

    /// Guest RAM is never empty.
    #[must_use]
    pub fn is_empty(&self) -> (r: bool)
        requires
            self.wf(),
        ensures
            r == (self@.len() == 0),
            !r,
    {
        false
    }

    /// The bytes.
    #[must_use]
    pub fn as_slice(&self) -> (r: &[u8])
        requires
            self.wf(),
        ensures
            r@ == self@,
    {
        let all: &[u8] = self.backing.as_slice();
        assert(all.len() <= usize::MAX);
        slice_subrange(all, self.start, self.start + self.size)
    }

    /// The bytes, to be written.
    #[must_use]
    pub fn as_mut_slice(&mut self) -> (r: &mut [u8])
        requires
            old(self).wf(),
        ensures
            r@ == old(self)@,
            final(r)@.len() == old(self)@.len() ==> final(self).wf() && final(self)@ == final(r)@,
            final(self).address() == old(self).address(),
    {
        let start: usize = self.start;
        let size: usize = self.size;
        let (_head, rest) = self.backing.as_mut_slice().split_at_mut(start);
        let (ram, _tail) = rest.split_at_mut(size);
        ram
    }
}

/// RAM is made of whole pages that the host can count.
pub proof fn law_ram_is_whole_pages(ram: GuestRam)
    requires
        ram.wf(),
    ensures
        0 < ram@.len() <= usize::MAX,
        ram@.len() % 4096 == 0,
        ram.address() % 4096 == 0,
{
}

/// The message for a region that is not aligned to pages.
pub open spec fn misaligned_text(guest_phys_addr: u64, host_addr: u64, size: u64) -> Seq<char> {
    "KVM memory region must be page-aligned ("@ + hex(4096) + "): guest_phys_addr="@ + hex(
        guest_phys_addr as nat,
    ) + ", host_addr="@ + hex(host_addr as nat) + ", size="@ + hex(size as nat)
}

/// Whole pages at page boundaries.
pub open spec fn region_aligned(guest_phys_addr: u64, host_addr: u64, size: u64) -> bool {
    guest_phys_addr % 4096 == 0 && host_addr % 4096 == 0 && size % 4096 == 0
}

/// Checks that a memory region is one that KVM takes, so that one it does not
/// take leads to an error that says why.
pub fn validate_region(guest_phys_addr: u64, host_addr: u64, size: u64) -> (r: Result<()>)
    ensures
        r is Ok <==> size != 0 && region_aligned(guest_phys_addr, host_addr, size),
        r matches Err(e) ==> e matches Error::HypervisorError(m) && m@ == (if size == 0 {
            "guest memory region size must be non-zero"@
        } else {
            misaligned_text(guest_phys_addr, host_addr, size)
        }),
{
    if size == 0 {
        return Err(Error::HypervisorError("guest memory region size must be non-zero".to_owned()));
    }
    if guest_phys_addr % 4096 != 0 || host_addr % 4096 != 0 || size % 4096 != 0 {
        let mut m: String = String::new();
        m.append("KVM memory region must be page-aligned (");
        push_hex(&mut m, 4096);
        m.append("): guest_phys_addr=");
        push_hex(&mut m, guest_phys_addr);
        m.append(", host_addr=");
        push_hex(&mut m, host_addr);
        m.append(", size=");
        push_hex(&mut m, size);
        return Err(Error::HypervisorError(m));
    }
    Ok(())
}

/// A guest memory region registered with KVM.
#[derive(Debug, Clone, Copy, PartialEq, Eq, Structural)]
pub struct MemSlot {
    /// KVM memory slot index.
    pub slot: u32,
    /// Guest physical address the region is mapped at.
    pub guest_phys_addr: u64,
    /// Region size in bytes.
    pub size: u64,
    /// Host virtual base address backing this region.
    pub host_addr: u64,
}

impl MemSlot {
    /// The `len` bytes at `addr` lie wholly in this slot.
    pub open spec fn holds(self, addr: u64, len: nat) -> bool {
        self.guest_phys_addr <= addr && (addr - self.guest_phys_addr) + len <= self.size
    }

    /// The region ends below the top of the host's address space.
    pub open spec fn in_range(self) -> bool {
        self.host_addr + self.size <= u64::MAX
    }
}

/// The first slot, from `i` on, that wholly holds the bytes; the number of
/// slots where none does.
pub open spec fn slot_from(slots: Seq<MemSlot>, addr: u64, len: nat, i: int) -> int
    decreases slots.len() - i,
{
    if i < 0 || i >= slots.len() {
        slots.len() as int
    } else if slots[i].holds(addr, len) {
        i
    } else {
        slot_from(slots, addr, len, i + 1)
    }
}

/// The first slot that wholly holds the bytes.
pub open spec fn slot_of(slots: Seq<MemSlot>, addr: u64, len: nat) -> int {
    slot_from(slots, addr, len, 0)
}

/// Some slot wholly holds the bytes.
pub open spec fn held(slots: Seq<MemSlot>, addr: u64, len: nat) -> bool {
    exists|i: int| 0 <= i < slots.len() && (#[trigger] slots[i]).holds(addr, len)
}

proof fn lemma_slot_from(slots: Seq<MemSlot>, addr: u64, len: nat, i: int)
    requires
        0 <= i <= slots.len(),
    ensures
        i <= slot_from(slots, addr, len, i) <= slots.len(),
        slot_from(slots, addr, len, i) < slots.len() ==> slots[slot_from(
            slots,
            addr,
            len,
            i,
        )].holds(addr, len),
        forall|j: int|
            i <= j < slot_from(slots, addr, len, i) ==> !(#[trigger] slots[j]).holds(addr, len),
    decreases slots.len() - i,
{
    if i < slots.len() && !slots[i].holds(addr, len) {
        lemma_slot_from(slots, addr, len, i + 1);
    }
}

/// An access is served by the first slot that wholly holds it, and refused if
/// and only if there is none.
pub proof fn law_slot_of(slots: Seq<MemSlot>, addr: u64, len: nat)
    ensures
        0 <= slot_of(slots, addr, len) <= slots.len(),
        slot_of(slots, addr, len) < slots.len() ==> slots[slot_of(slots, addr, len)].holds(
            addr,
            len,
        ),
        forall|j: int|
            0 <= j < slot_of(slots, addr, len) ==> !(#[trigger] slots[j]).holds(addr, len),
        slot_of(slots, addr, len) < slots.len() <==> held(slots, addr, len),
{
    lemma_slot_from(slots, addr, len, 0);
}

/// The RAM behind each slot: as many buffers as slots, each of its slot's size
/// and at the host address that its slot names.
pub open spec fn backs(slots: Seq<MemSlot>, rams: Seq<GuestRam>) -> bool {
    &&& rams.len() == slots.len()
    &&& forall|i: int|
        0 <= i < slots.len() ==> {
            &&& (#[trigger] rams[i]).wf()
            &&& rams[i]@.len() == slots[i].size
            &&& rams[i].address() == slots[i].host_addr
        }
}

/// A device's view of a VM's registered guest memory.
///
/// Emulated devices reach guest RAM by guest-physical address. A single access
/// must lie wholly in one slot, as the guest's physical regions need not be
/// adjacent on the host.
pub struct GuestMemory<'a> {
    pub slots: &'a [MemSlot],
}

impl<'a> GuestMemory<'a> {
    /// A view over a slot table.
    #[must_use]
    pub fn new(slots: &'a [MemSlot]) -> (r: Self)
        ensures
            r.slots@ == slots@,
    {
        GuestMemory { slots }
    }

    /// The slot that wholly holds the bytes at `addr`, and where in it they start.
    #[must_use]
    pub fn locate(&self, addr: u64, len: usize) -> (r: Option<(usize, u64)>)
        ensures
            r is Some <==> held(self.slots@, addr, len as nat),
            r is Some <==> slot_of(self.slots@, addr, len as nat) < self.slots@.len(),
            r matches Some((i, offset)) ==> {
                &&& i == slot_of(self.slots@, addr, len as nat)
                &&& i < self.slots@.len()
                &&& offset == addr - self.slots@[i as int].guest_phys_addr
                &&& offset + len <= self.slots@[i as int].size
            },
    {
        proof {
            law_slot_of(self.slots@, addr, len as nat);
        }
        let mut i: usize = 0;
        while i < self.slots.len()
            invariant
                i <= self.slots@.len(),
                held(self.slots@, addr, len as nat) <==> slot_of(self.slots@, addr, len as nat)
                    < self.slots@.len(),
                slot_of(self.slots@, addr, len as nat) == slot_from(
                    self.slots@,
                    addr,
                    len as nat,
                    i as int,
                ),
            decreases self.slots@.len() - i,
        {
            let s: MemSlot = self.slots[i];
            if let Some(offset) = addr.checked_sub(s.guest_phys_addr) {
                if let Some(end) = offset.checked_add(len as u64) {
                    if end <= s.size {
                        return Some((i, offset));
                    }
                }
            }
            i = i + 1;
        }
        None
    }

    /// The host address of the bytes at `addr`, if they lie wholly in one slot.
    #[must_use]
    pub fn host_ptr(&self, addr: u64, len: usize) -> (r: Option<u64>)
        requires
            forall|i: int| 0 <= i < self.slots@.len() ==> (#[trigger] self.slots@[i]).in_range(),
        ensures
            r == (if held(self.slots@, addr, len as nat) {
                let s = self.slots@[slot_of(self.slots@, addr, len as nat)];
                Some((s.host_addr + (addr - s.guest_phys_addr)) as u64)
            } else {
                None
            }),
    {
        match self.locate(addr, len) {
            Some((i, offset)) => {
                assert(self.slots@[i as int].in_range());
                Some(self.slots[i].host_addr + offset)
            },
            None => None,
        }
    }

    /// Reads the bytes at guest address `addr` from the RAM behind the slots.
    /// `false`, with the buffer untouched, where no slot wholly holds them.
    pub fn read(&self, rams: &Vec<GuestRam>, addr: u64, buf: &mut [u8]) -> (r: bool)
        requires
            backs(self.slots@, rams@),
        ensures
            r == held(self.slots@, addr, old(buf)@.len()),
            r == (slot_of(self.slots@, addr, old(buf)@.len()) < self.slots@.len()),
            !r ==> final(buf)@ == old(buf)@,
            r ==> ({
                let i = slot_of(self.slots@, addr, old(buf)@.len());
                let at = addr - self.slots@[i].guest_phys_addr;
                final(buf)@ == rams@[i]@.subrange(at, at + old(buf)@.len())
            }),
    {
        match self.locate(addr, buf.len()) {
            Some((i, offset)) => {
                assert(rams@[i as int].wf());
                let at: usize = offset as usize;
                let src: &[u8] = slice_subrange(rams[i].as_slice(), at, at + buf.len());
                copy_into(buf, 0, src);
                assert(buf@ =~= src@);
                true
            },
            None => false,
        }
    }

    /// Writes bytes at guest address `addr` into the RAM behind the slots.
    /// `false`, with all RAM untouched, where no slot wholly holds them.
    pub fn write(&self, rams: &mut Vec<GuestRam>, addr: u64, data: &[u8]) -> (r: bool)
        requires
            backs(self.slots@, old(rams)@),
        ensures
            backs(self.slots@, final(rams)@),
            r == held(self.slots@, addr, data@.len()),
            r == (slot_of(self.slots@, addr, data@.len()) < self.slots@.len()),
            !r ==> final(rams)@ == old(rams)@,
            r ==> ({
                let i = slot_of(self.slots@, addr, data@.len());
                let at = addr - self.slots@[i].guest_phys_addr;
                &&& final(rams)@[i]@ == overwritten(old(rams)@[i]@, at, data@)
                &&& forall|j: int|
                    0 <= j < self.slots@.len() && j != i ==> #[trigger] final(rams)@[j]
                        == old(rams)@[j]
            }),
    {
        match self.locate(addr, data.len()) {
            Some((i, offset)) => {
                assert(rams@[i as int].wf());
                let at: usize = offset as usize;
                let ram: &mut GuestRam = &mut rams[i];
                let bytes: &mut [u8] = ram.as_mut_slice();
                copy_into(bytes, at, data);
                true
            },
            None => false,
        }
    }
}

/// What was written at a guest address is what is read there.
pub proof fn law_write_then_read(ram: Seq<u8>, at: int, data: Seq<u8>)
    requires
        0 <= at,
        at + data.len() <= ram.len(),
    ensures
        overwritten(ram, at, data).subrange(at, at + data.len()) == data,
{
    assert(overwritten(ram, at, data).subrange(at, at + data.len()) =~= data);
}

/// A write leaves all bytes outside of it as they were.
pub proof fn law_write_keeps_the_rest(ram: Seq<u8>, at: int, data: Seq<u8>, i: int, j: int)
    requires
        0 <= at,
        at + data.len() <= ram.len(),
        0 <= i <= j <= ram.len(),
        j <= at || at + data.len() <= i,
    ensures
        overwritten(ram, at, data).subrange(i, j) == ram.subrange(i, j),
{
    assert(overwritten(ram, at, data).subrange(i, j) =~= ram.subrange(i, j));
}

/// A slot holds an access exactly if it starts and ends in the slot.
pub proof fn law_slot_holds(s: MemSlot, addr: u64, len: nat)
    ensures
        s.holds(addr, len) <==> s.guest_phys_addr <= addr && addr + len <= s.guest_phys_addr
            + s.size,
{
}

/// A region is aligned exactly if both addresses and the size are multiples of
/// 4 KiB, and RAM is rounded up to such a multiple by less than one.
pub proof fn law_regions_are_whole_pages(guest: u64, host: u64, size: u64)
    ensures
        region_aligned(guest, host, size) <==> guest % 0x1000 == 0 && host % 0x1000 == 0 && size
            % 0x1000 == 0,
        page_rounded(size as int) % 0x1000 == 0,
        size <= page_rounded(size as int) < size + 0x1000,
{
}

} // verus!
