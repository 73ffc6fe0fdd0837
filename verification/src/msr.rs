//! Model-specific registers: which ones trap, and which ones make up a
//! vCPU's saved context.
use crate::error::{Error, Result};
use crate::kvm_backend::KvmBackend;
use crate::kvm_cpuid::CollectionError;
use crate::text::{dec, push_dec};
use kvm_bindings::{kvm_msr_entry, Msrs};
use vstd::prelude::*;
use vstd::string::*;

verus! {

// ---------------------------------------------------------------------------
// Forwarding to userspace
// ---------------------------------------------------------------------------

/// A filter holds at most this many ranges.
pub const MAX_FILTER_RANGES: usize = 16;

/// The filter lets through every register that no range speaks of.
pub const FILTER_DEFAULT_ALLOW: u32 = 0;

/// A range that speaks of reads and of writes.
pub const FILTER_READ_WRITE: u32 = 3;

/// Exits for unknown registers and for those that a filter denies.
pub const MSR_EXIT_REASONS: u64 = 6;

/// A run of registers, and a bit for each: clear where access is denied.
#[derive(Debug)]
pub struct MsrFilterRange {
    pub flags: u32,
    pub nmsrs: u32,
    pub base: u32,
    pub bitmap: Vec<u8>,
}

/// A filter for register accesses.
#[derive(Debug)]
pub struct MsrFilter {
    pub flags: u32,
    pub ranges: Vec<MsrFilterRange>,
}

impl MsrFilterRange {
    /// The range speaks of register `msr`.
    pub open spec fn covers(self, msr: u32) -> bool {
        self.base <= msr < self.base + self.nmsrs
    }

    /// The range speaks of `msr` and its bit is clear.
    pub open spec fn denies(self, msr: u32) -> bool {
        &&& self.covers(msr)
        &&& (self.bitmap@[(msr - self.base) / 8] >> (((msr - self.base) % 8) as u8)) & 1u8 == 0
    }
}

impl MsrFilter {
    /// Access to `msr` is denied, and so comes to userspace.
    pub open spec fn denies(self, msr: u32) -> bool {
        exists|i: int| 0 <= i < self.ranges@.len() && (#[trigger] self.ranges@[i]).denies(msr)
    }
}

/// `msr` lies in one of the ranges, each given as its base and length.
pub open spec fn listed(ranges: Seq<(u32, u32)>, msr: u32) -> bool {
    exists|i: int|
        0 <= i < ranges.len() && (#[trigger] ranges[i]).0 <= msr < ranges[i].0 + ranges[i].1
}

/// `f` is the range over the given registers that denies each.
pub open spec fn denies_all(f: MsrFilterRange, range: (u32, u32)) -> bool {
    &&& f.flags == FILTER_READ_WRITE
    &&& f.base == range.0
    &&& f.nmsrs == range.1
    &&& f.bitmap@.len() == (range.1 + 7) / 8
    &&& forall|i: int| 0 <= i < f.bitmap@.len() ==> #[trigger] f.bitmap@[i] == 0
}

/// The message for too many ranges.
pub open spec fn too_many_ranges_text(n: nat) -> Seq<char> {
    "MSR filter supports at most 16 ranges, got "@ + dec(n)
}

/// The message for a missing capability.
pub open spec fn no_msr_exits_text() -> Seq<char> {
    "KVM_CAP_X86_USER_SPACE_MSR unavailable"@
}

impl KvmBackend {
    /// The arguments that enable register exits: for registers that KVM does
    /// not know, and for those that a filter denies.
    ///
    /// Fails where the host lacks the capability.
    pub fn enable_userspace_msr_exits(&self, available: bool) -> (r: Result<[u64; 4]>)
        ensures
            r is Ok <==> available,
            r matches Ok(a) ==> a@ == seq![6u64, 0u64, 0u64, 0u64],
            r matches Err(e) ==> e matches Error::HypervisorError(m) && m@ == no_msr_exits_text(),
    {
        if !available {
            return Err(
                Error::HypervisorError("KVM_CAP_X86_USER_SPACE_MSR unavailable".to_owned()),
            );
        }
        Ok([MSR_EXIT_REASONS, 0u64, 0u64, 0u64])
    }

    /// The filter that redirects the given registers to userspace, even those
    /// that KVM emulates, and leaves all others to KVM. Each range is a base
    /// and a number of registers.
    ///
    /// Fails where there are more ranges than a filter holds.
    pub fn forward_msrs_to_userspace(&self, ranges: &[(u32, u32)]) -> (r: Result<MsrFilter>)
        ensures
            r is Ok <==> ranges@.len() <= 16,
            r matches Ok(f) ==> {
                &&& f.flags == 0
                &&& f.ranges@.len() == ranges@.len()
                &&& forall|i: int|
                    0 <= i < ranges@.len() ==> denies_all(#[trigger] f.ranges@[i], ranges@[i])
            },
            r matches Err(e) ==> e matches Error::HypervisorError(m) && m@ == too_many_ranges_text(
                ranges@.len(),
            ),
    {
        if ranges.len() > MAX_FILTER_RANGES {
            let mut m: String = String::new();
            m.append("MSR filter supports at most 16 ranges, got ");
            push_dec(&mut m, ranges.len() as u64);
            return Err(Error::HypervisorError(m));
        }
        let mut out: Vec<MsrFilterRange> = Vec::new();
        let mut i: usize = 0;
        while i < ranges.len()
            invariant
                i <= ranges@.len(),
                out@.len() == i,
                forall|j: int| 0 <= j < i ==> denies_all(#[trigger] out@[j], ranges@[j]),
            decreases ranges@.len() - i,
        {
            let range: (u32, u32) = ranges[i];
            let bytes: usize = (range.1 / 8) as usize + (if range.1 % 8 == 0 { 0 } else { 1 });
            let bitmap: Vec<u8> = vec![0u8; bytes];
            let f = MsrFilterRange { flags: FILTER_READ_WRITE, nmsrs: range.1, base: range.0, bitmap };
            assert(denies_all(f, range));
            out.push(f);
            i = i + 1;
        }
        Ok(MsrFilter { flags: FILTER_DEFAULT_ALLOW, ranges: out })
    }
}

/// A filter that denies all of the given ranges denies exactly the registers
/// in them.
pub proof fn law_filter_denies_exactly_the_listed(f: MsrFilter, ranges: Seq<(u32, u32)>, msr: u32)
    requires
        f.ranges@.len() == ranges.len(),
        forall|i: int| 0 <= i < ranges.len() ==> denies_all(#[trigger] f.ranges@[i], ranges[i]),
    ensures
        f.denies(msr) <==> listed(ranges, msr),
{
    if listed(ranges, msr) {
        let i: int = choose|i: int|
            0 <= i < ranges.len() && (#[trigger] ranges[i]).0 <= msr < ranges[i].0 + ranges[i].1;
        let g = f.ranges@[i];
        assert(denies_all(g, ranges[i]));
        let k: int = (msr - g.base) as int;
        let sh: u8 = (k % 8) as u8;
        assert(g.bitmap@[k / 8] == 0);
        assert((0u8 >> sh) & 1u8 == 0) by (bit_vector);
        assert(g.denies(msr));
    }
    if f.denies(msr) {
        let i: int = choose|i: int|
            0 <= i < f.ranges@.len() && (#[trigger] f.ranges@[i]).denies(msr);
        assert(denies_all(f.ranges@[i], ranges[i]));
        assert(ranges[i].0 <= msr < ranges[i].0 + ranges[i].1);
    }
}

// ---------------------------------------------------------------------------
// Saved context
// ---------------------------------------------------------------------------

/// The time-stamp counter.
pub const IA32_TSC: u32 = 0x10;

/// KVM accepts at most this many registers at once.
pub const MAX_MSR_ENTRIES: usize = 256;

/// The registers that belong to a vCPU's context: segment bases, the system
/// call registers and the page attribute table. The extended features register
/// is saved with the control registers, and the time-stamp counter is left to
/// the timing layer, which keeps an offset on it.
pub open spec fn context_msrs() -> Seq<u32> {
    seq![
        0xC000_0100u32,
        0xC000_0101u32,
        0xC000_0102u32,
        0xC000_0081u32,
        0xC000_0082u32,
        0xC000_0083u32,
        0xC000_0084u32,
        0x0000_0174u32,
        0x0000_0175u32,
        0x0000_0176u32,
        0x0000_0277u32,
    ]
}

/// The registers that belong to a vCPU's context, in the order in which they
/// are read.
#[must_use]
pub fn context_msr_list() -> (r: Vec<u32>)
    ensures
        r@ == context_msrs(),
{
    let v: Vec<u32> = vec![
        0xC000_0100,
        0xC000_0101,
        0xC000_0102,
        0xC000_0081,
        0xC000_0082,
        0xC000_0083,
        0xC000_0084,
        0x0000_0174,
        0x0000_0175,
        0x0000_0176,
        0x0000_0277,
    ];
    assert(v@ =~= context_msrs());
    v
}

/// One answer to a request for a single register: how many registers KVM
/// served, unless it failed, and the contents.
#[derive(Debug, Clone, Copy, PartialEq, Eq, Structural)]
pub struct MsrAnswer {
    pub served: Option<usize>,
    pub data: u64,
}

/// The registers that were served, with their contents, in order.
pub open spec fn served_msrs(msrs: Seq<u32>, answers: Seq<MsrAnswer>) -> Seq<(u32, u64)>
    decreases answers.len(),
{
    if answers.len() == 0 || msrs.len() != answers.len() {
        Seq::empty()
    } else {
        let rest = served_msrs(msrs.drop_last(), answers.drop_last());
        if answers.last().served == Some(1usize) {
            rest.push((msrs.last(), answers.last().data))
        } else {
            rest
        }
    }
}

/// The message for a read that was not answered with one register.
pub open spec fn tsc_count_text(n: usize) -> Seq<char> {
    "KVM_GET_MSRS(IA32_TSC) returned "@ + dec(n as nat) + " entries, expected 1"@
}

/// The message for registers that could not all be restored.
pub open spec fn partial_restore_text(n: usize, total: usize) -> Seq<char> {
    "KVM_SET_MSRS accepted "@ + dec(n as nat) + " of "@ + dec(total as nat) + " entries"@
}

/// Collects the context registers that the host serves. One that it does not
/// serve is no part of the guest's state there.
pub fn save_msrs(answers: &[MsrAnswer]) -> (r: Vec<(u32, u64)>)
    requires
        answers@.len() == context_msrs().len(),
    ensures
        r@ == served_msrs(context_msrs(), answers@),
{
    let msrs: Vec<u32> = context_msr_list();
    let mut out: Vec<(u32, u64)> = Vec::new();
    let mut i: usize = 0;
    while i < answers.len()
        invariant
            i <= answers@.len(),
            msrs@ == context_msrs(),
            answers@.len() == msrs@.len(),
            out@ == served_msrs(msrs@.take(i as int), answers@.take(i as int)),
        decreases answers@.len() - i,
    {
        proof {
            assert(msrs@.take(i + 1).drop_last() =~= msrs@.take(i as int));
            assert(answers@.take(i + 1).drop_last() =~= answers@.take(i as int));
        }
        let answer: MsrAnswer = answers[i];
        match answer.served {
            Some(n) => if n == 1 {
                out.push((msrs[i], answer.data));
            },
            None => {},
        }
        i = i + 1;
    }
    assert(msrs@.take(i as int) =~= msrs@);
    assert(answers@.take(i as int) =~= answers@);
    out
}

/// Checks that the counter was read: KVM serves one register.
pub fn check_tsc_read(n: usize, data: u64) -> (r: Result<u64>)
    ensures
        r is Ok <==> n == 1,
        r matches Ok(v) ==> v == data,
        r matches Err(e) ==> e matches Error::Vcpu(m) && m@ == tsc_count_text(n),
{
    if n != 1 {
        let mut m: String = String::new();
        m.append("KVM_GET_MSRS(IA32_TSC) returned ");
        push_dec(&mut m, n as u64);
        m.append(" entries, expected 1");
        return Err(Error::Vcpu(m));
    }
    Ok(data)
}

/// Checks that every saved register was restored.
pub fn check_restored(n: usize, total: usize) -> (r: Result<()>)
    ensures
        r is Ok <==> n == total,
        r matches Err(e) ==> e matches Error::Vcpu(m) && m@ == partial_restore_text(n, total),
{
    if n != total {
        let mut m: String = String::new();
        m.append("KVM_SET_MSRS accepted ");
        push_dec(&mut m, n as u64);
        m.append(" of ");
        push_dec(&mut m, total as u64);
        m.append(" entries");
        return Err(Error::Vcpu(m));
    }
    Ok(())
}

// ---------------------------------------------------------------------------
// The collection that is handed to KVM
// ---------------------------------------------------------------------------

/// `kvm_bindings::Msrs`, the length-prefixed array that the register calls of
/// KVM take.
#[verifier::external_body]
pub struct MsrSet {
    inner: Msrs,
}

/// The registers that an [`MsrSet`] holds, with their contents, in order.
pub uninterp spec fn msr_set_entries(s: MsrSet) -> Seq<(u32, u64)>;

impl MsrSet {
    /// `kvm_bindings::Msrs::from_entries`: a collection of exactly the given
    /// registers in their order. It is refused, as too large, if and only if
    /// there are more than [`MAX_MSR_ENTRIES`].
    #[verifier::external_body]
    pub(crate) fn from_entries(entries: &[(u32, u64)]) -> (r: std::result::Result<
        MsrSet,
        CollectionError,
    >)
        ensures
            r is Ok <==> entries@.len() <= MAX_MSR_ENTRIES,
            r matches Ok(s) ==> msr_set_entries(s) == entries@,
            r matches Err(e) ==> e == CollectionError::SizeLimitExceeded,
    {
        let raw: Vec<kvm_msr_entry> = entries.iter().map(
            |e| kvm_msr_entry { index: e.0, data: e.1, ..Default::default() },
        ).collect();
        match Msrs::from_entries(&raw) {
            Ok(inner) => Ok(MsrSet { inner }),
            Err(vmm_sys_util::fam::Error::SizeLimitExceeded) => Err(
                CollectionError::SizeLimitExceeded,
            ),
        }
    }

    /// `kvm_bindings::Msrs::as_slice`: the registers of the collection with
    /// their contents, in order.
    #[verifier::external_body]
    pub(crate) fn to_entries(&self) -> (r: Vec<(u32, u64)>)
        ensures
            r@ == msr_set_entries(*self),
    {
        self.inner.as_slice().iter().map(|e| (e.index, e.data)).collect()
    }

    /// The registers of the collection with their contents, in order.
    pub fn entries(&self) -> (r: Vec<(u32, u64)>)
        ensures
            r@ == msr_set_entries(*self),
    {
        self.to_entries()
    }
}

/// The message for registers that KVM does not accept at once.
pub open spec fn msr_alloc_text() -> Seq<char> {
    "Msrs alloc: SizeLimitExceeded"@
}

/// Puts registers into the form that KVM takes: a single one to be read, or
/// saved ones to be restored.
///
/// Fails where there are more than KVM accepts.
pub fn msr_request(entries: &[(u32, u64)]) -> (r: Result<MsrSet>)
    ensures
        r is Ok <==> entries@.len() <= 256,
        r matches Ok(s) ==> msr_set_entries(s) == entries@,
        r matches Err(e) ==> e matches Error::Vcpu(m) && m@ == msr_alloc_text(),
{
    match MsrSet::from_entries(entries) {
        Ok(s) => Ok(s),
        Err(CollectionError::SizeLimitExceeded) => Err(
            Error::Vcpu("Msrs alloc: SizeLimitExceeded".to_owned()),
        ),
    }
}

proof fn lemma_served_len(msrs: Seq<u32>, answers: Seq<MsrAnswer>)
    ensures
        served_msrs(msrs, answers).len() <= answers.len(),
    decreases answers.len(),
{
    if answers.len() > 0 && msrs.len() == answers.len() {
        lemma_served_len(msrs.drop_last(), answers.drop_last());
    }
}

/// Saved context registers always fit into one restore request.
pub proof fn law_saved_context_fits(answers: Seq<MsrAnswer>)
    requires
        answers.len() == context_msrs().len(),
    ensures
        served_msrs(context_msrs(), answers).len() <= MAX_MSR_ENTRIES,
{
    lemma_served_len(context_msrs(), answers);
}

/// A range that denies its registers denies reads and writes, and has a bit for
/// each of them.
pub proof fn law_denied_range_holds_every_register(
    f: MsrFilterRange,
    range: (u32, u32),
    msr: u32,
)
    requires
        denies_all(f, range),
        range.0 <= msr < range.0 + range.1,
    ensures
        f.flags == 1 + 2,
        f.base == range.0,
        f.nmsrs == range.1,
        (msr - f.base) / 8 < f.bitmap@.len(),
        f.bitmap@[(msr - f.base) / 8] == 0,
{
}

/// The context of a vCPU are eleven registers: the bases of FS, GS and the kernel's
/// GS, the four registers of `syscall`, the three of `sysenter` and the page
/// attribute table. Neither the time-stamp counter nor the extended features
/// register is among them.
pub proof fn law_context_registers(msr: u32)
    ensures
        context_msrs().no_duplicates(),
        context_msrs().len() == 11,
        context_msrs().contains(msr) <==> {
            ||| 0xC000_0100 <= msr <= 0xC000_0102
            ||| 0xC000_0081 <= msr <= 0xC000_0084
            ||| 0x174 <= msr <= 0x176
            ||| msr == 0x277
        },
        msr == 0x10 || msr == 0xC000_0080 ==> !context_msrs().contains(msr),
{
    let c = context_msrs();
    assert(c[0] == 0xC000_0100 && c[1] == 0xC000_0101 && c[2] == 0xC000_0102);
    assert(c[3] == 0xC000_0081 && c[4] == 0xC000_0082 && c[5] == 0xC000_0083 && c[6]
        == 0xC000_0084);
    assert(c[7] == 0x174 && c[8] == 0x175 && c[9] == 0x176 && c[10] == 0x277);
}

/// `x` is a register that KVM served, with what it answered.
pub open spec fn is_served(msrs: Seq<u32>, answers: Seq<MsrAnswer>, x: (u32, u64)) -> bool {
    exists|i: int|
        0 <= i < answers.len() && (#[trigger] answers[i]).served == Some(1usize) && x == (
            msrs[i],
            answers[i].data,
        )
}

/// A register is saved exactly if KVM served that one register, and with what KVM
/// answered; nothing else is saved.
pub proof fn law_served_registers_are_saved(msrs: Seq<u32>, answers: Seq<MsrAnswer>)
    requires
        msrs.len() == answers.len(),
    ensures
        ({
            let saved = served_msrs(msrs, answers);
            &&& forall|i: int|
                0 <= i < answers.len() && (#[trigger] answers[i]).served == Some(1usize)
                    ==> saved.contains((msrs[i], answers[i].data))
            &&& forall|k: int|
                0 <= k < saved.len() ==> is_served(msrs, answers, #[trigger] saved[k])
            &&& saved.len() <= answers.len()
            &&& (forall|i: int|
                0 <= i < answers.len() ==> (#[trigger] answers[i]).served == Some(1usize))
                ==> saved.len() == answers.len() && forall|i: int|
                0 <= i < answers.len() ==> #[trigger] saved[i] == (msrs[i], answers[i].data)
        }),
    decreases answers.len(),
{
    if answers.len() > 0 {
        let m = msrs.drop_last();
        let a = answers.drop_last();
        law_served_registers_are_saved(m, a);
        let before = served_msrs(m, a);
        let saved = served_msrs(msrs, answers);
        let n = answers.len() - 1;
        assert forall|i: int|
            0 <= i < answers.len() && (#[trigger] answers[i]).served == Some(
                1usize,
            ) implies saved.contains((msrs[i], answers[i].data)) by {
            if i < n {
                assert(a[i] == answers[i] && m[i] == msrs[i]);
                let k: int = choose|k: int|
                    0 <= k < before.len() && before[k] == (msrs[i], answers[i].data);
                assert(saved[k] == before[k]);
            } else {
                assert(saved[saved.len() - 1] == (msrs[i], answers[i].data));
            }
        }
        assert forall|k: int| 0 <= k < saved.len() implies is_served(
            msrs,
            answers,
            #[trigger] saved[k],
        ) by {
            if k < before.len() {
                assert(is_served(m, a, before[k]));
                let i: int = choose|i: int|
                    0 <= i < a.len() && (#[trigger] a[i]).served == Some(1usize) && before[k] == (
                        m[i],
                        a[i].data,
                    );
                assert(a[i] == answers[i] && m[i] == msrs[i]);
            } else {
                assert(answers[n].served == Some(1usize));
            }
        }
        if forall|i: int|
            0 <= i < answers.len() ==> (#[trigger] answers[i]).served == Some(1usize) {
            assert forall|i: int| 0 <= i < a.len() implies (#[trigger] a[i]).served == Some(
                1usize,
            ) by {
                assert(a[i] == answers[i]);
            }
            assert(answers[n].served == Some(1usize));
            assert forall|i: int| 0 <= i < answers.len() implies #[trigger] saved[i] == (
                msrs[i],
                answers[i].data,
            ) by {
                if i < n {
                    assert(before[i] == (m[i], a[i].data));
                }
            }
        }
    }
}

/// Registers are saved in the order in which they were read: one more that is read
/// is saved behind the others, or not at all.
pub proof fn law_registers_are_saved_in_order(
    msrs: Seq<u32>,
    answers: Seq<MsrAnswer>,
    msr: u32,
    answer: MsrAnswer,
)
    requires
        msrs.len() == answers.len(),
    ensures
        ({
            let before = served_msrs(msrs, answers);
            let after = served_msrs(msrs.push(msr), answers.push(answer));
            &&& before.len() <= after.len() <= before.len() + 1
            &&& after.take(before.len() as int) == before
            &&& after.len() > before.len() <==> answer.served == Some(1usize)
            &&& after.len() > before.len() ==> after.last() == (msr, answer.data)
        }),
{
    assert(msrs.push(msr).drop_last() =~= msrs);
    assert(answers.push(answer).drop_last() =~= answers);
    let before = served_msrs(msrs, answers);
    let after = served_msrs(msrs.push(msr), answers.push(answer));
    assert(after.take(before.len() as int) =~= before);
}

} // verus!
