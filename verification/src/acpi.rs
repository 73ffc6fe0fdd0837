//! ACPI tables for guests.
use crate::bytes::le_bytes;
use vstd::prelude::*;

verus! {

/// The header common to all ACPI tables.
#[derive(Clone, Copy)]
pub struct AcpiTableHeader {
    pub signature: [u8; 4],
    /// Total length including the header.
    pub length: u32,
    pub revision: u8,
    pub checksum: u8,
    pub oem_id: [u8; 6],
    pub oem_table_id: [u8; 8],
    pub oem_revision: u32,
    pub creator_id: u32,
    pub creator_revision: u32,
}

/// Root system description pointer: where a guest starts to look.
#[derive(Clone, Copy)]
pub struct Rsdp {
    pub signature: [u8; 8],
    pub checksum: u8,
    pub oem_id: [u8; 6],
    /// 2 for ACPI 2.0 and later.
    pub revision: u8,
    /// Address of the table with 32-bit entries, for ACPI 1.0.
    pub rsdt_address: u32,
    pub length: u32,
    /// Address of the table with 64-bit entries.
    pub xsdt_address: u64,
    pub extended_checksum: u8,
    pub reserved: [u8; 3],
}

/// Fixed ACPI description table: power management ports and table locations.
#[derive(Clone, Copy)]
pub struct Fadt {
    pub header: AcpiTableHeader,
    pub firmware_ctrl: u32,
    pub dsdt: u32,
    pub reserved1: u8,
    pub preferred_pm_profile: u8,
    pub sci_int: u16,
    pub smi_cmd: u32,
    pub acpi_enable: u8,
    pub acpi_disable: u8,
    pub s4bios_req: u8,
    pub pstate_cnt: u8,
    pub pm1a_evt_blk: u32,
    pub pm1b_evt_blk: u32,
    pub pm1a_cnt_blk: u32,
    pub pm1b_cnt_blk: u32,
    pub pm2_cnt_blk: u32,
    pub pm_tmr_blk: u32,
    pub gpe0_blk: u32,
    pub gpe1_blk: u32,
    pub pm1_evt_len: u8,
    pub pm1_cnt_len: u8,
    pub pm2_cnt_len: u8,
    pub pm_tmr_len: u8,
    pub gpe0_blk_len: u8,
    pub gpe1_blk_len: u8,
    pub gpe1_base: u8,
    pub cst_cnt: u8,
    pub p_lvl2_lat: u16,
    pub p_lvl3_lat: u16,
    pub flush_size: u16,
    pub flush_stride: u16,
    pub duty_offset: u8,
    pub duty_width: u8,
    pub day_alrm: u8,
    pub mon_alrm: u8,
    pub century: u8,
    pub iapc_boot_arch: u16,
    pub reserved2: u8,
    pub flags: u32,
    pub reset_reg: u64,
    pub reset_value: u8,
    pub arm_boot_arch: u16,
    pub fadt_minor_version: u8,
    pub x_firmware_ctrl: u64,
    pub x_dsdt: u64,
}

/// Multiple APIC description table: processors and interrupt controllers.
pub struct MadtHeader {
    pub header: AcpiTableHeader,
    pub local_apic_addr: u32,
    pub flags: u32,
}

/// A processor's local APIC.
pub struct MadtLocalApic {
    /// 0 for a local APIC.
    pub entry_type: u8,
    pub length: u8,
    pub processor_uid: u8,
    pub apic_id: u8,
    pub flags: u32,
}

/// An I/O APIC.
pub struct MadtIoApic {
    /// 1 for an I/O APIC.
    pub entry_type: u8,
    pub length: u8,
    pub io_apic_id: u8,
    pub reserved: u8,
    pub io_apic_address: u32,
    pub global_system_interrupt_base: u32,
}

/// The size of a root system description pointer in memory.
pub const RSDP_SIZE: usize = 36;

/// The part of it that ACPI 1.0 knows, with a checksum of its own.
pub const RSDP_V1_SIZE: usize = 20;

/// The standard address of the local APIC.
pub const LOCAL_APIC_ADDR: u32 = 0xFEE0_0000;

/// `"RSD PTR "`.
pub open spec fn rsdp_signature() -> Seq<u8> {
    seq![0x52u8, 0x53u8, 0x44u8, 0x20u8, 0x50u8, 0x54u8, 0x52u8, 0x20u8]
}

/// `"ENLIL"` and a zero.
pub open spec fn oem_id() -> Seq<u8> {
    seq![0x45u8, 0x4Eu8, 0x4Cu8, 0x49u8, 0x4Cu8, 0u8]
}

/// `"ENLILVM"` and a zero.
pub open spec fn oem_table_id() -> Seq<u8> {
    seq![0x45u8, 0x4Eu8, 0x4Cu8, 0x49u8, 0x4Cu8, 0x56u8, 0x4Du8, 0u8]
}

/// The sum of the bytes.
pub open spec fn byte_sum(s: Seq<u8>) -> int
    decreases s.len(),
{
    if s.len() == 0 {
        0
    } else {
        byte_sum(s.drop_last()) + s.last()
    }
}

/// The byte that brings a sum to a multiple of 256.
pub open spec fn checksum_of(s: Seq<u8>) -> u8 {
    ((256 - byte_sum(s) % 256) % 256) as u8
}

impl Rsdp {
    /// The pointer as it lies in memory, field after field.
    pub open spec fn bytes(self) -> Seq<u8> {
        self.signature@ + seq![self.checksum] + self.oem_id@ + seq![self.revision] + le_bytes(
            self.rsdt_address as nat,
            4,
        ) + le_bytes(self.length as nat, 4) + le_bytes(self.xsdt_address as nat, 8)
            + seq![self.extended_checksum] + self.reserved@
    }

    /// The pointer as it lies in memory, field after field.
    #[must_use]
    pub fn to_bytes(&self) -> (r: Vec<u8>)
        ensures
            r@ == self.bytes(),
            r@.len() == RSDP_SIZE,
    {
        proof {
            crate::bytes::lemma_le_bytes_len(self.rsdt_address as nat, 4);
            crate::bytes::lemma_le_bytes_len(self.length as nat, 4);
            crate::bytes::lemma_le_bytes_len(self.xsdt_address as nat, 8);
        }
        let mut out: Vec<u8> = Vec::new();
        out.extend_from_slice(self.signature.as_slice());
        out.push(self.checksum);
        out.extend_from_slice(self.oem_id.as_slice());
        out.push(self.revision);
        push_le(&mut out, self.rsdt_address as u64, 4);
        push_le(&mut out, self.length as u64, 4);
        push_le(&mut out, self.xsdt_address, 8);
        out.push(self.extended_checksum);
        out.extend_from_slice(self.reserved.as_slice());
        assert(out@ =~= self.bytes());
        out
    }
}

/// Appends the `n` low bytes of `v`, least significant first.
fn push_le(out: &mut Vec<u8>, v: u64, n: usize)
    ensures
        final(out)@ == old(out)@ + le_bytes(v as nat, n as nat),
    decreases n,
{
    let ghost before = out@;
    if n > 0 {
        out.push((v % 256) as u8);
        push_le(out, v / 256, n - 1);
    }
    assert(out@ =~= before + le_bytes(v as nat, n as nat));
}

/// The byte that brings the sum of `bytes[..len]` to a multiple of 256.
fn calculate_checksum(bytes: &Vec<u8>, len: usize) -> (r: u8)
    requires
        len <= bytes@.len(),
    ensures
        r == checksum_of(bytes@.take(len as int)),
{
    let mut sum: u32 = 0;
    let mut i: usize = 0;
    assert(bytes@.take(0) =~= Seq::<u8>::empty());
    while i < len
        invariant
            i <= len <= bytes@.len(),
            sum < 256,
            sum == byte_sum(bytes@.take(i as int)) % 256,
        decreases len - i,
    {
        assert(bytes@.take(i + 1).drop_last() =~= bytes@.take(i as int));
        sum = (sum + bytes[i] as u32) % 256;
        i = i + 1;
    }
    ((256 - sum) % 256) as u8
}

/// Generates ACPI tables.
pub struct AcpiTableGenerator {
    pub oem_id: [u8; 6],
    pub oem_table_id: [u8; 8],
    pub local_apic_addr: u32,
    pub vcpu_count: u32,
}

impl AcpiTableGenerator {
    /// A generator for a guest with the given number of vCPUs.
    pub fn new(vcpu_count: u32) -> (r: Self)
        ensures
            r.oem_id@ == oem_id(),
            r.oem_table_id@ == oem_table_id(),
            r.local_apic_addr == 0xFEE0_0000,
            r.vcpu_count == vcpu_count,
    {
        let r = AcpiTableGenerator {
            oem_id: [0x45u8, 0x4Eu8, 0x4Cu8, 0x49u8, 0x4Cu8, 0u8],
            oem_table_id: [0x45u8, 0x4Eu8, 0x4Cu8, 0x49u8, 0x4Cu8, 0x56u8, 0x4Du8, 0u8],
            local_apic_addr: LOCAL_APIC_ADDR,
            vcpu_count,
        };
        assert(r.oem_id@ =~= oem_id());
        assert(r.oem_table_id@ =~= oem_table_id());
        r
    }

    /// The number of vCPUs that topology is emitted for.
    #[must_use]
    pub fn vcpu_count(&self) -> (r: u32)
        ensures
            r == self.vcpu_count,
    {
        self.vcpu_count
    }

    /// The address of the local APIC.
    #[must_use]
    pub fn local_apic_addr(&self) -> (r: u32)
        ensures
            r == self.local_apic_addr,
    {
        self.local_apic_addr
    }

    /// The table identifier stamped into tables.
    #[must_use]
    pub fn oem_table_id(&self) -> (r: [u8; 8])
        ensures
            r == self.oem_table_id,
    {
        self.oem_table_id
    }

    /// The root system description pointer to the table at `xsdt_addr`. The
    /// first part and the whole add up to multiples of 256.
    pub fn generate_rsdp(&self, xsdt_addr: u64) -> (r: Rsdp)
        ensures
            r.signature@ == rsdp_signature(),
            r.oem_id == self.oem_id,
            r.revision == 2,
            r.rsdt_address == 0,
            r.length == 36,
            r.xsdt_address == xsdt_addr,
            r.reserved@ == seq![0u8, 0u8, 0u8],
            byte_sum(r.bytes().take(20)) % 256 == 0,
            byte_sum(r.bytes()) % 256 == 0,
    {
        let mut rsdp = Rsdp {
            signature: [0x52u8, 0x53u8, 0x44u8, 0x20u8, 0x50u8, 0x54u8, 0x52u8, 0x20u8],
            checksum: 0,
            oem_id: self.oem_id,
            revision: 2,
            rsdt_address: 0,
            length: 36,
            xsdt_address: xsdt_addr,
            extended_checksum: 0,
            reserved: [0u8, 0u8, 0u8],
        };
        assert(rsdp.signature@ =~= rsdp_signature());
        assert(rsdp.reserved@ =~= seq![0u8, 0u8, 0u8]);
        let ghost blank = rsdp;
        let first: Vec<u8> = rsdp.to_bytes();
        rsdp.checksum = calculate_checksum(&first, RSDP_V1_SIZE);
        let ghost mid = rsdp;
        let second: Vec<u8> = rsdp.to_bytes();
        rsdp.extended_checksum = calculate_checksum(&second, RSDP_SIZE);
        proof {
            lemma_rsdp_layout(blank);
            lemma_rsdp_layout(mid);
            lemma_rsdp_layout(rsdp);
            let a = blank.bytes();
            let b = mid.bytes();
            let c = rsdp.bytes();
            lemma_le_parts_same(blank, mid);
            lemma_le_parts_same(mid, rsdp);
            assert(b =~= a.update(8, mid.checksum));
            assert(c =~= b.update(32, rsdp.extended_checksum));
            assert(b.take(20) =~= a.take(20).update(8, mid.checksum));
            assert(c.take(20) =~= b.take(20));
            assert(b.take(36) =~= b);
            lemma_sum_update(a.take(20), 8, mid.checksum);
            lemma_sum_update(b, 32, rsdp.extended_checksum);
        }
        rsdp
    }
}

/// Where the two checksums lie.
proof fn lemma_rsdp_layout(r: Rsdp)
    ensures
        r.bytes().len() == 36,
        r.bytes()[8] == r.checksum,
        r.bytes()[32] == r.extended_checksum,
{
    crate::bytes::lemma_le_bytes_len(r.rsdt_address as nat, 4);
    crate::bytes::lemma_le_bytes_len(r.length as nat, 4);
    crate::bytes::lemma_le_bytes_len(r.xsdt_address as nat, 8);
}

/// Two pointers that differ in their checksums only differ in those two bytes only.
proof fn lemma_le_parts_same(a: Rsdp, b: Rsdp)
    requires
        b == (Rsdp { checksum: b.checksum, extended_checksum: b.extended_checksum, ..a }),
    ensures
        forall|i: int| 0 <= i < 36 && i != 8 && i != 32 ==> a.bytes()[i] == b.bytes()[i],
{
    lemma_rsdp_layout(a);
    lemma_rsdp_layout(b);
    crate::bytes::lemma_le_bytes_len(a.rsdt_address as nat, 4);
    crate::bytes::lemma_le_bytes_len(a.length as nat, 4);
    crate::bytes::lemma_le_bytes_len(a.xsdt_address as nat, 8);
}

/// Replacing a byte changes the sum by the difference.
proof fn lemma_sum_update(s: Seq<u8>, i: int, b: u8)
    requires
        0 <= i < s.len(),
    ensures
        byte_sum(s.update(i, b)) == byte_sum(s) - s[i] + b,
    decreases s.len(),
{
    let t = s.update(i, b);
    if i == s.len() - 1 {
        assert(t.drop_last() =~= s.drop_last());
    } else {
        assert(t.drop_last() =~= s.drop_last().update(i, b));
        lemma_sum_update(s.drop_last(), i, b);
    }
}

/// A sequence with its checksum in place of a zero byte adds up to a multiple of 256.
pub proof fn law_checksum(s: Seq<u8>, i: int)
    requires
        0 <= i < s.len(),
        s[i] == 0,
    ensures
        byte_sum(s.update(i, checksum_of(s))) % 256 == 0,
{
    lemma_sum_update(s, i, checksum_of(s));
}

/// A guest reads the pointer field by field: the signature at 0, the OEM id at 9,
/// the revision at 15, the 32-bit table at 16, the length at 20 and the table
/// with 64-bit entries at 24; the checksums lie at 8 and 32.
pub proof fn law_rsdp_reads_back(r: Rsdp)
    ensures
        ({
            let b = r.bytes();
            &&& b.len() == 36
            &&& b.subrange(0, 8) == r.signature@
            &&& b[8] == r.checksum
            &&& b.subrange(9, 15) == r.oem_id@
            &&& b[15] == r.revision
            &&& crate::bytes::le_value(b.subrange(16, 20)) == r.rsdt_address
            &&& crate::bytes::le_value(b.subrange(20, 24)) == r.length
            &&& crate::bytes::le_value(b.subrange(24, 32)) == r.xsdt_address
            &&& b[32] == r.extended_checksum
            &&& b.subrange(33, 36) == r.reserved@
        }),
{
    let b = r.bytes();
    lemma_rsdp_layout(r);
    crate::bytes::lemma_le_bytes_len(r.rsdt_address as nat, 4);
    crate::bytes::lemma_le_bytes_len(r.length as nat, 4);
    crate::bytes::lemma_le_bytes_len(r.xsdt_address as nat, 8);
    crate::bytes::law_le_round_trip(r.rsdt_address as nat, 4);
    crate::bytes::law_le_round_trip(r.length as nat, 4);
    crate::bytes::law_le_round_trip(r.xsdt_address as nat, 8);
    assert(vstd::arithmetic::power::pow(256, 4) == 0x1_0000_0000) by {
        reveal_with_fuel(vstd::arithmetic::power::pow, 5);
    }
    assert(vstd::arithmetic::power::pow(256, 8) == 0x1_0000_0000_0000_0000) by {
        reveal_with_fuel(vstd::arithmetic::power::pow, 9);
    }
    assert(b.subrange(0, 8) =~= r.signature@);
    assert(b.subrange(9, 15) =~= r.oem_id@);
    assert(b.subrange(16, 20) =~= le_bytes(r.rsdt_address as nat, 4));
    assert(b.subrange(20, 24) =~= le_bytes(r.length as nat, 4));
    assert(b.subrange(24, 32) =~= le_bytes(r.xsdt_address as nat, 8));
    assert(b.subrange(33, 36) =~= r.reserved@);
}

/// Whatever the bytes, the checksum makes them add up to a multiple of 256, and
/// there is no other byte that does.
pub proof fn law_checksum_is_the_only_one(s: Seq<u8>, c: u8)
    ensures
        (byte_sum(s) + checksum_of(s)) % 256 == 0,
        (byte_sum(s) + c) % 256 == 0 ==> c == checksum_of(s),
{
}

/// The signature is what a guest looks for, and the identifiers are the name of
/// this hypervisor, padded with a zero.
pub proof fn law_signature_and_identifiers()
    ensures
        rsdp_signature().map_values(|b: u8| b as char) == "RSD PTR "@,
        oem_id().take(5).map_values(|b: u8| b as char) == "ENLIL"@,
        oem_table_id().take(7).map_values(|b: u8| b as char) == "ENLILVM"@,
        rsdp_signature().len() == 8,
        oem_id().len() == 6 && oem_id()[5] == 0,
        oem_table_id().len() == 8 && oem_table_id()[7] == 0,
{
    reveal_strlit("RSD PTR ");
    reveal_strlit("ENLIL");
    reveal_strlit("ENLILVM");
    assert(rsdp_signature().map_values(|b: u8| b as char) =~= "RSD PTR "@);
    assert(oem_id().take(5).map_values(|b: u8| b as char) =~= "ENLIL"@);
    assert(oem_table_id().take(7).map_values(|b: u8| b as char) =~= "ENLILVM"@);
}

} // verus!
