use enlil_core::acpi::AcpiTableGenerator;

#[test]
fn test_rsdp_generation() {
    let gen = AcpiTableGenerator::new(4);
    let rsdp = gen.generate_rsdp(0x1000);
    assert_eq!(&rsdp.signature, b"RSD PTR ");
    assert_eq!(rsdp.revision, 2);
}

#[test]
fn both_checksums_cancel_the_sum() {
    let gen = AcpiTableGenerator::new(2);
    for addr in [0u64, 0x1000, 0xFFFF_FFFF_FFFF_FFFF] {
        let bytes = gen.generate_rsdp(addr).to_bytes();
        assert_eq!(bytes.len(), 36);
        let sum = |b: &[u8]| b.iter().fold(0u8, |a, &x| a.wrapping_add(x));
        assert_eq!(sum(&bytes[..20]), 0);
        assert_eq!(sum(&bytes), 0);
        assert_eq!(&bytes[24..32], &addr.to_le_bytes());
    }
}

#[test]
fn a_generator_keeps_what_it_was_made_with() {
    let gen = AcpiTableGenerator::new(4);
    assert_eq!(gen.vcpu_count(), 4);
    assert_eq!(gen.local_apic_addr(), 0xFEE0_0000);
    assert_eq!(gen.oem_table_id(), gen.oem_table_id);
}
