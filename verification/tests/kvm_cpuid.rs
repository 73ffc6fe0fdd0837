use enlil_core::kvm_backend::KvmBackend;
use enlil_core::kvm_cpuid::{
    clear_hypervisor_bit, CpuidRegs, CpuidStealthTable, KvmCpuidEntry, StealthLeaf,
    FLAG_SIGNIFICANT_INDEX, MAX_CPUID_ENTRIES,
};
use enlil_core::Error;

fn regs(eax: u32, ebx: u32, ecx: u32, edx: u32) -> CpuidRegs {
    CpuidRegs { eax, ebx, ecx, edx }
}

fn leaf(function: u32, index: u32, regs: CpuidRegs) -> StealthLeaf {
    StealthLeaf { function, index, regs }
}

fn text(bytes: &[u8]) -> u32 {
    u32::from_le_bytes([bytes[0], bytes[1], bytes[2], bytes[3]])
}

/// Leaf 0 of a vendor: its name in EBX, EDX, ECX.
fn vendor_leaf(max: u32, name: &[u8; 12]) -> StealthLeaf {
    leaf(0, 0, regs(max, text(&name[0..4]), text(&name[8..12]), text(&name[4..8])))
}

fn brand_leaves(brand: &[u8; 48]) -> Vec<StealthLeaf> {
    (0..3usize)
        .map(|i| {
            let b = &brand[16 * i..16 * i + 16];
            leaf(
                0x8000_0002 + i as u32,
                0,
                regs(text(&b[0..4]), text(&b[4..8]), text(&b[8..12]), text(&b[12..16])),
            )
        })
        .collect()
}

fn intel() -> CpuidStealthTable {
    let mut brand = [0u8; 48];
    let name = b"Enlil Masquerade CPU @ 3.00GHz";
    brand[..name.len()].copy_from_slice(name);
    let mut leaves = vec![
        vendor_leaf(0x16, b"GenuineIntel"),
        leaf(1, 0, regs(0x000B_06F2, 0x0004_0800, 0, 0)),
        leaf(0xA, 0, regs(0x0730_0402, 0, 0, 0x603)),
        leaf(0xB, 0, regs(1, 2, 0x100, 0)),
        leaf(0xB, 1, regs(2, 4, 0x201, 0)),
        leaf(0x15, 0, regs(24, 3600, 24_000_000, 0)),
        leaf(0x16, 0, regs(3600, 5000, 100, 0)),
    ];
    leaves.extend(brand_leaves(&brand));
    CpuidStealthTable { leaves }
}

fn amd() -> CpuidStealthTable {
    CpuidStealthTable {
        leaves: vec![
            vendor_leaf(0x10, b"AuthenticAMD"),
            leaf(1, 0, regs(0x00A0_0F11, 0x0004_0800, 0, 0)),
            leaf(0xB, 0, regs(0, 1, 0x100, 0)),
            leaf(0xB, 1, regs(2, 4, 0x201, 0)),
            leaf(0x8000_0008, 0, regs(0, 0, 0x2003, 0)),
            leaf(0x8000_001D, 3, regs(0x0000_C063, 0, 0, 0)),
            leaf(0x8000_001E, 0, regs(0, 0, 0, 0)),
        ],
    }
}

fn find(entries: &[KvmCpuidEntry], function: u32) -> &KvmCpuidEntry {
    entries.iter().find(|e| e.function == function).unwrap()
}

#[test]
fn stamp_apic_identity_writes_each_per_vcpu_leaf() {
    let mut entries = vec![
        KvmCpuidEntry {
            function: 1,
            ebx: 0x0000_AB00,
            ..Default::default()
        },
        KvmCpuidEntry {
            function: 0xB,
            edx: 0,
            ..Default::default()
        },
        KvmCpuidEntry {
            function: 0x1F,
            edx: 0,
            ..Default::default()
        },
        KvmCpuidEntry {
            function: 0x8000_001E,
            eax: 0,
            ebx: 0x0000_0100,
            ..Default::default()
        },
        KvmCpuidEntry {
            function: 0x8000_0008,
            eax: 0x3030,
            ..Default::default()
        },
    ];

    // APIC id 5, SMT shift 1: core id 5 >> 1 = 2.
    KvmBackend::stamp_apic_identity(&mut entries, 5, 1);

    assert_eq!(entries[0].ebx >> 24, 5);
    assert_eq!(entries[0].ebx & 0x00FF_FFFF, 0x0000_AB00);
    assert_eq!(entries[1].edx, 5);
    assert_eq!(entries[2].edx, 5);
    assert_eq!(entries[3].eax, 5);
    assert_eq!(entries[3].ebx & 0xFF, 2);
    assert_eq!(entries[3].ebx & 0xFF00, 0x0100);
    assert_eq!(entries[4].eax, 0x3030);
}

#[test]
fn upsert_frequency_leaves_pins_intel_tsc_rate_and_skips_amd() {
    let intel = intel();
    assert_ne!(intel.lookup(0x16, 0).eax, 0, "Intel table must enumerate 0x16");

    let mut entries = vec![KvmCpuidEntry {
        function: 1,
        eax: 0xDEAD,
        ..Default::default()
    }];
    // A measured 3_000_001 kHz is 3000 MHz, rounded to nearest.
    KvmBackend::upsert_frequency_leaves(&mut entries, &intel, Some(3_000_001));

    let l15 = find(&entries, 0x15);
    let l16 = find(&entries, 0x16);
    assert_eq!(l15.eax, 24, "EAX denominator = table's 24");
    assert_eq!(l15.ebx, 3000, "EBX = base MHz pinned to measured rate");
    assert_eq!(l15.ecx, 24_000_000, "ECX = 24 MHz crystal");
    assert_eq!(
        u64::from(l15.ecx) * u64::from(l15.ebx) / u64::from(l15.eax),
        3_000_000_000,
        "derived TSC rate must equal 3000 MHz"
    );
    assert_eq!(l16.eax, 3000, "0x16 EAX = base MHz");
    assert!(l16.ebx >= 3000, "max turbo must not be below base");
    assert_eq!(l16.index, 0, "single-subleaf leaf");
    assert_eq!(find(&entries, 1).eax, 0xDEAD);

    // Without a measured rate the table's own base is used.
    let mut entries2 = Vec::new();
    KvmBackend::upsert_frequency_leaves(&mut entries2, &intel, None);
    assert_eq!(find(&entries2, 0x16).eax, intel.lookup(0x16, 0).eax);

    // An existing leaf is overwritten in place.
    let mut entries3 = vec![KvmCpuidEntry {
        function: 0x15,
        ebx: 9999,
        ..Default::default()
    }];
    KvmBackend::upsert_frequency_leaves(&mut entries3, &intel, Some(2_500_000));
    assert_eq!(
        entries3.iter().filter(|e| e.function == 0x15).count(),
        1,
        "no duplicate 0x15 entry"
    );
    assert_eq!(find(&entries3, 0x15).ebx, 2500);

    // An AMD table has no such leaves.
    let mut amd_entries: Vec<KvmCpuidEntry> = Vec::new();
    KvmBackend::upsert_frequency_leaves(&mut amd_entries, &amd(), Some(3_000_000));
    assert!(amd_entries.is_empty(), "AMD table must not synthesise 0x15/0x16");
}

#[test]
fn upsert_frequency_leaves_advertises_0x16_in_the_max_basic_leaf() {
    let mut entries = vec![KvmCpuidEntry {
        function: 0,
        eax: 0x10,
        ..Default::default()
    }];
    KvmBackend::upsert_frequency_leaves(&mut entries, &intel(), Some(3_000_000));
    assert_eq!(
        find(&entries, 0).eax,
        0x16,
        "max-basic-leaf must be raised to cover 0x16"
    );

    let mut high = vec![KvmCpuidEntry {
        function: 0,
        eax: 0x1F,
        ..Default::default()
    }];
    KvmBackend::upsert_frequency_leaves(&mut high, &intel(), Some(3_000_000));
    assert_eq!(find(&high, 0).eax, 0x1F, "a higher max-basic-leaf must survive");

    let mut amd_entries = vec![KvmCpuidEntry {
        function: 0,
        eax: 0x10,
        ..Default::default()
    }];
    KvmBackend::upsert_frequency_leaves(&mut amd_entries, &amd(), Some(3_000_000));
    assert_eq!(
        find(&amd_entries, 0).eax,
        0x10,
        "AMD table must not touch the max-basic-leaf"
    );
}

#[test]
fn upsert_identity_leaves_installs_vendor_fms_and_brand() {
    let table = intel();
    let amd0 = amd().lookup(0, 0);
    let (amd_ebx, amd_edx, amd_ecx) = (amd0.ebx, amd0.edx, amd0.ecx);
    let mut entries = vec![
        KvmCpuidEntry {
            function: 0,
            eax: 0x10,
            ebx: amd_ebx,
            ecx: amd_ecx,
            edx: amd_edx,
            ..Default::default()
        },
        KvmCpuidEntry {
            function: 1,
            eax: 0x00A0_0F11,
            ebx: 0x0102_0304,
            ecx: 0x1234_5678,
            edx: 0x8765_4321,
            ..Default::default()
        },
        KvmCpuidEntry {
            function: 0x8000_0002,
            eax: 0xDEAD_BEEF,
            ..Default::default()
        },
    ];

    KvmBackend::upsert_identity_leaves(&mut entries, &table);

    let l0 = find(&entries, 0);
    let t0 = table.lookup(0, 0);
    assert_eq!(l0.eax, 0x10, "leaf-0 max-basic-leaf must not be lowered");
    assert_eq!((l0.ebx, l0.ecx, l0.edx), (t0.ebx, t0.ecx, t0.edx));
    assert_ne!(
        (l0.ebx, l0.ecx, l0.edx),
        (amd_ebx, amd_ecx, amd_edx),
        "vendor regs must no longer be the host AMD string"
    );

    let l1 = find(&entries, 1);
    assert_eq!(l1.eax, table.lookup(1, 0).eax, "leaf-1 EAX = table FMS");
    assert_eq!(l1.ebx, 0x0102_0304, "leaf-1 EBX preserved");
    assert_eq!(l1.ecx, 0x1234_5678, "leaf-1 ECX preserved");
    assert_eq!(l1.edx, 0x8765_4321, "leaf-1 EDX preserved");

    for i in 0..3u32 {
        let function = 0x8000_0002 + i;
        let e = find(&entries, function);
        let r = table.lookup(function, 0);
        assert_eq!(
            (e.eax, e.ebx, e.ecx, e.edx),
            (r.eax, r.ebx, r.ecx, r.edx),
            "brand leaf {function:#x} matches table"
        );
    }
    assert_eq!(
        entries.iter().filter(|e| e.function == 0x8000_0002).count(),
        1,
        "no duplicate brand leaf"
    );
}

#[test]
fn a_table_answers_zero_for_leaves_it_lacks() {
    assert_eq!(intel().lookup(0x16, 0), regs(3600, 5000, 100, 0));
    assert_eq!(intel().lookup(0xB, 1), regs(2, 4, 0x201, 0));
    assert_eq!(intel().lookup(0x4000_0000, 0), regs(0, 0, 0, 0));
}

fn supported() -> Vec<KvmCpuidEntry> {
    vec![
        KvmCpuidEntry { function: 0, eax: 0x10, ..Default::default() },
        KvmCpuidEntry { function: 1, ecx: 0x8000_0001, ebx: 0x0010_0800, ..Default::default() },
        KvmCpuidEntry {
            function: 0xB,
            index: 0,
            flags: FLAG_SIGNIFICANT_INDEX,
            ebx: 64,
            ..Default::default()
        },
        KvmCpuidEntry {
            function: 0xB,
            index: 1,
            flags: FLAG_SIGNIFICANT_INDEX,
            ebx: 128,
            ..Default::default()
        },
    ]
}

fn machine(vcpus: u64) -> KvmBackend {
    let (mut backend, _) = KvmBackend::new_without_irqchip(12).unwrap();
    for id in 0..vcpus {
        backend.create_vcpu(id);
    }
    backend
}

#[test]
fn each_vcpu_reads_its_own_topology() {
    let sets = machine(4).apply_topology_stealth(&intel(), &supported(), Some(3_000_000)).unwrap();
    assert_eq!(sets.len(), 4);
    for (id, set) in sets.iter().enumerate() {
        let id = id as u32;
        let entries = set.entries();
        let one = find(&entries, 1);
        assert_eq!(one.ebx >> 24, id);
        assert_eq!(one.ecx & 0x8000_0000, 0, "no hypervisor bit");
        assert_eq!(one.ecx & 1, 1, "host features kept");
        for e in entries.iter().filter(|e| e.function == 0xB) {
            assert_eq!(e.edx, id);
        }
        let core = entries.iter().find(|e| e.function == 0xB && e.index == 1).unwrap();
        assert_eq!(core.ebx, 4, "the guest's own CPU count");
        assert_eq!(find(&entries, 0x15).ebx, 3000);
    }
}

#[test]
fn a_set_that_is_too_large_is_refused() {
    let mut host = supported();
    while host.len() < MAX_CPUID_ENTRIES {
        host.push(KvmCpuidEntry { function: 0x2000 + host.len() as u32, ..Default::default() });
    }
    match machine(1).apply_topology_stealth(&intel(), &host, None) {
        Err(Error::Vcpu(m)) => assert_eq!(m, "rebuild CpuId: SizeLimitExceeded"),
        other => panic!("unexpected {:?}", other.map(|s| s.len())),
    }
    match machine(1).apply_pmu_stealth(&intel(), &host) {
        Err(Error::Vcpu(m)) => assert_eq!(m, "rebuild CpuId: SizeLimitExceeded"),
        other => panic!("unexpected {:?}", other.map(|s| s.entries().len())),
    }
}

#[test]
fn the_pmu_leaf_is_installed() {
    let set = machine(1).apply_pmu_stealth(&intel(), &supported()).unwrap();
    let entries = set.entries();
    let pmu = find(&entries, 0xA);
    assert_eq!((pmu.eax, pmu.ebx, pmu.ecx, pmu.edx), (0x0730_0402, 0, 0, 0x603));
    assert_eq!(entries.len(), 5);
}

#[test]
fn a_set_hands_its_entries_back_in_order() {
    let mut host = supported();
    host.push(KvmCpuidEntry { function: 0xA, ..Default::default() });
    let entries = machine(1).apply_pmu_stealth(&amd(), &host).unwrap().entries();
    assert_eq!(
        entries.iter().map(|e| (e.function, e.index, e.flags)).collect::<Vec<_>>(),
        vec![(0, 0, 0), (1, 0, 0), (0xB, 0, 1), (0xB, 1, 1), (0xA, 0, 0)]
    );
}

#[test]
fn the_hypervisor_bit_is_cleared_and_nothing_else() {
    let cleared = machine(2).clear_cpuid_hypervisor_bit(&supported());
    assert_eq!(find(&cleared, 1).ecx, 1);
    assert_eq!(find(&cleared, 1).ebx, 0x0010_0800);
    let mut again = cleared.clone();
    clear_hypervisor_bit(&mut again);
    assert_eq!(again, cleared);
}

#[test]
fn limits_and_flags_are_those_of_the_kernel_interface() {
    assert_eq!(MAX_CPUID_ENTRIES, kvm_bindings::KVM_MAX_CPUID_ENTRIES);
    assert_eq!(FLAG_SIGNIFICANT_INDEX, kvm_bindings::KVM_CPUID_FLAG_SIGNIFCANT_INDEX);
}
