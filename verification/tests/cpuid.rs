use enlil_core::cpuid::{CpuidEntry, CpuidFilter, GuestTopology};

#[test]
fn hides_hypervisor_bit() {
    let filter = CpuidFilter::new(4);
    let entry = CpuidEntry {
        function: 0x1,
        index: 0,
        eax: 0,
        ebx: 0,
        ecx: 1 << 31, // hypervisor bit set
        edx: 0,
    };
    let filtered = filter.filter(&entry).unwrap();
    assert_eq!(filtered.ecx & (1 << 31), 0);
}

#[test]
fn hides_hypervisor_leaves() {
    let filter = CpuidFilter::new(4);
    let entry = CpuidEntry {
        function: 0x40000000,
        index: 0,
        eax: 0,
        ebx: 0,
        ecx: 0,
        edx: 0,
    };
    assert!(filter.filter(&entry).is_none());
}

#[test]
fn reports_correct_cpu_count() {
    let filter = CpuidFilter::new(4);
    let entry = CpuidEntry {
        function: 0x1,
        index: 0,
        eax: 0,
        ebx: 0x00FF0000, // host says 255 logical CPUs
        ecx: 0,
        edx: 0,
    };
    let filtered = filter.filter(&entry).unwrap();
    assert_eq!((filtered.ebx >> 16) & 0xFF, 4);
}

#[test]
fn topology_simple_creation() {
    let topo = GuestTopology::simple(8);
    assert_eq!(topo.logical_cpus, 8);
    assert_eq!(topo.cores_per_package, 8);
    assert_eq!(topo.threads_per_core, 1);
    assert_eq!(topo.packages, 1);
    assert_eq!(topo.l3_sharing, 8);
}

#[test]
fn filter_with_topology() {
    let topo = GuestTopology {
        logical_cpus: 4,
        cores_per_package: 4,
        threads_per_core: 1,
        packages: 1,
        l1_sharing: 1,
        l2_sharing: 2,
        l3_sharing: 4,
    };
    let filter = CpuidFilter::with_topology(topo);

    // Check leaf 0x4 cache topology for L3 (index 3)
    let entry = CpuidEntry {
        function: 0x4,
        index: 3,
        eax: 0x00000063, // some cache type bits
        ebx: 0,
        ecx: 0,
        edx: 0,
    };
    let filtered = filter.filter(&entry).unwrap();
    // EAX[31:26] = max cores per package - 1 = 3
    assert_eq!((filtered.eax >> 26) & 0x3F, 3);
    // EAX[25:14] = max threads sharing L3 - 1 = 3
    assert_eq!((filtered.eax >> 14) & 0xFFF, 3);
}

#[test]
fn leaf_0xb_topology() {
    let filter = CpuidFilter::new(4);

    // SMT level (index 0)
    let entry = CpuidEntry {
        function: 0xB,
        index: 0,
        eax: 0,
        ebx: 0,
        ecx: 0,
        edx: 0,
    };
    let filtered = filter.filter(&entry).unwrap();
    // threads_per_core = 1, so shift = 0
    assert_eq!(filtered.eax & 0x1F, 0);
    assert_eq!(filtered.ebx & 0xFFFF, 1); // 1 thread per core
    assert_eq!((filtered.ecx >> 8) & 0xFF, 1); // level type = SMT

    // Core level (index 1)
    let entry = CpuidEntry {
        function: 0xB,
        index: 1,
        eax: 0,
        ebx: 0,
        ecx: 0,
        edx: 0,
    };
    let filtered = filter.filter(&entry).unwrap();
    assert_eq!(filtered.ebx & 0xFFFF, 4); // 4 logical CPUs
    assert_eq!((filtered.ecx >> 8) & 0xFF, 2); // level type = Core
}

#[test]
fn generate_topology_entries_per_vcpu() {
    let filter = CpuidFilter::new(4);
    let entries = filter.generate_topology_entries(2);

    assert_eq!(entries.len(), 3); // leaf 1 + leaf 0xB sub0 + leaf 0xB sub1

    // Check APIC ID in leaf 0x1
    let leaf1 = &entries[0];
    assert_eq!((leaf1.ebx >> 24) & 0xFF, 2);

    // Check APIC ID in leaf 0xB
    let leaf_b0 = &entries[1];
    assert_eq!(leaf_b0.edx, 2);
    let leaf_b1 = &entries[2];
    assert_eq!(leaf_b1.edx, 2);
}

#[test]
fn custom_vendor_string() {
    let mut filter = CpuidFilter::new(1);
    filter.set_vendor(*b"EnlilHypervi"); // 12 bytes

    let entry = CpuidEntry {
        function: 0x0,
        index: 0,
        eax: 0x16,
        ebx: 0,
        ecx: 0,
        edx: 0,
    };
    let filtered = filter.filter(&entry).unwrap();
    assert_eq!(filtered.eax, 0x16); // max leaf preserved

    // Reconstruct vendor string
    let mut vendor = [0u8; 12];
    vendor[0..4].copy_from_slice(&filtered.ebx.to_le_bytes());
    vendor[4..8].copy_from_slice(&filtered.edx.to_le_bytes());
    vendor[8..12].copy_from_slice(&filtered.ecx.to_le_bytes());
    assert_eq!(&vendor, b"EnlilHypervi");
}

#[test]
fn show_hypervisor_when_not_hidden() {
    let mut filter = CpuidFilter::new(1);
    filter.set_hide_hypervisor(false);

    let entry = CpuidEntry {
        function: 0x1,
        index: 0,
        eax: 0,
        ebx: 0,
        ecx: 1 << 31,
        edx: 0,
    };
    let filtered = filter.filter(&entry).unwrap();
    assert_ne!(filtered.ecx & (1 << 31), 0); // bit preserved

    // Hypervisor leaves should also be visible
    let hv_entry = CpuidEntry {
        function: 0x40000000,
        index: 0,
        eax: 0,
        ebx: 0,
        ecx: 0,
        edx: 0,
    };
    assert!(filter.filter(&hv_entry).is_some());
}

fn entry(function: u32, index: u32, eax: u32, ebx: u32, ecx: u32, edx: u32) -> CpuidEntry {
    CpuidEntry { function, index, eax, ebx, ecx, edx }
}

#[test]
fn filtering_twice_is_filtering_once() {
    let mut filter = CpuidFilter::new(6);
    filter.set_vendor(*b"GenuineIntel");
    for function in [0u32, 1, 4, 0xB, 0xD, 0x8000_0001] {
        for index in 0..4 {
            let e = entry(function, index, 0x1234_5678, 0x9ABC_DEF0, 0xFFFF_FFFF, 0x0F0F_0F0F);
            let once = filter.filter(&e).unwrap();
            assert_eq!(filter.filter(&once), Some(once));
        }
    }
}

#[test]
fn only_the_hypervisor_range_is_hidden() {
    let filter = CpuidFilter::new(2);
    for function in [0x4000_0000u32, 0x4000_0001, 0x4000_00FF] {
        assert_eq!(filter.filter(&entry(function, 0, 1, 2, 3, 4)), None);
    }
    let other = entry(0x3FFF_FFFF, 0, 1, 2, 3, 4);
    assert_eq!(filter.filter(&other), Some(other));
}

#[test]
fn the_other_bits_of_the_feature_leaf_are_kept() {
    let filter = CpuidFilter::new(3);
    let got = filter.filter(&entry(1, 0, 0xAB, 0x12FF_3456, 0xFFFF_FFFF, 0xCD)).unwrap();
    assert_eq!((got.eax, got.ecx, got.edx), (0xAB, 0x7FFF_FFFF, 0xCD));
    assert_eq!(got.ebx, 0x1203_3456);
}
