use enlil_core::standard_pc::{
    is_mapped, lpc_bridge_config, standard_pc, standard_pc_complete, standard_pc_with_dual_irq,
    standard_pc_with_interrupts, standard_pc_with_pic, ConfigWrite, LpcSetup, Mount, Space,
    Wiring, DEFAULT_ECAM_BASE,
};

#[test]
fn the_complete_pc_answers_at_every_canonical_address() {
    let plan = standard_pc_complete(1_780_838_055, 1, 0x700, 0x20);
    for port in [
        0x3F8u64, 0x40, 0x61, 0x70, 0x60, 0x64, 0x92, 0x600, 0x604, 0x608, 0x620, 0x20, 0xA0,
        0x4D0, 0xCF8, 0xB2, 0x00, 0xC0, 0x80, 0x700, 0x71F,
    ] {
        assert!(is_mapped(&plan, Space::Pio, port), "port {port:#x}");
    }
    for addr in [0xFEC0_0000u64, 0xFED0_0000, DEFAULT_ECAM_BASE, 0xFE90_0000] {
        assert!(is_mapped(&plan, Space::Mmio, addr), "address {addr:#x}");
    }
    for port in [0x62u64, 0x63, 0x44, 0x400, 0x606, 0x720, 0xD00] {
        assert!(!is_mapped(&plan, Space::Pio, port), "port {port:#x}");
    }
    assert!(!is_mapped(&plan, Space::Mmio, DEFAULT_ECAM_BASE + 0x1000_0000));
    assert!(!is_mapped(&plan, Space::Mmio, 0x3F8));
}

#[test]
fn no_two_devices_of_the_complete_pc_share_a_port() {
    let plan = standard_pc_complete(0, 1, 0x700, 0x20);
    for port in 0..0x1_0000u64 {
        let owners = plan.iter().filter(|m| m.claims(Space::Pio, port)).count();
        assert!(owners <= 1, "port {port:#x} has {owners} owners");
    }
}

#[test]
fn the_complete_pc_is_mounted_in_order() {
    let plan = standard_pc_complete(42, 6, 0x700, 0x20);
    assert_eq!(plan.len(), 20);
    assert_eq!(plan[0], Mount::Serial { irq: 4, wiring: Wiring::Both });
    assert_eq!(plan[1], Mount::Pit { irq: 0, wiring: Wiring::Both });
    assert_eq!(plan[4], Mount::Rtc { irq: 8, unix_secs: 42 });
    assert_eq!(plan[5], Mount::Ps2 { keyboard_irq: 1, mouse_irq: 12 });
    assert_eq!(plan[7], Mount::IoApic { vcpu_count: 6 });
    assert_eq!(plan[10], Mount::Pm1);
    assert_eq!(plan[11], Mount::SmiCommand);
    assert_eq!(plan[14], Mount::Pcie { ecam_base: 0xB000_0000 });
    assert_eq!(plan[18], Mount::XhciFunction { device: 4, base: 0xFE90_0000 });
    assert_eq!(plan[19], Mount::Xhci { base: 0xFE90_0000, size: 0x1_0000, ports: 4, guest_transfers: true });
}

#[test]
fn the_small_pcs_mount_the_controllers_they_are_wired_to() {
    let pc = |wiring, controllers: &[Mount]| {
        let mut plan = vec![Mount::Serial { irq: 4, wiring }, Mount::Pit { irq: 0, wiring }];
        plan.extend_from_slice(controllers);
        plan.push(Mount::Pcie { ecam_base: DEFAULT_ECAM_BASE });
        plan
    };
    assert_eq!(standard_pc(), pc(Wiring::Unwired, &[]));
    assert_eq!(
        standard_pc_with_interrupts(2),
        pc(Wiring::IoApic, &[Mount::IoApic { vcpu_count: 2 }])
    );
    assert_eq!(standard_pc_with_pic(), pc(Wiring::Pic, &[Mount::Pic]));
    assert_eq!(
        standard_pc_with_dual_irq(1),
        pc(Wiring::Both, &[Mount::Pic, Mount::IoApic { vcpu_count: 1 }])
    );
}

#[test]
fn the_lpc_bridge_is_set_up_as_firmware_does() {
    let writes = lpc_bridge_config(&LpcSetup {
        subsystem_vendor: 0x1043,
        subsystem_device: 0x8534,
        pmbase_offset: 0x40,
        pm_port: 0x600,
        acpi_cntl_offset: 0x44,
        acpi_enable: 0x80,
        sci_select: 0x02,
        pirq_base: 0x60,
        pirq_irqs: [11, 10, 5, 9],
    });
    assert_eq!(
        writes,
        vec![
            ConfigWrite::HeaderType(0x80),
            ConfigWrite::Subsystem { vendor: 0x1043, device: 0x8534 },
            ConfigWrite::Dword { offset: 0x40, value: 0x601 },
            ConfigWrite::Byte { offset: 0x44, value: 0x82 },
            ConfigWrite::Byte { offset: 0x60, value: 11 },
            ConfigWrite::Byte { offset: 0x61, value: 10 },
            ConfigWrite::Byte { offset: 0x62, value: 5 },
            ConfigWrite::Byte { offset: 0x63, value: 9 },
        ]
    );
    // The base of the ACPI ports reads back.
    assert_eq!(0x601 & 0xFF80, 0x600);
}

#[test]
fn pci_devices_interrupt_on_their_own_pins() {
    // The SMBus controller on INTB# of device 31, the USB controller on INTA#
    // of device 4.
    assert_eq!(Mount::SmbusHost { base: 0x400, len: 16 }.pci_interrupt(), Some((31, 2)));
    assert_eq!(
        Mount::Xhci { base: 0xFE90_0000, size: 0x1_0000, ports: 4, guest_transfers: true }.pci_interrupt(),
        Some((4, 1))
    );
    assert_eq!(Mount::Hpet.pci_interrupt(), None);
    let on_pci = standard_pc_complete(0, 1, 0x400, 16)
        .iter()
        .filter(|m| m.pci_interrupt().is_some())
        .count();
    assert_eq!(on_pci, 2);
}

#[test]
fn the_complete_pc_leaves_the_firmware_ports_free() {
    let plan = standard_pc_complete(0, 1, 0x700, 0x20);
    for port in [0x510u64, 0x511] {
        assert!(!is_mapped(&plan, Space::Pio, port), "port {port:#x}");
    }
}
