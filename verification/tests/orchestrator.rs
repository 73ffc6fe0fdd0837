use enlil_core::kvm_cpuid::{
    CpuidRegs, CpuidStealthTable, KvmCpuidEntry, StealthLeaf, MAX_CPUID_ENTRIES,
};
use enlil_core::orchestrator::{
    discovered_facs, run_first_guest, validate_spec, BootMode, GuestBootSpec, GuestConfig,
    GuestRuntime, HostReport, KernelBoot, PreparedGuest, ResumeTarget,
};
use enlil_core::vcpu_regs::{GeneralRegs, Segment, SpecialRegs};
use enlil_core::Error;

fn host() -> HostReport {
    HostReport { api: 12, msr_exits: true, shadow_ranges: vec![(0xE7, 2)] }
}

fn segment() -> Segment {
    Segment {
        base: 0xFFFF_0000,
        limit: 0xFFFF,
        selector: 0xF000,
        type_: 3,
        present: 1,
        dpl: 0,
        db: 0,
        s: 1,
        l: 0,
        g: 0,
        avl: 0,
        unusable: 0,
    }
}

fn reset_sregs() -> SpecialRegs {
    SpecialRegs {
        cs: segment(),
        ds: segment(),
        es: segment(),
        fs: segment(),
        gs: segment(),
        ss: segment(),
        cr0: 0x6000_0010,
        cr3: 0,
        cr4: 0,
        efer: 0,
    }
}

fn reset_regs() -> GeneralRegs {
    GeneralRegs { rip: 0xFFF0, rflags: 0x246, rsi: 7 }
}

fn spec(name: &str, ram_bytes: usize, load_base: u64, entry: u64, image: Vec<u8>) -> GuestBootSpec {
    GuestBootSpec {
        name: name.into(),
        serial: None,
        ram_bytes,
        load_base,
        entry,
        image,
        rtc_unix_secs: 0,
    }
}

fn runtime(prepared: PreparedGuest) -> GuestRuntime {
    assert_eq!(prepared.runtime.run.backend.vcpu_count(), 1);
    prepared.runtime
}

fn message<T>(r: Result<T, Error>) -> String {
    match r {
        Ok(_) => panic!("expected an error"),
        Err(e) => e.message(),
    }
}

#[test]
fn image_that_overflows_guest_ram_is_rejected_without_kvm() {
    let spec = spec("overflow", 0x1000, 0x1000, 0x1000 + 0xFF0, vec![0u8; 0x100]);
    assert!(GuestRuntime::prepare_real_mode(spec, host()).is_err());
}

#[test]
fn boot_spec_maps_a_guest_config_without_kvm() {
    let config = GuestConfig {
        name: "win11".into(),
        memory_mb: 512,
        serial_enabled: true,
        serial_output: "stdout".into(),
    };
    let spec = GuestBootSpec::from_guest_config(
        &config,
        vec![0xF4], // hlt
        0x1000,
        0x1000,
        42,
    );
    assert_eq!(spec.name, "win11");
    assert_eq!(spec.ram_bytes, 512 * 1024 * 1024, "memory_mb to bytes");
    assert_eq!(spec.load_base, 0x1000);
    assert_eq!(spec.entry, 0x1000);
    assert_eq!(spec.rtc_unix_secs, 42);
    assert_eq!(spec.image, vec![0xF4]);
}

#[test]
fn a_disabled_serial_port_has_no_output() {
    let mut config = GuestConfig {
        name: "vm".into(),
        memory_mb: u64::MAX,
        serial_enabled: true,
        serial_output: "file:/tmp/vm.log".into(),
    };
    let spec = GuestBootSpec::from_guest_config(&config, vec![], 0, 0, 0);
    assert_eq!(spec.serial.as_deref(), Some("file:/tmp/vm.log"));
    assert_eq!(spec.ram_bytes, usize::MAX, "a size that does not fit saturates");
    config.serial_enabled = false;
    let spec = GuestBootSpec::from_guest_config(&config, vec![], 0, 0, 0);
    assert_eq!(spec.serial, None);
}

#[test]
fn entry_below_load_base_is_rejected_without_kvm() {
    let spec = spec("below", 0x1000, 0x2000, 0x1000, vec![0x90]);
    assert!(GuestRuntime::prepare_real_mode(spec, host()).is_err());
}

#[test]
fn a_refused_spec_says_what_is_wrong() {
    assert_eq!(
        message(validate_spec(&spec("a", 0x1000, 0x2000, 0x1000, vec![0x90]))),
        "config error: entry 0x1000 is below the load base 0x2000"
    );
    assert_eq!(
        message(validate_spec(&spec("b", 0x1000, 0x1000, 0x1FF0, vec![0; 0x100]))),
        "config error: image of 256 bytes at entry offset 0xff0 does not fit in 4096 bytes of \
         guest RAM"
    );
    // An image that ends with the RAM fits.
    assert!(validate_spec(&spec("c", 0x1000, 0x1000, 0x1F00, vec![0; 0x100])).is_ok());
    assert!(validate_spec(&spec("d", 0x1000, 0, u64::MAX, vec![0; 2])).is_err());
}

#[test]
fn long_mode_rejects_a_nonzero_load_base_without_kvm() {
    let spec = spec("long-badbase", 0x1_0000, 0x1000, 0x1000, vec![0xF4]);
    assert!(GuestRuntime::prepare_long_mode(spec, host(), "").is_err());
}

fn bzimage() -> (Vec<u8>, [u8; 16]) {
    let mut image = vec![0u8; 0x410];
    image[0x1F1] = 1; // setup_sects
    image[0x1FE..0x200].copy_from_slice(&0xAA55u16.to_le_bytes());
    image[0x202..0x206].copy_from_slice(b"HdrS");
    image[0x206..0x208].copy_from_slice(&0x020Fu16.to_le_bytes());
    image[0x211] = 0x01; // loadflags: LOADED_HIGH
    let kernel_body: [u8; 16] = [
        0xDE, 0xAD, 0xBE, 0xEF, 1, 2, 3, 4, 5, 6, 7, 8, 9, 10, 11, 12,
    ];
    image[0x400..0x410].copy_from_slice(&kernel_body);
    (image, kernel_body)
}

#[test]
fn load_bzimage_places_kernel_boot_params_and_cmdline() {
    let (image, kernel_body) = bzimage();
    let spec = spec("kload", 0x11_0000, 0, 0, vec![0xF4]);
    let mut guest = runtime(GuestRuntime::prepare_real_mode(spec, host()).unwrap());

    // Include a small initrd to exercise the ramdisk placement.
    let initrd = [0x11u8, 0x22, 0x33, 0x44];
    let boot = guest
        .load_bzimage(&image, "console=ttyS0", Some(&initrd))
        .expect("load bzImage");
    assert_eq!(boot.kernel_entry, 0x10_0000);
    assert_eq!(boot.boot_params, 0x1_0000);

    assert_eq!(
        guest
            .read_guest_bytes(0x10_0000, kernel_body.len())
            .unwrap(),
        kernel_body
    );
    assert_eq!(
        guest.read_guest_bytes(0x2_0000, 13).unwrap(),
        b"console=ttyS0"
    );
    assert_eq!(guest.read_guest_bytes(0x2_0000 + 13, 1).unwrap(), vec![0]);
    let bp = guest.read_guest_bytes(0x1_0000, 0x1000).unwrap();
    assert_eq!(bp[0x1F1], 1, "setup_sects copied into boot_params");
    assert_eq!(
        u32::from_le_bytes(bp[0x228..0x22C].try_into().unwrap()),
        0x2_0000,
        "cmd_line_ptr points at the cmdline"
    );
    // Low usable, reserved BIOS hole, high usable.
    assert_eq!(bp[0x1E8], 3, "three E820 entries");
    assert_eq!(u64::from_le_bytes(bp[0x2D0..0x2D8].try_into().unwrap()), 0);
    assert_eq!(
        u64::from_le_bytes(bp[0x2D8..0x2E0].try_into().unwrap()),
        0x9_FC00,
        "low usable RAM below the EBDA"
    );
    assert_eq!(u32::from_le_bytes(bp[0x2E0..0x2E4].try_into().unwrap()), 1);
    assert_eq!(
        u64::from_le_bytes(bp[0x2E4..0x2EC].try_into().unwrap()),
        0x9_FC00,
        "BIOS hole starts at 0x9FC00"
    );
    assert_eq!(
        u32::from_le_bytes(bp[0x2F4..0x2F8].try_into().unwrap()),
        2,
        "BIOS hole is reserved"
    );
    let ramdisk_image = u32::from_le_bytes(bp[0x218..0x21C].try_into().unwrap());
    let ramdisk_size = u32::from_le_bytes(bp[0x21C..0x220].try_into().unwrap());
    assert_eq!(ramdisk_size, 4, "ramdisk_size records the initrd length");
    assert!(
        u64::from(ramdisk_image) >= 0x10_0000,
        "initrd placed above the kernel"
    );
    assert_eq!(
        guest.read_guest_bytes(u64::from(ramdisk_image), 4).unwrap(),
        initrd,
        "initrd bytes landed at ramdisk_image"
    );

    let (sregs, regs) = guest.boot_kernel(&boot, reset_sregs(), reset_regs()).unwrap();
    assert_eq!(regs.rip, 0x10_0000, "rip at the kernel entry");
    assert_eq!(regs.rsi, 0x1_0000, "rsi points at boot_params");
    assert_ne!(sregs.cr0 & 1, 0, "protected mode (CR0.PE) enabled");

    let (sregs64, regs64) = guest.boot_kernel_64(&boot, reset_sregs(), reset_regs()).unwrap();
    assert_eq!(regs64.rip, 0x10_0200, "rip at the 64-bit entry");
    assert_eq!(regs64.rsi, 0x1_0000, "rsi points at boot_params");
    assert_ne!(sregs64.cr0 & (1 << 31), 0, "paging (CR0.PG) enabled");
    assert_ne!(
        sregs64.efer & (1 << 10),
        0,
        "long mode active (EFER.LMA)"
    );
}

#[test]
fn a_kernel_that_cannot_be_loaded_is_refused() {
    let fresh = || {
        let s = spec("k", 0x11_0000, 0, 0, vec![0xF4]);
        runtime(GuestRuntime::prepare_real_mode(s, host()).unwrap())
    };
    let (image, _) = bzimage();
    assert!(fresh().load_bzimage(&[0u8; 0x410], "", None).is_err(), "no header");
    let mut low = image.clone();
    low[0x211] = 0;
    assert!(fresh().load_bzimage(&low, "", None).is_err(), "not loaded high");
    let huge = vec![0u8; 0x2_0000];
    assert!(fresh().load_bzimage(&image, "", Some(&huge)).is_err(), "initrd over the kernel");
    assert!(fresh().load_bzimage(&image, "", None).is_ok());
}

#[test]
fn guest_ram_bytes_round_trip_and_bounds_check() {
    let spec = spec("ramio", 0x2000, 0x1000, 0x1000, vec![0xF4]);
    let mut guest = runtime(GuestRuntime::prepare_real_mode(spec, host()).unwrap());
    // Write near the top of RAM (gpa 0x1000..0x3000) and read it back.
    guest
        .write_guest_bytes(0x2500, &[0xDE, 0xAD, 0xBE, 0xEF])
        .expect("write within RAM");
    assert_eq!(
        guest.read_guest_bytes(0x2500, 4).unwrap(),
        vec![0xDE, 0xAD, 0xBE, 0xEF]
    );
    // Below the load base and past the end are rejected.
    assert!(
        guest.write_guest_bytes(0x0, &[0]).is_err(),
        "below load base"
    );
    assert!(
        guest.read_guest_bytes(0x2FFE, 4).is_err(),
        "read overruns the end of RAM"
    );
    // The bytes around the write are as they were.
    assert_eq!(guest.read_guest_bytes(0x24FF, 6).unwrap(), vec![0, 0xDE, 0xAD, 0xBE, 0xEF, 0]);
    assert_eq!(guest.read_guest_bytes(0x1000, 1).unwrap(), vec![0xF4], "the payload");
}

#[test]
fn each_mode_enters_the_payload() {
    let prepared = GuestRuntime::prepare_real_mode(spec("r", 0x2000, 0x1000, 0x1200, vec![1]), host())
        .unwrap();
    assert_eq!(prepared.mode, BootMode::Real);
    assert_eq!(prepared.entry, 0x1200);
    let (s, r) = prepared.boot_registers(reset_sregs(), reset_regs()).unwrap();
    assert_eq!((r.rip, r.rflags, r.rsi), (0x1200, 2, 7));
    assert_eq!((s.cs.base, s.cs.selector, s.cs.limit), (0, 0, 0xFFFF));

    let prepared =
        GuestRuntime::prepare_protected_mode(spec("p", 0x2000, 0x1000, 0x1000, vec![1]), host())
            .unwrap();
    let (s, r) = prepared.boot_registers(reset_sregs(), reset_regs()).unwrap();
    assert_eq!(r.rip, 0x1000);
    assert_eq!(s.cr0, 0x6000_0011);
    assert_eq!((s.cs.selector, s.cs.db, s.cs.l, s.cs.limit), (0x08, 1, 0, 0xFFFF_FFFF));
    assert_eq!((s.ss.selector, s.ss.type_), (0x10, 3));
}

#[test]
fn long_mode_runs_through_page_tables() {
    let prepared =
        GuestRuntime::prepare_long_mode(spec("l", 0x1_0000, 0, 0x1000, vec![0xF4]), host(), "")
            .unwrap();
    assert_eq!(prepared.mode, BootMode::Long);
    let (s, r) = prepared.boot_registers(reset_sregs(), reset_regs()).unwrap();
    assert_eq!(r.rip, 0x1000);
    assert_eq!(s.cr3, 0x4000);
    assert_eq!(s.cr4 & 0x20, 0x20);
    assert_eq!((s.cs.db, s.cs.l), (0, 1));
    let guest = prepared.runtime;
    let entry = |at| u64::from_le_bytes(guest.read_guest_bytes(at, 8).unwrap().try_into().unwrap());
    assert_eq!((entry(0x4000), entry(0x5000), entry(0x6000)), (0x5003, 0x6003, 0x83));
    assert_eq!(guest.read_guest_bytes(0x1000, 1).unwrap(), vec![0xF4]);
    assert_eq!(
        message(GuestRuntime::prepare_long_mode(
            spec("l", 0x6000, 0, 0, vec![1]),
            host(),
            "BufferTooSmall"
        )),
        "config error: long-mode boot could not build page tables: BufferTooSmall"
    );
    assert_eq!(
        message(GuestRuntime::prepare_long_mode(
            spec("l", 0x1_0000, 0, 0x4000, vec![1]),
            host(),
            ""
        )),
        "config error: long-mode payload ends at 0x4001, overlapping the identity page tables at \
         0x4000"
    );
}

#[test]
fn identity_page_tables_lead_from_one_to_the_next() {
    let s = spec("t", 0x7000, 0, 0, vec![0xF4]);
    let mut guest = runtime(GuestRuntime::prepare_real_mode(s, host()).unwrap());
    assert_eq!(guest.install_identity_page_tables().unwrap(), 0x4000);
    let entry = |at| u64::from_le_bytes(guest.read_guest_bytes(at, 8).unwrap().try_into().unwrap());
    assert_eq!((entry(0x4000), entry(0x5000), entry(0x6000)), (0x5003, 0x6003, 0x83));

    let s = spec("small", 0x5000, 0, 0, vec![0xF4]);
    let mut small = runtime(GuestRuntime::prepare_real_mode(s, host()).unwrap());
    assert_eq!(
        message(small.install_identity_page_tables()),
        "config error: gpa 0x5000+0x8 overruns guest RAM"
    );
}

#[test]
fn a_64_bit_entry_needs_ram_at_zero() {
    let s = spec("k", 0x2_0000, 0x1000, 0x1000, vec![0xF4]);
    let mut guest = runtime(GuestRuntime::prepare_real_mode(s, host()).unwrap());
    let boot = KernelBoot { kernel_entry: 0x10_0000, boot_params: 0x1_0000 };
    assert_eq!(
        message(guest.boot_kernel_64(&boot, reset_sregs(), reset_regs())),
        "config error: 64-bit kernel entry requires load_base 0"
    );
    assert_eq!(
        message(guest.check_table_walk()),
        "config error: ACPI-table discovery requires load_base 0"
    );
}

#[test]
fn a_guest_resumes_at_its_waking_vector() {
    let s = spec("s3", 0x2000, 0, 0, vec![0xF4]);
    let guest = runtime(GuestRuntime::prepare_real_mode(s, host()).unwrap());
    let (target, sregs, regs) = guest
        .resume_from_s3(Some(ResumeTarget::RealMode(0x1500)), reset_sregs(), reset_regs())
        .unwrap();
    assert_eq!(target, ResumeTarget::RealMode(0x1500));
    assert_eq!(regs.rip, 0x1500);
    assert_eq!(sregs.cs.base, 0);
    assert_eq!(
        message(guest.resume_from_s3(Some(ResumeTarget::Unarmed), reset_sregs(), reset_regs())),
        "config error: no S3 waking vector armed in the FACS"
    );
    assert_eq!(
        message(guest.resume_from_s3(None, reset_sregs(), reset_regs())),
        "config error: FACS buffer too short"
    );
    assert_eq!(
        message(guest.resume_from_s3(
            Some(ResumeTarget::Extended(0xABCD)),
            reset_sregs(),
            reset_regs()
        )),
        "config error: S3 X waking vector 0xabcd needs a long-mode resume entry, which is not \
         implemented yet"
    );
    assert!(guest.check_table_walk().is_ok());
    assert_eq!(discovered_facs(Some(0x9000)).unwrap(), 0x9000);
    assert!(matches!(discovered_facs(None), Err(Error::Config(_))));
}

#[test]
fn the_first_guest_is_booted() {
    let config = GuestConfig {
        name: "vm1".into(),
        memory_mb: 2,
        serial_enabled: false,
        serial_output: "stdout".into(),
    };
    let spec = run_first_guest(Some(&config)).unwrap();
    assert_eq!(spec.name, "vm1");
    assert_eq!(spec.ram_bytes, 0x20_0000);
    assert_eq!(spec.image, vec![0xF4]);
    assert_eq!(spec.serial, None);
    assert_eq!(
        message(run_first_guest(None)),
        "config error: configuration has no guests to boot"
    );
}

#[test]
fn an_unexpected_interface_version_is_refused() {
    let refused = |report: HostReport| {
        message(GuestRuntime::prepare_real_mode(spec("v", 0x1000, 0, 0, vec![0xF4]), report))
    };
    assert_eq!(
        refused(HostReport { api: -3, ..host() }),
        "hypervisor error: unexpected KVM API version -3 (expected 12)"
    );
    assert_eq!(
        refused(HostReport { msr_exits: false, ..host() }),
        "hypervisor error: KVM_CAP_X86_USER_SPACE_MSR unavailable"
    );
    assert_eq!(
        refused(HostReport { shadow_ranges: vec![(0, 1); 16], ..host() }),
        "hypervisor error: MSR filter supports at most 16 ranges, got 17"
    );
    let s = spec("unaligned", 0x1000, 0x800, 0x800, vec![0xF4]);
    assert!(matches!(
        GuestRuntime::prepare_real_mode(s, host()),
        Err(Error::HypervisorError(_))
    ));
}

#[test]
fn a_prepared_guest_has_one_slot_over_its_ram() {
    let s = spec("one", 0x1800, 0x1000, 0x1000, vec![0xF4]);
    let prepared = GuestRuntime::prepare_real_mode(s, host()).unwrap();
    let slots = prepared.runtime.run.backend.mem_slots();
    assert_eq!(slots.len(), 1);
    assert_eq!((slots[0].guest_phys_addr, slots[0].size), (0x1000, 0x2000));
    assert_eq!(slots[0].host_addr, prepared.runtime.ram.host_addr());
    let forwarded: Vec<u32> = prepared.setup.filter.ranges.iter().map(|r| r.base).collect();
    assert_eq!(forwarded, vec![0xE7, 0x6E0]);
}

#[test]
fn a_prepared_guest_reads_the_table_through_cpuid() {
    let prepared =
        GuestRuntime::prepare_real_mode(spec("c", 0x1000, 0, 0, vec![0xF4]), host()).unwrap();
    let leaf = |function: u32, index: u32, eax: u32, ebx: u32, ecx: u32, edx: u32| StealthLeaf {
        function,
        index,
        regs: CpuidRegs { eax, ebx, ecx, edx },
    };
    let table = CpuidStealthTable {
        leaves: vec![
            leaf(0, 0, 0x16, 0x756E_6547, 0x6C65_746E, 0x4965_6E69),
            leaf(1, 0, 0x000B_06F2, 0x0001_0800, 0, 0),
            leaf(0x8000_0002, 0, 1, 2, 3, 4),
            leaf(0xA, 0, 0x0730_0402, 0, 0, 0x603),
            leaf(0xB, 0, 0, 1, 0x100, 0),
            leaf(0xB, 1, 1, 1, 0x201, 0),
        ],
    };
    let supported = vec![
        KvmCpuidEntry { function: 0, eax: 0xD, ebx: 9, ..Default::default() },
        KvmCpuidEntry { function: 1, ebx: 0x0710_1234, ecx: 0x8000_0201, ..Default::default() },
        KvmCpuidEntry { function: 0xB, eax: 4, ebx: 16, ecx: 0x100, edx: 7, ..Default::default() },
        KvmCpuidEntry { function: 0xA, eax: 0x99, ..Default::default() },
    ];
    let sets = prepared.cpuid_sets(&table, &supported, Some(3_000_000)).unwrap();
    assert_eq!(sets.len(), 1);
    let entries = sets[0].entries();
    let at = |function: u32, index: u32| {
        *entries.iter().find(|e| e.function == function && e.index == index).unwrap()
    };
    // The APIC id in the top byte, the table's width below it, and the rest as
    // KVM supports it, without the hypervisor-present bit.
    assert_eq!((at(1, 0).ebx, at(1, 0).ecx), (0x0001_1234, 0x201));
    assert_eq!((at(0xB, 0).eax, at(0xB, 0).ebx, at(0xB, 0).ecx, at(0xB, 0).edx), (0, 1, 0x100, 0));
    assert_eq!((at(0xB, 1).eax, at(0xB, 1).ebx, at(0xB, 1).ecx), (1, 1, 0x201));
    assert_eq!((at(0xB, 2).eax, at(0xB, 2).ebx), (0, 0));
    assert_eq!((at(0xA, 0).eax, at(0xA, 0).edx), (0x0730_0402, 0x603));
    // The vendor, the signature and the brand are the table's.
    assert_eq!(
        (at(0, 0).eax, at(0, 0).ebx, at(0, 0).ecx, at(0, 0).edx),
        (0xD, 0x756E_6547, 0x6C65_746E, 0x4965_6E69)
    );
    assert_eq!(at(1, 0).eax, 0x000B_06F2);
    assert_eq!((at(0x8000_0002, 0).eax, at(0x8000_0002, 0).edx), (1, 4));
    assert_eq!((at(0x8000_0003, 0).eax, at(0x8000_0004, 0).edx), (0, 0));

    let too_many = vec![KvmCpuidEntry::default(); MAX_CPUID_ENTRIES + 1];
    assert!(matches!(
        prepared.cpuid_sets(&table, &too_many, None),
        Err(Error::Vcpu(m)) if m == "rebuild CpuId: SizeLimitExceeded"
    ));
}
