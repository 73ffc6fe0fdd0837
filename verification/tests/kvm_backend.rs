use enlil_core::guest_ram::first_page;
use enlil_core::kvm_backend::{
    answer_rdmsr, answer_wrmsr, dispatch, guest_ref_cycles, run_failure, validate_region,
    GuestExit, GuestMemory, GuestRam, KvmBackend, MemSlot, RecordingHandler, RunOutcome,
    SetupStep, VcpuEvent, VmExitHandler, EINTR, HOST_PAGE_SIZE, KVM_API_VERSION, TSS_ADDRESS,
};
use enlil_core::Error;

#[test]
fn terminal_exits_stop_the_loop() {
    assert_eq!(GuestExit::Halted.outcome(), RunOutcome::Stopped);
    assert_eq!(GuestExit::Shutdown.outcome(), RunOutcome::Stopped);
    assert_eq!(GuestExit::InternalError.outcome(), RunOutcome::Stopped);
    assert_eq!(GuestExit::FailedEntry(7).outcome(), RunOutcome::Stopped);
}

#[test]
fn resumable_exits_continue_the_loop() {
    assert_eq!(
        GuestExit::IoIn {
            port: 0x3f8,
            size: 1
        }
        .outcome(),
        RunOutcome::Continue
    );
    assert_eq!(
        GuestExit::MmioWrite {
            addr: 0xfee0_0000,
            size: 4
        }
        .outcome(),
        RunOutcome::Continue
    );
    assert_eq!(GuestExit::Interrupted.outcome(), RunOutcome::Continue);
    assert_eq!(GuestExit::Unsupported(42).outcome(), RunOutcome::Continue);
    assert_eq!(
        GuestExit::MsrRead { msr: 0xE8 }.outcome(),
        RunOutcome::Continue
    );
    assert_eq!(
        GuestExit::MsrWrite {
            msr: 0x1D9,
            value: 1
        }
        .outcome(),
        RunOutcome::Continue
    );
}

#[test]
fn recording_handler_captures_writes_and_read_sizes() {
    let mut h = RecordingHandler::default();
    h.io_out(0x3f8, b"OK");
    let mut buf = [0u8; 4];
    h.io_in(0x60, &mut buf);
    h.mmio_write(0xfed4_0000, &[1, 2, 3]);
    let mut mbuf = [0u8; 8];
    h.mmio_read(0xfee0_0000, &mut mbuf);

    assert_eq!(h.io_out, vec![(0x3f8, b"OK".to_vec())]);
    assert_eq!(h.io_in, vec![(0x60, 4)]);
    assert_eq!(h.mmio_write, vec![(0xfed4_0000, vec![1, 2, 3])]);
    assert_eq!(h.mmio_read, vec![(0xfee0_0000, 8)]);

    assert_eq!(h.rdmsr(0xE8), Some(0));
    assert!(h.wrmsr(0x1D9, 0x42));
    assert_eq!(h.msr_read, vec![0xE8]);
    assert_eq!(h.msr_write, vec![(0x1D9, 0x42)]);
}

#[test]
fn default_handler_is_a_noop() {
    struct Bare;
    impl VmExitHandler for Bare {}
    let mut h = Bare;
    let mut buf = [0xaau8; 2];
    h.io_in(0x3f8, &mut buf);
    h.mmio_read(0x1000, &mut buf);
    h.io_out(0x3f8, &[0]);
    h.mmio_write(0x1000, &[0]);
    assert_eq!(buf, [0xaa, 0xaa]);
    // An unmodelled register is refused, not silently spoofed.
    assert_eq!(h.rdmsr(0xE8), None);
    assert!(!h.wrmsr(0x1D9, 0x1));
}

#[test]
fn guest_ram_is_page_aligned_zeroed_and_writable() {
    let mut ram = GuestRam::new(100);
    assert_eq!(ram.len(), HOST_PAGE_SIZE);
    assert!(!ram.is_empty());
    assert_eq!(ram.host_addr() % HOST_PAGE_SIZE as u64, 0);
    assert!(ram.as_slice().iter().all(|&b| b == 0));
    ram.as_mut_slice()[0] = 0xAB;
    ram.as_mut_slice()[HOST_PAGE_SIZE - 1] = 0xCD;
    assert_eq!(ram.as_slice()[0], 0xAB);
    assert_eq!(ram.as_slice()[HOST_PAGE_SIZE - 1], 0xCD);
}

#[test]
fn guest_ram_rounds_multi_page_size_up() {
    let ram = GuestRam::new(HOST_PAGE_SIZE + 1);
    assert_eq!(ram.len(), 2 * HOST_PAGE_SIZE);
}

#[test]
fn guest_ram_lies_where_its_address_says() {
    let mut ram = GuestRam::new(3 * HOST_PAGE_SIZE);
    assert_eq!(ram.host_addr(), ram.as_slice().as_ptr() as u64);
    assert_eq!(ram.host_addr(), ram.as_mut_slice().as_ptr() as u64);
}

#[test]
fn the_first_page_of_a_buffer_is_the_next_boundary() {
    let page = HOST_PAGE_SIZE as u64;
    for (base, at) in [(0, 0), (1, 4095), (page - 1, 1), (page, 0), (3 * page + 16, 4080)] {
        assert_eq!(first_page(base), at);
    }
    assert_eq!(first_page(u64::MAX), 1);
    // Whatever buffer the allocator gives, the address is that of the bytes.
    for pages in 1..40 {
        let ram = GuestRam::new(pages * HOST_PAGE_SIZE);
        assert_eq!(ram.host_addr(), ram.as_slice().as_ptr() as u64);
    }
}

#[test]
fn validate_region_rejects_misaligned_and_zero() {
    // Misaligned guest physical address.
    assert!(validate_region(0x1001, 0x1000, 0x1000).is_err());
    // Misaligned host address.
    assert!(validate_region(0x1000, 0x1001, 0x1000).is_err());
    // Misaligned (non-page-multiple) size.
    assert!(validate_region(0x1000, 0x1000, 0x800).is_err());
    // Zero size.
    assert!(validate_region(0x1000, 0x1000, 0).is_err());
    // A fully page-aligned region is accepted.
    assert!(validate_region(0x1000, 0x2000, 0x1000).is_ok());
}

#[test]
fn guest_memory_dma_round_trips_real_guest_ram() {
    const GPA: u64 = 0x4000;
    let ram = GuestRam::new(HOST_PAGE_SIZE);
    let slots = [MemSlot {
        slot: 0,
        guest_phys_addr: GPA,
        size: ram.len() as u64,
        host_addr: ram.host_addr(),
    }];
    let mut rams = vec![ram];

    let mem = GuestMemory::new(&slots);
    assert!(mem.write(&mut rams, GPA + 0x10, &[0xDE, 0xAD, 0xBE, 0xEF]));
    let mut buf = [0u8; 4];
    assert!(mem.read(&rams, GPA + 0x10, &mut buf));
    assert_eq!(buf, [0xDE, 0xAD, 0xBE, 0xEF]);

    // The write landed in the backing RAM the guest actually sees.
    assert_eq!(&rams[0].as_slice()[0x10..0x14], &[0xDE, 0xAD, 0xBE, 0xEF]);
}

#[test]
fn guest_memory_rejects_out_of_range_access() {
    const GPA: u64 = 0x4000;
    let ram = GuestRam::new(HOST_PAGE_SIZE);
    let size = ram.len() as u64;
    let slots = [MemSlot {
        slot: 0,
        guest_phys_addr: GPA,
        size,
        host_addr: ram.host_addr(),
    }];
    let mut rams = vec![ram];

    let mem = GuestMemory::new(&slots);
    let mut buf = [0u8; 8];
    // Starts below the slot.
    assert!(!mem.read(&rams, GPA - 1, &mut buf));
    // Straddles the end of the slot.
    assert!(!mem.read(&rams, GPA + size - 4, &mut buf));
    // Entirely above the slot.
    assert!(!mem.write(&mut rams, GPA + size, &[1, 2, 3, 4]));
    // The last 8 bytes are in range.
    assert!(mem.read(&rams, GPA + size - 8, &mut buf));
}

#[test]
fn guest_memory_routes_across_multiple_slots() {
    let ram_lo = GuestRam::new(HOST_PAGE_SIZE);
    let ram_hi = GuestRam::new(HOST_PAGE_SIZE);
    let slots = [
        MemSlot {
            slot: 0,
            guest_phys_addr: 0x1000,
            size: ram_lo.len() as u64,
            host_addr: ram_lo.host_addr(),
        },
        MemSlot {
            slot: 1,
            guest_phys_addr: 0x9000,
            size: ram_hi.len() as u64,
            host_addr: ram_hi.host_addr(),
        },
    ];
    let mut rams = vec![ram_lo, ram_hi];

    let mem = GuestMemory::new(&slots);
    assert!(mem.write(&mut rams, 0x1000, &[0xAA]));
    assert!(mem.write(&mut rams, 0x9000, &[0xBB]));
    // The gap between the two slots is unbacked.
    assert!(!mem.write(&mut rams, 0x5000, &[0xCC]));

    assert_eq!(rams[0].as_slice()[0], 0xAA);
    assert_eq!(rams[1].as_slice()[0], 0xBB);
}

#[test]
fn guest_memory_finds_the_host_address() {
    let slots = [
        MemSlot { slot: 0, guest_phys_addr: 0x1000, size: 0x1000, host_addr: 0x7000_0000 },
        MemSlot { slot: 1, guest_phys_addr: 0x9000, size: 0x2000, host_addr: 0x8000_0000 },
    ];
    let mem = GuestMemory::new(&slots);
    assert_eq!(mem.host_ptr(0x1000, 0x1000), Some(0x7000_0000));
    assert_eq!(mem.host_ptr(0xA123, 4), Some(0x8000_1123));
    assert_eq!(mem.host_ptr(0xAFFF, 2), None);
    assert_eq!(mem.host_ptr(u64::MAX, 2), None);
    assert_eq!(mem.locate(0x9008, 8), Some((1, 8)));
}

#[test]
fn a_write_leaves_the_bytes_around_it() {
    let ram = GuestRam::new(HOST_PAGE_SIZE);
    let slots = [MemSlot {
        slot: 0,
        guest_phys_addr: 0,
        size: ram.len() as u64,
        host_addr: ram.host_addr(),
    }];
    let mut rams = vec![ram];
    rams[0].as_mut_slice().fill(0x55);
    let mem = GuestMemory::new(&slots);
    assert!(mem.write(&mut rams, 16, &[1, 2]));
    let bytes = rams[0].as_slice();
    assert_eq!(&bytes[14..20], &[0x55, 0x55, 1, 2, 0x55, 0x55]);
}

struct Device {
    fill: u8,
    msr: Option<u64>,
    accept: bool,
    log: Vec<String>,
}

impl VmExitHandler for Device {
    fn io_in(&mut self, port: u16, data: &mut [u8]) {
        data.fill(self.fill);
        self.log.push(format!("in {port:#x} {}", data.len()));
    }
    fn io_out(&mut self, port: u16, data: &[u8]) {
        self.log.push(format!("out {port:#x} {data:?}"));
    }
    fn mmio_read(&mut self, addr: u64, data: &mut [u8]) {
        data.fill(self.fill);
        self.log.push(format!("read {addr:#x} {}", data.len()));
    }
    fn mmio_write(&mut self, addr: u64, data: &[u8]) {
        self.log.push(format!("write {addr:#x} {data:?}"));
    }
    fn rdmsr(&mut self, msr: u32) -> Option<u64> {
        self.log.push(format!("rdmsr {msr:#x}"));
        self.msr
    }
    fn wrmsr(&mut self, msr: u32, value: u64) -> bool {
        self.log.push(format!("wrmsr {msr:#x} {value}"));
        self.accept
    }
}

fn device() -> Device {
    Device { fill: 0x7e, msr: Some(9), accept: true, log: Vec::new() }
}

#[test]
fn an_access_is_handed_to_the_handler_once() {
    let mut d = device();
    let mut buf = [0u8; 2];
    let exit = dispatch(VcpuEvent::IoIn(0x60, &mut buf), &mut d);
    assert_eq!(exit, GuestExit::IoIn { port: 0x60, size: 2 });
    assert_eq!(buf, [0x7e, 0x7e]);

    let exit = dispatch(VcpuEvent::IoOut(0x3f8, &[7]), &mut d);
    assert_eq!(exit, GuestExit::IoOut { port: 0x3f8, size: 1 });

    let mut word = [0u8; 4];
    let exit = dispatch(VcpuEvent::MmioRead(0xfee0_0000, &mut word), &mut d);
    assert_eq!(exit, GuestExit::MmioRead { addr: 0xfee0_0000, size: 4 });
    assert_eq!(word, [0x7e; 4]);

    let exit = dispatch(VcpuEvent::MmioWrite(0xfee0_00b0, &[0, 1]), &mut d);
    assert_eq!(exit, GuestExit::MmioWrite { addr: 0xfee0_00b0, size: 2 });

    assert_eq!(
        d.log,
        vec!["in 0x60 2", "out 0x3f8 [7]", "read 0xfee00000 4", "write 0xfee000b0 [0, 1]"]
    );
}

#[test]
fn a_register_access_faults_where_it_is_refused() {
    let mut d = device();
    let (mut data, mut error) = (1u64, 5u8);
    let exit = dispatch(VcpuEvent::Rdmsr { msr: 0xe8, data: &mut data, error: &mut error }, &mut d);
    assert_eq!((exit, data, error), (GuestExit::MsrRead { msr: 0xe8 }, 9, 0));

    let mut error = 5u8;
    let exit = dispatch(VcpuEvent::Wrmsr { msr: 0x1d9, value: 3, error: &mut error }, &mut d);
    assert_eq!((exit, error), (GuestExit::MsrWrite { msr: 0x1d9, value: 3 }, 0));

    d.msr = None;
    d.accept = false;
    let (mut data, mut error) = (1u64, 0u8);
    dispatch(VcpuEvent::Rdmsr { msr: 0xe8, data: &mut data, error: &mut error }, &mut d);
    assert_eq!((data, error), (1, 1));
    let mut error = 0u8;
    dispatch(VcpuEvent::Wrmsr { msr: 0x1d9, value: 3, error: &mut error }, &mut d);
    assert_eq!(error, 1);
}

#[test]
fn every_other_exit_reaches_no_handler() {
    let mut d = device();
    let cases = [
        (VcpuEvent::Hlt, GuestExit::Halted),
        (VcpuEvent::Shutdown, GuestExit::Shutdown),
        (VcpuEvent::SystemEvent, GuestExit::Shutdown),
        (VcpuEvent::Debug, GuestExit::Debug),
        (VcpuEvent::Intr, GuestExit::Interrupted),
        (VcpuEvent::IrqWindowOpen, GuestExit::Interrupted),
        (VcpuEvent::InternalError, GuestExit::InternalError),
        (VcpuEvent::FailEntry(7), GuestExit::FailedEntry(7)),
        (VcpuEvent::Unsupported(3), GuestExit::Unsupported(3)),
        (VcpuEvent::Other, GuestExit::Unsupported(u32::MAX)),
    ];
    for (event, exit) in cases {
        assert_eq!(dispatch(event, &mut d), exit);
    }
    assert!(d.log.is_empty());
}

#[test]
fn answers_to_register_accesses() {
    let (mut data, mut error) = (1u64, 9u8);
    answer_rdmsr(Some(4), &mut data, &mut error);
    assert_eq!((data, error), (4, 0));
    answer_rdmsr(None, &mut data, &mut error);
    assert_eq!((data, error), (4, 1));
    assert_eq!((answer_wrmsr(true), answer_wrmsr(false)), (0, 1));
}

#[test]
fn setting_up_depends_on_the_interrupt_controllers() {
    assert_eq!(KVM_API_VERSION, 12);
    let (_, steps) = KvmBackend::new(12).unwrap();
    assert_eq!(
        steps,
        vec![SetupStep::CreateVm, SetupStep::SetTssAddress(TSS_ADDRESS), SetupStep::CreateIrqChip]
    );
    let (backend, steps) = KvmBackend::new_without_irqchip(12).unwrap();
    assert_eq!(steps, vec![SetupStep::CreateVm, SetupStep::SetTssAddress(TSS_ADDRESS)]);
    assert_eq!(backend.vcpu_count(), 0);
    assert!(backend.mem_slots().is_empty());
    assert!(matches!(KvmBackend::new(11), Err(Error::HypervisorError(_))));
}

#[test]
fn memory_slots_are_numbered_in_order() {
    let (mut backend, _) = KvmBackend::new(12).unwrap();
    let first = backend.map_memory(0x1000, 0x7000_0000, 0x2000).unwrap();
    assert_eq!(first.slot, 0);
    // Nothing is registered until the kernel has accepted it.
    assert!(backend.mem_slots().is_empty());
    backend.commit_memory(first);
    let second = backend.map_memory(0x9000, 0x8000_0000, 0x1000).unwrap();
    backend.commit_memory(second);
    assert_eq!(
        backend.mem_slots(),
        &[
            MemSlot { slot: 0, guest_phys_addr: 0x1000, size: 0x2000, host_addr: 0x7000_0000 },
            MemSlot { slot: 1, guest_phys_addr: 0x9000, size: 0x1000, host_addr: 0x8000_0000 },
        ]
    );
    assert!(backend.map_memory(0x1001, 0x7000_0000, 0x1000).is_err());
    assert_eq!(backend.guest_memory().host_ptr(0x9004, 4), Some(0x8000_0004));
}

#[test]
fn a_missing_vcpu_is_an_error() {
    let (mut backend, _) = KvmBackend::new(12).unwrap();
    assert!(matches!(backend.tsc_khz(), Err(Error::Vcpu(_))));
    assert!(matches!(backend.check_vcpu(0), Err(Error::Vcpu(_))));
    assert_eq!(backend.create_vcpu(3), 0);
    assert_eq!(backend.create_vcpu(4), 1);
    assert_eq!(backend.vcpu_count(), 2);
    assert!(backend.check_vcpu(1).is_ok());
    assert!(backend.check_vcpu(2).is_err());
    assert_eq!(backend.tsc_khz().unwrap(), 0);
}

#[test]
fn an_interrupted_entry_is_no_failure() {
    assert_eq!(EINTR, libc::EINTR);
    assert_eq!(run_failure(EINTR, "interrupted").unwrap(), GuestExit::Interrupted);
    match run_failure(22, "Invalid argument") {
        Err(Error::Vcpu(m)) => assert!(m.ends_with("Invalid argument")),
        other => panic!("unexpected {other:?}"),
    }
}

#[test]
fn cycles_in_the_guest_never_run_backwards() {
    assert_eq!(guest_ref_cycles(100, 175), 75);
    assert_eq!(guest_ref_cycles(175, 100), 0);
}
