use enlil_core::kvm_backend::KvmBackend;
use enlil_core::msr::{
    check_restored, check_tsc_read, context_msr_list, msr_request, save_msrs, MsrAnswer,
    FILTER_DEFAULT_ALLOW, FILTER_READ_WRITE, IA32_TSC, MAX_FILTER_RANGES, MAX_MSR_ENTRIES,
    MSR_EXIT_REASONS,
};
use enlil_core::Error;

fn backend() -> KvmBackend {
    KvmBackend::new(12).unwrap().0
}

#[test]
fn constants_are_those_of_the_kernel_interface() {
    assert_eq!(MAX_FILTER_RANGES, kvm_bindings::KVM_MSR_FILTER_MAX_RANGES as usize);
    assert_eq!(FILTER_DEFAULT_ALLOW, kvm_bindings::KVM_MSR_FILTER_DEFAULT_ALLOW);
    assert_eq!(
        FILTER_READ_WRITE,
        kvm_bindings::KVM_MSR_FILTER_READ | kvm_bindings::KVM_MSR_FILTER_WRITE
    );
    assert_eq!(
        MSR_EXIT_REASONS,
        u64::from(
            kvm_bindings::KVM_MSR_EXIT_REASON_UNKNOWN | kvm_bindings::KVM_MSR_EXIT_REASON_FILTER
        )
    );
    assert_eq!(MAX_MSR_ENTRIES, kvm_bindings::KVM_MAX_MSR_ENTRIES);
}

#[test]
fn register_exits_need_the_capability() {
    assert_eq!(backend().enable_userspace_msr_exits(true).unwrap(), [6, 0, 0, 0]);
    assert!(matches!(
        backend().enable_userspace_msr_exits(false),
        Err(Error::HypervisorError(_))
    ));
}

#[test]
fn a_filter_denies_exactly_the_listed_registers() {
    let filter = backend().forward_msrs_to_userspace(&[(0xE7, 2), (0x6E0, 1), (0xC1, 9)]).unwrap();
    assert_eq!(filter.flags, FILTER_DEFAULT_ALLOW);
    let shape: Vec<(u32, u32, u32, usize)> = filter
        .ranges
        .iter()
        .map(|r| (r.flags, r.base, r.nmsrs, r.bitmap.len()))
        .collect();
    assert_eq!(shape, vec![(3, 0xE7, 2, 1), (3, 0x6E0, 1, 1), (3, 0xC1, 9, 2)]);
    assert!(filter.ranges.iter().all(|r| r.bitmap.iter().all(|&b| b == 0)));
}

#[test]
fn a_filter_holds_16_ranges() {
    let ranges: Vec<(u32, u32)> = (0..17).map(|i| (i * 16, 1)).collect();
    assert!(backend().forward_msrs_to_userspace(&ranges[..16]).is_ok());
    assert!(matches!(
        backend().forward_msrs_to_userspace(&ranges),
        Err(Error::HypervisorError(_))
    ));
}

#[test]
fn only_served_registers_are_saved() {
    let msrs = context_msr_list();
    let answers: Vec<MsrAnswer> = (0..msrs.len())
        .map(|i| MsrAnswer {
            served: match i {
                0 | 4 => Some(1),
                1 => Some(0),
                _ => None,
            },
            data: 100 + i as u64,
        })
        .collect();
    assert_eq!(save_msrs(&answers), vec![(msrs[0], 100), (msrs[4], 104)]);
    assert!(!msrs.contains(&IA32_TSC));
}

#[test]
fn a_counter_that_was_not_read_is_an_error() {
    assert_eq!(check_tsc_read(1, 77).unwrap(), 77);
    assert_eq!(
        check_tsc_read(0, 77).unwrap_err().message(),
        "vcpu error: KVM_GET_MSRS(IA32_TSC) returned 0 entries, expected 1"
    );
}

#[test]
fn a_partial_restore_is_an_error() {
    assert!(check_restored(11, 11).is_ok());
    assert_eq!(
        check_restored(3, 11).unwrap_err().message(),
        "vcpu error: KVM_SET_MSRS accepted 3 of 11 entries"
    );
}

#[test]
fn a_request_holds_what_it_was_made_of() {
    let set = msr_request(&[(0x10, 1), (0xC000_0080, 0xD01)]).unwrap();
    assert_eq!(set.entries(), vec![(0x10, 1), (0xC000_0080, 0xD01)]);
    let many: Vec<(u32, u64)> = (0..257).map(|i| (i, 0)).collect();
    assert!(msr_request(&many[..256]).is_ok());
    assert_eq!(
        match msr_request(&many) {
            Ok(_) => panic!("accepted too many"),
            Err(e) => e.message(),
        },
        "vcpu error: Msrs alloc: SizeLimitExceeded"
    );
}
