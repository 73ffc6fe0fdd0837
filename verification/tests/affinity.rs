use enlil_core::affinity::{
    decode_cpu_set, encode_cpu_set, first_beyond_cpu_set, get_current_affinity, online_cpus, pin_current_thread,
    pin_current_thread_to_mask, pin_linux, AffinityMask, PinResult, PinStep, Platform,
    VcpuThreadConfig,
};

#[test]
fn affinity_mask_basics() {
    let mask = AffinityMask::single(3);
    assert!(mask.contains(3));
    assert!(!mask.contains(0));
    assert_eq!(mask.count(), 1);
}

#[test]
fn affinity_mask_from_cores() {
    let mask = AffinityMask::from_cores(&[0, 2, 4, 6]);
    assert_eq!(mask.count(), 4);
    assert!(mask.contains(0));
    assert!(mask.contains(2));
    assert!(!mask.contains(1));
    assert_eq!(mask.cores(), vec![0, 2, 4, 6]);
}

#[test]
fn affinity_mask_add_remove() {
    let mut mask = AffinityMask::empty();
    assert!(mask.is_empty());
    mask.add(5);
    mask.add(10);
    assert_eq!(mask.count(), 2);
    mask.remove(5);
    assert_eq!(mask.count(), 1);
    assert!(!mask.contains(5));
    assert!(mask.contains(10));
}

#[test]
fn affinity_mask_display() {
    let mask = AffinityMask::from_cores(&[3, 1, 7]);
    assert_eq!(mask.text(), "[1, 3, 7]");
}

#[test]
fn pin_empty_mask_fails() {
    let result = pin_current_thread_to_mask(Platform::Linux, &AffinityMask::empty());
    assert_eq!(
        result,
        PinStep::Done(PinResult::Failed("empty affinity mask".into()))
    );
}

#[test]
fn online_cpus_nonzero() {
    for count in [1, 2, 64] {
        assert!(!online_cpus(count).is_empty());
    }
}

#[test]
fn pin_unsupported_on_non_linux() {
    let result = pin_current_thread(Platform::Other, 0);
    assert_eq!(result, PinStep::Done(PinResult::Unsupported));
}

#[test]
fn a_list_of_cores_is_sorted_and_without_repeats() {
    let mask = AffinityMask::from_cores(&[9, 2, 9, 300, 2, 0]);
    assert_eq!(mask.cores(), vec![0, 2, 9, 300]);
    assert_eq!(mask.text(), "[0, 2, 9, 300]");
    assert_eq!(AffinityMask::empty().text(), "[]");
}

#[test]
fn a_cpu_set_holds_one_bit_per_core() {
    let set = encode_cpu_set(&AffinityMask::from_cores(&[0, 9, 1023, 1024]));
    assert_eq!(set[0], 1);
    assert_eq!(set[1], 2);
    assert_eq!(set[127], 0x80);
    let ones: u32 = set.iter().map(|b| b.count_ones()).sum();
    assert_eq!(ones, 3);
}

#[test]
fn a_cpu_set_round_trips() {
    let mask = AffinityMask::from_cores(&[0, 7, 8, 64, 1023]);
    assert_eq!(decode_cpu_set(&encode_cpu_set(&mask)), mask);
    assert_eq!(decode_cpu_set(&encode_cpu_set(&mask)).cores(), vec![0, 7, 8, 64, 1023]);
}

#[test]
fn pinning_hands_the_kernel_the_bit_set() {
    let mut expected = [0u8; 128];
    expected[0] = 8;
    assert_eq!(
        pin_current_thread(Platform::Linux, 3),
        PinStep::SetAffinity(expected)
    );
}

#[test]
fn a_core_that_the_kernel_cannot_be_given_is_refused() {
    let mask = AffinityMask::from_cores(&[0, 2000, 1500]);
    let refused = PinResult::Failed("core 1500 is beyond the cores that can be pinned to".into());
    assert_eq!(
        pin_current_thread_to_mask(Platform::Linux, &mask),
        PinStep::Done(PinResult::Failed(
            "core 1500 is beyond the cores that can be pinned to".into()
        ))
    );
    assert_eq!(pin_linux(&mask, 0, ""), refused);
    assert_eq!(first_beyond_cpu_set(&mask), Some(1500));
    // The last core with room is handed over.
    let mut expected = [0u8; 128];
    expected[127] = 0x80;
    assert_eq!(pin_current_thread(Platform::Linux, 1023), PinStep::SetAffinity(expected));
    // Where there is room for none, the kernel is left to refuse the empty set.
    assert_eq!(pin_current_thread(Platform::Linux, 1024), PinStep::SetAffinity([0u8; 128]));
    assert_eq!(
        pin_current_thread_to_mask(Platform::Linux, &AffinityMask::from_cores(&[5000, 1024])),
        PinStep::SetAffinity([0u8; 128])
    );
    assert_eq!(
        pin_linux(&AffinityMask::single(1024), -1, "Invalid argument (os error 22)"),
        PinResult::Failed("sched_setaffinity failed: Invalid argument (os error 22)".into())
    );
    // Elsewhere pinning is unsupported for every core.
    assert_eq!(
        pin_current_thread_to_mask(Platform::Other, &mask),
        PinStep::Done(PinResult::Unsupported)
    );
}

#[test]
fn pinning_reports_what_the_kernel_returned() {
    let mask = AffinityMask::single(3);
    assert_eq!(pin_linux(&mask, 0, ""), PinResult::Pinned(AffinityMask::single(3)));
    assert_eq!(
        pin_linux(&mask, -1, "Invalid argument (os error 22)"),
        PinResult::Failed("sched_setaffinity failed: Invalid argument (os error 22)".into())
    );
}

#[test]
fn the_current_affinity_is_what_the_kernel_reported() {
    let mut set = [0u8; 128];
    set[2] = 0b101;
    assert_eq!(
        get_current_affinity(Platform::Linux, 0, &set, ""),
        PinResult::Pinned(AffinityMask::from_cores(&[16, 18]))
    );
    assert_eq!(
        get_current_affinity(Platform::Linux, -1, &set, "no such process"),
        PinResult::Failed("sched_getaffinity failed: no such process".into())
    );
    assert_eq!(get_current_affinity(Platform::Other, 0, &set, ""), PinResult::Unsupported);
}

#[test]
fn a_vcpu_thread_is_named_after_its_guest() {
    let config = VcpuThreadConfig { guest_id: "alpine".into(), vcpu_id: 12, physical_core: 3 };
    assert_eq!(config.thread_name(), "alpine-vcpu12");
}

#[test]
fn online_cpus_count_up_from_zero() {
    assert_eq!(online_cpus(4), vec![0, 1, 2, 3]);
    assert!(online_cpus(0).is_empty());
}

#[test]
fn a_core_is_counted_once() {
    let mut mask = AffinityMask::from_cores(&[3, 5]);
    mask.add(u32::MAX);
    assert_eq!(mask.count(), 3);
    mask.add(5);
    assert_eq!(mask.count(), 3);
    mask.remove(u32::MAX);
    assert_eq!(mask, AffinityMask::from_cores(&[3, 5]));
}
