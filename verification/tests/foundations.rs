use enlil_core::bits::{bits_needed, set_field};
use enlil_core::bytes::{copy_into, get_le16, le32, put_le};
use enlil_core::text::{push_dec, push_hex, push_signed};
use enlil_core::Error;

#[test]
fn a_field_is_replaced_in_place() {
    assert_eq!(set_field(0xFFFF_FFFF, 8, 0xFF, 0x12), 0xFFFF_12FF);
    assert_eq!(set_field(0, 26, 0x3F, 3), 0x0C00_0000);
    // What does not fit in the field is cut off.
    assert_eq!(set_field(0, 0, 0xF, 0x123), 3);
    // Setting it twice leaves the second value, and two fields do not interfere.
    assert_eq!(set_field(set_field(7, 4, 0xF, 9), 4, 0xF, 2), 0x27);
    assert_eq!(
        set_field(set_field(0, 4, 0xF, 9), 8, 0xF, 2),
        set_field(set_field(0, 8, 0xF, 2), 4, 0xF, 9)
    );
}

#[test]
fn numbers_need_their_bits() {
    assert_eq!(
        [0u32, 1, 2, 3, 4, 255, 256, u32::MAX].map(bits_needed),
        [0, 1, 2, 2, 3, 8, 9, 32]
    );
}

#[test]
fn numbers_are_stored_low_byte_first() {
    let mut b = [0xEEu8; 6];
    put_le(&mut b, 1, 0x1234_5678, 4);
    assert_eq!(b, [0xEE, 0x78, 0x56, 0x34, 0x12, 0xEE]);
    assert_eq!(get_le16(&b, 1), 0x5678);
    assert_eq!(le32(0x78, 0x56, 0x34, 0x12), 0x1234_5678);
    copy_into(&mut b, 2, &[1, 2]);
    assert_eq!(b, [0xEE, 0x78, 1, 2, 0x12, 0xEE]);
}

#[test]
fn numbers_are_written_as_usual() {
    let mut s = String::from("n=");
    push_dec(&mut s, 0);
    push_dec(&mut s, 10_203);
    push_hex(&mut s, 0xABC0);
    push_hex(&mut s, 0);
    push_signed(&mut s, -7);
    push_signed(&mut s, i32::MIN);
    assert_eq!(s, "n=0102030xabc00x0-7-2147483648");
}

#[test]
fn errors_say_what_failed() {
    let cases = [
        (Error::Memory("m".into()), "memory error: m"),
        (Error::Vcpu("m".into()), "vcpu error: m"),
        (Error::Vm("m".into()), "vm error: m"),
        (Error::Config("m".into()), "config error: m"),
        (Error::Serial("m".into()), "serial error: m"),
        (Error::Cpuid("m".into()), "cpuid error: m"),
        (Error::HypervisorError("m".into()), "hypervisor error: m"),
    ];
    for (error, text) in cases {
        assert_eq!(error.message(), text);
    }
    let io = std::io::Error::new(std::io::ErrorKind::Other, "disk on fire");
    let error = Error::from(io);
    assert!(matches!(error, Error::Io(_)));
    assert_eq!(error.message(), "io error: disk on fire");
}
