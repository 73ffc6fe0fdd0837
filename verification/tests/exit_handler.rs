use enlil_core::exit_handler::complete_read;

#[test]
fn io_in_from_unmapped_port_floats_high() {
    let mut buf = [0u8; 2];
    complete_read(false, &mut buf);
    assert_eq!(buf, [0xff, 0xff]);
}

#[test]
fn mmio_read_from_unmapped_address_floats_high() {
    let mut buf = [0u8; 4];
    complete_read(false, &mut buf);
    assert_eq!(buf, [0xff; 4]);
}

#[test]
fn a_device_answer_is_kept() {
    let mut buf = [0x42u8; 3];
    complete_read(true, &mut buf);
    assert_eq!(buf, [0x42; 3]);
}
