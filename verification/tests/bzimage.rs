use enlil_core::bzimage::{build_boot_params, is_loaded_high, parse_bzimage_header};
use enlil_core::bzimage::{BOOT_FLAG, LOADER_TYPE_UNDEFINED, SETUP_HEADER_MAGIC};

/// Build a minimal, valid `bzImage`-like header: boot signature, `"HdrS"`
/// magic, a protocol version, and a `setup_sects` count.
fn header(setup_sects: u8, version: u16) -> Vec<u8> {
    let mut img = vec![0u8; 0x208];
    img[0x1F1] = setup_sects;
    img[0x1FE..0x200].copy_from_slice(&BOOT_FLAG.to_le_bytes());
    img[0x202..0x206].copy_from_slice(&SETUP_HEADER_MAGIC);
    img[0x206..0x208].copy_from_slice(&version.to_le_bytes());
    img
}

#[test]
fn parses_a_valid_header() {
    let info = parse_bzimage_header(&header(4, 0x020F)).expect("valid header");
    assert_eq!(info.protocol_version, 0x020F);
    assert_eq!(info.setup_sects, 4);
    // (4 + 1) * 512 = 0xA00.
    assert_eq!(info.protected_mode_kernel_offset, 0xA00);
}

#[test]
fn setup_sects_zero_normalizes_to_four() {
    let info = parse_bzimage_header(&header(0, 0x0200)).unwrap();
    assert_eq!(info.setup_sects, 4, "legacy 0 means 4 setup sectors");
    assert_eq!(info.protected_mode_kernel_offset, 0xA00);
}

#[test]
fn builds_boot_params_with_header_cmdline_and_e820() {
    // A header big enough to hold the full setup-header region, with a couple
    // of recognizable field values to prove the copy.
    let mut img = vec![0u8; 0x300];
    img[0x1FE..0x200].copy_from_slice(&BOOT_FLAG.to_le_bytes());
    img[0x202..0x206].copy_from_slice(&SETUP_HEADER_MAGIC);
    img[0x206..0x208].copy_from_slice(&0x020Fu16.to_le_bytes());
    img[0x1F1] = 0x04; // setup_sects
    img[0x211] = 0x81; // loadflags - a header field that must survive the copy

    let bp = build_boot_params(
        &img,
        0x9_0000,
        0x800_0000,
        0x20_0000,
        &[(0, 0xA_0000, 1), (0x10_0000, 0x1000_0000, 1)],
    )
    .expect("header long enough");

    // Setup-header fields copied verbatim.
    assert_eq!(bp[0x1F1], 0x04, "setup_sects copied");
    assert_eq!(bp[0x211], 0x81, "loadflags copied");
    // Overrides applied after the copy.
    assert_eq!(bp[0x210], LOADER_TYPE_UNDEFINED, "type_of_loader set");
    assert_eq!(
        u32::from_le_bytes(bp[0x228..0x22C].try_into().unwrap()),
        0x9_0000,
        "cmd_line_ptr set"
    );
    assert_eq!(
        u32::from_le_bytes(bp[0x218..0x21C].try_into().unwrap()),
        0x800_0000,
        "ramdisk_image set"
    );
    assert_eq!(
        u32::from_le_bytes(bp[0x21C..0x220].try_into().unwrap()),
        0x20_0000,
        "ramdisk_size set"
    );
    // E820 map: two entries, first is [0, 0xA0000) usable.
    assert_eq!(bp[0x1E8], 2, "e820_entries count");
    assert_eq!(u64::from_le_bytes(bp[0x2D0..0x2D8].try_into().unwrap()), 0);
    assert_eq!(
        u64::from_le_bytes(bp[0x2D8..0x2E0].try_into().unwrap()),
        0xA_0000
    );
    assert_eq!(u32::from_le_bytes(bp[0x2E0..0x2E4].try_into().unwrap()), 1);
}

#[test]
fn build_boot_params_rejects_a_short_image() {
    assert!(build_boot_params(&[0u8; 0x100], 0, 0, 0, &[]).is_none());
}

#[test]
fn rejects_a_non_kernel_image() {
    // Right length but no boot signature / magic.
    assert!(parse_bzimage_header(&vec![0u8; 0x208]).is_none());

    // Boot signature but wrong magic.
    let mut img = header(1, 0x0200);
    img[0x202..0x206].copy_from_slice(b"XXXX");
    assert!(parse_bzimage_header(&img).is_none());

    // Too short.
    assert!(parse_bzimage_header(&[0u8; 16]).is_none());
}

#[test]
fn a_kernel_says_whether_it_is_loaded_high() {
    let mut img = header(1, 0x020F);
    img.resize(0x300, 0);
    assert!(!is_loaded_high(&img));
    img[0x211] = 0x81;
    assert!(is_loaded_high(&img));
    assert!(!is_loaded_high(&[0xFF; 0x211]));
}

#[test]
fn the_memory_map_is_cut_off_at_its_end() {
    let img = vec![0u8; 0x300];
    let map: Vec<(u64, u64, u32)> = (0..130).map(|i| (i, 1, 1)).collect();
    let bp = build_boot_params(&img, 1, 2, 3, &map).unwrap();
    assert_eq!(bp[0x1E8], 128);
    let last = 0x2D0 + 127 * 20;
    assert_eq!(u64::from_le_bytes(bp[last..last + 8].try_into().unwrap()), 127);
    assert!(bp[last + 20..].iter().all(|&b| b == 0));
}
