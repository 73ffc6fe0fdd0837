//! Linux `bzImage` boot protocol: the setup header of a kernel image and the
//! boot parameters that the kernel is entered with.
use crate::bytes::{copy_into, get_le16, le_bytes, le_value, overwritten, put_le};
use vstd::prelude::*;
use vstd::slice::slice_subrange;

verus! {

/// Setup header magic `"HdrS"` at offset 0x202.
pub const SETUP_HEADER_MAGIC: [u8; 4] = [0x48, 0x64, 0x72, 0x53];

/// Boot signature at offset 0x1FE of the boot sector.
pub const BOOT_FLAG: u16 = 0xAA55;

/// Where the protected-mode kernel of a big image is loaded.
pub const PROTECTED_MODE_LOAD_ADDR: u64 = 0x10_0000;

/// Size of the boot parameters.
pub const BOOT_PARAMS_SIZE: usize = 4096;

/// Number of memory map entries in the boot parameters.
pub const BP_E820_ENTRIES: usize = 0x1E8;

/// Start of the setup header, in the image and in the boot parameters.
pub const BP_SETUP_HEADER: usize = 0x1F1;

/// End of the setup header.
pub const BP_SETUP_HEADER_END: usize = 0x268;

/// Type of the boot loader.
pub const BP_TYPE_OF_LOADER: usize = 0x210;

/// Load flags; bit 0 is set in an image that is loaded high.
pub const BP_LOADFLAGS: usize = 0x211;

/// Guest address of the initial RAM disk.
pub const BP_RAMDISK_IMAGE: usize = 0x218;

/// Size of the initial RAM disk.
pub const BP_RAMDISK_SIZE: usize = 0x21C;

/// Guest address of the command line.
pub const BP_CMD_LINE_PTR: usize = 0x228;

/// Start of the memory map.
pub const BP_E820_TABLE: usize = 0x2D0;

/// Size of a memory map entry.
pub const E820_ENTRY_SIZE: usize = 20;

/// The boot parameters hold at most this many memory map entries.
pub const MAX_E820_ENTRIES: usize = 128;

/// The type of a boot loader without a number of its own.
pub const LOADER_TYPE_UNDEFINED: u8 = 0xFF;

/// What a setup header says.
#[derive(Debug, Clone, Copy, PartialEq, Eq, Structural)]
pub struct BzImageInfo {
    /// Boot protocol version, major in the high and minor in the low byte.
    pub protocol_version: u16,
    /// Number of 512-byte setup sectors in front of the protected-mode kernel.
    pub setup_sects: u8,
    /// Where in the image the protected-mode kernel begins.
    pub protected_mode_kernel_offset: usize,
}

/// The 16-bit number at `at`.
pub open spec fn le16_at(s: Seq<u8>, at: int) -> nat {
    le_value(s.subrange(at, at + 2))
}

/// The image holds a setup header: it is long enough and has the boot
/// signature and the magic.
pub open spec fn has_setup_header(image: Seq<u8>) -> bool {
    &&& image.len() >= 0x208
    &&& le16_at(image, 0x1FE) == BOOT_FLAG
    &&& image.subrange(0x202, 0x206) == SETUP_HEADER_MAGIC@
}

/// The number of setup sectors; a zero stands for four.
pub open spec fn setup_sectors(image: Seq<u8>) -> u8 {
    if image[0x1F1] == 0 {
        4
    } else {
        image[0x1F1]
    }
}

/// What the setup header of `image` says.
pub open spec fn header_info(image: Seq<u8>) -> BzImageInfo {
    BzImageInfo {
        protocol_version: le16_at(image, 0x206) as u16,
        setup_sects: setup_sectors(image),
        protected_mode_kernel_offset: ((setup_sectors(image) + 1) * 512) as usize,
    }
}

/// Parses the setup header of a kernel image; `None` where the image does not
/// hold one.
#[must_use]
pub fn parse_bzimage_header(image: &[u8]) -> (r: Option<BzImageInfo>)
    ensures
        r == (if has_setup_header(image@) {
            Some(header_info(image@))
        } else {
            None
        }),
{
    if image.len() < 0x208 {
        return None;
    }
    if get_le16(image, 0x1FE) != BOOT_FLAG {
        return None;
    }
    proof {
        let m = image@.subrange(0x202, 0x206);
        assert(m[0] == image@[0x202] && m[1] == image@[0x203] && m[2] == image@[0x204] && m[3]
            == image@[0x205]);
        if m == SETUP_HEADER_MAGIC@ {
            assert(m[0] == 0x48 && m[1] == 0x64 && m[2] == 0x72 && m[3] == 0x53);
        }
    }
    if image[0x202] != 0x48 || image[0x203] != 0x64 || image[0x204] != 0x72 || image[0x205]
        != 0x53 {
        return None;
    }
    assert(image@.subrange(0x202, 0x206) =~= SETUP_HEADER_MAGIC@);
    let protocol_version: u16 = get_le16(image, 0x206);
    let setup_sects: u8 = if image[0x1F1] == 0 { 4 } else { image[0x1F1] };
    let protected_mode_kernel_offset: usize = (setup_sects as usize + 1) * 512;
    Some(BzImageInfo { protocol_version, setup_sects, protected_mode_kernel_offset })
}

/// The image is loaded high: bit 0 of its load flags is set.
pub open spec fn loaded_high(image: Seq<u8>) -> bool {
    image.len() > BP_LOADFLAGS && image[BP_LOADFLAGS as int] % 2 == 1
}

/// Whether the image is loaded high, at [`PROTECTED_MODE_LOAD_ADDR`].
#[must_use]
pub fn is_loaded_high(image: &[u8]) -> (r: bool)
    ensures
        r == loaded_high(image@),
{
    image.len() > BP_LOADFLAGS && image[BP_LOADFLAGS] % 2 == 1
}

/// A memory map entry as the boot parameters hold it: base, size and type.
pub open spec fn e820_entry(e: (u64, u64, u32)) -> Seq<u8> {
    le_bytes(e.0 as nat, 8) + le_bytes(e.1 as nat, 8) + le_bytes(e.2 as nat, 4)
}

/// `s` with the first `n` memory map entries written into it.
pub open spec fn with_e820(s: Seq<u8>, e820: Seq<(u64, u64, u32)>, n: nat) -> Seq<u8>
    decreases n,
{
    if n == 0 {
        s
    } else {
        overwritten(
            with_e820(s, e820, (n - 1) as nat),
            BP_E820_TABLE + (n - 1) * E820_ENTRY_SIZE,
            e820_entry(e820[n - 1]),
        )
    }
}

/// The number of memory map entries that go into the boot parameters.
pub open spec fn e820_count(e820: Seq<(u64, u64, u32)>) -> nat {
    if e820.len() < MAX_E820_ENTRIES {
        e820.len()
    } else {
        MAX_E820_ENTRIES as nat
    }
}

/// The boot parameters for a kernel image: zeros, the setup header of the
/// image, and over it the loader type, the command line, the RAM disk and the
/// memory map.
pub open spec fn boot_params(
    image: Seq<u8>,
    cmd_line_ptr: u32,
    ramdisk_image: u32,
    ramdisk_size: u32,
    e820: Seq<(u64, u64, u32)>,
) -> Seq<u8> {
    let zeros = Seq::new(BOOT_PARAMS_SIZE as nat, |i: int| 0u8);
    let a = overwritten(zeros, 0x1F1, image.subrange(0x1F1, 0x268));
    let b = a.update(0x210, LOADER_TYPE_UNDEFINED);
    let c = overwritten(b, 0x228, le_bytes(cmd_line_ptr as nat, 4));
    let d = overwritten(c, 0x218, le_bytes(ramdisk_image as nat, 4));
    let e = overwritten(d, 0x21C, le_bytes(ramdisk_size as nat, 4));
    let f = e.update(0x1E8, e820_count(e820) as u8);
    with_e820(f, e820, e820_count(e820))
}

/// Writes one memory map entry.
fn put_e820(bp: &mut [u8; 4096], at: usize, e: (u64, u64, u32))
    requires
        at + E820_ENTRY_SIZE <= 4096,
    ensures
        final(bp)@ == overwritten(old(bp)@, at as int, e820_entry(e)),
{
    let ghost before = bp@;
    proof {
        crate::bytes::lemma_le_bytes_len(e.0 as nat, 8);
        crate::bytes::lemma_le_bytes_len(e.1 as nat, 8);
        crate::bytes::lemma_le_bytes_len(e.2 as nat, 4);
    }
    put_le(bp, at, e.0, 8);
    put_le(bp, at + 8, e.1, 8);
    put_le(bp, at + 16, e.2 as u64, 4);
    assert(bp@ =~= overwritten(before, at as int, e820_entry(e)));
}

/// Builds the boot parameters for a kernel image: its setup header, an
/// undefined boot loader, the guest addresses of the command line and of the
/// RAM disk (0 for none) and the memory map, whose entries are base, size and
/// type. Entries beyond [`MAX_E820_ENTRIES`] are left out.
///
/// `None` where the image is too short to hold the setup header.
#[must_use]
pub fn build_boot_params(
    image: &[u8],
    cmd_line_ptr: u32,
    ramdisk_image: u32,
    ramdisk_size: u32,
    e820: &[(u64, u64, u32)],
) -> (r: Option<[u8; 4096]>)
    ensures
        r is Some <==> image@.len() >= BP_SETUP_HEADER_END,
        r matches Some(bp) ==> bp@ == boot_params(
            image@,
            cmd_line_ptr,
            ramdisk_image,
            ramdisk_size,
            e820@,
        ),
{
    if image.len() < BP_SETUP_HEADER_END {
        return None;
    }
    let header: &[u8] = slice_subrange(image, BP_SETUP_HEADER, BP_SETUP_HEADER_END);
    let mut bp: [u8; 4096] = [0u8; 4096];
    assert(bp@ =~= Seq::new(BOOT_PARAMS_SIZE as nat, |i: int| 0u8));
    copy_into(&mut bp, BP_SETUP_HEADER, header);
    bp[BP_TYPE_OF_LOADER] = LOADER_TYPE_UNDEFINED;
    put_le(&mut bp, BP_CMD_LINE_PTR, cmd_line_ptr as u64, 4);
    put_le(&mut bp, BP_RAMDISK_IMAGE, ramdisk_image as u64, 4);
    put_le(&mut bp, BP_RAMDISK_SIZE, ramdisk_size as u64, 4);
    let n: usize = if e820.len() < MAX_E820_ENTRIES { e820.len() } else { MAX_E820_ENTRIES };
    bp[BP_E820_ENTRIES] = n as u8;
    let ghost base = bp@;
    let mut i: usize = 0;
    while i < n
        invariant
            i <= n <= 128,
            n <= e820@.len(),
            base.len() == 4096,
            bp@ == with_e820(base, e820@, i as nat),
        decreases n - i,
    {
        put_e820(&mut bp, BP_E820_TABLE + i * E820_ENTRY_SIZE, e820[i]);
        i = i + 1;
    }
    Some(bp)
}

proof fn lemma_e820_len(e: (u64, u64, u32))
    ensures
        e820_entry(e).len() == 20,
{
    crate::bytes::lemma_le_bytes_len(e.0 as nat, 8);
    crate::bytes::lemma_le_bytes_len(e.1 as nat, 8);
    crate::bytes::lemma_le_bytes_len(e.2 as nat, 4);
}

/// The memory map leaves everything in front of it alone, and its entries lie
/// one behind the other.
proof fn lemma_with_e820(s: Seq<u8>, e820: Seq<(u64, u64, u32)>, n: nat)
    requires
        s.len() == 4096,
        n <= 128,
        n <= e820.len(),
    ensures
        with_e820(s, e820, n).len() == 4096,
        forall|j: int| 0 <= j < 0x2D0 ==> #[trigger] with_e820(s, e820, n)[j] == s[j],
        forall|i: int|
            0 <= i < n ==> with_e820(s, e820, n).subrange(0x2D0 + i * 20, 0x2D0 + i * 20 + 20)
                == e820_entry(#[trigger] e820[i]),
    decreases n,
{
    if n > 0 {
        let m: nat = (n - 1) as nat;
        lemma_with_e820(s, e820, m);
        let p = with_e820(s, e820, m);
        let t = with_e820(s, e820, n);
        lemma_e820_len(e820[m as int]);
        assert forall|i: int| 0 <= i < n implies t.subrange(0x2D0 + i * 20, 0x2D0 + i * 20 + 20)
            == e820_entry(#[trigger] e820[i]) by {
            lemma_e820_len(e820[i]);
            if i < m {
                assert(p.subrange(0x2D0 + i * 20, 0x2D0 + i * 20 + 20) == e820_entry(e820[i]));
                assert(t.subrange(0x2D0 + i * 20, 0x2D0 + i * 20 + 20) =~= p.subrange(
                    0x2D0 + i * 20,
                    0x2D0 + i * 20 + 20,
                ));
            } else {
                assert(t.subrange(0x2D0 + i * 20, 0x2D0 + i * 20 + 20) =~= e820_entry(e820[i]));
            }
        }
    }
}

/// A number that fits in four bytes is read back from them.
proof fn lemma_le32_reads_back(v: u32)
    ensures
        le_bytes(v as nat, 4).len() == 4,
        le_value(le_bytes(v as nat, 4)) == v,
{
    crate::bytes::lemma_le_bytes_len(v as nat, 4);
    crate::bytes::law_le_round_trip(v as nat, 4);
    assert(vstd::arithmetic::power::pow(256, 4) == 0x1_0000_0000) by {
        reveal_with_fuel(vstd::arithmetic::power::pow, 5);
    }
}

/// The kernel reads from the boot parameters what was put there: the loader
/// type, the command line, the RAM disk, the memory map with its length, and
/// for everything else in the setup header the bytes of the image.
pub proof fn law_boot_params_read_back(
    image: Seq<u8>,
    cmd_line_ptr: u32,
    ramdisk_image: u32,
    ramdisk_size: u32,
    e820: Seq<(u64, u64, u32)>,
)
    requires
        image.len() >= BP_SETUP_HEADER_END,
    ensures
        ({
            let bp = boot_params(image, cmd_line_ptr, ramdisk_image, ramdisk_size, e820);
            &&& bp.len() == BOOT_PARAMS_SIZE
            &&& bp[0x210] == LOADER_TYPE_UNDEFINED
            &&& le_value(bp.subrange(0x228, 0x22C)) == cmd_line_ptr
            &&& le_value(bp.subrange(0x218, 0x21C)) == ramdisk_image
            &&& le_value(bp.subrange(0x21C, 0x220)) == ramdisk_size
            &&& bp[0x1E8] == e820_count(e820)
            &&& forall|i: int|
                0x1F1 <= i < 0x268 && i != 0x210 && !(0x218 <= i < 0x220) && !(0x228 <= i < 0x22C)
                    ==> #[trigger] bp[i] == image[i]
            &&& forall|i: int|
                0 <= i < e820_count(e820) ==> bp.subrange(0x2D0 + i * 20, 0x2D0 + i * 20 + 20)
                    == e820_entry(#[trigger] e820[i])
        }),
{
    let zeros = Seq::new(BOOT_PARAMS_SIZE as nat, |i: int| 0u8);
    let a = overwritten(zeros, 0x1F1, image.subrange(0x1F1, 0x268));
    let b = a.update(0x210, LOADER_TYPE_UNDEFINED);
    let c = overwritten(b, 0x228, le_bytes(cmd_line_ptr as nat, 4));
    let d = overwritten(c, 0x218, le_bytes(ramdisk_image as nat, 4));
    let e = overwritten(d, 0x21C, le_bytes(ramdisk_size as nat, 4));
    let f = e.update(0x1E8, e820_count(e820) as u8);
    let bp = with_e820(f, e820, e820_count(e820));
    lemma_le32_reads_back(cmd_line_ptr);
    lemma_le32_reads_back(ramdisk_image);
    lemma_le32_reads_back(ramdisk_size);
    lemma_with_e820(f, e820, e820_count(e820));
    assert(bp.subrange(0x228, 0x22C) =~= le_bytes(cmd_line_ptr as nat, 4));
    assert(bp.subrange(0x218, 0x21C) =~= le_bytes(ramdisk_image as nat, 4));
    assert(bp.subrange(0x21C, 0x220) =~= le_bytes(ramdisk_size as nat, 4));
}

/// An image holds a setup header exactly if it is long enough, ends its boot
/// sector with 0x55 0xAA and spells "HdrS" at 0x202; the header then gives the
/// protocol version, and the kernel begins behind the boot sector and the setup
/// sectors, of which zero stands for four.
pub proof fn law_header_says_where_the_kernel_begins(image: Seq<u8>)
    ensures
        has_setup_header(image) <==> {
            &&& image.len() >= 0x208
            &&& image[0x1FE] == 0x55 && image[0x1FF] == 0xAA
            &&& image[0x202] == 0x48 && image[0x203] == 0x64 && image[0x204] == 0x72
                && image[0x205] == 0x53
        },
        has_setup_header(image) ==> {
            let info = header_info(image);
            &&& info.protocol_version == image[0x206] + 256 * image[0x207]
            &&& info.setup_sects == (if image[0x1F1] == 0 {
                4
            } else {
                image[0x1F1] as int
            })
            &&& info.protected_mode_kernel_offset == 512 + 512 * info.setup_sects
        },
{
    if image.len() >= 0x208 {
        reveal_with_fuel(le_value, 3);
        let a = image.subrange(0x1FE, 0x200);
        let b = image.subrange(0x206, 0x208);
        assert(a.drop_first()[0] == image[0x1FF] && a[0] == image[0x1FE]);
        assert(b.drop_first()[0] == image[0x207] && b[0] == image[0x206]);
        let m = image.subrange(0x202, 0x206);
        assert(m[0] == image[0x202] && m[1] == image[0x203] && m[2] == image[0x204] && m[3]
            == image[0x205]);
        if image[0x202] == 0x48 && image[0x203] == 0x64 && image[0x204] == 0x72 && image[0x205]
            == 0x53 {
            assert(m =~= SETUP_HEADER_MAGIC@);
        }
    }
}

/// The base, the size and the type of a memory map entry are read back from it,
/// in this order.
pub proof fn law_e820_entry_reads_back(base: u64, size: u64, kind: u32)
    ensures
        ({
            let e = e820_entry((base, size, kind));
            &&& e.len() == 20
            &&& le_value(e.subrange(0, 8)) == base
            &&& le_value(e.subrange(8, 16)) == size
            &&& le_value(e.subrange(16, 20)) == kind
        }),
{
    let e = e820_entry((base, size, kind));
    lemma_e820_len((base, size, kind));
    crate::bytes::lemma_le_bytes_len(base as nat, 8);
    crate::bytes::lemma_le_bytes_len(size as nat, 8);
    crate::bytes::law_le_round_trip(base as nat, 8);
    crate::bytes::law_le_round_trip(size as nat, 8);
    assert(vstd::arithmetic::power::pow(256, 8) == 0x1_0000_0000_0000_0000) by {
        reveal_with_fuel(vstd::arithmetic::power::pow, 9);
    }
    lemma_le32_reads_back(kind);
    assert(e.subrange(0, 8) =~= le_bytes(base as nat, 8));
    assert(e.subrange(8, 16) =~= le_bytes(size as nat, 8));
    assert(e.subrange(16, 20) =~= le_bytes(kind as nat, 4));
}

/// Number `i` of the memory map entries in boot parameters: base, size and type.
pub open spec fn map_entry(params: Seq<u8>, i: int) -> (nat, nat, nat) {
    let at = 0x2D0 + 20 * i;
    (
        le_value(params.subrange(at, at + 8)),
        le_value(params.subrange(at + 8, at + 16)),
        le_value(params.subrange(at + 16, at + 20)),
    )
}

/// The kernel reads the memory map that was given, as far as there is room for
/// 128 entries, and its length; the loader has no number of its own; and what
/// nothing was put into is zero.
pub proof fn law_boot_params_spell_the_memory_map(
    image: Seq<u8>,
    cmd_line_ptr: u32,
    ramdisk_image: u32,
    ramdisk_size: u32,
    e820: Seq<(u64, u64, u32)>,
)
    requires
        image.len() >= 0x268,
    ensures
        ({
            let bp = boot_params(image, cmd_line_ptr, ramdisk_image, ramdisk_size, e820);
            &&& bp.len() == 4096
            &&& bp[0x210] == 0xFF
            &&& e820.len() <= 128 ==> bp[0x1E8] == e820.len()
            &&& e820.len() > 128 ==> bp[0x1E8] == 128
            &&& forall|i: int|
                0 <= i < bp[0x1E8] ==> map_entry(bp, i) == (
                    (#[trigger] e820[i]).0 as nat,
                    e820[i].1 as nat,
                    e820[i].2 as nat,
                )
            &&& forall|i: int|
                0 <= i < 0x2D0 && i != 0x1E8 && !(0x1F1 <= i < 0x268) ==> #[trigger] bp[i] == 0
            &&& forall|i: int| 0x2D0 + 20 * bp[0x1E8] <= i < 4096 ==> #[trigger] bp[i] == 0
        }),
{
    let bp = boot_params(image, cmd_line_ptr, ramdisk_image, ramdisk_size, e820);
    law_boot_params_read_back(image, cmd_line_ptr, ramdisk_image, ramdisk_size, e820);
    assert forall|i: int| 0 <= i < bp[0x1E8] implies map_entry(bp, i) == (
        (#[trigger] e820[i]).0 as nat,
        e820[i].1 as nat,
        e820[i].2 as nat,
    ) by {
        let at = 0x2D0 + i * 20;
        let e = bp.subrange(at, at + 20);
        assert(e == e820_entry(e820[i]));
        law_e820_entry_reads_back(e820[i].0, e820[i].1, e820[i].2);
        assert(bp.subrange(at, at + 8) =~= e.subrange(0, 8));
        assert(bp.subrange(at + 8, at + 16) =~= e.subrange(8, 16));
        assert(bp.subrange(at + 16, at + 20) =~= e.subrange(16, 20));
    }
    let zeros = Seq::new(BOOT_PARAMS_SIZE as nat, |i: int| 0u8);
    let a = overwritten(zeros, 0x1F1, image.subrange(0x1F1, 0x268));
    let b = a.update(0x210, LOADER_TYPE_UNDEFINED);
    let c = overwritten(b, 0x228, le_bytes(cmd_line_ptr as nat, 4));
    let d = overwritten(c, 0x218, le_bytes(ramdisk_image as nat, 4));
    let e = overwritten(d, 0x21C, le_bytes(ramdisk_size as nat, 4));
    let f = e.update(0x1E8, e820_count(e820) as u8);
    lemma_le32_reads_back(cmd_line_ptr);
    lemma_le32_reads_back(ramdisk_image);
    lemma_le32_reads_back(ramdisk_size);
    lemma_with_e820(f, e820, e820_count(e820));
    lemma_e820_leaves_the_rest(f, e820, e820_count(e820));
}

proof fn lemma_e820_leaves_the_rest(s: Seq<u8>, e820: Seq<(u64, u64, u32)>, n: nat)
    requires
        s.len() == 4096,
        n <= 128,
        n <= e820.len(),
    ensures
        with_e820(s, e820, n).len() == 4096,
        forall|j: int| 0x2D0 + 20 * n <= j < 4096 ==> #[trigger] with_e820(s, e820, n)[j] == s[j],
    decreases n,
{
    if n > 0 {
        lemma_e820_leaves_the_rest(s, e820, (n - 1) as nat);
        lemma_e820_len(e820[n - 1]);
    }
}

/// An image is loaded high exactly if bit 0 of byte 0x211 is set.
pub proof fn law_loaded_high_is_bit_0(image: Seq<u8>)
    ensures
        loaded_high(image) <==> image.len() > 0x211 && image[0x211] % 2 == 1,
{
}

} // verus!
