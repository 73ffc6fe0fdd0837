use enlil_core::kvm_backend::KvmBackend;
use enlil_core::vcpu_regs::{GeneralRegs, Segment, SpecialRegs};
use enlil_core::Error;

fn segment(selector: u16) -> Segment {
    Segment {
        base: 0xF_0000,
        limit: 0xFFFF,
        selector,
        type_: 2,
        present: 0,
        dpl: 3,
        db: 0,
        s: 0,
        l: 1,
        g: 0,
        avl: 1,
        unusable: 0,
    }
}

fn sregs() -> SpecialRegs {
    SpecialRegs {
        cs: segment(1),
        ds: segment(2),
        es: segment(3),
        fs: segment(4),
        gs: segment(5),
        ss: segment(6),
        cr0: 0xE000_0010,
        cr3: 0x77,
        cr4: 0x640,
        efer: 0x1,
    }
}

fn regs() -> GeneralRegs {
    GeneralRegs { rip: 1, rflags: 0xFFFF, rsi: 0x55 }
}

fn backend() -> KvmBackend {
    let (mut b, _) = KvmBackend::new_without_irqchip(12).unwrap();
    b.create_vcpu(0);
    b
}

#[test]
fn real_mode_moves_every_segment_to_zero() {
    let (s, r) = backend().prepare_real_mode_vcpu(0, 0x7C00, sregs(), regs()).unwrap();
    for seg in [s.cs, s.ds, s.es, s.fs, s.gs, s.ss] {
        assert_eq!((seg.base, seg.selector, seg.limit, seg.type_, seg.l), (0, 0, 0xFFFF, 2, 1));
    }
    assert_eq!((s.cr0, s.cr3, s.cr4, s.efer), (0xE000_0010, 0x77, 0x640, 0x1));
    assert_eq!(r, GeneralRegs { rip: 0x7C00, rflags: 2, rsi: 0x55 });
}

#[test]
fn protected_mode_is_flat_and_without_paging() {
    let (s, r) = backend().prepare_protected_mode_vcpu(0, 0x1000, sregs(), regs()).unwrap();
    assert_eq!(s.cr0, 0x6000_0011);
    assert_eq!((s.cr3, s.cr4, s.efer), (0x77, 0x640, 0x1));
    assert_eq!(
        s.cs,
        Segment {
            base: 0,
            limit: 0xFFFF_FFFF,
            selector: 8,
            type_: 11,
            present: 1,
            dpl: 0,
            db: 1,
            s: 1,
            l: 0,
            g: 1,
            avl: 1,
            unusable: 0,
        }
    );
    for seg in [s.ds, s.es, s.fs, s.gs, s.ss] {
        assert_eq!((seg.selector, seg.type_, seg.db, seg.l, seg.g), (0x10, 3, 1, 0, 1));
    }
    assert_eq!(r.rip, 0x1000);
}

#[test]
fn long_mode_pages_through_the_given_tables() {
    let (s, _) = backend().prepare_long_mode_vcpu(0, 0x1000, 0x4000, sregs(), regs()).unwrap();
    assert_eq!((s.cr0, s.cr3, s.cr4, s.efer), (0xE000_0011, 0x4000, 0x660, 0x501));
    assert_eq!((s.cs.selector, s.cs.db, s.cs.l), (8, 0, 1));
    assert_eq!((s.ss.selector, s.ss.type_), (0x10, 3));
}

#[test]
fn a_linux_kernel_finds_its_parameters() {
    let (s, r) =
        backend().prepare_linux_boot_vcpu(0, 0x10_0000, 0x1_0000, sregs(), regs()).unwrap();
    assert_eq!((r.rip, r.rsi, r.rflags), (0x10_0000, 0x1_0000, 2));
    assert_eq!(s.cr0 & 0x8000_0001, 1);
    let (s, r) = backend()
        .prepare_linux_boot_vcpu_64(0, 0x10_0200, 0x1_0000, 0x4000, sregs(), regs())
        .unwrap();
    assert_eq!((r.rip, r.rsi), (0x10_0200, 0x1_0000));
    assert_eq!(s.cr3, 0x4000);
}

#[test]
fn preparing_again_replaces() {
    let b = backend();
    let (s, r) = b.prepare_long_mode_vcpu(0, 0x1000, 0x4000, sregs(), regs()).unwrap();
    let again = b.prepare_long_mode_vcpu(0, 0x2000, 0x8000, s, r).unwrap();
    let once = b.prepare_long_mode_vcpu(0, 0x2000, 0x8000, sregs(), regs()).unwrap();
    assert_eq!(again, once);
}

#[test]
fn a_missing_vcpu_cannot_be_prepared() {
    match backend().prepare_real_mode_vcpu(3, 0, sregs(), regs()) {
        Err(Error::Vcpu(m)) => assert_eq!(m, "no vcpu at index 3"),
        _ => panic!("prepared a vCPU that is not there"),
    }
    assert!(backend().prepare_protected_mode_vcpu(1, 0, sregs(), regs()).is_err());
    assert!(backend().prepare_long_mode_vcpu(1, 0, 0, sregs(), regs()).is_err());
}
