use enlil_core::ept::{EptError, EptManager, EptMemoryType, EptPermissions, PageSize};
use enlil_core::ept::{PAGE_SIZE_2M, PAGE_SIZE_4K};

#[test]
fn basic_map_and_lookup() {
    let mut ept = EptManager::new("guest1");
    ept.map(0x0, 0x1000_0000, PageSize::Page4K, EptPermissions::rwx(), EptMemoryType::WriteBack).unwrap();
    let m = ept.lookup(0x0).unwrap();
    assert_eq!(m.hpa, 0x1000_0000);
    assert_eq!(m.page_size, PageSize::Page4K);
    assert_eq!(ept.mapping_count(), 1);
}

#[test]
fn map_2mb_page() {
    let mut ept = EptManager::new("guest1");
    ept.map(0x0, 0x0, PageSize::Page2M, EptPermissions::rwx(), EptMemoryType::WriteBack).unwrap();
    assert_eq!(ept.total_mapped_bytes(), PAGE_SIZE_2M);
}

#[test]
fn reject_misaligned_gpa() {
    let mut ept = EptManager::new("guest1");
    let result = ept.map(0x1000, 0x0, PageSize::Page2M, EptPermissions::rwx(), EptMemoryType::WriteBack);
    assert!(matches!(result, Err(EptError::MisalignedGpa { .. })));
}

#[test]
fn reject_duplicate_mapping() {
    let mut ept = EptManager::new("guest1");
    ept.map(0x0, 0x1000_0000, PageSize::Page4K, EptPermissions::rwx(), EptMemoryType::WriteBack).unwrap();
    let result = ept.map(0x0, 0x2000_0000, PageSize::Page4K, EptPermissions::rwx(), EptMemoryType::WriteBack);
    assert!(matches!(result, Err(EptError::AlreadyMapped { .. })));
}

#[test]
fn unmap() {
    let mut ept = EptManager::new("guest1");
    ept.map(0x0, 0x1000_0000, PageSize::Page4K, EptPermissions::rwx(), EptMemoryType::WriteBack).unwrap();
    let removed = ept.unmap(0x0).unwrap();
    assert_eq!(removed.hpa, 0x1000_0000);
    assert_eq!(ept.mapping_count(), 0);
    assert!(ept.lookup(0x0).is_none());
}

#[test]
fn write_protect_and_clear() {
    let mut ept = EptManager::new("guest1");
    ept.map(0x0, 0x1000_0000, PageSize::Page4K, EptPermissions::rwx(), EptMemoryType::WriteBack).unwrap();

    // Write-protect
    ept.ept_set_write_protect(0x0).unwrap();
    assert!(ept.is_write_protected(0x0));
    let m = ept.lookup(0x0).unwrap();
    assert!(!m.effective_permissions().write);
    assert!(m.effective_permissions().read);

    // Clear
    ept.ept_clear_write_protect(0x0).unwrap();
    assert!(!ept.is_write_protected(0x0));
    let m = ept.lookup(0x0).unwrap();
    assert!(m.effective_permissions().write);
}

#[test]
fn write_protect_all_and_clear_all() {
    let mut ept = EptManager::new("guest1");
    for i in 0..10 {
        ept.map(i * PAGE_SIZE_4K, i * PAGE_SIZE_4K + 0x1_0000_0000,
                PageSize::Page4K, EptPermissions::rwx(), EptMemoryType::WriteBack).unwrap();
    }

    let count = ept.write_protect_all();
    assert_eq!(count, 10);
    assert_eq!(ept.stats().write_protected_count, 10);

    // All pages should be write-protected
    for i in 0..10 {
        assert!(ept.is_write_protected(i * PAGE_SIZE_4K));
    }

    let cleared = ept.clear_all_write_protect();
    assert_eq!(cleared, 10);
    assert_eq!(ept.stats().write_protected_count, 0);
}

#[test]
fn dirty_tracking() {
    let mut ept = EptManager::new("guest1");
    ept.map(0x0, 0x1000_0000, PageSize::Page4K, EptPermissions::rwx(), EptMemoryType::WriteBack).unwrap();
    ept.map(PAGE_SIZE_4K, 0x1000_1000, PageSize::Page4K, EptPermissions::rwx(), EptMemoryType::WriteBack).unwrap();

    ept.enable_dirty_tracking();

    // Mark pages dirty
    ept.mark_dirty(0x0).unwrap();
    ept.mark_dirty(PAGE_SIZE_4K).unwrap();
    assert_eq!(ept.dirty_page_count(), 2);

    // Get and clear bitmap
    let mut dirty = ept.ept_get_and_clear_dirty_bitmap();
    dirty.sort_unstable();
    assert_eq!(dirty, vec![0x0, PAGE_SIZE_4K]);
    assert_eq!(ept.dirty_page_count(), 0);

    // Second call should return empty
    let dirty2 = ept.ept_get_and_clear_dirty_bitmap();
    assert!(dirty2.is_empty());
}

#[test]
fn dirty_tracking_disabled_by_default() {
    let mut ept = EptManager::new("guest1");
    ept.map(0x0, 0x1000_0000, PageSize::Page4K, EptPermissions::rwx(), EptMemoryType::WriteBack).unwrap();

    // Marking dirty when tracking is disabled should be a no-op
    ept.mark_dirty(0x0).unwrap();
    assert_eq!(ept.dirty_page_count(), 0);
}

#[test]
fn handle_ept_violation_cow() {
    let mut ept = EptManager::new("guest1");
    ept.map(0x0, 0x1000_0000, PageSize::Page4K, EptPermissions::rwx(), EptMemoryType::WriteBack).unwrap();
    ept.enable_dirty_tracking();
    ept.ept_set_write_protect(0x0).unwrap();

    // Simulate EPT violation: write to write-protected page
    let mapping = ept.handle_ept_violation(0x0, true).unwrap();
    assert_eq!(mapping.hpa, 0x1000_0000);

    // Page should now be dirty and no longer write-protected
    assert!(!ept.is_write_protected(0x0));
    assert_eq!(ept.dirty_page_count(), 1);
}

#[test]
fn map_range_uses_large_pages() {
    let mut ept = EptManager::new("guest1");
    // Map 4MB starting at 0 - should use two 2MB pages
    let pages = ept.map_range(0, 0x1_0000_0000, 4 * 1024 * 1024,
                               EptPermissions::rwx(), EptMemoryType::WriteBack).unwrap();
    assert_eq!(pages, 2);
    assert_eq!(ept.total_mapped_bytes(), 4 * 1024 * 1024);

    // Both should be 2MB pages
    let m0 = ept.lookup(0x0).unwrap();
    assert_eq!(m0.page_size, PageSize::Page2M);
    let m1 = ept.lookup(PAGE_SIZE_2M).unwrap();
    assert_eq!(m1.page_size, PageSize::Page2M);
}

#[test]
fn map_range_falls_back_to_4k() {
    let mut ept = EptManager::new("guest1");
    // Map 8KB at a 4K-aligned but not 2M-aligned address
    let pages = ept.map_range(PAGE_SIZE_4K, 0x1000_1000, 2 * PAGE_SIZE_4K,
                               EptPermissions::rwx(), EptMemoryType::WriteBack).unwrap();
    assert_eq!(pages, 2);
    let m = ept.lookup(PAGE_SIZE_4K).unwrap();
    assert_eq!(m.page_size, PageSize::Page4K);
}

#[test]
fn stats_tracking() {
    let mut ept = EptManager::new("guest1");
    ept.map(0x0, 0x1000_0000, PageSize::Page4K, EptPermissions::rwx(), EptMemoryType::WriteBack).unwrap();
    assert_eq!(ept.stats().map_operations, 1);

    ept.ept_set_write_protect(0x0).unwrap();
    assert_eq!(ept.stats().protect_operations, 1);

    ept.unmap(0x0).unwrap();
    assert_eq!(ept.stats().unmap_operations, 1);
}

#[test]
fn idempotent_write_protect() {
    let mut ept = EptManager::new("guest1");
    ept.map(0x0, 0x1000_0000, PageSize::Page4K, EptPermissions::rwx(), EptMemoryType::WriteBack).unwrap();

    ept.ept_set_write_protect(0x0).unwrap();
    ept.ept_set_write_protect(0x0).unwrap(); // second call is no-op
    assert_eq!(ept.stats().write_protected_count, 1);

    ept.ept_clear_write_protect(0x0).unwrap();
    ept.ept_clear_write_protect(0x0).unwrap(); // second call is no-op
    assert_eq!(ept.stats().write_protected_count, 0);
}

fn page(ept: &mut EptManager, gpa: u64) {
    ept.map(gpa, gpa + 0x1_0000_0000, PageSize::Page4K, EptPermissions::rwx(), EptMemoryType::WriteBack)
        .unwrap();
}

#[test]
fn every_refusal_is_told_apart() {
    let mut ept = EptManager::new("g");
    let perms = EptPermissions::rwx();
    let wb = EptMemoryType::WriteBack;
    let e = ept.map(0x20_0000, 0x1000, PageSize::Page2M, perms, wb).unwrap_err();
    assert!(matches!(e, EptError::MisalignedHpa { .. }));
    assert!(matches!(ept.unmap(0x1000), Err(EptError::NotMapped { .. })));
    assert!(matches!(ept.ept_set_write_protect(0x1000), Err(EptError::NotMapped { .. })));
    assert!(matches!(ept.ept_clear_write_protect(0x1000), Err(EptError::NotMapped { .. })));
    assert!(matches!(ept.handle_ept_violation(0x1000, true), Err(EptError::NotMapped { .. })));
    assert_eq!(ept.mapping_count(), 0);
}

#[test]
fn unmapping_undoes_mapping() {
    let mut ept = EptManager::new("g");
    page(&mut ept, 0x3000);
    let bytes = ept.total_mapped_bytes();
    ept.map(0x40_0000, 0, PageSize::Page2M, EptPermissions::ro(), EptMemoryType::Uncacheable)
        .unwrap();
    assert_eq!(ept.total_mapped_bytes(), bytes + PAGE_SIZE_2M);
    let m = ept.unmap(0x40_0000).unwrap();
    assert_eq!((m.gpa, m.hpa, m.page_size), (0x40_0000, 0, PageSize::Page2M));
    assert_eq!(ept.total_mapped_bytes(), bytes);
    assert_eq!(ept.mapping_count(), 1);
}

#[test]
fn a_page_is_looked_up_by_its_first_address() {
    let mut ept = EptManager::new("g");
    ept.map(0x40_0000, 0x80_0000, PageSize::Page2M, EptPermissions::rwx(), EptMemoryType::WriteBack)
        .unwrap();
    assert_eq!(ept.lookup(0x40_0000).unwrap().hpa, 0x80_0000);
    assert!(ept.lookup(0x40_1000).is_none());
    assert!(ept.lookup(0x60_0000).is_none());
}

#[test]
fn a_write_is_reported_once() {
    let mut ept = EptManager::new("g");
    page(&mut ept, 0);
    page(&mut ept, 0x1000);
    ept.enable_dirty_tracking();
    ept.mark_dirty(0x1000).unwrap();
    ept.mark_dirty(0x1000).unwrap();
    assert_eq!(ept.ept_get_and_clear_dirty_bitmap(), vec![0x1000]);
    assert!(ept.ept_get_and_clear_dirty_bitmap().is_empty());
}

#[test]
fn protection_comes_and_goes_for_all_pages() {
    let mut ept = EptManager::new("g");
    for gpa in [0x1000, 0x2000, 0x5000] {
        page(&mut ept, gpa);
    }
    ept.ept_set_write_protect(0x2000).unwrap();
    assert_eq!(ept.write_protect_all(), 2, "one is protected already");
    let mut pages = ept.write_protected_pages();
    pages.sort_unstable();
    assert_eq!(pages, vec![0x1000, 0x2000, 0x5000]);
    assert_eq!(ept.clear_all_write_protect(), 3);
    assert!(ept.write_protected_pages().is_empty());
    assert!(ept.mappings().all(|m| m.effective_permissions().write));
}

#[test]
fn a_range_is_covered_by_the_largest_pages_that_fit() {
    let mut ept = EptManager::new("g");
    let size = 2 * PAGE_SIZE_2M;
    let pages = ept
        .map_range(0x1F_F000, 0x1F_F000, size, EptPermissions::rwx(), EptMemoryType::WriteBack)
        .unwrap();
    assert_eq!(ept.total_mapped_bytes(), size);
    assert_eq!(pages, ept.mapping_count() as u64);
    assert_eq!(ept.lookup(0x20_0000).unwrap().page_size, PageSize::Page2M);
    assert_eq!(ept.lookup(0x1F_F000).unwrap().page_size, PageSize::Page4K);
    for m in ept.mappings() {
        assert_eq!(m.gpa, m.hpa);
    }
    assert_eq!(ept.lookup(0x5F_E000).unwrap().page_size, PageSize::Page4K);
    assert!(ept.lookup(0x5F_F000).is_none());
}

#[test]
fn a_range_may_end_with_the_address_space() {
    let mut ept = EptManager::new("g");
    let top = u64::MAX - 0x1FFF;
    let pages = ept
        .map_range(top, top, 0x2000, EptPermissions::rwx(), EptMemoryType::WriteBack)
        .unwrap();
    assert_eq!(pages, 2);
    assert!(ept.lookup(u64::MAX - 0xFFF).is_some());
}

#[test]
fn a_range_that_cannot_start_is_refused_whatever_its_size() {
    let mut ept = EptManager::new("g");
    assert_eq!(
        ept.map_range(1, 0, u64::MAX, EptPermissions::rwx(), EptMemoryType::WriteBack),
        Err(EptError::MisalignedGpa { gpa: 1, required_alignment: PAGE_SIZE_4K })
    );
    assert_eq!(ept.mapping_count(), 0);
}

#[test]
fn a_range_ends_at_the_first_page_that_is_mapped_already() {
    let mut ept = EptManager::new("g");
    let (rwx, wb) = (EptPermissions::rwx(), EptMemoryType::WriteBack);
    ept.map(0x20_0000, 0, PageSize::Page4K, rwx, wb).unwrap();
    assert_eq!(
        ept.map_range(0, 0, u64::MAX, rwx, wb),
        Err(EptError::AlreadyMapped { gpa: 0x20_0000 })
    );
    // The pages before it stay.
    assert_eq!(ept.lookup(0).unwrap().page_size, PageSize::Page2M);
    assert_eq!(ept.mapping_count(), 2);
}
