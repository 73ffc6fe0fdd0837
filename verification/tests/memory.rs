use enlil_core::memory::{align_up, MemoryManager, MemoryMap, MemoryMapEntry, LARGE_PAGE_SIZE};
use enlil_core::Error;

#[test]
fn align_up_basics() {
    assert_eq!(align_up(0, LARGE_PAGE_SIZE), 0);
    assert_eq!(align_up(1, LARGE_PAGE_SIZE), LARGE_PAGE_SIZE);
    assert_eq!(align_up(LARGE_PAGE_SIZE, LARGE_PAGE_SIZE), LARGE_PAGE_SIZE);
    assert_eq!(
        align_up(LARGE_PAGE_SIZE + 1, LARGE_PAGE_SIZE),
        2 * LARGE_PAGE_SIZE
    );
}

#[test]
fn allocate_single_guest() {
    let mut mm = MemoryManager::new(1024, 64);
    let base = mm.allocate("guest1", 128).unwrap();
    assert_eq!(base % LARGE_PAGE_SIZE, 0, "allocation must be 2 MB-aligned");
    assert_eq!(mm.allocated_bytes(), 128 * 1024 * 1024);
    assert_eq!(mm.regions().count(), 1);
}

#[test]
fn allocate_two_guests() {
    let mut mm = MemoryManager::new(32768, 512);
    let base1 = mm.allocate("linux1", 8192).unwrap();
    let base2 = mm.allocate("linux2", 8192).unwrap();
    assert_ne!(base1, base2);
    assert_eq!(base1 % LARGE_PAGE_SIZE, 0);
    assert_eq!(base2 % LARGE_PAGE_SIZE, 0);
    assert_eq!(mm.regions().count(), 2);
}

#[test]
fn reject_overcommit() {
    let mut mm = MemoryManager::new(1024, 256);
    mm.allocate("guest1", 512).unwrap();
    assert!(mm.allocate("guest2", 512).is_err());
}

#[test]
fn reject_duplicate_guest_id() {
    let mut mm = MemoryManager::new(4096, 64);
    mm.allocate("dup", 128).unwrap();
    let err = mm.allocate("dup", 128);
    assert!(err.is_err());
}

#[test]
fn allocation_size_rounded_to_2mb() {
    let mut mm = MemoryManager::new(1024, 0);
    // Request 1 MB - should round up to 2 MB.
    mm.allocate("tiny", 1).unwrap();
    let region = mm.get_region("tiny").unwrap();
    assert_eq!(region.size, LARGE_PAGE_SIZE);
    assert_eq!(region.size % LARGE_PAGE_SIZE, 0);
}

#[test]
fn reserved_bytes_aligned() {
    // 513 MB reserved should round up to 514 MB (next 2 MB boundary).
    let mm = MemoryManager::new(2048, 513);
    let first_usable = mm.next_base;
    assert_eq!(first_usable % LARGE_PAGE_SIZE, 0);
}

#[test]
fn get_region_found() {
    let mut mm = MemoryManager::new(4096, 64);
    let base = mm.allocate("vm-1", 256).unwrap();
    let region = mm.get_region("vm-1").unwrap();
    assert_eq!(region.host_base, base);
    assert_eq!(region.guest_id, "vm-1");
}

#[test]
fn get_region_not_found() {
    let mm = MemoryManager::new(4096, 64);
    assert!(mm.get_region("nonexistent").is_none());
}

#[test]
fn deallocate_frees_memory() {
    let mut mm = MemoryManager::new(1024, 0);
    mm.allocate("temp", 256).unwrap();
    let before = mm.available_bytes();
    mm.deallocate("temp").unwrap();
    let after = mm.available_bytes();
    assert!(after > before);
    assert!(mm.get_region("temp").is_none());
}

#[test]
fn deallocate_nonexistent_errors() {
    let mut mm = MemoryManager::new(1024, 0);
    assert!(mm.deallocate("ghost").is_err());
}

#[test]
fn allocate_after_deallocate_reuses_space() {
    let mut mm = MemoryManager::new(1024, 0);
    let base1 = mm.allocate("first", 256).unwrap();
    mm.deallocate("first").unwrap();
    // The freed slot should be reused.
    let base2 = mm.allocate("second", 256).unwrap();
    assert_eq!(base1, base2, "freed region should be reused");
}

#[test]
fn deallocate_and_reallocate_larger_falls_back_to_bump() {
    let mut mm = MemoryManager::new(2048, 0);
    mm.allocate("a", 128).unwrap();
    let base_b = mm.allocate("b", 128).unwrap();
    mm.deallocate("a").unwrap();
    // Request larger than the freed slot - must bump-allocate past 'b'.
    let base_c = mm.allocate("c", 256).unwrap();
    assert!(base_c > base_b, "larger allocation should go past 'b'");
}

#[test]
fn memory_map_created_on_allocate() {
    let mut mm = MemoryManager::new(4096, 64);
    let base = mm.allocate("mapped", 512).unwrap();
    let mmap = mm.get_memory_map("mapped").unwrap();
    assert_eq!(mmap.guest_id(), "mapped");
    assert_eq!(mmap.entries().len(), 1);
    assert_eq!(mmap.mapped_bytes(), 512 * 1024 * 1024);

    let entry = &mmap.entries()[0];
    assert_eq!(entry.gpa, 0);
    assert_eq!(entry.hpa, base);
}

#[test]
fn memory_map_translate_gpa_to_hpa() {
    let mut mm = MemoryManager::new(4096, 64);
    let base = mm.allocate("xlat", 256).unwrap();
    let mmap = mm.get_memory_map("xlat").unwrap();

    // GPA 0 -> HPA base
    assert_eq!(mmap.translate(0), Some(base));
    // GPA 4096 -> HPA base + 4096
    assert_eq!(mmap.translate(4096), Some(base + 4096));
    // Past the end -> None
    let region_size = 256 * 1024 * 1024;
    assert_eq!(mmap.translate(region_size), None);
}

#[test]
fn memory_map_removed_on_deallocate() {
    let mut mm = MemoryManager::new(4096, 64);
    mm.allocate("ephemeral", 128).unwrap();
    assert!(mm.get_memory_map("ephemeral").is_some());
    mm.deallocate("ephemeral").unwrap();
    assert!(mm.get_memory_map("ephemeral").is_none());
}

#[test]
fn accounting_consistent() {
    let mut mm = MemoryManager::new(1024, 128);
    let total_usable = mm.available_bytes();
    mm.allocate("a", 128).unwrap();
    mm.allocate("b", 256).unwrap();
    let alloc = mm.allocated_bytes();
    let avail = mm.available_bytes();
    assert_eq!(alloc + avail, total_usable);
}

#[test]
fn accounting_after_deallocate() {
    let mut mm = MemoryManager::new(1024, 0);
    let total = mm.available_bytes();
    mm.allocate("x", 128).unwrap();
    mm.deallocate("x").unwrap();
    assert_eq!(mm.available_bytes(), total);
    assert_eq!(mm.allocated_bytes(), 0);
}

#[test]
fn allocate_exact_remaining() {
    let mut mm = MemoryManager::new(256, 0);
    // Should succeed: request exactly what's available.
    mm.allocate("full", 256).unwrap();
    assert_eq!(mm.available_bytes(), 0);
}

#[test]
fn allocate_one_byte_over_fails() {
    // 256 MB total, 0 reserved. Allocate 256 MB, then try 2 more.
    let mut mm = MemoryManager::new(256, 0);
    mm.allocate("full", 256).unwrap();
    assert!(mm.allocate("over", 2).is_err());
}

#[test]
fn zero_size_allocation_rounds_to_large_page() {
    let mut mm = MemoryManager::new(1024, 0);
    // 0 MB requested - align_up(0) == 0, which is a degenerate case.
    // We still get a region of size 0 (no real memory). This is fine;
    // callers should validate size before calling allocate.
    let _base = mm.allocate("zero", 0).unwrap();
    let region = mm.get_region("zero").unwrap();
    assert_eq!(region.size, 0);
}

#[test]
fn free_list_coalescing() {
    let mut mm = MemoryManager::new(2048, 0);
    let _a = mm.allocate("a", 128).unwrap();
    let _b = mm.allocate("b", 128).unwrap();
    let _c = mm.allocate("c", 128).unwrap();

    // Free a and b - they are adjacent and should coalesce.
    mm.deallocate("a").unwrap();
    mm.deallocate("b").unwrap();
    assert_eq!(mm.free_list.len(), 1, "adjacent frees should coalesce");
    assert_eq!(mm.free_list[0].1, 256 * 1024 * 1024);
}

#[test]
fn multiple_guests_isolated_address_spaces() {
    let mut mm = MemoryManager::new(8192, 0);
    let base1 = mm.allocate("g1", 1024).unwrap();
    let base2 = mm.allocate("g2", 1024).unwrap();

    let map1 = mm.get_memory_map("g1").unwrap();
    let map2 = mm.get_memory_map("g2").unwrap();

    // Both guests see GPA 0, but they map to different HPAs.
    assert_eq!(map1.translate(0), Some(base1));
    assert_eq!(map2.translate(0), Some(base2));
    assert_ne!(base1, base2);
}

#[test]
fn page_size_constant() {
    assert_eq!(MemoryManager::page_size(), 2 * 1024 * 1024);
}

#[test]
fn released_memory_merges_whatever_the_order() {
    let mut mm = MemoryManager::new(2048, 0);
    for id in ["a", "b", "c", "d"] {
        mm.allocate(id, 128).unwrap();
    }
    mm.deallocate("a").unwrap();
    mm.deallocate("c").unwrap();
    assert_eq!(mm.free_list.len(), 2);
    mm.deallocate("b").unwrap();
    assert_eq!(mm.free_list, vec![(0, 384 << 20)]);
    // A smaller guest takes the front of the merged slot.
    assert_eq!(mm.allocate("e", 64).unwrap(), 0);
    assert_eq!(mm.free_list, vec![(64 << 20, 320 << 20)]);
}

#[test]
fn what_is_allocated_and_available_adds_up() {
    let mut mm = MemoryManager::new(1024, 100);
    let total = mm.available_bytes();
    assert_eq!(total, 924 << 20);
    mm.allocate("a", 100).unwrap();
    mm.allocate("b", 50).unwrap();
    assert_eq!((mm.allocated_bytes(), mm.available_bytes()), (150 << 20, total - (150 << 20)));
    mm.deallocate("a").unwrap();
    assert_eq!((mm.allocated_bytes(), mm.available_bytes()), (50 << 20, total - (50 << 20)));
}

#[test]
fn refusals_say_why() {
    let mut mm = MemoryManager::new(64, 0);
    mm.allocate("a", 32).unwrap();
    for refused in [mm.allocate("a", 2), mm.allocate("b", 64)] {
        assert!(matches!(refused, Err(Error::Memory(_))));
    }
    assert!(matches!(mm.deallocate("b"), Err(Error::Memory(_))));
    // Nothing was taken by the refused requests.
    assert_eq!(mm.allocated_bytes(), 32 << 20);
    assert_eq!(mm.regions().count(), 1);
}

#[test]
fn a_flat_map_translates_by_offset() {
    let mut map = MemoryMap::new("g");
    map.add(0x1000, 0x9000, 0x1000);
    map.add(0x4000, 0x2000, 0x2000);
    assert_eq!(map.translate(0x1FFF), Some(0x9FFF));
    assert_eq!(map.translate(0x2000), None);
    assert_eq!(map.translate(0x5FFF), Some(0x3FFF));
    assert_eq!(map.translate(0xFFF), None);
    assert_eq!(map.mapped_bytes(), 0x3000);
}

#[test]
fn an_empty_region_still_counts_as_owned() {
    let mut mm = MemoryManager::new(1024, 0);
    assert_eq!(mm.allocate("zero", 0).unwrap(), 0);
    // The next region starts at the same base and displaces nothing.
    assert_eq!(mm.allocate("g", 2).unwrap(), 0);
    assert_eq!(mm.regions().count(), 2);
    assert!(matches!(mm.allocate("zero", 2), Err(Error::Memory(_))));
    assert_eq!(mm.get_region("zero").unwrap().size, 0);
    assert_eq!(mm.get_region("g").unwrap().size, LARGE_PAGE_SIZE);
    assert_eq!(mm.allocated_bytes(), LARGE_PAGE_SIZE);
    mm.deallocate("zero").unwrap();
    assert!(mm.get_memory_map("zero").is_none());
    assert_eq!(mm.get_memory_map("g").unwrap().translate(5), Some(5));
    assert_eq!(mm.allocate("zero", 2).unwrap(), LARGE_PAGE_SIZE);
}

#[test]
fn an_empty_region_blocks_no_free_memory() {
    let mut mm = MemoryManager::new(8, 0);
    mm.allocate("a", 2).unwrap();
    mm.allocate("zero", 0).unwrap();
    mm.allocate("b", 2).unwrap();
    mm.deallocate("a").unwrap();
    mm.deallocate("b").unwrap();
    assert_eq!(mm.free_list, vec![(0, 4 << 20)]);
    // The empty region stands in the middle of the merged slot.
    assert_eq!(mm.get_region("zero").unwrap().host_base, 2 << 20);
    assert_eq!(mm.allocate("c", 4).unwrap(), 0);
    assert_eq!(mm.regions().map(|r| r.guest_id.clone()).collect::<Vec<String>>(), ["c", "zero"]);
    assert_eq!(mm.available_bytes(), 4 << 20);
}

#[test]
fn a_refused_request_changes_nothing() {
    let mut mm = MemoryManager::new(16, 0);
    mm.allocate("a", 4).unwrap();
    mm.allocate("b", 4).unwrap();
    mm.deallocate("a").unwrap();
    let (free, next) = (mm.free_list.clone(), mm.next_base);
    assert!(matches!(mm.allocate("b", 2), Err(Error::Memory(_))));
    assert!(matches!(mm.allocate("c", 10), Err(Error::Memory(_))));
    assert_eq!((mm.free_list.clone(), mm.next_base), (free, next));
    assert!(mm.get_region("c").is_none() && mm.get_memory_map("c").is_none());
}

#[test]
fn without_returns_regions_follow_each_other() {
    let mut mm = MemoryManager::new(64, 5);
    let start = 6 << 20;
    assert_eq!(mm.allocate("a", 3).unwrap(), start);
    assert_eq!(mm.allocate("b", 0).unwrap(), start + (4 << 20));
    assert_eq!(mm.allocate("c", 10).unwrap(), start + (4 << 20));
    assert_eq!(mm.available_bytes(), 44 << 20);
    assert!(matches!(mm.allocate("d", 45), Err(Error::Memory(_))));
    assert_eq!(mm.allocate("d", 44).unwrap(), start + mm.allocated_bytes() - (44 << 20));
    for id in ["a", "b", "c", "d"] {
        mm.deallocate(id).unwrap();
    }
    assert_eq!((mm.allocated_bytes(), mm.available_bytes()), (0, 58 << 20));
}

#[test]
fn a_guest_has_a_map_exactly_while_it_owns_a_region() {
    let mut mm = MemoryManager::new(64, 0);
    for (id, size) in [("a", 4), ("b", 0), ("c", 8)] {
        assert!(mm.get_memory_map(id).is_none());
        let base = mm.allocate(id, size).unwrap();
        let entries = mm.get_memory_map(id).unwrap().entries().to_vec();
        assert_eq!(entries, vec![MemoryMapEntry { gpa: 0, hpa: base, size: size << 20 }]);
    }
    mm.deallocate("b").unwrap();
    assert!(mm.get_region("b").is_none() && mm.get_memory_map("b").is_none());
    assert!(mm.get_region("a").is_some() && mm.get_memory_map("a").is_some());
}

#[test]
fn the_largest_size_that_is_aligned_already_stays() {
    let top = u64::MAX - LARGE_PAGE_SIZE + 1;
    assert_eq!(align_up(top, LARGE_PAGE_SIZE), top);
    let mm = MemoryManager::new(top >> 20, 0);
    assert_eq!(mm.available_bytes(), top);
}
