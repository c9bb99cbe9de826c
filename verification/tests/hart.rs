use hurricane::hart::KernelHartInfo;
use hurricane::memory::{page_kernel_va, swap_contex_va, swap_cx_vpn, AddressSpaceId, MemorySet, Satp, PAGE_SIZE, SWAP_FRAME_VA};
use hurricane::safe_cell::IntrMaskingInfo;

fn hart(max: usize) -> KernelHartInfo<u32> {
    KernelHartInfo::new(3, AddressSpaceId::from_raw(max))
}

#[test]
fn address_space_id_keeps_low_16_bits() {
    assert_eq!(AddressSpaceId::from_raw(5).into_inner(), 5);
    assert_eq!(AddressSpaceId::from_raw(0x1_0005).into_inner(), 5);
    assert_eq!(AddressSpaceId::from_raw(0xffff).into_inner(), 0xffff);
}

#[test]
fn new_hart_state() {
    let h = hart(4);
    assert_eq!(h.hart_id(), 3);
    assert_eq!(h.current_address_space_id(), AddressSpaceId::from_raw(0));
    assert_eq!(h.current_process(), None);
    assert_eq!(h.get_prev_asid(), 0);
    assert_eq!(h.prev_satp(), None);
}

#[test]
fn load_process_and_address_space() {
    let mut h = hart(4);
    h.load_process(77);
    h.load_address_space_id(AddressSpaceId::from_raw(9));
    assert_eq!(h.current_process(), Some(77));
    assert_eq!(h.current_address_space_id().into_inner(), 9);
}

#[test]
fn alloc_counts_up_to_the_hart_maximum() {
    // 0 is the kernel's: the first number handed out is 1
    let mut h = hart(3);
    assert_eq!(h.alloc_address_space_id().map(|a| a.into_inner()), Some(1));
    assert_eq!(h.alloc_address_space_id().map(|a| a.into_inner()), Some(2));
    assert_eq!(h.alloc_address_space_id().map(|a| a.into_inner()), Some(3));
    assert_eq!(h.alloc_address_space_id(), None);
}

#[test]
fn freed_ids_are_reused_oldest_first() {
    let mut h = hart(3);
    for _ in 0..3 {
        h.alloc_address_space_id();
    }
    h.free_address_space_id(AddressSpaceId::from_raw(2));
    h.free_address_space_id(AddressSpaceId::from_raw(1));
    assert_eq!(h.alloc_address_space_id().map(|a| a.into_inner()), Some(2));
    assert_eq!(h.alloc_address_space_id().map(|a| a.into_inner()), Some(1));
    assert_eq!(h.alloc_address_space_id(), None);
}

#[test]
fn freeing_the_largest_number_lowers_the_counter() {
    let mut h = hart(5);
    h.alloc_address_space_id();
    h.alloc_address_space_id();
    // 1 and 2 handed out: freeing 2, the largest, lowers the counter
    h.free_address_space_id(AddressSpaceId::from_raw(2));
    assert_eq!(h.alloc_address_space_id().map(|a| a.into_inner()), Some(2));
    assert_eq!(h.alloc_address_space_id().map(|a| a.into_inner()), Some(3));
}

#[test]
fn kernel_number_is_never_handed_out() {
    let mut h = hart(2);
    assert_eq!(h.alloc_address_space_id().map(|a| a.into_inner()), Some(1));
    assert_eq!(h.alloc_address_space_id().map(|a| a.into_inner()), Some(2));
    assert_eq!(h.alloc_address_space_id(), None);
}

#[test]
fn mm_sets_register_look_up_and_remove() {
    let mut h = hart(8);
    let a = MemorySet { address_space_id: AddressSpaceId::from_raw(1), satp: Satp(0x8000_0001) };
    let b = MemorySet { address_space_id: AddressSpaceId::from_raw(2), satp: Satp(0x8000_0002) };
    assert!(h.load_user_mm_set(a));
    assert!(h.load_user_mm_set(b));
    assert!(!h.load_user_mm_set(MemorySet { address_space_id: AddressSpaceId::from_raw(1), satp: Satp(5) }));
    assert_eq!(h.user_satp(1), Some(Satp(0x8000_0001)));
    assert_eq!(h.user_satp(2), Some(Satp(0x8000_0002)));
    assert_eq!(h.user_satp(3), None);
    h.set_prev_asid(2);
    assert_eq!(h.get_prev_asid(), 2);
    assert_eq!(h.prev_satp(), Some(Satp(0x8000_0002)));
    assert_eq!(h.unload_user_mm_set(1), Some(a));
    assert_eq!(h.unload_user_mm_set(1), None);
    assert_eq!(h.user_satp(1), None);
    assert!(h.load_user_mm_set(a));
    assert_eq!(a.satp(), Satp(0x8000_0001));
}

#[test]
fn swap_context_pages_count_down_from_the_top() {
    assert_eq!(SWAP_FRAME_VA, usize::MAX - PAGE_SIZE + 1);
    assert_eq!(swap_contex_va(0), SWAP_FRAME_VA);
    assert_eq!(swap_contex_va(2), SWAP_FRAME_VA - 2 * 4096);
    assert_eq!(swap_cx_vpn(1), (SWAP_FRAME_VA - 4096) / 4096);
    assert_eq!(page_kernel_va(0x80200), 0xffff_ffff_c020_0000);
}

#[test]
fn interrupt_masking_nests() {
    let mut info = IntrMaskingInfo::new();
    info.enter(true);
    info.enter(false);
    assert!(!info.exit());
    assert!(info.exit());
    info.enter(false);
    assert!(!info.exit());
}

#[test]
fn deep_masking_restores_only_at_the_outermost_exit() {
    let mut info = IntrMaskingInfo::new();
    info.enter(true);
    info.enter(false);
    info.enter(true);
    assert_eq!(info.nested_level(), 3);
    assert!(!info.exit());
    assert!(!info.exit());
    assert!(info.exit());
    assert_eq!(info.nested_level(), 0);
}

#[test]
fn freed_largest_number_is_handed_out_again() {
    let mut h = hart(2);
    assert_eq!(h.alloc_address_space_id().map(|a| a.into_inner()), Some(1));
    assert_eq!(h.alloc_address_space_id().map(|a| a.into_inner()), Some(2));
    assert_eq!(h.alloc_address_space_id(), None);
    h.free_address_space_id(AddressSpaceId::from_raw(2));
    assert_eq!(h.alloc_address_space_id().map(|a| a.into_inner()), Some(2));
    h.free_address_space_id(AddressSpaceId::from_raw(1));
    assert_eq!(h.alloc_address_space_id().map(|a| a.into_inner()), Some(1));
    assert_eq!(h.alloc_address_space_id(), None);
}
