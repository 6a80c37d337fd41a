use river::addr::mappings::{
    AddressLayout, DirectMapped, Identity, Kernel, Mapping, ACTUAL_PHYSICAL_OFFSET, KERNEL_OFFSET,
};
use river::addr::virt::{canonicalize, decanonicalize, Vpn, Vpns};
use river::addr::{PgOff, Physical, PhysicalConst, PhysicalMut, VirtualConst, VirtualMut};
use river::addr::phys::Ppn;
use river::units::{StorageUnits, GIB, KIB, MIB};

fn layout() -> AddressLayout {
    AddressLayout {
        physical_offset: ACTUAL_PHYSICAL_OFFSET,
        kernel_start: 0x8020_0000,
        kernel_end: 0x8060_0000,
    }
}

#[test]
fn units_nest() {
    assert_eq!(KIB, 1024);
    assert_eq!(MIB, 1_048_576);
    assert_eq!(GIB, 1_073_741_824);
    assert_eq!(4u64.kib(), 4096);
    assert_eq!(2u32.mib(), 0x20_0000);
    assert_eq!(3u64.gib(), 0xC000_0000);
    assert_eq!((-1i64).kib(), -1024);
    assert_eq!(1u64.kib().kib(), 1u64.mib());
    assert_eq!(1u64.mib().kib(), 1u64.gib());
}

#[test]
fn direct_map_inverts() {
    let l = layout();
    let p: PhysicalMut<u8, DirectMapped> = Physical::from_usize(&l, 0x8765_4321);
    let v = p.into_virt(&l);
    assert_eq!(v.into_usize(), 0xFFFF_FFC0_8765_4321);
    assert_eq!(v.into_phys(&l).into_usize(), 0x8765_4321);
}

#[test]
fn kernel_map_inverts() {
    let l = layout();
    let p: PhysicalConst<u8, Kernel> = Physical::from_usize(&l, 0x8020_1234);
    let v = p.into_virt(&l);
    assert_eq!(v.into_usize(), KERNEL_OFFSET + 0x1234);
    assert_eq!(v.into_phys(&l).into_usize(), 0x8020_1234);
}

#[test]
fn identity_map_inverts() {
    let l = layout();
    let p: PhysicalConst<u8, Identity> = Physical::from_usize(&l, 0x1234);
    let v = p.into_virt(&l);
    assert_eq!(v.into_usize(), 0x1234);
    assert_eq!(v.into_phys(&l).into_usize(), 0x1234);
}

#[test]
fn addresses_outside_a_window_are_refused() {
    let l = layout();
    assert!(PhysicalMut::<u8, DirectMapped>::try_from_usize(&l, 0x10_0000_0000).is_none());
    assert!(PhysicalMut::<u8, DirectMapped>::try_from_usize(&l, 0xF_FFFF_FFFF).is_some());
    assert!(VirtualMut::<u8, DirectMapped>::try_from_usize(&l, 0x1000).is_none());
    assert!(VirtualMut::<u8, Kernel>::try_from_usize(&l, KERNEL_OFFSET).is_some());
    assert!(VirtualMut::<u8, Kernel>::try_from_usize(&l, KERNEL_OFFSET - 1).is_none());
    let last: PhysicalMut<u8, DirectMapped> = Physical::from_usize(&l, 0xF_FFFF_F000);
    assert!(last.checked_add(&l, 0xFFF).is_some());
    assert!(last.checked_add(&l, 0x1000).is_none());
    assert!(last.checked_add(&l, u64::MAX).is_none());
    assert_eq!(DirectMapped::paddr_space(&l), 0..0x10_0000_0000);
}

#[test]
fn canonical_addresses() {
    assert_eq!(canonicalize(0x40_0000_0000), 0xFFFF_FFC0_0000_0000);
    assert_eq!(canonicalize(0x3F_FFFF_FFFF), 0x3F_FFFF_FFFF);
    assert_eq!(canonicalize(0x80_0000_0000), 0x80_0000_0000);
    assert_eq!(canonicalize(canonicalize(0x55_5555_5555)), canonicalize(0x55_5555_5555));
    assert_eq!(decanonicalize(0xFFFF_FFC0_0000_0000), 0x40_0000_0000);
    assert_eq!(decanonicalize(canonicalize(0x7F_1234_5678)), 0x7F_1234_5678);
}

#[test]
fn virtual_components() {
    let l = layout();
    let addr: u64 = (3 << 30) + (5 << 21) + (7 << 12) + 9;
    let v: VirtualConst<u8, Identity> = VirtualConst::from_usize(&l, addr);
    let vpns = v.vpns();
    assert_eq!(vpns[0].into_usize(), 3);
    assert_eq!(vpns[1].into_usize(), 5);
    assert_eq!(vpns[2].into_usize(), 7);
    assert_eq!(v.page_offset().into_usize(), 9);
    assert!(!v.is_page_aligned());
    assert_eq!(v.page_align().into_usize(), addr - 9);
    let back: VirtualConst<u8, Identity> =
        VirtualConst::from_components(&l, vpns, Some(PgOff::from_usize_truncate(9)));
    assert_eq!(back.into_usize(), addr);
    let high: VirtualConst<u8, Identity> = VirtualConst::from_components(
        &l,
        [Vpn::from_usize_truncate(256), Vpn::from_usize_truncate(0), Vpn::from_usize_truncate(0)],
        None,
    );
    assert_eq!(high.into_usize(), 0xFFFF_FFC0_0000_0000);
}

#[test]
fn page_numbers_join_and_split() {
    let packed: u32 = (1 << 18) | (2 << 9) | 3;
    let vpns = Vpns::from(packed);
    assert_eq!(vpns.0[0].into_u16(), 1);
    assert_eq!(vpns.0[2].into_u16(), 3);
    assert_eq!(u32::from(vpns), packed);
    assert_eq!(Vpn::from_usize_truncate(512).into_u16(), 0);
}

#[test]
fn physical_components() {
    let l = layout();
    let p: PhysicalConst<u8, Identity> = Physical::from_usize(&l, 0x8020_0ABC);
    assert_eq!(p.ppn().into_usize(), 0x80200);
    assert_eq!(p.page_offset().into_u16(), 0xABC);
    let back: PhysicalConst<u8, Identity> =
        Physical::from_components(&l, p.ppn(), Some(p.page_offset()));
    assert_eq!(back.into_usize(), 0x8020_0ABC);
    let page: PhysicalConst<u8, Identity> =
        Physical::from_components(&l, Ppn::from_usize_truncate(0x80200), None);
    assert!(page.is_page_aligned());
    assert!(PhysicalConst::<u8, Identity>::null().is_null());
}

#[test]
fn addresses_are_ordered() {
    let l = layout();
    let low: PhysicalConst<u8, Identity> = Physical::from_usize(&l, 0x8020_0000);
    let high: PhysicalConst<u8, Identity> = Physical::from_usize(&l, 0x8020_1000);
    assert!(low < high);
    assert!(high > low);
    assert!(low <= low);
    let a: VirtualConst<u8, Identity> = VirtualConst::from_usize(&l, 0x1000);
    let b: VirtualConst<u8, Identity> = VirtualConst::from_usize(&l, 0x2000);
    assert!(a < b);
    assert!(a != b);
}
