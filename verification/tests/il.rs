use lico::il::{Address, LocalAddress, LocalId};

#[test]
fn local_id_round_trip() {
    assert_eq!(LocalId::new(7).as_usize(), 7);
    assert_eq!(LocalId::new(0), LocalId::new(0));
}

#[test]
fn local_address_moves() {
    let mut a = LocalAddress::new(10);
    assert_eq!(a.as_u32(), 10);
    assert_eq!(a.as_usize(), 10);
    a.update_by_offset(5);
    assert_eq!(a.as_u32(), 15);
    a.update_by_offset(-15);
    assert_eq!(a.as_u32(), 0);
    let mut b = LocalAddress::new(u32::MAX);
    b.update_by_offset(i32::MIN);
    assert_eq!(b.as_u32(), u32::MAX - 0x8000_0000);
}

#[test]
fn address_packs_id_and_local() {
    let a = Address::new(1, LocalAddress::new(2));
    let b = Address::new(1, LocalAddress::new(2));
    let c = Address::new(2, LocalAddress::new(1));
    assert_eq!(a, b);
    assert_ne!(a, c);
}
