use git_reader::oidmap_trunc::OidMap as TruncOidMap;
use git_reader::oidmap_u128::{OidMap, B13};

#[test]
fn mod_it_works() {
    let mut map = TruncOidMap::<u128, B13>::default();
    assert_eq!(map.len(), 0);
    assert!(map.get_u128(&2).is_none());
    map.insert_u128(2, 2);
    assert_eq!(map.get_u128(&2).unwrap(), &2);
    assert_eq!(map.len(), 1);

    // large keys too
    map.insert_u128(u128::MAX, 3);
    assert_eq!(map.get_u128(&u128::MAX).unwrap(), &3);
    assert_eq!(map.len(), 2);

    // the same entries through the byte-array keys:
    let key1 = [0, 0, 0, 0, 0, 0, 0, 0, 0, 0, 0, 0, 0, 0, 0, 2];
    let key2 = [
        255, 255, 255, 255, 255, 255, 255, 255, 255, 255, 255, 255, 255, 255, 255, 255,
    ];
    assert_eq!(map.get(&key1).unwrap(), &2);
    assert_eq!(map.get(&key2).unwrap(), &3);
}

#[test]
fn oidmap_u128_it_works() {
    let mut map = OidMap::<u128, B13>::default();
    assert_eq!(map.len(), 0);
    assert!(map.get(&2).is_none());
    map.insert(2, 2);
    assert_eq!(map.get(&2).unwrap(), &2);
    assert_eq!(map.len(), 1);

    // large keys too
    map.insert(u128::MAX, 2);
    assert_eq!(map.get(&u128::MAX).unwrap(), &2);
    assert_eq!(map.len(), 2);
}

#[test]
fn oidmap_many_inserts_work() {
    let mut map = OidMap::<usize, 256>::default();
    for i in 0..1000u128 {
        map.insert(i * 0x0101_0101_0101_0101_0101_0101_0101, i as usize);
    }
    assert_eq!(map.len(), 1000);
    for i in 0..1000u128 {
        let got = map.get(&(i * 0x0101_0101_0101_0101_0101_0101_0101)).unwrap();
        assert_eq!(*got, i as usize);
    }
    assert!(map.get(&12345).is_none());
    assert!(map.contains_key(&0));
    assert!(!map.contains_key(&12345));
}

#[test]
fn oidmap_trunc_conversion_round_trip() {
    let v: u128 = 0xdead_beef_0102_0304_0506_0708_090a_0b0c;
    let arr = git_reader::oidmap_trunc::oid_to_trunc(v);
    let back = git_reader::object_id::trunc_oid_to_u128_oid(arr);
    assert_eq!(back, v);
}
