use git_reader::hex::hex_str_to_u8;
use git_reader::object_id::{
    full_oid_from_str, full_oid_to_u128_oid, get_first_byte_of_oid, hash_object_file_and_folder,
    hash_str_to_oid, hex_u128_to_str, oid_full_to_string, trunc_oid_to_u128_oid, PartialOid,
};

#[test]
fn it_works() {
    assert_eq!(2 + 2, 4);
}

#[test]
fn hash_parsing_works() {
    let folder = "00";
    // since we take a 40 hex char sha1 hash and turn it into
    // a 128bit hash integer, we discard everything after the
    // 30th hex character:
    let file = "00000000000000000000000000000100000000";
    assert!(file.len() == 38);
    let hash = hash_object_file_and_folder(folder, file).unwrap();
    assert_eq!(hash, 1);

    // test big number too:
    let folder = "ff";
    let file = "ffffffffffffffffffffffffffffff00000000";
    assert!(file.len() == 38);
    let hash = hash_object_file_and_folder(folder, file).unwrap();
    assert_eq!(hash, u128::MAX);
    let expected_hex_str = "ffffffffffffffffffffffffffffffff";
    let hex_str = hex_u128_to_str(hash);
    assert_eq!(hex_str, expected_hex_str);
}

#[test]
fn object_id_hash_parsing_works() {
    let folder = "00";
    let file = "00000000000000000000000000000100000000";
    assert!(file.len() == 38);
    let hash = hash_object_file_and_folder(folder, file).unwrap();
    assert_eq!(hash, 1);

    let folder = "ff";
    let file = "ffffffffffffffffffffffffffffff00000000";
    assert!(file.len() == 38);
    let hash = hash_object_file_and_folder(folder, file).unwrap();
    assert_eq!(hash, u128::MAX);
    let expected_hex_str = "ffffffffffffffffffffffffffffffff";
    let hex_str = hex_u128_to_str(hash);
    assert_eq!(hex_str, expected_hex_str);
}

#[test]
fn getting_first_byte_works() {
    let oid_str = "aaf00000000000000000000000000000";
    let oid = hash_str_to_oid(oid_str).unwrap();
    let first_byte = get_first_byte_of_oid(oid);
    // aa == 170
    assert_eq!(first_byte, 170);
}

#[test]
fn oid_hex_round_trip_works() {
    // rendering an identifier and parsing it back recovers it
    let oid: u128 = 0x0123_4567_89ab_cdef_0f1e_2d3c_4b5a_6978;
    let s = hex_u128_to_str(oid);
    assert_eq!(s.len(), 32);
    let back = hash_str_to_oid(&s).unwrap();
    assert_eq!(back, oid);

    let zero = hex_u128_to_str(0);
    assert_eq!(zero, "00000000000000000000000000000000");
    assert_eq!(hash_str_to_oid(&zero).unwrap(), 0);
}

#[test]
fn full_oid_hex_round_trip_works() {
    let mut full = [0u8; 20];
    for (i, b) in full.iter_mut().enumerate() {
        *b = (i as u8) * 7 + 3;
    }
    let s = oid_full_to_string(full);
    assert_eq!(s.len(), 40);
    let back = full_oid_from_str(&s).unwrap();
    assert_eq!(back, full);
}

#[test]
fn full_oid_from_str_rejects_bad_input() {
    assert!(full_oid_from_str("abc").is_none());
    assert!(full_oid_from_str("zzzzzzzzzzzzzzzzzzzzzzzzzzzzzzzzzzzzzzzz").is_none());
}

#[test]
fn trunc_oid_matches_full_oid() {
    let mut full = [0u8; 20];
    full[0] = 0xab;
    full[15] = 0x01;
    full[16] = 0xff; // beyond the truncation boundary
    let mut trunc = [0u8; 16];
    trunc.copy_from_slice(&full[0..16]);
    assert_eq!(trunc_oid_to_u128_oid(trunc), full_oid_to_u128_oid(full));
    assert_eq!(full_oid_to_u128_oid(full) >> 120, 0xab);
}

#[test]
fn partial_oid_matching_works() {
    let a = hash_str_to_oid("abcd1234000000000000000000000000").unwrap();
    let b = hash_str_to_oid("abcd5678000000000000000000000000").unwrap();

    let p = PartialOid::from_hash("abcd").unwrap();
    assert!(p.matches(a));
    assert!(p.matches(b));

    let p1 = PartialOid::from_hash("abcd1").unwrap();
    assert!(p1.matches(a));
    assert!(!p1.matches(b));

    // too short a prefix is rejected
    assert!(PartialOid::from_hash("abc").is_err());
    // non-hex is rejected
    assert!(PartialOid::from_hash("zzzz").is_err());
}

#[test]
fn hex_str_to_u8_accepts_lowercase_pairs_only() {
    assert_eq!(hex_str_to_u8("00"), Some(0x00));
    assert_eq!(hex_str_to_u8("ab"), Some(0xab));
    assert_eq!(hex_str_to_u8("ff"), Some(0xff));
    // only the first two characters are read
    assert_eq!(hex_str_to_u8("ff00"), Some(0xff));
    // uppercase digits are rejected, as are non-digits
    assert_eq!(hex_str_to_u8("AB"), None);
    assert_eq!(hex_str_to_u8("aB"), None);
    assert_eq!(hex_str_to_u8("0G"), None);
    assert_eq!(hex_str_to_u8("zz"), None);
}

#[test]
fn hash_str_to_oid_rejects_short_and_bad() {
    assert!(hash_str_to_oid("abcd").is_err());
    assert!(hash_str_to_oid("zzzzzzzzzzzzzzzzzzzzzzzzzzzzzzzz").is_err());
    // uppercase hex is accepted
    let v = hash_str_to_oid("ABCDEF0000000000000000000000000000000000").unwrap();
    assert_eq!(v >> 104, 0xabcdef);
}
