use git_reader::delta::apply_delta;
use git_reader::error::DbError;
use git_reader::index_file::{open_idx_file_light, IDXVersion};
use git_reader::loose::{decode_object_header, read_raw_object, UnparsedObjectType};
use git_reader::object_database::{classify_matches, find_matching_in_oids, LightObjectDB};
use git_reader::object_id::PartialOid;
use git_reader::pack_file::open_pack_file;
use git_reader::varint::{find_encoded_length, find_negative_offset};
use std::io::Write;

fn zlib(data: &[u8]) -> Vec<u8> {
    let mut enc = flate2::write::ZlibEncoder::new(Vec::new(), flate2::Compression::default());
    enc.write_all(data).unwrap();
    enc.finish().unwrap()
}

fn push_u32_be(v: &mut Vec<u8>, x: u32) {
    v.extend_from_slice(&x.to_be_bytes());
}

#[test]
fn loose_blob_round_trip() {
    // a synthesized loose blob read back returns exactly its payload
    let payload = b"hello";
    let mut decompressed = b"blob 5\0".to_vec();
    decompressed.extend_from_slice(payload);
    let file_bytes = zlib(&decompressed);
    let obj = read_raw_object(&file_bytes, true).unwrap();
    assert_eq!(obj.object_type, UnparsedObjectType::Blob);
    assert_eq!(obj.payload, payload.to_vec());
    assert_eq!(obj.payload.len(), 5);

    // skipping blob bodies yields an empty payload
    let obj2 = read_raw_object(&file_bytes, false).unwrap();
    assert_eq!(obj2.object_type, UnparsedObjectType::Blob);
    assert!(obj2.payload.is_empty());
}

#[test]
fn loose_arbitrary_bytes_round_trip() {
    let payload: Vec<u8> = (0..=255u8).cycle().take(5000).collect();
    let mut decompressed = format!("blob {}\0", payload.len()).into_bytes();
    decompressed.extend_from_slice(&payload);
    let file_bytes = zlib(&decompressed);
    let obj = read_raw_object(&file_bytes, true).unwrap();
    assert_eq!(obj.object_type, UnparsedObjectType::Blob);
    assert_eq!(obj.payload, payload);
}

#[test]
fn loose_header_decoding_works() {
    let d = b"commit 123\0xyz";
    let (ty, sz, he) = decode_object_header(d).unwrap();
    assert_eq!(ty, UnparsedObjectType::Commit);
    assert_eq!(sz, 123);
    assert_eq!(he, 11);

    assert!(decode_object_header(b"blob5\0").is_none());
    assert!(decode_object_header(b"blob x\0").is_none());
    assert!(decode_object_header(b"frog 5\0").is_none());
    assert!(decode_object_header(b"no null here").is_none());
}

#[test]
fn corrupt_loose_stream_is_rejected() {
    let r = read_raw_object(b"this is not zlib data", true);
    assert!(matches!(r, Err(DbError::Corrupt)));
}

#[test]
fn delta_apply_works() {
    // copy "ab", insert "X", copy "def": "abcdef" becomes "abXdef"
    let base = b"abcdef";
    let delta = [0x90u8, 2, 1, b'X', 0x91, 3, 3];
    let out = apply_delta(base, &delta, 6).unwrap();
    assert_eq!(out, b"abXdef".to_vec());

    // opcode zero is illegal
    assert!(apply_delta(base, &[0u8], 0).is_err());
    // a copy past the end of the base is illegal
    let bad = [0x91u8, 5, 9];
    assert!(apply_delta(base, &bad, 9).is_err());
    // a result of the wrong length is illegal
    assert!(apply_delta(base, &delta, 7).is_err());
}

#[test]
fn varint_decoding_works() {
    // single byte
    assert_eq!(find_encoded_length(&[5]), Some((5, 1)));
    // two bytes: 0x85 0x01 = 5 + (1 << 7)
    assert_eq!(find_encoded_length(&[0x85, 0x01]), Some((133, 2)));
    // unterminated
    assert_eq!(find_encoded_length(&[0x85]), None);

    // negative offsets use the biased form
    assert_eq!(find_negative_offset(&[5]), Some((5, 1)));
    // 0x81 0x00 = ((1 + 1) << 7) | 0 = 256
    assert_eq!(find_negative_offset(&[0x81, 0x00]), Some((256, 2)));
    assert_eq!(find_negative_offset(&[0x81]), None);
}

fn build_small_pack(entries: &[Vec<u8>]) -> Vec<u8> {
    let mut pack = b"PACK".to_vec();
    push_u32_be(&mut pack, 2);
    push_u32_be(&mut pack, entries.len() as u32);
    for e in entries {
        pack.extend_from_slice(e);
    }
    // a stand-in trailing digest
    pack.extend_from_slice(&[0u8; 20]);
    pack
}

#[test]
fn pack_header_validation_works() {
    let pack = build_small_pack(&[]);
    let p = open_pack_file(pack, [0u8; 20]).unwrap();
    assert_eq!(p.num_objects, 0);

    assert!(open_pack_file(b"JUNK".to_vec(), [0u8; 20]).is_err());
    let mut bad = b"PACK".to_vec();
    push_u32_be(&mut bad, 9);
    push_u32_be(&mut bad, 0);
    bad.extend_from_slice(&[0u8; 20]);
    assert!(open_pack_file(bad, [0u8; 20]).is_err());
}

#[test]
fn pack_simple_entry_resolves() {
    // one blob entry: type 3, size 6, then the zlib stream
    let mut e0 = vec![0x36u8];
    e0.extend_from_slice(&zlib(b"abcdef"));
    let pack = build_small_pack(&[e0]);
    let p = open_pack_file(pack, [0u8; 20]).unwrap();
    let obj = p.resolve_entry(12).unwrap();
    assert_eq!(obj.object_type, UnparsedObjectType::Blob);
    assert_eq!(obj.payload, b"abcdef".to_vec());
}

#[test]
fn pack_reserved_type_is_unsupported() {
    let e0 = vec![0x50u8];
    let pack = build_small_pack(&[e0]);
    let p = open_pack_file(pack, [0u8; 20]).unwrap();
    assert!(matches!(
        p.get_object_type_and_len_at_index(12),
        Err(DbError::Unsupported)
    ));
}

#[test]
fn pack_offset_delta_chain_resolves() {
    // entry zero: blob "abcdef"; entry one: an offset delta against it
    // whose opcodes produce "abXdef"
    let mut e0 = vec![0x36u8];
    e0.extend_from_slice(&zlib(b"abcdef"));
    let e0_len = e0.len();

    // the delta stream: base size 6, result size 6, copy 2, insert X,
    // copy 3 from offset 3
    let delta_payload = [6u8, 6, 0x90, 2, 1, b'X', 0x91, 3, 3];
    let mut e1 = vec![0x69u8]; // type 6, size 9
    let distance = e0_len; // e1 starts exactly e0_len after e0
    assert!(distance < 128);
    e1.push(distance as u8);
    e1.extend_from_slice(&zlib(&delta_payload));

    let pack = build_small_pack(&[e0, e1]);
    let p = open_pack_file(pack, [0u8; 20]).unwrap();
    let e1_start = 12 + e0_len;
    let obj = p.resolve_entry(e1_start).unwrap();
    assert_eq!(obj.object_type, UnparsedObjectType::Blob);
    assert_eq!(obj.payload, b"abXdef".to_vec());
}

fn build_v2_idx(digests: &[[u8; 20]], offsets: &[u32]) -> Vec<u8> {
    let mut idx = vec![255u8, b't', b'O', b'c'];
    push_u32_be(&mut idx, 2);
    let mut fan = [0u32; 256];
    for d in digests {
        let b = d[0] as usize;
        for f in fan.iter_mut().skip(b) {
            *f += 1;
        }
    }
    for f in fan {
        push_u32_be(&mut idx, f);
    }
    for d in digests {
        idx.extend_from_slice(d);
    }
    for _ in digests {
        push_u32_be(&mut idx, 0); // crc
    }
    for o in offsets {
        push_u32_be(&mut idx, *o);
    }
    idx.extend_from_slice(&[0u8; 40]);
    idx
}

fn digest_with(first: u8, last: u8) -> [u8; 20] {
    let mut d = [0u8; 20];
    d[0] = first;
    d[15] = last;
    d
}

#[test]
fn v2_index_lookup_works() {
    // digests 00..01, 7f..aa, ff..fe
    let d0 = digest_with(0x00, 0x01);
    let d1 = digest_with(0x7f, 0xaa);
    let d2 = digest_with(0xff, 0xfe);
    let idx_bytes = build_v2_idx(&[d0, d1, d2], &[100, 200, 300]);
    let idx = open_idx_file_light(idx_bytes, [0u8; 20]).unwrap();
    assert_eq!(idx.version, IDXVersion::V2);
    assert_eq!(idx.num_objects, 3);

    let target = git_reader::object_id::full_oid_to_u128_oid(d1);
    let i = idx.find_oid_and_fanout_index(target).unwrap();
    assert_eq!(i, 1);
    assert_eq!(idx.find_packfile_index_from_fanout_index(1), Some(200));
    assert_eq!(idx.get_crc32_from_fanout_index(1), Some(0));

    let absent = git_reader::object_id::full_oid_to_u128_oid(digest_with(0x7f, 0xbb));
    assert!(matches!(
        idx.find_oid_and_fanout_index(absent),
        Err(DbError::NotFound)
    ));
    assert!(idx.has_oid(target));
    assert!(!idx.has_oid(absent));
}

#[test]
fn v1_index_lookup_works() {
    // v1 layout: fanout, then [offset][digest] pairs
    let d0 = digest_with(0x10, 0x01);
    let d1 = digest_with(0x20, 0x02);
    let mut idx_bytes = Vec::new();
    let mut fan = [0u32; 256];
    for d in [&d0, &d1] {
        let b = d[0] as usize;
        for f in fan.iter_mut().skip(b) {
            *f += 1;
        }
    }
    for f in fan {
        push_u32_be(&mut idx_bytes, f);
    }
    for (d, off) in [(&d0, 77u32), (&d1, 88u32)] {
        push_u32_be(&mut idx_bytes, off);
        idx_bytes.extend_from_slice(d);
    }
    idx_bytes.extend_from_slice(&[0u8; 40]);
    let idx = open_idx_file_light(idx_bytes, [0u8; 20]).unwrap();
    assert_eq!(idx.version, IDXVersion::V1);
    assert_eq!(idx.num_objects, 2);
    let target = git_reader::object_id::full_oid_to_u128_oid(d1);
    let i = idx.find_oid_and_fanout_index(target).unwrap();
    assert_eq!(i, 1);
    assert_eq!(idx.find_packfile_index_from_fanout_index(1), Some(88));
    assert_eq!(idx.get_crc32_from_fanout_index(1), None);
}

#[test]
fn v2_large_offset_table_works() {
    // an offset-table entry with its high bit set points into the
    // eight-byte large-offset table
    let d0 = digest_with(0x42, 0x01);
    let mut idx_bytes = build_v2_idx(&[d0], &[0x8000_0000]);
    // the trailing 40 checksum bytes sit where the large table must
    // go: rebuild with the large table inserted before them
    idx_bytes.truncate(idx_bytes.len() - 40);
    idx_bytes.extend_from_slice(&0x1_0000_0001u64.to_be_bytes());
    idx_bytes.extend_from_slice(&[0u8; 40]);
    let idx = open_idx_file_light(idx_bytes, [0u8; 20]).unwrap();
    assert_eq!(idx.find_packfile_index_from_fanout_index(0), Some(0x1_0000_0001));
}

#[test]
fn fanout_walk_halts_at_matching_region() {
    // objects with leading bytes 0x70, 0x7f, 0x7f, 0x80; the partial
    // prefix "7f" must see exactly the two 0x7f objects
    let d0 = digest_with(0x70, 1);
    let d1 = digest_with(0x7f, 2);
    let d2 = digest_with(0x7f, 3);
    let d3 = digest_with(0x80, 4);
    let idx_bytes = build_v2_idx(&[d0, d1, d2, d3], &[1, 2, 3, 4]);
    let idx = open_idx_file_light(idx_bytes, [0u8; 20]).unwrap();

    let partial = PartialOid::from_hash("7f00").unwrap();
    let matches = idx.get_partial_matches_with_indices(&partial);
    // "7f00" pins 16 bits, so only 7f00... digests match
    assert_eq!(matches.len(), 2);
    assert_eq!(matches[0].1, 1);
    assert_eq!(matches[1].1, 2);

    let all = idx.walk_all_oids_from(None);
    assert_eq!(all.len(), 4);
    let from_7f = idx.walk_all_oids_from(Some(0x7f));
    assert_eq!(from_7f.len(), 3); // from fanout[0x7e] to the end
}

#[test]
fn ref_delta_through_index_resolves() {
    // a pack holding a blob and a ref delta naming it
    let base_digest = digest_with(0xaa, 0x01);
    let mut e0 = vec![0x36u8];
    e0.extend_from_slice(&zlib(b"abcdef"));
    let e0_len = e0.len();

    let delta_payload = [6u8, 6, 0x90, 2, 1, b'X', 0x91, 3, 3];
    let mut e1 = vec![0x79u8]; // type 7, size 9
    e1.extend_from_slice(&base_digest);
    e1.extend_from_slice(&zlib(&delta_payload));

    let pack_bytes = build_small_pack(&[e0, e1]);
    let pack = open_pack_file(pack_bytes, [0u8; 20]).unwrap();

    let delta_digest = digest_with(0xbb, 0x02);
    let idx_bytes = build_v2_idx(&[base_digest, delta_digest], &[12, 12 + e0_len as u32]);
    let idx = open_idx_file_light(idx_bytes, [0u8; 20]).unwrap();

    let db = LightObjectDB::new("objects").unwrap();
    let target = git_reader::object_id::full_oid_to_u128_oid(delta_digest);
    let obj = db.get_packed_object_from_oid(target, &pack, &idx).unwrap();
    assert_eq!(obj.object_type, UnparsedObjectType::Blob);
    assert_eq!(obj.payload, b"abXdef".to_vec());
}

#[test]
fn find_matching_returns_exact_subset() {
    let a = git_reader::object_id::hash_str_to_oid("abcd1234000000000000000000000000").unwrap();
    let b = git_reader::object_id::hash_str_to_oid("abcd5678000000000000000000000000").unwrap();
    let c = git_reader::object_id::hash_str_to_oid("ffff5678000000000000000000000000").unwrap();
    let oids = vec![a, b, c];

    let p = PartialOid::from_hash("abcd").unwrap();
    let m = find_matching_in_oids(&oids, &p);
    assert_eq!(m, vec![a, b]);

    let p1 = PartialOid::from_hash("abcd1").unwrap();
    let m1 = find_matching_in_oids(&oids, &p1);
    assert_eq!(m1, vec![a]);

    // the ambiguity policy over those matches
    assert!(matches!(classify_matches(&m1), Ok(x) if x == a));
    match classify_matches(&m) {
        Err(DbError::Ambiguous(v)) => assert_eq!(v, vec![a, b]),
        other => panic!("expected an ambiguous result, got {:?}", other),
    }
    let empty: Vec<u128> = Vec::new();
    assert!(matches!(classify_matches(&empty), Err(DbError::NotFound)));
}

#[test]
fn path_building_works() {
    let db = LightObjectDB::new("base").unwrap();
    let (arr, n) = db.get_static_path_str(b"pack");
    let s = std::str::from_utf8(&arr[0..n]).unwrap();
    assert!(s == "base/pack" || s == "base\\pack");

    let hexname = b"0123456789abcdef0123456789abcdef01234567";
    let (arr, n) = db.get_pack_file_str_array_from_hash(hexname);
    let s = std::str::from_utf8(&arr[0..n]).unwrap();
    assert!(s.ends_with("pack-0123456789abcdef0123456789abcdef01234567.pack"));
    assert!(s.starts_with("base"));

    let (arr, n) = db.get_idx_file_str_array_from_hash(hexname);
    let s = std::str::from_utf8(&arr[0..n]).unwrap();
    assert!(s.ends_with("pack-0123456789abcdef0123456789abcdef01234567.idx"));

    let (arr, n) = db.get_loose_folder_str_array(0xce);
    let s = std::str::from_utf8(&arr[0..n]).unwrap();
    assert!(s == "base/ce" || s == "base\\ce");

    // an overlong base path is rejected
    let long = "x".repeat(5000);
    assert!(matches!(
        LightObjectDB::new(&long),
        Err(DbError::Oversize)
    ));
}

#[test]
fn oversize_pack_entry_size_is_rejected() {
    // an entry whose declared size cannot fit the platform's index
    // type: 18 continuation bytes get rejected as corrupt first
    let e0 = vec![0xf6u8, 0xff, 0xff, 0xff, 0xff, 0xff, 0xff, 0xff, 0xff, 0x7f];
    let pack = build_small_pack(&[e0]);
    let p = open_pack_file(pack, [0u8; 20]).unwrap();
    // size = huge, exceeding usize on any platform: resolve reports it
    let r = p.resolve_entry(12);
    assert!(r.is_err());
}
