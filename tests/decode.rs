use smmstore::detect::{decode, detect_format, Format, Store};
use smmstore::guid::Guid;
use smmstore::header::{
    AuthenticatedVariableHeader, DecodeError, FvbHeader, VariableStoreHeader,
    AUTHENTICATED_VARIABLE_HEADER_SIZE, FVB_HEADER_SIZE, VARIABLE_STORE_HEADER_SIZE,
};
use smmstore::key::{decode_name, name_chars, split_key, v1_entry_shown};
use smmstore::varmap::{compare, VarMap};
use smmstore::walker::{deserialize_v1, deserialize_v2, Variable};
use std::cmp::Ordering;

const NV_FV_GUID: [u8; 16] = [
    0x8d, 0x2b, 0xf1, 0xff, 0x96, 0x76, 0x8b, 0x4c, 0xa9, 0x85, 0x27, 0x47, 0x07, 0x5b, 0x4f, 0x50,
];
const AUTH_VAR_GUID: [u8; 16] = [
    0x78, 0x2c, 0xf3, 0xaa, 0x7b, 0x94, 0x9a, 0x43, 0xa1, 0x80, 0x2e, 0x14, 0x4e, 0xc3, 0x77, 0x92,
];

fn v1_record(key: &[u8], value: &[u8]) -> Vec<u8> {
    let mut out = Vec::new();
    out.extend_from_slice(&(key.len() as u32).to_le_bytes());
    out.extend_from_slice(&(value.len() as u32).to_le_bytes());
    out.extend_from_slice(key);
    out.extend_from_slice(value);
    out.push(0);
    while out.len() % 4 != 0 {
        out.push(0);
    }
    out
}

fn entries(m: &VarMap<Vec<u8>>) -> Vec<(Vec<u8>, Vec<u8>)> {
    (0..m.len()).map(|i| {
        let (k, v) = m.entry(i);
        (k.clone(), v.clone())
    }).collect()
}

fn fvb_header_bytes() -> Vec<u8> {
    let mut h = vec![0u8; FVB_HEADER_SIZE];
    h[16..32].copy_from_slice(&NV_FV_GUID);
    h[32..40].copy_from_slice(&0x0004_0000u64.to_le_bytes());
    h[40..44].copy_from_slice(b"_FVH");
    h[44..48].copy_from_slice(&0x0004_feffu32.to_le_bytes());
    h[48..50].copy_from_slice(&0x48u16.to_le_bytes());
    h[55] = 2;
    h[56..60].copy_from_slice(&4u32.to_le_bytes());
    h[60..64].copy_from_slice(&0x1000u32.to_le_bytes());
    h
}

fn v2_record(start_id: u16, guid: [u8; 16], name: &[u8], data: &[u8]) -> Vec<u8> {
    let mut r = vec![0u8; AUTHENTICATED_VARIABLE_HEADER_SIZE];
    r[0..2].copy_from_slice(&start_id.to_le_bytes());
    r[2] = 0x3f;
    r[4..8].copy_from_slice(&7u32.to_le_bytes());
    r[36..40].copy_from_slice(&(name.len() as u32).to_le_bytes());
    r[40..44].copy_from_slice(&(data.len() as u32).to_le_bytes());
    r[44..60].copy_from_slice(&guid);
    r.extend_from_slice(name);
    r.extend_from_slice(data);
    while r.len() % 4 != 0 {
        r.push(0xff);
    }
    r
}

fn v2_store(records: &[Vec<u8>]) -> Vec<u8> {
    let mut d = fvb_header_bytes();
    let mut vs = vec![0u8; VARIABLE_STORE_HEADER_SIZE];
    vs[0..16].copy_from_slice(&AUTH_VAR_GUID);
    vs[16..20].copy_from_slice(&0x1000u32.to_le_bytes());
    d.extend_from_slice(&vs);
    for r in records {
        d.extend_from_slice(r);
    }
    d.extend_from_slice(&[0xffu8; 64]);
    d
}

#[test]
fn end_to_end_single_record_then_sentinel() {
    let data = [4, 0, 0, 0, 2, 0, 0, 0, b'A', b'B', b'C', b'D', 0xAA, 0xBB, 0, 0xFF, 0xFF, 0xFF, 0xFF];
    let m = deserialize_v1(&data);
    assert_eq!(entries(&m), vec![(b"ABCD".to_vec(), vec![0xAA, 0xBB])]);
    let (k, v) = m.entry(0);
    assert!(!v1_entry_shown(k, v));
    assert!(split_key(k).is_none());
}

#[test]
fn zero_keysize_stops_decoding() {
    let mut data = v1_record(b"first", &[1, 2, 3]);
    data.extend_from_slice(&[0, 0, 0, 0, 5, 0, 0, 0]);
    data.extend_from_slice(&v1_record(b"hidden", &[9]));
    let m = deserialize_v1(&data);
    assert_eq!(entries(&m), vec![(b"first".to_vec(), vec![1, 2, 3])]);
}

#[test]
fn erased_keysize_stops_decoding() {
    let mut data = v1_record(b"first", &[1]);
    data.extend_from_slice(&v1_record(b"second", &[2, 2]));
    data.extend_from_slice(&[0xff; 8]);
    data.extend_from_slice(&v1_record(b"hidden", &[9]));
    let m = deserialize_v1(&data);
    assert_eq!(
        entries(&m),
        vec![(b"first".to_vec(), vec![1]), (b"second".to_vec(), vec![2, 2])]
    );
}

#[test]
fn record_with_three_byte_key_is_followed_at_next_multiple_of_four() {
    // 8 header bytes + 3 + 1 + delimiter = 13, so the next record starts at 16.
    let mut data = vec![3, 0, 0, 0, 1, 0, 0, 0, b'k', b'e', b'y', 0x42, 0, 0xEE, 0xEE, 0xEE];
    assert_eq!(data.len(), 16);
    data.extend_from_slice(&v1_record(b"next", &[7]));
    let m = deserialize_v1(&data);
    assert_eq!(
        entries(&m),
        vec![(b"key".to_vec(), vec![0x42]), (b"next".to_vec(), vec![7])]
    );
}

#[test]
fn later_record_replaces_earlier_with_same_key() {
    let mut data = v1_record(b"var", &[1]);
    data.extend_from_slice(&v1_record(b"other", &[5]));
    data.extend_from_slice(&v1_record(b"var", &[2, 3]));
    let m = deserialize_v1(&data);
    assert_eq!(
        entries(&m),
        vec![(b"other".to_vec(), vec![5]), (b"var".to_vec(), vec![2, 3])]
    );
}

#[test]
fn keys_come_out_in_byte_order() {
    let mut data = Vec::new();
    for k in [&b"zeta"[..], b"ab", b"abc", b"a", b"\x00x"] {
        data.extend_from_slice(&v1_record(k, &[k.len() as u8]));
    }
    let m = deserialize_v1(&data);
    let keys: Vec<Vec<u8>> = entries(&m).into_iter().map(|(k, _)| k).collect();
    assert_eq!(
        keys,
        vec![b"\x00x".to_vec(), b"a".to_vec(), b"ab".to_vec(), b"abc".to_vec(), b"zeta".to_vec()]
    );
}

#[test]
fn round_trip_of_written_records() {
    let recs: Vec<(Vec<u8>, Vec<u8>)> = vec![
        (vec![1; 20], vec![]),
        (b"name".to_vec(), vec![0xff; 33]),
        (vec![0], vec![0, 0, 0]),
    ];
    let mut data = Vec::new();
    for (k, v) in &recs {
        data.extend_from_slice(&v1_record(k, v));
    }
    let m = deserialize_v1(&data);
    let mut expected = recs.clone();
    expected.sort();
    assert_eq!(entries(&m), expected);
}

#[test]
fn truncated_buffers_decode_to_a_prefix() {
    let mut data = v1_record(b"one", &[1, 1]);
    data.extend_from_slice(&v1_record(b"two", &[2, 2, 2]));
    data.extend_from_slice(&v1_record(b"three", &[3]));
    let full = entries(&deserialize_v1(&data));
    for n in 0..=data.len() {
        let part = entries(&deserialize_v1(&data[..n]));
        for p in &part {
            assert!(full.contains(p));
        }
        assert!(part.len() <= full.len());
    }
    assert!(entries(&deserialize_v1(&data[..7])).is_empty());
}

#[test]
fn value_reaching_the_end_is_not_decoded() {
    // keysize + valsize end exactly at the buffer's end: no room for the delimiter.
    let data = [1, 0, 0, 0, 2, 0, 0, 0, b'k', 1, 2];
    assert_eq!(deserialize_v1(&data).len(), 0);
    let data = [1, 0, 0, 0, 2, 0, 0, 0, b'k', 1, 2, 0];
    assert_eq!(deserialize_v1(&data).len(), 1);
}

#[test]
fn huge_sizes_do_not_overflow() {
    let data = [0xfe, 0xff, 0xff, 0xff, 0xff, 0xff, 0xff, 0xff, 0, 0, 0, 0];
    assert_eq!(deserialize_v1(&data).len(), 0);
}

#[test]
fn valid_header_selects_fvb_layout() {
    let h = fvb_header_bytes();
    assert_eq!(detect_format(&h), Format::V2);
    let parsed = FvbHeader::parse(&h).unwrap();
    assert!(parsed.is_valid());
    assert_eq!(parsed.volume_length, 0x0004_0000);
    assert_eq!(parsed.attributes, 0x0004_feff);
    assert_eq!(parsed.header_length, 0x48);
    assert_eq!(parsed.block_map, [(4, 0x1000), (0, 0)]);
    assert_eq!(parsed.guid, Guid::system_nv_data_fv());
}

#[test]
fn any_wrong_checked_field_selects_compact_layout() {
    for (pos, val) in [(3usize, 1u8), (20, 0), (41, b'X'), (55, 1)] {
        let mut h = fvb_header_bytes();
        h[pos] = val;
        assert_eq!(detect_format(&h), Format::V1);
        assert!(!FvbHeader::parse(&h).unwrap().is_valid());
    }
}

#[test]
fn unchecked_fields_do_not_affect_validity() {
    let mut h = fvb_header_bytes();
    for b in &mut h[32..40] {
        *b = 0x5a;
    }
    h[50] = 0x77;
    h[54] = 0x99;
    assert_eq!(detect_format(&h), Format::V2);
}

#[test]
fn short_buffer_selects_compact_layout() {
    let h = fvb_header_bytes();
    assert_eq!(detect_format(&h[..FVB_HEADER_SIZE - 1]), Format::V1);
    assert_eq!(detect_format(&[]), Format::V1);
    assert!(matches!(FvbHeader::parse(&h[..10]), Err(DecodeError::Truncated)));
}

#[test]
fn variable_store_header_checks_signature() {
    let d = v2_store(&[]);
    let vs = VariableStoreHeader::parse(&d, FVB_HEADER_SIZE).unwrap();
    assert!(vs.is_valid());
    assert_eq!(vs.size, 0x1000);
    let mut bad = d.clone();
    bad[FVB_HEADER_SIZE] ^= 1;
    assert!(!VariableStoreHeader::parse(&bad, FVB_HEADER_SIZE).unwrap().is_valid());
    assert!(matches!(VariableStoreHeader::parse(&d, d.len() - 27), Err(DecodeError::Truncated)));
}

#[test]
fn authenticated_variable_header_decodes_packed_fields() {
    let guid = [7u8; 16];
    let r = v2_record(0x55AA, guid, &[b'A', 0, 0, 0], &[1, 2, 3]);
    let h = AuthenticatedVariableHeader::parse(&r, 0).unwrap();
    assert!(h.is_valid());
    assert_eq!(h.state, 0x3f);
    assert_eq!(h.attributes, 7);
    assert_eq!(h.name_size, 4);
    assert_eq!(h.data_size, 3);
    assert_eq!(h.vendor_guid, Guid::from_bytes(guid));
    assert!(matches!(AuthenticatedVariableHeader::parse(&r, 10), Err(DecodeError::Truncated)));
}

#[test]
fn fvb_store_decodes_named_variables() {
    let g1 = [0x11u8; 16];
    let g2 = [0x22u8; 16];
    let d = v2_store(&[
        v2_record(0x55AA, g1, &[b'B', 0, 0, 0], &[1, 2, 3]),
        v2_record(0x55AA, g2, &[b'A', 0, 0, 0], &[4]),
        v2_record(0x55AA, g1, &[b'B', 0, 0, 0], &[5, 6]),
    ]);
    assert_eq!(detect_format(&d), Format::V2);
    let m = deserialize_v2(&d);
    assert_eq!(m.len(), 2);
    let (k, v): (&Vec<u8>, &Variable) = m.entry(0);
    assert_eq!(k, &vec![b'A', 0, 0, 0]);
    assert_eq!(v.guid, Guid::from_bytes(g2));
    assert_eq!(v.data, vec![4]);
    let (k, v) = m.entry(1);
    assert_eq!(k, &vec![b'B', 0, 0, 0]);
    assert_eq!(v.guid, Guid::from_bytes(g1));
    assert_eq!(v.data, vec![5, 6]);
    assert_eq!(decode_name(k, 0), vec![b'B' as u16]);
}

#[test]
fn fvb_store_stops_at_bad_marker_or_empty_name() {
    let g = [0x33u8; 16];
    let d = v2_store(&[
        v2_record(0x55AA, g, &[b'A', 0], &[1]),
        v2_record(0x1234, g, &[b'B', 0], &[2]),
        v2_record(0x55AA, g, &[b'C', 0], &[3]),
    ]);
    assert_eq!(deserialize_v2(&d).len(), 1);
    let d = v2_store(&[
        v2_record(0x55AA, g, &[b'A', 0], &[1]),
        v2_record(0x55AA, g, &[], &[2]),
        v2_record(0x55AA, g, &[b'C', 0], &[3]),
    ]);
    assert_eq!(deserialize_v2(&d).len(), 1);
}

#[test]
fn fvb_store_truncated_inside_a_record() {
    let g = [0x44u8; 16];
    let d = v2_store(&[v2_record(0x55AA, g, &[b'A', 0], &[1, 2, 3, 4])]);
    let start = FVB_HEADER_SIZE + VARIABLE_STORE_HEADER_SIZE;
    assert_eq!(deserialize_v2(&d[..start + 60 + 6]).len(), 0);
    assert_eq!(deserialize_v2(&d[..start + 60 + 7]).len(), 1);
    assert_eq!(deserialize_v2(&d[..start + 59]).len(), 0);
    assert_eq!(deserialize_v2(&d[..10]).len(), 0);
}

#[test]
fn decode_picks_the_layout() {
    let g = [0x55u8; 16];
    match decode(&v2_store(&[v2_record(0x55AA, g, &[b'A', 0], &[1])])) {
        Store::V2(m) => assert_eq!(m.len(), 1),
        Store::V1(_) => panic!("expected the firmware-volume-block layout"),
    }
    match decode(&v1_record(b"k", &[1])) {
        Store::V1(m) => assert_eq!(m.len(), 1),
        Store::V2(_) => panic!("expected the compact layout"),
    }
}

#[test]
fn key_splits_into_zero_guid_and_name() {
    let mut key = vec![0u8; 16];
    for u in "Foo".encode_utf16() {
        key.extend_from_slice(&u.to_le_bytes());
    }
    key.extend_from_slice(&[0, 0]);
    let s = split_key(&key).unwrap();
    assert_eq!(s.guid, Guid::from_bytes([0; 16]));
    assert_eq!(s.name, "Foo".encode_utf16().collect::<Vec<u16>>());
    assert_eq!(name_chars(&s.name).iter().collect::<String>(), "Foo");
}

#[test]
fn name_without_terminator_runs_to_end() {
    let mut key = vec![9u8; 16];
    key.extend_from_slice(&[b'h', 0, b'i', 0, b'!']);
    let s = split_key(&key).unwrap();
    assert_eq!(s.guid, Guid::from_bytes([9; 16]));
    assert_eq!(s.name, vec![b'h' as u16, b'i' as u16]);
    assert!(split_key(&[1u8; 16]).is_none());
    assert!(split_key(&[1u8; 17]).is_some());
}

#[test]
fn name_chars_drop_surrogates_and_keep_other_characters() {
    let units: Vec<u16> = vec![0x48, 0xD83D, 0xE9, 0xDE00, 0x4E2D];
    let chars = name_chars(&units);
    assert_eq!(chars, vec!['H', 'é', '中']);
}

#[test]
fn v1_entries_shown_only_with_name_and_value() {
    assert!(v1_entry_shown(&[0u8; 18], &[1]));
    assert!(!v1_entry_shown(&[0u8; 18], &[]));
    assert!(!v1_entry_shown(&[0u8; 16], &[1]));
}

#[test]
fn byte_order_comparison() {
    assert_eq!(compare(b"ab", b"abc"), Ordering::Less);
    assert_eq!(compare(b"b", b"abc"), Ordering::Greater);
    assert_eq!(compare(b"", b""), Ordering::Equal);
    assert_eq!(compare(&[0xff], &[0x00, 0x01]), Ordering::Greater);
}

#[test]
fn guid_constants_hold_their_bytes() {
    assert_eq!(Guid::system_nv_data_fv().bytes, NV_FV_GUID);
    assert_eq!(Guid::authenticated_variable().bytes, AUTH_VAR_GUID);
    assert_ne!(Guid::system_nv_data_fv(), Guid::authenticated_variable());
}
