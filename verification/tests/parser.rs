//! Tests of the module binary parser on synthetic buffers.

use lean4oj::olean::{lean_version, lean_version_80, parse_consts, parse_imports, parse_meta};

const BASE: u64 = 0x7000_0000;
const ARRAY_TAG: u64 = 0xf600_0001_0000_0000;
const STR_TAG: u64 = 0xf900_0001_0000_0000;
const NAME_TAG: u64 = 0x0102_0020_0000_0000;
const ROOT_TAG: u64 = 0x0005_0038_0000_0000;

fn put_u64(buf: &mut Vec<u8>, v: u64) {
    buf.extend_from_slice(&v.to_le_bytes());
}

fn str_node(buf: &mut Vec<u8>, s: &str) -> u64 {
    let off = buf.len() as u64;
    put_u64(buf, STR_TAG);
    put_u64(buf, 0);
    put_u64(buf, 0);
    put_u64(buf, s.len() as u64);
    buf.extend_from_slice(s.as_bytes());
    BASE + off
}

fn name_node(buf: &mut Vec<u8>, recur: u64, straddr: u64) -> u64 {
    let off = buf.len() as u64;
    put_u64(buf, NAME_TAG);
    put_u64(buf, recur);
    put_u64(buf, straddr);
    put_u64(buf, 0);
    BASE + off
}

fn dotted_name(buf: &mut Vec<u8>, name: &str) -> u64 {
    let mut recur = 1u64;
    for comp in name.split('.') {
        let sa = str_node(buf, comp);
        recur = name_node(buf, recur, sa);
    }
    recur
}

fn import_entry(buf: &mut Vec<u8>, nameaddr: u64) -> u64 {
    let off = buf.len() as u64;
    put_u64(buf, 0);
    put_u64(buf, nameaddr);
    BASE + off
}

fn array_node(buf: &mut Vec<u8>, elems: &[u64]) -> u64 {
    let off = buf.len() as u64;
    put_u64(buf, ARRAY_TAG);
    put_u64(buf, elems.len() as u64);
    put_u64(buf, elems.len() as u64);
    for &e in elems {
        put_u64(buf, e);
    }
    BASE + off
}

fn header(buf: &mut Vec<u8>) {
    buf.extend_from_slice(b"olean\x02\x014");
    let mut ver = [0u8; 32];
    ver[..5].copy_from_slice(b".26.0");
    buf.extend_from_slice(&ver);
    buf.extend_from_slice(b"d8204c9fd894f91bbb2cdfec5912ec8196fd8562");
    put_u64(buf, BASE);
    put_u64(buf, 0); // patched with the section-table address below
}

fn finish(buf: &mut Vec<u8>, consts_arr: u64, imports_arr: u64) {
    let sections_pos = buf.len() as u64;
    put_u64(buf, ROOT_TAG);
    put_u64(buf, imports_arr);
    put_u64(buf, consts_arr);
    for _ in 0..4 {
        put_u64(buf, 0);
    }
    let addr = BASE + sections_pos;
    buf[88..96].copy_from_slice(&addr.to_le_bytes());
}

fn build_olean(consts: &[&str], imports: &[&str]) -> Vec<u8> {
    let mut buf = Vec::new();
    header(&mut buf);
    let const_addrs: Vec<u64> = consts.iter().map(|c| dotted_name(&mut buf, c)).collect();
    let import_addrs: Vec<u64> = imports
        .iter()
        .map(|m| {
            let na = dotted_name(&mut buf, m);
            import_entry(&mut buf, na)
        })
        .collect();
    let consts_arr = array_node(&mut buf, &const_addrs);
    let imports_arr = array_node(&mut buf, &import_addrs);
    finish(&mut buf, consts_arr, imports_arr);
    buf
}

#[test]
fn version_accepted() {
    let buf = build_olean(&[], &[]);
    assert_eq!(lean_version(&buf), Some(".26.0"));
    let head: [u8; 80] = buf[..80].try_into().unwrap();
    assert_eq!(lean_version_80(&head), Some(".26.0"));
}

#[test]
fn version_rejects_short_buffer() {
    assert_eq!(lean_version(b"olean"), None);
}

#[test]
fn version_rejects_corrupted_magic() {
    let mut buf = build_olean(&[], &[]);
    buf[0] ^= 1;
    assert_eq!(lean_version(&buf), None);
}

#[test]
fn version_rejects_corrupted_version_tag() {
    let mut buf = build_olean(&[], &[]);
    buf[9] = b'3';
    assert_eq!(lean_version(&buf), None);
}

#[test]
fn version_rejects_version_padding_tampering() {
    let mut buf = build_olean(&[], &[]);
    buf[20] = 1; // a zero padding byte after the version tag
    assert_eq!(lean_version(&buf), None);
}

#[test]
fn version_rejects_corrupted_digest() {
    let mut buf = build_olean(&[], &[]);
    buf[79] = b'0';
    assert_eq!(lean_version(&buf), None);
}

#[test]
fn every_single_byte_header_corruption_is_rejected() {
    let buf = build_olean(&[], &[]);
    for i in 0..80 {
        let mut bad = buf.clone();
        bad[i] ^= 0x01;
        assert_eq!(lean_version(&bad), None, "byte {i}");
    }
}

#[test]
fn meta_accepts_well_formed_buffer() {
    let buf = build_olean(&["Foo"], &[]);
    assert!(parse_meta(&buf).is_some());
}

#[test]
fn meta_rejects_truncation() {
    let buf = build_olean(&["Foo"], &[]);
    assert!(parse_meta(&buf[..buf.len() - 1]).is_none());
}

#[test]
fn meta_rejects_bad_section_tag() {
    let mut buf = build_olean(&["Foo"], &[]);
    let pos = buf.len() - 56;
    buf[pos] ^= 0xff;
    assert!(parse_meta(&buf).is_none());
}

#[test]
fn consts_sorted_and_deduplicated() {
    let buf = build_olean(&["Zeta", "Foo.bar", "Alpha", "Foo.bar"], &[]);
    let meta = parse_meta(&buf).unwrap();
    let consts = parse_consts(meta).unwrap();
    assert_eq!(consts, vec!["Alpha", "Foo.bar", "Zeta"]);
}

#[test]
fn consts_drop_internal_and_autogenerated() {
    let buf = build_olean(
        &[
            "_private",
            "eq_def",
            "match_1",
            "omega_nat",
            "proof_3",
            "congr_simp",
            "hcongr_123",
            "hcongr_",
            "hcongr_12x",
            "Good",
        ],
        &[],
    );
    let meta = parse_meta(&buf).unwrap();
    let consts = parse_consts(meta).unwrap();
    assert_eq!(consts, vec!["Good", "hcongr_12x"]);
}

#[test]
fn consts_decode_unicode_identifiers() {
    let buf = build_olean(&["\u{3b1}\u{3b2}", "Nat.\u{2115}add"], &[]);
    let meta = parse_meta(&buf).unwrap();
    let consts = parse_consts(meta).unwrap();
    assert_eq!(consts, vec!["Nat.\u{2115}add", "\u{3b1}\u{3b2}"]);
}

#[test]
fn consts_drop_invalid_identifier_components() {
    // A component that starts with a digit fails the identifier grammar.
    let buf = build_olean(&["1bad", "Fine"], &[]);
    let meta = parse_meta(&buf).unwrap();
    let consts = parse_consts(meta).unwrap();
    assert_eq!(consts, vec!["Fine"]);
}

#[test]
fn imports_sorted_and_decoded() {
    let buf = build_olean(&[], &["Init.Data", "Alice.Lib", "Alice.Lib"]);
    let meta = parse_meta(&buf).unwrap();
    let imports = parse_imports(meta).unwrap();
    assert_eq!(imports, vec!["Alice.Lib", "Init.Data"]);
}

#[test]
fn imports_reject_invalid_utf8_in_name() {
    let mut buf = Vec::new();
    header(&mut buf);
    // A string node whose bytes are not valid UTF-8: the name is skipped.
    let off = buf.len() as u64;
    put_u64(&mut buf, STR_TAG);
    put_u64(&mut buf, 0);
    put_u64(&mut buf, 0);
    put_u64(&mut buf, 2);
    buf.extend_from_slice(&[0xff, 0xfe]);
    let sa = BASE + off;
    let na = name_node(&mut buf, 1, sa);
    let good = dotted_name(&mut buf, "Ok");
    let consts_arr = array_node(&mut buf, &[na, good]);
    let imports_arr = array_node(&mut buf, &[]);
    finish(&mut buf, consts_arr, imports_arr);
    let meta = parse_meta(&buf).unwrap();
    let consts = parse_consts(meta).unwrap();
    assert_eq!(consts, vec!["Ok"]);
}

#[test]
fn consts_reject_array_with_bad_count() {
    let mut buf = Vec::new();
    header(&mut buf);
    // An array node whose two count words disagree is invalid.
    let off = buf.len() as u64;
    put_u64(&mut buf, ARRAY_TAG);
    put_u64(&mut buf, 1);
    put_u64(&mut buf, 2);
    put_u64(&mut buf, 0);
    let consts_arr = BASE + off;
    let imports_arr = array_node(&mut buf, &[]);
    finish(&mut buf, consts_arr, imports_arr);
    let meta = parse_meta(&buf).unwrap();
    assert!(parse_consts(meta).is_none());
    assert!(parse_imports(meta).is_some());
}
