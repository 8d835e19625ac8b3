//! Tests of deposit planning: paths, the entry-point splice, import
//! classification, the closure walk, and the cache model.

use lean4oj::deposit::{
    cache_rel_path, classify_import, content_cache_path, entry_source, is_std, link_target,
    module_rel_path, submission_dir, CacheDir, ClosureWalk, ImportClass, WalkStep,
};

const BASE: u64 = 0x7000_0000;

fn put_u64(buf: &mut Vec<u8>, v: u64) {
    buf.extend_from_slice(&v.to_le_bytes());
}

/// A minimal well-formed module buffer with the given import names.
fn tiny_olean(imports: &[&str]) -> Vec<u8> {
    let mut buf = Vec::new();
    buf.extend_from_slice(b"olean\x02\x014");
    let mut ver = [0u8; 32];
    ver[..5].copy_from_slice(b".26.0");
    buf.extend_from_slice(&ver);
    buf.extend_from_slice(b"d8204c9fd894f91bbb2cdfec5912ec8196fd8562");
    put_u64(&mut buf, BASE);
    put_u64(&mut buf, 0);
    let mut entries = Vec::new();
    for m in imports {
        let mut recur = 1u64;
        for comp in m.split('.') {
            let soff = buf.len() as u64;
            put_u64(&mut buf, 0xf900_0001_0000_0000);
            put_u64(&mut buf, 0);
            put_u64(&mut buf, 0);
            put_u64(&mut buf, comp.len() as u64);
            buf.extend_from_slice(comp.as_bytes());
            let noff = buf.len() as u64;
            put_u64(&mut buf, 0x0102_0020_0000_0000);
            put_u64(&mut buf, recur);
            put_u64(&mut buf, BASE + soff);
            put_u64(&mut buf, 0);
            recur = BASE + noff;
        }
        let eoff = buf.len() as u64;
        put_u64(&mut buf, 0);
        put_u64(&mut buf, recur);
        entries.push(BASE + eoff);
    }
    let consts_off = buf.len() as u64;
    put_u64(&mut buf, 0xf600_0001_0000_0000);
    put_u64(&mut buf, 0);
    put_u64(&mut buf, 0);
    let imports_off = buf.len() as u64;
    put_u64(&mut buf, 0xf600_0001_0000_0000);
    put_u64(&mut buf, entries.len() as u64);
    put_u64(&mut buf, entries.len() as u64);
    for e in &entries {
        put_u64(&mut buf, *e);
    }
    let sections_pos = buf.len() as u64;
    put_u64(&mut buf, 0x0005_0038_0000_0000);
    put_u64(&mut buf, BASE + imports_off);
    put_u64(&mut buf, BASE + consts_off);
    for _ in 0..4 {
        put_u64(&mut buf, 0);
    }
    let addr = BASE + sections_pos;
    buf[88..96].copy_from_slice(&addr.to_le_bytes());
    buf
}

#[test]
fn cache_path_of_known_digest() {
    // SHA-256 of the empty input.
    let (digest, path) = content_cache_path(b"");
    let hex = "e3b0c44298fc1c149afbf4c8996fb92427ae41e4649b934ca495991b7852b855";
    let mut expect = Vec::new();
    for i in 0..32 {
        let byte = u8::from_str_radix(&hex[2 * i..2 * i + 2], 16).unwrap();
        expect.push(byte);
    }
    assert_eq!(digest.to_vec(), expect);
    let want = format!("cache/{}/{}.module", &hex[..2], &hex[2..]);
    assert_eq!(path, want.as_bytes());
}

#[test]
fn cache_path_layout() {
    let digest = [0xabu8; 32];
    let path = cache_rel_path(&digest);
    let want = format!("cache/ab/{}.module", "ab".repeat(31));
    assert_eq!(path, want.as_bytes());
}

#[test]
fn submission_dir_shards_by_id_bytes() {
    assert_eq!(submission_dir(0x01020304), b"submissions/01/02/03/04/");
    assert_eq!(submission_dir(7), b"submissions/00/00/00/07/");
}

#[test]
fn module_path_mirrors_dotted_name() {
    assert_eq!(
        module_rel_path("alice", "Data.Foo"),
        b"modules/alice/Data/Foo.olean"
    );
}

#[test]
fn link_target_climbs_out_of_the_sandbox() {
    let sandbox = b"modules/alice/Data/Foo.olean".to_vec();
    let cache = b"cache/ab/cd.module".to_vec();
    let target = link_target(&sandbox, &cache);
    // Five sandbox levels plus three separators in the relative path.
    assert_eq!(target, b"../../../../../../../../cache/ab/cd.module");
}

#[test]
fn entry_source_splices_declaration_at_marker() {
    let out = entry_source("alice", "Mod", "thm", "check \u{2f00} end".as_bytes());
    assert_eq!(out, b"import alice.Mod\ncheck thm end");
}

#[test]
fn entry_source_without_marker_keeps_template() {
    let out = entry_source("alice", "Mod", "thm", b"no placeholder");
    assert_eq!(out, b"import alice.Mod\nno placeholder");
}

#[test]
fn import_classification() {
    assert_eq!(classify_import("alice.Lib", "alice"), ImportClass::Owned);
    assert_eq!(classify_import("Init.Data", "alice"), ImportClass::Trusted);
    assert_eq!(classify_import("Mathlib.Topology", "alice"), ImportClass::Trusted);
    assert_eq!(classify_import("bob.X", "alice"), ImportClass::Foreign);
    // A mere prefix without the namespace dot is not ownership.
    assert_eq!(classify_import("alicey.X", "alice"), ImportClass::Foreign);
    assert_eq!(classify_import("alice", "alice"), ImportClass::Foreign);
    assert!(is_std("Std"));
    assert!(!is_std("Stdlib"));
}

#[test]
fn cache_deposit_is_idempotent() {
    let mut cache = CacheDir::new();
    let path = cache_rel_path(&[7u8; 32]);
    assert!(cache.deposit(path.clone()));
    assert!(!cache.deposit(path));
    assert_eq!(cache.entries.len(), 1);
}

#[test]
fn walk_fails_on_foreign_import_and_plans_nothing_for_it() {
    let mut walk = ClosureWalk::new(
        String::from("alice"),
        "Mod",
        &[1u8; 32],
        vec![String::from("bob.Evil")],
    );
    assert_eq!(walk.plans.len(), 1);
    match walk.step() {
        WalkStep::Fail(msg) => assert_eq!(msg, "bob.Evil: invalid import"),
        _ => panic!("expected the walk to fail"),
    }
    assert_eq!(walk.plans.len(), 1);
    assert_eq!(walk.plans[0].module, "alice.Mod");
}

#[test]
fn walk_skips_trusted_and_resolves_owned_imports() {
    let mut walk = ClosureWalk::new(
        String::from("alice"),
        "Mod",
        &[1u8; 32],
        vec![String::from("Init.Data"), String::from("alice.Lib")],
    );
    assert!(matches!(walk.step(), WalkStep::Skip));
    let need = match walk.step() {
        WalkStep::Need(m) => m,
        _ => panic!("expected an owned import to be requested"),
    };
    assert_eq!(need, "alice.Lib");
    // The library itself imports a trusted module and the main module.
    let lib = tiny_olean(&["Init.Core", "alice.Mod"]);
    assert!(walk.supply(need, &lib).is_none());
    assert_eq!(walk.plans.len(), 2);
    assert_eq!(walk.plans[1].module, "alice.Lib");
    assert_eq!(walk.plans[1].sandbox_rel, b"modules/alice/Lib.olean");
    // Its imports were queued: the trusted one is skipped, the main module
    // is already visited, and the walk completes.
    assert!(matches!(walk.step(), WalkStep::Skip));
    assert!(matches!(walk.step(), WalkStep::Skip));
    assert!(matches!(walk.step(), WalkStep::Done));
}

#[test]
fn walk_reports_unparsable_owned_module() {
    let mut walk = ClosureWalk::new(
        String::from("alice"),
        "Mod",
        &[1u8; 32],
        vec![String::from("alice.Bad")],
    );
    let need = match walk.step() {
        WalkStep::Need(m) => m,
        _ => panic!("expected an owned import to be requested"),
    };
    let msg = walk.supply(need, b"garbage").unwrap();
    assert_eq!(msg, "alice.Bad: not a valid olean file");
    assert_eq!(walk.plans.len(), 1);
}
