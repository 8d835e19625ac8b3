//! Planning a submission's deposit: content-addressed cache paths, the
//! sandbox layout, the entry-point source, and the import classification.
//!
//! All paths are computed here as plain relative byte paths under one
//! shared root; performing the filesystem actions (directories, hard
//! links, symlinks) is the caller's side. The cache is append-only and
//! keyed by the content digest, so identical bytes always land on one
//! path.

use vstd::prelude::*;
use vstd::string::StringSliceAdditionalSpecFns;

use crate::ext::{sha256, sha256_of};
use crate::names::str_eq_chars;
use crate::olean::{has_prefix, starts_with_chars};

verus! {

/// The ASCII hex digit of a nibble.
pub open spec fn spec_hex_digit(n: u8) -> u8 {
    if n < 10 {
        (0x30 + n) as u8
    } else {
        (0x57 + n) as u8
    }
}

/// The two hex digits of a byte.
pub open spec fn hex_pair(b: u8) -> Seq<u8> {
    seq![spec_hex_digit(b / 16), spec_hex_digit(b % 16)]
}

/// The hex digits of a byte string.
pub open spec fn hex_of(s: Seq<u8>) -> Seq<u8>
    decreases s.len(),
{
    if s.len() == 0 {
        Seq::empty()
    } else {
        hex_of(s.drop_last()) + hex_pair(s.last())
    }
}

fn hex_digit(n: u8) -> (r: u8)
    requires
        n < 16,
    ensures
        r == spec_hex_digit(n),
{
    if n < 10 {
        0x30 + n
    } else {
        0x57 + n
    }
}

fn push_hex(out: &mut Vec<u8>, b: u8)
    ensures
        final(out)@ == old(out)@ + hex_pair(b),
{
    out.push(hex_digit(b / 16));
    out.push(hex_digit(b % 16));
    proof {
        assert(out@ =~= old(out)@ + hex_pair(b));
    }
}

/// `cache/`
pub open spec fn lit_cache() -> Seq<u8> {
    seq![0x63u8, 0x61u8, 0x63u8, 0x68u8, 0x65u8, 0x2fu8]
}

/// `.module`
pub open spec fn lit_module_ext() -> Seq<u8> {
    seq![0x2eu8, 0x6du8, 0x6fu8, 0x64u8, 0x75u8, 0x6cu8, 0x65u8]
}

/// `submissions/`
pub open spec fn lit_submissions() -> Seq<u8> {
    seq![
        0x73u8, 0x75u8, 0x62u8, 0x6du8, 0x69u8, 0x73u8, 0x73u8, 0x69u8, 0x6fu8, 0x6eu8, 0x73u8,
        0x2fu8,
    ]
}

/// `modules/`
pub open spec fn lit_modules() -> Seq<u8> {
    seq![0x6du8, 0x6fu8, 0x64u8, 0x75u8, 0x6cu8, 0x65u8, 0x73u8, 0x2fu8]
}

/// `.olean`
pub open spec fn lit_olean_ext() -> Seq<u8> {
    seq![0x2eu8, 0x6fu8, 0x6cu8, 0x65u8, 0x61u8, 0x6eu8]
}

/// The root-relative cache path of a content digest: the first digest byte
/// names the shard directory, the rest the file.
pub open spec fn spec_cache_rel(hash: Seq<u8>) -> Seq<u8>
    recommends
        hash.len() == 32,
{
    lit_cache() + hex_pair(hash[0]) + seq![0x2fu8] + hex_of(hash.skip(1)) + lit_module_ext()
}

/// Root-relative path of the cache entry for a 32-byte digest.
pub fn cache_rel_path(hash: &[u8]) -> (r: Vec<u8>)
    requires
        hash@.len() == 32,
    ensures
        r@ == spec_cache_rel(hash@),
{
    let mut out: Vec<u8> = Vec::new();
    out.push(0x63);
    out.push(0x61);
    out.push(0x63);
    out.push(0x68);
    out.push(0x65);
    out.push(0x2f);
    proof {
        assert(out@ =~= lit_cache());
    }
    push_hex(&mut out, *vstd::slice::slice_index_get(hash, 0));
    out.push(0x2f);
    let ghost head = out@;
    let mut i: usize = 1;
    proof {
        assert(hex_of(hash@.subrange(1, 1)) =~= Seq::<u8>::empty());
        assert(out@ =~= head + hex_of(hash@.subrange(1, 1)));
    }
    while i < 32
        invariant
            1 <= i <= 32,
            hash@.len() == 32,
            out@ == head + hex_of(hash@.subrange(1, i as int)),
        decreases 32 - i,
    {
        push_hex(&mut out, *vstd::slice::slice_index_get(hash, i));
        proof {
            let sub = hash@.subrange(1, i + 1);
            assert(sub.drop_last() =~= hash@.subrange(1, i as int));
            assert(sub.last() == hash@[i as int]);
            assert(out@ =~= head + hex_of(sub));
        }
        i = i + 1;
    }
    out.push(0x2e);
    out.push(0x6d);
    out.push(0x6f);
    out.push(0x64);
    out.push(0x75);
    out.push(0x6c);
    out.push(0x65);
    proof {
        assert(hash@.skip(1) =~= hash@.subrange(1, 32));
        assert(out@ =~= spec_cache_rel(hash@));
    }
    out
}

/// The sandbox directory of a submission, sharded by the id's bytes from
/// most to least significant to bound directory fan-out.
pub open spec fn spec_submission_dir(sid: u32) -> Seq<u8> {
    lit_submissions() + hex_pair((sid / 0x1000000) as u8) + seq![0x2fu8] + hex_pair(
        ((sid / 0x10000) % 0x100) as u8,
    ) + seq![0x2fu8] + hex_pair(((sid / 0x100) % 0x100) as u8) + seq![0x2fu8] + hex_pair(
        (sid % 0x100) as u8,
    ) + seq![0x2fu8]
}

/// Root-relative sandbox directory for a submission id.
pub fn submission_dir(sid: u32) -> (r: Vec<u8>)
    ensures
        r@ == spec_submission_dir(sid),
{
    let mut out: Vec<u8> = Vec::new();
    out.push(0x73);
    out.push(0x75);
    out.push(0x62);
    out.push(0x6d);
    out.push(0x69);
    out.push(0x73);
    out.push(0x73);
    out.push(0x69);
    out.push(0x6f);
    out.push(0x6e);
    out.push(0x73);
    out.push(0x2f);
    proof {
        assert(out@ =~= lit_submissions());
    }
    push_hex(&mut out, (sid / 0x1000000) as u8);
    out.push(0x2f);
    push_hex(&mut out, ((sid / 0x10000) % 0x100) as u8);
    out.push(0x2f);
    push_hex(&mut out, ((sid / 0x100) % 0x100) as u8);
    out.push(0x2f);
    push_hex(&mut out, (sid % 0x100) as u8);
    out.push(0x2f);
    proof {
        assert(out@ =~= spec_submission_dir(sid));
    }
    out
}

/// A dot becomes a path separator; other bytes stand. Dots only occur as
/// whole characters in UTF-8, so this is the character-level replacement.
pub open spec fn dots_to_slashes(s: Seq<u8>) -> Seq<u8> {
    Seq::new(
        s.len(),
        |i: int|
            if s[i] == 0x2e {
                0x2fu8
            } else {
                s[i]
            },
    )
}

/// The sandbox-relative path of an owned module: its dotted name below the
/// submitter's directory.
pub open spec fn spec_module_rel(uid_bytes: Seq<u8>, suffix_bytes: Seq<u8>) -> Seq<u8> {
    lit_modules() + uid_bytes + seq![0x2fu8] + dots_to_slashes(suffix_bytes) + lit_olean_ext()
}

/// Sandbox-relative path of the module `uid.suffix`.
pub fn module_rel_path(uid: &str, suffix: &str) -> (r: Vec<u8>)
    ensures
        r@ == spec_module_rel(uid.spec_bytes(), suffix.spec_bytes()),
{
    let mut out: Vec<u8> = Vec::new();
    out.push(0x6d);
    out.push(0x6f);
    out.push(0x64);
    out.push(0x75);
    out.push(0x6c);
    out.push(0x65);
    out.push(0x73);
    out.push(0x2f);
    proof {
        assert(out@ =~= lit_modules());
    }
    out.extend_from_slice(uid.as_bytes());
    out.push(0x2f);
    let ghost head = out@;
    let sb = suffix.as_bytes();
    let n = sb.len();
    let mut i: usize = 0;
    while i < n
        invariant
            0 <= i <= n,
            n == sb@.len(),
            out@.len() == head.len() + i,
            forall|k: int| 0 <= k < head.len() ==> out@[k] == head[k],
            forall|k: int| 0 <= k < i ==> out@[head.len() + k] == dots_to_slashes(sb@)[k],
        decreases n - i,
    {
        let b = *vstd::slice::slice_index_get(sb, i);
        if b == 0x2e {
            out.push(0x2f);
        } else {
            out.push(b);
        }
        i = i + 1;
    }
    proof {
        assert(out@ =~= head + dots_to_slashes(sb@));
    }
    out.push(0x2e);
    out.push(0x6f);
    out.push(0x6c);
    out.push(0x65);
    out.push(0x61);
    out.push(0x6e);
    proof {
        assert(out@ =~= spec_module_rel(uid.spec_bytes(), suffix.spec_bytes()));
    }
    out
}

/// How many path separators a relative path holds.
pub open spec fn count_slashes(s: Seq<u8>) -> nat
    decreases s.len(),
{
    if s.len() == 0 {
        0
    } else {
        count_slashes(s.drop_last()) + if s.last() == 0x2f {
            1nat
        } else {
            0nat
        }
    }
}

/// `../` repeated `n` times.
pub open spec fn dotdots(n: nat) -> Seq<u8>
    decreases n,
{
    if n == 0 {
        Seq::empty()
    } else {
        dotdots((n - 1) as nat) + seq![0x2eu8, 0x2eu8, 0x2fu8]
    }
}

/// The symlink target that reaches a root-relative cache path from a file
/// at `sandbox_rel` inside a submission sandbox: the sandbox sits five
/// directories below the root, and each separator in the relative path
/// adds one more.
pub open spec fn spec_link_target(sandbox_rel: Seq<u8>, cache_rel: Seq<u8>) -> Seq<u8> {
    dotdots(5 + count_slashes(sandbox_rel)) + cache_rel
}

/// The symlink target for a planned cache entry.
pub fn link_target(sandbox_rel: &Vec<u8>, cache_rel: &Vec<u8>) -> (r: Vec<u8>)
    ensures
        r@ == spec_link_target(sandbox_rel@, cache_rel@),
{
    let n = sandbox_rel.len();
    let mut slashes: usize = 0;
    let mut i: usize = 0;
    while i < n
        invariant
            0 <= i <= n,
            n == sandbox_rel@.len(),
            slashes == count_slashes(sandbox_rel@.take(i as int)),
            slashes <= i,
        decreases n - i,
    {
        proof {
            let t = sandbox_rel@.take(i + 1);
            assert(t.drop_last() =~= sandbox_rel@.take(i as int));
            assert(t.last() == sandbox_rel@[i as int]);
        }
        if sandbox_rel[i] == 0x2f {
            slashes = slashes + 1;
        }
        i = i + 1;
    }
    proof {
        assert(sandbox_rel@.take(n as int) =~= sandbox_rel@);
    }
    let mut out: Vec<u8> = Vec::new();
    let mut k: usize = 0;
    proof {
        assert(out@ =~= dotdots(0));
    }
    while k < slashes
        invariant
            0 <= k <= slashes,
            out@ == dotdots(k as nat),
        decreases slashes - k,
    {
        out.push(0x2e);
        out.push(0x2e);
        out.push(0x2f);
        proof {
            assert(out@ =~= dotdots((k + 1) as nat));
        }
        k = k + 1;
    }
    let mut e: usize = 0;
    while e < 5
        invariant
            0 <= e <= 5,
            out@ == dotdots(slashes as nat + e as nat),
        decreases 5 - e,
    {
        out.push(0x2e);
        out.push(0x2e);
        out.push(0x2f);
        proof {
            assert(out@ =~= dotdots(slashes as nat + e as nat + 1));
        }
        e = e + 1;
    }
    proof {
        assert(slashes as nat + 5nat == 5nat + count_slashes(sandbox_rel@));
    }
    out.extend_from_slice(cache_rel.as_slice());
    out
}

/// How the closure walk classifies an import.
#[derive(Clone, Copy, Debug, PartialEq, Eq, Structural)]
pub enum ImportClass {
    /// Inside the submitter's namespace: read, hash, parse and deposit it.
    Owned,
    /// A recognized trusted standard module: skipped without reading.
    Trusted,
    /// Neither: the whole task fails naming this module.
    Foreign,
}

/// A module inside the submitter's namespace: the submitter's id followed
/// by a dot.
pub open spec fn owned_module(m: Seq<char>, uid: Seq<char>) -> bool {
    &&& has_prefix(m, uid)
    &&& m.len() > uid.len()
    &&& m[uid.len() as int] == '.'
}

/// A recognized trusted standard module: one of the standard roots, alone
/// or as a namespace prefix.
pub open spec fn std_module(m: Seq<char>) -> bool {
    ||| m == "Init"@
    ||| has_prefix(m, "Init."@)
    ||| m == "Lean"@
    ||| has_prefix(m, "Lean."@)
    ||| m == "Std"@
    ||| has_prefix(m, "Std."@)
    ||| m == "Mathlib"@
    ||| has_prefix(m, "Mathlib."@)
}

/// Classification of an import: the submitter's namespace wins, then the
/// trusted list, and anything else is foreign.
pub open spec fn spec_classify(m: Seq<char>, uid: Seq<char>) -> ImportClass {
    if owned_module(m, uid) {
        ImportClass::Owned
    } else if std_module(m) {
        ImportClass::Trusted
    } else {
        ImportClass::Foreign
    }
}

/// Recognizes a trusted standard module.
pub fn is_std(module: &str) -> (r: bool)
    ensures
        r == std_module(module@),
{
    str_eq_chars(module, "Init") || starts_with_chars(module, "Init.") || str_eq_chars(
        module,
        "Lean",
    ) || starts_with_chars(module, "Lean.") || str_eq_chars(module, "Std")
        || starts_with_chars(module, "Std.") || str_eq_chars(module, "Mathlib")
        || starts_with_chars(module, "Mathlib.")
}

/// Classifies one import against the submitter's namespace and the
/// trusted list.
pub fn classify_import(module: &str, uid: &str) -> (r: ImportClass)
    ensures
        r == spec_classify(module@, uid@),
{
    let mn = module.unicode_len();
    let un = uid.unicode_len();
    if starts_with_chars(module, uid) && mn > un && module.get_char(un) == '.' {
        return ImportClass::Owned;
    }
    if is_std(module) {
        return ImportClass::Trusted;
    }
    ImportClass::Foreign
}

/// The content-addressed cache, as the set of root-relative paths that
/// exist. Creation is idempotent: an entry that already exists is success,
/// not an error, and the cache never holds two entries on one path.
pub struct CacheDir {
    pub entries: Vec<Vec<u8>>,
}

impl CacheDir {
    /// No path occurs twice.
    pub open spec fn wf(self) -> bool {
        forall|i: int, j: int|
            0 <= i < j < self.entries@.len() ==> (#[trigger] self.entries@[i])@ != (
            #[trigger] self.entries@[j])@
    }

    /// The set of paths present.
    pub open spec fn paths(self) -> Set<Seq<u8>> {
        Set::new(
            |p: Seq<u8>|
                exists|i: int| 0 <= i < self.entries@.len() && (#[trigger] self.entries@[i])@ == p,
        )
    }

    pub fn new() -> (c: CacheDir)
        ensures
            c.wf(),
            c.entries@.len() == 0,
    {
        CacheDir { entries: Vec::new() }
    }

    fn contains_path(&self, path: &Vec<u8>) -> (r: bool)
        ensures
            r == self.paths().contains(path@),
    {
        let n = self.entries.len();
        let mut i: usize = 0;
        while i < n
            invariant
                0 <= i <= n,
                n == self.entries@.len(),
                forall|k: int| 0 <= k < i ==> (#[trigger] self.entries@[k])@ != path@,
            decreases n - i,
        {
            if eq_bytes(&self.entries[i], path) {
                return true;
            }
            i = i + 1;
        }
        proof {
            if self.paths().contains(path@) {
                let k = choose|k: int|
                    0 <= k < self.entries@.len() && (#[trigger] self.entries@[k])@ == path@;
            }
        }
        false
    }

    /// Creates the entry for a path unless it already exists; either way
    /// the path exists afterwards, exactly once, and nothing fails.
    pub fn deposit(&mut self, path: Vec<u8>) -> (created: bool)
        requires
            old(self).wf(),
        ensures
            final(self).wf(),
            final(self).paths() == old(self).paths().insert(path@),
            created == !old(self).paths().contains(path@),
            final(self).entries@.len() == old(self).entries@.len() + (if created {
                1int
            } else {
                0int
            }),
    {
        if self.contains_path(&path) {
            proof {
                assert(self.paths().insert(path@) =~= self.paths());
            }
            return false;
        }
        let ghost before = self.entries@;
        self.entries.push(path);
        proof {
            let n = before.len() as int;
            assert(forall|k: int| 0 <= k < n ==> self.entries@[k] == before[k]);
            assert(self.wf()) by {
                assert forall|i: int, j: int|
                    0 <= i < j < self.entries@.len() implies (#[trigger] self.entries@[i])@ != (
                #[trigger] self.entries@[j])@ by {
                    if j == n {
                        if self.entries@[i]@ == self.entries@[n]@ {
                            assert(old(self).paths().contains(self.entries@[n]@));
                        }
                    }
                }
            }
            assert(self.paths() =~= old(self).paths().insert(self.entries@[n]@)) by {
                assert forall|p: Seq<u8>| self.paths().contains(p) implies old(
                    self,
                ).paths().insert(self.entries@[n]@).contains(p) by {
                    let k = choose|k: int|
                        0 <= k < self.entries@.len() && (#[trigger] self.entries@[k])@ == p;
                    if k < n {
                        assert(old(self).paths().contains(p));
                    }
                }
                assert forall|p: Seq<u8>|
                    old(self).paths().insert(self.entries@[n]@).contains(p) implies self.paths(
                ).contains(p) by {
                    if p == self.entries@[n]@ {
                    } else {
                        let k = choose|k: int|
                            0 <= k < before.len() && (#[trigger] before[k])@ == p;
                        assert(self.entries@[k]@ == p);
                    }
                }
            }
        }
        true
    }
}

/// Byte-for-byte equality of two paths.
fn eq_bytes(a: &Vec<u8>, b: &Vec<u8>) -> (r: bool)
    ensures
        r == (a@ == b@),
{
    let n = a.len();
    if n != b.len() {
        proof {
            if a@ == b@ {
                assert(a@.len() == b@.len());
            }
        }
        return false;
    }
    let mut i: usize = 0;
    while i < n
        invariant
            0 <= i <= n,
            n == a@.len(),
            n == b@.len(),
            forall|k: int| 0 <= k < i ==> a@[k] == b@[k],
        decreases n - i,
    {
        if a[i] != b[i] {
            proof {
                if a@ == b@ {
                    assert(a@[i as int] == b@[i as int]);
                }
            }
            return false;
        }
        i = i + 1;
    }
    proof {
        assert(a@ =~= b@);
    }
    true
}

/// Depositing the same content twice is harmless: the digest, and so the
/// cache path, is a function of the bytes alone, and a second deposit of
/// one path leaves exactly the one entry in place.
pub proof fn lemma_deposit_idempotent(c0: Set<Seq<u8>>, b1: Seq<u8>, b2: Seq<u8>)
    requires
        b1 == b2,
    ensures
        spec_cache_rel(sha256_of(b1)) == spec_cache_rel(sha256_of(b2)),
        c0.insert(spec_cache_rel(sha256_of(b1))).insert(spec_cache_rel(sha256_of(b2)))
            == c0.insert(spec_cache_rel(sha256_of(b1))),
{
    broadcast use vstd::set::group_set_axioms;

    assert(c0.insert(spec_cache_rel(sha256_of(b1))).insert(spec_cache_rel(sha256_of(b2)))
        =~= c0.insert(spec_cache_rel(sha256_of(b1))));
}

/// The placeholder marker in a checker template, as UTF-8 bytes.
pub open spec fn marker() -> Seq<u8> {
    seq![0xe2u8, 0xbcu8, 0x80u8]
}

/// First position of the placeholder marker at or after `from`.
pub open spec fn find_marker(s: Seq<u8>, from: int) -> Option<int>
    recommends
        0 <= from,
    decreases s.len() - from,
{
    if from < 0 || from + 3 > s.len() {
        None
    } else if s.subrange(from, from + 3) == marker() {
        Some(from)
    } else {
        find_marker(s, from + 1)
    }
}

/// The checker template with the declaration name spliced in at the single
/// designated placeholder; a template without the marker stands as it is.
pub open spec fn spec_spliced(checker: Seq<u8>, const_bytes: Seq<u8>) -> Seq<u8> {
    match find_marker(checker, 0) {
        Some(i) => checker.subrange(0, i) + const_bytes + checker.subrange(
            i + 3,
            checker.len() as int,
        ),
        None => checker,
    }
}

/// `import `
pub open spec fn lit_import() -> Seq<u8> {
    seq![0x69u8, 0x6du8, 0x70u8, 0x6fu8, 0x72u8, 0x74u8, 0x20u8]
}

/// The entry-point source of a sandbox: an import of the submitted module,
/// then the problem's checker template with the submitter's declaration
/// name spliced in.
pub open spec fn spec_entry_source(
    uid_bytes: Seq<u8>,
    module_bytes: Seq<u8>,
    const_bytes: Seq<u8>,
    checker: Seq<u8>,
) -> Seq<u8> {
    lit_import() + uid_bytes + seq![0x2eu8] + module_bytes + seq![0x0au8] + spec_spliced(
        checker,
        const_bytes,
    )
}

fn exec_find_marker(checker: &[u8]) -> (r: Option<usize>)
    ensures
        match r {
            Some(i) => find_marker(checker@, 0) == Some(i as int) && i + 3 <= checker@.len(),
            None => find_marker(checker@, 0) is None,
        },
{
    let n = checker.len();
    if n < 3 {
        return None;
    }
    let mut i: usize = 0;
    while i <= n - 3
        invariant
            0 <= i <= n,
            n == checker@.len(),
            n >= 3,
            find_marker(checker@, 0) == find_marker(checker@, i as int),
        decreases n - i,
    {
        if *vstd::slice::slice_index_get(checker, i) == 0xe2 && *vstd::slice::slice_index_get(
            checker,
            i + 1,
        ) == 0xbc && *vstd::slice::slice_index_get(checker, i + 2) == 0x80 {
            proof {
                assert(checker@.subrange(i as int, i + 3) =~= marker());
            }
            return Some(i);
        }
        proof {
            if checker@.subrange(i as int, i + 3) == marker() {
                assert(checker@.subrange(i as int, i + 3)[0] == 0xe2u8);
                assert(checker@.subrange(i as int, i + 3)[1] == 0xbcu8);
                assert(checker@.subrange(i as int, i + 3)[2] == 0x80u8);
            }
        }
        i = i + 1;
    }
    None
}

/// Builds the entry-point source for a sandbox.
pub fn entry_source(uid: &str, module_name: &str, const_name: &str, checker: &[u8]) -> (r: Vec<
    u8,
>)
    ensures
        r@ == spec_entry_source(
            uid.spec_bytes(),
            module_name.spec_bytes(),
            const_name.spec_bytes(),
            checker@,
        ),
{
    let mut out: Vec<u8> = Vec::new();
    out.push(0x69);
    out.push(0x6d);
    out.push(0x70);
    out.push(0x6f);
    out.push(0x72);
    out.push(0x74);
    out.push(0x20);
    proof {
        assert(out@ =~= lit_import());
    }
    out.extend_from_slice(uid.as_bytes());
    out.push(0x2e);
    out.extend_from_slice(module_name.as_bytes());
    out.push(0x0a);
    let ghost head = out@;
    let n = checker.len();
    match exec_find_marker(checker) {
        Some(i) => {
            out.extend_from_slice(vstd::slice::slice_subrange(checker, 0, i));
            out.extend_from_slice(const_name.as_bytes());
            out.extend_from_slice(vstd::slice::slice_subrange(checker, i + 3, n));
            proof {
                assert(out@ =~= head + spec_spliced(checker@, const_name.spec_bytes()));
            }
        },
        None => {
            out.extend_from_slice(checker);
        },
    }
    proof {
        assert(out@ =~= spec_entry_source(
            uid.spec_bytes(),
            module_name.spec_bytes(),
            const_name.spec_bytes(),
            checker@,
        ));
    }
    out
}

/// One planned deposit: the module it serves, its cache entry, the
/// sandbox-relative symlink path, and the symlink's target.
pub struct LinkPlan {
    pub module: String,
    pub cache_rel: Vec<u8>,
    pub sandbox_rel: Vec<u8>,
    pub target_rel: Vec<u8>,
}

/// A name already handled by the walk.
pub open spec fn seen(visited: Seq<String>, m: Seq<char>) -> bool {
    exists|k: int| 0 <= k < visited.len() && (#[trigger] visited[k])@ == m
}

/// What one step of the closure walk asks for or reports.
pub enum WalkStep {
    /// Read this owned module and hand its bytes to `supply`.
    Need(String),
    /// The import was trusted or already handled; step again.
    Skip,
    /// A foreign import: the whole task fails with this message, which
    /// names the module.
    Fail(String),
    /// The queue is exhausted; the plans are complete.
    Done,
}

/// The breadth-first walk of a submission's transitive import closure.
pub struct ClosureWalk {
    pub uid: String,
    pub queue: Vec<String>,
    pub visited: Vec<String>,
    pub plans: Vec<LinkPlan>,
}

impl ClosureWalk {
    /// Every planned deposit serves a module inside the submitter's
    /// namespace.
    pub open spec fn wf(self) -> bool {
        forall|k: int|
            0 <= k < self.plans@.len() ==> owned_module(
                (#[trigger] self.plans@[k]).module@,
                self.uid@,
            )
    }

    /// Starts the walk: the main module's deposit is already planned from
    /// its known digest, and its imports are queued.
    pub fn new(uid: String, module_name: &str, main_hash: &[u8], imports: Vec<String>) -> (w:
        ClosureWalk)
        requires
            main_hash@.len() == 32,
        ensures
            w.wf(),
            w.uid == uid,
            w.queue == imports,
            w.visited@.len() == 1,
            w.visited@[0]@ == uid@ + seq!['.'] + module_name@,
            w.plans@.len() == 1,
            w.plans@[0].module@ == uid@ + seq!['.'] + module_name@,
            w.plans@[0].cache_rel@ == spec_cache_rel(main_hash@),
            w.plans@[0].sandbox_rel@ == spec_module_rel(
                vstd::utf8::encode_utf8(uid@),
                module_name.spec_bytes(),
            ),
            w.plans@[0].target_rel@ == spec_link_target(
                spec_module_rel(vstd::utf8::encode_utf8(uid@), module_name.spec_bytes()),
                spec_cache_rel(main_hash@),
            ),
    {
        let dot = ".";
        proof {
            reveal_strlit(".");
            assert(dot@ =~= seq!['.']);
        }
        let mut full = uid.clone();
        full.append(dot);
        full.append(module_name);
        let cache_rel = cache_rel_path(main_hash);
        let sandbox_rel = module_rel_path(uid.as_str(), module_name);
        let target_rel = link_target(&sandbox_rel, &cache_rel);
        let mut visited: Vec<String> = Vec::new();
        visited.push(full.clone());
        let mut plans: Vec<LinkPlan> = Vec::new();
        let ghost fullv = full@;
        plans.push(LinkPlan { module: full, cache_rel, sandbox_rel, target_rel });
        proof {
            assert(owned_module(fullv, uid@)) by {
                assert(fullv.subrange(0, uid@.len() as int) =~= uid@);
                assert(fullv[uid@.len() as int] == '.');
            }
        }
        ClosureWalk { uid, queue: imports, visited, plans }
    }

    /// Takes the next queued import: a foreign one fails the task naming
    /// exactly that module and plans nothing for it; a trusted or
    /// already-handled one is skipped without reading; an owned, unseen
    /// one is marked handled and must be read.
    pub fn step(&mut self) -> (r: WalkStep)
        requires
            old(self).wf(),
        ensures
            final(self).wf(),
            final(self).uid == old(self).uid,
            final(self).plans@ == old(self).plans@,
            (r is Done <==> old(self).queue@.len() == 0),
            r is Done ==> *final(self) == *old(self),
            old(self).queue@.len() > 0 ==> ({
                let m = old(self).queue@[0];
                &&& final(self).queue@ == old(self).queue@.drop_first()
                &&& (r is Fail <==> spec_classify(m@, old(self).uid@) == ImportClass::Foreign)
                &&& (r matches WalkStep::Fail(msg) ==> msg@ == m@ + ": invalid import"@
                    && final(self).visited@ == old(self).visited@)
                &&& (r is Skip <==> (spec_classify(m@, old(self).uid@) == ImportClass::Trusted
                    || (spec_classify(m@, old(self).uid@) == ImportClass::Owned && seen(
                    old(self).visited@,
                    m@,
                ))))
                &&& (r is Skip ==> final(self).visited@ == old(self).visited@)
                &&& (r matches WalkStep::Need(m2) ==> m2@ == m@ && spec_classify(
                    m@,
                    old(self).uid@,
                ) == ImportClass::Owned && !seen(old(self).visited@, m@)
                    && final(self).visited@ == old(self).visited@.push(m))
            }),
    {
        if self.queue.len() == 0 {
            return WalkStep::Done;
        }
        let m = self.queue.remove(0);
        proof {
            assert(self.queue@ =~= old(self).queue@.drop_first());
        }
        match classify_import(m.as_str(), self.uid.as_str()) {
            ImportClass::Foreign => {
                let mut msg = m;
                msg.append(": invalid import");
                WalkStep::Fail(msg)
            },
            ImportClass::Trusted => WalkStep::Skip,
            ImportClass::Owned => {
                if self.in_visited(m.as_str()) {
                    WalkStep::Skip
                } else {
                    let out = m.clone();
                    self.visited.push(m);
                    WalkStep::Need(out)
                }
            },
        }
    }

    fn in_visited(&self, m: &str) -> (r: bool)
        ensures
            r == seen(self.visited@, m@),
    {
        let n = self.visited.len();
        let mut i: usize = 0;
        while i < n
            invariant
                0 <= i <= n,
                n == self.visited@.len(),
                forall|k: int| 0 <= k < i ==> (#[trigger] self.visited@[k])@ != m@,
            decreases n - i,
        {
            if str_eq_chars(self.visited[i].as_str(), m) {
                return true;
            }
            i = i + 1;
        }
        proof {
            if seen(self.visited@, m@) {
                let k = choose|k: int|
                    0 <= k < self.visited@.len() && (#[trigger] self.visited@[k])@ == m@;
            }
        }
        false
    }

    /// Hands the walk the bytes of an owned module it asked for. The
    /// module is hashed, its deposit planned, and its imports queued; a
    /// buffer that does not parse fails the task with a message naming the
    /// module.
    pub fn supply(&mut self, module: String, content: &[u8]) -> (r: Option<String>)
        requires
            old(self).wf(),
            owned_module(module@, old(self).uid@),
        ensures
            final(self).wf(),
            final(self).uid == old(self).uid,
            final(self).visited@ == old(self).visited@,
            ({
                let base = crate::olean::le64_at(content@, 80);
                let section = crate::olean::le64_at(
                    content@,
                    crate::olean::root_off(content@) + 8,
                );
                let entries = crate::olean::spec_section_entries(content@, base, section);
                let decodable = crate::olean::meta_ok(content@) && entries is Some
                    && crate::olean::spec_import_refs(content@, base, entries->Some_0) is Some;
                &&& (r is None <==> decodable)
                &&& (r matches Some(msg) ==> final(self).plans@ == old(self).plans@
                    && final(self).queue@ == old(self).queue@ && (if crate::olean::meta_ok(
                    content@,
                ) {
                    msg@ == module@ + ": cannot parse imports"@
                } else {
                    msg@ == module@ + ": not a valid olean file"@
                }))
                &&& (r is None ==> ({
                    let refs = crate::olean::spec_import_refs(
                        content@,
                        base,
                        entries->Some_0,
                    )->Some_0;
                    let suffix = module@.subrange(
                        old(self).uid@.len() as int + 1,
                        module@.len() as int,
                    );
                    &&& final(self).plans@.len() == old(self).plans@.len() + 1
                    &&& forall|k: int|
                        0 <= k < old(self).plans@.len() ==> final(self).plans@[k] == old(
                            self,
                        ).plans@[k]
                    &&& final(self).plans@.last().module@ == module@
                    &&& final(self).plans@.last().cache_rel@ == spec_cache_rel(
                        sha256_of(content@),
                    )
                    &&& final(self).plans@.last().sandbox_rel@ == spec_module_rel(
                        vstd::utf8::encode_utf8(old(self).uid@),
                        vstd::utf8::encode_utf8(suffix),
                    )
                    &&& final(self).plans@.last().target_rel@ == spec_link_target(
                        final(self).plans@.last().sandbox_rel@,
                        final(self).plans@.last().cache_rel@,
                    )
                    &&& final(self).queue@.len() >= old(self).queue@.len()
                    &&& final(self).queue@.subrange(0, old(self).queue@.len() as int) == old(
                        self,
                    ).queue@
                    &&& crate::names::strictly_sorted(
                        final(self).queue@.skip(old(self).queue@.len() as int),
                    )
                    &&& crate::names::views_of(
                        final(self).queue@.skip(old(self).queue@.len() as int),
                    ) == crate::olean::name_set_of(content@, base, refs)
                }))
            }),
    {
        let meta = match crate::olean::parse_meta(content) {
            Some(m) => m,
            None => {
                let mut msg = module;
                msg.append(": not a valid olean file");
                return Some(msg);
            },
        };
        let imports = match crate::olean::parse_imports(meta) {
            Some(v) => v,
            None => {
                let mut msg = module;
                msg.append(": cannot parse imports");
                return Some(msg);
            },
        };
        let digest = sha256(content);
        let cache_rel = cache_rel_path(digest.as_slice());
        let un = self.uid.unicode_len();
        let mn = module.unicode_len();
        let suffix = module.as_str().substring_char(un + 1, mn);
        let sandbox_rel = module_rel_path(self.uid.as_str(), suffix);
        let target_rel = link_target(&sandbox_rel, &cache_rel);
        let ghost plans0 = self.plans@;
        let ghost modulev = module@;
        self.plans.push(LinkPlan { module, cache_rel, sandbox_rel, target_rel });
        let ghost plans1 = self.plans@;
        let ghost q0 = self.queue@;
        let n = imports.len();
        let mut i: usize = 0;
        while i < n
            invariant
                0 <= i <= n,
                n == imports@.len(),
                self.queue@.len() == q0.len() + i,
                self.queue@.subrange(0, q0.len() as int) == q0,
                forall|k: int| 0 <= k < i ==> self.queue@[q0.len() + k] == imports@[k],
                self.uid == old(self).uid,
                self.visited@ == old(self).visited@,
                self.plans@ == plans1,
            decreases n - i,
        {
            self.queue.push(imports[i].clone());
            proof {
                assert(self.queue@.subrange(0, q0.len() as int) =~= q0);
            }
            i = i + 1;
        }
        proof {
            assert(self.queue@.skip(q0.len() as int) =~= imports@);
            assert(crate::names::views_of(self.queue@.skip(q0.len() as int))
                =~= crate::names::views_of(imports@));
        }
        None
    }
}

/// A foreign import never acquires a cache entry: every planned deposit
/// serves a module in the submitter's namespace, and a foreign module by
/// definition is not.
pub proof fn lemma_foreign_never_planned(w: ClosureWalk, m: Seq<char>)
    requires
        w.wf(),
        spec_classify(m, w.uid@) == ImportClass::Foreign,
    ensures
        forall|k: int| 0 <= k < w.plans@.len() ==> (#[trigger] w.plans@[k]).module@ != m,
{
    assert forall|k: int|
        0 <= k < w.plans@.len() implies (#[trigger] w.plans@[k]).module@ != m by {
        if w.plans@[k].module@ == m {
            assert(owned_module(m, w.uid@));
        }
    }
}

/// The 32-byte content digest and its cache path, for one buffer.
pub fn content_cache_path(content: &[u8]) -> (r: ([u8; 32], Vec<u8>))
    ensures
        r.0@ == sha256_of(content@),
        r.1@ == spec_cache_rel(sha256_of(content@)),
{
    let digest = sha256(content);
    let path = cache_rel_path(digest.as_slice());
    (digest, path)
}

} // verus!
