//! Parser for the compiled module binary format.
//!
//! The input is an arbitrary byte buffer uploaded by a user: every read is
//! bounds-checked, every offset derived from the buffer is re-validated,
//! and malformed input yields `None`. The parser extracts the toolchain
//! version (accepted only when the embedded digest matches the pinned one
//! for that version), the exported declaration names, and the imported
//! module names.

use vstd::prelude::*;
use vstd::bytes::spec_u64_from_le_bytes;
use vstd::string::StrSliceExecFns;
use vstd::utf8::{decode_utf8, valid_utf8};

use crate::ext::decode_str;
use crate::names::{insert_name, seq_lt, strictly_sorted, views_of};
use crate::validate::{is_lean_id, lean_id};

verus! {

/// Object header tag of an array node.
pub const ARRAY_TAG: u64 = 0xf600_0001_0000_0000;

/// Object header tag of a string node.
pub const STR_TAG: u64 = 0xf900_0001_0000_0000;

/// Object header tag of a dotted-name node.
pub const NAME_TAG: u64 = 0x0102_0020_0000_0000;

/// Tag word that must open the section table.
pub const ROOT_TAG: u64 = 0x0005_0038_0000_0000;

/// Defensive bound on the nesting depth of a dotted name.
pub const NAME_DEPTH: u64 = 512;

/// The 64-bit little-endian word of `data` starting at `p`.
pub open spec fn le64_at(data: Seq<u8>, p: int) -> u64
    recommends
        0 <= p,
        p + 8 <= data.len(),
{
    spec_u64_from_le_bytes(data.subrange(p, p + 8))
}

#[allow(unused_variables)]
fn read_le64(data: &[u8], p: usize) -> (r: u64)
    requires
        p + 8 <= data@.len(),
    ensures
        r == le64_at(data@, p as int),
{
    let dn = data.len();
    let w = vstd::slice::slice_subrange(data, p, p + 8);
    vstd::bytes::u64_from_le_bytes(w)
}

fn byte_at(data: &[u8], i: usize) -> (r: u8)
    requires
        i < data@.len(),
    ensures
        r == data@[i as int],
{
    *vstd::slice::slice_index_get(data, i)
}

/// Validates an offset derived from buffer contents: `addr` must lie at or
/// above `base` and leave `need` readable bytes.
fn checked_off(data: &[u8], base: u64, addr: u64, need: u64) -> (r: Option<usize>)
    ensures
        r is Some <==> addr >= base && addr - base + need <= data@.len(),
        r matches Some(p) ==> p == addr - base && p + need <= data@.len(),
{
    let len64 = data.len() as u64;
    if addr < base {
        return None;
    }
    let p = addr - base;
    if p > len64 {
        return None;
    }
    if need > len64 - p {
        return None;
    }
    Some(p as usize)
}

/// The fixed magic that opens every module file.
pub open spec fn magic_ok(h: Seq<u8>) -> bool {
    &&& h.len() >= 8
    &&& h[0] == 0x6f
    &&& h[1] == 0x6c
    &&& h[2] == 0x65
    &&& h[3] == 0x61
    &&& h[4] == 0x6e
    &&& h[5] == 0x02
    &&& h[6] == 0x01
    &&& h[7] == 0x34
}

/// Length of `s` with trailing zero bytes stripped.
pub open spec fn trimmed_len(s: Seq<u8>) -> int
    decreases s.len(),
{
    if s.len() == 0 {
        0
    } else if s.last() != 0 {
        s.len() as int
    } else {
        trimmed_len(s.drop_last())
    }
}

/// The embedded version tag: the 32-byte field after the magic, with its
/// zero padding stripped.
pub open spec fn version_field(h: Seq<u8>) -> Seq<u8>
    recommends
        h.len() >= 40,
{
    let m = h.subrange(8, 40);
    m.subrange(0, trimmed_len(m))
}

/// The single version the allow-list pins, as bytes.
pub open spec fn pinned_version() -> Seq<u8> {
    seq![0x2eu8, 0x32u8, 0x36u8, 0x2eu8, 0x30u8]
}

/// The same version, as characters.
pub open spec fn pinned_version_chars() -> Seq<char> {
    seq!['.', '2', '6', '.', '0']
}

/// The content digest pinned for the accepted version: 40 hex characters.
pub open spec fn pinned_digest() -> Seq<u8> {
    seq![
        0x64u8, 0x38u8, 0x32u8, 0x30u8, 0x34u8, 0x63u8, 0x39u8, 0x66u8,
        0x64u8, 0x38u8, 0x39u8, 0x34u8, 0x66u8, 0x39u8, 0x31u8, 0x62u8,
        0x62u8, 0x62u8, 0x32u8, 0x63u8, 0x64u8, 0x66u8, 0x65u8, 0x63u8,
        0x35u8, 0x39u8, 0x31u8, 0x32u8, 0x65u8, 0x63u8, 0x38u8, 0x31u8,
        0x39u8, 0x36u8, 0x66u8, 0x64u8, 0x38u8, 0x35u8, 0x36u8, 0x32u8,
    ]
}

/// A header the parser accepts: the magic, a pinned version tag, and the
/// digest pinned for exactly that version.
pub open spec fn header_ok(h: Seq<u8>) -> bool {
    &&& h.len() >= 80
    &&& magic_ok(h)
    &&& version_field(h) == pinned_version()
    &&& h.subrange(40, 80) == pinned_digest()
}

fn digest_table() -> (r: [u8; 40])
    ensures
        r@ == pinned_digest(),
{
    let t: [u8; 40] = [
        0x64u8, 0x38u8, 0x32u8, 0x30u8, 0x34u8, 0x63u8, 0x39u8, 0x66u8,
        0x64u8, 0x38u8, 0x39u8, 0x34u8, 0x66u8, 0x39u8, 0x31u8, 0x62u8,
        0x62u8, 0x62u8, 0x32u8, 0x63u8, 0x64u8, 0x66u8, 0x65u8, 0x63u8,
        0x35u8, 0x39u8, 0x31u8, 0x32u8, 0x65u8, 0x63u8, 0x38u8, 0x31u8,
        0x39u8, 0x36u8, 0x66u8, 0x64u8, 0x38u8, 0x35u8, 0x36u8, 0x32u8,
    ];
    proof {
        assert(t@ =~= pinned_digest());
    }
    t
}

fn version_check(data: &[u8]) -> (b: bool)
    ensures
        b == header_ok(data@),
{
    let n = data.len();
    if n < 80 {
        return false;
    }
    if !(byte_at(data, 0) == 0x6f && byte_at(data, 1) == 0x6c && byte_at(data, 2) == 0x65
        && byte_at(data, 3) == 0x61 && byte_at(data, 4) == 0x6e && byte_at(data, 5) == 0x02
        && byte_at(data, 6) == 0x01 && byte_at(data, 7) == 0x34) {
        return false;
    }
    let ghost m = data@.subrange(8, 40);
    let mut i: usize = 32;
    proof {
        assert(m.take(32) =~= m);
    }
    loop
        invariant
            0 <= i <= 32,
            n == data@.len(),
            n >= 80,
            m == data@.subrange(8, 40),
            trimmed_len(m) == trimmed_len(m.take(i as int)),
        ensures
            0 <= i <= 32,
            trimmed_len(m) == i,
        decreases i,
    {
        if i == 0 {
            break;
        }
        if byte_at(data, 8 + i - 1) != 0 {
            proof {
                let t = m.take(i as int);
                assert(t.last() == m[i - 1]);
                assert(m[i - 1] == data@[8 + i - 1]);
                assert(trimmed_len(t) == i);
            }
            break;
        }
        proof {
            let t = m.take(i as int);
            assert(t.last() == m[i - 1]);
            assert(t.drop_last() =~= m.take(i - 1));
        }
        i = i - 1;
    }
    if i != 5 {
        proof {
            if version_field(data@) == pinned_version() {
                assert(version_field(data@).len() == 5);
            }
        }
        return false;
    }
    if !(byte_at(data, 8) == 0x2e && byte_at(data, 9) == 0x32 && byte_at(data, 10) == 0x36
        && byte_at(data, 11) == 0x2e && byte_at(data, 12) == 0x30) {
        proof {
            if version_field(data@) == pinned_version() {
                assert(version_field(data@)[0] == 0x2eu8);
                assert(version_field(data@)[1] == 0x32u8);
                assert(version_field(data@)[2] == 0x36u8);
                assert(version_field(data@)[3] == 0x2eu8);
                assert(version_field(data@)[4] == 0x30u8);
            }
        }
        return false;
    }
    proof {
        assert(version_field(data@) =~= pinned_version());
    }
    let digest = digest_table();
    let mut j: usize = 0;
    while j < 40
        invariant
            0 <= j <= 40,
            n == data@.len(),
            n >= 80,
            digest@ == pinned_digest(),
            forall|k: int| 0 <= k < j ==> data@[40 + k] == pinned_digest()[k],
        ensures
            0 <= j <= 40,
            n == data@.len(),
            n >= 80,
            j == 40 ==> data@.subrange(40, 80) =~= pinned_digest(),
            j < 40 ==> data@.subrange(40, 80) != pinned_digest(),
        decreases 40 - j,
    {
        if byte_at(data, 40 + j) != *vstd::array::array_index_get(&digest, j) {
            proof {
                if data@.subrange(40, 80) == pinned_digest() {
                    assert(data@.subrange(40, 80)[j as int] == pinned_digest()[j as int]);
                }
            }
            break;
        }
        j = j + 1;
    }
    j == 40
}

/// Recognizes the header of an accepted module and returns its pinned
/// version.
pub fn lean_version_80(header: &[u8; 80]) -> (r: Option<&'static str>)
    ensures
        r is Some <==> header_ok(header@),
        r matches Some(v) ==> v@ == pinned_version_chars(),
{
    lean_version(header.as_slice())
}

/// As `lean_version_80`, on a whole module buffer.
pub fn lean_version(payload: &[u8]) -> (r: Option<&'static str>)
    ensures
        r is Some <==> header_ok(payload@),
        r matches Some(v) ==> v@ == pinned_version_chars(),
{
    if version_check(payload) {
        let v = ".26.0";
        proof {
            reveal_strlit(".26.0");
            assert(v@ =~= pinned_version_chars());
        }
        Some(v)
    } else {
        None
    }
}

/// Byte offset of the section table, counted from the buffer contents.
pub open spec fn root_off(data: Seq<u8>) -> int
    recommends
        data.len() >= 96,
{
    le64_at(data, 88) - le64_at(data, 80)
}

/// A buffer whose header, base address and section table all validate.
pub open spec fn meta_ok(data: Seq<u8>) -> bool {
    &&& header_ok(data)
    &&& data.len() >= 96
    &&& le64_at(data, 88) >= le64_at(data, 80)
    &&& root_off(data) + 56 == data.len()
    &&& le64_at(data, root_off(data)) == ROOT_TAG
}

/// The validated shape of a module buffer: its base address and the seven
/// section offsets, ready for the section decoders.
#[derive(Clone, Copy)]
pub struct OleanMeta<'a> {
    pub data: &'a [u8],
    pub version: &'static str,
    pub base: u64,
    pub sections: [u64; 7],
}

impl<'a> OleanMeta<'a> {
    /// The fields are exactly what a validating parse of `data` yields.
    pub open spec fn wf(self) -> bool {
        &&& meta_ok(self.data@)
        &&& self.base == le64_at(self.data@, 80)
        &&& forall|k: int|
            0 <= k < 7 ==> self.sections@[k] == le64_at(
                self.data@,
                root_off(self.data@) + 8 * k,
            )
        &&& self.version@ == pinned_version_chars()
    }
}

/// Validates the header and section table of a module buffer.
pub fn parse_meta<'a>(payload: &'a [u8]) -> (r: Option<OleanMeta<'a>>)
    ensures
        r is Some <==> meta_ok(payload@),
        r matches Some(m) ==> m.wf() && m.data@ == payload@,
{
    let version = match lean_version(payload) {
        Some(v) => v,
        None => {
            return None;
        },
    };
    let n = payload.len();
    if n < 96 {
        return None;
    }
    let addr = read_le64(payload, 88);
    let base = read_le64(payload, 80);
    if addr < base {
        return None;
    }
    let off64 = addr - base;
    let len64 = n as u64;
    if off64 > len64 || len64 - off64 != 56 {
        return None;
    }
    let off = off64 as usize;
    let sections: [u64; 7] = [
        read_le64(payload, off),
        read_le64(payload, off + 8),
        read_le64(payload, off + 16),
        read_le64(payload, off + 24),
        read_le64(payload, off + 32),
        read_le64(payload, off + 40),
        read_le64(payload, off + 48),
    ];
    if sections[0] != ROOT_TAG {
        return None;
    }
    Some(OleanMeta { data: payload, version, base, sections })
}

/// The element words of the array node at offset `off`, when the node
/// validates.
pub open spec fn spec_array_at(data: Seq<u8>, off: int) -> Option<Seq<u64>> {
    if !(0 <= off && off + 24 <= data.len()) {
        None
    } else if le64_at(data, off) != ARRAY_TAG {
        None
    } else if le64_at(data, off + 8) != le64_at(data, off + 16) {
        None
    } else {
        let n = le64_at(data, off + 8) as int;
        if off + 24 + 8 * n > data.len() {
            None
        } else {
            Some(Seq::new(n as nat, |i: int| le64_at(data, off + 24 + 8 * i)))
        }
    }
}

fn array_at(data: &[u8], off: u64) -> (r: Option<Vec<u64>>)
    ensures
        r is Some <==> spec_array_at(data@, off as int) is Some,
        r matches Some(v) ==> Some(v@) == spec_array_at(data@, off as int),
{
    let p = match checked_off(data, 0, off, 24) {
        Some(p) => p,
        None => {
            return None;
        },
    };
    let dn = data.len();
    if read_le64(data, p) != ARRAY_TAG {
        return None;
    }
    let n = read_le64(data, p + 8);
    if n != read_le64(data, p + 16) {
        return None;
    }
    let len64 = dn as u64;
    if n > (len64 - (p as u64) - 24) / 8 {
        proof {
            assert(off + 24 + 8 * (n as int) > data@.len());
        }
        return None;
    }
    proof {
        assert(off + 24 + 8 * (n as int) <= data@.len());
    }
    let nn = n as usize;
    let mut v: Vec<u64> = Vec::new();
    let mut i: usize = 0;
    while i < nn
        invariant
            0 <= i <= nn,
            nn == n,
            p == off,
            p + 24 + 8 * (nn as int) <= data@.len(),
            data@.len() <= usize::MAX,
            v@.len() == i,
            forall|k: int| 0 <= k < i ==> v@[k] == le64_at(data@, p + 24 + 8 * k),
        decreases nn - i,
    {
        v.push(read_le64(data, p + 24 + 8 * i));
        i = i + 1;
    }
    proof {
        assert(Some(v@) =~~= spec_array_at(data@, off as int));
    }
    Some(v)
}

/// The decoded string node at address `addr`, when the node validates and
/// its bytes are valid UTF-8.
pub open spec fn spec_str_at(data: Seq<u8>, base: u64, addr: u64) -> Option<Seq<char>> {
    if addr < base {
        None
    } else {
        let p = addr - base;
        if p + 32 > data.len() {
            None
        } else if le64_at(data, p) != STR_TAG {
            None
        } else {
            let slen = le64_at(data, p + 24) as int;
            if p + 32 + slen > data.len() {
                None
            } else {
                let bytes = data.subrange(p + 32, p + 32 + slen);
                if valid_utf8(bytes) {
                    Some(decode_utf8(bytes))
                } else {
                    None
                }
            }
        }
    }
}

fn str_at<'a>(data: &'a [u8], base: u64, addr: u64) -> (r: Option<&'a str>)
    ensures
        r is Some <==> spec_str_at(data@, base, addr) is Some,
        r matches Some(s) ==> Some(s@) == spec_str_at(data@, base, addr),
{
    let p = match checked_off(data, base, addr, 32) {
        Some(p) => p,
        None => {
            return None;
        },
    };
    let dn = data.len();
    if read_le64(data, p) != STR_TAG {
        return None;
    }
    let slen = read_le64(data, p + 24);
    let len64 = dn as u64;
    if slen > len64 - (p as u64) - 32 {
        return None;
    }
    let bytes = vstd::slice::slice_subrange(data, p + 32, p + 32 + (slen as usize));
    decode_str(bytes)
}

/// A prefix of characters, compared one for one.
pub open spec fn has_prefix(s: Seq<char>, p: Seq<char>) -> bool {
    p.len() <= s.len() && s.subrange(0, p.len() as int) == p
}

pub(crate) fn starts_with_chars(s: &str, p: &str) -> (b: bool)
    ensures
        b == has_prefix(s@, p@),
{
    let sn = s.unicode_len();
    let pn = p.unicode_len();
    if pn > sn {
        proof {
            if has_prefix(s@, p@) {
                assert(p@.len() <= s@.len());
            }
        }
        return false;
    }
    let mut i: usize = 0;
    while i < pn
        invariant
            0 <= i <= pn,
            pn == p@.len(),
            sn == s@.len(),
            pn <= sn,
            forall|j: int| 0 <= j < i ==> s@[j] == p@[j],
        decreases pn - i,
    {
        if s.get_char(i) != p.get_char(i) {
            proof {
                if has_prefix(s@, p@) {
                    assert(s@.subrange(0, p@.len() as int)[i as int] == p@[i as int]);
                }
            }
            return false;
        }
        i = i + 1;
    }
    proof {
        assert(s@.subrange(0, p@.len() as int) =~= p@);
    }
    true
}

/// A reserved congruence-lemma name: `hcongr_` followed by digits only.
pub open spec fn hcongr_reserved(s: Seq<char>) -> bool {
    &&& has_prefix(s, seq!['h', 'c', 'o', 'n', 'g', 'r', '_'])
    &&& forall|i: int| 7 <= i < s.len() ==> 0x30 <= (#[trigger] s[i]) as u32 <= 0x39
}

/// Internal or autogenerated declaration names, which the parser drops.
pub open spec fn internal_name(s: Seq<char>) -> bool {
    ||| has_prefix(s, seq!['_'])
    ||| has_prefix(s, seq!['e', 'q', '_'])
    ||| has_prefix(s, seq!['m', 'a', 't', 'c', 'h', '_'])
    ||| has_prefix(s, seq!['o', 'm', 'e', 'g', 'a', '_'])
    ||| has_prefix(s, seq!['p', 'r', 'o', 'o', 'f', '_'])
    ||| s == seq!['c', 'o', 'n', 'g', 'r', '_', 's', 'i', 'm', 'p']
    ||| hcongr_reserved(s)
}

/// Recognizes the reserved numbered congruence-lemma family.
pub fn is_hcongr_reserved_name_suffix(s: &str) -> (b: bool)
    ensures
        b == hcongr_reserved(s@),
{
    let pre = "hcongr_";
    proof {
        reveal_strlit("hcongr_");
        assert(pre@ =~= seq!['h', 'c', 'o', 'n', 'g', 'r', '_']);
    }
    if !starts_with_chars(s, pre) {
        return false;
    }
    let n = s.unicode_len();
    let mut i: usize = 7;
    while i < n
        invariant
            7 <= i <= n,
            n == s@.len(),
            has_prefix(s@, seq!['h', 'c', 'o', 'n', 'g', 'r', '_']),
            forall|j: int| 7 <= j < i ==> 0x30 <= (#[trigger] s@[j]) as u32 <= 0x39,
        decreases n - i,
    {
        let c = s.get_char(i) as u32;
        proof {
            vstd::utf8::char_u32_cast(s@[i as int], c);
        }
        if c < 0x30 || c > 0x39 {
            return false;
        }
        i = i + 1;
    }
    true
}

/// Recognizes internal and autogenerated declaration names.
pub fn is_internal(s: &str) -> (b: bool)
    ensures
        b == internal_name(s@),
{
    let p1 = "_";
    let p2 = "eq_";
    let p3 = "match_";
    let p4 = "omega_";
    let p5 = "proof_";
    let p6 = "congr_simp";
    proof {
        reveal_strlit("_");
        reveal_strlit("eq_");
        reveal_strlit("match_");
        reveal_strlit("omega_");
        reveal_strlit("proof_");
        reveal_strlit("congr_simp");
        assert(p1@ =~= seq!['_']);
        assert(p2@ =~= seq!['e', 'q', '_']);
        assert(p3@ =~= seq!['m', 'a', 't', 'c', 'h', '_']);
        assert(p4@ =~= seq!['o', 'm', 'e', 'g', 'a', '_']);
        assert(p5@ =~= seq!['p', 'r', 'o', 'o', 'f', '_']);
        assert(p6@ =~= seq!['c', 'o', 'n', 'g', 'r', '_', 's', 'i', 'm', 'p']);
    }
    starts_with_chars(s, p1) || starts_with_chars(s, p2) || starts_with_chars(s, p3)
        || starts_with_chars(s, p4) || starts_with_chars(s, p5) || crate::names::str_eq_chars(
        s,
        p6,
    ) || is_hcongr_reserved_name_suffix(s)
}

/// The dotted name rooted at address `addr`, decoded to at most `depth`
/// components: each component a valid non-internal identifier, joined by
/// dots.
pub open spec fn spec_name_at(data: Seq<u8>, base: u64, addr: u64, depth: nat) -> Option<
    Seq<char>,
>
    decreases depth,
{
    if depth == 0 {
        None
    } else if addr < base {
        None
    } else {
        let p = addr - base;
        if p + 32 > data.len() {
            None
        } else if le64_at(data, p) != NAME_TAG {
            None
        } else {
            let recur = le64_at(data, p + 8);
            let strg = le64_at(data, p + 16);
            match spec_str_at(data, base, strg) {
                None => None,
                Some(last) => if !lean_id(last) || internal_name(last) {
                    None
                } else if recur == 1 {
                    Some(last)
                } else {
                    match spec_name_at(data, base, recur, (depth - 1) as nat) {
                        None => None,
                        Some(prefix) => Some(prefix + seq!['.'] + last),
                    }
                },
            }
        }
    }
}

#[allow(unused_variables)]
fn name_at(data: &[u8], base: u64, addr: u64, depth: u64) -> (r: Option<String>)
    ensures
        r is Some <==> spec_name_at(data@, base, addr, depth as nat) is Some,
        r matches Some(s) ==> Some(s@) == spec_name_at(data@, base, addr, depth as nat),
    decreases depth,
{
    if depth == 0 {
        return None;
    }
    let p = match checked_off(data, base, addr, 32) {
        Some(p) => p,
        None => {
            return None;
        },
    };
    let dn = data.len();
    if read_le64(data, p) != NAME_TAG {
        return None;
    }
    let recur = read_le64(data, p + 8);
    let strg = read_le64(data, p + 16);
    let last = match str_at(data, base, strg) {
        Some(s) => s,
        None => {
            return None;
        },
    };
    if !is_lean_id(last) {
        return None;
    }
    if is_internal(last) {
        return None;
    }
    if recur == 1 {
        Some(String::from_str(last))
    } else {
        let prefix = match name_at(data, base, recur, depth - 1) {
            Some(s) => s,
            None => {
                return None;
            },
        };
        let dot = ".";
        proof {
            reveal_strlit(".");
            assert(dot@ =~= seq!['.']);
        }
        let mut out = prefix;
        out.append(dot);
        out.append(last);
        Some(out)
    }
}

/// The element words of the array node a section points at, when the
/// section offset and the node validate.
pub open spec fn spec_section_entries(data: Seq<u8>, base: u64, section: u64) -> Option<
    Seq<u64>,
> {
    if section < base {
        None
    } else {
        spec_array_at(data, section - base)
    }
}

/// The set of names decoded from a list of node addresses; addresses that
/// decode to no valid name contribute nothing.
pub open spec fn name_set_of(data: Seq<u8>, base: u64, addrs: Seq<u64>) -> Set<Seq<char>> {
    Set::new(
        |nm: Seq<char>|
            exists|i: int|
                0 <= i < addrs.len() && spec_name_at(data, base, addrs[i], NAME_DEPTH as nat)
                    == Some(nm),
    )
}

spec fn prefix_name_set(data: Seq<u8>, base: u64, addrs: Seq<u64>, n: int) -> Set<Seq<char>> {
    Set::new(
        |nm: Seq<char>|
            exists|i: int|
                0 <= i < n && spec_name_at(data, base, addrs[i], NAME_DEPTH as nat) == Some(nm),
    )
}

/// Decodes, sorts and deduplicates the exported declaration names of a
/// validated module.
pub fn parse_consts(meta: OleanMeta<'_>) -> (r: Option<Vec<String>>)
    requires
        meta.wf(),
    ensures
        r is Some <==> spec_section_entries(meta.data@, meta.base, meta.sections@[2]) is Some,
        r matches Some(v) ==> {
            let addrs = spec_section_entries(meta.data@, meta.base, meta.sections@[2])->Some_0;
            &&& strictly_sorted(v@)
            &&& views_of(v@) == name_set_of(meta.data@, meta.base, addrs)
        },
{
    let data = meta.data;
    let base = meta.base;
    let section = meta.sections[2];
    if section < base {
        return None;
    }
    let raw = match array_at(data, section - base) {
        Some(v) => v,
        None => {
            return None;
        },
    };
    Some(collect_names(data, base, &raw))
}

/// Decodes a list of name-node addresses into a sorted, duplicate-free
/// name list.
fn collect_names(data: &[u8], base: u64, raw: &Vec<u64>) -> (v: Vec<String>)
    ensures
        strictly_sorted(v@),
        views_of(v@) == name_set_of(data@, base, raw@),
{
    let n = raw.len();
    let mut out: Vec<String> = Vec::new();
    let mut i: usize = 0;
    proof {
        assert(views_of(out@) =~= prefix_name_set(data@, base, raw@, 0));
    }
    while i < n
        invariant
            0 <= i <= n,
            n == raw@.len(),
            strictly_sorted(out@),
            views_of(out@) == prefix_name_set(data@, base, raw@, i as int),
        decreases n - i,
    {
        let ghost before = views_of(out@);
        match name_at(data, base, raw[i], NAME_DEPTH) {
            Some(nm) => {
                let ghost nmv = nm@;
                insert_name(&mut out, nm);
                proof {
                    assert(prefix_name_set(data@, base, raw@, i + 1) =~= before.insert(nmv)) by {
                        assert forall|t: Seq<char>|
                            prefix_name_set(data@, base, raw@, i + 1).contains(
                                t,
                            ) implies before.insert(nmv).contains(t) by {
                            let k = choose|k: int|
                                0 <= k < i + 1 && spec_name_at(
                                    data@,
                                    base,
                                    raw@[k],
                                    NAME_DEPTH as nat,
                                ) == Some(t);
                            if k < i {
                                assert(prefix_name_set(data@, base, raw@, i as int).contains(t));
                            }
                        }
                        assert forall|t: Seq<char>|
                            before.insert(nmv).contains(t) implies prefix_name_set(
                            data@,
                            base,
                            raw@,
                            i + 1,
                        ).contains(t) by {
                            if t == nmv {
                                assert(spec_name_at(data@, base, raw@[i as int], NAME_DEPTH as nat)
                                    == Some(t));
                            } else {
                                let k = choose|k: int|
                                    0 <= k < i && spec_name_at(
                                        data@,
                                        base,
                                        raw@[k],
                                        NAME_DEPTH as nat,
                                    ) == Some(t);
                                assert(0 <= k < i + 1);
                            }
                        }
                    }
                }
            },
            None => {
                proof {
                    assert(prefix_name_set(data@, base, raw@, i + 1) =~= before) by {
                        assert forall|t: Seq<char>|
                            prefix_name_set(data@, base, raw@, i + 1).contains(
                                t,
                            ) implies before.contains(t) by {
                            let k = choose|k: int|
                                0 <= k < i + 1 && spec_name_at(
                                    data@,
                                    base,
                                    raw@[k],
                                    NAME_DEPTH as nat,
                                ) == Some(t);
                            assert(k < i);
                            assert(prefix_name_set(data@, base, raw@, i as int).contains(t));
                        }
                    }
                }
            },
        }
        i = i + 1;
    }
    proof {
        assert(prefix_name_set(data@, base, raw@, n as int) =~= name_set_of(data@, base, raw@));
    }
    out
}

/// The address of the name node an import entry points at, read from the
/// entry's second word.
pub open spec fn spec_import_ref(data: Seq<u8>, base: u64, entry: u64) -> Option<u64> {
    if entry < base {
        None
    } else if entry - base + 16 > data.len() {
        None
    } else {
        Some(le64_at(data, entry - base + 8))
    }
}

/// The name-node addresses of all import entries, when every entry
/// validates.
pub open spec fn spec_import_refs(data: Seq<u8>, base: u64, entries: Seq<u64>) -> Option<
    Seq<u64>,
> {
    if forall|i: int| 0 <= i < entries.len() ==> spec_import_ref(data, base, entries[i]) is Some {
        Some(Seq::new(entries.len(), |i: int| spec_import_ref(data, base, entries[i])->Some_0))
    } else {
        None
    }
}

/// Decodes, sorts and deduplicates the imported module names of a
/// validated module.
pub fn parse_imports(meta: OleanMeta<'_>) -> (r: Option<Vec<String>>)
    requires
        meta.wf(),
    ensures
        r is Some <==> {
            let entries = spec_section_entries(meta.data@, meta.base, meta.sections@[1]);
            entries is Some && spec_import_refs(meta.data@, meta.base, entries->Some_0) is Some
        },
        r matches Some(v) ==> {
            let entries = spec_section_entries(meta.data@, meta.base, meta.sections@[1])->Some_0;
            let refs = spec_import_refs(meta.data@, meta.base, entries)->Some_0;
            &&& strictly_sorted(v@)
            &&& views_of(v@) == name_set_of(meta.data@, meta.base, refs)
        },
{
    let data = meta.data;
    let base = meta.base;
    let section = meta.sections[1];
    if section < base {
        return None;
    }
    let raw = match array_at(data, section - base) {
        Some(v) => v,
        None => {
            return None;
        },
    };
    let n = raw.len();
    let dn = data.len();
    let mut refs: Vec<u64> = Vec::new();
    let mut i: usize = 0;
    while i < n
        invariant
            0 <= i <= n,
            n == raw@.len(),
            meta.wf(),
            data@ == meta.data@,
            base == meta.base,
            Some(raw@) == spec_section_entries(meta.data@, meta.base, meta.sections@[1]),
            data@.len() <= usize::MAX,
            refs@.len() == i,
            forall|k: int|
                0 <= k < i ==> Some(#[trigger] refs@[k]) == spec_import_ref(data@, base, raw@[k]),
        decreases n - i,
    {
        let entry = raw[i];
        let p = match checked_off(data, base, entry, 16) {
            Some(p) => p,
            None => {
                proof {
                    assert(spec_import_ref(data@, base, raw@[i as int]) is None);
                    assert(spec_import_refs(meta.data@, meta.base, raw@) is None);
                }
                return None;
            },
        };
        refs.push(read_le64(data, p + 8));
        i = i + 1;
    }
    proof {
        assert forall|k: int| 0 <= k < raw@.len() implies spec_import_ref(
            data@,
            base,
            raw@[k],
        ) is Some by {
            assert(Some(refs@[k]) == spec_import_ref(data@, base, raw@[k]));
        }
        assert(refs@ =~= Seq::new(raw@.len(), |k: int| spec_import_ref(data@, base, raw@[k])->Some_0));
    }
    Some(collect_names(data, base, &refs))
}

/// Basic shape of the trimmed length: it marks the last non-zero byte.
pub proof fn lemma_trimmed_len_props(s: Seq<u8>)
    ensures
        0 <= trimmed_len(s) <= s.len(),
        forall|j: int| trimmed_len(s) <= j < s.len() ==> s[j] == 0,
        trimmed_len(s) > 0 ==> s[trimmed_len(s) - 1] != 0,
    decreases s.len(),
{
    if s.len() == 0 {
    } else if s.last() != 0 {
    } else {
        lemma_trimmed_len_props(s.drop_last());
        assert forall|j: int| trimmed_len(s) <= j < s.len() implies s[j] == 0 by {
            if j < s.len() - 1 {
                assert(s.drop_last()[j] == s[j]);
            }
        }
    }
}

/// Corrupting any single byte of an accepted header makes the header
/// check fail: the magic, the version tag, its zero padding and the pinned
/// digest each pin every byte of the first 80.
pub proof fn lemma_header_corruption(h: Seq<u8>, h2: Seq<u8>, i: int)
    requires
        header_ok(h),
        h2.len() == h.len(),
        0 <= i < 80,
        h2[i] != h[i],
        forall|j: int| 0 <= j < h2.len() && j != i ==> h2[j] == h[j],
    ensures
        !header_ok(h2),
{
    if header_ok(h2) {
        if i < 8 {
            assert(h2[i] == h[i]) by {
                if i == 0 {
                } else if i == 1 {
                } else if i == 2 {
                } else if i == 3 {
                } else if i == 4 {
                } else if i == 5 {
                } else if i == 6 {
                } else {
                }
            }
        } else if i < 40 {
            let m = h.subrange(8, 40);
            let m2 = h2.subrange(8, 40);
            lemma_trimmed_len_props(m);
            lemma_trimmed_len_props(m2);
            assert(version_field(h).len() == trimmed_len(m));
            assert(version_field(h2).len() == trimmed_len(m2));
            assert(trimmed_len(m) == 5);
            assert(trimmed_len(m2) == 5);
            let idx = i - 8;
            assert(m[idx] == h[i]);
            assert(m2[idx] == h2[i]);
            if idx < 5 {
                assert(m.subrange(0, 5)[idx] == m[idx]);
                assert(m2.subrange(0, 5)[idx] == m2[idx]);
                assert(m[idx] == pinned_version()[idx]);
                assert(m2[idx] == pinned_version()[idx]);
            } else {
                assert(m[idx] == 0);
                assert(m2[idx] == 0);
            }
        } else {
            let k = i - 40;
            assert(h.subrange(40, 80)[k] == h[i]);
            assert(h2.subrange(40, 80)[k] == h2[i]);
            assert(h.subrange(40, 80)[k] == pinned_digest()[k]);
            assert(h2.subrange(40, 80)[k] == pinned_digest()[k]);
        }
    }
}

/// A name as the parser exports it: one valid, non-internal identifier, or
/// such a component appended with a dot to another exportable name.
pub open spec fn exportable_name(s: Seq<char>) -> bool
    decreases s.len(),
{
    ||| (lean_id(s) && !internal_name(s))
    ||| exists|k: int|
        0 < k < s.len() && #[trigger] s[k] == '.' && exportable_name(s.subrange(0, k)) && lean_id(
            s.subrange(k + 1, s.len() as int),
        ) && !internal_name(s.subrange(k + 1, s.len() as int))
}

proof fn lemma_name_at_exportable(data: Seq<u8>, base: u64, addr: u64, depth: nat)
    requires
        spec_name_at(data, base, addr, depth) is Some,
    ensures
        exportable_name(spec_name_at(data, base, addr, depth)->Some_0),
    decreases depth,
{
    let p = addr - base;
    let recur = le64_at(data, p + 8);
    let strg = le64_at(data, p + 16);
    let last = spec_str_at(data, base, strg)->Some_0;
    if recur == 1 {
    } else {
        lemma_name_at_exportable(data, base, recur, (depth - 1) as nat);
        let prefix = spec_name_at(data, base, recur, (depth - 1) as nat)->Some_0;
        let s = prefix + seq!['.'] + last;
        let k = prefix.len() as int;
        assert(lean_id(last));
        assert(last.len() > 0);
        assert(s[k] == '.');
        assert(s.subrange(0, k) =~= prefix);
        assert(s.subrange(k + 1, s.len() as int) =~= last);
        assert(exportable_name(s.subrange(0, k)));
        assert(0 < k < s.len());
        assert(exportable_name(s)) by {
            assert(0 < k < s.len() && s[k] == '.' && exportable_name(s.subrange(0, k)) && lean_id(
                s.subrange(k + 1, s.len() as int),
            ) && !internal_name(s.subrange(k + 1, s.len() as int)));
        }
    }
}

/// Internal and autogenerated declarations never appear in a parsed list:
/// every name either list holds is a dotted chain of valid, non-internal
/// identifier components.
pub proof fn lemma_parsed_names_exportable(
    data: Seq<u8>,
    base: u64,
    addrs: Seq<u64>,
    nm: Seq<char>,
)
    requires
        name_set_of(data, base, addrs).contains(nm),
    ensures
        exportable_name(nm),
{
    let i = choose|i: int|
        0 <= i < addrs.len() && spec_name_at(data, base, addrs[i], NAME_DEPTH as nat) == Some(nm);
    lemma_name_at_exportable(data, base, addrs[i], NAME_DEPTH as nat);
}

} // verus!
