//! Escaping for SQL `like` patterns over module-name columns.
//!
//! A search term is wrapped in wildcards, with the pattern metacharacters
//! escaped; a lazy variant keeps user-written leading and trailing stars
//! as wildcards. Results are the raw pattern bytes.

use vstd::prelude::*;
use vstd::string::StringSliceAdditionalSpecFns;

verus! {

/// A byte the pattern language treats specially: `%`, `\` and `_`.
pub open spec fn spec_need_escape(ch: u8) -> bool {
    ch == 0x25 || ch == 0x5c || ch == 0x5f
}

/// Whether a byte must be escaped in a pattern.
pub fn need_escape(ch: u8) -> (r: bool)
    ensures
        r == spec_need_escape(ch),
{
    ch == 0x25 || ch == 0x5c || ch == 0x5f
}

/// The bytes with a backslash put before each metacharacter.
pub open spec fn spec_escaped(s: Seq<u8>) -> Seq<u8>
    decreases s.len(),
{
    if s.len() == 0 {
        Seq::empty()
    } else {
        spec_escaped(s.drop_last()) + if spec_need_escape(s.last()) {
            seq![0x5cu8, s.last()]
        } else {
            seq![s.last()]
        }
    }
}

fn escape_raw(s: &str) -> (r: Vec<u8>)
    ensures
        r@ == spec_escaped(s.spec_bytes()),
{
    let bytes = s.as_bytes();
    let n = bytes.len();
    let mut out: Vec<u8> = Vec::new();
    let mut i: usize = 0;
    proof {
        assert(bytes@.take(0) =~= Seq::<u8>::empty());
        assert(out@ =~= spec_escaped(bytes@.take(0)));
    }
    while i < n
        invariant
            0 <= i <= n,
            n == bytes@.len(),
            out@ == spec_escaped(bytes@.take(i as int)),
        decreases n - i,
    {
        let b = *vstd::slice::slice_index_get(bytes, i);
        if need_escape(b) {
            out.push(0x5c);
        }
        out.push(b);
        proof {
            let t = bytes@.take(i + 1);
            assert(t.drop_last() =~= bytes@.take(i as int));
            assert(t.last() == bytes@[i as int]);
            assert(out@ =~= spec_escaped(t));
        }
        i = i + 1;
    }
    proof {
        assert(bytes@.take(n as int) =~= bytes@);
    }
    out
}

/// The substring-search pattern for a term: the escaped bytes between two
/// wildcards.
pub fn escape(s: &str) -> (r: Vec<u8>)
    ensures
        r@ == seq![0x25u8] + spec_escaped(s.spec_bytes()) + seq![0x25u8],
{
    let mut out: Vec<u8> = Vec::new();
    out.push(0x25);
    let mid = escape_raw(s);
    out.extend_from_slice(mid.as_slice());
    out.push(0x25);
    proof {
        assert(out@ =~= seq![0x25u8] + spec_escaped(s.spec_bytes()) + seq![0x25u8]);
    }
    out
}

/// A term that is nothing but up to two stars matches everything and is
/// rejected.
pub open spec fn all_stars_short(s: Seq<u8>) -> bool {
    s.len() < 3 && forall|i: int| 0 <= i < s.len() ==> s[i] == 0x2a
}

/// The pattern for a term whose own leading and trailing star, if any,
/// stay wildcards; a term of nothing but up to two stars is rejected.
pub fn escape_lazy(s: &str) -> (r: Option<Vec<u8>>)
    ensures
        r is None <==> all_stars_short(s.spec_bytes()),
        r matches Some(v) ==> ({
            let e = spec_escaped(s.spec_bytes());
            &&& v@.len() == e.len()
            &&& forall|i: int| 0 < i < e.len() - 1 ==> v@[i] == e[i]
            &&& (e.len() > 0 ==> v@[0] == (if e[0] == 0x2a {
                0x25u8
            } else {
                e[0]
            }))
            &&& (e.len() > 1 ==> v@[e.len() - 1] == (if e[e.len() - 1] == 0x2a {
                0x25u8
            } else {
                e[e.len() - 1]
            }))
        }),
{
    let bytes = s.as_bytes();
    let n = bytes.len();
    if n < 3 {
        let mut stars = true;
        let mut i: usize = 0;
        while i < n
            invariant
                0 <= i <= n,
                n == bytes@.len(),
                stars == forall|k: int| 0 <= k < i ==> bytes@[k] == 0x2a,
            decreases n - i,
        {
            let b = *vstd::slice::slice_index_get(bytes, i);
            if b != 0x2a {
                stars = false;
            }
            i = i + 1;
        }
        if stars {
            return None;
        }
    }
    let mut t = escape_raw(s);
    let m = t.len();
    if m > 0 {
        if t[0] == 0x2a {
            crate::lquery::set_byte(&mut t, 0, 0x25);
        }
    }
    if m > 1 {
        if t[m - 1] == 0x2a {
            crate::lquery::set_byte(&mut t, m - 1, 0x25);
        }
    }
    Some(t)
}

/// Replaces one byte of a buffer.
pub(crate) fn set_byte(v: &mut Vec<u8>, i: usize, b: u8)
    requires
        i < old(v)@.len(),
    ensures
        final(v)@ == old(v)@.update(i as int, b),
{
    let ghost before = v@;
    let _ = v.remove(i);
    v.insert(i, b);
    proof {
        assert(v@ =~= before.update(i as int, b));
    }
}

} // verus!
