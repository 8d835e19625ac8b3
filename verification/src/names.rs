//! Dotted declaration names: code-point order, sorted and duplicate-free
//! collections of names.
//!
//! The parser returns name lists sorted in strictly increasing order, which
//! makes them duplicate-free by construction. Order is lexicographic over
//! the characters' code points.

use vstd::prelude::*;
use vstd::string::StrSliceExecFns;

verus! {

/// Strict lexicographic order on character sequences by code point.
pub open spec fn seq_lt(a: Seq<char>, b: Seq<char>) -> bool
    decreases a.len(),
{
    if b.len() == 0 {
        false
    } else if a.len() == 0 {
        true
    } else if (a[0] as u32) < (b[0] as u32) {
        true
    } else if a[0] == b[0] {
        seq_lt(a.drop_first(), b.drop_first())
    } else {
        false
    }
}

/// Of two distinct sequences one is strictly below the other; equal
/// sequences are below neither.
pub proof fn lemma_seq_lt_trichotomy(a: Seq<char>, b: Seq<char>)
    ensures
        a == b ==> !seq_lt(a, b) && !seq_lt(b, a),
        a != b ==> (seq_lt(a, b) <==> !seq_lt(b, a)),
    decreases a.len() + b.len(),
{
    if a.len() == 0 && b.len() == 0 {
        assert(a =~= b);
    } else if a.len() == 0 || b.len() == 0 {
        assert(a != b);
    } else {
        if a[0] == b[0] {
            lemma_seq_lt_trichotomy(a.drop_first(), b.drop_first());
            if a.drop_first() == b.drop_first() {
                assert(a =~= b) by {
                    assert(forall|i: int|
                        1 <= i < a.len() ==> #[trigger] a[i] == a.drop_first()[i - 1]);
                    assert(forall|i: int|
                        1 <= i < b.len() ==> #[trigger] b[i] == b.drop_first()[i - 1]);
                }
            } else {
                assert(a != b) by {
                    assert(a.drop_first() != b.drop_first());
                    if a == b {
                        assert(a.drop_first() =~= b.drop_first());
                    }
                }
            }
        } else {
            assert((a[0] as u32) != (b[0] as u32)) by {
                vstd::utf8::char_u32_cast(a[0], a[0] as u32);
                vstd::utf8::char_u32_cast(b[0], b[0] as u32);
            }
            assert(a != b) by {
                if a == b {
                    assert(a[0] == b[0]);
                }
            }
        }
    }
}

/// Strict order is transitive.
pub proof fn lemma_seq_lt_trans(a: Seq<char>, b: Seq<char>, c: Seq<char>)
    requires
        seq_lt(a, b),
        seq_lt(b, c),
    ensures
        seq_lt(a, c),
    decreases a.len() + b.len() + c.len(),
{
    if c.len() == 0 {
    } else if b.len() == 0 {
    } else if a.len() == 0 {
    } else {
        if a[0] == b[0] && b[0] == c[0] {
            lemma_seq_lt_trans(a.drop_first(), b.drop_first(), c.drop_first());
        } else {
            vstd::utf8::char_u32_cast(a[0], a[0] as u32);
            vstd::utf8::char_u32_cast(b[0], b[0] as u32);
            vstd::utf8::char_u32_cast(c[0], c[0] as u32);
        }
    }
}

/// Compares two names in code-point order.
pub fn str_lt(a: &str, b: &str) -> (r: bool)
    ensures
        r == seq_lt(a@, b@),
{
    let an = a.unicode_len();
    let bn = b.unicode_len();
    let mut i: usize = 0;
    proof {
        assert(a@.skip(0) =~= a@);
        assert(b@.skip(0) =~= b@);
    }
    loop
        invariant
            0 <= i <= an,
            0 <= i <= bn,
            an == a@.len(),
            bn == b@.len(),
            forall|j: int| 0 <= j < i ==> a@[j] == b@[j],
            seq_lt(a@, b@) == seq_lt(a@.skip(i as int), b@.skip(i as int)),
        decreases an - i,
    {
        proof {
            lemma_seq_lt_step(a@, b@, i as int);
        }
        if i >= bn {
            return false;
        }
        if i >= an {
            return true;
        }
        let ca = a.get_char(i) as u32;
        let cb = b.get_char(i) as u32;
        proof {
            vstd::utf8::char_u32_cast(a@[i as int], ca);
            vstd::utf8::char_u32_cast(b@[i as int], cb);
        }
        if ca < cb {
            return true;
        }
        if ca > cb {
            return false;
        }
        i = i + 1;
    }
}

/// One unfolding of `seq_lt` on the tails starting at `i`.
proof fn lemma_seq_lt_step(a: Seq<char>, b: Seq<char>, i: int)
    requires
        0 <= i <= a.len(),
        0 <= i <= b.len(),
    ensures
        i == b.len() ==> !seq_lt(a.skip(i), b.skip(i)),
        i < b.len() && i == a.len() ==> seq_lt(a.skip(i), b.skip(i)),
        i < a.len() && i < b.len() && (a[i] as u32) < (b[i] as u32) ==> seq_lt(
            a.skip(i),
            b.skip(i),
        ),
        i < a.len() && i < b.len() && (a[i] as u32) > (b[i] as u32) ==> !seq_lt(
            a.skip(i),
            b.skip(i),
        ),
        i < a.len() && i < b.len() && a[i] == b[i] ==> seq_lt(a.skip(i), b.skip(i)) == seq_lt(
            a.skip(i + 1),
            b.skip(i + 1),
        ),
{
    if i < a.len() && i < b.len() {
        vstd::utf8::char_u32_cast(a[i], a[i] as u32);
        vstd::utf8::char_u32_cast(b[i], b[i] as u32);
        assert(a.skip(i).drop_first() =~= a.skip(i + 1));
        assert(b.skip(i).drop_first() =~= b.skip(i + 1));
    }
}

/// Equality of two names, character for character.
pub fn str_eq_chars(a: &str, b: &str) -> (r: bool)
    ensures
        r == (a@ == b@),
{
    let an = a.unicode_len();
    let bn = b.unicode_len();
    if an != bn {
        proof {
            if a@ == b@ {
                assert(a@.len() == b@.len());
            }
        }
        return false;
    }
    let mut i: usize = 0;
    while i < an
        invariant
            0 <= i <= an,
            an == a@.len(),
            an == b@.len(),
            forall|j: int| 0 <= j < i ==> a@[j] == b@[j],
        decreases an - i,
    {
        if a.get_char(i) != b.get_char(i) {
            proof {
                if a@ == b@ {
                    assert(a@[i as int] == b@[i as int]);
                }
            }
            return false;
        }
        i = i + 1;
    }
    proof {
        assert(a@ =~= b@);
    }
    true
}

/// The names a list holds, as a set of character sequences.
pub open spec fn views_of(v: Seq<String>) -> Set<Seq<char>> {
    Set::new(|s: Seq<char>| exists|i: int| 0 <= i < v.len() && v[i]@ == s)
}

/// A list of names in strictly increasing order (so duplicate-free).
pub open spec fn strictly_sorted(v: Seq<String>) -> bool {
    forall|i: int, j: int| 0 <= i < j < v.len() ==> seq_lt(#[trigger] v[i]@, #[trigger] v[j]@)
}

/// Whether a name list holds a given name.
pub fn contains_name(v: &Vec<String>, s: &str) -> (r: bool)
    ensures
        r == views_of(v@).contains(s@),
{
    let n = v.len();
    let mut i: usize = 0;
    while i < n
        invariant
            0 <= i <= n,
            n == v@.len(),
            forall|k: int| 0 <= k < i ==> (#[trigger] v@[k])@ != s@,
        decreases n - i,
    {
        if str_eq_chars(v[i].as_str(), s) {
            return true;
        }
        i = i + 1;
    }
    proof {
        if views_of(v@).contains(s@) {
            let k = choose|k: int| 0 <= k < v@.len() && v@[k]@ == s@;
        }
    }
    false
}

/// Inserts a name into a sorted list, keeping it sorted and dropping the
/// name if it is already present.
pub fn insert_name(out: &mut Vec<String>, s: String)
    requires
        strictly_sorted(old(out)@),
    ensures
        strictly_sorted(final(out)@),
        views_of(final(out)@) == views_of(old(out)@).insert(s@),
{
    let ghost orig = out@;
    let n = out.len();
    let mut idx: usize = 0;
    while idx < n
        invariant
            0 <= idx <= n,
            n == out@.len(),
            out@ == orig,
            strictly_sorted(orig),
            forall|j: int| 0 <= j < idx ==> seq_lt(#[trigger] orig[j]@, s@),
        ensures
            0 <= idx <= n,
            n == out@.len(),
            out@ == orig,
            forall|j: int| 0 <= j < idx ==> seq_lt(#[trigger] orig[j]@, s@),
            idx < n ==> !seq_lt(orig[idx as int]@, s@),
        decreases n - idx,
    {
        if !str_lt(out[idx].as_str(), s.as_str()) {
            break;
        }
        idx = idx + 1;
    }
    if idx < n {
        if str_eq_chars(out[idx].as_str(), s.as_str()) {
            proof {
                assert(views_of(orig).insert(s@) =~= views_of(orig));
            }
            return;
        }
    }
    proof {
        lemma_seq_lt_trichotomy(orig[idx as int]@, s@);
        assert(idx < n ==> seq_lt(s@, orig[idx as int]@));
    }
    out.insert(idx, s);
    proof {
        let new = out@;
        assert forall|i: int, j: int| 0 <= i < j < new.len() implies seq_lt(
            #[trigger] new[i]@,
            #[trigger] new[j]@,
        ) by {
            let ii = if i < idx {
                i
            } else {
                i - 1
            };
            let jj = if j < idx {
                j
            } else {
                j - 1
            };
            if i == idx {
                if idx < n {
                    if jj > idx {
                        lemma_seq_lt_trans(s@, orig[idx as int]@, orig[jj]@);
                    }
                }
            } else if j == idx {
            } else {
                assert(seq_lt(orig[ii]@, orig[jj]@));
            }
        }
        assert(views_of(new) =~= views_of(orig).insert(s@)) by {
            assert forall|t: Seq<char>| views_of(new).contains(t) implies views_of(
                orig,
            ).insert(s@).contains(t) by {
                let i = choose|i: int| 0 <= i < new.len() && new[i]@ == t;
                if i != idx {
                    let ii = if i < idx {
                        i
                    } else {
                        i - 1
                    };
                    assert(orig[ii]@ == t);
                }
            }
            assert forall|t: Seq<char>| views_of(orig).insert(s@).contains(t) implies views_of(
                new,
            ).contains(t) by {
                if t == s@ {
                    assert(new[idx as int]@ == t);
                } else {
                    let i = choose|i: int| 0 <= i < orig.len() && orig[i]@ == t;
                    if i < idx {
                        assert(new[i]@ == t);
                    } else {
                        assert(new[i + 1]@ == t);
                    }
                }
            }
        }
    }
}

} // verus!
