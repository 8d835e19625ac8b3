//! Identifier and account-name validation.
//!
//! Module, declaration and user names follow the proof language's
//! identifier grammar: a head character drawn from the alphabetic letters
//! plus a fixed set of mathematical ranges, and tail characters that also
//! admit digits and a few marks.

use vstd::prelude::*;
use vstd::string::StringSliceAdditionalSpecFns;
use vstd::string::StrSliceExecFns;

verus! {

/// Names what `char::is_alphabetic` returns: the Unicode `Alphabetic`
/// property of the character, a function of the character alone.
pub uninterp spec fn alphabetic(c: char) -> bool;

/// Relies on `char::is_alphabetic`: the result depends on the character
/// alone; its exact extent (the Unicode table) is left named, not spelled out.
#[verifier::external_body]
fn char_alphabetic(c: char) -> (b: bool)
    ensures
        b == alphabetic(c),
{
    c.is_alphabetic()
}

/// Head character of an identifier: alphabetic, underscore, or one of the
/// Greek and mathematical letter ranges the language admits.
pub open spec fn lean_id_first(c: char) -> bool {
    let u = c as u32;
    ||| alphabetic(c)
    ||| c == '_'
    ||| (0x3b1 <= u <= 0x3fb && u != 0x3bb)  // Greek lowercase but lambda
    ||| (0x391 <= u <= 0x39f)  // Greek uppercase Alpha..Omicron
    ||| u == 0x3a1  // Rho
    ||| (0x3a4 <= u <= 0x3a9)  // Tau..Omega
    ||| (0x1f00 <= u <= 0x1ffe)  // Greek extended
    ||| (0x2100 <= u <= 0x214f)  // letterlike symbols
    ||| (0x1d49c <= u <= 0x1d59f)  // mathematical script/fraktur letters
    ||| (0xc0 <= u <= 0x17f && u != 0xd7 && u != 0xf7)  // Latin-1 letters
}

/// Tail character of an identifier: a head character, an ASCII digit,
/// one of `'`, `!`, `?`, or a subscript letter.
pub open spec fn lean_id_rest(c: char) -> bool {
    let u = c as u32;
    ||| lean_id_first(c)
    ||| (0x30 <= u <= 0x39)  // ASCII digit
    ||| u == 0x27  // '
    ||| u == 0x21  // !
    ||| u == 0x3f  // ?
    ||| (0x2080 <= u <= 0x209c)  // subscript digits and letters
    ||| (0x1d62 <= u <= 0x1d6a)  // subscript i..chi
    ||| u == 0x2c7c  // subscript j
}

pub fn is_lean_id_first(ch: char) -> (b: bool)
    ensures
        b == lean_id_first(ch),
{
    if char_alphabetic(ch) {
        return true;
    }
    let u = ch as u32;
    u == 0x5f
        || (0x3b1 <= u && u <= 0x3fb && u != 0x3bb)
        || (0x391 <= u && u <= 0x39f)
        || u == 0x3a1
        || (0x3a4 <= u && u <= 0x3a9)
        || (0x1f00 <= u && u <= 0x1ffe)
        || (0x2100 <= u && u <= 0x214f)
        || (0x1d49c <= u && u <= 0x1d59f)
        || (0xc0 <= u && u <= 0x17f && u != 0xd7 && u != 0xf7)
}

pub fn is_lean_id_rest(ch: char) -> (b: bool)
    ensures
        b == lean_id_rest(ch),
{
    if is_lean_id_first(ch) {
        return true;
    }
    let u = ch as u32;
    (0x30 <= u && u <= 0x39)
        || u == 0x27
        || u == 0x21
        || u == 0x3f
        || (0x2080 <= u && u <= 0x209c)
        || (0x1d62 <= u && u <= 0x1d6a)
        || u == 0x2c7c
}

/// A whole identifier component: non-empty, a valid head, and a valid tail.
pub open spec fn lean_id(s: Seq<char>) -> bool {
    &&& s.len() > 0
    &&& lean_id_first(s[0])
    &&& forall|i: int| 1 <= i < s.len() ==> lean_id_rest(#[trigger] s[i])
}

pub fn is_lean_id(s: &str) -> (b: bool)
    ensures
        b == lean_id(s@),
{
    let n = s.unicode_len();
    if n == 0 {
        return false;
    }
    if !is_lean_id_first(s.get_char(0)) {
        return false;
    }
    let mut i: usize = 1;
    while i < n
        invariant
            1 <= i <= n,
            n == s@.len(),
            lean_id_first(s@[0]),
            forall|j: int| 1 <= j < i ==> lean_id_rest(#[trigger] s@[j]),
        decreases n - i,
    {
        if !is_lean_id_rest(s.get_char(i)) {
            return false;
        }
        i = i + 1;
    }
    true
}

/// The byte set a user name may draw on: `#`, `$`, `-`, `.`, digits,
/// ASCII letters and underscore.
pub open spec fn username_byte(b: u8) -> bool {
    ||| b == 0x23  // #
    ||| b == 0x24  // $
    ||| b == 0x2d  // -
    ||| b == 0x2e  // .
    ||| (0x30 <= b <= 0x39)  // digit
    ||| (0x41 <= b <= 0x5a)  // A..Z
    ||| b == 0x5f  // _
    ||| (0x61 <= b <= 0x7a)  // a..z
}

/// A valid user name: 3 to 24 bytes, all from the user-name byte set.
pub open spec fn username_ok(b: Seq<u8>) -> bool {
    &&& 3 <= b.len() <= 24
    &&& forall|i: int| 0 <= i < b.len() ==> username_byte(#[trigger] b[i])
}

fn is_username_byte(b: u8) -> (r: bool)
    ensures
        r == username_byte(b),
{
    b == 0x23
        || b == 0x24
        || b == 0x2d
        || b == 0x2e
        || (0x30 <= b && b <= 0x39)
        || (0x41 <= b && b <= 0x5a)
        || b == 0x5f
        || (0x61 <= b && b <= 0x7a)
}

pub fn check_username(username: &str) -> (b: bool)
    ensures
        b == username_ok(username.spec_bytes()),
{
    let bytes = username.as_bytes();
    let n = bytes.len();
    if n < 3 || n > 24 {
        return false;
    }
    let mut i: usize = 0;
    while i < n
        invariant
            0 <= i <= n,
            n == bytes@.len(),
            bytes@ == username.spec_bytes(),
            3 <= n <= 24,
            forall|j: int| 0 <= j < i ==> username_byte(#[trigger] bytes@[j]),
        decreases n - i,
    {
        if !is_username_byte(*vstd::slice::slice_index_get(bytes, i)) {
            return false;
        }
        i = i + 1;
    }
    true
}

/// Index of the first dot, or the length when there is none.
pub open spec fn first_dot(s: Seq<char>) -> int
    decreases s.len(),
{
    if s.len() == 0 {
        0
    } else if s[0] == '.' {
        0
    } else {
        1 + first_dot(s.drop_first())
    }
}

/// The first dot is a dot, and nothing before it is.
pub proof fn lemma_first_dot_props(s: Seq<char>)
    ensures
        0 <= first_dot(s) <= s.len(),
        first_dot(s) < s.len() ==> s[first_dot(s)] == '.',
        forall|k: int| 0 <= k < first_dot(s) ==> s[k] != '.',
    decreases s.len(),
{
    if s.len() > 0 && s[0] != '.' {
        lemma_first_dot_props(s.drop_first());
        assert forall|k: int| 0 <= k < first_dot(s) implies s[k] != '.' by {
            if k > 0 {
                assert(s.drop_first()[k - 1] == s[k]);
            }
        }
        if first_dot(s) < s.len() {
            assert(s.drop_first()[first_dot(s) - 1] == s[first_dot(s)]);
        }
    }
}

/// A dotted name: identifier components joined by single dots.
pub open spec fn dotted_id(s: Seq<char>) -> bool
    decreases s.len(),
{
    let d = first_dot(s);
    if !(0 <= d < s.len()) {
        lean_id(s)
    } else {
        lean_id(s.take(d)) && dotted_id(s.skip(d + 1))
    }
}

/// Checks a dotted name, component by component.
pub fn is_dotted_id(s: &str) -> (b: bool)
    ensures
        b == dotted_id(s@),
    decreases s@.len(),
{
    let n = s.unicode_len();
    let mut i: usize = 0;
    while i < n
        invariant
            0 <= i <= n,
            n == s@.len(),
            forall|k: int| 0 <= k < i ==> s@[k] != '.',
        ensures
            0 <= i <= n,
            n == s@.len(),
            forall|k: int| 0 <= k < i ==> s@[k] != '.',
            i < n ==> s@[i as int] == '.',
        decreases n - i,
    {
        if s.get_char(i) == '.' {
            break;
        }
        i = i + 1;
    }
    proof {
        lemma_first_dot_props(s@);
        assert(first_dot(s@) == i) by {
            if first_dot(s@) < i {
                assert(s@[first_dot(s@)] != '.');
            } else if i < first_dot(s@) {
                assert(s@[i as int] != '.');
            }
        }
    }
    if i == n {
        is_lean_id(s)
    } else {
        let head = s.substring_char(0, i);
        let tail = s.substring_char(i + 1, n);
        proof {
            assert(head@ == s@.take(i as int));
            assert(tail@ == s@.skip(i + 1));
        }
        is_lean_id(head) && is_dotted_id(tail)
    }
}

/// A valid account id: an identifier of 3 to 24 characters.
pub open spec fn uid_ok(s: Seq<char>) -> bool {
    lean_id(s) && 3 <= s.len() <= 24
}

pub fn check_uid(uid: &str) -> (b: bool)
    ensures
        b == uid_ok(uid@),
{
    let n = uid.unicode_len();
    if n < 3 || n > 24 {
        return false;
    }
    is_lean_id(uid)
}

} // verus!
