//! The checker sub-protocol: the binary frames a checker process writes,
//! one per status report.
//!
//! A frame is a status byte, a message-action byte optionally followed by
//! a length-prefixed string, and a has-answer byte optionally followed by
//! a length-prefixed string. Strings are length-prefixed with a 32-bit
//! little-endian count of bytes and must be valid UTF-8; any malformed
//! frame yields `None`.

use vstd::prelude::*;
use vstd::bytes::spec_u32_from_le_bytes;
use vstd::string::StringExecFns;
use vstd::utf8::{decode_utf8, valid_utf8};

use crate::ext::decode_str;
use crate::status::{spec_ordinal, Action, Status};

verus! {

/// One decoded frame.
pub struct Frame {
    pub status: Status,
    pub action: Action,
    pub answer: Option<String>,
}

/// The 32-bit little-endian word of `data` starting at `p`.
pub open spec fn le32_at(data: Seq<u8>, p: int) -> u32
    recommends
        0 <= p,
        p + 4 <= data.len(),
{
    spec_u32_from_le_bytes(data.subrange(p, p + 4))
}

/// The length-prefixed string at `p`: its characters and the position
/// after it.
pub open spec fn spec_string_at(data: Seq<u8>, p: int) -> Option<(Seq<char>, int)> {
    if p < 0 || p + 4 > data.len() {
        None
    } else {
        let l = le32_at(data, p) as int;
        if p + 4 + l > data.len() {
            None
        } else {
            let bytes = data.subrange(p + 4, p + 4 + l);
            if valid_utf8(bytes) {
                Some((decode_utf8(bytes), p + 4 + l))
            } else {
                None
            }
        }
    }
}

/// The frame at `p`: the status byte, the action kind, the message
/// characters (empty for no action), the answer characters if present, and
/// the position after the frame.
pub open spec fn spec_frame_at(data: Seq<u8>, p: int) -> Option<
    (u8, int, Seq<char>, Option<Seq<char>>, int),
> {
    if p < 0 || p + 2 > data.len() {
        None
    } else if data[p] >= 12 {
        None
    } else if data[p + 1] > 2 {
        None
    } else {
        let sb = data[p];
        let kind = data[p + 1] as int;
        let after_msg = if kind == 0 {
            Some((Seq::<char>::empty(), p + 2))
        } else {
            spec_string_at(data, p + 2)
        };
        match after_msg {
            None => None,
            Some((msg, q)) => {
                if q + 1 > data.len() {
                    None
                } else if data[q] > 1 {
                    None
                } else if data[q] == 0 {
                    Some((sb, kind, msg, None, q + 1))
                } else {
                    match spec_string_at(data, q + 1) {
                        None => None,
                        Some((ans, e)) => Some((sb, kind, msg, Some(ans), e)),
                    }
                }
            },
        }
    }
}

fn read_string_at(data: &[u8], p: usize) -> (r: Option<(String, usize)>)
    ensures
        r is Some <==> spec_string_at(data@, p as int) is Some,
        r matches Some((s, e)) ==> ({
            let (msg, se) = spec_string_at(data@, p as int)->Some_0;
            s@ == msg && e == se && e <= data@.len()
        }),
{
    let n = data.len();
    if p >= n || n - p < 4 {
        return None;
    }
    let w = vstd::slice::slice_subrange(data, p, p + 4);
    let l = vstd::bytes::u32_from_le_bytes(w);
    let lu = l as usize;
    if lu > n - p - 4 {
        return None;
    }
    let bytes = vstd::slice::slice_subrange(data, p + 4, p + 4 + lu);
    match decode_str(bytes) {
        Some(s) => Some((String::from_str(s), p + 4 + lu)),
        None => None,
    }
}

/// Decodes the frame starting at `pos`, returning it with the position of
/// the next frame; any malformed prefix yields `None`.
pub fn parse_frame(data: &[u8], pos: usize) -> (r: Option<(Frame, usize)>)
    ensures
        r is Some <==> spec_frame_at(data@, pos as int) is Some,
        r matches Some((f, end)) ==> ({
            let (sb, kind, msg, ans, e) = spec_frame_at(data@, pos as int)->Some_0;
            &&& spec_ordinal(f.status) == sb as int
            &&& end == e
            &&& end <= data@.len()
            &&& (kind == 0 ==> f.action is NoAction)
            &&& (kind == 1 ==> (f.action matches Action::Replace(m) && m@ == msg))
            &&& (kind == 2 ==> (f.action matches Action::Append(m) && m@ == msg))
            &&& (ans is None ==> f.answer is None)
            &&& (ans matches Some(a) ==> (f.answer matches Some(s) && s@ == a))
        }),
{
    let n = data.len();
    if pos >= n || n - pos < 2 {
        return None;
    }
    let sb = *vstd::slice::slice_index_get(data, pos);
    let status = match Status::try_from(sb) {
        Ok(s) => s,
        Err(_) => {
            return None;
        },
    };
    let ab = *vstd::slice::slice_index_get(data, pos + 1);
    if ab > 2 {
        return None;
    }
    let (action, q) = if ab == 0 {
        (Action::NoAction, pos + 2)
    } else {
        let (s, e) = match read_string_at(data, pos + 2) {
            Some(r) => r,
            None => {
                return None;
            },
        };
        if ab == 1 {
            (Action::Replace(s), e)
        } else {
            (Action::Append(s), e)
        }
    };
    if q >= n {
        return None;
    }
    let hb = *vstd::slice::slice_index_get(data, q);
    if hb > 1 {
        return None;
    }
    if hb == 0 {
        Some((Frame { status, action, answer: None }, q + 1))
    } else {
        let (s, e) = match read_string_at(data, q + 1) {
            Some(r) => r,
            None => {
                return None;
            },
        };
        Some((Frame { status, action, answer: Some(s) }, e))
    }
}

} // verus!
