//! Delta encoding of the monotone index stream used by the bulk
//! file-transfer sideband: each emitted index is encoded against the one
//! before it, in one, three or five bytes.

use vstd::prelude::*;

verus! {

/// The wrapped distance from `origin` to `value`.
pub open spec fn delta32(value: u32, origin: u32) -> u32 {
    ((value + 0x1_0000_0000 - origin) % 0x1_0000_0000) as u32
}

/// The encoding of one index against its predecessor: small deltas in one
/// byte, medium deltas in three, anything else as the absolute index in
/// five.
pub open spec fn spec_emit(value: u32, origin: u32) -> Seq<u8> {
    let d = delta32(value, origin);
    if d < 254 {
        seq![d as u8]
    } else if d < 0x8000 {
        seq![254u8, (d / 0x100) as u8, (d % 0x100) as u8]
    } else {
        seq![
            254u8,
            ((value / 0x1000000) as u8 | 0x80u8),
            (value % 0x100) as u8,
            ((value / 0x100) % 0x100) as u8,
            ((value / 0x10000) % 0x100) as u8,
        ]
    }
}

/// The encoder's state: the last index emitted.
pub struct Jumping {
    pub state: u32,
}

impl Jumping {
    /// A fresh stream starts from the sentinel index.
    pub fn new() -> (j: Jumping)
        ensures
            j.state == u32::MAX,
    {
        Jumping { state: u32::MAX }
    }

    /// Encodes the next index against the previous one and advances the
    /// state.
    pub fn emit(&mut self, idx: u32) -> (r: Vec<u8>)
        ensures
            r@ == spec_emit(idx, old(self).state),
            final(self).state == idx,
    {
        let origin = self.state;
        self.state = idx;
        let d = idx.wrapping_sub(origin);
        proof {
            assert(d == delta32(idx, origin)) by (nonlinear_arith)
                requires
                    d == (idx - origin) % (0x1_0000_0000 as int),
                    0 <= idx < 0x1_0000_0000,
                    0 <= origin < 0x1_0000_0000,
            ;
        }
        let mut out: Vec<u8> = Vec::new();
        if d < 254 {
            out.push(d as u8);
            proof {
                assert(out@ =~= spec_emit(idx, origin));
            }
        } else if d < 0x8000 {
            out.push(254);
            out.push((d / 0x100) as u8);
            out.push((d % 0x100) as u8);
            proof {
                assert(out@ =~= spec_emit(idx, origin));
            }
        } else {
            out.push(254);
            out.push((idx / 0x1000000) as u8 | 0x80);
            out.push((idx % 0x100) as u8);
            out.push(((idx / 0x100) % 0x100) as u8);
            out.push(((idx / 0x10000) % 0x100) as u8);
            proof {
                assert(out@ =~= spec_emit(idx, origin));
            }
        }
        out
    }
}

} // verus!
