//! Plain request and data shapes shared with the HTTP surface around the
//! core.

use vstd::prelude::*;

verus! {

/// How a discussion's replies are queried: a head-and-tail window, or a
/// range around an id.
#[derive(Clone, Copy)]
pub enum QueryRepliesType {
    HeadTail { head_take_count: u64, tail_take_count: u64 },
    IdRange { before_id: u32, after_id: u32, id_range_take_count: u64 },
}

/// What a reaction is attached to.
#[derive(Clone, Copy, PartialEq, Eq, Structural)]
pub enum ReactionType {
    Discussion,
    DiscussionReply,
}

} // verus!
