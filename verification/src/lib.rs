//! Core of an online judge for machine-checked proof submissions.
//!
//! The crate covers the submission judging pipeline: a parser for the
//! compiled module binary format (`olean`), the content-addressed deposit
//! planning for a submission's dependency closure, the dispatch queue that
//! matches deposited submissions to polling workers, and the submission
//! status state machine with its counter maintenance and live fan-out.

pub mod api;
pub mod ext;
pub mod names;
pub mod olean;
pub mod preference;
pub mod status;
pub mod surface;
pub mod fanout;
pub mod frames;
pub mod jumping;
pub mod links;
pub mod lquery;
pub mod machine;
pub mod deposit;
pub mod dispatch;
pub mod validate;

use vstd::prelude::*;

verus! {

} // verus!
