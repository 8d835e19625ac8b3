//! Live fan-out of submission updates to subscribers.
//!
//! A broadcast channel is keyed by submission id and created lazily on the
//! first live-status request. Every update is appended to the channel's
//! log; a subscriber walks the log with a cursor. A subscriber that falls
//! more than the channel capacity behind receives an explicit lagged
//! signal naming how many updates it missed, never a silent gap.

use vstd::prelude::*;

use crate::status::{Action, Status};

verus! {

/// How far a subscriber may fall behind before it is declared lagged.
pub const CHANNEL_CAPACITY: usize = 16;

/// One update fanned out to subscribers.
#[derive(Clone, Debug)]
pub enum Update {
    Status(Status, Action),
    Answer(String),
}

/// The broadcast log for one submission id.
pub struct Channel {
    pub sid: u32,
    pub events: Vec<Update>,
    pub receivers: u64,
}

/// A subscriber's handle: the id it watches and its position in the log.
pub struct Subscriber {
    pub sid: u32,
    pub cursor: usize,
}

/// What one poll of a subscriber yields.
pub enum PollReply {
    /// No channel for the id remains.
    Closed,
    /// Nothing new.
    Empty,
    /// The subscriber fell behind; this many updates were dropped for it.
    Lagged(u64),
    /// The next update, in order.
    Next(Update),
}

/// A counter bump that sticks at its ceiling instead of wrapping.
pub open spec fn sat_inc(x: u64) -> u64 {
    if x < u64::MAX {
        (x + 1) as u64
    } else {
        x
    }
}

/// What publishing one update does to the registry: it lands at the end of
/// the log for its id, and nowhere else; with no live channel nothing is
/// retained.
pub open spec fn published(pre: Hub, post: Hub, sid: u32, upd: Update) -> bool {
    &&& post.channels@.len() == pre.channels@.len()
    &&& match pre.spec_channel(sid) {
        Some(i) => {
            &&& forall|k: int|
                0 <= k < pre.channels@.len() && k != i ==> post.channels@[k]
                    == pre.channels@[k]
            &&& post.channels@[i].sid == pre.channels@[i].sid
            &&& post.channels@[i].receivers == pre.channels@[i].receivers
            &&& post.channels@[i].events@ == pre.channels@[i].events@.push(upd)
        },
        None => post.channels@ == pre.channels@,
    }
}

/// The per-submission broadcast registry, one channel per live id.
pub struct Hub {
    pub channels: Vec<Channel>,
}

impl Hub {
    /// Channels are keyed by distinct ids.
    pub open spec fn wf(self) -> bool {
        forall|i: int, j: int|
            0 <= i < j < self.channels@.len() ==> (#[trigger] self.channels@[i].sid) != (
            #[trigger] self.channels@[j].sid)
    }

    /// Index of the channel for `sid`, if one is live.
    pub open spec fn spec_channel(self, sid: u32) -> Option<int> {
        if exists|i: int| 0 <= i < self.channels@.len() && self.channels@[i].sid == sid {
            Some(choose|i: int| 0 <= i < self.channels@.len() && self.channels@[i].sid == sid)
        } else {
            None
        }
    }

    pub fn new() -> (h: Hub)
        ensures
            h.wf(),
            h.channels@.len() == 0,
    {
        Hub { channels: Vec::new() }
    }

    fn find_channel(&self, sid: u32) -> (r: Option<usize>)
        requires
            self.wf(),
        ensures
            r is Some <==> self.spec_channel(sid) is Some,
            r matches Some(i) ==> 0 <= i < self.channels@.len() && self.channels@[i as int].sid
                == sid && self.spec_channel(sid) == Some(i as int),
    {
        let n = self.channels.len();
        let mut i: usize = 0;
        while i < n
            invariant
                0 <= i <= n,
                n == self.channels@.len(),
                self.wf(),
                forall|k: int| 0 <= k < i ==> (#[trigger] self.channels@[k].sid) != sid,
            decreases n - i,
        {
            if self.channels[i].sid == sid {
                proof {
                    let j = choose|j: int|
                        0 <= j < self.channels@.len() && self.channels@[j].sid == sid;
                    assert(self.channels@[i as int].sid == sid);
                    assert(j == i) by {
                        if j < i {
                            assert(self.channels@[j].sid != self.channels@[i as int].sid);
                        } else if i < j {
                            assert(self.channels@[i as int].sid != self.channels@[j].sid);
                        }
                    }
                }
                return Some(i);
            }
            i = i + 1;
        }
        proof {
            if self.spec_channel(sid) is Some {
                let k = choose|k: int|
                    0 <= k < self.channels@.len() && self.channels@[k].sid == sid;
                assert(self.channels@[k].sid == sid);
            }
        }
        None
    }

    /// Registers a live subscriber, creating the channel lazily; the new
    /// cursor starts at the present end of the log.
    pub fn subscribe(&mut self, sid: u32) -> (s: Subscriber)
        requires
            old(self).wf(),
        ensures
            final(self).wf(),
            s.sid == sid,
            match old(self).spec_channel(sid) {
                Some(i) => {
                    &&& final(self).channels@ == old(self).channels@.update(
                        i,
                        Channel {
                            receivers: sat_inc(old(self).channels@[i].receivers),
                            ..old(self).channels@[i]
                        },
                    )
                    &&& s.cursor == old(self).channels@[i].events@.len()
                },
                None => {
                    &&& final(self).channels@.len() == old(self).channels@.len() + 1
                    &&& forall|k: int|
                        0 <= k < old(self).channels@.len() ==> final(self).channels@[k] == old(
                            self,
                        ).channels@[k]
                    &&& final(self).channels@.last().sid == sid
                    &&& final(self).channels@.last().events@.len() == 0
                    &&& final(self).channels@.last().receivers == 1
                    &&& s.cursor == 0
                },
            },
    {
        match self.find_channel(sid) {
            Some(i) => {
                let cursor = self.channels[i].events.len();
                let recv = self.channels[i].receivers;
                let bumped = if recv < u64::MAX {
                    recv + 1
                } else {
                    recv
                };
                set_receivers(&mut self.channels, i, bumped);
                proof {
                    assert(self.wf()) by {
                        assert(forall|k: int|
                            0 <= k < self.channels@.len() ==> (#[trigger] self.channels@[k].sid)
                                == old(self).channels@[k].sid);
                    }
                }
                Subscriber { sid, cursor }
            },
            None => {
                let ghost before = self.channels@;
                self.channels.push(Channel { sid, events: Vec::new(), receivers: 1 });
                proof {
                    let n = before.len() as int;
                    assert(self.wf()) by {
                        assert(forall|k: int| 0 <= k < n ==> self.channels@[k] == before[k]);
                        assert(self.channels@[n].sid == sid);
                        assert(forall|k: int|
                            0 <= k < n ==> (#[trigger] before[k].sid) != sid) by {
                            if exists|k: int| 0 <= k < n && (#[trigger] before[k].sid) == sid {
                                assert(old(self).spec_channel(sid) is Some);
                            }
                        }
                    }
                }
                Subscriber { sid, cursor: 0 }
            },
        }
    }

    /// Appends an update to the channel for `sid`, if a live subscriber
    /// ever created one; with no channel the update is not retained.
    pub fn publish(&mut self, sid: u32, upd: Update)
        requires
            old(self).wf(),
        ensures
            final(self).wf(),
            published(*old(self), *final(self), sid, upd),
    {
        match self.find_channel(sid) {
            Some(i) => {
                push_event(&mut self.channels, i, upd);
                proof {
                    assert(self.wf()) by {
                        assert(forall|k: int|
                            0 <= k < self.channels@.len() ==> (#[trigger] self.channels@[k].sid)
                                == old(self).channels@[k].sid);
                    }
                }
            },
            None => {},
        }
    }

    /// Advances a subscriber by one: the next update in order, an explicit
    /// lagged signal when it fell behind capacity, or nothing new.
    pub fn poll(&self, sub: &mut Subscriber) -> (r: PollReply)
        requires
            self.wf(),
        ensures
            final(sub).sid == old(sub).sid,
            match self.spec_channel(old(sub).sid) {
                None => r is Closed && *final(sub) == *old(sub),
                Some(i) => {
                    let log = self.channels@[i].events@;
                    if old(sub).cursor >= log.len() {
                        r is Empty && *final(sub) == *old(sub)
                    } else if log.len() - old(sub).cursor > CHANNEL_CAPACITY {
                        &&& r == PollReply::Lagged(
                            (log.len() - CHANNEL_CAPACITY - old(sub).cursor) as u64,
                        )
                        &&& final(sub).cursor == log.len() - CHANNEL_CAPACITY
                    } else {
                        &&& r == PollReply::Next(log[old(sub).cursor as int])
                        &&& final(sub).cursor == old(sub).cursor + 1
                    }
                },
            },
    {
        let i = match self.find_channel(sub.sid) {
            Some(i) => i,
            None => {
                return PollReply::Closed;
            },
        };
        let log_len = self.channels[i].events.len();
        if sub.cursor >= log_len {
            return PollReply::Empty;
        }
        if log_len - sub.cursor > CHANNEL_CAPACITY {
            let missed = log_len - CHANNEL_CAPACITY - sub.cursor;
            sub.cursor = log_len - CHANNEL_CAPACITY;
            return PollReply::Lagged(missed as u64);
        }
        let upd = clone_update(&self.channels[i].events[sub.cursor]);
        sub.cursor = sub.cursor + 1;
        PollReply::Next(upd)
    }

    /// Drops a subscriber; the channel is torn down once no receivers
    /// remain.
    pub fn unsubscribe(&mut self, sub: Subscriber)
        requires
            old(self).wf(),
        ensures
            final(self).wf(),
            match old(self).spec_channel(sub.sid) {
                None => *final(self) == *old(self),
                Some(i) => {
                    if old(self).channels@[i].receivers <= 1 {
                        final(self).channels@ == old(self).channels@.remove(i)
                    } else {
                        final(self).channels@ == old(self).channels@.update(
                            i,
                            Channel {
                                receivers: (old(self).channels@[i].receivers - 1) as u64,
                                ..old(self).channels@[i]
                            },
                        )
                    }
                },
            },
    {
        match self.find_channel(sub.sid) {
            Some(i) => {
                let recv = self.channels[i].receivers;
                if recv <= 1 {
                    let ghost before = self.channels@;
                    self.channels.remove(i);
                    proof {
                        assert(self.wf()) by {
                            assert(forall|k: int|
                                0 <= k < self.channels@.len() ==> self.channels@[k]
                                    == before[if k < i {
                                    k
                                } else {
                                    k + 1
                                }]);
                        }
                    }
                } else {
                    set_receivers(&mut self.channels, i, recv - 1);
                    proof {
                        assert(self.wf()) by {
                            assert(forall|k: int|
                                0 <= k < self.channels@.len()
                                    ==> (#[trigger] self.channels@[k].sid) == old(
                                    self,
                                ).channels@[k].sid);
                        }
                    }
                }
            },
            None => {},
        }
    }
}

/// In-place update of one channel's receiver count.
fn set_receivers(channels: &mut Vec<Channel>, i: usize, receivers: u64)
    requires
        i < old(channels)@.len(),
    ensures
        final(channels)@ == old(channels)@.update(
            i as int,
            Channel { receivers, ..old(channels)@[i as int] },
        ),
{
    let ghost before = channels@;
    let ch = channels.remove(i);
    channels.insert(i, Channel { receivers, ..ch });
    proof {
        assert(channels@ =~= before.update(
            i as int,
            Channel { receivers, ..before[i as int] },
        ));
    }
}

/// In-place append of one event to a channel's log.
fn push_event(channels: &mut Vec<Channel>, i: usize, upd: Update)
    requires
        i < old(channels)@.len(),
    ensures
        final(channels)@.len() == old(channels)@.len(),
        forall|k: int|
            0 <= k < old(channels)@.len() && k != i ==> final(channels)@[k] == old(
                channels,
            )@[k],
        final(channels)@[i as int].sid == old(channels)@[i as int].sid,
        final(channels)@[i as int].receivers == old(channels)@[i as int].receivers,
        final(channels)@[i as int].events@ == old(channels)@[i as int].events@.push(upd),
{
    let ghost before = channels@;
    let mut ch = channels.remove(i);
    ch.events.push(upd);
    channels.insert(i, ch);
    proof {
        assert(forall|k: int|
            0 <= k < before.len() && k != i ==> channels@[k] == before[k]);
    }
}

fn clone_update(u: &Update) -> (r: Update)
    ensures
        r == *u,
{
    match u {
        Update::Status(s, a) => Update::Status(*s, clone_action(a)),
        Update::Answer(t) => Update::Answer(clone_string(t)),
    }
}

/// A deep copy of an action; the derived clone says nothing to the
/// verifier, this one does.
pub fn clone_action(a: &Action) -> (r: Action)
    ensures
        r == *a,
{
    match a {
        Action::NoAction => Action::NoAction,
        Action::Replace(m) => Action::Replace(clone_string(m)),
        Action::Append(m) => Action::Append(clone_string(m)),
    }
}

fn clone_string(s: &String) -> (r: String)
    ensures
        r == *s,
{
    s.clone()
}

} // verus!
