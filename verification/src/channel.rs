//! One destination stream: an ordered conduit of row batches, closable once in
//! a success or error state. Closure is the only end-of-stream signal.

use vstd::prelude::*;
use crate::error::Error;

verus! {

pub enum ChannelState {
    Open,
    ClosedOk,
    ClosedErr(Error),
}

/// A stream channel. The dispatcher owns every channel; a stage writes through
/// its private producer indices and a claimant reads through a consumer handle,
/// so no channel end is ever aliased.
pub struct Channel {
    pub batches: Vec<Vec<u64>>,
    pub state: ChannelState,
}

impl Channel {
    /// The emitted batches, in emission order.
    pub open spec fn content(self) -> Seq<Seq<u64>> {
        Seq::new(self.batches@.len(), |i: int| self.batches@[i]@)
    }

    pub open spec fn is_open(self) -> bool {
        self.state is Open
    }

    pub fn new() -> (c: Channel)
        ensures
            c.content() == Seq::<Seq<u64>>::empty(),
            c.is_open(),
    {
        let c = Channel { batches: Vec::new(), state: ChannelState::Open };
        proof {
            assert(c.content() =~= Seq::<Seq<u64>>::empty());
        }
        c
    }

    /// Emit one batch; order is preserved end to end.
    pub fn push(&mut self, batch: Vec<u64>)
        requires
            old(self).is_open(),
        ensures
            final(self).content() == old(self).content().push(batch@),
            final(self).state == old(self).state,
    {
        self.batches.push(batch);
        proof {
            assert(self.content() =~= old(self).content().push(batch@));
        }
    }

    /// Close in success state: the input sequence was exhausted without error.
    pub fn close_ok(&mut self)
        requires
            old(self).is_open(),
        ensures
            final(self).content() == old(self).content(),
            final(self).state == ChannelState::ClosedOk,
    {
        self.state = ChannelState::ClosedOk;
        proof {
            assert(self.content() =~= old(self).content());
        }
    }

    /// Close in error state, carrying the failure cause to every current and
    /// future consumer.
    pub fn close_err(&mut self, cause: Error)
        requires
            old(self).is_open(),
        ensures
            final(self).content() == old(self).content(),
            final(self).state == ChannelState::ClosedErr(cause),
    {
        self.state = ChannelState::ClosedErr(cause);
        proof {
            assert(self.content() =~= old(self).content());
        }
    }
}

} // verus!
