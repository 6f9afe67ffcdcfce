//! What is known of the tracker.

use vstd::prelude::*;

verus! {

/// What the client shares with its tracker.
#[derive(Debug, Clone, Copy, PartialEq, Eq)]
pub struct TrackerCtx {
    /// The id under which this client is known.
    pub peer_id: [u8; 20],
}

impl Default for TrackerCtx {
    /// The context of a client that has no id yet.
    fn default() -> (ctx: TrackerCtx)
        ensures
            ctx.peer_id@ == Seq::new(20, |i: int| 0u8),
    {
        let peer_id: [u8; 20] = [0;20];
        assert(peer_id@ =~= Seq::new(20, |i: int| 0u8));
        TrackerCtx { peer_id }
    }
}

} // verus!
