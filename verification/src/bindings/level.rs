//! The shadow copy of a level: the block updates that plugins ask for.
use vstd::prelude::*;
use crate::bindings::Syncable;
use crate::messages::{BlockUpdate, LevelChange};

verus! {

/// The flag of pending block updates.
pub const BLOCK_UPDATE_DIRTY: u64 = 1u64;

/// A level as plugins see it.
#[derive(Debug)]
pub struct ShadowLevel {
    pub block_update_queue: Vec<BlockUpdate>,
    pub dirty: u64,
}

/// A level's queued updates and flags.
pub struct LevelView {
    pub updates: Seq<BlockUpdate>,
    pub dirty: u64,
}

/// What changed in a level, as plain values.
pub struct LevelChangeView {
    pub universal_id: u64,
    pub block_updates: Seq<BlockUpdate>,
}

impl View for ShadowLevel {
    type V = LevelView;

    open spec fn view(&self) -> LevelView {
        LevelView { updates: self.block_update_queue@, dirty: self.dirty }
    }
}

impl View for LevelChange {
    type V = LevelChangeView;

    open spec fn view(&self) -> LevelChangeView {
        LevelChangeView { universal_id: self.universal_id, block_updates: self.block_updates@ }
    }
}

impl ShadowLevel {
    /// A level with nothing queued.
    pub fn new() -> (l: Self)
        ensures
            l@.updates == Seq::<BlockUpdate>::empty(),
            l@.dirty == 0,
    {
        ShadowLevel { block_update_queue: Vec::new(), dirty: 0 }
    }

    /// Queues setting the block at a packed position; a negative block id is
    /// ignored.
    pub fn set_block(&mut self, position: u64, block: i32)
        ensures
            final(self)@ == (if block < 0 {
                old(self)@
            } else {
                LevelView {
                    updates: old(self)@.updates.push(BlockUpdate { position, block }),
                    dirty: old(self)@.dirty | BLOCK_UPDATE_DIRTY,
                }
            }),
    {
        if block < 0 {
            return;
        }
        self.block_update_queue.push(BlockUpdate { position, block });
        self.dirty = self.dirty | BLOCK_UPDATE_DIRTY;
    }
}

impl Syncable for ShadowLevel {
    type Change = LevelChange;

    open spec fn encode_spec(v: LevelView, universal_id: u64) -> (LevelView, Option<LevelChangeView>) {
        if v.dirty != 0 {
            (
                LevelView { updates: Seq::empty(), dirty: 0 },
                Some(LevelChangeView { universal_id, block_updates: v.updates }),
            )
        } else {
            (v, None)
        }
    }

    /// Levels take no changes from the server.
    open spec fn decodable(v: LevelView) -> bool {
        false
    }

    open spec fn decode_spec(v: LevelView, change: LevelChange) -> LevelView {
        v
    }

    fn encode_changes(&mut self, universal_id: u64) -> (r: Option<LevelChange>) {
        if self.dirty != 0 {
            self.dirty = 0;
            let mut updates: Vec<BlockUpdate> = Vec::new();
            std::mem::swap(&mut updates, &mut self.block_update_queue);
            Some(LevelChange { universal_id, block_updates: updates })
        } else {
            None
        }
    }

    fn decode_changes(&mut self, change: LevelChange) {
    }
}


/// A block set with a non-negative id is sent at the next exchange, after
/// the updates queued before it.
pub proof fn lemma_block_update_sent(v: LevelView, position: u64, block: i32, universal_id: u64)
    requires
        block >= 0,
    ensures
        ShadowLevel::encode_spec(
            LevelView {
                updates: v.updates.push(BlockUpdate { position, block }),
                dirty: v.dirty | BLOCK_UPDATE_DIRTY,
            },
            universal_id,
        ).1 == Some(
            LevelChangeView { universal_id, block_updates: v.updates.push(BlockUpdate { position, block }) },
        ),
{
    let d = v.dirty;
    assert((d | 1u64) != 0u64) by (bit_vector);
}

/// Nothing is sent twice: right after the changes are taken there is none.
pub proof fn lemma_level_changes_taken_once(v: LevelView, universal_id: u64, next_id: u64)
    ensures
        ShadowLevel::encode_spec(ShadowLevel::encode_spec(v, universal_id).0, next_id).1 is None,
{
}

} // verus!
