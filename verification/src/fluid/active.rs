use vstd::prelude::*;

use crate::tile_set::{Tile, TileCounter, TileSet};

verus! {

/// Number of consecutive unchanged ticks after which a fluid tile settles.
pub const SETTLE_TICKS: u8 = 3;

/// Tracks which fluid tiles need simulation this tick.
#[derive(Debug)]
pub struct ActiveFluids {
    /// Tiles to process this tick (world coordinates).
    pub current: TileSet,
    /// Tiles to add to the current set next tick.
    pub pending_wake: TileSet,
    /// Settling counter: how many ticks a tile has been unchanged.
    pub settle_ticks: TileCounter,
}

/// One unchanged tick for tile `pos`: its counter goes up by one; the tile
/// settles once the counter reaches `SETTLE_TICKS`.
pub open spec fn settle_step(counts: Map<Tile, u8>, pos: Tile) -> (Map<Tile, u8>, bool) {
    let before: int = if counts.contains_key(pos) { counts[pos] as int } else { 0 };
    (counts.insert(pos, (before + 1) as u8), before + 1 >= SETTLE_TICKS)
}

/// A tile and its four neighbours.
pub open spec fn five_tiles(x: i32, y: i32) -> Set<Tile> {
    set![(x, y), ((x - 1) as i32, y), ((x + 1) as i32, y), (x, (y - 1) as i32), (x, (y + 1) as i32)]
}

impl ActiveFluids {
    pub open spec fn wf(&self) -> bool {
        self.current.wf() && self.pending_wake.wf() && self.settle_ticks.wf()
    }

    pub fn new() -> (a: Self)
        ensures
            a.wf(),
            a.current@ == Set::<Tile>::empty(),
            a.pending_wake@ == Set::<Tile>::empty(),
            a.settle_ticks@ == Map::<Tile, u8>::empty(),
    {
        ActiveFluids { current: TileSet::new(), pending_wake: TileSet::new(), settle_ticks: TileCounter::new() }
    }

    /// Move the pending tiles into the current set for this tick's processing.
    pub fn swap_pending(&mut self)
        requires
            old(self).wf(),
        ensures
            final(self).wf(),
            final(self).current@ == old(self).current@.union(old(self).pending_wake@),
            final(self).pending_wake@ == Set::<Tile>::empty(),
            final(self).settle_ticks@ == old(self).settle_ticks@,
    {
        self.current.extend_from(&self.pending_wake);
        self.pending_wake.clear();
    }

    /// Wake a tile for next tick's simulation.
    pub fn wake(&mut self, x: i32, y: i32)
        requires
            old(self).wf(),
        ensures
            final(self).wf(),
            final(self).pending_wake@ == old(self).pending_wake@.insert((x, y)),
            final(self).current@ == old(self).current@,
            final(self).settle_ticks@ == old(self).settle_ticks@,
    {
        self.pending_wake.insert((x, y));
    }

    /// Wake a tile and its four neighbours.
    pub fn wake_with_neighbors(&mut self, x: i32, y: i32)
        requires
            old(self).wf(),
            i32::MIN < x < i32::MAX,
            i32::MIN < y < i32::MAX,
        ensures
            final(self).wf(),
            final(self).pending_wake@ == old(self).pending_wake@.union(five_tiles(x, y)),
            final(self).current@ == old(self).current@,
            final(self).settle_ticks@ == old(self).settle_ticks@,
    {
        self.pending_wake.insert((x, y));
        self.pending_wake.insert((x - 1, y));
        self.pending_wake.insert((x + 1, y));
        self.pending_wake.insert((x, y - 1));
        self.pending_wake.insert((x, y + 1));
        proof {
            assert(self.pending_wake@ =~= old(self).pending_wake@.union(five_tiles(x, y)));
        }
    }

    /// Count one more unchanged tick for a tile. Returns true if the tile
    /// should go to sleep (it has been unchanged for `SETTLE_TICKS` ticks).
    pub fn tick_settle(&mut self, pos: Tile) -> (settle: bool)
        requires
            old(self).wf(),
            old(self).settle_ticks@.contains_key(pos) ==> old(self).settle_ticks@[pos] < 255,
        ensures
            final(self).wf(),
            (final(self).settle_ticks@, settle) == settle_step(old(self).settle_ticks@, pos),
            final(self).current@ == old(self).current@,
            final(self).pending_wake@ == old(self).pending_wake@,
    {
        let before: u8 = match self.settle_ticks.get(pos) {
            Some(c) => c,
            None => 0,
        };
        let counter = before + 1;
        self.settle_ticks.set(pos, counter);
        counter >= SETTLE_TICKS
    }

    /// Reset the settle counter (the tile changed this tick).
    pub fn reset_settle(&mut self, pos: Tile)
        requires
            old(self).wf(),
        ensures
            final(self).wf(),
            final(self).settle_ticks@ == old(self).settle_ticks@.remove(pos),
            final(self).current@ == old(self).current@,
            final(self).pending_wake@ == old(self).pending_wake@,
    {
        self.settle_ticks.remove(pos);
    }

    /// Remove a tile from active tracking entirely.
    pub fn sleep(&mut self, pos: Tile)
        requires
            old(self).wf(),
        ensures
            final(self).wf(),
            final(self).current@ == old(self).current@.remove(pos),
            final(self).settle_ticks@ == old(self).settle_ticks@.remove(pos),
            final(self).pending_wake@ == old(self).pending_wake@,
    {
        self.current.remove(pos);
        self.settle_ticks.remove(pos);
    }
}

impl Default for ActiveFluids {
    fn default() -> (a: ActiveFluids)
        ensures
            a.wf(),
            a.current@ == Set::<Tile>::empty(),
            a.pending_wake@ == Set::<Tile>::empty(),
            a.settle_ticks@ == Map::<Tile, u8>::empty(),
    {
        ActiveFluids::new()
    }
}

/// A tile whose counter was reset settles on the third consecutive unchanged
/// tick, and not before.
pub proof fn lemma_settles_on_third_tick(counts: Map<Tile, u8>, pos: Tile)
    ensures
        ({
            let (c1, s1) = settle_step(counts.remove(pos), pos);
            let (c2, s2) = settle_step(c1, pos);
            let (c3, s3) = settle_step(c2, pos);
            !s1 && !s2 && s3 && c3[pos] == 3
        }),
{
    let (c1, s1) = settle_step(counts.remove(pos), pos);
    assert(c1[pos] == 1);
    let (c2, s2) = settle_step(c1, pos);
    assert(c2[pos] == 2);
}

} // verus!
