use vstd::prelude::*;

use crate::liquid::data::LiquidId;
use crate::tile_set::Tile;

verus! {

/// The liquid type the debug keys spawn (1 = the first registered liquid).
#[derive(Clone, Copy, Debug, PartialEq, Eq, Structural)]
pub struct DebugLiquidType {
    pub current: u8,
}

impl Default for DebugLiquidType {
    fn default() -> (d: Self)
        ensures
            d.current == 1,
    {
        DebugLiquidType { current: 1 }
    }
}

/// The next liquid type after `current` among `count` registered ones:
/// one up, and after the last (or from anything past it) back to the first.
pub open spec fn next_debug_type(current: u8, count: u8) -> u8 {
    if count == 0 {
        current
    } else if current >= count {
        1
    } else {
        (current + 1) as u8
    }
}

impl DebugLiquidType {
    /// Cycle to the next registered liquid type (F6); nothing happens when
    /// no liquid is registered.
    pub fn cycle(&mut self, type_count: u8)
        ensures
            final(self).current == next_debug_type(old(self).current, type_count),
    {
        if type_count == 0 {
            return;
        }
        self.current = if self.current >= type_count { 1 } else { self.current + 1 };
    }

    /// The liquid to spawn.
    pub fn liquid(&self) -> (l: LiquidId)
        ensures
            l.0 == self.current,
    {
        LiquidId(self.current)
    }
}

/// Cycling stays among the registered types, from any starting point.
pub proof fn lemma_cycle_stays_registered(current: u8, count: u8)
    requires
        count > 0,
    ensures
        1 <= next_debug_type(current, count) <= count,
{
}

/// The tiles the debug spawn key fills around `(cx, cy)`: the 3x3 block
/// around it, row by row from the bottom, without the rows outside the
/// world's `0..height_tiles`.
pub open spec fn spawn_block(cx: int, cy: int, height_tiles: int) -> Seq<(int, int)> {
    Seq::new(9, |k: int| (cx + k % 3 - 1, cy + k / 3 - 1)).filter(|t: (int, int)| 0 <= t.1 < height_tiles)
}

/// The tiles to fill with the debug liquid (see `spawn_block`); the caller
/// skips the ones holding a foreground tile.
pub fn spawn_targets(cx: i32, cy: i32, height_tiles: i32) -> (v: Vec<Tile>)
    requires
        i32::MIN < cx < i32::MAX,
        i32::MIN < cy < i32::MAX,
    ensures
        v@.map_values(|t: Tile| (t.0 as int, t.1 as int)) == spawn_block(cx as int, cy as int, height_tiles as int),
{
    let mut v: Vec<Tile> = Vec::new();
    let ghost all = Seq::new(9, |k: int| (cx + k % 3 - 1, cy + k / 3 - 1));
    let ghost keep = |t: (int, int)| 0 <= t.1 < height_tiles;
    let mut k: i32 = 0;
    while k < 9
        invariant
            0 <= k <= 9,
            i32::MIN < cx < i32::MAX,
            i32::MIN < cy < i32::MAX,
            all == Seq::new(9, |k: int| (cx + k % 3 - 1, cy + k / 3 - 1)),
            keep == (|t: (int, int)| 0 <= t.1 < height_tiles),
            v@.map_values(|t: Tile| (t.0 as int, t.1 as int)) == all.subrange(0, k as int).filter(keep),
        decreases 9 - k,
    {
        let tx = cx + (k % 3 - 1);
        let ty = cy + (k / 3 - 1);
        proof {
            assert(all.subrange(0, k as int + 1).drop_last() =~= all.subrange(0, k as int));
            assert(all.subrange(0, k as int + 1).last() == (tx as int, ty as int));
            all.subrange(0, k as int).lemma_filter_push((tx as int, ty as int), keep);
            assert(all.subrange(0, k as int).push((tx as int, ty as int)) =~= all.subrange(0, k as int + 1));
        }
        if ty >= 0 && ty < height_tiles {
            v.push((tx, ty));
            proof {
                assert(v@.map_values(|t: Tile| (t.0 as int, t.1 as int)) =~= all.subrange(0, k as int).filter(keep).push((tx as int, ty as int)));
            }
        }
        k = k + 1;
    }
    proof {
        assert(all.subrange(0, 9) =~= all);
    }
    v
}

} // verus!
