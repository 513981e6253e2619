use vstd::prelude::*;

use crate::tile_set::{Tile, TileCounter, TileSet};

verus! {

/// Number of consecutive stable steps after which a tile goes to sleep.
pub const SLEEP_THRESHOLD: u8 = 5;
/// At most this many active tiles are handed out per simulation step.
pub const MAX_ACTIVE_PER_STEP: usize = 20_000;

/// The effect of one "stable" report for tile `t` on the active set and the
/// stable counters: the counter goes up by one (saturating); at the threshold
/// the tile goes to sleep and its counter is dropped.
pub open spec fn stable_step(active: Set<Tile>, counts: Map<Tile, u8>, t: Tile) -> (Set<Tile>, Map<Tile, u8>) {
    let c: int = if counts.contains_key(t) { counts[t] as int } else { 0 };
    let next: u8 = if c + 1 > 255 { 255 } else { (c + 1) as u8 };
    if next >= SLEEP_THRESHOLD {
        (active.remove(t), counts.remove(t))
    } else {
        (active, counts.insert(t, next))
    }
}

/// Tracks which tiles are active (need simulation). Sleeping tiles are not
/// processed until woken.
#[derive(Debug)]
pub struct SleepTracker {
    active: TileSet,
    stable_count: TileCounter,
}

impl SleepTracker {
    pub closed spec fn wf(&self) -> bool {
        self.active.wf() && self.stable_count.wf()
    }

    /// The set of active tiles.
    pub closed spec fn active_set(&self) -> Set<Tile> {
        self.active@
    }

    /// How many consecutive steps each tile has been reported stable.
    pub closed spec fn stable_counts(&self) -> Map<Tile, u8> {
        self.stable_count@
    }

    pub fn new() -> (s: Self)
        ensures
            s.wf(),
            s.active_set() == Set::<Tile>::empty(),
            s.stable_counts() == Map::<Tile, u8>::empty(),
    {
        SleepTracker { active: TileSet::new(), stable_count: TileCounter::new() }
    }

    pub fn wake(&mut self, tile_x: i32, tile_y: i32)
        requires
            old(self).wf(),
        ensures
            final(self).wf(),
            final(self).active_set() == old(self).active_set().insert((tile_x, tile_y)),
            final(self).stable_counts() == old(self).stable_counts().remove((tile_x, tile_y)),
    {
        self.active.insert((tile_x, tile_y));
        self.stable_count.remove((tile_x, tile_y));
    }

    /// Wake every tile of the rectangle `[min_x, max_x] x [min_y, max_y]`.
    pub fn wake_region(&mut self, min_x: i32, min_y: i32, max_x: i32, max_y: i32)
        requires
            old(self).wf(),
        ensures
            final(self).wf(),
            final(self).active_set() == old(self).active_set().union(
                Set::new(|t: Tile| min_x <= t.0 <= max_x && min_y <= t.1 <= max_y),
            ),
            final(self).stable_counts() == old(self).stable_counts().remove_keys(
                Set::new(|t: Tile| min_x <= t.0 <= max_x && min_y <= t.1 <= max_y),
            ),
    {
        let mut y: i64 = min_y as i64;
        while y <= max_y as i64
            invariant
                self.wf(),
                min_y as i64 <= y,
                y == min_y as i64 || y <= max_y as i64 + 1,
                self.active_set() == old(self).active_set().union(
                    Set::new(|t: Tile| min_y <= t.1 < y && min_x <= t.0 <= max_x),
                ),
                self.stable_counts() == old(self).stable_counts().remove_keys(
                    Set::new(|t: Tile| min_y <= t.1 < y && min_x <= t.0 <= max_x),
                ),
            decreases max_y as i64 + 1 - y,
        {
            let ty = y as i32;
            let mut x: i64 = min_x as i64;
            while x <= max_x as i64
                invariant
                    self.wf(),
                    min_y as i64 <= y <= max_y as i64,
                    ty == y,
                    min_x as i64 <= x,
                    x == min_x as i64 || x <= max_x as i64 + 1,
                    self.active_set() == old(self).active_set().union(
                        Set::new(|t: Tile| (min_y <= t.1 < y && min_x <= t.0 <= max_x) || (t.1 == y && min_x <= t.0 < x)),
                    ),
                    self.stable_counts() == old(self).stable_counts().remove_keys(
                        Set::new(|t: Tile| (min_y <= t.1 < y && min_x <= t.0 <= max_x) || (t.1 == y && min_x <= t.0 < x)),
                    ),
                decreases max_x as i64 + 1 - x,
            {
                let ghost a0 = self.active_set();
                let ghost c0 = self.stable_counts();
                self.wake(x as i32, ty);
                proof {
                    let s_old = Set::new(|t: Tile| (min_y <= t.1 < y && min_x <= t.0 <= max_x) || (t.1 == y && min_x <= t.0 < x));
                    let s_new = Set::new(|t: Tile| (min_y <= t.1 < y && min_x <= t.0 <= max_x) || (t.1 == y && min_x <= t.0 < x + 1));
                    assert(s_new =~= s_old.insert((x as i32, ty)));
                    assert(self.active_set() =~= old(self).active_set().union(s_new));
                    assert(self.stable_counts() =~= old(self).stable_counts().remove_keys(s_new));
                }
                x = x + 1;
            }
            proof {
                let s_row = Set::new(|t: Tile| (min_y <= t.1 < y && min_x <= t.0 <= max_x) || (t.1 == y && min_x <= t.0 < x));
                let s_next = Set::new(|t: Tile| min_y <= t.1 < y + 1 && min_x <= t.0 <= max_x);
                assert(s_row =~= s_next);
            }
            y = y + 1;
        }
        proof {
            let s_end = Set::new(|t: Tile| min_y <= t.1 < y && min_x <= t.0 <= max_x);
            let s_rect = Set::new(|t: Tile| min_x <= t.0 <= max_x && min_y <= t.1 <= max_y);
            assert(s_end =~= s_rect);
        }
    }

    /// Wake a tile and its four neighbours.
    pub fn wake_with_neighbors(&mut self, tile_x: i32, tile_y: i32)
        requires
            old(self).wf(),
            i32::MIN < tile_x < i32::MAX,
            i32::MIN < tile_y < i32::MAX,
        ensures
            final(self).wf(),
            final(self).active_set() == old(self).active_set().union(neighbourhood(tile_x, tile_y)),
            final(self).stable_counts() == old(self).stable_counts().remove_keys(neighbourhood(tile_x, tile_y)),
    {
        self.wake(tile_x, tile_y);
        self.wake(tile_x + 1, tile_y);
        self.wake(tile_x - 1, tile_y);
        self.wake(tile_x, tile_y + 1);
        self.wake(tile_x, tile_y - 1);
        proof {
            assert(self.active_set() =~= old(self).active_set().union(neighbourhood(tile_x, tile_y)));
            assert(self.stable_counts() =~= old(self).stable_counts().remove_keys(neighbourhood(tile_x, tile_y)));
        }
    }

    /// Report a tile as stable this step; once stable long enough it sleeps.
    pub fn mark_stable(&mut self, tile_x: i32, tile_y: i32)
        requires
            old(self).wf(),
        ensures
            final(self).wf(),
            (final(self).active_set(), final(self).stable_counts())
                == stable_step(old(self).active_set(), old(self).stable_counts(), (tile_x, tile_y)),
    {
        let t = (tile_x, tile_y);
        let current: u8 = match self.stable_count.get(t) {
            Some(c) => c,
            None => 0,
        };
        let count = current.saturating_add(1);
        if count >= SLEEP_THRESHOLD {
            self.active.remove(t);
            self.stable_count.remove(t);
        } else {
            self.stable_count.set(t, count);
        }
    }

    /// Report a tile as changed: reset its stable counter and wake it and its neighbours.
    pub fn mark_changed(&mut self, tile_x: i32, tile_y: i32)
        requires
            old(self).wf(),
            i32::MIN < tile_x < i32::MAX,
            i32::MIN < tile_y < i32::MAX,
        ensures
            final(self).wf(),
            final(self).active_set() == old(self).active_set().union(neighbourhood(tile_x, tile_y)),
            final(self).stable_counts() == old(self).stable_counts().remove_keys(neighbourhood(tile_x, tile_y)),
    {
        self.stable_count.remove((tile_x, tile_y));
        self.wake_with_neighbors(tile_x, tile_y);
        proof {
            assert(old(self).stable_counts().remove((tile_x, tile_y)).remove_keys(neighbourhood(tile_x, tile_y))
                =~= old(self).stable_counts().remove_keys(neighbourhood(tile_x, tile_y)));
        }
    }

    /// The active tiles to simulate this step, at most `MAX_ACTIVE_PER_STEP` of them.
    pub fn active_tiles(&self) -> (v: Vec<Tile>)
        requires
            self.wf(),
        ensures
            v@.len() == if self.active_set().len() < MAX_ACTIVE_PER_STEP {
                self.active_set().len()
            } else {
                MAX_ACTIVE_PER_STEP as nat
            },
            v@.no_duplicates(),
            forall|t: Tile| v@.contains(t) ==> self.active_set().contains(t),
            self.active_set().len() <= MAX_ACTIVE_PER_STEP ==> v@.to_set() == self.active_set(),
    {
        self.active.first_tiles(MAX_ACTIVE_PER_STEP)
    }

    pub fn active_count(&self) -> (n: usize)
        requires
            self.wf(),
        ensures
            n == self.active_set().len(),
            self.active_set().finite(),
    {
        self.active.len()
    }

    /// Remove active tiles outside the simulation bounds.
    pub fn cull_outside(&mut self, min_x: i32, min_y: i32, max_x: i32, max_y: i32)
        requires
            old(self).wf(),
        ensures
            final(self).wf(),
            final(self).active_set() == old(self).active_set().filter(
                |t: Tile| min_x <= t.0 <= max_x && min_y <= t.1 <= max_y,
            ),
            final(self).stable_counts() == old(self).stable_counts(),
    {
        self.active.retain_in_rect(min_x, min_y, max_x, max_y);
    }
}

impl Default for SleepTracker {
    fn default() -> (s: SleepTracker)
        ensures
            s.wf(),
            s.active_set() == Set::<Tile>::empty(),
            s.stable_counts() == Map::<Tile, u8>::empty(),
    {
        SleepTracker::new()
    }
}

/// A tile and its four neighbours.
pub open spec fn neighbourhood(x: i32, y: i32) -> Set<Tile> {
    set![(x, y), ((x + 1) as i32, y), ((x - 1) as i32, y), (x, (y + 1) as i32), (x, (y - 1) as i32)]
}

/// A tile that is woken and then reported stable `SLEEP_THRESHOLD` times in a
/// row goes to sleep on the last report, and not before.
pub proof fn lemma_sleeps_after_threshold(active: Set<Tile>, counts: Map<Tile, u8>, t: Tile)
    ensures
        ({
            let a0 = active.insert(t);
            let c0 = counts.remove(t);
            let (a1, c1) = stable_step(a0, c0, t);
            let (a2, c2) = stable_step(a1, c1, t);
            let (a3, c3) = stable_step(a2, c2, t);
            let (a4, c4) = stable_step(a3, c3, t);
            let (a5, c5) = stable_step(a4, c4, t);
            &&& a1.contains(t) && a2.contains(t) && a3.contains(t) && a4.contains(t)
            &&& !a5.contains(t)
            &&& !c5.contains_key(t)
            &&& a5 == active.remove(t)
        }),
{
    let a0 = active.insert(t);
    let c0 = counts.remove(t);
    assert(!c0.contains_key(t));
    let (a5, c5) = stable_step(a0, c0, t);
    assert(a0.remove(t) =~= active.remove(t));
}

} // verus!
