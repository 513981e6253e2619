use vstd::prelude::*;

use crate::fluid::cell::FluidId;

verus! {

/// A tile's fluid in the level-based model: a fluid type and a fill level
/// from 0 (empty) to 255 (full).
#[derive(Clone, Copy, Debug, PartialEq, Eq, Structural)]
pub struct FluidLevel {
    pub fluid_id: FluidId,
    pub level: u8,
}

impl Default for FluidLevel {
    fn default() -> (f: Self)
        ensures
            f.fluid_id.0 == 0,
            f.level == 0,
    {
        FluidLevel { fluid_id: FluidId(0), level: 0 }
    }
}

/// What a neighbour of a tile being filled holds: whether it is solid, and
/// its fluid.
#[derive(Clone, Copy, Debug, PartialEq, Eq, Structural)]
pub struct DisplacementNeighbour {
    pub solid: bool,
    pub fluid: FluidLevel,
}

/// The offset of the `k`-th neighbour that displaced fluid is pushed to: up
/// first (the block pushes the fluid up), then left, right, and down last.
pub open spec fn push_offset(k: int) -> (int, int) {
    if k == 0 {
        (0, 1)
    } else if k == 1 {
        (-1, 0)
    } else if k == 2 {
        (1, 0)
    } else {
        (0, -1)
    }
}

/// The offset of the `k`-th neighbour (see `push_offset`).
pub fn displacement_offset(k: usize) -> (o: (i32, i32))
    requires
        k < 4,
    ensures
        o.0 == push_offset(k as int).0,
        o.1 == push_offset(k as int).1,
{
    if k == 0 {
        (0, 1)
    } else if k == 1 {
        (-1, 0)
    } else if k == 2 {
        (1, 0)
    } else {
        (0, -1)
    }
}

/// How much of the displaced fluid neighbour `n` takes: nothing if it is
/// solid or holds another fluid, else as much as fits below 255.
pub open spec fn intake(displaced: FluidLevel, n: DisplacementNeighbour, remaining: int) -> int {
    if n.solid || (n.fluid.fluid_id.0 != 0 && n.fluid.fluid_id != displaced.fluid_id) {
        0
    } else {
        let space = 255 - n.fluid.level;
        if remaining < space { remaining } else { space }
    }
}

/// The new contents of neighbours `k..4` when `remaining` units of the
/// displaced fluid are still to place: each in turn takes what it can;
/// `None` where a neighbour is left as it was.
pub open spec fn push_from(displaced: FluidLevel, nbs: Seq<DisplacementNeighbour>, k: int, remaining: int) -> Seq<Option<FluidLevel>>
    decreases 4 - k,
{
    if k >= 4 || k < 0 {
        Seq::empty()
    } else if remaining <= 0 {
        seq![None::<FluidLevel>].add(push_from(displaced, nbs, k + 1, remaining))
    } else {
        let t = intake(displaced, nbs[k], remaining);
        if t <= 0 {
            seq![None::<FluidLevel>].add(push_from(displaced, nbs, k + 1, remaining))
        } else {
            seq![Some(FluidLevel { fluid_id: displaced.fluid_id, level: (nbs[k].fluid.level + t) as u8 })]
                .add(push_from(displaced, nbs, k + 1, remaining - t))
        }
    }
}

/// The units placed by `push_from` in neighbours `k..4`.
pub open spec fn placed_from(displaced: FluidLevel, nbs: Seq<DisplacementNeighbour>, k: int, remaining: int) -> int
    decreases 4 - k,
{
    if k >= 4 || k < 0 || remaining <= 0 {
        0
    } else {
        let t = intake(displaced, nbs[k], remaining);
        if t <= 0 {
            placed_from(displaced, nbs, k + 1, remaining)
        } else {
            t + placed_from(displaced, nbs, k + 1, remaining - t)
        }
    }
}

/// Spread the fluid of a tile that a block was just placed on over its four
/// neighbours (in the order of `push_offset`). Returns the new fluid of each
/// neighbour that receives some (`None` for the others); whatever finds no
/// room is destroyed.
pub fn displace_fluid(displaced: FluidLevel, neighbours: &[DisplacementNeighbour; 4]) -> (r: Vec<Option<FluidLevel>>)
    ensures
        r@ == push_from(displaced, neighbours@, 0, displaced.level as int),
{
    let mut out: Vec<Option<FluidLevel>> = Vec::new();
    let mut remaining: i32 = displaced.level as i32;
    let mut k: usize = 0;
    while k < 4
        invariant
            0 <= k <= 4,
            0 <= remaining <= 255,
            out@ + push_from(displaced, neighbours@, k as int, remaining as int)
                == push_from(displaced, neighbours@, 0, displaced.level as int),
        decreases 4 - k,
    {
        let ghost before = out@;
        let ghost rem0 = remaining;
        let n = neighbours[k];
        let mut placed: Option<FluidLevel> = None;
        if remaining > 0 {
            let blocked = n.solid || (n.fluid.fluid_id.0 != 0 && n.fluid.fluid_id.0 != displaced.fluid_id.0);
            if !blocked {
                let space: i32 = 255 - n.fluid.level as i32;
                let transfer: i32 = if remaining < space { remaining } else { space };
                if transfer > 0 {
                    placed = Some(FluidLevel { fluid_id: displaced.fluid_id, level: (n.fluid.level as i32 + transfer) as u8 });
                    remaining = remaining - transfer;
                }
            }
        }
        out.push(placed);
        proof {
            let tail = push_from(displaced, neighbours@, k as int + 1, remaining as int);
            assert(push_from(displaced, neighbours@, k as int, rem0 as int) == seq![placed].add(tail));
            assert(out@ + tail =~= before + seq![placed].add(tail));
        }
        k = k + 1;
    }
    proof {
        assert(out@ + push_from(displaced, neighbours@, 4, remaining as int) =~= out@);
    }
    out
}


/// The total rise in level over the neighbours from `k` on, for new contents
/// `res` (one entry per neighbour).
pub open spec fn added_levels(res: Seq<Option<FluidLevel>>, nbs: Seq<DisplacementNeighbour>, k: int) -> int
    decreases res.len(),
{
    if res.len() == 0 {
        0
    } else {
        let rise = match res[0] {
            Some(f) => f.level - nbs[k].fluid.level,
            None => 0,
        };
        rise + added_levels(res.drop_first(), nbs, k + 1)
    }
}

/// Displacement never creates fluid: the levels it adds up to at most what
/// was displaced (the rest is destroyed); a neighbour receives only if it is
/// not solid and holds no other fluid, ends up holding the displaced fluid,
/// and never goes past full.
pub proof fn lemma_displacement_conserves(displaced: FluidLevel, nbs: Seq<DisplacementNeighbour>, k: int, remaining: int)
    requires
        nbs.len() == 4,
        0 <= k <= 4,
        0 <= remaining,
    ensures
        push_from(displaced, nbs, k, remaining).len() == 4 - k,
        added_levels(push_from(displaced, nbs, k, remaining), nbs, k) == placed_from(displaced, nbs, k, remaining),
        0 <= placed_from(displaced, nbs, k, remaining) <= remaining,
        forall|j: int| 0 <= j < 4 - k && #[trigger] push_from(displaced, nbs, k, remaining)[j] is Some ==> {
            let n = nbs[k + j];
            let f = push_from(displaced, nbs, k, remaining)[j]->0;
            &&& !n.solid
            &&& (n.fluid.fluid_id.0 == 0 || n.fluid.fluid_id == displaced.fluid_id)
            &&& f.fluid_id == displaced.fluid_id
            &&& n.fluid.level < f.level
        },
    decreases 4 - k,
{
    if k < 4 {
        let res = push_from(displaced, nbs, k, remaining);
        if remaining <= 0 {
            lemma_displacement_conserves(displaced, nbs, k + 1, remaining);
            assert(res.drop_first() =~= push_from(displaced, nbs, k + 1, remaining));
        } else {
            let t = intake(displaced, nbs[k], remaining);
            if t <= 0 {
                lemma_displacement_conserves(displaced, nbs, k + 1, remaining);
                assert(res.drop_first() =~= push_from(displaced, nbs, k + 1, remaining));
            } else {
                lemma_displacement_conserves(displaced, nbs, k + 1, remaining - t);
                assert(res.drop_first() =~= push_from(displaced, nbs, k + 1, remaining - t));
            }
        }
        let rest = res.drop_first();
        assert forall|j: int| 0 <= j < 4 - k && #[trigger] res[j] is Some implies {
            let n = nbs[k + j];
            let f = res[j]->0;
            &&& !n.solid
            &&& (n.fluid.fluid_id.0 == 0 || n.fluid.fluid_id == displaced.fluid_id)
            &&& f.fluid_id == displaced.fluid_id
            &&& n.fluid.level < f.level
        } by {
            if j > 0 {
                assert(res[j] == rest[j - 1]);
            }
        }
    }
}

} // verus!
