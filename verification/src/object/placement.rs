use vstd::prelude::*;

use crate::object::definition::{ObjectDef, PlacementRule};

verus! {

/// What the world shows around an anchor tile for an object of width `w` and
/// height `h` (anchor = bottom-left):
/// - `area_clear[dy * w + dx]`: the foreground tile at `(ax + dx, ay + dy)` is
///   loaded, is air, and no object occupies it;
/// - `floor_solid[dx]`: the tile at `(ax + dx, ay - 1)` is solid;
/// - `ceiling_solid[dx]`: the tile at `(ax + dx, ay + h)` is solid;
/// - `left_solid`, `right_solid`: the tiles at `(ax - 1, ay)` and `(ax + w, ay)` are solid.
#[derive(Debug)]
pub struct PlacementSite {
    pub area_clear: Vec<bool>,
    pub floor_solid: Vec<bool>,
    pub ceiling_solid: Vec<bool>,
    pub left_solid: bool,
    pub right_solid: bool,
}

pub open spec fn all_true(s: Seq<bool>) -> bool {
    forall|i: int| 0 <= i < s.len() ==> #[trigger] s[i]
}

/// Whether the placement rule is met by the surroundings.
pub open spec fn rule_met(rule: PlacementRule, site: PlacementSite) -> bool {
    match rule {
        PlacementRule::Floor => all_true(site.floor_solid@),
        PlacementRule::Wall => site.left_solid || site.right_solid,
        PlacementRule::Ceiling => all_true(site.ceiling_solid@),
        PlacementRule::FloorOrWall => all_true(site.floor_solid@) || site.left_solid || site.right_solid,
        PlacementRule::Any => true,
    }
}

fn all_set(v: &Vec<bool>) -> (r: bool)
    ensures
        r == all_true(v@),
{
    let n = v.len();
    let mut i: usize = 0;
    while i < n
        invariant
            n == v@.len(),
            0 <= i <= n,
            forall|k: int| 0 <= k < i ==> #[trigger] v@[k],
        decreases n - i,
    {
        if !v[i] {
            return false;
        }
        i = i + 1;
    }
    true
}

/// Whether the placement rule of an object is met by its surroundings.
pub fn placement_rule_met(rule: PlacementRule, site: &PlacementSite) -> (r: bool)
    ensures
        r == rule_met(rule, *site),
        rule == PlacementRule::Wall ==> r == (site.left_solid || site.right_solid),
        rule == PlacementRule::Any ==> r,
        rule == PlacementRule::Floor ==> r == (forall|i: int| 0 <= i < site.floor_solid@.len() ==> site.floor_solid@[i]),
        rule == PlacementRule::Ceiling ==> r == (forall|i: int| 0 <= i < site.ceiling_solid@.len() ==> site.ceiling_solid@[i]),
        rule == PlacementRule::FloorOrWall ==> r == (site.left_solid || site.right_solid
            || forall|i: int| 0 <= i < site.floor_solid@.len() ==> site.floor_solid@[i]),
{
    match rule {
        PlacementRule::Floor => all_set(&site.floor_solid),
        PlacementRule::Wall => site.left_solid || site.right_solid,
        PlacementRule::Ceiling => all_set(&site.ceiling_solid),
        PlacementRule::FloorOrWall => {
            let floor_ok = all_set(&site.floor_solid);
            floor_ok || site.left_solid || site.right_solid
        },
        PlacementRule::Any => true,
    }
}

/// An object can be placed when every tile of its area is clear and its
/// placement rule is met.
pub fn can_place_object(def: &ObjectDef, site: &PlacementSite) -> (r: bool)
    requires
        site.area_clear@.len() == def.size.0 * def.size.1,
        site.floor_solid@.len() == def.size.0,
        site.ceiling_solid@.len() == def.size.0,
    ensures
        r == (all_true(site.area_clear@) && rule_met(def.placement, *site)),
        def.placement == PlacementRule::Wall ==> r == (all_true(site.area_clear@) && (site.left_solid || site.right_solid)),
{
    if !all_set(&site.area_clear) {
        return false;
    }
    placement_rule_met(def.placement, site)
}

/// The tiles an object covers, with the anchor flag, in the order in which
/// occupancy is written and cleared.
pub fn footprint(ax: i32, ay: i32, w: u32, h: u32) -> (v: Vec<(i32, i32, bool)>)
    requires
        w * h <= usize::MAX,
        w <= i32::MAX,
        h <= i32::MAX,
        ax + w <= i32::MAX,
        ay + h <= i32::MAX,
    ensures
        v@.len() == w * h,
        forall|dy: int, dx: int| 0 <= dy < h && 0 <= dx < w ==> {
            let e = #[trigger] v@[dy * w + dx];
            e.0 == ax + dx && e.1 == ay + dy && e.2 == (dx == 0 && dy == 0)
        },
{
    let mut v: Vec<(i32, i32, bool)> = Vec::new();
    let mut dy: u32 = 0;
    while dy < h
        invariant
            dy <= h,
            w <= i32::MAX,
            h <= i32::MAX,
            w * h <= usize::MAX,
            ax + w <= i32::MAX,
            ay + h <= i32::MAX,
            v@.len() == dy * w,
            forall|y: int, x: int| 0 <= y < dy && 0 <= x < w ==> {
                let e = #[trigger] v@[y * w + x];
                e.0 == ax + x && e.1 == ay + y && e.2 == (x == 0 && y == 0)
            },
        decreases h - dy,
    {
        let mut dx: u32 = 0;
        while dx < w
            invariant
                dy < h,
                dx <= w,
                w <= i32::MAX,
                h <= i32::MAX,
                w * h <= usize::MAX,
                ax + w <= i32::MAX,
                ay + h <= i32::MAX,
                v@.len() == dy * w + dx,
                forall|y: int, x: int| (0 <= y < dy && 0 <= x < w) || (y == dy && 0 <= x < dx) ==> {
                    let e = #[trigger] v@[y * w + x];
                    e.0 == ax + x && e.1 == ay + y && e.2 == (x == 0 && y == 0)
                },
            decreases w - dx,
        {
            proof {
                assert(dy * w + dx < h * w) by (nonlinear_arith)
                    requires dy < h, dx < w;
            }
            let ghost before = v@;
            v.push((ax + dx as i32, ay + dy as i32, dx == 0 && dy == 0));
            proof {
                assert forall|y: int, x: int| (0 <= y < dy && 0 <= x < w) || (y == dy && 0 <= x < dx + 1) implies {
                    let e = #[trigger] v@[y * w + x];
                    e.0 == ax + x && e.1 == ay + y && e.2 == (x == 0 && y == 0)
                } by {
                    if y < dy {
                        assert(y * w + x < dy * w) by (nonlinear_arith)
                            requires y < dy, x < w, 0 <= x;
                        assert(v@[y * w + x] == before[y * w + x]);
                    } else if x < dx {
                        assert(v@[y * w + x] == before[y * w + x]);
                    } else {
                        assert(y * w + x == before.len());
                    }
                }
            }
            dx = dx + 1;
        }
        proof {
            assert(dy * w + w == (dy + 1) * w) by (nonlinear_arith);
            assert forall|y: int, x: int| 0 <= y < dy + 1 && 0 <= x < w implies {
                let e = #[trigger] v@[y * w + x];
                e.0 == ax + x && e.1 == ay + y && e.2 == (x == 0 && y == 0)
            } by {
                if y < dy {
                } else {
                    assert(y == dy);
                }
            }
        }
        dy = dy + 1;
    }
    proof {
        assert(h * w == w * h) by (nonlinear_arith);
    }
    v
}

/// World position of an object's anchor from the chunk that stores it and its
/// local position in that chunk.
pub fn anchor_world_position(chunk_x: i32, chunk_y: i32, chunk_size: u32, local_x: u32, local_y: u32) -> (p: (i32, i32))
    requires
        i32::MIN <= chunk_x * chunk_size + local_x <= i32::MAX,
        i32::MIN <= chunk_y * chunk_size + local_y <= i32::MAX,
        chunk_size <= i32::MAX,
        local_x <= i32::MAX,
        local_y <= i32::MAX,
        i32::MIN <= chunk_x * chunk_size <= i32::MAX,
        i32::MIN <= chunk_y * chunk_size <= i32::MAX,
    ensures
        p.0 == chunk_x * chunk_size + local_x,
        p.1 == chunk_y * chunk_size + local_y,
{
    let cs = chunk_size as i32;
    let base_x = chunk_x * cs;
    let base_y = chunk_y * cs;
    (base_x + local_x as i32, base_y + local_y as i32)
}


/// Every value of `s` holds exactly when every value of its reverse holds.
proof fn lemma_all_true_reverse(s: Seq<bool>)
    ensures
        all_true(s.reverse()) == all_true(s),
{
    if all_true(s) {
        assert forall|i: int| 0 <= i < s.reverse().len() implies #[trigger] s.reverse()[i] by {
            assert(s.reverse()[i] == s[s.len() - 1 - i]);
        }
    }
    if all_true(s.reverse()) {
        assert forall|i: int| 0 <= i < s.len() implies #[trigger] s[i] by {
            assert(s.reverse()[s.len() - 1 - i] == s[i]);
        }
    }
}

/// Placement does not depend on the direction: a site seen in a mirror (left
/// and right swapped, floor and ceiling rows reversed) meets a rule exactly
/// when the site does. In particular a wall object may hang on a solid tile
/// on either side.
pub proof fn lemma_rule_met_mirrored(rule: PlacementRule, site: PlacementSite, mirror: PlacementSite)
    requires
        mirror.left_solid == site.right_solid,
        mirror.right_solid == site.left_solid,
        mirror.floor_solid@ == site.floor_solid@.reverse(),
        mirror.ceiling_solid@ == site.ceiling_solid@.reverse(),
    ensures
        rule_met(rule, mirror) == rule_met(rule, site),
{
    lemma_all_true_reverse(site.floor_solid@);
    lemma_all_true_reverse(site.ceiling_solid@);
}

/// A wall object's rule is met exactly when a solid tile is beside it on the
/// left or on the right; a floor object needs every tile under it solid.
pub proof fn lemma_wall_and_floor_rules(site: PlacementSite)
    ensures
        rule_met(PlacementRule::Wall, site) <==> site.left_solid || site.right_solid,
        rule_met(PlacementRule::Floor, site) <==> forall|i: int| 0 <= i < site.floor_solid@.len() ==> site.floor_solid@[i],
        rule_met(PlacementRule::Any, site),
{
}

} // verus!
