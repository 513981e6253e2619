use vstd::prelude::*;

use crate::liquid::data::LiquidId;
use crate::liquid::registry::{is_last_reaction, liquid_names, LiquidDef, LiquidReaction, LiquidRegistry};
use crate::tile_set::{Tile, TileSet};

verus! {

/// The liquid at tile `t` according to `cells` (tile, liquid) pairs: the last
/// entry for `t`, or "no liquid" when there is none.
pub open spec fn liquid_of(cells: Seq<(Tile, LiquidId)>, t: Tile) -> LiquidId
    decreases cells.len(),
{
    if cells.len() == 0 {
        LiquidId(0)
    } else if cells.last().0 == t {
        cells.last().1
    } else {
        liquid_of(cells.drop_last(), t)
    }
}

/// The liquid at tile `t` (see `liquid_of`).
pub fn liquid_at(cells: &Vec<(Tile, LiquidId)>, t: Tile) -> (l: LiquidId)
    ensures
        l == liquid_of(cells@, t),
{
    let mut i: usize = cells.len();
    proof {
        assert(cells@.subrange(0, i as int) =~= cells@);
    }
    while i > 0
        invariant
            i <= cells@.len(),
            liquid_of(cells@, t) == liquid_of(cells@.subrange(0, i as int), t),
        decreases i,
    {
        let e = cells[i - 1];
        proof {
            assert(cells@.subrange(0, i as int).drop_last() =~= cells@.subrange(0, i as int - 1));
        }
        if e.0.0 == t.0 && e.0.1 == t.1 {
            return e.1;
        }
        i = i - 1;
    }
    LiquidId(0)
}

/// The reaction of liquid `a` with liquid `b` under the registered
/// definitions: among `a`'s reactions, the last whose other liquid is `b`.
pub open spec fn reaction_of(defs: Seq<LiquidDef>, a: LiquidId, b: LiquidId) -> Option<LiquidReaction> {
    if 1 <= a.0 <= defs.len() && exists|ri: int| #[trigger] is_last_reaction(liquid_names(defs), defs[a.0 - 1].reactions@, b, ri) {
        let ri = choose|ri: int| #[trigger] is_last_reaction(liquid_names(defs), defs[a.0 - 1].reactions@, b, ri);
        Some(defs[a.0 - 1].reactions@[ri])
    } else {
        None
    }
}

proof fn lemma_last_reaction_unique(names: Seq<Seq<char>>, reactions: Seq<LiquidReaction>, b: LiquidId, i: int, j: int)
    requires
        is_last_reaction(names, reactions, b, i),
        is_last_reaction(names, reactions, b, j),
    ensures
        i == j,
{
}

/// The registry's answer for a pair of liquids, as `reaction_of` says.
fn lookup_reaction(registry: &LiquidRegistry, a: LiquidId, b: LiquidId) -> (r: Option<&LiquidReaction>)
    ensures
        match r {
            Some(reaction) => reaction_of(registry.defs(), a, b) == Some(*reaction),
            None => reaction_of(registry.defs(), a, b) is None,
        },
{
    let r = registry.get_reaction(a, b);
    proof {
        let defs = registry.defs();
        match r {
            Some(reaction) => {
                let ri = choose|ri: int| #[trigger] is_last_reaction(liquid_names(defs), defs[a.0 - 1].reactions@, b, ri)
                    && *reaction == #[trigger] defs[a.0 - 1].reactions@[ri];
                let rj = choose|rj: int| #[trigger] is_last_reaction(liquid_names(defs), defs[a.0 - 1].reactions@, b, rj);
                lemma_last_reaction_unique(liquid_names(defs), defs[a.0 - 1].reactions@, b, ri, rj);
            },
            None => {
                if 1 <= a.0 <= defs.len() {
                    assert forall|ri: int| !#[trigger] is_last_reaction(liquid_names(defs), defs[a.0 - 1].reactions@, b, ri) by {
                        if 0 <= ri < defs[a.0 - 1].reactions@.len() {
                            assert(defs[a.0 - 1].reactions@[ri] == defs[a.0 - 1].reactions@[ri]);
                        }
                    }
                }
            },
        }
    }
    r
}

/// The neighbour of `c` checked `k`-th: below, right, above, left.
pub open spec fn neighbour(c: Tile, k: int) -> Tile {
    if k == 0 {
        (c.0, (c.1 - 1) as i32)
    } else if k == 1 {
        ((c.0 + 1) as i32, c.1)
    } else if k == 2 {
        (c.0, (c.1 + 1) as i32)
    } else {
        ((c.0 - 1) as i32, c.1)
    }
}

/// One reaction between two adjacent liquid cells, as the caller applies it:
/// the reaction site is the neighbour of the checked cell; the named tile (if
/// any) is produced there; the site's liquid is cleared, and with
/// `consume_both` the checked cell's too.
#[derive(Debug)]
pub struct ReactionEffect {
    pub center: Tile,
    pub site: Tile,
    pub produce_tile: Option<String>,
    pub consume_both: bool,
}

/// The mathematical form of a reaction effect.
pub struct EffectView {
    pub center: Tile,
    pub site: Tile,
    pub produce_tile: Option<Seq<char>>,
    pub consume_both: bool,
}

pub open spec fn name_view(s: Option<String>) -> Option<Seq<char>> {
    match s {
        Some(n) => Some(n@),
        None => None,
    }
}

pub open spec fn effect_view(e: ReactionEffect) -> EffectView {
    EffectView { center: e.center, site: e.site, produce_tile: name_view(e.produce_tile), consume_both: e.consume_both }
}

pub open spec fn effect_of(c: Tile, n: Tile, r: LiquidReaction) -> EffectView {
    EffectView { center: c, site: n, produce_tile: name_view(r.produce_tile), consume_both: r.consume_both }
}

/// Check the neighbours of cell `c` (liquid `a`) from the `k`-th on: each
/// neighbour that is not consumed yet and holds another liquid with which
/// `a` reacts reacts; the neighbour is consumed, and with `consume_both` so
/// is `c`, which then stops checking.
pub open spec fn react_neighbours(
    cells: Seq<(Tile, LiquidId)>,
    defs: Seq<LiquidDef>,
    c: Tile,
    a: LiquidId,
    k: int,
    consumed: Set<Tile>,
    effects: Seq<EffectView>,
) -> (Set<Tile>, Seq<EffectView>)
    decreases 4 - k,
{
    if k >= 4 || k < 0 {
        (consumed, effects)
    } else {
        let n = neighbour(c, k);
        let b = liquid_of(cells, n);
        if consumed.contains(n) || b.0 == 0 || b == a {
            react_neighbours(cells, defs, c, a, k + 1, consumed, effects)
        } else {
            match reaction_of(defs, a, b) {
                None => react_neighbours(cells, defs, c, a, k + 1, consumed, effects),
                Some(r) => if r.consume_both {
                    (consumed.insert(c).insert(n), effects.push(effect_of(c, n, r)))
                } else {
                    react_neighbours(cells, defs, c, a, k + 1, consumed.insert(n), effects.push(effect_of(c, n, r)))
                },
            }
        }
    }
}

/// The reaction pass over the first `i` active tiles, in order: the consumed
/// tiles and the reactions so far. A consumed or empty tile is skipped.
pub open spec fn react_all(cells: Seq<(Tile, LiquidId)>, defs: Seq<LiquidDef>, active: Seq<Tile>, i: int) -> (Set<Tile>, Seq<EffectView>)
    decreases i,
{
    if i <= 0 {
        (Set::empty(), Seq::empty())
    } else {
        let (consumed, effects) = react_all(cells, defs, active, i - 1);
        let c = active[i - 1];
        let a = liquid_of(cells, c);
        if consumed.contains(c) || a.0 == 0 {
            (consumed, effects)
        } else {
            react_neighbours(cells, defs, c, a, 0, consumed, effects)
        }
    }
}

/// The tiles whose liquid an effect clears.
pub open spec fn cleared(e: EffectView) -> Set<Tile> {
    if e.consume_both { set![e.center, e.site] } else { set![e.site] }
}

/// A tile in the tile range whose four neighbours are tiles too.
pub open spec fn inner_tile(t: Tile) -> bool {
    i32::MIN < t.0 < i32::MAX && i32::MIN < t.1 < i32::MAX
}

fn clone_name(s: &Option<String>) -> (r: Option<String>)
    ensures
        name_view(r) == name_view(*s),
{
    match s {
        Some(n) => Some(n.clone()),
        None => None,
    }
}

/// Check the liquid cells at the `active` tiles against their neighbours for
/// reactions between different liquids. `cells` gives the liquid at each
/// tile that holds any (tiles not listed hold none). Each tile's liquid takes
/// part in at most one consuming reaction: once consumed, a tile is skipped.
pub fn run_reactions(active: &Vec<Tile>, cells: &Vec<(Tile, LiquidId)>, registry: &LiquidRegistry) -> (effects: Vec<ReactionEffect>)
    requires
        forall|i: int| 0 <= i < active@.len() ==> inner_tile(#[trigger] active@[i]),
    ensures
        effects@.map_values(|e: ReactionEffect| effect_view(e))
            == react_all(cells@, registry.defs(), active@, active@.len() as int).1,
{
    let ghost defs = registry.defs();
    let mut consumed = TileSet::new();
    let mut effects: Vec<ReactionEffect> = Vec::new();
    let n = active.len();
    let mut i: usize = 0;
    while i < n
        invariant
            n == active@.len(),
            0 <= i <= n,
            defs == registry.defs(),
            consumed.wf(),
            forall|q: int| 0 <= q < active@.len() ==> inner_tile(#[trigger] active@[q]),
            (consumed@, effects@.map_values(|e: ReactionEffect| effect_view(e))) == react_all(cells@, defs, active@, i as int),
        decreases n - i,
    {
        let c = active[i];
        let ghost before = (consumed@, effects@.map_values(|e: ReactionEffect| effect_view(e)));
        let a = liquid_at(cells, c);
        if !consumed.contains(c) && a.0 != 0 {
            let ghost target = react_neighbours(cells@, defs, c, a, 0, consumed@, before.1);
            let mut k: usize = 0;
            while k < 4
                invariant_except_break
                    !consumed@.contains(c),
                    react_neighbours(cells@, defs, c, a, k as int, consumed@, effects@.map_values(|e: ReactionEffect| effect_view(e))) == target,
                invariant
                    0 <= k <= 4,
                    inner_tile(c),
                    defs == registry.defs(),
                    consumed.wf(),
                    a == liquid_of(cells@, c),
                    a.0 != 0,
                ensures
                    (consumed@, effects@.map_values(|e: ReactionEffect| effect_view(e))) == target,
                decreases 4 - k,
            {
                let nb: Tile = if k == 0 {
                    (c.0, c.1 - 1)
                } else if k == 1 {
                    (c.0 + 1, c.1)
                } else if k == 2 {
                    (c.0, c.1 + 1)
                } else {
                    (c.0 - 1, c.1)
                };
                assert(nb == neighbour(c, k as int));
                let ghost ev = effects@.map_values(|e: ReactionEffect| effect_view(e));
                let b = liquid_at(cells, nb);
                if !consumed.contains(nb) && b.0 != 0 && b.0 != a.0 {
                    match lookup_reaction(registry, a, b) {
                        Some(r) => {
                            let eff = ReactionEffect {
                                center: c,
                                site: nb,
                                produce_tile: clone_name(&r.produce_tile),
                                consume_both: r.consume_both,
                            };
                            effects.push(eff);
                            proof {
                                assert(effects@.map_values(|e: ReactionEffect| effect_view(e)) =~= ev.push(effect_of(c, nb, *r)));
                            }
                            if r.consume_both {
                                consumed.insert(c);
                                consumed.insert(nb);
                                break;
                            } else {
                                consumed.insert(nb);
                                proof {
                                    assert(nb != c);
                                }
                            }
                        },
                        None => {},
                    }
                }
                k = k + 1;
            }
        }
        i = i + 1;
    }
    effects
}


/// Every cleared tile is consumed, and no tile is cleared by two effects.
pub open spec fn clears_once(consumed: Set<Tile>, effects: Seq<EffectView>) -> bool {
    &&& forall|j: int, t: Tile| 0 <= j < effects.len() && #[trigger] cleared(effects[j]).contains(t) ==> consumed.contains(t)
    &&& forall|j: int, l: int, t: Tile|
        0 <= j < l < effects.len() && #[trigger] cleared(effects[j]).contains(t) ==> !#[trigger] cleared(effects[l]).contains(t)
}

proof fn lemma_neighbour_differs(c: Tile, k: int)
    requires
        inner_tile(c),
    ensures
        neighbour(c, k) != c,
{
}

proof fn lemma_react_neighbours_clear_once(
    cells: Seq<(Tile, LiquidId)>,
    defs: Seq<LiquidDef>,
    c: Tile,
    a: LiquidId,
    k: int,
    consumed: Set<Tile>,
    effects: Seq<EffectView>,
)
    requires
        inner_tile(c),
        !consumed.contains(c),
        clears_once(consumed, effects),
    ensures
        clears_once(react_neighbours(cells, defs, c, a, k, consumed, effects).0, react_neighbours(cells, defs, c, a, k, consumed, effects).1),
    decreases 4 - k,
{
    if k >= 4 || k < 0 {
    } else {
        let n = neighbour(c, k);
        lemma_neighbour_differs(c, k);
        let b = liquid_of(cells, n);
        if consumed.contains(n) || b.0 == 0 || b == a {
            lemma_react_neighbours_clear_once(cells, defs, c, a, k + 1, consumed, effects);
        } else {
            match reaction_of(defs, a, b) {
                None => {
                    lemma_react_neighbours_clear_once(cells, defs, c, a, k + 1, consumed, effects);
                },
                Some(r) => {
                    let e = effect_of(c, n, r);
                    let effects2 = effects.push(e);
                    let consumed2 = if r.consume_both { consumed.insert(c).insert(n) } else { consumed.insert(n) };
                    assert(clears_once(consumed2, effects2)) by {
                        assert forall|j: int, t: Tile| 0 <= j < effects2.len() && #[trigger] cleared(effects2[j]).contains(t)
                            implies consumed2.contains(t) by {
                            if j < effects.len() {
                                assert(effects2[j] == effects[j]);
                            }
                        }
                        assert forall|j: int, l: int, t: Tile|
                            0 <= j < l < effects2.len() && #[trigger] cleared(effects2[j]).contains(t)
                            implies !#[trigger] cleared(effects2[l]).contains(t) by {
                            assert(effects2[j] == effects[j]);
                            if l < effects.len() {
                                assert(effects2[l] == effects[l]);
                            } else {
                                assert(consumed.contains(t));
                            }
                        }
                    }
                    if !r.consume_both {
                        lemma_react_neighbours_clear_once(cells, defs, c, a, k + 1, consumed2, effects2);
                    }
                },
            }
        }
    }
}

/// In one reaction pass no tile's liquid is cleared by two reactions, and
/// every tile a reaction clears is marked consumed (so it takes part in no
/// later reaction of the pass).
pub proof fn lemma_reactions_clear_once(cells: Seq<(Tile, LiquidId)>, defs: Seq<LiquidDef>, active: Seq<Tile>, i: int)
    requires
        forall|q: int| 0 <= q < active.len() ==> inner_tile(#[trigger] active[q]),
        i <= active.len(),
    ensures
        clears_once(react_all(cells, defs, active, i).0, react_all(cells, defs, active, i).1),
    decreases i,
{
    if i > 0 {
        lemma_reactions_clear_once(cells, defs, active, i - 1);
        let (consumed, effects) = react_all(cells, defs, active, i - 1);
        let c = active[i - 1];
        let a = liquid_of(cells, c);
        if !(consumed.contains(c) || a.0 == 0) {
            lemma_react_neighbours_clear_once(cells, defs, c, a, 0, consumed, effects);
        }
    }
}


/// The four tiles next to `c`, each one row or column away.
pub open spec fn beside(c: Tile, t: Tile) -> bool {
    ||| t == (c.0, (c.1 - 1) as i32)
    ||| t == ((c.0 + 1) as i32, c.1)
    ||| t == (c.0, (c.1 + 1) as i32)
    ||| t == ((c.0 - 1) as i32, c.1)
}

/// Every side of a liquid cell is checked: when a single awake cell of liquid
/// `a` has exactly one neighbouring tile with liquid in it, whichever side
/// that tile is on, and `a` reacts with that liquid, the pass yields exactly
/// that one reaction, at that tile.
pub proof fn lemma_each_side_reacts(
    cells: Seq<(Tile, LiquidId)>,
    defs: Seq<LiquidDef>,
    c: Tile,
    n: Tile,
    r: LiquidReaction,
)
    requires
        inner_tile(c),
        beside(c, n),
        liquid_of(cells, c).0 != 0,
        liquid_of(cells, n).0 != 0,
        liquid_of(cells, n) != liquid_of(cells, c),
        reaction_of(defs, liquid_of(cells, c), liquid_of(cells, n)) == Some(r),
        forall|t: Tile| beside(c, t) && t != n ==> #[trigger] liquid_of(cells, t).0 == 0,
    ensures
        react_all(cells, defs, seq![c], 1).1 == seq![
            EffectView { center: c, site: n, produce_tile: name_view(r.produce_tile), consume_both: r.consume_both },
        ],
{
    reveal_with_fuel(react_neighbours, 5);
    let a = liquid_of(cells, c);
    let n0 = (c.0, (c.1 - 1) as i32);
    let n1 = ((c.0 + 1) as i32, c.1);
    let n2 = (c.0, (c.1 + 1) as i32);
    let n3 = ((c.0 - 1) as i32, c.1);
    assert(neighbour(c, 0) == n0 && neighbour(c, 1) == n1 && neighbour(c, 2) == n2 && neighbour(c, 3) == n3);
    assert(n0 != n1 && n0 != n2 && n0 != n3 && n1 != n2 && n1 != n3 && n2 != n3);
    assert(beside(c, n0) && beside(c, n1) && beside(c, n2) && beside(c, n3));
    if n != n0 { assert(liquid_of(cells, n0).0 == 0); }
    if n != n1 { assert(liquid_of(cells, n1).0 == 0); }
    if n != n2 { assert(liquid_of(cells, n2).0 == 0); }
    if n != n3 { assert(liquid_of(cells, n3).0 == 0); }
    let e = EffectView { center: c, site: n, produce_tile: name_view(r.produce_tile), consume_both: r.consume_both };
    let empty = Set::<Tile>::empty();
    let none = Seq::<EffectView>::empty();
    assert(react_all(cells, defs, seq![c], 0) == (empty, none));
    assert(react_all(cells, defs, seq![c], 1) == react_neighbours(cells, defs, c, a, 0, empty, none));
    assert(effect_of(c, n, r) == e);
    assert(none.push(e) =~= seq![e]);
    if n == n0 {
        assert(react_neighbours(cells, defs, c, a, 0, empty, none).1 == seq![e]);
    } else if n == n1 {
        assert(react_neighbours(cells, defs, c, a, 0, empty, none) == react_neighbours(cells, defs, c, a, 1, empty, none));
        assert(react_neighbours(cells, defs, c, a, 1, empty, none).1 == seq![e]);
    } else if n == n2 {
        assert(react_neighbours(cells, defs, c, a, 0, empty, none) == react_neighbours(cells, defs, c, a, 2, empty, none));
        assert(react_neighbours(cells, defs, c, a, 2, empty, none).1 == seq![e]);
    } else {
        assert(react_neighbours(cells, defs, c, a, 0, empty, none) == react_neighbours(cells, defs, c, a, 3, empty, none));
        assert(react_neighbours(cells, defs, c, a, 3, empty, none).1 == seq![e]);
    }
}

} // verus!
