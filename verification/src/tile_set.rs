use vstd::prelude::*;

verus! {

/// World tile coordinates (x, y).
pub type Tile = (i32, i32);

fn same_tile(a: Tile, b: Tile) -> (r: bool)
    ensures
        r == (a == b),
{
    a.0 == b.0 && a.1 == b.1
}

/// A set of tile coordinates. Each tile is stored once; the order of the
/// stored tiles is the order in which they were first inserted.
#[derive(Debug)]
pub struct TileSet {
    tiles: Vec<Tile>,
}

impl View for TileSet {
    type V = Set<Tile>;

    closed spec fn view(&self) -> Set<Tile> {
        self.tiles@.to_set()
    }
}

proof fn lemma_remove_unique(s: Seq<Tile>, i: int)
    requires
        s.no_duplicates(),
        0 <= i < s.len(),
    ensures
        s.remove(i).no_duplicates(),
        s.remove(i).to_set() == s.to_set().remove(s[i]),
{
    s.remove_ensures(i);
    let r = s.remove(i);
    assert forall|a: int, b: int| 0 <= a < r.len() && 0 <= b < r.len() && a != b implies r[a] != r[b] by {
        let sa = if a < i { a } else { a + 1 };
        let sb = if b < i { b } else { b + 1 };
        assert(r[a] == s[sa]);
        assert(r[b] == s[sb]);
    }
    assert forall|x: Tile| r.to_set().contains(x) <==> s.to_set().remove(s[i]).contains(x) by {
        if r.contains(x) {
            let k = choose|k: int| 0 <= k < r.len() && r[k] == x;
            let sk = if k < i { k } else { k + 1 };
            assert(s[sk] == x);
            assert(sk != i);
        }
        if s.contains(x) && x != s[i] {
            let k = choose|k: int| 0 <= k < s.len() && s[k] == x;
            assert(k != i);
            let rk = if k < i { k } else { k - 1 };
            assert(r[rk] == x);
        }
    }
    assert(r.to_set() =~= s.to_set().remove(s[i]));
}

impl TileSet {
    /// Each tile occurs once in the storage.
    pub closed spec fn wf(&self) -> bool {
        self.tiles@.no_duplicates()
    }

    pub fn new() -> (s: TileSet)
        ensures
            s.wf(),
            s@ == Set::<Tile>::empty(),
    {
        let s = TileSet { tiles: Vec::new() };
        proof {
            assert(s.tiles@.to_set() =~= Set::<Tile>::empty());
        }
        s
    }

    pub fn len(&self) -> (n: usize)
        requires
            self.wf(),
        ensures
            n == self@.len(),
            self@.finite(),
    {
        proof {
            self.tiles@.unique_seq_to_set();
            vstd::seq_lib::seq_to_set_is_finite(self.tiles@);
        }
        self.tiles.len()
    }

    pub fn contains(&self, t: Tile) -> (r: bool)
        ensures
            r == self@.contains(t),
    {
        let n = self.tiles.len();
        let mut i: usize = 0;
        while i < n
            invariant
                n == self.tiles@.len(),
                0 <= i <= n,
                forall|k: int| 0 <= k < i ==> self.tiles@[k] != t,
            decreases n - i,
        {
            if same_tile(self.tiles[i], t) {
                return true;
            }
            i = i + 1;
        }
        false
    }

    /// Position of `t` in the storage, if present.
    fn position(&self, t: Tile) -> (r: Option<usize>)
        ensures
            match r {
                Some(i) => i < self.tiles@.len() && self.tiles@[i as int] == t,
                None => !self@.contains(t),
            },
    {
        let n = self.tiles.len();
        let mut i: usize = 0;
        while i < n
            invariant
                n == self.tiles@.len(),
                0 <= i <= n,
                forall|k: int| 0 <= k < i ==> self.tiles@[k] != t,
            decreases n - i,
        {
            if same_tile(self.tiles[i], t) {
                return Some(i);
            }
            i = i + 1;
        }
        None
    }

    /// Insert a tile; returns true if it was not present before.
    pub fn insert(&mut self, t: Tile) -> (added: bool)
        requires
            old(self).wf(),
        ensures
            final(self).wf(),
            final(self)@ == old(self)@.insert(t),
            added == !old(self)@.contains(t),
    {
        if self.contains(t) {
            proof {
                assert(self@.insert(t) =~= self@);
            }
            false
        } else {
            self.tiles.push(t);
            proof {
                assert(self.tiles@.to_set() =~= old(self).tiles@.to_set().insert(t)) by {
                    assert forall|x: Tile| self.tiles@.contains(x) implies old(self).tiles@.contains(x) || x == t by {
                        let k = choose|k: int| 0 <= k < self.tiles@.len() && self.tiles@[k] == x;
                        if k < old(self).tiles@.len() {
                            assert(old(self).tiles@[k] == x);
                        }
                    }
                    assert forall|x: Tile| old(self).tiles@.contains(x) implies self.tiles@.contains(x) by {
                        let k = choose|k: int| 0 <= k < old(self).tiles@.len() && old(self).tiles@[k] == x;
                        assert(self.tiles@[k] == x);
                    }
                    assert(self.tiles@[old(self).tiles@.len() as int] == t);
                }
            }
            true
        }
    }

    /// Remove a tile; returns true if it was present.
    pub fn remove(&mut self, t: Tile) -> (removed: bool)
        requires
            old(self).wf(),
        ensures
            final(self).wf(),
            final(self)@ == old(self)@.remove(t),
            removed == old(self)@.contains(t),
    {
        match self.position(t) {
            Some(i) => {
                proof {
                    lemma_remove_unique(self.tiles@, i as int);
                }
                self.tiles.remove(i);
                true
            },
            None => {
                proof {
                    assert(self@.remove(t) =~= self@);
                }
                false
            },
        }
    }

    /// Remove every tile.
    pub fn clear(&mut self)
        ensures
            final(self).wf(),
            final(self)@ == Set::<Tile>::empty(),
    {
        self.tiles.clear();
        proof {
            assert(self.tiles@.to_set() =~= Set::<Tile>::empty());
        }
    }

    /// Keep exactly the tiles inside the rectangle `[min_x, max_x] x [min_y, max_y]`.
    pub fn retain_in_rect(&mut self, min_x: i32, min_y: i32, max_x: i32, max_y: i32)
        requires
            old(self).wf(),
        ensures
            final(self).wf(),
            final(self)@ == old(self)@.filter(|t: Tile| min_x <= t.0 <= max_x && min_y <= t.1 <= max_y),
    {
        let ghost s = self.tiles@;
        let mut kept: Vec<Tile> = Vec::new();
        let n = self.tiles.len();
        let mut i: usize = 0;
        while i < n
            invariant
                n == s.len(),
                s == self.tiles@,
                s.no_duplicates(),
                0 <= i <= n,
                kept@.no_duplicates(),
                forall|x: Tile| kept@.contains(x) <==> (exists|k: int| 0 <= k < i && #[trigger] s[k] == x
                    && min_x <= x.0 <= max_x && min_y <= x.1 <= max_y),
            decreases n - i,
        {
            let t = self.tiles[i];
            if min_x <= t.0 && t.0 <= max_x && min_y <= t.1 && t.1 <= max_y {
                let ghost before = kept@;
                proof {
                    assert(!before.contains(t)) by {
                        if before.contains(t) {
                            let k = choose|k: int| 0 <= k < i && #[trigger] s[k] == t
                                && min_x <= t.0 <= max_x && min_y <= t.1 <= max_y;
                            assert(s[k] == s[i as int]);
                        }
                    }
                }
                kept.push(t);
                proof {
                    assert forall|a: int, b: int| 0 <= a < kept@.len() && 0 <= b < kept@.len() && a != b
                        implies kept@[a] != kept@[b] by {
                        if a < before.len() && b < before.len() {
                            assert(kept@[a] == before[a]);
                            assert(kept@[b] == before[b]);
                        } else if a < before.len() {
                            assert(before.contains(kept@[a]));
                        } else {
                            assert(before.contains(kept@[b]));
                        }
                    }
                    assert forall|x: Tile| kept@.contains(x) <==> (exists|k: int| 0 <= k < i + 1 && #[trigger] s[k] == x
                        && min_x <= x.0 <= max_x && min_y <= x.1 <= max_y) by {
                        if kept@.contains(x) {
                            let j = choose|j: int| 0 <= j < kept@.len() && kept@[j] == x;
                            if j < before.len() {
                                assert(before[j] == x);
                                assert(before.contains(x));
                            } else {
                                assert(s[i as int] == x);
                            }
                        }
                        if exists|k: int| 0 <= k < i + 1 && #[trigger] s[k] == x
                            && min_x <= x.0 <= max_x && min_y <= x.1 <= max_y {
                            let k = choose|k: int| 0 <= k < i + 1 && #[trigger] s[k] == x
                                && min_x <= x.0 <= max_x && min_y <= x.1 <= max_y;
                            if k < i {
                                assert(before.contains(x));
                                let j = choose|j: int| 0 <= j < before.len() && before[j] == x;
                                assert(kept@[j] == x);
                            } else {
                                assert(kept@[before.len() as int] == x);
                            }
                        }
                    }
                }
            } else {
                proof {
                    assert forall|x: Tile| kept@.contains(x) <==> (exists|k: int| 0 <= k < i + 1 && #[trigger] s[k] == x
                        && min_x <= x.0 <= max_x && min_y <= x.1 <= max_y) by {
                        if exists|k: int| 0 <= k < i + 1 && #[trigger] s[k] == x
                            && min_x <= x.0 <= max_x && min_y <= x.1 <= max_y {
                            let k = choose|k: int| 0 <= k < i + 1 && #[trigger] s[k] == x
                                && min_x <= x.0 <= max_x && min_y <= x.1 <= max_y;
                            assert(k < i);
                        }
                    }
                }
            }
            i = i + 1;
        }
        self.tiles = kept;
        proof {
            assert forall|x: Tile| #[trigger] self@.contains(x) <==>
                old(self)@.filter(|t: Tile| min_x <= t.0 <= max_x && min_y <= t.1 <= max_y).contains(x) by {
                if s.contains(x) {
                    let k = choose|k: int| 0 <= k < s.len() && s[k] == x;
                    assert(s[k] == x);
                }
            }
            assert(self@ =~= old(self)@.filter(|t: Tile| min_x <= t.0 <= max_x && min_y <= t.1 <= max_y));
        }
    }

    /// The first `cap` stored tiles (all of them when there are fewer).
    pub fn first_tiles(&self, cap: usize) -> (v: Vec<Tile>)
        requires
            self.wf(),
        ensures
            v@.len() == if self@.len() < cap { self@.len() } else { cap as nat },
            v@.no_duplicates(),
            forall|t: Tile| v@.contains(t) ==> self@.contains(t),
            self@.len() <= cap ==> v@.to_set() == self@,
    {
        proof {
            self.tiles@.unique_seq_to_set();
        }
        let n = self.tiles.len();
        let m = if n < cap { n } else { cap };
        let mut v: Vec<Tile> = Vec::new();
        let mut i: usize = 0;
        while i < m
            invariant
                m <= n,
                n == self.tiles@.len(),
                0 <= i <= m,
                v@ == self.tiles@.subrange(0, i as int),
            decreases m - i,
        {
            v.push(self.tiles[i]);
            proof {
                assert(v@ =~= self.tiles@.subrange(0, i as int + 1));
            }
            i = i + 1;
        }
        proof {
            let s = self.tiles@;
            assert forall|a: int, b: int| 0 <= a < v@.len() && 0 <= b < v@.len() && a != b implies v@[a] != v@[b] by {
                assert(v@[a] == s[a]);
                assert(v@[b] == s[b]);
            }
            assert forall|t: Tile| v@.contains(t) implies self@.contains(t) by {
                let k = choose|k: int| 0 <= k < v@.len() && v@[k] == t;
                assert(s[k] == t);
            }
            if n <= cap {
                assert(v@ =~= s);
            }
        }
        v
    }

    /// Add every tile of `other` to this set.
    pub fn extend_from(&mut self, other: &TileSet)
        requires
            old(self).wf(),
        ensures
            final(self).wf(),
            final(self)@ == old(self)@.union(other@),
    {
        let n = other.tiles.len();
        let mut i: usize = 0;
        while i < n
            invariant
                n == other.tiles@.len(),
                0 <= i <= n,
                self.wf(),
                self@ == old(self)@.union(other.tiles@.subrange(0, i as int).to_set()),
            decreases n - i,
        {
            let ghost before = self@;
            self.insert(other.tiles[i]);
            proof {
                assert(other.tiles@.subrange(0, i as int + 1).to_set() =~=
                    other.tiles@.subrange(0, i as int).to_set().insert(other.tiles@[i as int])) by {
                    let s0 = other.tiles@.subrange(0, i as int);
                    let s1 = other.tiles@.subrange(0, i as int + 1);
                    assert forall|x: Tile| s1.contains(x) <==> (s0.contains(x) || x == other.tiles@[i as int]) by {
                        if s1.contains(x) {
                            let k = choose|k: int| 0 <= k < s1.len() && s1[k] == x;
                            if k < i {
                                assert(s0[k] == x);
                            }
                        }
                        if s0.contains(x) {
                            let k = choose|k: int| 0 <= k < s0.len() && s0[k] == x;
                            assert(s1[k] == x);
                        }
                        assert(s1[i as int] == other.tiles@[i as int]);
                    }
                }
                assert(self@ =~= old(self)@.union(other.tiles@.subrange(0, i as int + 1).to_set()));
            }
            i = i + 1;
        }
        proof {
            assert(other.tiles@.subrange(0, n as int) =~= other.tiles@);
        }
    }
}

/// A map from tile coordinates to a small counter. Each tile is stored once.
#[derive(Debug)]
pub struct TileCounter {
    entries: Vec<(Tile, u8)>,
}

pub open spec fn entries_map(s: Seq<(Tile, u8)>) -> Map<Tile, u8>
    decreases s.len(),
{
    if s.len() == 0 {
        Map::empty()
    } else {
        entries_map(s.drop_last()).insert(s.last().0, s.last().1)
    }
}

pub open spec fn keys_unique(s: Seq<(Tile, u8)>) -> bool {
    forall|i: int, j: int| 0 <= i < s.len() && 0 <= j < s.len() && i != j ==> s[i].0 != s[j].0
}

proof fn lemma_entries_map_index(s: Seq<(Tile, u8)>)
    requires
        keys_unique(s),
    ensures
        forall|t: Tile| #[trigger] entries_map(s).contains_key(t) <==> exists|k: int| 0 <= k < s.len() && s[k].0 == t,
        forall|k: int| 0 <= k < s.len() ==> #[trigger] entries_map(s)[s[k].0] == s[k].1,
    decreases s.len(),
{
    if s.len() > 0 {
        let p = s.drop_last();
        assert(keys_unique(p));
        lemma_entries_map_index(p);
        assert forall|t: Tile| #[trigger] entries_map(s).contains_key(t) <==> exists|k: int| 0 <= k < s.len() && s[k].0 == t by {
            if entries_map(p).contains_key(t) {
                let k = choose|k: int| 0 <= k < p.len() && p[k].0 == t;
                assert(s[k].0 == t);
            }
            if exists|k: int| 0 <= k < s.len() && s[k].0 == t {
                let k = choose|k: int| 0 <= k < s.len() && s[k].0 == t;
                if k < p.len() {
                    assert(p[k].0 == t);
                }
            }
        }
        assert forall|k: int| 0 <= k < s.len() implies #[trigger] entries_map(s)[s[k].0] == s[k].1 by {
            if k < p.len() {
                assert(p[k] == s[k]);
                assert(s[k].0 != s[s.len() - 1].0);
                assert(entries_map(p)[p[k].0] == p[k].1);
            }
        }
    }
}

/// Rebuilding the map from a sequence with unique keys: the map is determined
/// by membership and values.
proof fn lemma_entries_map_ext(s: Seq<(Tile, u8)>, m: Map<Tile, u8>)
    requires
        keys_unique(s),
        forall|t: Tile| #[trigger] m.contains_key(t) <==> exists|k: int| 0 <= k < s.len() && s[k].0 == t,
        forall|k: int| 0 <= k < s.len() ==> #[trigger] m[s[k].0] == s[k].1,
    ensures
        entries_map(s) == m,
{
    lemma_entries_map_index(s);
    assert forall|t: Tile| #[trigger] entries_map(s).contains_key(t) implies entries_map(s)[t] == m[t] by {
        let k = choose|k: int| 0 <= k < s.len() && s[k].0 == t;
        assert(entries_map(s)[s[k].0] == s[k].1);
    }
    assert(entries_map(s) =~= m);
}

impl View for TileCounter {
    type V = Map<Tile, u8>;

    closed spec fn view(&self) -> Map<Tile, u8> {
        entries_map(self.entries@)
    }
}

impl TileCounter {
    /// Each tile has at most one entry.
    pub closed spec fn wf(&self) -> bool {
        keys_unique(self.entries@)
    }

    pub fn new() -> (c: TileCounter)
        ensures
            c.wf(),
            c@ == Map::<Tile, u8>::empty(),
    {
        TileCounter { entries: Vec::new() }
    }

    fn position(&self, t: Tile) -> (r: Option<usize>)
        requires
            self.wf(),
        ensures
            match r {
                Some(i) => i < self.entries@.len() && self.entries@[i as int].0 == t,
                None => !self@.contains_key(t),
            },
    {
        proof {
            lemma_entries_map_index(self.entries@);
        }
        let n = self.entries.len();
        let mut i: usize = 0;
        while i < n
            invariant
                n == self.entries@.len(),
                0 <= i <= n,
                forall|k: int| 0 <= k < i ==> self.entries@[k].0 != t,
            decreases n - i,
        {
            if same_tile(self.entries[i].0, t) {
                return Some(i);
            }
            i = i + 1;
        }
        None
    }

    /// The counter of a tile, if it has one.
    pub fn get(&self, t: Tile) -> (r: Option<u8>)
        requires
            self.wf(),
        ensures
            r == (if self@.contains_key(t) { Some(self@[t]) } else { None::<u8> }),
    {
        proof {
            lemma_entries_map_index(self.entries@);
        }
        match self.position(t) {
            Some(i) => Some(self.entries[i].1),
            None => None,
        }
    }

    /// Set the counter of a tile.
    pub fn set(&mut self, t: Tile, v: u8)
        requires
            old(self).wf(),
        ensures
            final(self).wf(),
            final(self)@ == old(self)@.insert(t, v),
    {
        proof {
            lemma_entries_map_index(self.entries@);
        }
        let ghost s0 = self.entries@;
        match self.position(t) {
            Some(i) => {
                self.entries.set(i, (t, v));
                proof {
                    let s = self.entries@;
                    assert(keys_unique(s)) by {
                        assert forall|a: int, b: int| 0 <= a < s.len() && 0 <= b < s.len() && a != b implies s[a].0 != s[b].0 by {
                            assert(s[a].0 == s0[a].0);
                            assert(s[b].0 == s0[b].0);
                        }
                    }
                    let m = old(self)@.insert(t, v);
                    assert forall|x: Tile| #[trigger] m.contains_key(x) <==> exists|k: int| 0 <= k < s.len() && s[k].0 == x by {
                        if m.contains_key(x) && x != t {
                            assert(entries_map(s0).contains_key(x));
                            let k = choose|k: int| 0 <= k < s0.len() && s0[k].0 == x;
                            assert(s[k].0 == x);
                        }
                        if x == t {
                            assert(s[i as int].0 == x);
                        }
                        if exists|k: int| 0 <= k < s.len() && s[k].0 == x {
                            let k = choose|k: int| 0 <= k < s.len() && s[k].0 == x;
                            assert(s0[k].0 == x);
                        }
                    }
                    assert forall|k: int| 0 <= k < s.len() implies #[trigger] m[s[k].0] == s[k].1 by {
                        if k != i {
                            assert(s[k] == s0[k]);
                            assert(s0[k].0 != s0[i as int].0);
                            assert(old(self)@[s0[k].0] == s0[k].1);
                        }
                    }
                    lemma_entries_map_ext(s, m);
                }
            },
            None => {
                self.entries.push((t, v));
                proof {
                    let s = self.entries@;
                    assert(s.drop_last() =~= s0);
                    assert(keys_unique(s)) by {
                        assert forall|a: int, b: int| 0 <= a < s.len() && 0 <= b < s.len() && a != b implies s[a].0 != s[b].0 by {
                            if a < s0.len() && b < s0.len() {
                                assert(s[a] == s0[a]);
                                assert(s[b] == s0[b]);
                            } else if a < s0.len() {
                                assert(s[a] == s0[a]);
                                assert(old(self)@.contains_key(s0[a].0));
                            } else {
                                assert(s[b] == s0[b]);
                                assert(old(self)@.contains_key(s0[b].0));
                            }
                        }
                    }
                }
            },
        }
    }

    /// Remove the counter of a tile.
    pub fn remove(&mut self, t: Tile)
        requires
            old(self).wf(),
        ensures
            final(self).wf(),
            final(self)@ == old(self)@.remove(t),
    {
        proof {
            lemma_entries_map_index(self.entries@);
        }
        let ghost s0 = self.entries@;
        match self.position(t) {
            Some(i) => {
                self.entries.remove(i);
                proof {
                    s0.remove_ensures(i as int);
                    let s = self.entries@;
                    assert(s == s0.remove(i as int));
                    let src = |k: int| if k < i { k } else { k + 1 };
                    assert(keys_unique(s)) by {
                        assert forall|a: int, b: int| 0 <= a < s.len() && 0 <= b < s.len() && a != b implies s[a].0 != s[b].0 by {
                            assert(s[a] == s0[src(a)]);
                            assert(s[b] == s0[src(b)]);
                        }
                    }
                    let m = old(self)@.remove(t);
                    assert forall|x: Tile| #[trigger] m.contains_key(x) <==> exists|k: int| 0 <= k < s.len() && s[k].0 == x by {
                        if m.contains_key(x) {
                            assert(old(self)@.contains_key(x));
                            assert(entries_map(s0).contains_key(x));
                            let k = choose|k: int| 0 <= k < s0.len() && s0[k].0 == x;
                            assert(k != i);
                            assert(x != t);
                            assert(s0[i as int].0 == t);
                            let r = if k < i { k } else { k - 1 };
                            assert(s[r] == s0[k]);
                        }
                        if exists|k: int| 0 <= k < s.len() && s[k].0 == x {
                            let k = choose|k: int| 0 <= k < s.len() && s[k].0 == x;
                            assert(s[k] == s0[src(k)]);
                            assert(s0[src(k)].0 != s0[i as int].0);
                            assert(entries_map(s0).contains_key(x));
                        }
                    }
                    assert forall|k: int| 0 <= k < s.len() implies #[trigger] m[s[k].0] == s[k].1 by {
                        assert(s[k] == s0[src(k)]);
                        assert(s0[src(k)].0 != s0[i as int].0);
                        assert(old(self)@[s0[src(k)].0] == s0[src(k)].1);
                    }
                    lemma_entries_map_ext(s, m);
                }
            },
            None => {
                proof {
                    assert(old(self)@.remove(t) =~= old(self)@);
                }
            },
        }
    }
}

} // verus!
