use vstd::prelude::*;

use indexmap::IndexSet;

use crate::ids::Id;

verus! {

#[verifier::external_type_specification]
#[verifier::external_body]
#[verifier::reject_recursive_types(T)]
#[verifier::reject_recursive_types(S)]
pub struct ExIndexSet<T, S>(IndexSet<T, S>);

/// The ids that a tile holds, in the set's order.
pub uninterp spec fn tile_entries(t: IndexSet<u32>) -> Seq<u32>;

/// `s` after `x` is taken out the way `Vec::swap_remove` does it: the last
/// entry moves into its place.
pub open spec fn swap_removed(s: Seq<u32>, x: u32) -> Seq<u32> {
    let i = choose|i: int| 0 <= i < s.len() && s[i] == x;
    s.update(i, s.last()).drop_last()
}

/// Relies on `IndexSet::new`: a new set has no entries.
#[verifier::external_body]
fn new_tile() -> (r: IndexSet<u32>)
    ensures
        tile_entries(r) == Seq::<u32>::empty(),
{
    IndexSet::new()
}

/// Relies on `IndexSet::insert`: a value not yet present is appended last
/// and `true` returned; a present value leaves the set as it is and `false`
/// is returned.
#[verifier::external_body]
fn tile_insert(t: &mut IndexSet<u32>, id: u32) -> (r: bool)
    ensures
        r == !tile_entries(*old(t)).contains(id),
        r ==> tile_entries(*final(t)) == tile_entries(*old(t)).push(id),
        !r ==> tile_entries(*final(t)) == tile_entries(*old(t)),
{
    t.insert(id)
}

/// Relies on `IndexSet::swap_remove`: a present value is replaced by the
/// last entry, which is popped, and `true` returned; otherwise the set stays
/// as it is and `false` is returned.
#[verifier::external_body]
fn tile_swap_remove(t: &mut IndexSet<u32>, id: u32) -> (r: bool)
    ensures
        r == tile_entries(*old(t)).contains(id),
        r ==> tile_entries(*final(t)) == swap_removed(tile_entries(*old(t)), id),
        !r ==> tile_entries(*final(t)) == tile_entries(*old(t)),
{
    t.swap_remove(&id)
}

/// Relies on `IndexSet::iter`: it yields the entries in order.
#[verifier::external_body]
fn tile_items(t: &IndexSet<u32>) -> (r: Vec<u32>)
    ensures
        r@ == tile_entries(*t),
{
    t.iter().copied().collect()
}

pub(crate) proof fn lemma_push_fresh(s: Seq<u32>, x: u32)
    requires
        s.no_duplicates(),
        !s.contains(x),
    ensures
        s.push(x).no_duplicates(),
        s.push(x).to_set() == s.to_set().insert(x),
{
    let t = s.push(x);
    assert forall|i: int, j: int| 0 <= i < t.len() && 0 <= j < t.len() && i != j implies t[i] != t[j] by {
        if i < s.len() && j < s.len() {
        } else if i < s.len() {
            assert(s.contains(t[i]));
        } else {
            assert(s.contains(t[j]));
        }
    }
    assert forall|y: u32| #[trigger] t.to_set().contains(y) <==> s.to_set().insert(x).contains(y) by {
        if s.contains(y) {
            let i = choose|i: int| 0 <= i < s.len() && s[i] == y;
            assert(t[i] == y);
        }
        if t.contains(y) {
            let i = choose|i: int| 0 <= i < t.len() && t[i] == y;
            if i < s.len() {
                assert(s[i] == y);
            }
        }
        if y == x {
            assert(t[s.len() as int] == x);
        }
    }
    assert(t.to_set() =~= s.to_set().insert(x));
}

pub(crate) proof fn lemma_swap_removed(s: Seq<u32>, x: u32)
    requires
        s.no_duplicates(),
        s.contains(x),
    ensures
        swap_removed(s, x).no_duplicates(),
        swap_removed(s, x).to_set() == s.to_set().remove(x),
{
    let i = choose|i: int| 0 <= i < s.len() && s[i] == x;
    let t = swap_removed(s, x);
    let last = s.len() - 1;
    assert(t.len() == last);
    assert forall|k: int| 0 <= k < t.len() implies #[trigger] t[k] == (if k == i { s[last] } else { s[k] }) by {
    }
    assert forall|a: int, b: int| 0 <= a < t.len() && 0 <= b < t.len() && a != b implies t[a] != t[b] by {
        let sa = if a == i { last } else { a };
        let sb = if b == i { last } else { b };
        assert(t[a] == s[sa] && t[b] == s[sb]);
    }
    assert forall|y: u32| #[trigger] t.to_set().contains(y) <==> s.to_set().remove(x).contains(y) by {
        if t.contains(y) {
            let k = choose|k: int| 0 <= k < t.len() && t[k] == y;
            let sk = if k == i { last } else { k };
            assert(s[sk] == y);
            assert(sk != i);
        }
        if s.contains(y) && y != x {
            let k = choose|k: int| 0 <= k < s.len() && s[k] == y;
            assert(k != i);
            if k == last {
                assert(t[i] == y);
            } else {
                assert(t[k] == y);
            }
        }
    }
    assert(t.to_set() =~= s.to_set().remove(x));
}

/// Number of tiles per row; the grid is square.
pub const ROW: usize = 10;

/// Number of tiles.
pub const TILES: usize = 100;

/// Whole parts of the absolute values of an entity's coordinates. Mirroring
/// every quadrant onto the first is how the grid indexes positions.
#[derive(Clone, Copy, Debug, PartialEq, Eq, Structural)]
pub struct GridPos {
    pub x: usize,
    pub y: usize,
}

/// The tile that `pos` falls in, for tiles `scale` units wide: column
/// `x / scale` of row `y / scale`, where both lie below `ROW`.
pub open spec fn cell_index(pos: GridPos, scale: int) -> Option<int> {
    let cx = pos.x as int / scale;
    let cy = pos.y as int / scale;
    if 0 <= cx < ROW && 0 <= cy < ROW {
        Some(ROW as int * cy + cx)
    } else {
        None
    }
}

/// A fixed grid of 10 by 10 tiles over the arena, each holding the ids of the
/// entities whose position falls in it.
pub struct PlayerPositions {
    tiles: Vec<IndexSet<u32>>,
    scale: usize,
}

impl PlayerPositions {
    /// Width of one tile.
    pub closed spec fn spec_scale(&self) -> int {
        self.scale as int
    }

    /// The ids that each tile holds.
    pub closed spec fn cells(&self) -> Seq<Set<Id>> {
        Seq::new(self.tiles@.len(), |i: int| tile_entries(self.tiles@[i]).to_set())
    }

    /// The ids of each tile, in the tile's order.
    pub closed spec fn orders(&self) -> Seq<Seq<Id>> {
        Seq::new(self.tiles@.len(), |i: int| tile_entries(self.tiles@[i]))
    }

    pub closed spec fn wf(&self) -> bool {
        &&& self.tiles@.len() == TILES
        &&& self.scale > 0
        &&& forall|i: int| 0 <= i < TILES ==> (#[trigger] tile_entries(self.tiles@[i])).no_duplicates()
    }

    /// A well-formed grid has `TILES` tiles; each holds its ids once, in an
    /// order.
    pub proof fn lemma_cells_len(&self)
        requires
            self.wf(),
        ensures
            self.cells().len() == TILES,
            self.orders().len() == TILES,
            self.spec_scale() > 0,
            forall|i: int|
                0 <= i < TILES ==> #[trigger] self.cells()[i] == self.orders()[i].to_set()
                    && self.orders()[i].no_duplicates(),
    {
    }

    /// The tile that `pos` falls in, if it falls in one.
    pub open spec fn spec_index(&self, pos: GridPos) -> Option<int> {
        cell_index(pos, self.spec_scale())
    }

    /// An empty grid over an arena whose extent truncates to `map_size`.
    pub fn new(map_size: usize) -> (r: PlayerPositions)
        requires
            map_size >= ROW,
        ensures
            r.wf(),
            r.spec_scale() == map_size as int / ROW as int,
            r.cells() == Seq::new(TILES as nat, |i: int| Set::<Id>::empty()),
            r.orders() == Seq::new(TILES as nat, |i: int| Seq::<Id>::empty()),
    {
        let mut tiles: Vec<IndexSet<u32>> = Vec::new();
        let mut i: usize = 0;
        while i < TILES
            invariant
                i <= TILES,
                tiles@.len() == i,
                forall|j: int| 0 <= j < i ==> tile_entries(#[trigger] tiles@[j]) == Seq::<u32>::empty(),
            decreases TILES - i,
        {
            tiles.push(new_tile());
            i = i + 1;
        }
        let r = PlayerPositions { tiles, scale: map_size / ROW };
        assert forall|j: int| 0 <= j < TILES implies (#[trigger] r.cells()[j]) == Set::<Id>::empty() by {
            assert(tile_entries(r.tiles@[j]).to_set() =~= Set::<Id>::empty());
        }
        assert(r.cells() =~= Seq::new(TILES as nat, |i: int| Set::<Id>::empty()));
        assert(r.orders() =~= Seq::new(TILES as nat, |i: int| Seq::<Id>::empty()));
        r
    }

    /// Index of the tile that `pos` falls in, if any.
    pub fn index(&self, pos: &GridPos) -> (r: Option<usize>)
        requires
            self.wf(),
        ensures
            r matches Some(i) ==> self.spec_index(*pos) == Some(i as int),
            r is None ==> self.spec_index(*pos) is None,
    {
        let x = pos.x / self.scale;
        let y = pos.y / self.scale;
        if x < ROW && y < ROW {
            Some(ROW * y + x)
        } else {
            None
        }
    }

    /// Adds `id` to the tile that `pos` falls in. Returns whether the tile
    /// did not hold it before; `false` where `pos` is off the grid.
    pub fn add(&mut self, pos: &GridPos, id: Id) -> (r: bool)
        requires
            old(self).wf(),
        ensures
            final(self).wf(),
            final(self).spec_scale() == old(self).spec_scale(),
            match old(self).spec_index(*pos) {
                Some(i) => {
                    &&& r == !old(self).cells()[i].contains(id)
                    &&& final(self).cells() == old(self).cells().update(
                        i,
                        old(self).cells()[i].insert(id),
                    )
                    &&& final(self).orders() == old(self).orders().update(
                        i,
                        if r { old(self).orders()[i].push(id) } else { old(self).orders()[i] },
                    )
                },
                None => !r && final(self).cells() == old(self).cells() && final(self).orders()
                    == old(self).orders(),
            },
    {
        match self.index(pos) {
            Some(i) => {
                proof {
                    assert(tile_entries(self.tiles@[i as int]).no_duplicates());
                    if !tile_entries(self.tiles@[i as int]).contains(id) {
                        lemma_push_fresh(tile_entries(self.tiles@[i as int]), id);
                    } else {
                        assert(tile_entries(self.tiles@[i as int]).to_set().insert(id) =~= tile_entries(self.tiles@[i as int]).to_set());
                    }
                }
                let r = tile_insert(&mut self.tiles[i], id);
                assert(self.orders() =~= old(self).orders().update(
                    i as int,
                    if r { old(self).orders()[i as int].push(id) } else { old(self).orders()[i as int] },
                ));
                assert(self.cells() =~= old(self).cells().update(
                    i as int,
                    old(self).cells()[i as int].insert(id),
                ));
                r
            },
            None => false,
        }
    }

    /// Takes `id` out of the tile that `pos` falls in, if it is there.
    pub fn remove(&mut self, pos: &GridPos, id: Id)
        requires
            old(self).wf(),
        ensures
            final(self).wf(),
            final(self).spec_scale() == old(self).spec_scale(),
            match old(self).spec_index(*pos) {
                Some(i) => {
                    &&& final(self).cells() == old(self).cells().update(
                        i,
                        old(self).cells()[i].remove(id),
                    )
                    &&& final(self).orders() == old(self).orders().update(
                        i,
                        if old(self).cells()[i].contains(id) {
                            swap_removed(old(self).orders()[i], id)
                        } else {
                            old(self).orders()[i]
                        },
                    )
                },
                None => final(self).cells() == old(self).cells() && final(self).orders() == old(
                    self,
                ).orders(),
            },
    {
        match self.index(pos) {
            Some(i) => {
                proof {
                    assert(tile_entries(self.tiles@[i as int]).no_duplicates());
                    if tile_entries(self.tiles@[i as int]).contains(id) {
                        lemma_swap_removed(tile_entries(self.tiles@[i as int]), id);
                    } else {
                        assert(tile_entries(self.tiles@[i as int]).to_set().remove(id) =~= tile_entries(self.tiles@[i as int]).to_set());
                    }
                }
                tile_swap_remove(&mut self.tiles[i], id);
                assert(self.orders() =~= old(self).orders().update(
                    i as int,
                    if old(self).cells()[i as int].contains(id) {
                        swap_removed(old(self).orders()[i as int], id)
                    } else {
                        old(self).orders()[i as int]
                    },
                ));
                assert(self.cells() =~= old(self).cells().update(
                    i as int,
                    old(self).cells()[i as int].remove(id),
                ));
            },
            None => {},
        }
    }

    /// The ids in the tile that `pos` falls in, each once and in the tile's
    /// order; `None` where `pos` is off the grid.
    pub fn ids_at(&self, pos: &GridPos) -> (r: Option<Vec<Id>>)
        requires
            self.wf(),
        ensures
            match self.spec_index(*pos) {
                Some(i) => r matches Some(v) && v@ == self.orders()[i] && v@.to_set()
                    == self.cells()[i] && v@.no_duplicates(),
                None => r is None,
            },
    {
        proof {
            self.lemma_cells_len();
        }
        match self.index(pos) {
            Some(i) => Some(tile_items(&self.tiles[i])),
            None => None,
        }
    }
}

} // verus!
