//! A map from tiles or chunks, named by a pair of coordinates, to values.
use std::collections::HashMap;
use vstd::prelude::*;

verus! {

broadcast use vstd::std_specs::hash::group_hash_axioms;

/// A pair of coordinates: of a tile, or of a chunk of tiles.
pub type Tile = (i32, i32);

/// The number under which a pair of coordinates is filed.
pub open spec fn filed(t: Tile) -> u64 {
    ((t.0 + 0x8000_0000) * 0x1_0000_0000 + (t.1 + 0x8000_0000)) as u64
}

proof fn lemma_filed_apart(s: Tile, t: Tile)
    ensures
        filed(s) == filed(t) ==> s == t,
{
}

fn file_number(t: Tile) -> (k: u64)
    ensures
        k == filed(t),
{
    let x: u64 = (t.0 as i64 + 0x8000_0000) as u64;
    let y: u64 = (t.1 as i64 + 0x8000_0000) as u64;
    x * 0x1_0000_0000 + y
}

/// A map from tiles to values.
pub struct TileMap<V> {
    entries: HashMap<u64, V>,
}

impl<V> View for TileMap<V> {
    type V = Map<Tile, V>;

    closed spec fn view(&self) -> Map<Tile, V> {
        Map::new(|t: Tile| self.entries@.contains_key(filed(t)), |t: Tile| self.entries@[filed(t)])
    }
}

impl<V> TileMap<V> {
    /// The empty map.
    pub fn new() -> (m: TileMap<V>)
        ensures
            m@ == Map::<Tile, V>::empty(),
    {
        let m: TileMap<V> = TileMap { entries: HashMap::new() };
        assert(m@ =~= Map::<Tile, V>::empty());
        m
    }

    /// Whether the pair has a value.
    pub fn contains_key(&self, t: Tile) -> (r: bool)
        ensures
            r == self@.contains_key(t),
    {
        self.entries.contains_key(&file_number(t))
    }

    /// The value of the pair.
    pub fn get(&self, t: Tile) -> (r: Option<&V>)
        ensures
            match r {
                Some(v) => self@.contains_key(t) && *v == self@[t],
                None => !self@.contains_key(t),
            },
    {
        self.entries.get(&file_number(t))
    }

    /// Gives the pair a value, in place of the one that it had.
    pub fn insert(&mut self, t: Tile, v: V)
        ensures
            final(self)@ == old(self)@.insert(t, v),
    {
        let ghost before = self@;
        self.entries.insert(file_number(t), v);
        proof {
            assert forall|s: Tile| filed(s) == filed(t) implies s == t by {
                lemma_filed_apart(s, t);
            }
            assert(self@ =~= before.insert(t, v));
        }
    }
}

} // verus!
