//! The chunks of a world, each under the place where it stands.

use std::collections::HashMap;
use vstd::prelude::*;
use vstd::set_lib::{lemma_int_range, lemma_map_size, set_int_range};
use super::chunk::{comes_before, Chunk, ChunkPos};

verus! {

/// How far around a position chunks are spawned, in chunks.
pub const CHUNK_SPAWN_RANGE: u8 = 5;

/// The key under which the chunk at `pos` is kept: its three coordinates,
/// each moved into the non-negative numbers, side by side.
pub closed spec fn key_of(pos: ChunkPos) -> u128 {
    ((pos.x + 0x8000_0000) * 0x1_0000_0000_0000_0000 + (pos.y + 0x8000_0000) * 0x1_0000_0000 + (pos.z
        + 0x8000_0000)) as u128
}

/// Two places with one key are one place.
proof fn lemma_key_of_is_injective(p: ChunkPos, q: ChunkPos)
    requires
        key_of(p) == key_of(q),
    ensures
        p == q,
{
    lemma_digits_agree(
        p.x + 0x8000_0000,
        p.y + 0x8000_0000,
        p.z + 0x8000_0000,
        q.x + 0x8000_0000,
        q.y + 0x8000_0000,
        q.z + 0x8000_0000,
    );
}

/// Numbers written with three digits to the base of two to the power of 32
/// are equal only if their digits are.
proof fn lemma_digits_agree(a: int, b: int, c: int, d: int, e: int, f: int)
    requires
        0 <= a < 0x1_0000_0000,
        0 <= b < 0x1_0000_0000,
        0 <= c < 0x1_0000_0000,
        0 <= d < 0x1_0000_0000,
        0 <= e < 0x1_0000_0000,
        0 <= f < 0x1_0000_0000,
        a * 0x1_0000_0000_0000_0000 + b * 0x1_0000_0000 + c == d * 0x1_0000_0000_0000_0000 + e * 0x1_0000_0000
            + f,
    ensures
        a == d,
        b == e,
        c == f,
{
    let low = b * 0x1_0000_0000 + c;
    let other = e * 0x1_0000_0000 + f;
    assert(0 <= low < 0x1_0000_0000_0000_0000);
    assert(0 <= other < 0x1_0000_0000_0000_0000);
    if a < d {
        assert((d - a) * 0x1_0000_0000_0000_0000 >= 0x1_0000_0000_0000_0000);
    }
    if d < a {
        assert((a - d) * 0x1_0000_0000_0000_0000 >= 0x1_0000_0000_0000_0000);
    }
    assert(a == d);
    assert(low == other);
    if b < e {
        assert((e - b) * 0x1_0000_0000 >= 0x1_0000_0000);
    }
    if e < b {
        assert((b - e) * 0x1_0000_0000 >= 0x1_0000_0000);
    }
}

/// The places at which `spawn_chunks_in_range` spawns chunks around `pos`:
/// `CHUNK_SPAWN_RANGE` chunks to either side along x and z, the upper end
/// left out, in the one layer at height 0.
pub open spec fn spawn_box(pos: ChunkPos) -> Set<ChunkPos> {
    Set::new(
        |p: ChunkPos|
            {
                &&& pos.x - CHUNK_SPAWN_RANGE <= p.x < pos.x + CHUNK_SPAWN_RANGE
                &&& p.y == 0
                &&& pos.z - CHUNK_SPAWN_RANGE <= p.z < pos.z + CHUNK_SPAWN_RANGE
            },
    )
}

/// The chunks of a world, each under its place.
pub struct ChunkCollection {
    chunks: HashMap<u128, Chunk>,
    places: Vec<ChunkPos>,
}

impl ChunkCollection {
    /// What holds of every collection that this module hands out: the places
    /// are listed once each, in the order in which their chunks were spawned,
    /// and the mesh of every chunk is built for its place.
    pub closed spec fn wf(&self) -> bool {
        &&& self.places@.no_duplicates()
        &&& forall|pos: ChunkPos| self.places@.contains(pos) <==> #[trigger] self.chunks@.contains_key(key_of(pos))
        &&& forall|pos: ChunkPos| #[trigger]
            self.chunks@.contains_key(key_of(pos)) ==> self.chunks@[key_of(pos)].built_at(pos)
    }

    /// The chunks by their places.
    pub closed spec fn view(&self) -> Map<ChunkPos, Chunk> {
        Map::new(|pos: ChunkPos| self.chunks@.contains_key(key_of(pos)), |pos: ChunkPos| self.chunks@[key_of(pos)])
    }

    /// The places that have a chunk, in the order in which their chunks were
    /// spawned.
    pub closed spec fn order(&self) -> Seq<ChunkPos> {
        self.places@
    }

    /// In a collection that is well formed, every chunk's mesh is built for
    /// the place of the chunk, and `order` lists the places once each.
    pub proof fn lemma_wf(&self)
        requires
            self.wf(),
        ensures
            forall|pos: ChunkPos| #[trigger] self@.contains_key(pos) ==> self@[pos].built_at(pos),
            forall|pos: ChunkPos| self.order().contains(pos) <==> #[trigger] self@.contains_key(pos),
            self.order().no_duplicates(),
            self@.dom().finite(),
            self@.dom().len() == self.order().len(),
    {
        self.lemma_len_of_places();
        assert forall|pos: ChunkPos| #[trigger] self@.contains_key(pos) implies self@[pos].built_at(pos) by {
            assert(self.chunks@.contains_key(key_of(pos)));
        }
        assert forall|pos: ChunkPos| self.order().contains(pos) <==> #[trigger] self@.contains_key(pos) by {
            assert(self.places@.contains(pos) <==> self.chunks@.contains_key(key_of(pos)));
        }
    }

    /// A collection without chunks.
    pub fn new() -> (collection: ChunkCollection)
        ensures
            collection.wf(),
            collection@ == Map::<ChunkPos, Chunk>::empty(),
            collection.order() == Seq::<ChunkPos>::empty(),
    {
        let collection = ChunkCollection { chunks: HashMap::new(), places: Vec::new() };
        assert(collection@ =~= Map::<ChunkPos, Chunk>::empty());
        collection
    }

    /// What spawning at `pos` makes of this collection: `after`, with the
    /// answer `spawned`.
    ///
    /// Where there was no chunk at `pos`, the answer is `true`: a chunk of
    /// grass, built for `pos`, is added at `pos` and listed last, and the other
    /// chunks stay. Where there was one, the answer is `false` and nothing
    /// changes.
    pub open spec fn spawns(&self, after: ChunkCollection, pos: ChunkPos, spawned: bool) -> bool {
        &&& spawned == !self@.contains_key(pos)
        &&& !spawned ==> after == *self
        &&& after@.dom() == self@.dom().insert(pos)
        &&& forall|p: ChunkPos| #[trigger] self@.contains_key(p) ==> after@[p] == self@[p]
        &&& after@[pos].built_at(pos)
        &&& spawned ==> after@[pos].is_grass()
        &&& after.order() == if spawned {
            self.order().push(pos)
        } else {
            self.order()
        }
    }

    /// Spawning twice at one place: the second time adds nothing. After the
    /// first time there is a chunk at the place; the second time answers
    /// `false` and leaves the collection, and so the number of its chunks, as
    /// the first time left it.
    pub proof fn lemma_spawn_twice(
        &self,
        once: ChunkCollection,
        twice: ChunkCollection,
        pos: ChunkPos,
        first: bool,
        second: bool,
    )
        requires
            self.wf(),
            once.wf(),
            self.spawns(once, pos, first),
            once.spawns(twice, pos, second),
        ensures
            once@.contains_key(pos),
            !second,
            twice == once,
            twice@.dom().len() == once@.dom().len(),
            first ==> once@.dom().len() == self@.dom().len() + 1,
    {
        self.lemma_wf();
        once.lemma_wf();
        assert(once@.dom().contains(pos));
    }

    /// Spawns a chunk of grass at `pos` and says `true`, unless there is a
    /// chunk at `pos` already: then the collection stays as it is, and the
    /// answer is `false`.
    pub fn spawn_chunk(&mut self, pos: ChunkPos) -> (spawned: bool)
        requires
            old(self).wf(),
        ensures
            final(self).wf(),
            old(self).spawns(*final(self), pos, spawned),
    {
        let key = Self::key(pos);
        if !self.chunks.contains_key(&key) {
            let chunk = Chunk::new(pos);
            self.chunks.insert(key, chunk);
            self.places.push(pos);
            proof {
                let before = old(self).places@;
                let after = self.places@;
                assert forall|p: ChunkPos| #[trigger] key_of(p) == key implies p == pos by {
                    lemma_key_of_is_injective(p, pos);
                }
                assert(!before.contains(pos));
                assert(after.no_duplicates());
                assert forall|p: ChunkPos| after.contains(p) <==> #[trigger] self.chunks@.contains_key(
                    key_of(p),
                ) by {
                    if p == pos {
                        assert(after[before.len() as int] == pos);
                    } else {
                        if before.contains(p) {
                            let i = choose|i: int| 0 <= i < before.len() && before[i] == p;
                            assert(after[i] == p);
                        }
                        if after.contains(p) {
                            let i = choose|i: int| 0 <= i < after.len() && after[i] == p;
                            assert(before[i] == p);
                        }
                    }
                }
                assert(self@.dom() =~= old(self)@.dom().insert(pos));
            }
            true
        } else {
            proof {
                assert(self@.dom() =~= old(self)@.dom().insert(pos));
            }
            false
        }
    }

    /// Whether this collection has grown out of `before` by spawning: the
    /// chunks of `before` are here unchanged and listed first, in their order,
    /// and every other chunk is one of grass.
    pub open spec fn grown_from(&self, before: ChunkCollection) -> bool {
        &&& forall|p: ChunkPos| #[trigger] before@.contains_key(p) ==> self@[p] == before@[p]
        &&& forall|p: ChunkPos| #[trigger] self@.contains_key(p) && !before@.contains_key(p) ==> self@[p].is_grass()
        &&& before.order().is_prefix_of(self.order())
    }

    /// Spawns the chunks of `spawn_box(pos)` that are not there yet. The
    /// chunks that were there stay as they are.
    pub fn spawn_chunks_in_range(&mut self, pos: ChunkPos)
        requires
            old(self).wf(),
            i32::MIN <= pos.x - CHUNK_SPAWN_RANGE,
            pos.x + CHUNK_SPAWN_RANGE <= i32::MAX,
            i32::MIN <= pos.z - CHUNK_SPAWN_RANGE,
            pos.z + CHUNK_SPAWN_RANGE <= i32::MAX,
        ensures
            final(self).wf(),
            final(self)@.dom() == old(self)@.dom().union(spawn_box(pos)),
            final(self).grown_from(*old(self)),
    {
        let start_pos = ChunkPos { x: pos.x - CHUNK_SPAWN_RANGE as i32, y: 0, z: pos.z - CHUNK_SPAWN_RANGE as i32 };
        let end_pos = ChunkPos { x: pos.x + CHUNK_SPAWN_RANGE as i32, y: 1, z: pos.z + CHUNK_SPAWN_RANGE as i32 };
        let mut x: i32 = start_pos.x;
        assert(self@.dom() =~= old(self)@.dom().union(spawned_before(pos, x as int, 0, start_pos.z as int)));
        while x < end_pos.x
            invariant
                start_pos.x <= x <= end_pos.x,
                spawn_bounds(pos, start_pos, end_pos),
                self.wf(),
                self@.dom() == old(self)@.dom().union(spawned_before(pos, x as int, 0, start_pos.z as int)),
                self.grown_from(*old(self)),
            decreases end_pos.x - x,
        {
            let mut y: i32 = start_pos.y;
            while y < end_pos.y
                invariant
                    start_pos.x <= x < end_pos.x,
                    start_pos.y <= y <= end_pos.y,
                    spawn_bounds(pos, start_pos, end_pos),
                    self.wf(),
                    self@.dom() == old(self)@.dom().union(
                        spawned_before(pos, x as int, y as int, start_pos.z as int),
                    ),
                    self.grown_from(*old(self)),
                decreases end_pos.y - y,
            {
                let mut z: i32 = start_pos.z;
                while z < end_pos.z
                    invariant
                        start_pos.x <= x < end_pos.x,
                        start_pos.y <= y < end_pos.y,
                        start_pos.z <= z <= end_pos.z,
                        spawn_bounds(pos, start_pos, end_pos),
                        self.wf(),
                        self@.dom() == old(self)@.dom().union(spawned_before(pos, x as int, y as int, z as int)),
                        self.grown_from(*old(self)),
                    decreases end_pos.z - z,
                {
                    let ghost earlier = *self;
                    self.spawn_chunk(ChunkPos { x, y, z });
                    proof {
                        assert(earlier.order().is_prefix_of(self.order()));
                        assert forall|p: ChunkPos| #[trigger] self@.contains_key(p) && !old(self)@.contains_key(
                            p,
                        ) implies self@[p].is_grass() by {
                            if earlier@.contains_key(p) {
                                assert(self@[p] == earlier@[p]);
                            }
                        }
                        assert forall|p: ChunkPos| #[trigger] old(self)@.contains_key(p) implies self@[p] == old(
                            self,
                        )@[p] by {
                            assert(earlier@.contains_key(p));
                        }
                        assert(self@.dom() =~= old(self)@.dom().union(
                            spawned_before(pos, x as int, y as int, z as int + 1),
                        ));
                    }
                    z += 1;
                }
                assert(self@.dom() =~= old(self)@.dom().union(
                    spawned_before(pos, x as int, y as int + 1, start_pos.z as int),
                ));
                y += 1;
            }
            assert(self@.dom() =~= old(self)@.dom().union(
                spawned_before(pos, x as int + 1, 0, start_pos.z as int),
            ));
            x += 1;
        }
        assert(self@.dom() =~= old(self)@.dom().union(spawn_box(pos)));
    }

    /// The chunk at `pos`, if there is one. Its mesh is built for `pos`.
    pub fn get(&self, pos: ChunkPos) -> (chunk: Option<&Chunk>)
        requires
            self.wf(),
        ensures
            chunk is Some == self@.contains_key(pos),
            chunk is Some ==> *chunk->0 == self@[pos] && chunk->0.built_at(pos),
    {
        let key = Self::key(pos);
        self.chunks.get(&key)
    }

    /// Whether there is a chunk at `pos`.
    pub fn contains(&self, pos: ChunkPos) -> (found: bool)
        ensures
            found == self@.contains_key(pos),
    {
        let key = Self::key(pos);
        self.chunks.contains_key(&key)
    }

    /// The places that have a chunk, each once, in the order in which the
    /// chunks were spawned.
    pub fn positions(&self) -> (places: &Vec<ChunkPos>)
        requires
            self.wf(),
        ensures
            places@ == self.order(),
            places@.no_duplicates(),
            forall|pos: ChunkPos| places@.contains(pos) <==> self@.contains_key(pos),
            places@.len() == self@.dom().len(),
    {
        proof {
            self.lemma_len_of_places();
        }
        &self.places
    }

    /// The number of chunks.
    pub fn len(&self) -> (count: usize)
        requires
            self.wf(),
        ensures
            self@.dom().finite(),
            count == self@.dom().len(),
    {
        proof {
            self.lemma_len_of_places();
        }
        self.places.len()
    }

    /// There are as many chunks as places in the list.
    proof fn lemma_len_of_places(&self)
        requires
            self.wf(),
        ensures
            self@.dom().finite(),
            self@.dom().len() == self.places@.len(),
    {
        self.places@.unique_seq_to_set();
        assert(self.places@.to_set() =~= self@.dom());
    }

    /// The key of the chunk at `pos`.
    fn key(pos: ChunkPos) -> (key: u128)
        ensures
            key == key_of(pos),
    {
        let x = (pos.x as i64 + 0x8000_0000) as u128;
        let y = (pos.y as i64 + 0x8000_0000) as u128;
        let z = (pos.z as i64 + 0x8000_0000) as u128;
        x * 0x1_0000_0000_0000_0000 + y * 0x1_0000_0000 + z
    }
}

/// `spawn_box(pos)` holds as many places as a square of twice
/// `CHUNK_SPAWN_RANGE` chunks a side, one layer high: a hundred.
pub proof fn lemma_spawn_box_len(pos: ChunkPos)
    requires
        i32::MIN <= pos.x - CHUNK_SPAWN_RANGE,
        pos.x + CHUNK_SPAWN_RANGE <= i32::MAX,
        i32::MIN <= pos.z - CHUNK_SPAWN_RANGE,
        pos.z + CHUNK_SPAWN_RANGE <= i32::MAX,
    ensures
        spawn_box(pos).finite(),
        spawn_box(pos).len() == (2 * CHUNK_SPAWN_RANGE) * 1 * (2 * CHUNK_SPAWN_RANGE),
        spawn_box(pos).len() == 100,
{
    assert(2 * CHUNK_SPAWN_RANGE == 10);
    let numbers = set_int_range(0, 100);
    let place = |i: int|
        ChunkPos {
            x: (pos.x - CHUNK_SPAWN_RANGE + i / 10) as i32,
            y: 0,
            z: (pos.z - CHUNK_SPAWN_RANGE + i % 10) as i32,
        };
    lemma_int_range(0, 100);
    assert forall|i: int, j: int|
        numbers.contains(i) && numbers.contains(j) && #[trigger] place(i) == #[trigger] place(j) implies i
        == j by {
        assert(i / 10 == j / 10);
        assert(i % 10 == j % 10);
    }
    assert(numbers.map(place) =~= spawn_box(pos)) by {
        assert forall|p: ChunkPos| spawn_box(pos).contains(p) implies numbers.map(place).contains(p) by {
            let i = (p.x - (pos.x - CHUNK_SPAWN_RANGE)) * 10 + (p.z - (pos.z - CHUNK_SPAWN_RANGE));
            assert(numbers.contains(i) && place(i) == p);
        }
        assert forall|p: ChunkPos| numbers.map(place).contains(p) implies spawn_box(pos).contains(p) by {
            let i = choose|i: int| numbers.contains(i) && place(i) == p;
        }
    }
    lemma_map_size(numbers, spawn_box(pos), place);
}

/// Whether `start` and `end` are the corners of `spawn_box(pos)`: its least
/// place, and the place one past its greatest along every axis.
pub open spec fn spawn_bounds(pos: ChunkPos, start: ChunkPos, end: ChunkPos) -> bool {
    &&& start.x == pos.x - CHUNK_SPAWN_RANGE
    &&& start.y == 0
    &&& start.z == pos.z - CHUNK_SPAWN_RANGE
    &&& end.x == pos.x + CHUNK_SPAWN_RANGE
    &&& end.y == 1
    &&& end.z == pos.z + CHUNK_SPAWN_RANGE
}

/// The places of `spawn_box(pos)` that come before `(x, y, z)` when the box
/// is gone through with x outermost and z innermost.
pub open spec fn spawned_before(pos: ChunkPos, x: int, y: int, z: int) -> Set<ChunkPos> {
    Set::new(|p: ChunkPos| spawn_box(pos).contains(p) && comes_before(p.x as int, p.y as int, p.z as int, x, y, z))
}

} // verus!
