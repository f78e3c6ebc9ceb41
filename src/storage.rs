//! Chunked storage of tile bindings.
use vstd::prelude::*;
use crate::addressing::{flatten, FlattenedTileIndex, TileIndex, MAX_CHUNK_SIZE};
use crate::geodesic::IVec3;

verus! {

/// An opaque handle of the record that backs a tile.
#[derive(Clone, Copy, Debug, PartialEq, Eq, Hash, Structural)]
pub struct RecordHandle(pub u64);

/// Which picture of which atlas a tile shows.
#[derive(Clone, Copy, Debug, PartialEq, Eq, Hash, Structural)]
pub enum TileAtlasIndex {
    Static { texture: u32, atlas: u32 },
    Animated { texture: u32, start: u32, end: u32 },
}

/// The colour a tile is tinted with.
#[derive(Clone, Copy, Debug, PartialEq, Eq, Hash, Structural)]
pub struct TileTint {
    pub r: u8,
    pub g: u8,
    pub b: u8,
    pub a: u8,
}

/// A bound tile: its address, its record and what it shows.
#[derive(Clone, Copy, Debug, PartialEq, Eq, Hash, Structural)]
pub struct TileSlot {
    pub index: FlattenedTileIndex,
    pub handle: RecordHandle,
    pub atlas_index: TileAtlasIndex,
    pub tint: TileTint,
}

/// Why a tilemap could not be made.
#[derive(Clone, Copy, Debug, PartialEq, Eq, Structural)]
pub enum StorageError {
    ZeroChunkSize,
}

/// The occupied slots of a map. A chunk exists exactly while one of its
/// slots is occupied, so its bookkeeping cannot go stale.
pub struct TilemapStorage {
    chunk_size: u32,
    slots: Vec<TileSlot>,
}

/// No address is bound twice.
pub open spec fn unique_slots(s: Seq<TileSlot>) -> bool {
    forall|i: int, j: int| 0 <= i < j < s.len() ==> (#[trigger] s[i]).index != (#[trigger] s[j]).index
}

/// Whether address `k` is occupied in `s`.
pub open spec fn occupied(s: Seq<TileSlot>, k: FlattenedTileIndex) -> bool {
    exists|i: int| 0 <= i < s.len() && (#[trigger] s[i]).index == k
}

/// The position of address `k` in `s`, where it is occupied.
pub open spec fn position(s: Seq<TileSlot>, k: FlattenedTileIndex) -> int {
    choose|i: int| 0 <= i < s.len() && (#[trigger] s[i]).index == k
}

/// The slots after binding `t`: it replaces the binding at its address, or
/// is added.
pub open spec fn after_insert(s: Seq<TileSlot>, t: TileSlot) -> Seq<TileSlot> {
    if occupied(s, t.index) {
        s.update(position(s, t.index), t)
    } else {
        s.push(t)
    }
}

/// The slots after unbinding address `k`; nothing changes where it is empty.
pub open spec fn after_remove(s: Seq<TileSlot>, k: FlattenedTileIndex) -> Seq<TileSlot> {
    if occupied(s, k) {
        s.remove(position(s, k))
    } else {
        s
    }
}

/// The chunks that have bookkeeping: those with an occupied slot.
pub open spec fn chunks(s: Seq<TileSlot>) -> Set<IVec3> {
    Set::new(|c: IVec3| exists|i: int| 0 <= i < s.len() && (#[trigger] s[i]).index.chunk_index == c)
}

pub open spec fn in_chunk(k: IVec3) -> spec_fn(TileSlot) -> bool {
    |t: TileSlot| t.index.chunk_index == k
}

pub open spec fn not_in_chunk(k: IVec3) -> spec_fn(TileSlot) -> bool {
    |t: TileSlot| t.index.chunk_index != k
}

impl TilemapStorage {
    pub closed spec fn spec_chunk_size(&self) -> int {
        self.chunk_size as int
    }

    /// The bound tiles, in the order they were first bound.
    pub closed spec fn slots(&self) -> Seq<TileSlot> {
        self.slots@
    }

    pub open spec fn wf(&self) -> bool {
        0 < self.spec_chunk_size() <= MAX_CHUNK_SIZE && unique_slots(self.slots())
    }

    /// An empty map with chunks of edge `chunk_size`; a zero edge is refused.
    pub fn new(chunk_size: u32) -> (r: Result<TilemapStorage, StorageError>)
        requires
            chunk_size <= MAX_CHUNK_SIZE,
        ensures
            chunk_size == 0 <==> r is Err,
            r is Err ==> r == Err::<TilemapStorage, StorageError>(StorageError::ZeroChunkSize),
            r matches Ok(m) ==> m.wf() && m.slots().len() == 0 && m.spec_chunk_size() == chunk_size,
    {
        if chunk_size == 0 {
            Err(StorageError::ZeroChunkSize)
        } else {
            Ok(TilemapStorage { chunk_size, slots: Vec::new() })
        }
    }

    pub fn chunk_size(&self) -> (r: u32)
        ensures
            r == self.spec_chunk_size(),
    {
        self.chunk_size
    }

    /// The number of occupied slots.
    pub fn len(&self) -> (r: usize)
        ensures
            r == self.slots().len(),
    {
        self.slots.len()
    }

    fn find(&self, k: FlattenedTileIndex) -> (r: Option<usize>)
        ensures
            r matches Some(i) ==> i < self.slots().len() && self.slots()[i as int].index == k,
            r is None ==> !occupied(self.slots(), k),
    {
        let mut i: usize = 0;
        while i < self.slots.len()
            invariant
                i <= self.slots@.len(),
                forall|j: int| 0 <= j < i ==> (#[trigger] self.slots@[j]).index != k,
            decreases self.slots@.len() - i,
        {
            if self.slots[i].index == k {
                return Some(i);
            }
            i = i + 1;
        }
        None
    }

    /// The binding at address `k`, if that slot is occupied.
    pub fn get(&self, k: FlattenedTileIndex) -> (r: Option<TileSlot>)
        requires
            self.wf(),
        ensures
            r is None <==> !occupied(self.slots(), k),
            r matches Some(t) ==> t == self.slots()[position(self.slots(), k)],
    {
        match self.find(k) {
            Some(i) => {
                proof {
                    lemma_position(self.slots(), k, i as int);
                }
                Some(self.slots[i])
            },
            None => None,
        }
    }

    /// Binds a record at `index`. A record bound there before is unbound and
    /// handed back, for its owner to destroy.
    pub fn set(
        &mut self,
        index: &TileIndex,
        handle: RecordHandle,
        atlas_index: TileAtlasIndex,
        tint: TileTint,
    ) -> (r: Option<TileSlot>)
        requires
            old(self).wf(),
            index.flattened == flatten(index.direct, old(self).spec_chunk_size()),
        ensures
            final(self).wf(),
            final(self).spec_chunk_size() == old(self).spec_chunk_size(),
            final(self).slots() == after_insert(
                old(self).slots(),
                (TileSlot { index: index.flattened, handle, atlas_index, tint }),
            ),
            r is None <==> !occupied(old(self).slots(), index.flattened),
            r matches Some(t) ==> t == old(self).slots()[position(old(self).slots(), index.flattened)],
    {
        let t = TileSlot { index: index.flattened, handle, atlas_index, tint };
        match self.find(index.flattened) {
            Some(i) => {
                proof {
                    lemma_position(old(self).slots(), index.flattened, i as int);
                }
                let prev = self.slots[i];
                self.slots.set(i, t);
                proof {
                    assert(self.slots@ == old(self).slots@.update(i as int, t));
                }
                Some(prev)
            },
            None => {
                self.slots.push(t);
                proof {
                    assert forall|a: int, b: int| 0 <= a < b < self.slots@.len() implies (
                    #[trigger] self.slots@[a]).index != (#[trigger] self.slots@[b]).index by {
                        if b == self.slots@.len() - 1 {
                            assert(old(self).slots@[a] == self.slots@[a]);
                        } else {
                            assert(old(self).slots@[a] == self.slots@[a]);
                            assert(old(self).slots@[b] == self.slots@[b]);
                        }
                    }
                }
                None
            },
        }
    }

    /// Unbinds the tile at `direct`; nothing happens where the slot is empty.
    /// The unbound tile is handed back, for its record to be destroyed.
    pub fn remove(&mut self, direct: IVec3) -> (r: Option<TileSlot>)
        requires
            old(self).wf(),
        ensures
            final(self).wf(),
            final(self).spec_chunk_size() == old(self).spec_chunk_size(),
            final(self).slots() == after_remove(
                old(self).slots(),
                flatten(direct, old(self).spec_chunk_size()),
            ),
            r is None <==> !occupied(old(self).slots(), flatten(direct, old(self).spec_chunk_size())),
            r matches Some(t) ==> t == old(self).slots()[position(
                old(self).slots(),
                flatten(direct, old(self).spec_chunk_size()),
            )],
    {
        let k = FlattenedTileIndex::from_direct(direct, self.chunk_size);
        match self.find(k) {
            Some(i) => {
                proof {
                    lemma_position(old(self).slots(), k, i as int);
                }
                let prev = self.slots.remove(i);
                proof {
                    lemma_remove_unique(old(self).slots(), i as int);
                }
                Some(prev)
            },
            None => None,
        }
    }

    /// Unbinds every tile of chunk `k` and drops the chunk's bookkeeping;
    /// nothing happens where the chunk has none. The unbound tiles are handed
    /// back, in their order, for their records to be destroyed.
    pub fn remove_chunk(&mut self, k: IVec3) -> (r: Vec<TileSlot>)
        requires
            old(self).wf(),
        ensures
            final(self).wf(),
            final(self).spec_chunk_size() == old(self).spec_chunk_size(),
            final(self).slots() == old(self).slots().filter(not_in_chunk(k)),
            r@ == old(self).slots().filter(in_chunk(k)),
            !chunks(final(self).slots()).contains(k),
    {
        let ghost s = self.slots@;
        let mut kept: Vec<TileSlot> = Vec::new();
        let mut gone: Vec<TileSlot> = Vec::new();
        let mut i: usize = 0;
        while i < self.slots.len()
            invariant
                self.slots@ == s,
                i <= s.len(),
                kept@ == s.take(i as int).filter(not_in_chunk(k)),
                gone@ == s.take(i as int).filter(in_chunk(k)),
                unique_slots(s),
                unique_slots(kept@),
                forall|a: int|
                    #![trigger kept@[a]]
                    0 <= a < kept@.len() ==> exists|j: int| 0 <= j < i && kept@[a] == s[j],
            decreases s.len() - i,
        {
            let t = self.slots[i];
            proof {
                reveal(Seq::filter);
                assert(s.take(i + 1).drop_last() =~= s.take(i as int));
                assert(s.take(i + 1).last() == t);
            }
            if t.index.chunk_index == k {
                gone.push(t);
            } else {
                let ghost before = kept@;
                kept.push(t);
                proof {
                    assert forall|a: int, b: int| 0 <= a < b < kept@.len() implies (
                    #[trigger] kept@[a]).index != (#[trigger] kept@[b]).index by {
                        if b == kept@.len() - 1 {
                            assert(before[a] == kept@[a]);
                            let j = choose|j: int| 0 <= j < i && before[a] == s[j];
                            assert(s[j].index != s[i as int].index);
                        } else {
                            assert(before[a] == kept@[a] && before[b] == kept@[b]);
                        }
                    }
                    assert forall|a: int|
                        #![trigger kept@[a]]
                        0 <= a < kept@.len() implies exists|j: int| 0 <= j < i + 1 && kept@[a] == s[j] by {
                        if a < before.len() {
                            assert(before[a] == kept@[a]);
                            let j = choose|j: int| 0 <= j < i && before[a] == s[j];
                            assert(kept@[a] == s[j]);
                        } else {
                            assert(kept@[a] == s[i as int]);
                        }
                    }
                }
            }
            i = i + 1;
        }
        proof {
            assert(s.take(s.len() as int) =~= s);
            s.lemma_filter_len(not_in_chunk(k));
            assert forall|j: int| 0 <= j < kept@.len() implies (#[trigger] kept@[j]).index.chunk_index != k by {
                s.lemma_filter_pred(not_in_chunk(k), j);
            }
        }
        self.slots = kept;
        gone
    }

    /// Unbinds every tile and drops all bookkeeping; the map stays usable.
    /// The unbound tiles are handed back, for their records to be destroyed.
    pub fn despawn(&mut self) -> (r: Vec<TileSlot>)
        requires
            old(self).wf(),
        ensures
            final(self).wf(),
            final(self).spec_chunk_size() == old(self).spec_chunk_size(),
            final(self).slots().len() == 0,
            r@ == old(self).slots(),
    {
        let mut all: Vec<TileSlot> = Vec::new();
        std::mem::swap(&mut all, &mut self.slots);
        all
    }

    /// Whether chunk `k` has bookkeeping.
    pub fn has_chunk(&self, k: IVec3) -> (r: bool)
        ensures
            r == chunks(self.slots()).contains(k),
    {
        let mut i: usize = 0;
        while i < self.slots.len()
            invariant
                i <= self.slots@.len(),
                forall|j: int| 0 <= j < i ==> (#[trigger] self.slots@[j]).index.chunk_index != k,
            decreases self.slots@.len() - i,
        {
            if self.slots[i].index.chunk_index == k {
                proof {
                    assert(self.slots@[i as int].index.chunk_index == k);
                }
                return true;
            }
            i = i + 1;
        }
        false
    }
}

proof fn lemma_position(s: Seq<TileSlot>, k: FlattenedTileIndex, i: int)
    requires
        unique_slots(s),
        0 <= i < s.len(),
        s[i].index == k,
    ensures
        occupied(s, k),
        position(s, k) == i,
{
    assert(occupied(s, k));
    let p = position(s, k);
    if p != i {
        if p < i {
            assert(s[p].index != s[i].index);
        } else {
            assert(s[i].index != s[p].index);
        }
    }
}

proof fn lemma_remove_unique(s: Seq<TileSlot>, i: int)
    requires
        unique_slots(s),
        0 <= i < s.len(),
    ensures
        unique_slots(s.remove(i)),
        forall|j: int| 0 <= j < s.len() - 1 ==> (#[trigger] s.remove(i)[j]).index != s[i].index,
{
    let t = s.remove(i);
    assert forall|a: int, b: int| 0 <= a < b < t.len() implies (#[trigger] t[a]).index != (
    #[trigger] t[b]).index by {
        let a2 = if a < i { a } else { a + 1 };
        let b2 = if b < i { b } else { b + 1 };
        assert(t[a] == s[a2] && t[b] == s[b2]);
    }
    assert forall|j: int| 0 <= j < s.len() - 1 implies (#[trigger] t[j]).index != s[i].index by {
        let j2 = if j < i { j } else { j + 1 };
        assert(t[j] == s[j2]);
    }
}

/// Removing a tile twice leaves what removing it once left.
pub proof fn lemma_remove_idempotent(s: Seq<TileSlot>, k: FlattenedTileIndex)
    requires
        unique_slots(s),
    ensures
        after_remove(after_remove(s, k), k) == after_remove(s, k),
{
    if occupied(s, k) {
        let i = position(s, k);
        lemma_remove_unique(s, i);
        let t = s.remove(i);
        if occupied(t, k) {
            let j = choose|j: int| 0 <= j < t.len() && (#[trigger] t[j]).index == k;
            assert(t[j].index != s[i].index);
        }
    }
}

/// Binding an empty slot and then removing it restores the slots, and with
/// them the chunk bookkeeping, exactly as they were.
pub proof fn lemma_insert_remove_round_trip(s: Seq<TileSlot>, t: TileSlot)
    requires
        unique_slots(s),
        !occupied(s, t.index),
    ensures
        after_remove(after_insert(s, t), t.index) == s,
        chunks(after_remove(after_insert(s, t), t.index)) == chunks(s),
{
    let u = s.push(t);
    assert(after_insert(s, t) == u);
    assert forall|a: int, b: int| 0 <= a < b < u.len() implies (#[trigger] u[a]).index != (
    #[trigger] u[b]).index by {
        if b == s.len() {
            assert(u[a] == s[a]);
        } else {
            assert(u[a] == s[a] && u[b] == s[b]);
        }
    }
    lemma_position(u, t.index, s.len() as int);
    assert(u.remove(s.len() as int) =~= s);
}

/// Removing a chunk splits the tiles in two: those of the chunk, which are
/// handed back, and all others, which stay.
pub proof fn lemma_remove_chunk_partition(s: Seq<TileSlot>, k: IVec3)
    ensures
        s.filter(not_in_chunk(k)).len() + s.filter(in_chunk(k)).len() == s.len(),
        !chunks(s.filter(not_in_chunk(k))).contains(k),
    decreases s.len(),
{
    reveal(Seq::filter);
    if s.len() > 0 {
        lemma_remove_chunk_partition(s.drop_last(), k);
    }
    let f = s.filter(not_in_chunk(k));
    s.lemma_filter_len(not_in_chunk(k));
    assert forall|j: int| 0 <= j < f.len() implies (#[trigger] f[j]).index.chunk_index != k by {
        s.lemma_filter_pred(not_in_chunk(k), j);
    }
}

} // verus!
