use std::collections::HashSet;

use dystopia_core::addressing::{FlattenedTileIndex, TileIndex};
use dystopia_core::cosmos::{BodyIndex, OrbitIndex, ShowOrbits, StarType};
use dystopia_core::geodesic::{subdivide, Axis, IVec3, SubdivideError};
use dystopia_core::storage::{
    RecordHandle, StorageError, TileAtlasIndex, TileTint, TilemapStorage,
};
use dystopia_core::tileset::{
    FilterMode, TextureHandle, TilemapTexture, TilemapTextureDescriptor, TilemapTilesets,
    TilesetError, UVec2,
};

const WHITE: TileTint = TileTint { r: 255, g: 255, b: 255, a: 255 };

fn atlas(i: u32) -> TileAtlasIndex {
    TileAtlasIndex::Static { texture: 0, atlas: i }
}

fn fill(storage: &mut TilemapStorage, coords: &[IVec3]) {
    for (i, c) in coords.iter().enumerate() {
        let index = TileIndex::new(*c, storage.chunk_size());
        storage.set(&index, RecordHandle(i as u64), atlas(0), WHITE);
    }
}

#[test]
fn subdivide_counts() {
    for (level, count) in [(0, 20usize), (1, 80), (2, 320), (3, 1280)] {
        let v = subdivide(level, Axis::PosY).unwrap();
        assert_eq!(v.len(), count);
        let set: HashSet<IVec3> = v.iter().copied().collect();
        assert_eq!(set.len(), count);
    }
}

#[test]
fn subdivide_negative_level() {
    assert_eq!(subdivide(-1, Axis::PosY), Err(SubdivideError::NegativeLevel));
}

#[test]
fn subdivide_is_deterministic_and_turns_with_axis() {
    let a = subdivide(2, Axis::PosX).unwrap();
    let b = subdivide(2, Axis::PosX).unwrap();
    assert_eq!(a, b);
    let y = subdivide(0, Axis::PosY).unwrap();
    let x = subdivide(0, Axis::PosX).unwrap();
    for (p, q) in y.iter().zip(x.iter()) {
        assert_eq!(*q, IVec3::new(p.y, -p.x, p.z));
    }
    // The first face of level 0 touches the north pole: its centroid, scaled
    // by three, is the sum of its corners.
    assert_eq!(y[0], IVec3::new(5, 9, 4));
}

#[test]
fn flatten_exact() {
    let f = FlattenedTileIndex::from_direct(IVec3::new(-1, 9, 17), 8);
    assert_eq!(f.chunk_index, IVec3::new(-1, 1, 2));
    assert_eq!(f.in_chunk_index, 7 + 8 * 1 + 64 * 1);
    let g = FlattenedTileIndex::from_direct(IVec3::new(3, 0, 0), 8);
    assert_eq!(g.chunk_index, IVec3::new(0, 0, 0));
    assert_eq!(g.in_chunk_index, 3);
}

#[test]
fn flatten_has_no_collisions() {
    let v = subdivide(2, Axis::NegZ).unwrap();
    for size in [1u32, 2, 3, 8, 100] {
        let set: HashSet<FlattenedTileIndex> =
            v.iter().map(|c| FlattenedTileIndex::from_direct(*c, size)).collect();
        assert_eq!(set.len(), v.len());
    }
}

#[test]
fn zero_chunk_size_is_refused() {
    assert!(matches!(TilemapStorage::new(0), Err(StorageError::ZeroChunkSize)));
}

#[test]
fn remove_twice_is_remove_once() {
    let mut s = TilemapStorage::new(8).unwrap();
    let c = IVec3::new(1, 2, 3);
    fill(&mut s, &[c, IVec3::new(4, 5, 6)]);
    let first = s.remove(c);
    assert_eq!(first.map(|t| t.handle), Some(RecordHandle(0)));
    assert_eq!(s.len(), 1);
    assert_eq!(s.remove(c), None);
    assert_eq!(s.len(), 1);
}

#[test]
fn insert_then_remove_restores_bookkeeping() {
    let mut s = TilemapStorage::new(8).unwrap();
    let c = IVec3::new(100, 0, 0);
    let k = FlattenedTileIndex::from_direct(c, 8).chunk_index;
    assert!(!s.has_chunk(k));
    fill(&mut s, &[c]);
    assert!(s.has_chunk(k));
    s.remove(c);
    assert!(!s.has_chunk(k));
    assert_eq!(s.len(), 0);
}

#[test]
fn set_replaces_and_hands_back() {
    let mut s = TilemapStorage::new(4).unwrap();
    let c = IVec3::new(-3, 1, 2);
    let index = TileIndex::new(c, 4);
    assert_eq!(s.set(&index, RecordHandle(7), atlas(1), WHITE), None);
    let prev = s.set(&index, RecordHandle(8), atlas(2), WHITE).unwrap();
    assert_eq!(prev.handle, RecordHandle(7));
    assert_eq!(prev.atlas_index, atlas(1));
    assert_eq!(s.len(), 1);
    assert_eq!(s.get(index.flattened).unwrap().handle, RecordHandle(8));
}

#[test]
fn remove_chunk_keeps_others() {
    let mut s = TilemapStorage::new(8).unwrap();
    let inside = [IVec3::new(0, 0, 0), IVec3::new(1, 0, 0), IVec3::new(7, 7, 7)];
    let outside = [IVec3::new(8, 0, 0), IVec3::new(-1, 0, 0)];
    fill(&mut s, &inside);
    fill(&mut s, &outside);
    let gone = s.remove_chunk(IVec3::new(0, 0, 0));
    assert_eq!(gone.len(), 3);
    assert_eq!(s.len(), 2);
    assert!(!s.has_chunk(IVec3::new(0, 0, 0)));
    assert!(s.remove_chunk(IVec3::new(0, 0, 0)).is_empty());
}

#[test]
fn despawn_empties_and_stays_usable() {
    let mut s = TilemapStorage::new(8).unwrap();
    let v = subdivide(1, Axis::NegY).unwrap();
    fill(&mut s, &v);
    let all = s.despawn();
    assert_eq!(all.len(), 80);
    assert_eq!(s.len(), 0);
    fill(&mut s, &v[..3]);
    assert_eq!(s.len(), 3);
}

#[test]
fn level_one_chunks_removed_one_by_one() {
    let v = subdivide(1, Axis::PosY).unwrap();
    assert_eq!(v.len(), 80);
    let mut s = TilemapStorage::new(8).unwrap();
    fill(&mut s, &v);
    assert_eq!(s.len(), 80);
    let chunks: HashSet<IVec3> =
        v.iter().map(|c| FlattenedTileIndex::from_direct(*c, 8).chunk_index).collect();
    let mut removed = 0;
    for k in chunks {
        removed += s.remove_chunk(k).len();
    }
    assert_eq!(removed, 80);
    assert_eq!(s.len(), 0);
}

#[test]
fn tilesets_lookup() {
    assert!(matches!(
        TilemapTilesets::new(vec![], FilterMode::Nearest),
        Err(TilesetError::Empty)
    ));
    let desc = TilemapTextureDescriptor { size: UVec2 { x: 45, y: 26 }, tile_size: UVec2 { x: 15, y: 13 } };
    let t = TilemapTilesets::new(
        vec![
            TilemapTexture { handle: TextureHandle(1), desc },
            TilemapTexture { handle: TextureHandle(2), desc },
        ],
        FilterMode::Linear,
    )
    .unwrap();
    assert_eq!(t.len(), 2);
    assert_eq!(t.get(1).handle, TextureHandle(2));
    assert_eq!(t.filter_mode(), FilterMode::Linear);
}

#[test]
fn cosmos_indices() {
    assert_eq!(BodyIndex::new(3).index(), 3);
    assert_eq!(OrbitIndex::new(9).index(), 9);
    assert!(!ShowOrbits::default().get());
    assert_eq!(StarType::default(), StarType::O);
}
