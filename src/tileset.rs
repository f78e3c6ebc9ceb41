//! The texture atlases that tiles refer to.
use vstd::prelude::*;

verus! {

/// An opaque handle of a loaded texture.
#[derive(Clone, Copy, Debug, PartialEq, Eq, Hash, Structural)]
pub struct TextureHandle(pub u64);

#[derive(Clone, Copy, Debug, PartialEq, Eq, Hash, Structural)]
pub struct UVec2 {
    pub x: u32,
    pub y: u32,
}

/// The pixel size of an atlas and of each tile in it.
#[derive(Clone, Copy, Debug, PartialEq, Eq, Hash, Structural)]
pub struct TilemapTextureDescriptor {
    pub size: UVec2,
    pub tile_size: UVec2,
}

#[derive(Clone, Copy, Debug, PartialEq, Eq, Hash, Structural)]
pub struct TilemapTexture {
    pub handle: TextureHandle,
    pub desc: TilemapTextureDescriptor,
}

/// How atlases are sampled.
#[derive(Clone, Copy, Debug, PartialEq, Eq, Hash, Structural)]
pub enum FilterMode {
    Nearest,
    Linear,
}

/// Why a tileset list was refused.
#[derive(Clone, Copy, Debug, PartialEq, Eq, Structural)]
pub enum TilesetError {
    Empty,
}

/// The fixed list of atlases of a map; read-only once made.
pub struct TilemapTilesets {
    textures: Vec<TilemapTexture>,
    filter_mode: FilterMode,
}

impl TilemapTilesets {
    pub closed spec fn spec_textures(&self) -> Seq<TilemapTexture> {
        self.textures@
    }

    pub closed spec fn spec_filter_mode(&self) -> FilterMode {
        self.filter_mode
    }

    /// The registry of `textures`, in their order; an empty list is refused.
    pub fn new(textures: Vec<TilemapTexture>, filter_mode: FilterMode) -> (r: Result<
        TilemapTilesets,
        TilesetError,
    >)
        ensures
            textures@.len() == 0 <==> r is Err,
            r is Err ==> r == Err::<TilemapTilesets, TilesetError>(TilesetError::Empty),
            r matches Ok(t) ==> t.spec_textures() == textures@ && t.spec_filter_mode() == filter_mode,
    {
        if textures.len() == 0 {
            Err(TilesetError::Empty)
        } else {
            Ok(TilemapTilesets { textures, filter_mode })
        }
    }

    pub fn len(&self) -> (r: usize)
        ensures
            r == self.spec_textures().len(),
    {
        self.textures.len()
    }

    /// The atlas at `index`.
    pub fn get(&self, index: usize) -> (r: TilemapTexture)
        requires
            index < self.spec_textures().len(),
        ensures
            r == self.spec_textures()[index as int],
    {
        self.textures[index]
    }

    pub fn filter_mode(&self) -> (r: FilterMode)
        ensures
            r == self.spec_filter_mode(),
    {
        self.filter_mode
    }
}

} // verus!
