//! The finished map, and the map while its tiles are being set.

use crate::atlas::{derive_spec, AtlasLayout};
use crate::buffer::{AccessError, TileBuffer};
use crate::error::ConfigError;
use crate::geometry::{GridCoord, UVec2, WorldOffset};
use crate::overhang::{Direction, OverhangPolicy, PaintOrder, PlacedTile, PolicyView};
use crate::projection::TileProjection;
use vstd::prelude::*;

verus! {

/// A finished map: the tiles of its cells, its geometry and its overhang
/// policy. The geometry and the policy are fixed. The tiles and the user data
/// can still be changed.
pub struct TileMap<H, U> {
    atlas_texture: H,
    atlas_pixel_size: UVec2,
    layout: AtlasLayout,
    n_tiles: UVec2,
    projection: TileProjection,
    policy: OverhangPolicy,
    tiles: TileBuffer,
    user_data: U,
}

/// A map under construction. Its tiles can be read and set; its geometry can
/// be read and not changed. Its extent in the world is derived when the
/// construction is closed.
pub struct MapIndexerMut<H, U> {
    atlas_texture: H,
    atlas_pixel_size: UVec2,
    layout: AtlasLayout,
    n_tiles: UVec2,
    projection: TileProjection,
    policy: OverhangPolicy,
    tiles: TileBuffer,
    user_data: U,
}

impl<H, U> TileMap<H, U> {
    /// The tile buffer has the size of the map, the tile grid of the atlas
    /// is the one derived from the layout, and the extent in the world is
    /// the one derived from the size of the map, the size of a tile and the
    /// projection.
    #[verifier::type_invariant]
    pub closed spec fn wf(self) -> bool {
        &&& self.tiles.wf()
        &&& self.projection.wf()
        &&& self.tiles.spec_width() == self.layout.map_size.x
        &&& self.tiles.spec_height() == self.layout.map_size.y
        &&& derive_spec(
            self.atlas_pixel_size,
            self.layout.tile_size,
            self.layout.atlas_tile_size_factor,
            self.layout.padding_spec(),
            self.layout.force_n_tiles,
        ) == Ok::<UVec2, ConfigError>(self.n_tiles)
        &&& self.layout.world_size.x == AtlasLayout::world_width(
            self.layout.map_size,
            self.layout.tile_size,
            self.projection,
        )
        &&& self.layout.world_size.y == AtlasLayout::world_height(
            self.layout.map_size,
            self.layout.tile_size,
            self.projection,
        )
    }

    /// The handle of the atlas texture.
    pub closed spec fn spec_atlas_texture(self) -> H {
        self.atlas_texture
    }

    /// The size of the atlas texture.
    pub closed spec fn spec_atlas_pixel_size(self) -> UVec2 {
        self.atlas_pixel_size
    }

    /// The measurements of the map, with its extent in the world.
    pub closed spec fn spec_layout(self) -> AtlasLayout {
        self.layout
    }

    /// The number of tiles of the atlas along each axis.
    pub closed spec fn spec_n_tiles(self) -> UVec2 {
        self.n_tiles
    }

    /// The projection.
    pub closed spec fn spec_projection(self) -> TileProjection {
        self.projection
    }

    /// The overhang policy.
    pub closed spec fn spec_policy(self) -> PolicyView {
        self.policy@
    }

    /// The tiles.
    pub closed spec fn spec_tiles(self) -> TileBuffer {
        self.tiles
    }

    /// The user data.
    pub closed spec fn spec_user_data(self) -> U {
        self.user_data
    }

    /// What a well-formed map guarantees, in terms of its parts.
    pub proof fn lemma_wf(self)
        requires
            self.wf(),
        ensures
            self.spec_tiles().wf(),
            self.spec_projection().wf(),
            self.spec_tiles().spec_width() == self.spec_layout().map_size.x,
            self.spec_tiles().spec_height() == self.spec_layout().map_size.y,
            derive_spec(
                self.spec_atlas_pixel_size(),
                self.spec_layout().tile_size,
                self.spec_layout().atlas_tile_size_factor,
                self.spec_layout().padding_spec(),
                self.spec_layout().force_n_tiles,
            ) == Ok::<UVec2, ConfigError>(self.spec_n_tiles()),
            self.spec_layout().world_size.x == AtlasLayout::world_width(
                self.spec_layout().map_size,
                self.spec_layout().tile_size,
                self.spec_projection(),
            ),
            self.spec_layout().world_size.y == AtlasLayout::world_height(
                self.spec_layout().map_size,
                self.spec_layout().tile_size,
                self.spec_projection(),
            ),
    {
    }

    /// Whether two maps differ in nothing but their tiles: they have the same
    /// geometry, policy and data, and as many cells.
    pub open spec fn same_but_tiles(self, other: TileMap<H, U>) -> bool {
        &&& self.spec_atlas_texture() == other.spec_atlas_texture()
        &&& self.spec_atlas_pixel_size() == other.spec_atlas_pixel_size()
        &&& self.spec_layout() == other.spec_layout()
        &&& self.spec_n_tiles() == other.spec_n_tiles()
        &&& self.spec_projection() == other.spec_projection()
        &&& self.spec_policy() == other.spec_policy()
        &&& self.spec_user_data() == other.spec_user_data()
        &&& self.spec_tiles().spec_width() == other.spec_tiles().spec_width()
        &&& self.spec_tiles().spec_height() == other.spec_tiles().spec_height()
        &&& self.spec_tiles()@.len() == other.spec_tiles()@.len()
    }

    /// The number of cells of the map along each axis.
    pub fn map_size(&self) -> (r: UVec2)
        ensures
            r == self.spec_layout().map_size,
            r.x == self.spec_tiles().spec_width(),
            r.y == self.spec_tiles().spec_height(),
    {
        proof {
            use_type_invariant(self);
        }
        self.layout.map_size
    }

    /// The size of a tile.
    pub fn tile_size(&self) -> (r: UVec2)
        ensures
            r == self.spec_layout().tile_size,
    {
        self.layout.tile_size
    }

    /// The extent of the map in the world.
    pub fn world_size(&self) -> (r: WorldOffset)
        ensures
            r == self.spec_layout().world_size,
            r.x == AtlasLayout::world_width(
                self.spec_layout().map_size,
                self.spec_layout().tile_size,
                self.spec_projection(),
            ),
            r.y == AtlasLayout::world_height(
                self.spec_layout().map_size,
                self.spec_layout().tile_size,
                self.spec_projection(),
            ),
    {
        proof {
            use_type_invariant(self);
        }
        self.layout.world_size
    }

    /// The measurements of the map.
    pub fn layout(&self) -> (r: AtlasLayout)
        ensures
            r == self.spec_layout(),
    {
        self.layout
    }

    /// The number of tiles of the atlas along each axis.
    pub fn n_tiles(&self) -> (r: UVec2)
        ensures
            r == self.spec_n_tiles(),
            derive_spec(
                self.spec_atlas_pixel_size(),
                self.spec_layout().tile_size,
                self.spec_layout().atlas_tile_size_factor,
                self.spec_layout().padding_spec(),
                self.spec_layout().force_n_tiles,
            ) == Ok::<UVec2, ConfigError>(r),
    {
        proof {
            use_type_invariant(self);
        }
        self.n_tiles
    }

    /// The size of the atlas texture.
    pub fn atlas_pixel_size(&self) -> (r: UVec2)
        ensures
            r == self.spec_atlas_pixel_size(),
    {
        self.atlas_pixel_size
    }

    /// The handle of the atlas texture.
    pub fn atlas_texture(&self) -> (r: &H)
        ensures
            *r == self.spec_atlas_texture(),
    {
        &self.atlas_texture
    }

    /// The projection.
    pub fn projection(&self) -> (r: TileProjection)
        ensures
            r == self.spec_projection(),
            r.wf(),
    {
        proof {
            use_type_invariant(self);
        }
        self.projection
    }

    /// The overhang policy.
    pub fn overhang_policy(&self) -> (r: &OverhangPolicy)
        ensures
            r@ == self.spec_policy(),
    {
        &self.policy
    }

    /// The tiles.
    pub fn tiles(&self) -> (r: &TileBuffer)
        ensures
            *r == self.spec_tiles(),
            r.wf(),
    {
        proof {
            use_type_invariant(self);
        }
        &self.tiles
    }

    /// The user data.
    pub fn user_data(&self) -> (r: &U)
        ensures
            *r == self.spec_user_data(),
    {
        &self.user_data
    }

    /// Replaces the user data. Nothing else changes.
    pub fn set_user_data(&mut self, user_data: U)
        ensures
            final(self).spec_user_data() == user_data,
            final(self).spec_atlas_texture() == old(self).spec_atlas_texture(),
            final(self).spec_atlas_pixel_size() == old(self).spec_atlas_pixel_size(),
            final(self).spec_layout() == old(self).spec_layout(),
            final(self).spec_n_tiles() == old(self).spec_n_tiles(),
            final(self).spec_projection() == old(self).spec_projection(),
            final(self).spec_policy() == old(self).spec_policy(),
            final(self).spec_tiles() == old(self).spec_tiles(),
    {
        proof {
            use_type_invariant(&*self);
        }
        self.user_data = user_data;
    }

    /// The world offset of the anchor of the tile in `cell`.
    pub fn map_to_world(&self, cell: GridCoord) -> (r: WorldOffset)
        ensures
            r.x == self.spec_projection().world_x(cell.x as int, cell.y as int),
            r.y == self.spec_projection().world_y(cell.x as int, cell.y as int),
    {
        self.projection.forward(cell)
    }

    /// The cell whose footprint holds the world offset `offset`.
    pub fn world_to_map(&self, offset: WorldOffset) -> (r: Option<GridCoord>)
        ensures
            r == self.spec_projection().cell_of(offset.x as int, offset.y as int),
    {
        self.projection.invert(offset)
    }

    /// The tile index of cell `(x, y)`, or an error when the cell lies
    /// outside the map.
    pub fn get(&self, x: u32, y: u32) -> (r: Result<u32, AccessError>)
        ensures
            self.spec_tiles().in_bounds(x as int, y as int) ==> r == Ok::<u32, AccessError>(
                self.spec_tiles().cell(x as int, y as int),
            ),
            !self.spec_tiles().in_bounds(x as int, y as int) ==> r == Err::<u32, AccessError>(
                AccessError::OutOfBounds { x, y },
            ),
    {
        self.tiles.get(x, y)
    }

    /// Stores `tile` for cell `(x, y)` and changes nothing else, or refuses
    /// with an error, and changes nothing at all, when the cell lies outside
    /// the map.
    pub fn set(&mut self, x: u32, y: u32, tile: u32) -> (r: Result<(), AccessError>)
        ensures
            final(self).same_but_tiles(*old(self)),
            old(self).spec_tiles().in_bounds(x as int, y as int) ==> r == Ok::<(), AccessError>(())
                && final(self).spec_tiles()@ == old(self).spec_tiles()@.update(
                old(self).spec_tiles().position(x as int, y as int),
                tile,
            ),
            !old(self).spec_tiles().in_bounds(x as int, y as int) ==> r == Err::<(), AccessError>(
                AccessError::OutOfBounds { x, y },
            ) && final(self).spec_tiles()@ == old(self).spec_tiles()@,
    {
        proof {
            use_type_invariant(&*self);
        }
        self.tiles.set(x, y, tile)
    }

    /// The tile of cell `(x, y)` as it is placed in the grid, or an error when
    /// the cell lies outside the map.
    pub fn placed(&self, x: u32, y: u32) -> (r: Result<PlacedTile, AccessError>)
        ensures
            self.spec_tiles().in_bounds(x as int, y as int) ==> r == Ok::<PlacedTile, AccessError>(
                PlacedTile {
                    cell: GridCoord { x: x as i64, y: y as i64 },
                    index: self.spec_tiles().cell(x as int, y as int),
                },
            ),
            !self.spec_tiles().in_bounds(x as int, y as int) ==> r == Err::<
                PlacedTile,
                AccessError,
            >(AccessError::OutOfBounds { x, y }),
    {
        match self.tiles.get(x, y) {
            Ok(index) => Ok(PlacedTile { cell: GridCoord { x: x as i64, y: y as i64 }, index }),
            Err(e) => Err(e),
        }
    }

    /// The directions into which the tile in `cell` may paint.
    pub fn neighbors_for(&self, cell: GridCoord) -> (r: Vec<Direction>)
        ensures
            r@ == self.spec_policy().neighbors(),
    {
        self.policy.neighbors_for(cell)
    }

    /// When the tile `a` is painted, relative to the tile `b`, under the
    /// policy and the projection of this map.
    pub fn draw_order_key(&self, a: PlacedTile, b: PlacedTile) -> (r: PaintOrder)
        ensures
            r == self.spec_policy().draw_order(self.spec_projection(), a, b),
    {
        self.policy.draw_order_key(&self.projection, a, b)
    }

    /// Gives every cell the tile index that `f` returns for it, row by row,
    /// and changes nothing else.
    pub fn fill<F: Fn(u32, u32) -> u32>(self, f: F) -> (r: TileMap<H, U>)
        requires
            forall|x: u32, y: u32| #![trigger call_requires(f, (x, y))]
                self.spec_tiles().in_bounds(x as int, y as int) ==> call_requires(f, (x, y)),
        ensures
            r.wf(),
            r.same_but_tiles(self),
            forall|x: u32, y: u32| #![trigger r.spec_tiles().cell(x as int, y as int)]
                self.spec_tiles().in_bounds(x as int, y as int) ==> call_ensures(
                    f,
                    (x, y),
                    r.spec_tiles().cell(x as int, y as int),
                ),
    {
        proof {
            use_type_invariant(&self);
        }
        let TileMap {
            atlas_texture,
            atlas_pixel_size,
            layout,
            n_tiles,
            projection,
            policy,
            tiles,
            user_data,
        } = self;
        let mut tiles = tiles;
        tiles.fill(f);
        TileMap {
            atlas_texture,
            atlas_pixel_size,
            layout,
            n_tiles,
            projection,
            policy,
            tiles,
            user_data,
        }
    }

    /// Gives every cell the tile index that `f` returns for it, where `f`
    /// carries a state from one call to the next, and changes nothing else.
    /// The cells are visited row by row; the state after the last call is
    /// handed back with the map.
    pub fn fill_with_state<S, F: Fn(S, u32, u32) -> (S, u32)>(self, start: S, f: F) -> (r: (
        TileMap<H, U>,
        S,
    ))
        requires
            forall|s: S, x: u32, y: u32| #![trigger call_requires(f, (s, x, y))]
                self.spec_tiles().in_bounds(x as int, y as int) ==> call_requires(f, (s, x, y)),
        ensures
            r.0.wf(),
            r.0.same_but_tiles(self),
            exists|states: Seq<S>|
                TileBuffer::threaded(
                    self.spec_tiles().spec_width(),
                    f,
                    start,
                    states,
                    r.0.spec_tiles()@,
                    r.1,
                ),
    {
        proof {
            use_type_invariant(&self);
        }
        let TileMap {
            atlas_texture,
            atlas_pixel_size,
            layout,
            n_tiles,
            projection,
            policy,
            tiles,
            user_data,
        } = self;
        let ghost width = tiles.spec_width();
        let mut tiles = tiles;
        let end = tiles.fill_with_state(start, f);
        let r = (
            TileMap {
                atlas_texture,
                atlas_pixel_size,
                layout,
                n_tiles,
                projection,
                policy,
                tiles,
                user_data,
            },
            end,
        );
        proof {
            let states = choose|states: Seq<S>|
                TileBuffer::threaded(width, f, start, states, r.0.tiles@, r.1);
            assert(TileBuffer::threaded(
                self.spec_tiles().spec_width(),
                f,
                start,
                states,
                r.0.spec_tiles()@,
                r.1,
            ));
        }
        r
    }
}

impl<H, U> MapIndexerMut<H, U> {
    /// The tile buffer has the size of the map, and the tile grid of the
    /// atlas is the one derived from the layout.
    #[verifier::type_invariant]
    pub closed spec fn wf(self) -> bool {
        &&& self.tiles.wf()
        &&& self.projection.wf()
        &&& self.tiles.spec_width() == self.layout.map_size.x
        &&& self.tiles.spec_height() == self.layout.map_size.y
        &&& derive_spec(
            self.atlas_pixel_size,
            self.layout.tile_size,
            self.layout.atlas_tile_size_factor,
            self.layout.padding_spec(),
            self.layout.force_n_tiles,
        ) == Ok::<UVec2, ConfigError>(self.n_tiles)
    }

    /// The map that results when the construction is closed now: what is
    /// held, with the extent in the world that belongs to it.
    pub closed spec fn spec_map(self) -> TileMap<H, U> {
        TileMap {
            atlas_texture: self.atlas_texture,
            atlas_pixel_size: self.atlas_pixel_size,
            layout: AtlasLayout {
                world_size: WorldOffset {
                    x: AtlasLayout::world_width(
                        self.layout.map_size,
                        self.layout.tile_size,
                        self.projection,
                    ) as i128,
                    y: AtlasLayout::world_height(
                        self.layout.map_size,
                        self.layout.tile_size,
                        self.projection,
                    ) as i128,
                },
                ..self.layout
            },
            n_tiles: self.n_tiles,
            projection: self.projection,
            policy: self.policy,
            tiles: self.tiles,
            user_data: self.user_data,
        }
    }

    /// The map that a well-formed construction results in is well-formed.
    pub proof fn lemma_spec_map_wf(self)
        requires
            self.wf(),
        ensures
            self.spec_map().wf(),
    {
        self.projection.lemma_wf();
        AtlasLayout::lemma_world_size_fits(
            self.layout.map_size,
            self.layout.tile_size,
            self.projection,
        );
    }

    /// Puts a map under construction together from its parts.
    pub(crate) fn assemble(
        atlas_texture: H,
        atlas_pixel_size: UVec2,
        layout: AtlasLayout,
        n_tiles: UVec2,
        projection: TileProjection,
        policy: OverhangPolicy,
        tiles: TileBuffer,
        user_data: U,
    ) -> (r: MapIndexerMut<H, U>)
        requires
            tiles.wf(),
            projection.wf(),
            tiles.spec_width() == layout.map_size.x,
            tiles.spec_height() == layout.map_size.y,
            derive_spec(
                atlas_pixel_size,
                layout.tile_size,
                layout.atlas_tile_size_factor,
                layout.padding_spec(),
                layout.force_n_tiles,
            ) == Ok::<UVec2, ConfigError>(n_tiles),
        ensures
            r.wf(),
            r.spec_map().wf(),
            r.spec_map().spec_atlas_texture() == atlas_texture,
            r.spec_map().spec_atlas_pixel_size() == atlas_pixel_size,
            r.spec_map().spec_layout() == (AtlasLayout {
                world_size: r.spec_map().spec_layout().world_size,
                ..layout
            }),
            r.spec_map().spec_n_tiles() == n_tiles,
            r.spec_map().spec_projection() == projection,
            r.spec_map().spec_policy() == policy@,
            r.spec_map().spec_tiles() == tiles,
            r.spec_map().spec_user_data() == user_data,
    {
        let r = MapIndexerMut {
            atlas_texture,
            atlas_pixel_size,
            layout,
            n_tiles,
            projection,
            policy,
            tiles,
            user_data,
        };
        proof {
            r.lemma_spec_map_wf();
        }
        r
    }

    /// The number of cells of the map along each axis.
    pub fn size(&self) -> (r: UVec2)
        ensures
            r == self.spec_map().spec_layout().map_size,
            r.x == self.spec_map().spec_tiles().spec_width(),
            r.y == self.spec_map().spec_tiles().spec_height(),
    {
        proof {
            use_type_invariant(self);
        }
        self.layout.map_size
    }

    /// The size of a tile.
    pub fn tile_size(&self) -> (r: UVec2)
        ensures
            r == self.spec_map().spec_layout().tile_size,
    {
        self.layout.tile_size
    }

    /// The number of tiles of the atlas along each axis.
    pub fn n_tiles(&self) -> (r: UVec2)
        ensures
            r == self.spec_map().spec_n_tiles(),
    {
        self.n_tiles
    }

    /// The projection.
    pub fn projection(&self) -> (r: TileProjection)
        ensures
            r == self.spec_map().spec_projection(),
            r.wf(),
    {
        proof {
            use_type_invariant(self);
        }
        self.projection
    }

    /// The overhang policy.
    pub fn overhang_policy(&self) -> (r: &OverhangPolicy)
        ensures
            r@ == self.spec_map().spec_policy(),
    {
        &self.policy
    }

    /// The user data.
    pub fn user_data(&self) -> (r: &U)
        ensures
            *r == self.spec_map().spec_user_data(),
    {
        &self.user_data
    }

    /// The tile index of cell `(x, y)`, or an error when the cell lies
    /// outside the map.
    pub fn get(&self, x: u32, y: u32) -> (r: Result<u32, AccessError>)
        ensures
            self.spec_map().spec_tiles().in_bounds(x as int, y as int) ==> r == Ok::<
                u32,
                AccessError,
            >(self.spec_map().spec_tiles().cell(x as int, y as int)),
            !self.spec_map().spec_tiles().in_bounds(x as int, y as int) ==> r == Err::<
                u32,
                AccessError,
            >(AccessError::OutOfBounds { x, y }),
    {
        self.tiles.get(x, y)
    }

    /// Stores `tile` for cell `(x, y)` and changes nothing else, or refuses
    /// with an error, and changes nothing at all, when the cell lies outside
    /// the map.
    pub fn set(&mut self, x: u32, y: u32, tile: u32) -> (r: Result<(), AccessError>)
        ensures
            final(self).spec_map().wf(),
            final(self).spec_map().same_but_tiles(old(self).spec_map()),
            old(self).spec_map().spec_tiles().in_bounds(x as int, y as int) ==> r == Ok::<
                (),
                AccessError,
            >(()) && final(self).spec_map().spec_tiles()@ == old(self).spec_map().spec_tiles()@.update(
                old(self).spec_map().spec_tiles().position(x as int, y as int),
                tile,
            ),
            !old(self).spec_map().spec_tiles().in_bounds(x as int, y as int) ==> r == Err::<
                (),
                AccessError,
            >(AccessError::OutOfBounds { x, y }) && final(self).spec_map().spec_tiles()@
                == old(self).spec_map().spec_tiles()@,
    {
        proof {
            use_type_invariant(&*self);
        }
        let r = self.tiles.set(x, y, tile);
        proof {
            self.lemma_spec_map_wf();
        }
        r
    }

    /// Gives every cell the tile index that `f` returns for it, row by row,
    /// and changes nothing else.
    pub fn fill<F: Fn(u32, u32) -> u32>(self, f: F) -> (r: MapIndexerMut<H, U>)
        requires
            forall|x: u32, y: u32| #![trigger call_requires(f, (x, y))]
                self.spec_map().spec_tiles().in_bounds(x as int, y as int) ==> call_requires(
                    f,
                    (x, y),
                ),
        ensures
            r.spec_map().wf(),
            r.spec_map().same_but_tiles(self.spec_map()),
            forall|x: u32, y: u32| #![trigger r.spec_map().spec_tiles().cell(x as int, y as int)]
                self.spec_map().spec_tiles().in_bounds(x as int, y as int) ==> call_ensures(
                    f,
                    (x, y),
                    r.spec_map().spec_tiles().cell(x as int, y as int),
                ),
    {
        proof {
            use_type_invariant(&self);
        }
        let MapIndexerMut {
            atlas_texture,
            atlas_pixel_size,
            layout,
            n_tiles,
            projection,
            policy,
            tiles,
            user_data,
        } = self;
        let mut tiles = tiles;
        tiles.fill(f);
        let r = MapIndexerMut {
            atlas_texture,
            atlas_pixel_size,
            layout,
            n_tiles,
            projection,
            policy,
            tiles,
            user_data,
        };
        proof {
            r.lemma_spec_map_wf();
        }
        r
    }

    /// Gives every cell the tile index that `f` returns for it, where `f`
    /// carries a state from one call to the next, and changes nothing else.
    /// The cells are visited row by row; the state after the last call is
    /// handed back with the map under construction.
    pub fn fill_with_state<S, F: Fn(S, u32, u32) -> (S, u32)>(self, start: S, f: F) -> (r: (
        MapIndexerMut<H, U>,
        S,
    ))
        requires
            forall|s: S, x: u32, y: u32| #![trigger call_requires(f, (s, x, y))]
                self.spec_map().spec_tiles().in_bounds(x as int, y as int) ==> call_requires(
                    f,
                    (s, x, y),
                ),
        ensures
            r.0.spec_map().wf(),
            r.0.spec_map().same_but_tiles(self.spec_map()),
            exists|states: Seq<S>|
                TileBuffer::threaded(
                    self.spec_map().spec_tiles().spec_width(),
                    f,
                    start,
                    states,
                    r.0.spec_map().spec_tiles()@,
                    r.1,
                ),
    {
        proof {
            use_type_invariant(&self);
        }
        let MapIndexerMut {
            atlas_texture,
            atlas_pixel_size,
            layout,
            n_tiles,
            projection,
            policy,
            tiles,
            user_data,
        } = self;
        let ghost width = tiles.spec_width();
        let mut tiles = tiles;
        let end = tiles.fill_with_state(start, f);
        let r = (
            MapIndexerMut {
                atlas_texture,
                atlas_pixel_size,
                layout,
                n_tiles,
                projection,
                policy,
                tiles,
                user_data,
            },
            end,
        );
        proof {
            r.0.lemma_spec_map_wf();
            let states = choose|states: Seq<S>|
                TileBuffer::threaded(width, f, start, states, r.0.tiles@, r.1);
            assert(TileBuffer::threaded(
                self.spec_map().spec_tiles().spec_width(),
                f,
                start,
                states,
                r.0.spec_map().spec_tiles()@,
                r.1,
            ));
        }
        r
    }

    /// Closes the construction: derives the extent of the map in the world
    /// from the size of the map, the size of a tile and the projection, and
    /// hands out the finished map, with the tiles as they were set.
    pub fn finish(self) -> (r: TileMap<H, U>)
        ensures
            r == self.spec_map(),
            r.wf(),
    {
        proof {
            use_type_invariant(&self);
        }
        let MapIndexerMut {
            atlas_texture,
            atlas_pixel_size,
            layout,
            n_tiles,
            projection,
            policy,
            tiles,
            user_data,
        } = self;
        let mut layout = layout;
        layout.update_world_size(&projection);
        TileMap {
            atlas_texture,
            atlas_pixel_size,
            layout,
            n_tiles,
            projection,
            policy,
            tiles,
            user_data,
        }
    }
}

} // verus!
