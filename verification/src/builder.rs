//! Step by step configuration of a map, and the build that validates it.
//!
//! A builder may hold any combination of values. Building checks them as a
//! whole: the atlas must slice into tiles, the overhang flags must not
//! contradict each other, and the map must be addressable. Then the tile
//! buffer is allocated, the caller sets the tiles, and the map is finished.

use crate::atlas::{derive_spec, lemma_exact_fit_derives, pitch, AtlasLayout, Padding};
use crate::buffer::TileBuffer;
use crate::error::ConfigError;
use crate::geometry::{UVec2, WorldOffset};
use crate::map::{MapIndexerMut, TileMap};
use crate::overhang::{policy_of_flags, Direction, OverhangPolicy, PolicyView};
use crate::projection::TileProjection;
use vstd::prelude::*;

verus! {

/// The configuration of a map that is yet to be built.
pub struct MapBuilder<H, U> {
    /// Handle of the atlas texture. It is kept for the renderer and never
    /// looked into.
    pub atlas_texture: H,
    /// Size of the atlas texture.
    pub atlas_pixel_size: UVec2,
    /// Size of the map and of a tile, and the padding of the atlas.
    pub layout: AtlasLayout,
    /// Projection from grid cells to world offsets.
    pub projection: TileProjection,
    /// Whether tiles overlap by dominance.
    pub dominance_overhangs: bool,
    /// Whether tiles hang over their neighbours by perspective.
    pub perspective_overhangs: bool,
    /// Whether tiles hang under their neighbours by perspective.
    pub perspective_underhangs: bool,
    /// Underhang directions that replace the default ones, if there are any.
    pub force_underhangs: Vec<Direction>,
    /// Data of the caller's own, carried along with the map.
    pub user_data: U,
}

impl<H, U> MapBuilder<H, U> {
    /// The tile grid of the atlas that this configuration asks for, or the
    /// reason why the atlas does not slice.
    pub open spec fn n_tiles_spec(self) -> Result<UVec2, ConfigError> {
        derive_spec(
            self.atlas_pixel_size,
            self.layout.tile_size,
            self.layout.atlas_tile_size_factor,
            self.layout.padding_spec(),
            self.layout.force_n_tiles,
        )
    }

    /// The overhang policy that this configuration asks for, or the refusal
    /// of its flags.
    pub open spec fn policy_spec(self) -> Result<PolicyView, ConfigError> {
        policy_of_flags(
            self.dominance_overhangs,
            self.perspective_underhangs,
            self.perspective_overhangs,
            self.force_underhangs@,
            self.projection,
        )
    }

    /// Why no map can be built from this configuration, if there is a
    /// reason. The atlas is looked at first, then the overhang flags, then
    /// the size of the map.
    pub open spec fn refusal(self) -> Option<ConfigError> {
        match self.n_tiles_spec() {
            Err(e) => Some(e),
            Ok(_) => match self.policy_spec() {
                Err(e) => Some(e),
                Ok(_) => if self.layout.map_size.x * self.layout.map_size.y
                    > TileBuffer::max_cells() {
                    Some(ConfigError::MapTooLarge)
                } else {
                    None
                },
            },
        }
    }

    /// Whether `map` has the geometry, the policy and the data that this
    /// configuration asks for, with the extent in the world that follows from
    /// them, and one tile for every cell. Nothing is said of which tiles.
    pub open spec fn describes(self, map: TileMap<H, U>) -> bool {
        &&& map.wf()
        &&& map.spec_atlas_texture() == self.atlas_texture
        &&& map.spec_atlas_pixel_size() == self.atlas_pixel_size
        &&& map.spec_user_data() == self.user_data
        &&& map.spec_projection() == self.projection
        &&& map.spec_layout() == (AtlasLayout {
            world_size: map.spec_layout().world_size,
            ..self.layout
        })
        &&& map.spec_layout().world_size.x == AtlasLayout::world_width(
            self.layout.map_size,
            self.layout.tile_size,
            self.projection,
        )
        &&& map.spec_layout().world_size.y == AtlasLayout::world_height(
            self.layout.map_size,
            self.layout.tile_size,
            self.projection,
        )
        &&& self.n_tiles_spec() == Ok::<UVec2, ConfigError>(map.spec_n_tiles())
        &&& self.policy_spec() == Ok::<PolicyView, ConfigError>(map.spec_policy())
        &&& map.spec_tiles().spec_width() == self.layout.map_size.x
        &&& map.spec_tiles().spec_height() == self.layout.map_size.y
        &&& map.spec_tiles()@.len() == self.layout.map_size.x * self.layout.map_size.y
    }

    /// Whether `map` is what this configuration asks for, with tile index 0
    /// in every cell.
    pub open spec fn starts(self, map: TileMap<H, U>) -> bool {
        &&& self.describes(map)
        &&& map.spec_tiles()@ == Seq::new(
            (self.layout.map_size.x * self.layout.map_size.y) as nat,
            |i: int| 0u32,
        )
    }

    /// A builder for a map of `map_size` cells, drawn with tiles of
    /// `tile_size` from the atlas `atlas_texture` of `atlas_pixel_size`,
    /// carrying `user_data`. The projection is the identity, the atlas has
    /// no padding, and no overhang is configured: unless an overhang is asked
    /// for, the tiles of the map never paint outside their own cell.
    pub fn custom(
        map_size: UVec2,
        atlas_texture: H,
        atlas_pixel_size: UVec2,
        tile_size: UVec2,
        user_data: U,
    ) -> (r: MapBuilder<H, U>)
        ensures
            r.atlas_texture == atlas_texture,
            r.atlas_pixel_size == atlas_pixel_size,
            r.layout == (AtlasLayout {
                map_size,
                tile_size,
                atlas_tile_size_factor: 1,
                inner_padding: UVec2 { x: 0, y: 0 },
                outer_padding_topleft: UVec2 { x: 0, y: 0 },
                outer_padding_bottomright: UVec2 { x: 0, y: 0 },
                force_n_tiles: None,
                world_size: WorldOffset { x: 0, y: 0 },
            }),
            r.projection.wf(),
            r.projection.spec_basis() == crate::projection::Basis::identity_spec(),
            r.projection.spec_anchor() == (crate::projection::Anchor { x: 0, y: 0 }),
            r.projection.spec_resolution() == 1,
            !r.dominance_overhangs,
            !r.perspective_overhangs,
            !r.perspective_underhangs,
            r.force_underhangs@ == Seq::<Direction>::empty(),
            r.policy_spec() == Ok::<PolicyView, ConfigError>(PolicyView::NoOverhang),
            r.user_data == user_data,
    {
        MapBuilder {
            atlas_texture,
            atlas_pixel_size,
            layout: AtlasLayout::new(map_size, tile_size),
            projection: TileProjection::identity(),
            dominance_overhangs: false,
            perspective_overhangs: false,
            perspective_underhangs: false,
            force_underhangs: Vec::new(),
            user_data,
        }
    }

    /// Sets the scale applied to the tile size where the atlas is sampled.
    pub fn with_atlas_tile_size_factor(self, factor: i32) -> (r: MapBuilder<H, U>)
        ensures
            r == (MapBuilder {
                layout: AtlasLayout { atlas_tile_size_factor: factor, ..self.layout },
                ..self
            }),
    {
        let mut r = self;
        r.layout.atlas_tile_size_factor = factor;
        r
    }

    /// Replaces the user data.
    pub fn with_user_data(self, new_user_data: U) -> (r: MapBuilder<H, U>)
        ensures
            r == (MapBuilder { user_data: new_user_data, ..self }),
    {
        let mut r = self;
        r.user_data = new_user_data;
        r
    }

    /// Sets the projection.
    pub fn with_projection(self, projection: TileProjection) -> (r: MapBuilder<H, U>)
        ensures
            r == (MapBuilder { projection, ..self }),
    {
        let mut r = self;
        r.projection = projection;
        r
    }

    /// Fixes the number of tiles of the atlas along each axis, or, with
    /// `None`, has it derived from the size of the atlas, the size of a
    /// tile and the padding.
    pub fn with_n_tiles(self, force_n_tiles: Option<UVec2>) -> (r: MapBuilder<H, U>)
        ensures
            r == (MapBuilder { layout: AtlasLayout { force_n_tiles, ..self.layout }, ..self }),
    {
        let mut r = self;
        r.layout.force_n_tiles = force_n_tiles;
        r
    }

    /// Sets the padding of the atlas: `inner` between adjacent tiles,
    /// `topleft` before the first tile and `bottomright` after the last.
    pub fn with_padding(self, inner: UVec2, topleft: UVec2, bottomright: UVec2) -> (r: MapBuilder<
        H,
        U,
    >)
        ensures
            r == (MapBuilder {
                layout: AtlasLayout {
                    inner_padding: inner,
                    outer_padding_topleft: topleft,
                    outer_padding_bottomright: bottomright,
                    ..self.layout
                },
                ..self
            }),
    {
        let mut r = self;
        r.layout.inner_padding = inner;
        r.layout.outer_padding_topleft = topleft;
        r.layout.outer_padding_bottomright = bottomright;
        r
    }

    /// Has tiles overlap by dominance, and no longer by perspective.
    pub fn with_dominance_overhang(self) -> (r: MapBuilder<H, U>)
        ensures
            r == (MapBuilder {
                dominance_overhangs: true,
                perspective_overhangs: false,
                perspective_underhangs: false,
                ..self
            }),
            r.policy_spec() == Ok::<PolicyView, ConfigError>(PolicyView::Dominance),
    {
        let mut r = self;
        r.dominance_overhangs = true;
        r.perspective_overhangs = false;
        r.perspective_underhangs = false;
        r
    }

    /// Has tiles overlap by perspective, and no longer by dominance.
    pub fn with_perspective_overhang(self) -> (r: MapBuilder<H, U>)
        ensures
            r == (MapBuilder {
                dominance_overhangs: false,
                perspective_overhangs: true,
                perspective_underhangs: true,
                ..self
            }),
            r.policy_spec() is Ok,
            r.policy_spec()->Ok_0 is Perspective,
    {
        let mut r = self;
        r.dominance_overhangs = false;
        r.perspective_overhangs = true;
        r.perspective_underhangs = true;
        r
    }

    /// Has tiles overlap by perspective, hanging under their neighbours in
    /// the directions `underhangs` and over those in the opposite
    /// directions.
    pub fn with_forced_underhangs(self, underhangs: Vec<Direction>) -> (r: MapBuilder<H, U>)
        ensures
            r == (MapBuilder {
                dominance_overhangs: false,
                perspective_overhangs: true,
                perspective_underhangs: true,
                force_underhangs: underhangs,
                ..self
            }),
            r.policy_spec() is Ok,
            r.policy_spec()->Ok_0 is Perspective,
            underhangs@.len() > 0 ==> r.policy_spec()->Ok_0.underhangs() == underhangs@,
    {
        let mut r = self;
        r.dominance_overhangs = false;
        r.perspective_underhangs = true;
        r.perspective_overhangs = true;
        r.force_underhangs = underhangs;
        r
    }

    /// Sets the three overhang flags as they are given. Flags that
    /// contradict each other are refused when the map is built.
    pub fn with_overhangs(self, dominance: bool, perspective_under: bool, perspective_over: bool) -> (r:
        MapBuilder<H, U>)
        ensures
            r == (MapBuilder {
                dominance_overhangs: dominance,
                perspective_underhangs: perspective_under,
                perspective_overhangs: perspective_over,
                ..self
            }),
    {
        let mut r = self;
        r.dominance_overhangs = dominance;
        r.perspective_underhangs = perspective_under;
        r.perspective_overhangs = perspective_over;
        r
    }

    /// An atlas that is made of whole tiles slices into them, whatever the
    /// padding: where no tile grid is forced, the pitch is positive along
    /// both axes, and the atlas measures, along each axis, the outer padding,
    /// `n_tiles` tiles and the inner padding between them, the builder with
    /// that padding derives `n_tiles` and refuses nothing of the atlas.
    pub proof fn lemma_padded_atlas_slices(
        self,
        inner: UVec2,
        topleft: UVec2,
        bottomright: UVec2,
        n_tiles: UVec2,
    )
        requires
            self.layout.force_n_tiles is None,
            pitch(self.layout.tile_size.x, self.layout.atlas_tile_size_factor, inner.x) > 0,
            pitch(self.layout.tile_size.y, self.layout.atlas_tile_size_factor, inner.y) > 0,
            self.atlas_pixel_size.x == topleft.x + bottomright.x + n_tiles.x * (
            self.layout.tile_size.x * self.layout.atlas_tile_size_factor) + (n_tiles.x - 1)
                * inner.x,
            self.atlas_pixel_size.y == topleft.y + bottomright.y + n_tiles.y * (
            self.layout.tile_size.y * self.layout.atlas_tile_size_factor) + (n_tiles.y - 1)
                * inner.y,
        ensures
            (MapBuilder {
                layout: AtlasLayout {
                    inner_padding: inner,
                    outer_padding_topleft: topleft,
                    outer_padding_bottomright: bottomright,
                    ..self.layout
                },
                ..self
            }).n_tiles_spec() == Ok::<UVec2, ConfigError>(n_tiles),
    {
        let factor = self.layout.atlas_tile_size_factor;
        let tx = self.layout.tile_size.x * factor;
        let ty = self.layout.tile_size.y * factor;
        assert(n_tiles.x * tx + (n_tiles.x - 1) * inner.x + inner.x == n_tiles.x * (tx + inner.x))
            by (nonlinear_arith);
        assert(n_tiles.y * ty + (n_tiles.y - 1) * inner.y + inner.y == n_tiles.y * (ty + inner.y))
            by (nonlinear_arith);
        lemma_exact_fit_derives(
            self.atlas_pixel_size,
            self.layout.tile_size,
            factor,
            Padding { inner, topleft, bottomright },
            n_tiles,
        );
    }

    /// Validates the configuration and allocates the tiles of the map, all
    /// of them tile 0. What is handed out is the map under construction: its
    /// tiles can be set, its geometry is fixed. It stands for the map that
    /// results when the construction is closed.
    pub fn begin(self) -> (r: Result<MapIndexerMut<H, U>, ConfigError>)
        ensures
            match r {
                Ok(indexer) => self.refusal() is None && self.starts(indexer.spec_map()),
                Err(e) => self.refusal() == Some(e),
            },
    {
        let n_tiles = match self.layout.n_tiles(self.atlas_pixel_size) {
            Ok(n_tiles) => n_tiles,
            Err(e) => { return Err(e); },
        };
        let policy = match OverhangPolicy::from_flags(
            self.dominance_overhangs,
            self.perspective_underhangs,
            self.perspective_overhangs,
            &self.force_underhangs,
            &self.projection,
        ) {
            Ok(policy) => policy,
            Err(e) => { return Err(e); },
        };
        let width: u32 = self.layout.map_size.x;
        let height: u32 = self.layout.map_size.y;
        assert(width * height <= u64::MAX) by (nonlinear_arith)
            requires
                width <= u32::MAX,
                height <= u32::MAX,
        ;
        let cells: u64 = (width as u64) * (height as u64);
        if cells > TileBuffer::cell_limit() as u64 {
            return Err(ConfigError::MapTooLarge);
        }
        let tiles = TileBuffer::new(width, height);
        proof {
            use_type_invariant(&self.projection);
        }
        let indexer = MapIndexerMut::assemble(
            self.atlas_texture,
            self.atlas_pixel_size,
            self.layout,
            n_tiles,
            self.projection,
            policy,
            tiles,
            self.user_data,
        );
        proof {
            indexer.spec_map().lemma_wf();
        }
        Ok(indexer)
    }

    /// Builds the map with tile 0 in every cell.
    pub fn build(self) -> (r: Result<TileMap<H, U>, ConfigError>)
        ensures
            match r {
                Ok(map) => self.refusal() is None && self.starts(map),
                Err(e) => self.refusal() == Some(e),
            },
    {
        match self.begin() {
            Ok(indexer) => Ok(indexer.finish()),
            Err(e) => Err(e),
        }
    }

    /// Builds the map and gives every cell the tile index that `initializer`
    /// returns for it. The cells are visited row by row.
    pub fn build_and_set<F: Fn(u32, u32) -> u32>(self, initializer: F) -> (r: Result<
        TileMap<H, U>,
        ConfigError,
    >)
        requires
            forall|x: u32, y: u32| #![trigger call_requires(initializer, (x, y))]
                x < self.layout.map_size.x && y < self.layout.map_size.y ==> call_requires(
                    initializer,
                    (x, y),
                ),
        ensures
            match r {
                Ok(map) => {
                    &&& self.refusal() is None
                    &&& self.describes(map)
                    &&& forall|x: u32, y: u32| #![trigger map.spec_tiles().cell(x as int, y as int)]
                        x < self.layout.map_size.x && y < self.layout.map_size.y ==> call_ensures(
                            initializer,
                            (x, y),
                            map.spec_tiles().cell(x as int, y as int),
                        )
                },
                Err(e) => self.refusal() == Some(e),
            },
    {
        match self.begin() {
            Ok(indexer) => Ok(indexer.fill(initializer).finish()),
            Err(e) => Err(e),
        }
    }

    /// Builds the map and gives every cell the tile index that `initializer`
    /// returns for it, where the initializer carries a state from one call to
    /// the next. It is called once per cell, row by row and each row from its
    /// first cell to its last, the first time with `start`; the state after
    /// the last call is handed back with the map.
    pub fn build_and_set_with_state<S, F: Fn(S, u32, u32) -> (S, u32)>(
        self,
        start: S,
        initializer: F,
    ) -> (r: Result<(TileMap<H, U>, S), ConfigError>)
        requires
            forall|s: S, x: u32, y: u32| #![trigger call_requires(initializer, (s, x, y))]
                x < self.layout.map_size.x && y < self.layout.map_size.y ==> call_requires(
                    initializer,
                    (s, x, y),
                ),
        ensures
            match r {
                Ok((map, end)) => {
                    &&& self.refusal() is None
                    &&& self.describes(map)
                    &&& exists|states: Seq<S>|
                        TileBuffer::threaded(
                            self.layout.map_size.x as nat,
                            initializer,
                            start,
                            states,
                            map.spec_tiles()@,
                            end,
                        )
                },
                Err(e) => self.refusal() == Some(e),
            },
    {
        match self.begin() {
            Ok(indexer) => {
                let (filled, end) = indexer.fill_with_state(start, initializer);
                let map = filled.finish();
                let r: Result<(TileMap<H, U>, S), ConfigError> = Ok((map, end));
                proof {
                    r->Ok_0.0.lemma_wf();
                    let states = choose|states: Seq<S>|
                        TileBuffer::threaded(
                            indexer.spec_map().spec_tiles().spec_width(),
                            initializer,
                            start,
                            states,
                            filled.spec_map().spec_tiles()@,
                            r->Ok_0.1,
                        );
                    assert(TileBuffer::threaded(
                        self.layout.map_size.x as nat,
                        initializer,
                        start,
                        states,
                        r->Ok_0.0.spec_tiles()@,
                        r->Ok_0.1,
                    ));
                }
                r
            },
            Err(e) => Err(e),
        }
    }

    /// Builds the map and has `initializer` set its tiles. The initializer
    /// receives the map under construction, with tile 0 in every cell, and
    /// hands it back; it is called once, and only if the configuration is
    /// accepted. It may set tiles and nothing else: the map that it hands
    /// back for the fresh one differs from it in its tiles alone, so that the
    /// finished map has the geometry, the policy and the data of the builder.
    pub fn build_and_initialize<F: FnOnce(MapIndexerMut<H, U>) -> MapIndexerMut<H, U>>(
        self,
        initializer: F,
    ) -> (r: Result<TileMap<H, U>, ConfigError>)
        requires
            forall|indexer: MapIndexerMut<H, U>| #![trigger call_requires(initializer, (indexer,))]
                self.starts(indexer.spec_map()) ==> call_requires(initializer, (indexer,)),
            forall|before: MapIndexerMut<H, U>, after: MapIndexerMut<H, U>|
                #![trigger call_ensures(initializer, (before,), after)]
                self.starts(before.spec_map()) && call_ensures(initializer, (before,), after)
                    ==> after.spec_map().same_but_tiles(before.spec_map()),
        ensures
            match r {
                Ok(map) => {
                    &&& self.refusal() is None
                    &&& self.describes(map)
                    &&& exists|before: MapIndexerMut<H, U>, after: MapIndexerMut<H, U>|
                        #![trigger call_ensures(initializer, (before,), after)]
                        {
                            &&& self.starts(before.spec_map())
                            &&& call_ensures(initializer, (before,), after)
                            &&& map == after.spec_map()
                        }
                },
                Err(e) => self.refusal() == Some(e),
            },
    {
        match self.begin() {
            Ok(indexer) => {
                let after = initializer(indexer);
                let map = after.finish();
                proof {
                    map.lemma_wf();
                }
                Ok(map)
            },
            Err(e) => Err(e),
        }
    }
}

impl<H, U: Default> MapBuilder<H, U> {
    /// A builder like that of [`MapBuilder::custom`], carrying the default
    /// user data.
    pub fn new(map_size: UVec2, atlas_texture: H, atlas_pixel_size: UVec2, tile_size: UVec2) -> (r:
        MapBuilder<H, U>)
        ensures
            r.atlas_texture == atlas_texture,
            r.atlas_pixel_size == atlas_pixel_size,
            r.layout == (AtlasLayout {
                map_size,
                tile_size,
                atlas_tile_size_factor: 1,
                inner_padding: UVec2 { x: 0, y: 0 },
                outer_padding_topleft: UVec2 { x: 0, y: 0 },
                outer_padding_bottomright: UVec2 { x: 0, y: 0 },
                force_n_tiles: None,
                world_size: WorldOffset { x: 0, y: 0 },
            }),
            r.projection.wf(),
            r.projection.spec_basis() == crate::projection::Basis::identity_spec(),
            r.projection.spec_anchor() == (crate::projection::Anchor { x: 0, y: 0 }),
            r.projection.spec_resolution() == 1,
            !r.dominance_overhangs,
            !r.perspective_overhangs,
            !r.perspective_underhangs,
            r.force_underhangs@ == Seq::<Direction>::empty(),
            r.policy_spec() == Ok::<PolicyView, ConfigError>(PolicyView::NoOverhang),
            call_ensures(U::default, (), r.user_data),
    {
        Self::custom(map_size, atlas_texture, atlas_pixel_size, tile_size, U::default())
    }
}

} // verus!
