//! How a texture atlas is sliced into tiles, and how large a map is in the
//! world.
//!
//! Along each axis an atlas of `atlas` units, with `topleft` and
//! `bottomright` units of outer padding and `inner` units between adjacent
//! tiles, holds
//!
//! ```text
//! (atlas - topleft - bottomright + inner) / (tile * factor + inner)
//! ```
//!
//! tiles. The quotient has to be a whole number, up to one part in
//! [`TOLERANCE_DIVISOR`] of a tile; otherwise the atlas cannot be sliced and
//! the configuration is refused.

use crate::arith::{floor_quotient, lemma_product_bound};
use crate::error::ConfigError;
use crate::geometry::{Axis, UVec2, WorldOffset};
use crate::projection::TileProjection;
use vstd::arithmetic::div_mod::lemma_fundamental_div_mod_converse;
use vstd::prelude::*;

verus! {

/// The tile count of an axis may miss a whole number by at most one part in
/// this many.
pub const TOLERANCE_DIVISOR: i64 = 100;

/// The padding of an atlas, per axis.
#[derive(Clone, Copy, Debug, PartialEq, Eq, Structural)]
pub struct Padding {
    /// Between adjacent tiles.
    pub inner: UVec2,
    /// Before the first tile: to the left of the atlas and above it.
    pub topleft: UVec2,
    /// After the last tile: to the right of the atlas and below it.
    pub bottomright: UVec2,
}

/// The measurements from which the geometry of a map is derived.
#[derive(Clone, Copy, Debug, PartialEq, Eq, Structural)]
pub struct AtlasLayout {
    /// Number of cells of the map along each axis.
    pub map_size: UVec2,
    /// Size of a tile.
    pub tile_size: UVec2,
    /// Scale applied to `tile_size` where the atlas is sampled.
    pub atlas_tile_size_factor: i32,
    /// Padding between adjacent tiles of the atlas.
    pub inner_padding: UVec2,
    /// Padding to the left of the atlas and above it.
    pub outer_padding_topleft: UVec2,
    /// Padding to the right of the atlas and below it.
    pub outer_padding_bottomright: UVec2,
    /// Number of tiles of the atlas along each axis, where the caller fixes
    /// it instead of having it derived.
    pub force_n_tiles: Option<UVec2>,
    /// Extent of the map in the world, as last derived.
    pub world_size: WorldOffset,
}

/// The length along one axis that the tiles of an atlas and the padding
/// between them take up, with one more inner padding added, so that it is a
/// multiple of [`pitch`] in an atlas that fits.
pub open spec fn span(atlas: u32, topleft: u32, bottomright: u32, inner: u32) -> int {
    atlas - topleft - bottomright + inner
}

/// The distance from the start of one tile of the atlas to the start of the
/// next.
pub open spec fn pitch(tile: u32, factor: i32, inner: u32) -> int {
    tile * factor + inner
}

/// The whole number nearest to `n / d`, halves rounded up.
pub open spec fn nearest_count(n: int, d: int) -> int
    recommends
        d > 0,
{
    (2 * n + d) / (2 * d)
}

/// Whether `n / d` misses the whole number `q` by no more than the
/// tolerance.
pub open spec fn within_tolerance(n: int, d: int, q: int) -> bool {
    d > 0 && -d <= (n - q * d) * TOLERANCE_DIVISOR <= d
}

/// Whether a span of `n` slices into tiles of pitch `d`: the quotient is,
/// within the tolerance, a whole number that is a possible count.
pub open spec fn slices(n: int, d: int) -> bool {
    &&& d > 0
    &&& 0 <= nearest_count(n, d) <= u32::MAX
    &&& within_tolerance(n, d, nearest_count(n, d))
}

/// The number of tiles along `axis`, or the refusal that names the axis and
/// the quotient that is no count.
pub open spec fn tiles_along_spec(
    axis: Axis,
    atlas: u32,
    tile: u32,
    factor: i32,
    inner: u32,
    topleft: u32,
    bottomright: u32,
) -> Result<u32, ConfigError> {
    let n = span(atlas, topleft, bottomright, inner);
    let d = pitch(tile, factor, inner);
    if slices(n, d) {
        Ok(nearest_count(n, d) as u32)
    } else {
        Err(ConfigError::AtlasMisfit { axis, numerator: n as i64, denominator: d as i64 })
    }
}

/// The tile grid of an atlas: the forced one where there is one, else the one
/// derived along each axis, the x axis first.
pub open spec fn derive_spec(
    atlas_pixel_size: UVec2,
    tile_size: UVec2,
    atlas_tile_size_factor: i32,
    padding: Padding,
    force_n_tiles: Option<UVec2>,
) -> Result<UVec2, ConfigError> {
    match force_n_tiles {
        Some(n_tiles) => Ok(n_tiles),
        None => {
            let x = tiles_along_spec(
                Axis::X,
                atlas_pixel_size.x,
                tile_size.x,
                atlas_tile_size_factor,
                padding.inner.x,
                padding.topleft.x,
                padding.bottomright.x,
            );
            let y = tiles_along_spec(
                Axis::Y,
                atlas_pixel_size.y,
                tile_size.y,
                atlas_tile_size_factor,
                padding.inner.y,
                padding.topleft.y,
                padding.bottomright.y,
            );
            match (x, y) {
                (Err(e), _) => Err(e),
                (Ok(_), Err(e)) => Err(e),
                (Ok(nx), Ok(ny)) => Ok(UVec2 { x: nx, y: ny }),
            }
        },
    }
}

/// A quotient that is within the tolerance of a whole number is within the
/// tolerance of no other, and that number is the nearest one.
pub proof fn lemma_tolerated_count_is_nearest(n: int, d: int, q: int)
    requires
        within_tolerance(n, d, q),
    ensures
        nearest_count(n, d) == q,
{
    let r = 2 * (n - q * d) + d;
    assert(2 * n + d == q * (2 * d) + r) by (nonlinear_arith)
        requires
            r == 2 * (n - q * d) + d,
    ;
    assert(0 <= r < 2 * d);
    lemma_fundamental_div_mod_converse(2 * n + d, 2 * d, q, r);
}

/// An atlas whose span along an axis is an exact multiple of the pitch holds
/// that many tiles along the axis.
pub proof fn lemma_exact_fit_is_accepted(
    axis: Axis,
    atlas: u32,
    tile: u32,
    factor: i32,
    inner: u32,
    topleft: u32,
    bottomright: u32,
    k: u32,
)
    requires
        pitch(tile, factor, inner) > 0,
        span(atlas, topleft, bottomright, inner) == k * pitch(tile, factor, inner),
    ensures
        tiles_along_spec(axis, atlas, tile, factor, inner, topleft, bottomright) == Ok::<
            u32,
            ConfigError,
        >(k),
{
    let n = span(atlas, topleft, bottomright, inner);
    let d = pitch(tile, factor, inner);
    assert((n - k * d) * TOLERANCE_DIVISOR == 0);
    lemma_tolerated_count_is_nearest(n, d, k as int);
}

/// An atlas whose span along an axis is, in pitches, further than the
/// tolerance from every whole number is refused, and the refusal names the
/// axis, the span and the pitch.
pub proof fn lemma_off_tolerance_is_refused(
    axis: Axis,
    atlas: u32,
    tile: u32,
    factor: i32,
    inner: u32,
    topleft: u32,
    bottomright: u32,
)
    requires
        forall|q: int|
            !within_tolerance(
                span(atlas, topleft, bottomright, inner),
                pitch(tile, factor, inner),
                q,
            ),
    ensures
        tiles_along_spec(axis, atlas, tile, factor, inner, topleft, bottomright) == Err::<
            u32,
            ConfigError,
        >(
            ConfigError::AtlasMisfit {
                axis,
                numerator: span(atlas, topleft, bottomright, inner) as i64,
                denominator: pitch(tile, factor, inner) as i64,
            },
        ),
{
}

/// An atlas whose span is an exact multiple of the pitch along both axes is
/// sliced into those multiples, without a refusal.
pub proof fn lemma_exact_fit_derives(
    atlas_pixel_size: UVec2,
    tile_size: UVec2,
    atlas_tile_size_factor: i32,
    padding: Padding,
    n_tiles: UVec2,
)
    requires
        pitch(tile_size.x, atlas_tile_size_factor, padding.inner.x) > 0,
        pitch(tile_size.y, atlas_tile_size_factor, padding.inner.y) > 0,
        span(atlas_pixel_size.x, padding.topleft.x, padding.bottomright.x, padding.inner.x)
            == n_tiles.x * pitch(tile_size.x, atlas_tile_size_factor, padding.inner.x),
        span(atlas_pixel_size.y, padding.topleft.y, padding.bottomright.y, padding.inner.y)
            == n_tiles.y * pitch(tile_size.y, atlas_tile_size_factor, padding.inner.y),
    ensures
        derive_spec(atlas_pixel_size, tile_size, atlas_tile_size_factor, padding, None) == Ok::<
            UVec2,
            ConfigError,
        >(n_tiles),
{
    lemma_exact_fit_is_accepted(
        Axis::X,
        atlas_pixel_size.x,
        tile_size.x,
        atlas_tile_size_factor,
        padding.inner.x,
        padding.topleft.x,
        padding.bottomright.x,
        n_tiles.x,
    );
    lemma_exact_fit_is_accepted(
        Axis::Y,
        atlas_pixel_size.y,
        tile_size.y,
        atlas_tile_size_factor,
        padding.inner.y,
        padding.topleft.y,
        padding.bottomright.y,
        n_tiles.y,
    );
}

/// Where no tile grid is forced and the span along an axis is, in pitches,
/// further than the tolerance from every whole number, the atlas is refused
/// with a refusal that names an axis: the x axis if it is off along x,
/// the y axis if it is off along y alone.
pub proof fn lemma_off_tolerance_names_the_axis(
    atlas_pixel_size: UVec2,
    tile_size: UVec2,
    atlas_tile_size_factor: i32,
    padding: Padding,
)
    ensures
        ({
            let r = derive_spec(atlas_pixel_size, tile_size, atlas_tile_size_factor, padding, None);
            let nx = span(
                atlas_pixel_size.x,
                padding.topleft.x,
                padding.bottomright.x,
                padding.inner.x,
            );
            let dx = pitch(tile_size.x, atlas_tile_size_factor, padding.inner.x);
            let ny = span(
                atlas_pixel_size.y,
                padding.topleft.y,
                padding.bottomright.y,
                padding.inner.y,
            );
            let dy = pitch(tile_size.y, atlas_tile_size_factor, padding.inner.y);
            &&& (forall|q: int| !within_tolerance(nx, dx, q)) ==> r == Err::<UVec2, ConfigError>(
                ConfigError::AtlasMisfit {
                    axis: Axis::X,
                    numerator: nx as i64,
                    denominator: dx as i64,
                },
            )
            &&& slices(nx, dx) && (forall|q: int| !within_tolerance(ny, dy, q)) ==> r == Err::<
                UVec2,
                ConfigError,
            >(
                ConfigError::AtlasMisfit {
                    axis: Axis::Y,
                    numerator: ny as i64,
                    denominator: dy as i64,
                },
            )
        }),
{
}

/// A forced tile grid is the result, whatever the other measurements are.
pub proof fn lemma_forced_grid_bypasses_inference(
    atlas_pixel_size: UVec2,
    tile_size: UVec2,
    atlas_tile_size_factor: i32,
    padding: Padding,
    n_tiles: UVec2,
)
    ensures
        derive_spec(atlas_pixel_size, tile_size, atlas_tile_size_factor, padding, Some(n_tiles))
            == Ok::<UVec2, ConfigError>(n_tiles),
{
}

/// Number of tiles along one axis of an atlas of `atlas` units, with tiles of
/// `tile * factor` units, `inner` units between them, and `topleft` and
/// `bottomright` units around them.
pub fn tiles_along(
    axis: Axis,
    atlas: u32,
    tile: u32,
    factor: i32,
    inner: u32,
    topleft: u32,
    bottomright: u32,
) -> (r: Result<u32, ConfigError>)
    ensures
        r == tiles_along_spec(axis, atlas, tile, factor, inner, topleft, bottomright),
{
    let n: i128 = (atlas as i128) - (topleft as i128) - (bottomright as i128) + (inner as i128);
    assert(-0x8000_0000_0000_0000 < tile * factor < 0x7fff_ffff_0000_0000) by (nonlinear_arith)
        requires
            0 <= tile <= 0xffff_ffff,
            -0x8000_0000 <= factor <= 0x7fff_ffff,
    ;
    let d: i128 = (tile as i128) * (factor as i128) + (inner as i128);
    let refusal = ConfigError::AtlasMisfit { axis, numerator: n as i64, denominator: d as i64 };
    if d <= 0 {
        return Err(refusal);
    }
    let q: i128 = floor_quotient(2 * n + d, 2 * d);
    if q < 0 || q > u32::MAX as i128 {
        return Err(refusal);
    }
    assert(-0x1_0000_0000_0000_0000_0000_0000 <= q * d <= 0x1_0000_0000_0000_0000_0000_0000)
        by (nonlinear_arith)
        requires
            0 <= q <= 0xffff_ffff,
            0 < d <= 0x7fff_ffff_ffff_ffff,
    ;
    let gap: i128 = n - q * d;
    proof {
        lemma_product_bound(
            gap as int,
            TOLERANCE_DIVISOR as int,
            0x2_0000_0000_0000_0000_0000_0000,
            100,
        );
    }
    let miss: i128 = gap * (TOLERANCE_DIVISOR as i128);
    if miss < -d || miss > d {
        return Err(refusal);
    }
    Ok(q as u32)
}

impl AtlasLayout {
    /// Number of tiles of the atlas along each axis. A forced tile grid is
    /// taken as it is, whatever the other measurements are. Otherwise the
    /// count along each axis is derived from them, and refused where the
    /// atlas does not slice; where neither axis slices, the refusal names the
    /// x axis.
    pub fn derive(
        atlas_pixel_size: UVec2,
        tile_size: UVec2,
        atlas_tile_size_factor: i32,
        padding: Padding,
        force_n_tiles: Option<UVec2>,
    ) -> (r: Result<UVec2, ConfigError>)
        ensures
            r == derive_spec(
                atlas_pixel_size,
                tile_size,
                atlas_tile_size_factor,
                padding,
                force_n_tiles,
            ),
            force_n_tiles is Some ==> r == Ok::<UVec2, ConfigError>(force_n_tiles->Some_0),
    {
        if let Some(n_tiles) = force_n_tiles {
            return Ok(n_tiles);
        }
        let nx = tiles_along(
            Axis::X,
            atlas_pixel_size.x,
            tile_size.x,
            atlas_tile_size_factor,
            padding.inner.x,
            padding.topleft.x,
            padding.bottomright.x,
        );
        let ny = tiles_along(
            Axis::Y,
            atlas_pixel_size.y,
            tile_size.y,
            atlas_tile_size_factor,
            padding.inner.y,
            padding.topleft.y,
            padding.bottomright.y,
        );
        match (nx, ny) {
            (Err(e), _) => Err(e),
            (Ok(_), Err(e)) => Err(e),
            (Ok(x), Ok(y)) => Ok(UVec2 { x, y }),
        }
    }

    /// The sum over the four corners of a `map_size` map of the world x of
    /// the corner, scaled by the width of a tile.
    pub open spec fn world_width(map_size: UVec2, tile_size: UVec2, projection: TileProjection) -> int {
        tile_size.x * (projection.world_x(0, 0) + projection.world_x(map_size.x as int, 0)
            + projection.world_x(0, map_size.y as int) + projection.world_x(
            map_size.x as int,
            map_size.y as int,
        ))
    }

    /// The sum over the four corners of a `map_size` map of the world y of
    /// the corner, scaled by the height of a tile.
    pub open spec fn world_height(map_size: UVec2, tile_size: UVec2, projection: TileProjection) -> int {
        tile_size.y * (projection.world_y(0, 0) + projection.world_y(map_size.x as int, 0)
            + projection.world_y(0, map_size.y as int) + projection.world_y(
            map_size.x as int,
            map_size.y as int,
        ))
    }

    /// The extent of every map fits the coordinates of a world offset.
    pub proof fn lemma_world_size_fits(
        map_size: UVec2,
        tile_size: UVec2,
        projection: TileProjection,
    )
        requires
            projection.wf(),
        ensures
            i128::MIN <= Self::world_width(map_size, tile_size, projection) <= i128::MAX,
            i128::MIN <= Self::world_height(map_size, tile_size, projection) <= i128::MAX,
    {
        projection.lemma_wf();
        let basis = projection.spec_basis();
        let res = projection.spec_resolution() as int;
        let ax = projection.spec_anchor().x as int;
        let ay = projection.spec_anchor().y as int;
        let w = map_size.x as int;
        let h = map_size.y as int;
        assert(0 <= res * w <= 0xffff_0000_0000 && 0 <= res * h <= 0xffff_0000_0000)
            by (nonlinear_arith)
            requires
                0 <= res <= 0xffff,
                0 <= w <= 0xffff_ffff,
                0 <= h <= 0xffff_ffff,
        ;
        let vx = 2 * (res * w) + 4 * ax;
        let vy = 2 * (res * h) + 4 * ay;
        lemma_corner_sum(basis.x_step.x as int, basis.y_step.x as int, res, w, h, ax, ay);
        lemma_corner_sum(basis.x_step.y as int, basis.y_step.y as int, res, w, h, ax, ay);
        lemma_product_bound(basis.x_step.x as int, vx, 0x8000, 0x2_0000_0000_0000);
        lemma_product_bound(basis.y_step.x as int, vy, 0x8000, 0x2_0000_0000_0000);
        lemma_product_bound(basis.x_step.y as int, vx, 0x8000, 0x2_0000_0000_0000);
        lemma_product_bound(basis.y_step.y as int, vy, 0x8000, 0x2_0000_0000_0000);
        let sx = basis.x_step.x * vx + basis.y_step.x * vy;
        let sy = basis.x_step.y * vx + basis.y_step.y * vy;
        lemma_product_bound(tile_size.x as int, sx, 0xffff_ffff, 0x1_0000_0000_0000_0000_0000);
        lemma_product_bound(tile_size.y as int, sy, 0xffff_ffff, 0x1_0000_0000_0000_0000_0000);
    }

    /// The extent of a map in the world: the projection applied to each of
    /// the four corners of the map, `(0, 0)`, `(w, 0)`, `(0, h)` and `(w, h)`,
    /// the four offsets added up, and each axis scaled by the size of a tile
    /// along it.
    pub fn world_size(map_size: UVec2, tile_size: UVec2, projection: &TileProjection) -> (r:
        WorldOffset)
        ensures
            r.x == Self::world_width(map_size, tile_size, *projection),
            r.y == Self::world_height(map_size, tile_size, *projection),
    {
        let basis = projection.basis();
        let anchor = projection.tile_anchor_point();
        let res: i128 = projection.resolution() as i128;
        let w: i128 = map_size.x as i128;
        let h: i128 = map_size.y as i128;
        assert(0 <= res * w <= 0xffff_0000_0000 && 0 <= res * h <= 0xffff_0000_0000)
            by (nonlinear_arith)
            requires
                0 <= res <= 0xffff,
                0 <= w <= 0xffff_ffff,
                0 <= h <= 0xffff_ffff,
        ;
        let vx: i128 = 2 * (res * w) + 4 * (anchor.x as i128);
        let vy: i128 = 2 * (res * h) + 4 * (anchor.y as i128);
        let sx: i128 = corner_sum(basis.x_step.x, vx, basis.y_step.x, vy);
        let sy: i128 = corner_sum(basis.x_step.y, vx, basis.y_step.y, vy);
        proof {
            lemma_corner_sum(
                basis.x_step.x as int,
                basis.y_step.x as int,
                res as int,
                w as int,
                h as int,
                anchor.x as int,
                anchor.y as int,
            );
            lemma_corner_sum(
                basis.x_step.y as int,
                basis.y_step.y as int,
                res as int,
                w as int,
                h as int,
                anchor.x as int,
                anchor.y as int,
            );
            lemma_product_bound(tile_size.x as int, sx as int, 0xffff_ffff, 0x1_0000_0000_0000_0000_0000);
            lemma_product_bound(tile_size.y as int, sy as int, 0xffff_ffff, 0x1_0000_0000_0000_0000_0000);
        }
        WorldOffset { x: (tile_size.x as i128) * sx, y: (tile_size.y as i128) * sy }
    }

    /// The layout of a `map_size` map of `tile_size` tiles, with the tile size
    /// taken as it is, no padding, the tile grid of the atlas to be derived,
    /// and no extent yet.
    pub fn new(map_size: UVec2, tile_size: UVec2) -> (r: AtlasLayout)
        ensures
            r == (AtlasLayout {
                map_size,
                tile_size,
                atlas_tile_size_factor: 1,
                inner_padding: UVec2 { x: 0, y: 0 },
                outer_padding_topleft: UVec2 { x: 0, y: 0 },
                outer_padding_bottomright: UVec2 { x: 0, y: 0 },
                force_n_tiles: None,
                world_size: WorldOffset { x: 0, y: 0 },
            }),
    {
        AtlasLayout {
            map_size,
            tile_size,
            atlas_tile_size_factor: 1,
            inner_padding: UVec2 { x: 0, y: 0 },
            outer_padding_topleft: UVec2 { x: 0, y: 0 },
            outer_padding_bottomright: UVec2 { x: 0, y: 0 },
            force_n_tiles: None,
            world_size: WorldOffset { x: 0, y: 0 },
        }
    }

    /// The padding of this layout.
    pub open spec fn padding_spec(self) -> Padding {
        Padding {
            inner: self.inner_padding,
            topleft: self.outer_padding_topleft,
            bottomright: self.outer_padding_bottomright,
        }
    }

    /// The padding of this layout.
    pub fn padding(&self) -> (r: Padding)
        ensures
            r == self.padding_spec(),
    {
        Padding {
            inner: self.inner_padding,
            topleft: self.outer_padding_topleft,
            bottomright: self.outer_padding_bottomright,
        }
    }

    /// Number of tiles along each axis of an atlas of `atlas_pixel_size` that
    /// is laid out like this.
    pub fn n_tiles(&self, atlas_pixel_size: UVec2) -> (r: Result<UVec2, ConfigError>)
        ensures
            r == derive_spec(
                atlas_pixel_size,
                self.tile_size,
                self.atlas_tile_size_factor,
                self.padding_spec(),
                self.force_n_tiles,
            ),
    {
        Self::derive(
            atlas_pixel_size,
            self.tile_size,
            self.atlas_tile_size_factor,
            self.padding(),
            self.force_n_tiles,
        )
    }

    /// Derives the extent of the map anew from its size, the size of a tile
    /// and `projection`. Nothing else changes.
    pub fn update_world_size(&mut self, projection: &TileProjection)
        ensures
            final(self).world_size.x == Self::world_width(
                old(self).map_size,
                old(self).tile_size,
                *projection,
            ),
            final(self).world_size.y == Self::world_height(
                old(self).map_size,
                old(self).tile_size,
                *projection,
            ),
            *final(self) == (AtlasLayout { world_size: final(self).world_size, ..*old(self) }),
    {
        self.world_size = Self::world_size(self.map_size, self.tile_size, projection);
    }
}

/// `a * p + b * q` for the doubled corner of a map.
fn corner_sum(a: i16, p: i128, b: i16, q: i128) -> (r: i128)
    requires
        0 <= p <= 0x2_0000_0000_0000,
        0 <= q <= 0x2_0000_0000_0000,
    ensures
        r == a * p + b * q,
        -0x1_0000_0000_0000_0000_0000 <= r <= 0x1_0000_0000_0000_0000_0000,
{
    proof {
        lemma_product_bound(a as int, p as int, 0x8000, 0x2_0000_0000_0000);
        lemma_product_bound(b as int, q as int, 0x8000, 0x2_0000_0000_0000);
    }
    (a as i128) * p + (b as i128) * q
}

/// One coordinate of the four projected corners of a `w` by `h` map adds up
/// to the projection of the doubled far corner, with four anchors.
proof fn lemma_corner_sum(a: int, b: int, res: int, w: int, h: int, ax: int, ay: int)
    ensures
        (a * (res * 0 + ax) + b * (res * 0 + ay)) + (a * (res * w + ax) + b * (res * 0 + ay)) + (a
            * (res * 0 + ax) + b * (res * h + ay)) + (a * (res * w + ax) + b * (res * h + ay)) == a
            * (2 * (res * w) + 4 * ax) + b * (2 * (res * h) + 4 * ay),
{
    assert(res * 0 == 0);
    assert(a * (res * w + ax) == a * (res * w) + a * ax) by (nonlinear_arith);
    assert(b * (res * h + ay) == b * (res * h) + b * ay) by (nonlinear_arith);
    assert(a * (2 * (res * w) + 4 * ax) == 2 * (a * (res * w)) + 4 * (a * ax)) by (nonlinear_arith);
    assert(b * (2 * (res * h) + 4 * ay) == 2 * (b * (res * h)) + 4 * (b * ay)) by (nonlinear_arith);
}

} // verus!
