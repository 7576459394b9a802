//! The invertible linear map from grid cells to world offsets.
//!
//! The basis of a projection gives, in world units, the offset of one step
//! from a cell to the next along each axis of the grid. The anchor of a tile
//! is a point of the footprint of its cell, given as a fraction of the cell
//! along each grid axis. To keep fractions exact, a projection has a
//! resolution `r`: the anchor is given in `r`-ths of a cell, and world offsets
//! are counted in sub-steps, `r` of them to a world unit. The anchor of the
//! tile in cell `c` then lies at `basis * (r * c + anchor)` sub-steps.
//!
//! The inverse of the basis is held as its adjugate and its determinant, and
//! the cell of a world offset is found by a division that rounds down.

use crate::arith::{floor_div, floor_quotient, lemma_product_bound, lemma_quotient_bounds};
use crate::error::ConfigError;
use crate::geometry::{GridCoord, WorldOffset};
use vstd::arithmetic::div_mod::lemma_fundamental_div_mod_converse;
use vstd::prelude::*;

verus! {

/// The world offset, in world units, of one step along a grid axis.
#[derive(Clone, Copy, Debug, PartialEq, Eq, Structural)]
pub struct Step {
    pub x: i16,
    pub y: i16,
}

/// A 2x2 linear map, given by the images of the two unit grid steps.
#[derive(Clone, Copy, Debug, PartialEq, Eq, Structural)]
pub struct Basis {
    /// Image of one step along the grid's x axis.
    pub x_step: Step,
    /// Image of one step along the grid's y axis.
    pub y_step: Step,
}

/// The anchor of a tile within the footprint of its cell, along each grid
/// axis, in parts of a cell: with resolution `r`, an anchor of `a` lies `a / r`
/// of the way from the origin of the cell to its far edge.
#[derive(Clone, Copy, Debug, PartialEq, Eq, Structural)]
pub struct Anchor {
    pub x: u16,
    pub y: u16,
}

/// The inverse of a basis with determinant `det`, held exactly as the
/// adjugate: the inverse maps a world offset `w` to `adjugate * w / det`.
#[derive(Clone, Copy, Debug, PartialEq, Eq, Structural)]
pub struct InverseBasis {
    pub xx: i32,
    pub xy: i32,
    pub yx: i32,
    pub yy: i32,
    pub det: i64,
}

/// A projection from grid cells to world offsets, with its inverse.
#[derive(Clone, Copy, Debug)]
pub struct TileProjection {
    basis: Basis,
    anchor: Anchor,
    resolution: u16,
    inverse: InverseBasis,
}

/// Largest magnitude of a world coordinate that [`TileProjection::invert`]
/// looks at closely. Every offset that some cell is projected to lies well
/// within it.
pub const WORLD_REACH: i128 = 0x4_0000_0000_0000_0000_0000_0000;

impl Basis {
    /// The determinant `x_step.x * y_step.y - y_step.x * x_step.y`.
    pub open spec fn det(self) -> int {
        self.x_step.x * self.y_step.y - self.y_step.x * self.x_step.y
    }

    /// The adjugate of the basis, which is `det` times its inverse.
    pub open spec fn adjugate(self) -> InverseBasis {
        InverseBasis {
            xx: self.y_step.y as i32,
            xy: (-self.y_step.x) as i32,
            yx: (-self.x_step.y) as i32,
            yy: self.x_step.x as i32,
            det: self.det() as i64,
        }
    }

    /// The determinant of a basis fits in 32 bits.
    pub proof fn lemma_det_bounds(self)
        ensures
            -0x8000_0000 < self.det() < 0x8000_0000,
    {
        let a = self.x_step.x as int;
        let b = self.y_step.x as int;
        let c = self.x_step.y as int;
        let d = self.y_step.y as int;
        assert(-0x8000 * 0x7fff <= a * d <= 0x4000_0000) by (nonlinear_arith)
            requires
                -0x8000 <= a <= 0x7fff,
                -0x8000 <= d <= 0x7fff,
        ;
        assert(-0x8000 * 0x7fff <= b * c <= 0x4000_0000) by (nonlinear_arith)
            requires
                -0x8000 <= b <= 0x7fff,
                -0x8000 <= c <= 0x7fff,
        ;
    }

    /// The basis under which a step in the grid is the same step in the
    /// world.
    pub open spec fn identity_spec() -> Basis {
        Basis { x_step: Step { x: 1, y: 0 }, y_step: Step { x: 0, y: 1 } }
    }

    /// The basis under which a step in the grid is the same step in the
    /// world.
    pub fn identity() -> (r: Basis)
        ensures
            r == Self::identity_spec(),
    {
        Basis { x_step: Step { x: 1, y: 0 }, y_step: Step { x: 0, y: 1 } }
    }

    /// The determinant of the basis.
    pub fn determinant(&self) -> (r: i64)
        ensures
            r == self.det(),
    {
        let a: i64 = self.x_step.x as i64;
        let b: i64 = self.y_step.x as i64;
        let c: i64 = self.x_step.y as i64;
        let d: i64 = self.y_step.y as i64;
        assert(-0x4000_0000 <= a * d <= 0x4000_0000) by (nonlinear_arith)
            requires
                -0x8000 <= a <= 0x7fff,
                -0x8000 <= d <= 0x7fff,
        ;
        assert(-0x4000_0000 <= b * c <= 0x4000_0000) by (nonlinear_arith)
            requires
                -0x8000 <= b <= 0x7fff,
                -0x8000 <= c <= 0x7fff,
        ;
        a * d - b * c
    }
}

impl TileProjection {
    /// The basis is invertible, the cached inverse belongs to it, and the
    /// anchor lies within the footprint of a cell.
    #[verifier::type_invariant]
    pub closed spec fn wf(self) -> bool {
        &&& self.basis.det() != 0
        &&& self.inverse == self.basis.adjugate()
        &&& self.resolution > 0
        &&& self.anchor.x <= self.resolution
        &&& self.anchor.y <= self.resolution
    }

    /// The basis of the projection.
    pub closed spec fn spec_basis(self) -> Basis {
        self.basis
    }

    /// The anchor point, in parts of a cell.
    pub closed spec fn spec_anchor(self) -> Anchor {
        self.anchor
    }

    /// The number of parts that a cell is divided into along each axis, and
    /// of sub-steps to a world unit.
    pub closed spec fn spec_resolution(self) -> u16 {
        self.resolution
    }

    /// The cached inverse.
    pub closed spec fn spec_inverse(self) -> InverseBasis {
        self.inverse
    }

    /// What well-formedness means in terms of the parts of the projection.
    pub proof fn lemma_wf(self)
        ensures
            self.wf() <==> {
                &&& self.spec_basis().det() != 0
                &&& self.spec_inverse() == self.spec_basis().adjugate()
                &&& self.spec_resolution() > 0
                &&& self.spec_anchor().x <= self.spec_resolution()
                &&& self.spec_anchor().y <= self.spec_resolution()
            },
    {
    }

    /// World x, in sub-steps, of the anchor of the tile in cell `(gx, gy)`.
    pub open spec fn world_x(self, gx: int, gy: int) -> int {
        self.spec_basis().x_step.x * (self.spec_resolution() * gx + self.spec_anchor().x)
            + self.spec_basis().y_step.x * (self.spec_resolution() * gy + self.spec_anchor().y)
    }

    /// World y, in sub-steps, of the anchor of the tile in cell `(gx, gy)`.
    pub open spec fn world_y(self, gx: int, gy: int) -> int {
        self.spec_basis().x_step.y * (self.spec_resolution() * gx + self.spec_anchor().x)
            + self.spec_basis().y_step.y * (self.spec_resolution() * gy + self.spec_anchor().y)
    }

    /// Grid x of the cell whose footprint holds the world offset `(wx, wy)`:
    /// the x component of the inverse basis applied to the offset, in whole
    /// cells, rounded down.
    pub open spec fn grid_x(self, wx: int, wy: int) -> int {
        floor_div(
            self.spec_basis().y_step.y * wx - self.spec_basis().y_step.x * wy,
            self.spec_basis().det() * self.spec_resolution(),
        )
    }

    /// Grid y of the cell whose footprint holds the world offset `(wx, wy)`.
    pub open spec fn grid_y(self, wx: int, wy: int) -> int {
        floor_div(
            self.spec_basis().x_step.x * wy - self.spec_basis().x_step.y * wx,
            self.spec_basis().det() * self.spec_resolution(),
        )
    }

    /// Whether `basis`, `anchor` and `resolution` make a projection.
    pub open spec fn accepts(basis: Basis, anchor: Anchor, resolution: u16) -> bool {
        basis.det() != 0 && resolution > 0 && anchor.x <= resolution && anchor.y <= resolution
    }

    /// The projection with the given basis, whose tiles are anchored `anchor`
    /// parts into their cell, a cell having `resolution` parts along each
    /// axis. A singular basis is refused, and so is an anchor beyond the cell
    /// or a resolution of zero.
    pub fn new(basis: Basis, anchor: Anchor, resolution: u16) -> (r: Result<
        TileProjection,
        ConfigError,
    >)
        ensures
            Self::accepts(basis, anchor, resolution) <==> r is Ok,
            r is Ok ==> {
                &&& r->Ok_0.wf()
                &&& r->Ok_0.spec_basis() == basis
                &&& r->Ok_0.spec_anchor() == anchor
                &&& r->Ok_0.spec_resolution() == resolution
                &&& r->Ok_0.spec_inverse() == basis.adjugate()
            },
            basis.det() == 0 ==> r == Err::<TileProjection, ConfigError>(ConfigError::SingularBasis),
            basis.det() != 0 && !Self::accepts(basis, anchor, resolution) ==> r == Err::<
                TileProjection,
                ConfigError,
            >(ConfigError::AnchorOutOfRange),
    {
        let det: i64 = basis.determinant();
        if det == 0 {
            return Err(ConfigError::SingularBasis);
        }
        if resolution == 0 || anchor.x > resolution || anchor.y > resolution {
            return Err(ConfigError::AnchorOutOfRange);
        }
        let inverse = InverseBasis {
            xx: basis.y_step.y as i32,
            xy: -(basis.y_step.x as i32),
            yx: -(basis.x_step.y as i32),
            yy: basis.x_step.x as i32,
            det,
        };
        Ok(TileProjection { basis, anchor, resolution, inverse })
    }

    /// The projection that maps every cell to the world offset with the same
    /// coordinates, anchored at the cell's origin.
    pub fn identity() -> (r: TileProjection)
        ensures
            r.wf(),
            r.spec_basis() == Basis::identity_spec(),
            r.spec_anchor() == (Anchor { x: 0, y: 0 }),
            r.spec_resolution() == 1,
            r.spec_inverse() == r.spec_basis().adjugate(),
    {
        TileProjection {
            basis: Basis { x_step: Step { x: 1, y: 0 }, y_step: Step { x: 0, y: 1 } },
            anchor: Anchor { x: 0, y: 0 },
            resolution: 1,
            inverse: InverseBasis { xx: 1, xy: 0, yx: 0, yy: 1, det: 1 },
        }
    }

    /// The basis of the projection.
    pub fn basis(&self) -> (r: Basis)
        ensures
            r == self.spec_basis(),
    {
        self.basis
    }

    /// The anchor point, in parts of a cell.
    pub fn tile_anchor_point(&self) -> (r: Anchor)
        ensures
            r == self.spec_anchor(),
    {
        self.anchor
    }

    /// The number of parts that a cell is divided into along each axis, and
    /// of sub-steps to a world unit.
    pub fn resolution(&self) -> (r: u16)
        ensures
            r == self.spec_resolution(),
    {
        self.resolution
    }

    /// The inverse of the basis, as computed when the projection was made.
    pub fn inverse_basis(&self) -> (r: InverseBasis)
        ensures
            r == self.spec_inverse(),
            r == self.spec_basis().adjugate(),
            r.det != 0,
    {
        proof {
            use_type_invariant(self);
            self.basis.lemma_det_bounds();
        }
        self.inverse
    }

    /// The world offset of the anchor of the tile in cell `cell`: the basis
    /// applied to the cell, moved on to the anchor within its footprint.
    pub fn forward(&self, cell: GridCoord) -> (r: WorldOffset)
        ensures
            r.x == self.world_x(cell.x as int, cell.y as int),
            r.y == self.world_y(cell.x as int, cell.y as int),
            -WORLD_REACH < r.x < WORLD_REACH,
            -WORLD_REACH < r.y < WORLD_REACH,
    {
        proof {
            use_type_invariant(self);
        }
        let res: i128 = self.resolution as i128;
        assert(-0x1_0000_0000_0000_0000_0000 <= res * cell.x <= 0x1_0000_0000_0000_0000_0000)
            by (nonlinear_arith)
            requires
                0 <= res <= 0xffff,
                -0x8000_0000_0000_0000 <= cell.x <= 0x7fff_ffff_ffff_ffff,
        ;
        assert(-0x1_0000_0000_0000_0000_0000 <= res * cell.y <= 0x1_0000_0000_0000_0000_0000)
            by (nonlinear_arith)
            requires
                0 <= res <= 0xffff,
                -0x8000_0000_0000_0000 <= cell.y <= 0x7fff_ffff_ffff_ffff,
        ;
        let vx: i128 = res * (cell.x as i128) + (self.anchor.x as i128);
        let vy: i128 = res * (cell.y as i128) + (self.anchor.y as i128);
        let x: i128 = scaled_sum(self.basis.x_step.x, vx, self.basis.y_step.x, vy);
        let y: i128 = scaled_sum(self.basis.x_step.y, vx, self.basis.y_step.y, vy);
        WorldOffset { x, y }
    }

    /// The cell whose footprint holds `offset`, if its coordinates can be
    /// represented.
    pub open spec fn cell_of(self, wx: int, wy: int) -> Option<GridCoord> {
        let gx = self.grid_x(wx, wy);
        let gy = self.grid_y(wx, wy);
        if i64::MIN <= gx <= i64::MAX && i64::MIN <= gy <= i64::MAX {
            Some(GridCoord { x: gx as i64, y: gy as i64 })
        } else {
            None
        }
    }

    /// The cell whose footprint holds the world offset `offset`: the inverse
    /// basis applied to the offset, in whole cells, rounded down. `None` when
    /// the cell lies beyond the range of grid coordinates.
    pub fn invert(&self, offset: WorldOffset) -> (r: Option<GridCoord>)
        ensures
            r == self.cell_of(offset.x as int, offset.y as int),
    {
        proof {
            use_type_invariant(self);
            self.basis.lemma_det_bounds();
        }
        if offset.x <= -WORLD_REACH || offset.x >= WORLD_REACH || offset.y <= -WORLD_REACH
            || offset.y >= WORLD_REACH {
            proof {
                self.lemma_far_offsets_have_no_cell(offset.x as int, offset.y as int);
            }
            return None;
        }
        let res: i128 = self.resolution as i128;
        let det: i128 = self.inverse.det as i128;
        let nx: i128 = scaled_sum_wide(self.inverse.xx, offset.x, self.inverse.xy, offset.y);
        let ny: i128 = scaled_sum_wide(self.inverse.yx, offset.x, self.inverse.yy, offset.y);
        assert(-0x8000_0000_0000 <= det * res <= 0x8000_0000_0000 && (det > 0 ==> det * res > 0) && (det
            < 0 ==> det * res < 0)) by (nonlinear_arith)
            requires
                -0x8000_0000 < det < 0x8000_0000,
                0 < res <= 0xffff,
        ;
        let gx: i128;
        let gy: i128;
        if det > 0 {
            gx = floor_quotient(nx, det * res);
            gy = floor_quotient(ny, det * res);
        } else {
            gx = floor_quotient(-nx, -(det * res));
            gy = floor_quotient(-ny, -(det * res));
        }
        proof {
            lemma_signed_denominator(det as int, res as int);
            assert(self.inverse.xx == self.basis.y_step.y);
            assert(self.inverse.xy == -self.basis.y_step.x);
            assert(self.inverse.yx == -self.basis.x_step.y);
            assert(self.inverse.yy == self.basis.x_step.x);
            assert(nx == self.basis.y_step.y * offset.x - self.basis.y_step.x * offset.y)
                by (nonlinear_arith)
                requires
                    nx == self.inverse.xx * offset.x + self.inverse.xy * offset.y,
                    self.inverse.xx == self.basis.y_step.y,
                    self.inverse.xy == -self.basis.y_step.x,
            ;
            assert(ny == self.basis.x_step.x * offset.y - self.basis.x_step.y * offset.x)
                by (nonlinear_arith)
                requires
                    ny == self.inverse.yx * offset.x + self.inverse.yy * offset.y,
                    self.inverse.yx == -self.basis.x_step.y,
                    self.inverse.yy == self.basis.x_step.x,
            ;
            assert(det == self.basis.det());
        }
        assert(gx == self.grid_x(offset.x as int, offset.y as int));
        assert(gy == self.grid_y(offset.x as int, offset.y as int));
        if gx < i64::MIN as i128 || gx > i64::MAX as i128 || gy < i64::MIN as i128 || gy
            > i64::MAX as i128 {
            None
        } else {
            Some(GridCoord { x: gx as i64, y: gy as i64 })
        }
    }

    /// A world offset with a coordinate of magnitude [`WORLD_REACH`] or more
    /// lies in no cell whose coordinates can be represented.
    pub proof fn lemma_far_offsets_have_no_cell(self, wx: int, wy: int)
        requires
            self.wf(),
            wx <= -WORLD_REACH || wx >= WORLD_REACH || wy <= -WORLD_REACH || wy >= WORLD_REACH,
        ensures
            self.cell_of(wx, wy) is None,
    {
        let a = self.basis.x_step.x as int;
        let b = self.basis.y_step.x as int;
        let c = self.basis.x_step.y as int;
        let d = self.basis.y_step.y as int;
        let res = self.resolution as int;
        let det = self.basis.det();
        self.basis.lemma_det_bounds();
        let gx = self.grid_x(wx, wy);
        let gy = self.grid_y(wx, wy);
        if i64::MIN <= gx <= i64::MAX && i64::MIN <= gy <= i64::MAX {
            let m: int = if det > 0 { det } else { -det };
            let big: int = m * res;
            let px: int = d * wx - b * wy;
            let py: int = a * wy - c * wx;
            let nx: int = if det > 0 { px } else { -px };
            let ny: int = if det > 0 { py } else { -py };
            lemma_signed_denominator(det, res);
            assert(gx == nx / big);
            assert(gy == ny / big);
            lemma_quotient_bounds(nx, big, gx);
            lemma_quotient_bounds(ny, big, gy);
            let lim: int = 0x8000_0000_0000_0000 * big;
            assert(-lim <= nx <= lim && -lim <= ny <= lim) by (nonlinear_arith)
                requires
                    gx * big <= nx < (gx + 1) * big,
                    gy * big <= ny < (gy + 1) * big,
                    -0x8000_0000_0000_0000 <= gx <= 0x7fff_ffff_ffff_ffff,
                    -0x8000_0000_0000_0000 <= gy <= 0x7fff_ffff_ffff_ffff,
                    big > 0,
                    lim == 0x8000_0000_0000_0000 * big,
            ;
            lemma_basis_times_adjugate(a, b, c, d, wx, wy);
            assert(a * px + b * py == det * wx);
            assert(c * px + d * py == det * wy);
            lemma_product_bound(a, px, 0x8000, lim);
            lemma_product_bound(b, py, 0x8000, lim);
            lemma_product_bound(c, px, 0x8000, lim);
            lemma_product_bound(d, py, 0x8000, lim);
            let cap: int = 2 * (0x8000 * lim);
            assert(-cap <= det * wx <= cap);
            assert(-cap <= det * wy <= cap);
            assert(cap <= m * 0x1_0000_0000_0000_0000_0000_0000) by (nonlinear_arith)
                requires
                    cap == 2 * (0x8000 * lim),
                    lim == 0x8000_0000_0000_0000 * big,
                    big == m * res,
                    0 < res <= 0xffff,
                    m > 0,
            ;
            lemma_divide_bound(det, wx, m, 0x1_0000_0000_0000_0000_0000_0000);
            lemma_divide_bound(det, wy, m, 0x1_0000_0000_0000_0000_0000_0000);
        }
    }

    /// Projecting a cell and inverting the result gives the cell back,
    /// whenever the anchor lies inside the cell and not on its far edge.
    pub proof fn lemma_invert_forward(self, gx: int, gy: int)
        requires
            self.wf(),
            self.spec_anchor().x < self.spec_resolution(),
            self.spec_anchor().y < self.spec_resolution(),
        ensures
            self.grid_x(self.world_x(gx, gy), self.world_y(gx, gy)) == gx,
            self.grid_y(self.world_x(gx, gy), self.world_y(gx, gy)) == gy,
            i64::MIN <= gx <= i64::MAX && i64::MIN <= gy <= i64::MAX ==> self.cell_of(
                self.world_x(gx, gy),
                self.world_y(gx, gy),
            ) == Some(GridCoord { x: gx as i64, y: gy as i64 }),
    {
        let a = self.basis.x_step.x as int;
        let b = self.basis.y_step.x as int;
        let c = self.basis.x_step.y as int;
        let d = self.basis.y_step.y as int;
        let res = self.resolution as int;
        let ax = self.anchor.x as int;
        let ay = self.anchor.y as int;
        let det = self.basis.det();
        let vx = res * gx + ax;
        let vy = res * gy + ay;
        let wx = self.world_x(gx, gy);
        let wy = self.world_y(gx, gy);
        let m: int = if det > 0 { det } else { -det };
        let big: int = m * res;
        lemma_adjugate_times_basis(a, b, c, d, vx, vy);
        assert(d * wx - b * wy == det * vx);
        assert(a * wy - c * wx == det * vy);
        lemma_signed_denominator(det, res);
        let nx: int = if det > 0 { det * vx } else { -(det * vx) };
        let ny: int = if det > 0 { det * vy } else { -(det * vy) };
        assert(self.grid_x(wx, wy) == nx / big);
        assert(self.grid_y(wx, wy) == ny / big);
        lemma_scaled_cell(m, res, gx, ax);
        lemma_scaled_cell(m, res, gy, ay);
        assert(nx == m * vx) by (nonlinear_arith)
            requires
                nx == (if det > 0 { det * vx } else { -(det * vx) }),
                m == (if det > 0 { det } else { -det }),
        ;
        assert(ny == m * vy) by (nonlinear_arith)
            requires
                ny == (if det > 0 { det * vy } else { -(det * vy) }),
                m == (if det > 0 { det } else { -det }),
        ;
        lemma_fundamental_div_mod_converse(nx, big, gx, m * ax);
        lemma_fundamental_div_mod_converse(ny, big, gy, m * ay);
    }
}

/// The adjugate undoes the basis up to the determinant.
proof fn lemma_adjugate_times_basis(a: int, b: int, c: int, d: int, vx: int, vy: int)
    ensures
        d * (a * vx + b * vy) - b * (c * vx + d * vy) == (a * d - b * c) * vx,
        a * (c * vx + d * vy) - c * (a * vx + b * vy) == (a * d - b * c) * vy,
{
    lemma_distribute(d, a * vx, b * vy);
    lemma_distribute(b, c * vx, d * vy);
    lemma_distribute(a, c * vx, d * vy);
    lemma_distribute(c, a * vx, b * vy);
    lemma_regroup(d, a, vx);
    lemma_regroup(d, b, vy);
    lemma_regroup(b, c, vx);
    lemma_regroup(b, d, vy);
    lemma_regroup(a, c, vx);
    lemma_regroup(a, d, vy);
    lemma_regroup(c, a, vx);
    lemma_regroup(c, b, vy);
    lemma_scale_difference(a * d, b * c, vx);
    lemma_scale_difference(a * d, b * c, vy);
    assert(d * a == a * d && c * a == a * c && c * b == b * c && b * d == d * b)
        by (nonlinear_arith);
}

/// The basis undoes the adjugate up to the determinant.
proof fn lemma_basis_times_adjugate(a: int, b: int, c: int, d: int, wx: int, wy: int)
    ensures
        a * (d * wx - b * wy) + b * (a * wy - c * wx) == (a * d - b * c) * wx,
        c * (d * wx - b * wy) + d * (a * wy - c * wx) == (a * d - b * c) * wy,
{
    lemma_distribute(a, d * wx, b * wy);
    lemma_distribute(b, a * wy, c * wx);
    lemma_distribute(c, d * wx, b * wy);
    lemma_distribute(d, a * wy, c * wx);
    lemma_regroup(a, d, wx);
    lemma_regroup(a, b, wy);
    lemma_regroup(b, a, wy);
    lemma_regroup(b, c, wx);
    lemma_regroup(c, d, wx);
    lemma_regroup(c, b, wy);
    lemma_regroup(d, a, wy);
    lemma_regroup(d, c, wx);
    lemma_scale_difference(a * d, b * c, wx);
    lemma_scale_difference(a * d, b * c, wy);
    assert(b * a == a * b && d * a == a * d && c * b == b * c && d * c == c * d)
        by (nonlinear_arith);
}

/// Multiplication distributes over a sum and over a difference.
proof fn lemma_distribute(k: int, x: int, y: int)
    ensures
        k * (x + y) == k * x + k * y,
        k * (x - y) == k * x - k * y,
{
    assert(k * (x + y) == k * x + k * y) by (nonlinear_arith);
    assert(k * (x - y) == k * x - k * y) by (nonlinear_arith);
}

/// A product of three factors can be grouped either way.
proof fn lemma_regroup(p: int, q: int, w: int)
    ensures
        p * (q * w) == (p * q) * w,
{
    assert(p * (q * w) == (p * q) * w) by (nonlinear_arith);
}

/// A difference times a factor is the difference of the products.
proof fn lemma_scale_difference(x: int, y: int, w: int)
    ensures
        (x - y) * w == x * w - y * w,
{
    assert((x - y) * w == x * w - y * w) by (nonlinear_arith);
}

/// The denominator `det * res` of the inverse has the sign of `det`.
proof fn lemma_signed_denominator(det: int, res: int)
    requires
        det != 0,
        res > 0,
    ensures
        det > 0 ==> det * res > 0,
        det < 0 ==> det * res < 0 && -(det * res) == (-det) * res && (-det) * res > 0,
{
    assert(det > 0 ==> det * res > 0) by (nonlinear_arith)
        requires
            res > 0,
    ;
    assert(det < 0 ==> det * res < 0 && -(det * res) == (-det) * res && (-det) * res > 0)
        by (nonlinear_arith)
        requires
            res > 0,
    ;
}

/// `m * (res * g + a)` is `g` times `m * res` with a remainder below `m * res`.
proof fn lemma_scaled_cell(m: int, res: int, g: int, a: int)
    requires
        m > 0,
        0 <= a < res,
    ensures
        m * (res * g + a) == g * (m * res) + m * a,
        0 <= m * a < m * res,
{
    assert(m * (res * g + a) == g * (m * res) + m * a) by (nonlinear_arith);
    assert(0 <= m * a < m * res) by (nonlinear_arith)
        requires
            m > 0,
            0 <= a < res,
    ;
}

/// From a bound on `det * w` in multiples of `|det|`, a bound on `w`.
proof fn lemma_divide_bound(det: int, w: int, m: int, bound: int)
    requires
        m > 0,
        m == det || m == -det,
        -(m * bound) <= det * w <= m * bound,
    ensures
        -bound <= w <= bound,
{
    assert(-bound <= w <= bound) by (nonlinear_arith)
        requires
            m > 0,
            m == det || m == -det,
            -(m * bound) <= det * w <= m * bound,
    ;
}

/// `a * p + b * q`, for the entries of an inverse basis and world coordinates
/// within reach.
fn scaled_sum_wide(a: i32, p: i128, b: i32, q: i128) -> (r: i128)
    requires
        -0x8000 <= a <= 0x8000,
        -0x8000 <= b <= 0x8000,
        -WORLD_REACH < p < WORLD_REACH,
        -WORLD_REACH < q < WORLD_REACH,
    ensures
        r == a * p + b * q,
        -0x4000_0000_0000_0000_0000_0000_0000_0000 <= r <= 0x4000_0000_0000_0000_0000_0000_0000_0000,
        -0x4000_0000_0000_0000_0000_0000_0000_0000 <= -r <= 0x4000_0000_0000_0000_0000_0000_0000_0000,
{
    proof {
        lemma_product_bound(a as int, p as int, 0x8000, WORLD_REACH as int);
        lemma_product_bound(b as int, q as int, 0x8000, WORLD_REACH as int);
    }
    (a as i128) * p + (b as i128) * q
}

/// `a * p + b * q`, for factors small enough that nothing overflows.
fn scaled_sum(a: i16, p: i128, b: i16, q: i128) -> (r: i128)
    requires
        -0x2_0000_0000_0000_0000_0000 <= p <= 0x2_0000_0000_0000_0000_0000,
        -0x2_0000_0000_0000_0000_0000 <= q <= 0x2_0000_0000_0000_0000_0000,
    ensures
        r == a * p + b * q,
        -WORLD_REACH < r < WORLD_REACH,
{
    assert(-0x1_0000_0000_0000_0000_0000_0000 <= a * p <= 0x1_0000_0000_0000_0000_0000_0000)
        by (nonlinear_arith)
        requires
            -0x8000 <= a <= 0x7fff,
            -0x2_0000_0000_0000_0000_0000 <= p <= 0x2_0000_0000_0000_0000_0000,
    ;
    assert(-0x1_0000_0000_0000_0000_0000_0000 <= b * q <= 0x1_0000_0000_0000_0000_0000_0000)
        by (nonlinear_arith)
        requires
            -0x8000 <= b <= 0x7fff,
            -0x2_0000_0000_0000_0000_0000 <= q <= 0x2_0000_0000_0000_0000_0000,
    ;
    (a as i128) * p + (b as i128) * q
}

} // verus!
