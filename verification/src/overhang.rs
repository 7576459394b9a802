//! How sprites that reach beyond their own cell are ordered against their
//! neighbours.
//!
//! A tile may overlap the eight cells around its own. Where two tiles
//! overlap, the one painted later covers the other. The policy of a map says
//! into which neighbouring cells a tile reaches, and which of two tiles is
//! painted first.

use crate::error::ConfigError;
use crate::geometry::GridCoord;
use crate::projection::TileProjection;
use vstd::prelude::*;

verus! {

/// A step from a cell to one of its eight neighbours. North is the direction
/// of growing grid y, east that of growing grid x.
#[derive(Clone, Copy, Debug, PartialEq, Eq, Structural)]
pub enum Direction {
    SouthWest,
    South,
    SouthEast,
    West,
    East,
    NorthWest,
    North,
    NorthEast,
}

/// A tile of the atlas placed in a cell of the grid.
#[derive(Clone, Copy, Debug, PartialEq, Eq, Structural)]
pub struct PlacedTile {
    /// The cell the tile stands in.
    pub cell: GridCoord,
    /// The index of the tile in the atlas.
    pub index: u32,
}

/// When the first of two tiles is painted, relative to the second.
#[derive(Clone, Copy, Debug, PartialEq, Eq, Structural)]
pub enum PaintOrder {
    /// The first tile is painted first, so that the second covers it.
    Before,
    /// Neither is painted before the other: both stand in the same cell and
    /// the policy does not tell them apart.
    Same,
    /// The first tile is painted after the second and covers it.
    After,
}

/// The overhang policy of a map.
#[derive(Debug, PartialEq, Eq)]
pub enum OverhangPolicy {
    /// Tiles never paint outside their own cell.
    NoOverhang,
    /// Tiles reach into all eight neighbouring cells, and a tile with a
    /// higher atlas index is painted over one with a lower index.
    Dominance,
    /// Tiles are painted by depth: a tile with a greater world y is further
    /// away and is painted first. A tile hangs under its neighbours in the
    /// underhang directions, and over those in the opposite directions.
    Perspective { underhang_directions: Vec<Direction> },
}

impl Direction {
    /// The step along the grid's x axis.
    pub open spec fn dx(self) -> int {
        match self {
            Direction::SouthWest | Direction::West | Direction::NorthWest => -1,
            Direction::South | Direction::North => 0,
            Direction::SouthEast | Direction::East | Direction::NorthEast => 1,
        }
    }

    /// The step along the grid's y axis.
    pub open spec fn dy(self) -> int {
        match self {
            Direction::SouthWest | Direction::South | Direction::SouthEast => -1,
            Direction::West | Direction::East => 0,
            Direction::NorthWest | Direction::North | Direction::NorthEast => 1,
        }
    }

    /// The direction that undoes this one.
    pub open spec fn antipode(self) -> Direction {
        match self {
            Direction::SouthWest => Direction::NorthEast,
            Direction::South => Direction::North,
            Direction::SouthEast => Direction::NorthWest,
            Direction::West => Direction::East,
            Direction::East => Direction::West,
            Direction::NorthWest => Direction::SouthEast,
            Direction::North => Direction::South,
            Direction::NorthEast => Direction::SouthWest,
        }
    }

    /// All eight directions, in row-major order of the neighbours they lead
    /// to.
    pub open spec fn all() -> Seq<Direction> {
        seq![
            Direction::SouthWest,
            Direction::South,
            Direction::SouthEast,
            Direction::West,
            Direction::East,
            Direction::NorthWest,
            Direction::North,
            Direction::NorthEast,
        ]
    }

    /// Whether `(dx, dy)` is a step to one of the eight neighbours.
    pub open spec fn is_step(dx: int, dy: int) -> bool {
        -1 <= dx <= 1 && -1 <= dy <= 1 && !(dx == 0 && dy == 0)
    }

    /// The direction of the step `(dx, dy)`, if it leads to one of the eight
    /// neighbours.
    pub fn from_step(dx: i32, dy: i32) -> (r: Option<Direction>)
        ensures
            r is Some <==> Self::is_step(dx as int, dy as int),
            r is Some ==> r->Some_0.dx() == dx && r->Some_0.dy() == dy,
    {
        if dy == -1 {
            if dx == -1 {
                Some(Direction::SouthWest)
            } else if dx == 0 {
                Some(Direction::South)
            } else if dx == 1 {
                Some(Direction::SouthEast)
            } else {
                None
            }
        } else if dy == 0 {
            if dx == -1 {
                Some(Direction::West)
            } else if dx == 1 {
                Some(Direction::East)
            } else {
                None
            }
        } else if dy == 1 {
            if dx == -1 {
                Some(Direction::NorthWest)
            } else if dx == 0 {
                Some(Direction::North)
            } else if dx == 1 {
                Some(Direction::NorthEast)
            } else {
                None
            }
        } else {
            None
        }
    }

    /// The step along the grid's x axis: -1, 0 or 1.
    pub fn step_x(&self) -> (r: i8)
        ensures
            r == self.dx(),
    {
        match self {
            Direction::SouthWest | Direction::West | Direction::NorthWest => -1,
            Direction::South | Direction::North => 0,
            Direction::SouthEast | Direction::East | Direction::NorthEast => 1,
        }
    }

    /// The step along the grid's y axis: -1, 0 or 1.
    pub fn step_y(&self) -> (r: i8)
        ensures
            r == self.dy(),
    {
        match self {
            Direction::SouthWest | Direction::South | Direction::SouthEast => -1,
            Direction::West | Direction::East => 0,
            Direction::NorthWest | Direction::North | Direction::NorthEast => 1,
        }
    }

    /// The direction that undoes this one.
    pub fn opposite(&self) -> (r: Direction)
        ensures
            r == self.antipode(),
            r.dx() == -self.dx(),
            r.dy() == -self.dy(),
    {
        match self {
            Direction::SouthWest => Direction::NorthEast,
            Direction::South => Direction::North,
            Direction::SouthEast => Direction::NorthWest,
            Direction::West => Direction::East,
            Direction::East => Direction::West,
            Direction::NorthWest => Direction::SouthEast,
            Direction::North => Direction::South,
            Direction::NorthEast => Direction::SouthWest,
        }
    }

    /// All eight directions, in row-major order of the neighbours they lead
    /// to.
    pub fn every() -> (r: Vec<Direction>)
        ensures
            r@ == Self::all(),
    {
        let mut r: Vec<Direction> = Vec::new();
        r.push(Direction::SouthWest);
        r.push(Direction::South);
        r.push(Direction::SouthEast);
        r.push(Direction::West);
        r.push(Direction::East);
        r.push(Direction::NorthWest);
        r.push(Direction::North);
        r.push(Direction::NorthEast);
        assert(r@ =~= Self::all());
        r
    }

    /// By how much the world y of a tile changes, per sub-step, from a cell
    /// to its neighbour in this direction under `projection`.
    pub open spec fn depth_step(self, projection: TileProjection) -> int {
        projection.spec_basis().x_step.y * self.dx() + projection.spec_basis().y_step.y * self.dy()
    }

    /// Whether a tile hangs under its neighbour in this direction where
    /// nothing else is said: the neighbour is nearer to the viewer, or as near
    /// and later in row-major order, so that it is painted later.
    pub open spec fn hangs_under(self, projection: TileProjection) -> bool {
        self.depth_step(projection) < 0 || (self.depth_step(projection) == 0 && (self.dy() > 0 || (
        self.dy() == 0 && self.dx() > 0)))
    }

    /// Whether a tile hangs under its neighbour in this direction where
    /// nothing else is said.
    pub fn is_default_underhang(&self, projection: &TileProjection) -> (r: bool)
        ensures
            r == self.hangs_under(*projection),
    {
        let basis = projection.basis();
        let dx: i32 = self.step_x() as i32;
        let dy: i32 = self.step_y() as i32;
        assert(-0x8000 <= basis.x_step.y * dx <= 0x8000 && -0x8000 <= basis.y_step.y * dy <= 0x8000)
            by (nonlinear_arith)
            requires
                -0x8000 <= basis.x_step.y <= 0x7fff,
                -0x8000 <= basis.y_step.y <= 0x7fff,
                -1 <= dx <= 1,
                -1 <= dy <= 1,
        ;
        let step: i32 = (basis.x_step.y as i32) * dx + (basis.y_step.y as i32) * dy;
        step < 0 || (step == 0 && (dy > 0 || (dy == 0 && dx > 0)))
    }
}

/// What an overhang policy says, with its directions as a sequence.
pub enum PolicyView {
    NoOverhang,
    Dominance,
    Perspective { underhang_directions: Seq<Direction> },
}

impl View for OverhangPolicy {
    type V = PolicyView;

    open spec fn view(&self) -> PolicyView {
        match self {
            OverhangPolicy::NoOverhang => PolicyView::NoOverhang,
            OverhangPolicy::Dominance => PolicyView::Dominance,
            OverhangPolicy::Perspective { underhang_directions } => PolicyView::Perspective {
                underhang_directions: underhang_directions@,
            },
        }
    }
}

/// The test by which the default underhang directions under `projection` are
/// chosen.
pub open spec fn hangs_under_by_default(projection: TileProjection) -> spec_fn(Direction) -> bool {
    |d: Direction| d.hangs_under(projection)
}

/// The underhang directions under `projection` where the caller names none:
/// of the eight directions, in row-major order, those whose neighbour is
/// painted later.
pub open spec fn default_underhangs(projection: TileProjection) -> Seq<Direction> {
    Direction::all().filter(hangs_under_by_default(projection))
}

/// The directions opposite to `directions`, in the same order.
pub open spec fn antipodes(directions: Seq<Direction>) -> Seq<Direction> {
    Seq::new(directions.len(), |i: int| directions[i].antipode())
}

/// The policy that the three overhang flags and the forced underhang
/// directions ask for, or the refusal of flags that contradict each other.
pub open spec fn policy_of_flags(
    dominance: bool,
    perspective_under: bool,
    perspective_over: bool,
    forced_underhangs: Seq<Direction>,
    projection: TileProjection,
) -> Result<PolicyView, ConfigError> {
    if dominance && (perspective_under || perspective_over) {
        Err(ConfigError::ConflictingOverhangs)
    } else if dominance {
        Ok(PolicyView::Dominance)
    } else if perspective_under || perspective_over {
        Ok(
            PolicyView::Perspective {
                underhang_directions: if forced_underhangs.len() == 0 {
                    default_underhangs(projection)
                } else {
                    forced_underhangs
                },
            },
        )
    } else {
        Ok(PolicyView::NoOverhang)
    }
}

impl PolicyView {
    /// The directions in which a tile hangs under its neighbour.
    pub open spec fn underhangs(self) -> Seq<Direction> {
        match self {
            PolicyView::Perspective { underhang_directions } => underhang_directions,
            _ => Seq::empty(),
        }
    }

    /// The directions in which a tile hangs over its neighbour: the
    /// opposites of the underhang directions.
    pub open spec fn overhangs(self) -> Seq<Direction> {
        antipodes(self.underhangs())
    }

    /// The directions into which a tile may paint: none without overhang, all
    /// eight under dominance, and under perspective the underhang directions
    /// followed by the overhang directions.
    pub open spec fn neighbors(self) -> Seq<Direction> {
        match self {
            PolicyView::NoOverhang => Seq::empty(),
            PolicyView::Dominance => Direction::all(),
            PolicyView::Perspective { underhang_directions } => underhang_directions + antipodes(
                underhang_directions,
            ),
        }
    }

    /// The key by which the policy orders tiles in the first place; a tile
    /// with a smaller key is painted first. Under dominance it is the atlas
    /// index, under perspective the negated world y of the tile's anchor, and
    /// without overhang all tiles are alike.
    pub open spec fn primary_key(self, projection: TileProjection, tile: PlacedTile) -> int {
        match self {
            PolicyView::NoOverhang => 0,
            PolicyView::Dominance => tile.index as int,
            PolicyView::Perspective { .. } => -projection.world_y(
                tile.cell.x as int,
                tile.cell.y as int,
            ),
        }
    }

    /// Whether `a` is painted before `b`: its primary key is smaller, or the
    /// keys are equal and its cell comes first in row-major order.
    pub open spec fn paints_before(self, projection: TileProjection, a: PlacedTile, b: PlacedTile) -> bool {
        self.primary_key(projection, a) < self.primary_key(projection, b) || (self.primary_key(
            projection,
            a,
        ) == self.primary_key(projection, b) && a.cell.row_major_lt(b.cell))
    }

    /// When `a` is painted, relative to `b`.
    pub open spec fn draw_order(self, projection: TileProjection, a: PlacedTile, b: PlacedTile) -> PaintOrder {
        if self.paints_before(projection, a, b) {
            PaintOrder::Before
        } else if self.paints_before(projection, b, a) {
            PaintOrder::After
        } else {
            PaintOrder::Same
        }
    }
}

/// Those of `candidates` in which a tile hangs under its neighbour by
/// default, in the order of `candidates`.
fn select_default_underhangs(candidates: &Vec<Direction>, projection: &TileProjection) -> (r: Vec<
    Direction,
>)
    ensures
        r@ == candidates@.filter(hangs_under_by_default(*projection)),
{
    let mut r: Vec<Direction> = Vec::new();
    let mut i: usize = 0;
    proof {
        reveal(Seq::filter);
        assert(candidates@.take(0) =~= Seq::<Direction>::empty());
    }
    while i < candidates.len()
        invariant
            i <= candidates.len(),
            r@ == candidates@.take(i as int).filter(hangs_under_by_default(*projection)),
        decreases candidates.len() - i,
    {
        let d = candidates[i];
        let keep = d.is_default_underhang(projection);
        proof {
            reveal(Seq::filter);
            let next = candidates@.take(i + 1);
            assert(next.drop_last() =~= candidates@.take(i as int));
            assert(next.last() == d);
            assert(hangs_under_by_default(*projection)(d) == keep);
        }
        if keep {
            r.push(d);
        }
        i = i + 1;
    }
    proof {
        assert(candidates@.take(candidates.len() as int) =~= candidates@);
    }
    r
}

/// A copy of `directions`.
fn copy_directions(directions: &Vec<Direction>) -> (r: Vec<Direction>)
    ensures
        r@ == directions@,
{
    let mut r: Vec<Direction> = Vec::new();
    let mut i: usize = 0;
    while i < directions.len()
        invariant
            i <= directions.len(),
            r@ == directions@.take(i as int),
        decreases directions.len() - i,
    {
        r.push(directions[i]);
        proof {
            assert(r@ =~= directions@.take(i + 1));
        }
        i = i + 1;
    }
    proof {
        assert(directions@.take(directions.len() as int) =~= directions@);
    }
    r
}

/// Appends to `target` the opposite of each of `directions`, in their order.
fn push_antipodes(target: &mut Vec<Direction>, directions: &Vec<Direction>)
    ensures
        final(target)@ == old(target)@ + antipodes(directions@),
{
    let ghost start = target@;
    let mut i: usize = 0;
    proof {
        assert(target@ =~= start + antipodes(directions@.take(0)));
    }
    while i < directions.len()
        invariant
            i <= directions.len(),
            target@ == start + antipodes(directions@.take(i as int)),
        decreases directions.len() - i,
    {
        let d = directions[i].opposite();
        target.push(d);
        proof {
            assert(target@ =~= start + antipodes(directions@.take(i + 1)));
        }
        i = i + 1;
    }
    proof {
        assert(directions@.take(directions.len() as int) =~= directions@);
    }
}

impl Clone for OverhangPolicy {
    /// A policy that says the same.
    fn clone(&self) -> (r: OverhangPolicy)
        ensures
            r@ == self@,
    {
        match self {
            OverhangPolicy::NoOverhang => OverhangPolicy::NoOverhang,
            OverhangPolicy::Dominance => OverhangPolicy::Dominance,
            OverhangPolicy::Perspective { underhang_directions } => OverhangPolicy::Perspective {
                underhang_directions: copy_directions(underhang_directions),
            },
        }
    }
}

impl Default for OverhangPolicy {
    /// Where nothing is configured, tiles do not overhang.
    fn default() -> (r: OverhangPolicy)
        ensures
            r@ == PolicyView::NoOverhang,
    {
        OverhangPolicy::NoOverhang
    }
}

impl OverhangPolicy {
    /// The perspective policy with the default underhang directions under
    /// `projection`.
    pub fn perspective(projection: &TileProjection) -> (r: OverhangPolicy)
        ensures
            r@ == (PolicyView::Perspective { underhang_directions: default_underhangs(*projection) }),
    {
        let every = Direction::every();
        OverhangPolicy::Perspective {
            underhang_directions: select_default_underhangs(&every, projection),
        }
    }

    /// The policy that the overhang flags of a configuration ask for.
    /// Dominance together with either perspective flag is refused. With
    /// dominance alone the policy is dominance; with either perspective flag
    /// it is perspective, with `forced_underhangs` as underhang directions
    /// or, where there are none, the default ones under `projection`; with no
    /// flag there is no overhang.
    pub fn from_flags(
        dominance: bool,
        perspective_under: bool,
        perspective_over: bool,
        forced_underhangs: &Vec<Direction>,
        projection: &TileProjection,
    ) -> (r: Result<OverhangPolicy, ConfigError>)
        ensures
            match (
                r,
                policy_of_flags(
                    dominance,
                    perspective_under,
                    perspective_over,
                    forced_underhangs@,
                    *projection,
                ),
            ) {
                (Ok(policy), Ok(view)) => policy@ == view,
                (Err(e), Err(f)) => e == f,
                _ => false,
            },
    {
        if dominance && (perspective_under || perspective_over) {
            Err(ConfigError::ConflictingOverhangs)
        } else if dominance {
            Ok(OverhangPolicy::Dominance)
        } else if perspective_under || perspective_over {
            if forced_underhangs.len() == 0 {
                Ok(Self::perspective(projection))
            } else {
                Ok(
                    OverhangPolicy::Perspective {
                        underhang_directions: copy_directions(forced_underhangs),
                    },
                )
            }
        } else {
            Ok(OverhangPolicy::NoOverhang)
        }
    }

    /// The directions in which a tile hangs under its neighbour.
    pub fn underhang_directions(&self) -> (r: Vec<Direction>)
        ensures
            r@ == self@.underhangs(),
    {
        match self {
            OverhangPolicy::Perspective { underhang_directions } => copy_directions(
                underhang_directions,
            ),
            _ => Vec::new(),
        }
    }

    /// The directions in which a tile hangs over its neighbour.
    pub fn overhang_directions(&self) -> (r: Vec<Direction>)
        ensures
            r@ == self@.overhangs(),
    {
        let mut r: Vec<Direction> = Vec::new();
        match self {
            OverhangPolicy::Perspective { underhang_directions } => {
                push_antipodes(&mut r, underhang_directions);
                assert(r@ =~= antipodes(underhang_directions@));
            },
            _ => {
                assert(r@ =~= antipodes(Seq::empty()));
            },
        }
        r
    }

    /// The directions into which the tile in `cell` may paint. They are the
    /// same for every cell.
    pub fn neighbors_for(&self, cell: GridCoord) -> (r: Vec<Direction>)
        ensures
            r@ == self@.neighbors(),
    {
        match self {
            OverhangPolicy::NoOverhang => Vec::new(),
            OverhangPolicy::Dominance => Direction::every(),
            OverhangPolicy::Perspective { underhang_directions } => {
                let mut r = copy_directions(underhang_directions);
                push_antipodes(&mut r, underhang_directions);
                r
            },
        }
    }

    /// When `a` is painted, relative to `b`. Under dominance the tile with
    /// the lower atlas index is painted first; under perspective the tile
    /// whose anchor has the greater world y. Where that does not decide, the
    /// tile whose cell comes first in row-major order is painted first.
    pub fn draw_order_key(&self, projection: &TileProjection, a: PlacedTile, b: PlacedTile) -> (r:
        PaintOrder)
        ensures
            r == self@.draw_order(*projection, a, b),
    {
        let first: PaintOrder = match self {
            OverhangPolicy::NoOverhang => PaintOrder::Same,
            OverhangPolicy::Dominance => {
                if a.index < b.index {
                    PaintOrder::Before
                } else if a.index > b.index {
                    PaintOrder::After
                } else {
                    PaintOrder::Same
                }
            },
            OverhangPolicy::Perspective { .. } => {
                let ya: i128 = projection.forward(a.cell).y;
                let yb: i128 = projection.forward(b.cell).y;
                if ya > yb {
                    PaintOrder::Before
                } else if ya < yb {
                    PaintOrder::After
                } else {
                    PaintOrder::Same
                }
            },
        };
        match first {
            PaintOrder::Same => {
                if a.cell.y < b.cell.y || (a.cell.y == b.cell.y && a.cell.x < b.cell.x) {
                    PaintOrder::Before
                } else if b.cell.y < a.cell.y || (b.cell.y == a.cell.y && b.cell.x < a.cell.x) {
                    PaintOrder::After
                } else {
                    PaintOrder::Same
                }
            },
            decided => decided,
        }
    }
}

/// Every direction is one of the eight in [`Direction::all`].
pub proof fn lemma_all_directions(d: Direction)
    ensures
        Direction::all().contains(d),
        Direction::all().len() == 8,
{
    let all = Direction::all();
    match d {
        Direction::SouthWest => assert(all[0] == d),
        Direction::South => assert(all[1] == d),
        Direction::SouthEast => assert(all[2] == d),
        Direction::West => assert(all[3] == d),
        Direction::East => assert(all[4] == d),
        Direction::NorthWest => assert(all[5] == d),
        Direction::North => assert(all[6] == d),
        Direction::NorthEast => assert(all[7] == d),
    }
}

/// The draw order of every policy is a strict weak ordering: no tile is
/// painted before itself, no two tiles are each painted before the other,
/// painting before is transitive, and so is being painted neither before nor
/// after.
pub proof fn lemma_draw_order_is_strict_weak(
    policy: PolicyView,
    projection: TileProjection,
    a: PlacedTile,
    b: PlacedTile,
    c: PlacedTile,
)
    ensures
        !policy.paints_before(projection, a, a),
        policy.paints_before(projection, a, b) ==> !policy.paints_before(projection, b, a),
        policy.paints_before(projection, a, b) && policy.paints_before(projection, b, c)
            ==> policy.paints_before(projection, a, c),
        policy.draw_order(projection, a, b) == PaintOrder::Same && policy.draw_order(
            projection,
            b,
            c,
        ) == PaintOrder::Same ==> policy.draw_order(projection, a, c) == PaintOrder::Same,
{
}

/// Two tiles are painted in no order only if they stand in the same cell, so
/// that the draw order of the tiles of a map is total.
pub proof fn lemma_draw_order_ties(
    policy: PolicyView,
    projection: TileProjection,
    a: PlacedTile,
    b: PlacedTile,
)
    ensures
        policy.draw_order(projection, a, b) == PaintOrder::Same ==> a.cell == b.cell,
        policy.draw_order(projection, a, b) == PaintOrder::Before <==> policy.draw_order(
            projection,
            b,
            a,
        ) == PaintOrder::After,
{
}

/// Under dominance the tile with the lower atlas index is painted first,
/// wherever the two tiles stand, and the order of two tiles is the same under
/// every projection.
pub proof fn lemma_dominance_follows_index(
    projection: TileProjection,
    other: TileProjection,
    a: PlacedTile,
    b: PlacedTile,
)
    ensures
        a.index < b.index ==> PolicyView::Dominance.draw_order(projection, a, b)
            == PaintOrder::Before,
        a.index > b.index ==> PolicyView::Dominance.draw_order(projection, a, b)
            == PaintOrder::After,
        PolicyView::Dominance.draw_order(projection, a, b) == PolicyView::Dominance.draw_order(
            other,
            a,
            b,
        ),
{
}

/// Under perspective the tile whose anchor has the greater world y is painted
/// first, whatever the atlas indices of the two tiles are, and the order of
/// two tiles does not change with their indices.
pub proof fn lemma_perspective_follows_depth(
    underhang_directions: Seq<Direction>,
    projection: TileProjection,
    a: PlacedTile,
    b: PlacedTile,
    index_a: u32,
    index_b: u32,
)
    ensures
        ({
            let policy = PolicyView::Perspective { underhang_directions };
            let ya = projection.world_y(a.cell.x as int, a.cell.y as int);
            let yb = projection.world_y(b.cell.x as int, b.cell.y as int);
            &&& ya > yb ==> policy.draw_order(projection, a, b) == PaintOrder::Before
            &&& ya < yb ==> policy.draw_order(projection, a, b) == PaintOrder::After
            &&& policy.draw_order(projection, a, b) == policy.draw_order(
                projection,
                PlacedTile { cell: a.cell, index: index_a },
                PlacedTile { cell: b.cell, index: index_b },
            )
        }),
{
}

/// The default underhang directions are those in which the neighbour is
/// painted later under perspective: a tile is painted before its neighbour in
/// direction `d` exactly if it hangs under it by default.
pub proof fn lemma_default_underhang_is_painted_first(
    underhang_directions: Seq<Direction>,
    projection: TileProjection,
    tile: PlacedTile,
    neighbor: PlacedTile,
    d: Direction,
)
    requires
        projection.wf(),
        neighbor.cell.x == tile.cell.x + d.dx(),
        neighbor.cell.y == tile.cell.y + d.dy(),
    ensures
        d.hangs_under(projection) <==> (PolicyView::Perspective {
            underhang_directions,
        }).paints_before(projection, tile, neighbor),
{
    projection.lemma_wf();
    let res = projection.spec_resolution() as int;
    let c = projection.spec_basis().x_step.y as int;
    let e = projection.spec_basis().y_step.y as int;
    let ax = projection.spec_anchor().x as int;
    let ay = projection.spec_anchor().y as int;
    let x = tile.cell.x as int;
    let y = tile.cell.y as int;
    let step = d.depth_step(projection);
    let here = projection.world_y(x, y);
    let there = projection.world_y(x + d.dx(), y + d.dy());
    lemma_shifted_term(c, res, x, d.dx(), ax);
    lemma_shifted_term(e, res, y, d.dy(), ay);
    assert(res * (c * d.dx() + e * d.dy()) == res * (c * d.dx()) + res * (e * d.dy()))
        by (nonlinear_arith);
    assert(there - here == res * step);
    assert((step < 0 <==> res * step < 0) && (step == 0 <==> res * step == 0)) by (nonlinear_arith)
        requires
            res > 0,
    ;
}

/// Moving a cell by `k` along one axis moves one term of its world
/// coordinate by `res * (c * k)`.
proof fn lemma_shifted_term(c: int, res: int, x: int, k: int, a: int)
    ensures
        c * (res * (x + k) + a) - c * (res * x + a) == res * (c * k),
{
    assert(c * (res * (x + k) + a) - c * (res * x + a) == res * (c * k)) by (nonlinear_arith);
}

/// Of a direction and its opposite, a tile hangs under its neighbour by
/// default in exactly one, and the default underhang directions hold exactly
/// the directions in which it does.
pub proof fn lemma_default_underhangs_split(projection: TileProjection, d: Direction)
    ensures
        d.hangs_under(projection) <==> !d.antipode().hangs_under(projection),
        default_underhangs(projection).contains(d) <==> d.hangs_under(projection),
{
    let pred = hangs_under_by_default(projection);
    let all = Direction::all();
    let c = projection.spec_basis().x_step.y as int;
    let e = projection.spec_basis().y_step.y as int;
    assert(d.antipode().dx() == -d.dx() && d.antipode().dy() == -d.dy());
    assert(c * (-d.dx()) + e * (-d.dy()) == -(c * d.dx() + e * d.dy())) by (nonlinear_arith);
    assert(d.antipode().depth_step(projection) == -d.depth_step(projection));
    lemma_all_directions(d);
    let i = choose|i: int| 0 <= i < all.len() && all[i] == d;
    if d.hangs_under(projection) {
        assert(pred(all[i]));
        all.lemma_filter_contains(pred, i);
    }
    if default_underhangs(projection).contains(d) {
        let j = choose|j: int|
            0 <= j < all.filter(pred).len() && all.filter(pred)[j] == d;
        all.lemma_filter_pred(pred, j);
    }
}

/// Under perspective with the default underhang directions a tile paints into
/// all eight neighbouring cells: under the neighbour in four directions, over
/// it in the four opposite ones.
pub proof fn lemma_default_perspective_reaches_all_neighbors(
    projection: TileProjection,
    d: Direction,
)
    ensures
        (PolicyView::Perspective {
            underhang_directions: default_underhangs(projection),
        }).neighbors().contains(d),
        default_underhangs(projection).contains(d) <==> !antipodes(
            default_underhangs(projection),
        ).contains(d),
{
    let under = default_underhangs(projection);
    let over = antipodes(under);
    let all = under + over;
    lemma_default_underhangs_split(projection, d);
    lemma_default_underhangs_split(projection, d.antipode());
    assert(d.antipode().antipode() == d);
    if under.contains(d) {
        let i = choose|i: int| 0 <= i < under.len() && under[i] == d;
        assert(all[i] == d);
        if over.contains(d) {
            let j = choose|j: int| 0 <= j < over.len() && over[j] == d;
            assert(under[j].antipode() == d);
            assert(under[j] == d.antipode());
            assert(under.contains(d.antipode()));
        }
    } else {
        let j = choose|j: int| 0 <= j < under.len() && under[j] == d.antipode();
        assert(over[j] == d);
        assert(all[under.len() + j] == d);
    }
}

} // verus!
