use tilemap_core::error::ConfigError;
use tilemap_core::geometry::GridCoord;
use tilemap_core::overhang::{Direction, OverhangPolicy, PaintOrder, PlacedTile};
use tilemap_core::projection::{Anchor, Basis, Step, TileProjection};

fn tile(x: i64, y: i64, index: u32) -> PlacedTile {
    PlacedTile { cell: GridCoord::new(x, y), index }
}

fn y_down() -> TileProjection {
    let basis = Basis { x_step: Step { x: 1, y: 0 }, y_step: Step { x: 0, y: -1 } };
    TileProjection::new(basis, Anchor { x: 0, y: 0 }, 1).unwrap()
}

fn policies(p: &TileProjection) -> Vec<OverhangPolicy> {
    vec![OverhangPolicy::NoOverhang, OverhangPolicy::Dominance, OverhangPolicy::perspective(p)]
}

#[test]
fn directions_and_their_steps() {
    let expected = [
        (Direction::SouthWest, -1, -1),
        (Direction::South, 0, -1),
        (Direction::SouthEast, 1, -1),
        (Direction::West, -1, 0),
        (Direction::East, 1, 0),
        (Direction::NorthWest, -1, 1),
        (Direction::North, 0, 1),
        (Direction::NorthEast, 1, 1),
    ];
    let every = Direction::every();
    assert_eq!(every.len(), 8);
    for (i, (d, dx, dy)) in expected.iter().enumerate() {
        assert_eq!(every[i], *d);
        assert_eq!(d.step_x(), *dx);
        assert_eq!(d.step_y(), *dy);
        assert_eq!(Direction::from_step(*dx as i32, *dy as i32), Some(*d));
    }
}

#[test]
fn steps_that_are_no_direction() {
    assert_eq!(Direction::from_step(0, 0), None);
    assert_eq!(Direction::from_step(2, 0), None);
    assert_eq!(Direction::from_step(0, -2), None);
    assert_eq!(Direction::from_step(-2, 1), None);
    assert_eq!(Direction::from_step(1, 2), None);
    assert_eq!(Direction::from_step(i32::MAX, i32::MIN), None);
}

#[test]
fn opposite_negates_the_step() {
    for d in Direction::every() {
        let o = d.opposite();
        assert_eq!(o.step_x(), -d.step_x());
        assert_eq!(o.step_y(), -d.step_y());
        assert_eq!(o.opposite(), d);
    }
    assert_eq!(Direction::NorthWest.opposite(), Direction::SouthEast);
    assert_eq!(Direction::East.opposite(), Direction::West);
}

#[test]
fn default_underhangs_of_the_identity() {
    // world y grows with grid y: the neighbours to the south are nearer, and
    // of those in the same row the one to the east comes later
    let p = TileProjection::identity();
    assert_eq!(
        OverhangPolicy::perspective(&p),
        OverhangPolicy::Perspective {
            underhang_directions: vec![
                Direction::SouthWest,
                Direction::South,
                Direction::SouthEast,
                Direction::East,
            ],
        }
    );
    assert!(Direction::South.is_default_underhang(&p));
    assert!(Direction::East.is_default_underhang(&p));
    assert!(!Direction::West.is_default_underhang(&p));
    assert!(!Direction::North.is_default_underhang(&p));
}

#[test]
fn default_underhangs_with_y_pointing_down() {
    let p = y_down();
    assert_eq!(
        OverhangPolicy::perspective(&p).underhang_directions(),
        vec![Direction::East, Direction::NorthWest, Direction::North, Direction::NorthEast]
    );
}

#[test]
fn default_underhangs_of_an_oblique_basis() {
    // world y = gx + gy
    let basis = Basis { x_step: Step { x: 2, y: 1 }, y_step: Step { x: -2, y: 1 } };
    let p = TileProjection::new(basis, Anchor { x: 1, y: 1 }, 2).unwrap();
    assert_eq!(
        OverhangPolicy::perspective(&p).underhang_directions(),
        vec![Direction::SouthWest, Direction::South, Direction::West, Direction::NorthWest]
    );
}

#[test]
fn default_underhangs_split_the_directions_in_halves() {
    for p in [TileProjection::identity(), y_down()] {
        let under = OverhangPolicy::perspective(&p).underhang_directions();
        assert_eq!(under.len(), 4);
        for d in Direction::every() {
            assert_eq!(under.contains(&d), d.is_default_underhang(&p));
            assert_ne!(under.contains(&d), under.contains(&d.opposite()));
        }
    }
}

#[test]
fn default_underhangs_are_painted_before_their_neighbour() {
    let basis = Basis { x_step: Step { x: 3, y: -2 }, y_step: Step { x: 1, y: 2 } };
    let p = TileProjection::new(basis, Anchor { x: 1, y: 2 }, 4).unwrap();
    let policy = OverhangPolicy::perspective(&p);
    for d in Direction::every() {
        let here = tile(10, -7, 3);
        let there = tile(10 + d.step_x() as i64, -7 + d.step_y() as i64, 3);
        let first = policy.draw_order_key(&p, here, there) == PaintOrder::Before;
        assert_eq!(first, d.is_default_underhang(&p));
    }
}

#[test]
fn neighbors_without_overhang() {
    let policy = OverhangPolicy::NoOverhang;
    assert_eq!(policy.neighbors_for(GridCoord::new(0, 0)), vec![]);
    assert_eq!(policy.underhang_directions(), vec![]);
    assert_eq!(policy.overhang_directions(), vec![]);
}

#[test]
fn neighbors_under_dominance() {
    let policy = OverhangPolicy::Dominance;
    assert_eq!(policy.neighbors_for(GridCoord::new(5, 9)), Direction::every());
    assert_eq!(policy.neighbors_for(GridCoord::new(-5, 0)), Direction::every());
    assert_eq!(policy.underhang_directions(), vec![]);
    assert_eq!(policy.overhang_directions(), vec![]);
}

#[test]
fn neighbors_under_perspective() {
    let policy = OverhangPolicy::Perspective {
        underhang_directions: vec![Direction::NorthWest, Direction::North],
    };
    assert_eq!(policy.underhang_directions(), vec![Direction::NorthWest, Direction::North]);
    assert_eq!(policy.overhang_directions(), vec![Direction::SouthEast, Direction::South]);
    assert_eq!(
        policy.neighbors_for(GridCoord::new(1, 1)),
        vec![Direction::NorthWest, Direction::North, Direction::SouthEast, Direction::South]
    );
}

#[test]
fn default_perspective_paints_into_all_eight_neighbours() {
    let p = TileProjection::identity();
    let mut all = OverhangPolicy::perspective(&p).neighbors_for(GridCoord::new(0, 0));
    assert_eq!(
        all,
        vec![
            Direction::SouthWest,
            Direction::South,
            Direction::SouthEast,
            Direction::East,
            Direction::NorthEast,
            Direction::North,
            Direction::NorthWest,
            Direction::West,
        ]
    );
    all.dedup();
    assert_eq!(all.len(), 8);
}

#[test]
fn policy_of_flags() {
    let p = TileProjection::identity();
    let none: Vec<Direction> = vec![];
    let forced = vec![Direction::West];
    assert_eq!(
        OverhangPolicy::from_flags(false, false, false, &none, &p),
        Ok(OverhangPolicy::NoOverhang)
    );
    assert_eq!(
        OverhangPolicy::from_flags(false, false, false, &forced, &p),
        Ok(OverhangPolicy::NoOverhang)
    );
    assert_eq!(
        OverhangPolicy::from_flags(true, false, false, &forced, &p),
        Ok(OverhangPolicy::Dominance)
    );
    for (under, over) in [(true, true), (true, false), (false, true)] {
        assert_eq!(
            OverhangPolicy::from_flags(false, under, over, &none, &p),
            Ok(OverhangPolicy::perspective(&p))
        );
        assert_eq!(
            OverhangPolicy::from_flags(false, under, over, &forced, &p),
            Ok(OverhangPolicy::Perspective { underhang_directions: vec![Direction::West] })
        );
        assert_eq!(
            OverhangPolicy::from_flags(true, under, over, &none, &p),
            Err(ConfigError::ConflictingOverhangs)
        );
    }
}

#[test]
fn dominance_orders_by_atlas_index() {
    let p = TileProjection::identity();
    let d = OverhangPolicy::Dominance;
    assert_eq!(d.draw_order_key(&p, tile(9, 9, 1), tile(0, 0, 2)), PaintOrder::Before);
    assert_eq!(d.draw_order_key(&p, tile(0, 0, 2), tile(9, 9, 1)), PaintOrder::After);
    assert_eq!(d.draw_order_key(&p, tile(0, 0, 0), tile(0, 0, u32::MAX)), PaintOrder::Before);
}

#[test]
fn dominance_does_not_depend_on_the_projection() {
    let d = OverhangPolicy::Dominance;
    let tiles = [tile(0, 0, 3), tile(1, 0, 3), tile(0, 1, 2), tile(-4, 2, 7), tile(0, 0, 3)];
    for a in tiles {
        for b in tiles {
            assert_eq!(
                d.draw_order_key(&TileProjection::identity(), a, b),
                d.draw_order_key(&y_down(), a, b)
            );
        }
    }
}

#[test]
fn ties_are_broken_in_row_major_order() {
    let p = TileProjection::identity();
    for policy in [OverhangPolicy::NoOverhang, OverhangPolicy::Dominance] {
        assert_eq!(policy.draw_order_key(&p, tile(0, 0, 4), tile(1, 0, 4)), PaintOrder::Before);
        assert_eq!(policy.draw_order_key(&p, tile(5, 0, 4), tile(0, 1, 4)), PaintOrder::Before);
        assert_eq!(policy.draw_order_key(&p, tile(0, 1, 4), tile(5, 0, 4)), PaintOrder::After);
        assert_eq!(policy.draw_order_key(&p, tile(2, 3, 4), tile(2, 3, 4)), PaintOrder::Same);
    }
    // same world y under perspective: the row decides nothing, the column does
    let persp = OverhangPolicy::perspective(&p);
    assert_eq!(persp.draw_order_key(&p, tile(0, 2, 9), tile(1, 2, 0)), PaintOrder::Before);
    assert_eq!(persp.draw_order_key(&p, tile(1, 2, 0), tile(0, 2, 9)), PaintOrder::After);
    assert_eq!(persp.draw_order_key(&p, tile(1, 2, 0), tile(1, 2, 9)), PaintOrder::Same);
}

#[test]
fn without_overhang_the_index_decides_nothing() {
    let p = TileProjection::identity();
    let none = OverhangPolicy::NoOverhang;
    assert_eq!(none.draw_order_key(&p, tile(0, 0, 9), tile(1, 0, 1)), PaintOrder::Before);
    assert_eq!(none.draw_order_key(&p, tile(3, 3, 1), tile(3, 3, 2)), PaintOrder::Same);
}

#[test]
fn perspective_paints_the_greater_world_y_first() {
    let p = TileProjection::identity();
    let policy = OverhangPolicy::perspective(&p);
    assert_eq!(p.forward(GridCoord::new(0, 1)).y, 1);
    assert_eq!(p.forward(GridCoord::new(0, 0)).y, 0);
    assert_eq!(policy.draw_order_key(&p, tile(0, 1, 0), tile(0, 0, 0)), PaintOrder::Before);
    assert_eq!(policy.draw_order_key(&p, tile(0, 0, 0), tile(0, 1, 0)), PaintOrder::After);
}

#[test]
fn perspective_does_not_depend_on_the_atlas_index() {
    let p = y_down();
    let policy = OverhangPolicy::perspective(&p);
    let cells = [(0i64, 0i64), (0, 1), (1, 0), (-3, 2), (2, -3)];
    for (ax, ay) in cells {
        for (bx, by) in cells {
            let plain = policy.draw_order_key(&p, tile(ax, ay, 0), tile(bx, by, 0));
            for (ia, ib) in [(1u32, 2u32), (2, 1), (u32::MAX, 0), (7, 7)] {
                assert_eq!(policy.draw_order_key(&p, tile(ax, ay, ia), tile(bx, by, ib)), plain);
            }
        }
    }
    // with y pointing down, the cell with the smaller grid y is further away
    assert_eq!(policy.draw_order_key(&p, tile(0, 0, 0), tile(0, 1, 0)), PaintOrder::Before);
}

#[test]
fn forced_underhangs_do_not_change_the_order() {
    let p = TileProjection::identity();
    let forced = OverhangPolicy::Perspective { underhang_directions: vec![Direction::North] };
    let default = OverhangPolicy::perspective(&p);
    for (a, b) in [(tile(0, 0, 1), tile(0, 1, 2)), (tile(3, 1, 1), tile(2, 1, 2))] {
        assert_eq!(forced.draw_order_key(&p, a, b), default.draw_order_key(&p, a, b));
    }
}

#[test]
fn draw_order_is_a_strict_weak_ordering() {
    let basis = Basis { x_step: Step { x: 2, y: 1 }, y_step: Step { x: -2, y: 1 } };
    let p = TileProjection::new(basis, Anchor { x: 1, y: 0 }, 2).unwrap();
    let mut tiles = Vec::new();
    for x in -1i64..=1 {
        for y in -1i64..=1 {
            for index in [0u32, 1] {
                tiles.push(tile(x, y, index));
            }
        }
    }
    for policy in policies(&p) {
        for a in &tiles {
            assert_ne!(policy.draw_order_key(&p, *a, *a), PaintOrder::Before);
            for b in &tiles {
                let ab = policy.draw_order_key(&p, *a, *b);
                let ba = policy.draw_order_key(&p, *b, *a);
                match ab {
                    PaintOrder::Before => assert_eq!(ba, PaintOrder::After),
                    PaintOrder::After => assert_eq!(ba, PaintOrder::Before),
                    PaintOrder::Same => assert_eq!(ba, PaintOrder::Same),
                }
                for c in &tiles {
                    let bc = policy.draw_order_key(&p, *b, *c);
                    let ac = policy.draw_order_key(&p, *a, *c);
                    if ab == PaintOrder::Before && bc == PaintOrder::Before {
                        assert_eq!(ac, PaintOrder::Before);
                    }
                    if ab == PaintOrder::Same && bc == PaintOrder::Same {
                        assert_eq!(ac, PaintOrder::Same);
                    }
                }
            }
        }
    }
}

#[test]
fn draw_order_at_the_ends_of_the_grid() {
    let basis =
        Basis { x_step: Step { x: i16::MAX, y: i16::MIN }, y_step: Step { x: 1, y: i16::MIN } };
    let p = TileProjection::new(basis, Anchor { x: 65535, y: 65535 }, 65535).unwrap();
    let policy = OverhangPolicy::perspective(&p);
    let far = tile(i64::MIN, i64::MIN, 0);
    let near = tile(i64::MAX, i64::MAX, 0);
    assert_eq!(policy.draw_order_key(&p, far, near), PaintOrder::Before);
    assert_eq!(policy.draw_order_key(&p, near, far), PaintOrder::After);
}
