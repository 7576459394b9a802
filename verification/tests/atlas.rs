use tilemap_core::atlas::{tiles_along, AtlasLayout, Padding, TOLERANCE_DIVISOR};
use tilemap_core::error::ConfigError;
use tilemap_core::geometry::{Axis, UVec2, WorldOffset};
use tilemap_core::projection::{Anchor, Basis, Step, TileProjection};

fn no_padding() -> Padding {
    Padding { inner: UVec2::new(0, 0), topleft: UVec2::new(0, 0), bottomright: UVec2::new(0, 0) }
}

#[test]
fn atlas_of_four_by_three_tiles_without_padding() {
    let r = AtlasLayout::derive(UVec2::new(64, 48), UVec2::new(16, 16), 1, no_padding(), None);
    assert_eq!(r, Ok(UVec2::new(4, 3)));
}

#[test]
fn inner_padding_that_the_atlas_does_not_account_for() {
    let padding = Padding { inner: UVec2::new(1, 1), ..no_padding() };
    let r = AtlasLayout::derive(UVec2::new(64, 48), UVec2::new(16, 16), 1, padding, None);
    assert_eq!(
        r,
        Err(ConfigError::AtlasMisfit { axis: Axis::X, numerator: 65, denominator: 17 })
    );
}

#[test]
fn inner_padding_that_the_atlas_accounts_for() {
    let padding = Padding { inner: UVec2::new(1, 2), ..no_padding() };
    // x: 4 tiles of 16 and 3 gaps of 1; y: 3 tiles of 16 and 2 gaps of 2
    let r = AtlasLayout::derive(UVec2::new(67, 52), UVec2::new(16, 16), 1, padding, None);
    assert_eq!(r, Ok(UVec2::new(4, 3)));
}

#[test]
fn outer_padding_is_taken_off() {
    let padding = Padding {
        inner: UVec2::new(1, 1),
        topleft: UVec2::new(2, 5),
        bottomright: UVec2::new(3, 7),
    };
    let r = AtlasLayout::derive(UVec2::new(72, 62), UVec2::new(16, 16), 1, padding, None);
    assert_eq!(r, Ok(UVec2::new(4, 3)));
}

#[test]
fn tile_size_factor_scales_the_tile() {
    let r = AtlasLayout::derive(UVec2::new(64, 48), UVec2::new(8, 8), 2, no_padding(), None);
    assert_eq!(r, Ok(UVec2::new(4, 3)));
}

#[test]
fn misfit_along_y_names_y() {
    let r = AtlasLayout::derive(UVec2::new(64, 50), UVec2::new(16, 16), 1, no_padding(), None);
    assert_eq!(
        r,
        Err(ConfigError::AtlasMisfit { axis: Axis::Y, numerator: 50, denominator: 16 })
    );
}

#[test]
fn misfit_along_both_axes_names_x() {
    let r = AtlasLayout::derive(UVec2::new(70, 50), UVec2::new(16, 16), 1, no_padding(), None);
    assert_eq!(
        r,
        Err(ConfigError::AtlasMisfit { axis: Axis::X, numerator: 70, denominator: 16 })
    );
}

#[test]
fn forced_tile_grid_is_taken_as_it_is() {
    let padding = Padding {
        inner: UVec2::new(5, 5),
        topleft: UVec2::new(1000, 1000),
        bottomright: UVec2::new(3, 3),
    };
    let forced = Some(UVec2::new(7, 9));
    let r = AtlasLayout::derive(UVec2::new(63, 47), UVec2::new(16, 16), 1, padding, forced);
    assert_eq!(r, Ok(UVec2::new(7, 9)));
    let unforced = AtlasLayout::derive(UVec2::new(63, 47), UVec2::new(16, 16), 1, padding, None);
    assert!(unforced.is_err());
    let degenerate = AtlasLayout::derive(UVec2::new(0, 0), UVec2::new(0, 0), -3, padding, forced);
    assert_eq!(degenerate, Ok(UVec2::new(7, 9)));
}

#[test]
fn tolerance_is_one_part_in_a_hundred() {
    assert_eq!(TOLERANCE_DIVISOR, 100);
    // pitch 1000: a span within 10 of a multiple is accepted
    assert_eq!(tiles_along(Axis::X, 4000, 1000, 1, 0, 0, 0), Ok(4));
    assert_eq!(tiles_along(Axis::X, 4010, 1000, 1, 0, 0, 0), Ok(4));
    assert_eq!(tiles_along(Axis::X, 3990, 1000, 1, 0, 0, 0), Ok(4));
    assert_eq!(
        tiles_along(Axis::X, 4011, 1000, 1, 0, 0, 0),
        Err(ConfigError::AtlasMisfit { axis: Axis::X, numerator: 4011, denominator: 1000 })
    );
    assert_eq!(
        tiles_along(Axis::Y, 3989, 1000, 1, 0, 0, 0),
        Err(ConfigError::AtlasMisfit { axis: Axis::Y, numerator: 3989, denominator: 1000 })
    );
    assert_eq!(
        tiles_along(Axis::X, 4500, 1000, 1, 0, 0, 0),
        Err(ConfigError::AtlasMisfit { axis: Axis::X, numerator: 4500, denominator: 1000 })
    );
}

#[test]
fn degenerate_pitch_is_refused() {
    assert_eq!(
        tiles_along(Axis::X, 64, 0, 1, 0, 0, 0),
        Err(ConfigError::AtlasMisfit { axis: Axis::X, numerator: 64, denominator: 0 })
    );
    assert_eq!(
        tiles_along(Axis::Y, 64, 16, -1, 0, 0, 0),
        Err(ConfigError::AtlasMisfit { axis: Axis::Y, numerator: 64, denominator: -16 })
    );
    assert_eq!(
        tiles_along(Axis::X, 64, 16, 0, 0, 0, 0),
        Err(ConfigError::AtlasMisfit { axis: Axis::X, numerator: 64, denominator: 0 })
    );
}

#[test]
fn padding_larger_than_the_atlas_is_refused() {
    assert_eq!(
        tiles_along(Axis::X, 64, 16, 1, 0, 100, 12),
        Err(ConfigError::AtlasMisfit { axis: Axis::X, numerator: -48, denominator: 16 })
    );
}

#[test]
fn empty_atlas_holds_no_tile() {
    assert_eq!(tiles_along(Axis::X, 0, 16, 1, 0, 0, 0), Ok(0));
    assert_eq!(tiles_along(Axis::X, 10, 16, 1, 0, 5, 5), Ok(0));
}

#[test]
fn largest_measurements_do_not_overflow() {
    assert_eq!(tiles_along(Axis::X, u32::MAX, 1, 1, 0, 0, 0), Ok(u32::MAX));
    // span 2^32 - 1 + 1, pitch 1: one tile more than a count can hold
    assert_eq!(
        tiles_along(Axis::X, u32::MAX, 2, -1, 3, 0, 0),
        Err(ConfigError::AtlasMisfit { axis: Axis::X, numerator: 4294967298, denominator: 1 })
    );
    assert_eq!(
        tiles_along(Axis::X, u32::MAX, u32::MAX, i32::MAX, u32::MAX, 0, 0),
        Ok(0)
    );
    assert_eq!(
        tiles_along(Axis::X, 0, u32::MAX, i32::MIN, 0, u32::MAX, u32::MAX),
        Err(ConfigError::AtlasMisfit {
            axis: Axis::X,
            numerator: -8589934590,
            denominator: -9223372034707292160,
        })
    );
}

#[test]
fn layout_starts_without_padding() {
    let layout = AtlasLayout::new(UVec2::new(4, 3), UVec2::new(16, 16));
    assert_eq!(layout.map_size, UVec2::new(4, 3));
    assert_eq!(layout.tile_size, UVec2::new(16, 16));
    assert_eq!(layout.atlas_tile_size_factor, 1);
    assert_eq!(layout.padding(), no_padding());
    assert_eq!(layout.force_n_tiles, None);
    assert_eq!(layout.world_size, WorldOffset { x: 0, y: 0 });
    assert_eq!(layout.n_tiles(UVec2::new(64, 48)), Ok(UVec2::new(4, 3)));
}

#[test]
fn world_size_adds_up_the_four_corners() {
    let p = TileProjection::identity();
    // corners (0,0), (4,0), (0,3), (4,3) add up to (8, 6)
    let size = AtlasLayout::world_size(UVec2::new(4, 3), UVec2::new(16, 16), &p);
    assert_eq!(size, WorldOffset { x: 128, y: 96 });
}

#[test]
fn world_size_counts_the_anchor_at_every_corner() {
    let p = TileProjection::new(Basis::identity(), Anchor { x: 1, y: 1 }, 2).unwrap();
    // each corner (x, y) is projected to (2x + 1, 2y + 1)
    let size = AtlasLayout::world_size(UVec2::new(4, 3), UVec2::new(16, 10), &p);
    assert_eq!(size, WorldOffset { x: 320, y: 160 });
}

#[test]
fn world_size_follows_the_basis() {
    let basis = Basis { x_step: Step { x: 2, y: 1 }, y_step: Step { x: -2, y: 1 } };
    let p = TileProjection::new(basis, Anchor { x: 0, y: 0 }, 1).unwrap();
    // corners: (0,0) -> (0,0); (4,0) -> (8,4); (0,3) -> (-6,3); (4,3) -> (2,7)
    let size = AtlasLayout::world_size(UVec2::new(4, 3), UVec2::new(1, 1), &p);
    assert_eq!(size, WorldOffset { x: 4, y: 14 });
    let mut layout = AtlasLayout::new(UVec2::new(4, 3), UVec2::new(3, 5));
    layout.update_world_size(&p);
    assert_eq!(layout.world_size, WorldOffset { x: 12, y: 70 });
    assert_eq!(layout.map_size, UVec2::new(4, 3));
    assert_eq!(layout.tile_size, UVec2::new(3, 5));
}

#[test]
fn world_size_of_the_largest_map() {
    let basis =
        Basis { x_step: Step { x: i16::MAX, y: i16::MIN }, y_step: Step { x: i16::MAX, y: i16::MIN } };
    let other = Basis { x_step: basis.x_step, y_step: Step { x: 0, y: 1 } };
    let p = TileProjection::new(other, Anchor { x: 65535, y: 65535 }, 65535).unwrap();
    let size = AtlasLayout::world_size(UVec2::new(u32::MAX, u32::MAX), UVec2::new(u32::MAX, 1), &p);
    let v: i128 = 2 * 65535 * (u32::MAX as i128) + 4 * 65535;
    assert_eq!(size.x, (u32::MAX as i128) * (i16::MAX as i128) * v);
    assert_eq!(size.y, (i16::MIN as i128) * v + v);
}
