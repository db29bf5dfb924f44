use tileyolo::{is_valid_tile, tile_bounds, TileBounds, MAX_ZOOM};

fn bounds(minx: i64, miny: i64, maxx: i64, maxy: i64, scale: u64) -> TileBounds {
    TileBounds { minx, miny, maxx, maxy, scale }
}

#[test]
fn world_tile_is_the_whole_square() {
    assert_eq!(tile_bounds(0, 0, 0), bounds(-1, -1, 1, 1, 1));
}

#[test]
fn first_tile_of_zoom_one_is_the_north_west_quarter() {
    // (-H, 0, 0, H) with H the Mercator half-extent.
    assert_eq!(tile_bounds(1, 0, 0), bounds(-2, 0, 0, 2, 2));
}

#[test]
fn zoom_one_children_partition_the_world() {
    let nw = tile_bounds(1, 0, 0);
    let ne = tile_bounds(1, 1, 0);
    let sw = tile_bounds(1, 0, 1);
    let se = tile_bounds(1, 1, 1);
    assert_eq!(ne, bounds(0, 0, 2, 2, 2));
    assert_eq!(sw, bounds(-2, -2, 0, 0, 2));
    assert_eq!(se, bounds(0, -2, 2, 0, 2));
    assert_eq!(nw.maxx, ne.minx);
    assert_eq!(nw.miny, sw.maxy);
    let area: i64 = [nw, ne, sw, se].iter().map(|b| (b.maxx - b.minx) * (b.maxy - b.miny)).sum();
    assert_eq!(area, 4 * 4);
}

#[test]
fn deepest_tile_is_at_the_south_east_corner() {
    let last = (1u32 << 24) - 1;
    let b = tile_bounds(MAX_ZOOM, last, last);
    assert_eq!(b, bounds((1 << 24) - 2, -(1 << 24), 1 << 24, -(1 << 24) + 2, 1 << 24));
}

#[test]
fn tiles_outside_the_grid_are_invalid() {
    assert!(is_valid_tile(0, 0, 0));
    assert!(is_valid_tile(2, 3, 3));
    assert!(!is_valid_tile(2, 4, 0));
    assert!(!is_valid_tile(2, 0, 4));
    assert!(!is_valid_tile(25, 0, 0));
    assert!(is_valid_tile(24, (1 << 24) - 1, 0));
}
