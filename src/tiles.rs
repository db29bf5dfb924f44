use vstd::prelude::*;

verus! {

/// The deepest zoom level a tile key may name.
pub const MAX_ZOOM: u8 = 24;

/// `2^n`.
pub open spec fn pow2(n: nat) -> nat
    decreases n,
{
    if n == 0 {
        1
    } else {
        2 * pow2((n - 1) as nat)
    }
}

/// A tile key is valid when `z <= 24` and both `x` and `y` lie in `[0, 2^z)`.
pub open spec fn tile_valid(z: u8, x: u32, y: u32) -> bool {
    z <= MAX_ZOOM && (x as nat) < pow2(z as nat) && (y as nat) < pow2(z as nat)
}

/// The bounds of a tile in Web Mercator, exactly: each coordinate is
/// `value * HALF_WORLD / scale`, where `HALF_WORLD` is the Mercator half-extent
/// (20037508.342789244 m) and `scale = 2^z`. The world square is
/// `[-scale, scale]` in these units, and every tile is two units wide.
#[derive(Debug, Clone, Copy, PartialEq, Eq, Structural)]
pub struct TileBounds {
    pub minx: i64,
    pub miny: i64,
    pub maxx: i64,
    pub maxy: i64,
    pub scale: u64,
}

/// The slippy-tile bounds of `(z, x, y)`; `y` grows southwards.
pub open spec fn spec_tile_bounds(z: u8, x: u32, y: u32) -> TileBounds {
    let s = pow2(z as nat) as int;
    TileBounds {
        minx: (2 * x - s) as i64,
        miny: (s - 2 * y - 2) as i64,
        maxx: (2 * x + 2 - s) as i64,
        maxy: (s - 2 * y) as i64,
        scale: s as u64,
    }
}

pub proof fn lemma_pow2_positive(n: nat)
    ensures
        pow2(n) >= 1,
    decreases n,
{
    if n > 0 {
        lemma_pow2_positive((n - 1) as nat);
    }
}

pub proof fn lemma_pow2_monotone(a: nat, b: nat)
    requires
        a <= b,
    ensures
        pow2(a) <= pow2(b),
    decreases b,
{
    if a < b {
        lemma_pow2_monotone(a, (b - 1) as nat);
        lemma_pow2_positive((b - 1) as nat);
    }
}

proof fn lemma_pow2_max_zoom()
    ensures
        pow2(MAX_ZOOM as nat) == 16777216,
{
    reveal_with_fuel(pow2, 25);
}

/// Tells whether `(z, x, y)` names a tile of the grid.
pub fn is_valid_tile(z: u8, x: u32, y: u32) -> (r: bool)
    ensures
        r == tile_valid(z, x, y),
{
    if z > MAX_ZOOM {
        return false;
    }
    let side = grid_side(z);
    (x as u64) < side && (y as u64) < side
}

/// The number of tiles along each axis at zoom `z`.
fn grid_side(z: u8) -> (r: u64)
    requires
        z <= MAX_ZOOM,
    ensures
        r as nat == pow2(z as nat),
        r <= 16777216,
{
    let mut side: u64 = 1;
    let mut i: u8 = 0;
    while i < z
        invariant
            i <= z <= MAX_ZOOM,
            side as nat == pow2(i as nat),
        decreases z - i,
    {
        proof {
            lemma_pow2_monotone((i + 1) as nat, MAX_ZOOM as nat);
            lemma_pow2_max_zoom();
        }
        side = side * 2;
        i = i + 1;
    }
    proof {
        lemma_pow2_monotone(z as nat, MAX_ZOOM as nat);
        lemma_pow2_max_zoom();
    }
    side
}

/// The Web Mercator bounds of a valid tile, in units of `HALF_WORLD / 2^z`.
pub fn tile_bounds(z: u8, x: u32, y: u32) -> (b: TileBounds)
    requires
        tile_valid(z, x, y),
    ensures
        b == spec_tile_bounds(z, x, y),
{
    let s = grid_side(z) as i64;
    let x = x as i64;
    let y = y as i64;
    TileBounds { minx: 2 * x - s, miny: s - 2 * y - 2, maxx: 2 * x + 2 - s, maxy: s - 2 * y, scale: s as u64 }
}

/// The single tile at zoom 0 covers the whole Web Mercator square.
pub proof fn lemma_world_tile()
    ensures
        spec_tile_bounds(0, 0, 0) == (TileBounds { minx: -1i64, miny: -1i64, maxx: 1i64, maxy: 1i64, scale: 1u64 }),
{
    reveal_with_fuel(pow2, 1);
}

/// Every valid tile lies inside the world square and is two units wide and high.
pub proof fn lemma_tile_inside_world(z: u8, x: u32, y: u32)
    requires
        tile_valid(z, x, y),
    ensures
        ({
            let b = spec_tile_bounds(z, x, y);
            &&& -(b.scale as int) <= b.minx < b.maxx <= b.scale as int
            &&& -(b.scale as int) <= b.miny < b.maxy <= b.scale as int
            &&& b.maxx - b.minx == 2
            &&& b.maxy - b.miny == 2
        }),
{
    lemma_pow2_monotone(z as nat, MAX_ZOOM as nat);
    lemma_pow2_max_zoom();
}

/// The four children of a tile partition it exactly: measured at the child
/// scale (twice the parent's), the western children start on the parent's
/// western edge and the eastern ones end on its eastern edge, the northern
/// children start on its northern edge and the southern ones end on its
/// southern edge, and neighbouring children share their common edge.
pub proof fn lemma_children_partition(z: u8, x: u32, y: u32)
    requires
        tile_valid(z, x, y),
        z < MAX_ZOOM,
    ensures
        ({
            let p = spec_tile_bounds(z, x, y);
            let nw = spec_tile_bounds((z + 1) as u8, (2 * x) as u32, (2 * y) as u32);
            let ne = spec_tile_bounds((z + 1) as u8, (2 * x + 1) as u32, (2 * y) as u32);
            let sw = spec_tile_bounds((z + 1) as u8, (2 * x) as u32, (2 * y + 1) as u32);
            let se = spec_tile_bounds((z + 1) as u8, (2 * x + 1) as u32, (2 * y + 1) as u32);
            &&& tile_valid((z + 1) as u8, (2 * x) as u32, (2 * y) as u32)
            &&& tile_valid((z + 1) as u8, (2 * x + 1) as u32, (2 * y + 1) as u32)
            &&& nw.scale == 2 * p.scale && se.scale == 2 * p.scale
            &&& nw.minx == 2 * p.minx && sw.minx == 2 * p.minx
            &&& ne.maxx == 2 * p.maxx && se.maxx == 2 * p.maxx
            &&& nw.maxy == 2 * p.maxy && ne.maxy == 2 * p.maxy
            &&& sw.miny == 2 * p.miny && se.miny == 2 * p.miny
            &&& nw.maxx == ne.minx && sw.maxx == se.minx
            &&& nw.miny == sw.maxy && ne.miny == se.maxy
            &&& nw.minx == sw.minx && nw.maxx == sw.maxx
            &&& ne.minx == se.minx && ne.maxx == se.maxx
            &&& nw.miny == ne.miny && nw.maxy == ne.maxy
            &&& sw.miny == se.miny && sw.maxy == se.maxy
        }),
{
    let s = pow2(z as nat);
    lemma_pow2_monotone((z + 1) as nat, MAX_ZOOM as nat);
    lemma_pow2_monotone(z as nat, MAX_ZOOM as nat);
    lemma_pow2_max_zoom();
    assert(pow2((z + 1) as nat) == 2 * s);
}

} // verus!
