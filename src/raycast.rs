use vstd::prelude::*;
use crate::fixed::floor_div;
use crate::map::{GridMap, Tile};
use crate::shading::ONE;

verus! {

/// Largest magnitude of a camera coordinate (16.16), 2^31 cells.
pub const POS_LIMIT: i64 = 0x8000_0000_0000;

/// Largest magnitude of a component of the view direction or the view plane (16.16), 16 units.
pub const DIR_LIMIT: i64 = 0x10_0000;

/// The step between grid lines along a ray parallel to them: what a ray component of
/// one 16.16 unit in the last place would give, in place of an infinite one.
pub const DELTA_LIMIT: i128 = 0x1_0000_0000;

/// A bound on the distance to any wall that a ray reaches (16.16).
pub const PERP_LIMIT: i128 = 0x4_0000_0000_0000_0000;

/// Largest screen side, in pixels.
pub const SCREEN_LIMIT: u32 = 0x4000;

/// Where the camera stands and looks, in 16.16 fixed point: its position, its view
/// direction, and the view plane, whose length sets the horizontal field of view.
#[derive(Clone, Copy, PartialEq, Eq, Debug, Structural)]
pub struct Camera {
    pub pos_x: i64,
    pub pos_y: i64,
    pub dir_x: i64,
    pub dir_y: i64,
    pub plane_x: i64,
    pub plane_y: i64,
}

impl Camera {
    pub open spec fn wf(&self) -> bool {
        &&& -POS_LIMIT <= self.pos_x <= POS_LIMIT
        &&& -POS_LIMIT <= self.pos_y <= POS_LIMIT
        &&& -DIR_LIMIT <= self.dir_x <= DIR_LIMIT
        &&& -DIR_LIMIT <= self.dir_y <= DIR_LIMIT
        &&& -DIR_LIMIT <= self.plane_x <= DIR_LIMIT
        &&& -DIR_LIMIT <= self.plane_y <= DIR_LIMIT
    }
}

pub open spec fn abs(v: int) -> int {
    if v < 0 {
        -v
    } else {
        v
    }
}

/// The offset of screen column `x` of `w` along the view plane, from -1 to 1 (16.16).
pub open spec fn camera_x(x: int, w: int) -> int {
    (2 * x * ONE) / w - ONE
}

/// The direction of the ray through column `x`: `dir + plane * camera_x`.
pub open spec fn ray_x(cam: Camera, x: int, w: int) -> int {
    cam.dir_x + (cam.plane_x * camera_x(x, w)) / (ONE as int)
}

pub open spec fn ray_y(cam: Camera, x: int, w: int) -> int {
    cam.dir_y + (cam.plane_y * camera_x(x, w)) / (ONE as int)
}

/// The distance along a ray between two grid lines of one axis, for the ray's
/// component `r` on that axis.
pub open spec fn delta_spec(r: int) -> int {
    if r == 0 {
        DELTA_LIMIT as int
    } else {
        (ONE * ONE) / abs(r)
    }
}

/// The direction in which the cell index moves along an axis.
pub open spec fn step_spec(r: int) -> int {
    if r < 0 {
        -1
    } else {
        1
    }
}

/// The distance along the ray from `pos` to the first grid line it crosses on one axis.
pub open spec fn first_side(pos: int, r: int) -> int {
    let cell = pos / (ONE as int);
    if r < 0 {
        ((pos - cell * ONE) * delta_spec(r)) / (ONE as int)
    } else {
        (((cell + 1) * ONE - pos) * delta_spec(r)) / (ONE as int)
    }
}

/// Grid traversal: from cell `(mx, my)`, with `sx` and `sy` the distances to the next
/// grid line of each axis, step into whichever cell is nearer, at most `fuel` times.
/// Gives the first occupied cell, with the distances after the step that reached it
/// and whether that step was along y; `None` on leaving the grid or running out of steps.
pub open spec fn dda(
    map: GridMap,
    dx: int,
    dy: int,
    stx: int,
    sty: int,
    mx: int,
    my: int,
    sx: int,
    sy: int,
    fuel: nat,
) -> Option<(int, int, int, int, bool)>
    decreases fuel,
{
    if fuel == 0 {
        None
    } else {
        let xstep = sx < sy;
        let nmx = if xstep { mx + stx } else { mx };
        let nmy = if xstep { my } else { my + sty };
        let nsx = if xstep { sx + dx } else { sx };
        let nsy = if xstep { sy } else { sy + dy };
        if nmx < 0 || nmy < 0 {
            None
        } else {
            match map.tile_at(nmx, nmy) {
                None => None,
                Some(Tile::Empty) => dda(map, dx, dy, stx, sty, nmx, nmy, nsx, nsy, (fuel - 1) as nat),
                Some(_) => Some((nmx, nmy, nsx, nsy, !xstep)),
            }
        }
    }
}

/// The most steps a ray takes before a column is given up: the width plus the height of the grid.
pub open spec fn max_steps(map: GridMap) -> nat {
    map.spec_width() + map.spec_height()
}

/// The traversal for screen column `x` of `w`.
pub open spec fn cast_spec(map: GridMap, cam: Camera, x: int, w: int) -> Option<(int, int, int, int, bool)> {
    if cam.pos_x < 0 || cam.pos_y < 0 {
        None
    } else {
        let rx = ray_x(cam, x, w);
        let ry = ray_y(cam, x, w);
        dda(
            map,
            delta_spec(rx),
            delta_spec(ry),
            step_spec(rx),
            step_spec(ry),
            (cam.pos_x as int) / (ONE as int),
            (cam.pos_y as int) / (ONE as int),
            first_side(cam.pos_x as int, rx),
            first_side(cam.pos_y as int, ry),
            max_steps(map),
        )
    }
}

/// The distance to the wall hit in column `x`, measured along the view direction
/// (not along the ray, which would bend straight walls).
pub open spec fn perp_spec(map: GridMap, cam: Camera, x: int, w: int) -> int {
    let h = cast_spec(map, cam, x, w).unwrap();
    if h.4 {
        h.3 - delta_spec(ray_y(cam, x, w))
    } else {
        h.2 - delta_spec(ray_x(cam, x, w))
    }
}

/// The hit in column `x`, where `cast_spec` finds one.
pub open spec fn hit_spec(map: GridMap, cam: Camera, x: int, w: int) -> WallHit {
    let c = cast_spec(map, cam, x, w).unwrap();
    WallHit {
        map_x: c.0 as u32,
        map_y: c.1 as u32,
        tile: map.tile_at(c.0, c.1).unwrap(),
        side: c.4,
        perp_dist: perp_spec(map, cam, x, w) as i128,
        ray_x: ray_x(cam, x, w) as i128,
        ray_y: ray_y(cam, x, w) as i128,
    }
}

/// What the ray of one screen column hit.
#[derive(Clone, Copy, PartialEq, Eq, Debug, Structural)]
pub struct WallHit {
    /// The occupied cell.
    pub map_x: u32,
    pub map_y: u32,
    pub tile: Tile,
    /// Whether the face struck lies along the x axis (the ray crossed a horizontal grid line).
    pub side: bool,
    /// Distance to the wall along the view direction (16.16).
    pub perp_dist: i128,
    /// The ray's direction (16.16).
    pub ray_x: i128,
    pub ray_y: i128,
}

/// A screen of `w` columns that fits the renderer's arithmetic.
pub open spec fn screen_ok(w: int) -> bool {
    1 <= w <= SCREEN_LIMIT
}

/// The direction of the ray through column `x` of a `w` column screen.
pub fn column_ray(cam: &Camera, x: u32, w: u32) -> (r: (i128, i128))
    requires
        cam.wf(),
        screen_ok(w as int),
        x < w,
    ensures
        r.0 == ray_x(*cam, x as int, w as int),
        r.1 == ray_y(*cam, x as int, w as int),
        abs(r.0 as int) <= 2 * DIR_LIMIT,
        abs(r.1 as int) <= 2 * DIR_LIMIT,
{
    let num: i128 = (x as i128) * 131072;
    assert(num == 2 * x * ONE);
    assert(2 * x * ONE < 2 * w * ONE) by (nonlinear_arith)
        requires
            x < w,
    ;
    assert(0 <= 2 * x * ONE);
    proof {
        vstd::arithmetic::div_mod::lemma_div_is_ordered(num as int, (2 * w * ONE) as int, w as int);
        vstd::arithmetic::div_mod::lemma_div_multiples_vanish((2 * ONE) as int, w as int);
        assert((2 * w * ONE) == w * (2 * ONE)) by (nonlinear_arith);
    }
    let cx: i128 = num / w as i128 - ONE as i128;
    assert(cx == camera_x(x as int, w as int));
    assert(-ONE <= cx <= ONE);
    assert(-DIR_LIMIT * ONE <= cam.plane_x * cx <= DIR_LIMIT * ONE) by (nonlinear_arith)
        requires
            -ONE <= cx <= ONE,
            -DIR_LIMIT <= cam.plane_x <= DIR_LIMIT,
    ;
    assert(-DIR_LIMIT * ONE <= cam.plane_y * cx <= DIR_LIMIT * ONE) by (nonlinear_arith)
        requires
            -ONE <= cx <= ONE,
            -DIR_LIMIT <= cam.plane_y <= DIR_LIMIT,
    ;
    let px = floor_div(cam.plane_x as i128 * cx, ONE as i128);
    let py = floor_div(cam.plane_y as i128 * cx, ONE as i128);
    proof {
        lemma_div_between((cam.plane_x * cx) as int, -DIR_LIMIT as int, DIR_LIMIT as int, ONE as int);
        lemma_div_between((cam.plane_y * cx) as int, -DIR_LIMIT as int, DIR_LIMIT as int, ONE as int);
    }
    (cam.dir_x as i128 + px, cam.dir_y as i128 + py)
}

fn delta_of(r: i128) -> (d: i128)
    requires
        abs(r as int) <= 2 * DIR_LIMIT,
    ensures
        d == delta_spec(r as int),
        1 <= d <= DELTA_LIMIT,
{
    if r == 0 {
        DELTA_LIMIT
    } else {
        let a: i128 = if r < 0 {
            -r
        } else {
            r
        };
        proof {
            vstd::arithmetic::div_mod::lemma_div_is_ordered_by_denominator(0x1_0000_0000, a as int, 0x20_0000);
            vstd::arithmetic::div_mod::lemma_div_is_ordered_by_denominator(0x1_0000_0000, 1, a as int);
            assert(0x1_0000_0000int / 0x20_0000int == 0x800);
        }
        0x1_0000_0000 / a
    }
}

fn first_side_of(pos: i64, r: i128, d: i128) -> (s: i128)
    requires
        0 <= pos <= POS_LIMIT,
        d == delta_spec(r as int),
        1 <= d <= DELTA_LIMIT,
    ensures
        s == first_side(pos as int, r as int),
        0 <= s <= DELTA_LIMIT,
{
    let cell: i128 = pos as i128 / 65536;
    proof {
        vstd::arithmetic::div_mod::lemma_fundamental_div_mod(pos as int, 65536);
    }
    let frac: i128 = if r < 0 {
        pos as i128 - cell * 65536
    } else {
        (cell + 1) * 65536 - pos as i128
    };
    assert(0 <= frac * d <= 65536 * DELTA_LIMIT) by (nonlinear_arith)
        requires
            0 <= frac <= 65536,
            1 <= d <= DELTA_LIMIT,
    ;
    proof {
        lemma_div_between((frac * d) as int, 0, DELTA_LIMIT as int, 65536);
    }
    (frac * d) / 65536
}

/// Casts the ray of screen column `x` of `w` through the grid, stepping cell by cell,
/// and reports the first occupied cell. `None` where the camera stands at a negative
/// position, where the ray leaves the grid, or where it takes more than `max_steps`
/// steps; a cell with a negative coordinate is never looked up.
pub fn cast_ray(map: &GridMap, cam: &Camera, x: u32, w: u32) -> (r: Option<WallHit>)
    requires
        map.wf(),
        cam.wf(),
        screen_ok(w as int),
        x < w,
    ensures
        r.is_some() == cast_spec(*map, *cam, x as int, w as int).is_some(),
        r.is_some() ==> r.unwrap() == hit_spec(*map, *cam, x as int, w as int),
        r.is_some() ==> {
            let h = r.unwrap();
            let c = cast_spec(*map, *cam, x as int, w as int).unwrap();
            &&& h.map_x == c.0
            &&& h.map_y == c.1
            &&& h.side == c.4
            &&& map.tile_at(h.map_x as int, h.map_y as int) == Some(h.tile)
            &&& h.tile != Tile::Empty
            &&& h.perp_dist == perp_spec(*map, *cam, x as int, w as int)
            &&& 0 <= h.perp_dist <= PERP_LIMIT
            &&& abs(h.ray_x as int) <= 2 * DIR_LIMIT
            &&& abs(h.ray_y as int) <= 2 * DIR_LIMIT
            &&& h.ray_x == ray_x(*cam, x as int, w as int)
            &&& h.ray_y == ray_y(*cam, x as int, w as int)
        },
{
    if cam.pos_x < 0 || cam.pos_y < 0 {
        return None;
    }
    let (rx, ry) = column_ray(cam, x, w);
    let dx = delta_of(rx);
    let dy = delta_of(ry);
    let stx: i64 = if rx < 0 {
        -1
    } else {
        1
    };
    let sty: i64 = if ry < 0 {
        -1
    } else {
        1
    };
    let mut mx: i64 = cam.pos_x / 65536;
    let mut my: i64 = cam.pos_y / 65536;
    let mut sx: i128 = first_side_of(cam.pos_x, rx, dx);
    let mut sy: i128 = first_side_of(cam.pos_y, ry, dy);
    let fuel: u64 = map.width() as u64 + map.height() as u64;
    let ghost mx0 = mx as int;
    let ghost my0 = my as int;
    let ghost sx0 = sx as int;
    let ghost sy0 = sy as int;
    let ghost whole = dda(*map, dx as int, dy as int, stx as int, sty as int, mx0, my0, sx0, sy0, fuel as nat);
    assert(whole == cast_spec(*map, *cam, x as int, w as int));
    let mut k: u64 = 0;
    while k < fuel
        invariant
            map.wf(),
            whole == cast_spec(*map, *cam, x as int, w as int),
            rx == ray_x(*cam, x as int, w as int),
            ry == ray_y(*cam, x as int, w as int),
            abs(rx as int) <= 2 * DIR_LIMIT,
            abs(ry as int) <= 2 * DIR_LIMIT,
            dx == delta_spec(rx as int),
            dy == delta_spec(ry as int),
            k <= fuel,
            fuel == max_steps(*map),
            fuel <= 2 * u32::MAX,
            1 <= dx <= DELTA_LIMIT,
            1 <= dy <= DELTA_LIMIT,
            stx == -1 || stx == 1,
            sty == -1 || sty == 1,
            0 <= mx0 <= 0x8000_0000,
            0 <= my0 <= 0x8000_0000,
            mx0 - k <= mx <= mx0 + k,
            my0 - k <= my <= my0 + k,
            0 <= sx <= (k + 1) * DELTA_LIMIT,
            0 <= sy <= (k + 1) * DELTA_LIMIT,
            whole == dda(*map, dx as int, dy as int, stx as int, sty as int, mx as int, my as int, sx as int, sy as int, (fuel - k) as nat),
        decreases fuel - k,
    {
        let ghost (omx, omy, osx, osy) = (mx as int, my as int, sx as int, sy as int);
        let ghost f = (fuel - k) as nat;
        let xstep = sx < sy;
        if xstep {
            sx = sx + dx;
            mx = mx + stx;
        } else {
            sy = sy + dy;
            my = my + sty;
        }
        k = k + 1;
        assert(whole == dda(*map, dx as int, dy as int, stx as int, sty as int, omx, omy, osx, osy, f));
        assert(dda(*map, dx as int, dy as int, stx as int, sty as int, omx, omy, osx, osy, f) == if mx < 0 || my < 0 {
            None
        } else {
            match map.tile_at(mx as int, my as int) {
                None => None,
                Some(Tile::Empty) => dda(*map, dx as int, dy as int, stx as int, sty as int, mx as int, my as int, sx as int, sy as int, (f - 1) as nat),
                Some(_) => Some((mx as int, my as int, sx as int, sy as int, !xstep)),
            }
        });
        if mx < 0 || my < 0 || mx >= map.width() as i64 || my >= map.height() as i64 {
            return None;
        }
        match map.get_tile(mx as u32, my as u32) {
            None => {
                return None;
            },
            Some(t) => {
                match *t {
                    Tile::Empty => {},
                    _ => {
                        let perp = if xstep {
                            sx - dx
                        } else {
                            sy - dy
                        };
                        return Some(
                            WallHit {
                                map_x: mx as u32,
                                map_y: my as u32,
                                tile: *t,
                                side: !xstep,
                                perp_dist: perp,
                                ray_x: rx,
                                ray_y: ry,
                            },
                        );
                    },
                }
            },
        }
    }
    None
}

/// Cells left before the border, moving in direction `st` from `m` on an axis of `n` cells.
pub open spec fn to_border(m: int, st: int, n: int) -> int {
    if st > 0 {
        n - 1 - m
    } else {
        m
    }
}

/// A cell strictly inside the border of the grid.
pub open spec fn interior(map: GridMap, mx: int, my: int) -> bool {
    1 <= mx <= map.spec_width() - 2 && 1 <= my <= map.spec_height() - 2
}

proof fn lemma_dda_hits(
    map: GridMap,
    dx: int,
    dy: int,
    stx: int,
    sty: int,
    mx: int,
    my: int,
    sx: int,
    sy: int,
    fuel: nat,
)
    requires
        map.wf(),
        map.bordered(),
        stx == -1 || stx == 1,
        sty == -1 || sty == 1,
        interior(map, mx, my),
        fuel + 1 >= to_border(mx, stx, map.spec_width() as int) + to_border(my, sty, map.spec_height() as int),
    ensures
        dda(map, dx, dy, stx, sty, mx, my, sx, sy, fuel) matches Some(h) && 0 <= h.0 < map.spec_width() && 0
            <= h.1 < map.spec_height(),
    decreases fuel,
{
    let xstep = sx < sy;
    let nmx = if xstep { mx + stx } else { mx };
    let nmy = if xstep { my } else { my + sty };
    let nsx = if xstep { sx + dx } else { sx };
    let nsy = if xstep { sy } else { sy + dy };
    assert(map.tile_at(nmx, nmy).is_some());
    if map.tile_at(nmx, nmy) == Some(Tile::Empty) {
        assert(interior(map, nmx, nmy));
        lemma_dda_hits(map, dx, dy, stx, sty, nmx, nmy, nsx, nsy, (fuel - 1) as nat);
    }
}

/// In a grid whose border is all occupied, a camera standing in a cell inside the
/// border sees a wall in every column: the ray never leaves the grid, never looks up
/// a negative cell, and hits within `max_steps` steps a cell of the grid.
pub proof fn lemma_bordered_cast_hits(map: GridMap, cam: Camera, x: int, w: int)
    requires
        map.wf(),
        map.bordered(),
        cam.wf(),
        screen_ok(w),
        0 <= x < w,
        0 <= cam.pos_x,
        0 <= cam.pos_y,
        interior(map, (cam.pos_x as int) / (ONE as int), (cam.pos_y as int) / (ONE as int)),
    ensures
        cast_spec(map, cam, x, w) matches Some(h) && 0 <= h.0 < map.spec_width() && 0 <= h.1
            < map.spec_height(),
{
    let rx = ray_x(cam, x, w);
    let ry = ray_y(cam, x, w);
    lemma_dda_hits(
        map,
        delta_spec(rx),
        delta_spec(ry),
        step_spec(rx),
        step_spec(ry),
        (cam.pos_x as int) / (ONE as int),
        (cam.pos_y as int) / (ONE as int),
        first_side(cam.pos_x as int, rx),
        first_side(cam.pos_y as int, ry),
        max_steps(map),
    );
}

/// Dividing by a positive `d` keeps a value that lies between `lo * d` and `hi * d`
/// between `lo` and `hi`.
pub proof fn lemma_div_between(v: int, lo: int, hi: int, d: int)
    requires
        d > 0,
        lo * d <= v <= hi * d,
    ensures
        lo <= v / d <= hi,
{
    vstd::arithmetic::div_mod::lemma_div_is_ordered(lo * d, v, d);
    vstd::arithmetic::div_mod::lemma_div_is_ordered(v, hi * d, d);
    vstd::arithmetic::div_mod::lemma_div_multiples_vanish(lo, d);
    vstd::arithmetic::div_mod::lemma_div_multiples_vanish(hi, d);
    assert(lo * d == d * lo && hi * d == d * hi) by (nonlinear_arith);
}

} // verus!
