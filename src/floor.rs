use vstd::prelude::*;
use crate::fixed::{floor_div, floor_mod};
use crate::frame::{frame_ok, pixel_at, put_pixel};
use crate::graphics::{is_pow2, lemma_pow2_positive, lemma_wrap_in_range, Color, Texture};
use crate::raycast::{Camera, DIR_LIMIT, POS_LIMIT, SCREEN_LIMIT};
use crate::shading::{darken, darken_color, divisor_spec, shade_divisor, FLOOR_SHADE_DEN, FLOOR_SHADE_NUM, ONE};

verus! {

/// The colour of the horizon row, infinitely far away and so fully dark.
pub open spec fn horizon_color() -> Color {
    Color { r: 0, g: 0, b: 0, a: 255 }
}

/// The distance to the floor seen at `p` rows below the horizon of a screen `h`
/// rows high (16.16): half the screen height over `p`.
pub open spec fn row_distance(h: int, p: int) -> int {
    (h * ONE) / (2 * p)
}

/// The world coordinate on one axis of the floor point seen in column `col` of the row
/// at distance `rd`: the left-edge ray `dir - plane` reaches `pos + rd * ray`, and each
/// column steps a fixed share of the way to the right-edge ray `dir + plane`.
pub open spec fn floor_world(pos: int, dir: int, plane: int, rd: int, w: int, col: int) -> int {
    let r0 = dir - plane;
    let r1 = dir + plane;
    pos + (rd * r0) / (ONE as int) + col * ((rd * (r1 - r0)) / (ONE * w))
}

/// The texture coordinate for a world coordinate `v`: its fractional part scaled to a
/// texture side `n`, wrapped with the mask `n - 1`.
pub open spec fn floor_tex_coord(v: int, n: int) -> int {
    (((((v % (ONE as int)) * n) / (ONE as int)) as u32) & ((n - 1) as u32)) as int
}

/// The colour of column `col` in the floor row `y` (at or below the horizon), drawn from
/// `tex`; the ceiling row mirrored from it takes the same colour from its own texture.
pub open spec fn plane_pixel(cam: Camera, tex: Texture, light: u64, w: int, h: int, y: int, col: int) -> Color {
    let p = y - h / 2;
    if p == 0 {
        horizon_color()
    } else {
        let rd = row_distance(h, p);
        let fx = floor_world(cam.pos_x as int, cam.dir_x as int, cam.plane_x as int, rd, w, col);
        let fy = floor_world(cam.pos_y as int, cam.dir_y as int, cam.plane_y as int, rd, w, col);
        darken(
            tex.texel(floor_tex_coord(fx, tex.spec_width() as int), floor_tex_coord(fy, tex.spec_height() as int)),
            true,
            divisor_spec(rd as nat, light as nat, FLOOR_SHADE_NUM, FLOOR_SHADE_DEN) as u8,
        )
    }
}

/// Every texture coordinate that the floor and ceiling sample lies inside the texture,
/// whatever the world position, for a texture side that is a power of two.
pub proof fn lemma_floor_tex_coord_in_range(v: int, n: int)
    requires
        1 <= n <= u32::MAX,
    ensures
        0 <= floor_tex_coord(v, n) < n,
{
    let raw = ((((v % (ONE as int)) * n) / (ONE as int)) as u32);
    lemma_wrap_in_range(raw, n as u32);
}

fn plane_tex_coord(v: i128, n: u32) -> (r: u32)
    requires
        n >= 1,
    ensures
        r == floor_tex_coord(v as int, n as int),
        r < n,
{
    let frac = floor_mod(v, 65536);
    assert(0 <= frac * n < 65536 * n) by (nonlinear_arith)
        requires
            0 <= frac < 65536,
            n >= 1,
    ;
    proof {
        vstd::arithmetic::div_mod::lemma_multiply_divide_lt((frac * n) as int, 65536, n as int);
        vstd::arithmetic::div_mod::lemma_div_pos_is_pos((frac * n) as int, 65536);
    }
    let raw: u32 = ((frac * n as i128) / 65536) as u32;
    proof {
        lemma_wrap_in_range(raw, n);
    }
    raw & (n - 1)
}

/// Draws floor row `y` (at or below the horizon) and the ceiling row mirrored from it,
/// `h - 1 - y`; the ceiling wins where the two rows are one.
pub fn draw_plane_row(
    screen: &mut Vec<u8>,
    w: u32,
    h: u32,
    y: u32,
    cam: &Camera,
    floor: &Texture,
    ceil: &Texture,
    light: u64,
)
    requires
        frame_ok(old(screen)@, w as int, h as int),
        h / 2 <= y < h,
        cam.wf(),
        floor.wf(),
        ceil.wf(),
    ensures
        frame_ok(final(screen)@, w as int, h as int),
        forall|px: int, py: int|
            0 <= px < w && 0 <= py < h ==> #[trigger] pixel_at(final(screen)@, w as int, px, py) == if py == h
                - 1 - y {
                plane_pixel(*cam, *ceil, light, w as int, h as int, y as int, px)
            } else if py == y {
                plane_pixel(*cam, *floor, light, w as int, h as int, y as int, px)
            } else {
                pixel_at(old(screen)@, w as int, px, py)
            },
{
    let p: i128 = y as i128 - (h / 2) as i128;
    let ww: i128 = w as i128;
    let mut rd: i128 = 0;
    let mut step_x: i128 = 0;
    let mut step_y: i128 = 0;
    let mut fx: i128 = 0;
    let mut fy: i128 = 0;
    let mut div: u8 = 1;
    if p != 0 {
        assert(2 * p >= 2);
        rd = (h as i128 * 65536) / (2 * p);
        proof {
            vstd::arithmetic::div_mod::lemma_div_is_ordered_by_denominator((h * ONE) as int, 1, 2 * p as int);
            vstd::arithmetic::div_mod::lemma_div_pos_is_pos((h * ONE) as int, 2 * p as int);
        }
        assert(0 <= rd <= SCREEN_LIMIT * ONE);
        let r0x: i128 = cam.dir_x as i128 - cam.plane_x as i128;
        let r0y: i128 = cam.dir_y as i128 - cam.plane_y as i128;
        let r1x: i128 = cam.dir_x as i128 + cam.plane_x as i128;
        let r1y: i128 = cam.dir_y as i128 + cam.plane_y as i128;
        proof {
            lemma_mul_bound(rd as int, r0x as int, SCREEN_LIMIT * ONE, 4 * DIR_LIMIT);
            lemma_mul_bound(rd as int, r0y as int, SCREEN_LIMIT * ONE, 4 * DIR_LIMIT);
            lemma_mul_bound(rd as int, (r1x - r0x) as int, SCREEN_LIMIT * ONE, 4 * DIR_LIMIT);
            lemma_mul_bound(rd as int, (r1y - r0y) as int, SCREEN_LIMIT * ONE, 4 * DIR_LIMIT);
        }
        proof {
            let lim: int = 0x10_0000_0000;
            assert(SCREEN_LIMIT * ONE * (4 * DIR_LIMIT) == lim * 65536);
            crate::raycast::lemma_div_between((rd * r0x) as int, -lim, lim, 65536);
            crate::raycast::lemma_div_between((rd * r0y) as int, -lim, lim, 65536);
            assert(-lim * (65536 * ww) <= rd * (r1x - r0x) <= lim * (65536 * ww)) by (nonlinear_arith)
                requires
                    -lim * 65536 <= rd * (r1x - r0x) <= lim * 65536,
                    ww >= 1,
                    lim >= 0,
            ;
            assert(-lim * (65536 * ww) <= rd * (r1y - r0y) <= lim * (65536 * ww)) by (nonlinear_arith)
                requires
                    -lim * 65536 <= rd * (r1y - r0y) <= lim * 65536,
                    ww >= 1,
                    lim >= 0,
            ;
            crate::raycast::lemma_div_between((rd * (r1x - r0x)) as int, -lim, lim, (65536 * ww) as int);
            crate::raycast::lemma_div_between((rd * (r1y - r0y)) as int, -lim, lim, (65536 * ww) as int);
        }
        fx = cam.pos_x as i128 + floor_div(rd * r0x, 65536);
        fy = cam.pos_y as i128 + floor_div(rd * r0y, 65536);
        step_x = floor_div(rd * (r1x - r0x), 65536 * ww);
        step_y = floor_div(rd * (r1y - r0y), 65536 * ww);
        div = shade_divisor(rd as u64, light, FLOOR_SHADE_NUM, FLOOR_SHADE_DEN);
    }
    let ghost fx0 = fx as int;
    let ghost fy0 = fy as int;
    proof {
        lemma_pow2_positive(floor.spec_width());
        lemma_pow2_positive(floor.spec_height());
        lemma_pow2_positive(ceil.spec_width());
        lemma_pow2_positive(ceil.spec_height());
    }
    let mut col: u32 = 0;
    while col < w
        invariant
            frame_ok(screen@, w as int, h as int),
            h / 2 <= y < h,
            p == y - h / 2,
            col <= w,
            floor.wf(),
            ceil.wf(),
            p != 0 ==> {
                &&& rd == row_distance(h as int, p as int)
                &&& fx == floor_world(cam.pos_x as int, cam.dir_x as int, cam.plane_x as int, rd as int, w as int, col as int)
                &&& fy == floor_world(cam.pos_y as int, cam.dir_y as int, cam.plane_y as int, rd as int, w as int, col as int)
                &&& div == divisor_spec(rd as nat, light as nat, FLOOR_SHADE_NUM, FLOOR_SHADE_DEN)
                &&& step_x == (rd * ((cam.dir_x + cam.plane_x) - (cam.dir_x - cam.plane_x))) / (ONE * w)
                &&& step_y == (rd * ((cam.dir_y + cam.plane_y) - (cam.dir_y - cam.plane_y))) / (ONE * w)
            },
            div >= 1,
            -0x10_0000_0000 <= step_x <= 0x10_0000_0000,
            -0x10_0000_0000 <= step_y <= 0x10_0000_0000,
            -0x1_0000_0000_0000 - col * 0x10_0000_0000 <= fx <= 0x1_0000_0000_0000 + col * 0x10_0000_0000,
            -0x1_0000_0000_0000 - col * 0x10_0000_0000 <= fy <= 0x1_0000_0000_0000 + col * 0x10_0000_0000,
            w <= SCREEN_LIMIT,
            forall|px: int, py: int|
                0 <= px < w && 0 <= py < h ==> #[trigger] pixel_at(screen@, w as int, px, py) == if py == h
                    - 1 - y && px < col {
                    plane_pixel(*cam, *ceil, light, w as int, h as int, y as int, px)
                } else if py == y && px < col {
                    plane_pixel(*cam, *floor, light, w as int, h as int, y as int, px)
                } else {
                    pixel_at(old(screen)@, w as int, px, py)
                },
        decreases w - col,
    {
        if p == 0 {
            let black = Color { r: 0, g: 0, b: 0, a: 255 };
            put_pixel(screen, w, h, col, y, black);
            put_pixel(screen, w, h, col, h - 1 - y, black);
        } else {
            let fc = floor.texel_at(plane_tex_coord(fx, floor.width()), plane_tex_coord(fy, floor.height()));
            let cc = ceil.texel_at(plane_tex_coord(fx, ceil.width()), plane_tex_coord(fy, ceil.height()));
            put_pixel(screen, w, h, col, y, darken_color(fc, true, div));
            put_pixel(screen, w, h, col, h - 1 - y, darken_color(cc, true, div));
            assert((col + 1) * step_x == col * step_x + step_x && (col + 1) * step_y == col * step_y + step_y) by (nonlinear_arith);
            fx = fx + step_x;
            fy = fy + step_y;
        }
        col = col + 1;
    }
}

proof fn lemma_mul_bound(a: int, b: int, la: int, lb: int)
    requires
        0 <= a <= la,
        -lb <= b <= lb,
    ensures
        -(la * lb) <= a * b <= la * lb,
{
    assert(-(la * lb) <= a * b <= la * lb) by (nonlinear_arith)
        requires
            0 <= a <= la,
            -lb <= b <= lb,
    ;
}

} // verus!
