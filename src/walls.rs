use vstd::prelude::*;
use crate::fixed::{floor_div, floor_mod};
use crate::frame::{frame_ok, pixel_at, put_pixel};
use crate::graphics::{lemma_wrap_in_range, Color, Texture};
use crate::raycast::{abs, Camera, WallHit, DIR_LIMIT, PERP_LIMIT, SCREEN_LIMIT};
use crate::shading::{
    clamp_distance, clamp_distance_exec, darken, darken_color, divisor_spec, shade_divisor, ONE,
    WALL_SHADE_DEN, WALL_SHADE_NUM,
};

verus! {

/// The height on screen of a wall at distance `perp` on a screen `h` rows high:
/// `h / perp`, with a distance below one 16.16 unit taken as that unit.
pub open spec fn line_height(perp: int, h: int) -> int {
    (h * ONE) / (if perp < 1 {
        1
    } else {
        perp
    })
}

/// The first row of a wall strip `lh` rows high, centred on the horizon.
pub open spec fn span_start(lh: int, h: int) -> int {
    if h / 2 - lh / 2 < 0 {
        0
    } else {
        h / 2 - lh / 2
    }
}

/// One past the last row of a wall strip `lh` rows high.
pub open spec fn span_end(lh: int, h: int) -> int {
    if h / 2 + lh / 2 > h {
        h
    } else {
        h / 2 + lh / 2
    }
}

/// Where along the struck face the ray meets it, in world units (16.16).
pub open spec fn wall_coord(cam: Camera, hit: WallHit) -> int {
    if !hit.side {
        cam.pos_y + (hit.perp_dist * hit.ray_y) / (ONE as int)
    } else {
        cam.pos_x + (hit.perp_dist * hit.ray_x) / (ONE as int)
    }
}

/// The texture column for the hit: the fractional part of the face coordinate scaled
/// to the texture width, mirrored on the faces seen from the other side so that no
/// wall shows its texture flipped.
pub open spec fn wall_tex_x(cam: Camera, hit: WallHit, tw: int) -> int {
    let tx = ((wall_coord(cam, hit) % (ONE as int)) * tw) / (ONE as int);
    if (!hit.side && hit.ray_x > 0) || (hit.side && hit.ray_y < 0) {
        tw - tx - 1
    } else {
        tx
    }
}

/// The texture row for screen row `y` of a strip `lh` rows high, wrapped to the
/// texture height `th`.
pub open spec fn wall_tex_y(lh: int, h: int, th: int, y: int) -> int {
    let step = (th * ONE) / lh;
    let tp = (y - h / 2 + lh / 2) * step;
    ((tp / (ONE as int)) as u32 & ((th - 1) as u32)) as int
}

/// The darkness divisor of a wall at distance `perp` under `light`.
pub open spec fn wall_divisor(perp: int, light: u64) -> u8 {
    divisor_spec(clamp_distance(perp), light as nat, WALL_SHADE_NUM, WALL_SHADE_DEN) as u8
}

/// The colour drawn at row `y` of the strip for `hit`: the texel, halved on faces along
/// the x axis, darkened with distance.
pub open spec fn wall_pixel(cam: Camera, hit: WallHit, tex: Texture, light: u64, h: int, y: int) -> Color {
    let lh = line_height(hit.perp_dist as int, h);
    darken(
        tex.texel(
            wall_tex_x(cam, hit, tex.spec_width() as int),
            wall_tex_y(lh, h, tex.spec_height() as int, y),
        ),
        hit.side,
        wall_divisor(hit.perp_dist as int, light),
    )
}

/// Whether pixel `(px, py)` belongs to the strip drawn for `hit` in column `x`.
pub open spec fn in_wall_strip(hit: WallHit, h: int, x: int, px: int, py: int) -> bool {
    let lh = line_height(hit.perp_dist as int, h);
    px == x && span_start(lh, h) <= py < span_end(lh, h)
}

/// Draws the textured, shaded wall strip for `hit` into column `x`; every other pixel
/// is left as it was.
pub fn draw_wall_column(
    screen: &mut Vec<u8>,
    w: u32,
    h: u32,
    x: u32,
    cam: &Camera,
    hit: &WallHit,
    tex: &Texture,
    light: u64,
)
    requires
        frame_ok(old(screen)@, w as int, h as int),
        x < w,
        cam.wf(),
        tex.wf(),
        0 <= hit.perp_dist <= PERP_LIMIT,
        abs(hit.ray_x as int) <= 2 * DIR_LIMIT,
        abs(hit.ray_y as int) <= 2 * DIR_LIMIT,
    ensures
        frame_ok(final(screen)@, w as int, h as int),
        forall|px: int, py: int|
            0 <= px < w && 0 <= py < h ==> #[trigger] pixel_at(final(screen)@, w as int, px, py) == if in_wall_strip(
                *hit,
                h as int,
                x as int,
                px,
                py,
            ) {
                wall_pixel(*cam, *hit, *tex, light, h as int, py)
            } else {
                pixel_at(old(screen)@, w as int, px, py)
            },
{
    let perp = hit.perp_dist;
    let denom: i128 = if perp < 1 {
        1
    } else {
        perp
    };
    let hh: i128 = h as i128;
    proof {
        vstd::arithmetic::div_mod::lemma_div_is_ordered_by_denominator((hh * ONE) as int, 1, denom as int);
    }
    let lh: i128 = (hh * 65536) / denom;
    assert(lh == line_height(perp as int, h as int));
    let half: i128 = hh / 2;
    let start: i128 = if half - lh / 2 < 0 {
        0
    } else {
        half - lh / 2
    };
    let end: i128 = if half + lh / 2 > hh {
        hh
    } else {
        half + lh / 2
    };
    let div = shade_divisor(clamp_distance_exec(perp), light, WALL_SHADE_NUM, WALL_SHADE_DEN);
    // where the ray meets the face
    assert(-PERP_LIMIT * (2 * DIR_LIMIT) <= perp * hit.ray_y <= PERP_LIMIT * (2 * DIR_LIMIT)) by (nonlinear_arith)
        requires
            0 <= perp <= PERP_LIMIT,
            abs(hit.ray_y as int) <= 2 * DIR_LIMIT,
    ;
    assert(-PERP_LIMIT * (2 * DIR_LIMIT) <= perp * hit.ray_x <= PERP_LIMIT * (2 * DIR_LIMIT)) by (nonlinear_arith)
        requires
            0 <= perp <= PERP_LIMIT,
            abs(hit.ray_x as int) <= 2 * DIR_LIMIT,
    ;
    proof {
        crate::raycast::lemma_div_between((perp * hit.ray_y) as int, -PERP_LIMIT * (2 * DIR_LIMIT) as int, PERP_LIMIT * (2 * DIR_LIMIT) as int, ONE as int);
        crate::raycast::lemma_div_between((perp * hit.ray_x) as int, -PERP_LIMIT * (2 * DIR_LIMIT) as int, PERP_LIMIT * (2 * DIR_LIMIT) as int, ONE as int);
    }
    let coord: i128 = if !hit.side {
        cam.pos_y as i128 + floor_div(perp * hit.ray_y, 65536)
    } else {
        cam.pos_x as i128 + floor_div(perp * hit.ray_x, 65536)
    };
    let frac = floor_mod(coord, 65536);
    let tw: i128 = tex.width() as i128;
    proof {
        crate::graphics::lemma_pow2_positive(tex.spec_width());
        assert(0 <= frac * tw < 65536 * tw) by (nonlinear_arith)
            requires
                0 <= frac < 65536,
                tw >= 1,
        ;
        vstd::arithmetic::div_mod::lemma_multiply_divide_lt((frac * tw) as int, 65536, tw as int);
        vstd::arithmetic::div_mod::lemma_div_pos_is_pos((frac * tw) as int, 65536);
    }
    let tx0: i128 = (frac * tw) / 65536;
    let tx: i128 = if (!hit.side && hit.ray_x > 0) || (hit.side && hit.ray_y < 0) {
        tw - tx0 - 1
    } else {
        tx0
    };
    assert(tx == wall_tex_x(*cam, *hit, tex.spec_width() as int));
    if start >= end {
        return;
    }
    let th: i128 = tex.height() as i128;
    proof {
        crate::graphics::lemma_pow2_positive(tex.spec_height());
    }
    assert(lh >= 2);
    let step: i128 = (th * 65536) / lh;
    proof {
        vstd::arithmetic::div_mod::lemma_fundamental_div_mod((th * 65536) as int, lh as int);
        vstd::arithmetic::div_mod::lemma_mod_bound((th * 65536) as int, lh as int);
        vstd::arithmetic::div_mod::lemma_div_pos_is_pos((th * 65536) as int, lh as int);
    }
    let mut y: i128 = start;
    while y < end
        invariant
            frame_ok(screen@, w as int, h as int),
            x < w,
            tex.wf(),
            start <= y <= end,
            0 <= start,
            end <= h,
            start == span_start(lh as int, h as int),
            end == span_end(lh as int, h as int),
            lh == line_height(perp as int, h as int),
            perp == hit.perp_dist,
            half == h as int / 2,
            lh >= 2,
            th == tex.spec_height(),
            th >= 1,
            th <= u32::MAX,
            step == (th * ONE) / (lh as int),
            0 <= step,
            lh * step <= th * 65536,
            0 <= tx < tex.spec_width(),
            tex.spec_width() <= u32::MAX,
            tx == wall_tex_x(*cam, *hit, tex.spec_width() as int),
            div == wall_divisor(perp as int, light),
            div >= 1,
            forall|px: int, py: int|
                0 <= px < w && 0 <= py < h ==> #[trigger] pixel_at(screen@, w as int, px, py) == if px == x
                    && start <= py < y {
                    wall_pixel(*cam, *hit, *tex, light, h as int, py)
                } else {
                    pixel_at(old(screen)@, w as int, px, py)
                },
        decreases end - y,
    {
        let off: i128 = y - half + lh / 2;
        assert(0 <= off < lh);
        assert(0 <= off * step <= lh * step) by (nonlinear_arith)
            requires
                0 <= off < lh,
                0 <= step,
        ;
        let tp: i128 = off * step;
        proof {
            vstd::arithmetic::div_mod::lemma_div_is_ordered(tp as int, (th * 65536) as int, 65536);
            vstd::arithmetic::div_mod::lemma_div_multiples_vanish(th as int, 65536);
            assert(th * 65536 == 65536 * th);
        }
        let traw: u32 = (tp / 65536) as u32;
        let ty: u32 = traw & (th as u32 - 1);
        proof {
            lemma_wrap_in_range(traw, th as u32);
        }
        assert(ty == wall_tex_y(lh as int, h as int, th as int, y as int));
        let c = tex.texel_at(tx as u32, ty);
        let shaded = darken_color(c, hit.side, div);
        assert(shaded == wall_pixel(*cam, *hit, *tex, light, h as int, y as int));
        put_pixel(screen, w, h, x, y as u32, shaded);
        y = y + 1;
    }
}

} // verus!
