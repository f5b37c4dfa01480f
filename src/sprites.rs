use vstd::prelude::*;
use crate::fixed::floor_div;
use crate::frame::{frame_ok, get_pixel, pixel_at, put_pixel};
use crate::graphics::{lemma_pow2_positive, Color, Texture};
use crate::raycast::{abs, lemma_div_between, Camera, DIR_LIMIT, POS_LIMIT, SCREEN_LIMIT};
use crate::shading::{darken, darken_color, divisor_spec, shade_divisor, ONE, SPRITE_SHADE_DEN, SPRITE_SHADE_NUM};

verus! {

/// Largest magnitude of a sprite's scale (16.16), 256 units.
pub const SCALE_LIMIT: i64 = 0x100_0000;

/// Largest magnitude of a sprite's height offset (16.16).
pub const OFFSET_LIMIT: i64 = 0x100_0000_0000;

/// Nearest a sprite may be in front of the view plane and still be drawn (16.16), about 0.001.
pub const NEAR_LIMIT: i128 = 65;

/// A billboard to draw this frame: where it stands, how large it is, how far it is
/// shifted up or down the screen, and the name of its texture.
#[derive(Clone, Debug)]
pub struct SpriteRecord {
    pub pos_x: i64,
    pub pos_y: i64,
    pub scale_x: i64,
    pub scale_y: i64,
    /// Vertical shift in screen rows at unit distance (16.16); positive moves it up.
    pub height_offset: i64,
    pub texture: String,
}

impl SpriteRecord {
    pub open spec fn wf(&self) -> bool {
        &&& -POS_LIMIT <= self.pos_x <= POS_LIMIT
        &&& -POS_LIMIT <= self.pos_y <= POS_LIMIT
        &&& -SCALE_LIMIT <= self.scale_x <= SCALE_LIMIT
        &&& -SCALE_LIMIT <= self.scale_y <= SCALE_LIMIT
        &&& -OFFSET_LIMIT <= self.height_offset <= OFFSET_LIMIT
    }
}

/// Squared distance from the camera to the sprite (32.32).
pub open spec fn dist_sq(cam: Camera, s: SpriteRecord) -> int {
    let dx = s.pos_x - cam.pos_x;
    let dy = s.pos_y - cam.pos_y;
    dx * dx + dy * dy
}

/// Where a sprite lands on screen.
#[derive(Clone, Copy, PartialEq, Eq, Debug, Structural)]
pub struct Projection {
    /// Depth in front of the view plane (16.16).
    pub depth: i128,
    /// The column of the sprite's left edge, before clipping.
    pub left: i128,
    /// Projected width and height, in pixels.
    pub width: i128,
    pub height: i128,
    /// Vertical shift, in rows.
    pub shift: i128,
    /// The clipped rectangle: columns `[start_x, end_x)` and rows `[start_y, end_y)`.
    pub start_x: i128,
    pub end_x: i128,
    pub start_y: i128,
    pub end_y: i128,
}

impl Projection {
    /// The rectangle lies on a `w` by `h` screen, inside the sprite's projected extent.
    pub open spec fn wf(&self, w: int, h: int) -> bool {
        &&& 0 <= self.start_x
        &&& self.end_x <= w
        &&& 0 <= self.start_y
        &&& self.end_y <= h
        &&& self.left <= self.start_x
        &&& (self.start_x < self.end_x ==> self.end_x <= self.left + self.width)
        &&& h / 2 - self.height / 2 + self.shift <= self.start_y
        &&& self.end_y <= h / 2 + self.height / 2 + self.shift
        &&& 0 <= self.width <= 0x100_0000_0000
        &&& 0 <= self.height <= 0x100_0000_0000
        &&& -0x100_0000_0000 <= self.shift <= 0x100_0000_0000
        &&& NEAR_LIMIT <= self.depth
    }
}

/// The determinant of the camera basis `(plane, dir)`.
pub open spec fn basis_det(cam: Camera) -> int {
    cam.plane_x * cam.dir_y - cam.dir_x * cam.plane_y
}

/// `a / b` rounded down, for any non-zero `b`.
pub open spec fn signed_div(a: int, b: int) -> int {
    if b > 0 {
        a / b
    } else {
        (-a) / (-b)
    }
}

/// The sprite's position in camera space (16.16): across the view (`x`) and in depth (`y`),
/// through the inverse of the basis `(plane, dir)`.
pub open spec fn trans_x(cam: Camera, s: SpriteRecord) -> int {
    let rx = s.pos_x - cam.pos_x;
    let ry = s.pos_y - cam.pos_y;
    signed_div((cam.dir_y * rx - cam.dir_x * ry) * ONE, basis_det(cam))
}

pub open spec fn trans_y(cam: Camera, s: SpriteRecord) -> int {
    let rx = s.pos_x - cam.pos_x;
    let ry = s.pos_y - cam.pos_y;
    signed_div((cam.plane_x * ry - cam.plane_y * rx) * ONE, basis_det(cam))
}

pub open spec fn max(a: int, b: int) -> int {
    if a >= b {
        a
    } else {
        b
    }
}

pub open spec fn min(a: int, b: int) -> int {
    if a <= b {
        a
    } else {
        b
    }
}

/// The projection of a sprite on a `w` by `h` screen; `None` where the camera basis is
/// degenerate or the sprite is not in front of the view plane.
pub open spec fn project_spec(cam: Camera, s: SpriteRecord, w: int, h: int) -> Option<Projection> {
    if basis_det(cam) == 0 {
        None
    } else {
        let tx = trans_x(cam, s);
        let ty = trans_y(cam, s);
        if ty < NEAR_LIMIT {
            None
        } else {
            let shift = (-s.height_offset) / ty;
            let sx = (w * (ty + tx)) / (2 * ty);
            let sh = (h * abs(s.scale_y as int)) / ty;
            let sw = (h * abs(s.scale_x as int)) / ty;
            Some(
                Projection {
                    depth: ty as i128,
                    left: (sx - sw / 2) as i128,
                    width: sw as i128,
                    height: sh as i128,
                    shift: shift as i128,
                    start_x: max(0, sx - sw / 2) as i128,
                    end_x: min(w, max(0, sx + sw / 2)) as i128,
                    start_y: max(0, h / 2 - sh / 2 + shift) as i128,
                    end_y: min(h, h / 2 + sh / 2 + shift) as i128,
                },
            )
        }
    }
}

fn signed_div_exec(a: i128, b: i128) -> (q: i128)
    requires
        b != 0,
        b != i128::MIN,
        a != i128::MIN,
    ensures
        q == signed_div(a as int, b as int),
{
    if b > 0 {
        floor_div(a, b)
    } else {
        floor_div(-a, -b)
    }
}

proof fn lemma_mul_abs(a: int, b: int, la: int, lb: int)
    requires
        abs(a) <= la,
        abs(b) <= lb,
    ensures
        abs(a * b) <= la * lb,
{
    assert(abs(a * b) <= la * lb) by (nonlinear_arith)
        requires
            -la <= a <= la,
            -lb <= b <= lb,
    ;
}

proof fn lemma_div_abs(a: int, b: int, l: int)
    requires
        abs(a) <= l,
        b != 0,
    ensures
        abs(signed_div(a, b)) <= l,
{
    let (n, d) = if b > 0 {
        (a, b)
    } else {
        (-a, -b)
    };
    assert(-l * d <= n <= l * d) by (nonlinear_arith)
        requires
            -l <= n <= l,
            d >= 1,
            l >= 0,
    ;
    lemma_div_between(n, -l, l, d);
}

/// Projects a sprite onto a `w` by `h` screen.
pub fn project(cam: &Camera, s: &SpriteRecord, w: u32, h: u32) -> (r: Option<Projection>)
    requires
        cam.wf(),
        s.wf(),
        1 <= w <= SCREEN_LIMIT,
        1 <= h <= SCREEN_LIMIT,
    ensures
        r == project_spec(*cam, *s, w as int, h as int),
        r matches Some(p) ==> p.wf(w as int, h as int),
{
    proof {
        lemma_mul_abs(cam.plane_x as int, cam.dir_y as int, DIR_LIMIT as int, DIR_LIMIT as int);
        lemma_mul_abs(cam.dir_x as int, cam.plane_y as int, DIR_LIMIT as int, DIR_LIMIT as int);
    }
    let det: i128 = cam.plane_x as i128 * cam.dir_y as i128 - cam.dir_x as i128 * cam.plane_y as i128;
    if det == 0 {
        return None;
    }
    let rx: i128 = s.pos_x as i128 - cam.pos_x as i128;
    let ry: i128 = s.pos_y as i128 - cam.pos_y as i128;
    let lim: i128 = 0x100_0000_0000_0000_0000_0000;
    proof {
        let p = 2 * POS_LIMIT;
        lemma_mul_abs(cam.dir_y as int, rx as int, DIR_LIMIT as int, p as int);
        lemma_mul_abs(cam.dir_x as int, ry as int, DIR_LIMIT as int, p as int);
        lemma_mul_abs(cam.plane_y as int, rx as int, DIR_LIMIT as int, p as int);
        lemma_mul_abs(cam.plane_x as int, ry as int, DIR_LIMIT as int, p as int);
        lemma_mul_abs((cam.dir_y * rx - cam.dir_x * ry) as int, ONE as int, (2 * DIR_LIMIT * p) as int, ONE as int);
        lemma_mul_abs((cam.plane_x * ry - cam.plane_y * rx) as int, ONE as int, (2 * DIR_LIMIT * p) as int, ONE as int);
        assert(2 * DIR_LIMIT * p * ONE <= lim) by (nonlinear_arith)
            requires
                p == 0x1_0000_0000_0000,
                lim == 0x100_0000_0000_0000_0000_0000,
                DIR_LIMIT == 0x10_0000,
                ONE == 65536,
        ;
        lemma_div_abs(((cam.dir_y * rx - cam.dir_x * ry) * ONE) as int, det as int, lim as int);
        lemma_div_abs(((cam.plane_x * ry - cam.plane_y * rx) * ONE) as int, det as int, lim as int);
    }
    let nx: i128 = (cam.dir_y as i128 * rx - cam.dir_x as i128 * ry) * 65536;
    let ny: i128 = (cam.plane_x as i128 * ry - cam.plane_y as i128 * rx) * 65536;
    let tx = signed_div_exec(nx, det);
    let ty = signed_div_exec(ny, det);
    if ty < NEAR_LIMIT {
        return None;
    }
    let ww: i128 = w as i128;
    let hh: i128 = h as i128;
    proof {
        lemma_div_abs(-s.height_offset as int, ty as int, OFFSET_LIMIT as int);
        lemma_mul_abs(ww as int, (ty + tx) as int, SCREEN_LIMIT as int, 2 * lim);
        lemma_div_abs((ww * (ty + tx)) as int, 2 * ty as int, SCREEN_LIMIT * 2 * lim);
        lemma_mul_abs(hh as int, abs(s.scale_y as int), SCREEN_LIMIT as int, SCALE_LIMIT as int);
        lemma_mul_abs(hh as int, abs(s.scale_x as int), SCREEN_LIMIT as int, SCALE_LIMIT as int);
        lemma_div_abs(hh * abs(s.scale_y as int), ty as int, SCREEN_LIMIT * SCALE_LIMIT);
        lemma_div_abs(hh * abs(s.scale_x as int), ty as int, SCREEN_LIMIT * SCALE_LIMIT);
    }
    let shift = floor_div(-(s.height_offset as i128), ty);
    let sx = floor_div(ww * (ty + tx), 2 * ty);
    let ay: i128 = if s.scale_y < 0 {
        -(s.scale_y as i128)
    } else {
        s.scale_y as i128
    };
    let ax: i128 = if s.scale_x < 0 {
        -(s.scale_x as i128)
    } else {
        s.scale_x as i128
    };
    let sh = floor_div(hh * ay, ty);
    let sw = floor_div(hh * ax, ty);
    let left = sx - sw / 2;
    let right = sx + sw / 2;
    let top = hh / 2 - sh / 2 + shift;
    let bottom = hh / 2 + sh / 2 + shift;
    let start_x = if left < 0 {
        0
    } else {
        left
    };
    let rc = if right < 0 {
        0
    } else {
        right
    };
    let end_x = if rc > ww {
        ww
    } else {
        rc
    };
    let start_y = if top < 0 {
        0
    } else {
        top
    };
    let end_y = if bottom > hh {
        hh
    } else {
        bottom
    };
    proof {
        assert(SCREEN_LIMIT * SCALE_LIMIT <= 0x100_0000_0000) by (nonlinear_arith)
            requires
                SCREEN_LIMIT == 0x4000,
                SCALE_LIMIT == 0x100_0000,
        ;
        assert(0 <= sh && 0 <= sw) by {
            vstd::arithmetic::div_mod::lemma_div_pos_is_pos((hh * ay) as int, ty as int);
            vstd::arithmetic::div_mod::lemma_div_pos_is_pos((hh * ax) as int, ty as int);
        }
    }
    Some(
        Projection {
            depth: ty,
            left,
            width: sw,
            height: sh,
            shift,
            start_x,
            end_x,
            start_y,
            end_y,
        },
    )
}

pub open spec fn clamp_to(v: int, lo: int, hi: int) -> int {
    if v < lo {
        lo
    } else if v > hi {
        hi
    } else {
        v
    }
}

/// The texture column for screen column `x`: linear across the sprite's width.
pub open spec fn sprite_tex_x(p: Projection, tw: int, x: int) -> int {
    clamp_to(((x - p.left) * tw) / (p.width as int), 0, tw - 1)
}

/// The texture row for screen row `y`: linear across the sprite's height.
pub open spec fn sprite_tex_y(p: Projection, th: int, h: int, y: int) -> int {
    clamp_to((((y - p.shift) * 2 - h + p.height) * th) / (2 * p.height as int), 0, th - 1)
}

/// The sprite is drawn in column `x` only where it stands in front of the view plane
/// and nearer than the wall there.
pub open spec fn column_visible(p: Projection, z: Seq<i128>, x: int) -> bool {
    0 < p.depth < z[x]
}

pub open spec fn sprite_covers(p: Projection, px: int, py: int) -> bool {
    p.start_x <= px < p.end_x && p.start_y <= py < p.end_y
}

/// The pixel `under` after the sprite's texel for `(px, py)` is laid over it: a fully
/// transparent texel leaves it; any other is blended over it and the result darkened.
pub open spec fn sprite_pixel(under: Color, p: Projection, tex: Texture, h: int, px: int, py: int, div: u8) -> Color {
    let t = tex.texel(
        sprite_tex_x(p, tex.spec_width() as int, px),
        sprite_tex_y(p, tex.spec_height() as int, h, py),
    );
    if t.a == 0 {
        under
    } else {
        darken(under.blended(t), false, div)
    }
}

/// The frame `s` after the sprite is composited over it.
pub open spec fn sprite_drawn(
    s: Seq<u8>,
    t: Seq<u8>,
    w: int,
    h: int,
    p: Projection,
    tex: Texture,
    z: Seq<i128>,
    div: u8,
) -> bool {
    forall|px: int, py: int|
        0 <= px < w && 0 <= py < h ==> #[trigger] pixel_at(t, w, px, py) == if sprite_covers(p, px, py)
            && column_visible(p, z, px) {
            sprite_pixel(pixel_at(s, w, px, py), p, tex, h, px, py, div)
        } else {
            pixel_at(s, w, px, py)
        }
}

/// Composites one projected sprite over the frame, column by column, skipping every
/// column where a wall stands nearer (`z` holds each column's wall distance).
pub fn draw_sprite(
    screen: &mut Vec<u8>,
    w: u32,
    h: u32,
    p: &Projection,
    tex: &Texture,
    z: &Vec<i128>,
    div: u8,
)
    requires
        frame_ok(old(screen)@, w as int, h as int),
        p.wf(w as int, h as int),
        tex.wf(),
        z@.len() == w,
        div >= 1,
    ensures
        frame_ok(final(screen)@, w as int, h as int),
        sprite_drawn(old(screen)@, final(screen)@, w as int, h as int, *p, *tex, z@, div),
        forall|px: int, py: int|
            0 <= px < w && 0 <= py < h && !column_visible(*p, z@, px) ==> #[trigger] pixel_at(
                final(screen)@,
                w as int,
                px,
                py,
            ) == pixel_at(old(screen)@, w as int, px, py),
{
    let tw: i128 = tex.width() as i128;
    let th: i128 = tex.height() as i128;
    proof {
        lemma_pow2_positive(tex.spec_width());
        lemma_pow2_positive(tex.spec_height());
    }
    let hh: i128 = h as i128;
    let mut x: i128 = p.start_x;
    while x < p.end_x
        invariant
            frame_ok(screen@, w as int, h as int),
            p.wf(w as int, h as int),
            tex.wf(),
            z@.len() == w,
            div >= 1,
            p.start_x <= x,
            x <= p.end_x || x == p.start_x,
            tw == tex.spec_width(),
            th == tex.spec_height(),
            1 <= tw <= u32::MAX,
            1 <= th <= u32::MAX,
            hh == h,
            forall|px: int, py: int|
                0 <= px < w && 0 <= py < h ==> #[trigger] pixel_at(screen@, w as int, px, py) == if px < x
                    && sprite_covers(*p, px, py) && column_visible(*p, z@, px) {
                    sprite_pixel(pixel_at(old(screen)@, w as int, px, py), *p, *tex, h as int, px, py, div)
                } else {
                    pixel_at(old(screen)@, w as int, px, py)
                },
        decreases p.end_x - x,
    {
        let zx = z[x as usize];
        if 0 < p.depth && p.depth < zx {
            assert(p.width >= 1);
            let off: i128 = x - p.left;
            assert(0 <= off * tw <= 0x100_0000_0000 * tw) by (nonlinear_arith)
                requires
                    0 <= off <= 0x100_0000_0000,
                    1 <= tw,
            ;
            let rawx: i128 = (off * tw) / p.width;
            let txc: i128 = if rawx < 0 {
                0
            } else if rawx > tw - 1 {
                tw - 1
            } else {
                rawx
            };
            assert(txc == sprite_tex_x(*p, tw as int, x as int));
            let ghost before = screen@;
            assert(forall|px: int, py: int|
                0 <= px < w && 0 <= py < h ==> #[trigger] pixel_at(before, w as int, px, py) == if px < x
                    && sprite_covers(*p, px, py) && column_visible(*p, z@, px) {
                    sprite_pixel(pixel_at(old(screen)@, w as int, px, py), *p, *tex, h as int, px, py, div)
                } else {
                    pixel_at(old(screen)@, w as int, px, py)
                });
            let mut y: i128 = p.start_y;
            while y < p.end_y
                invariant
                    frame_ok(screen@, w as int, h as int),
                    p.wf(w as int, h as int),
                    tex.wf(),
                    z@.len() == w,
                    div >= 1,
                    p.start_x <= x < p.end_x,
                    column_visible(*p, z@, x as int),
                    p.start_y <= y,
                    y <= p.end_y || y == p.start_y,
                    tw == tex.spec_width(),
                    th == tex.spec_height(),
                    1 <= tw <= u32::MAX,
                    1 <= th <= u32::MAX,
                    hh == h,
                    0 <= txc < tw,
                    txc == sprite_tex_x(*p, tw as int, x as int),
                    forall|px: int, py: int|
                        0 <= px < w && 0 <= py < h ==> #[trigger] pixel_at(screen@, w as int, px, py) == if px
                            == x && p.start_y <= py < y {
                            sprite_pixel(pixel_at(before, w as int, px, py), *p, *tex, h as int, px, py, div)
                        } else {
                            pixel_at(before, w as int, px, py)
                        },
                decreases p.end_y - y,
            {
                assert(p.height >= 1);
                let num: i128 = (y - p.shift) * 2 - hh + p.height;
                assert(-0x1000_0000_0000 <= num <= 0x1000_0000_0000);
                assert(-0x1000_0000_0000 * th <= num * th <= 0x1000_0000_0000 * th) by (nonlinear_arith)
                    requires
                        -0x1000_0000_0000 <= num <= 0x1000_0000_0000,
                        1 <= th,
                ;
                let rawy: i128 = floor_div(num * th, 2 * p.height);
                let tyc: i128 = if rawy < 0 {
                    0
                } else if rawy > th - 1 {
                    th - 1
                } else {
                    rawy
                };
                assert(tyc == sprite_tex_y(*p, th as int, h as int, y as int));
                let t = tex.texel_at(txc as u32, tyc as u32);
                if t.a != 0 {
                    let mut under = get_pixel(screen, w, h, x as u32, y as u32);
                    under.blend(t);
                    let c = darken_color(under, false, div);
                    put_pixel(screen, w, h, x as u32, y as u32, c);
                }
                y = y + 1;
            }
            assert forall|px: int, py: int| 0 <= px < w && 0 <= py < h implies #[trigger] pixel_at(
                screen@,
                w as int,
                px,
                py,
            ) == if px < x + 1 && sprite_covers(*p, px, py) && column_visible(*p, z@, px) {
                sprite_pixel(pixel_at(old(screen)@, w as int, px, py), *p, *tex, h as int, px, py, div)
            } else {
                pixel_at(old(screen)@, w as int, px, py)
            } by {
                assert(pixel_at(before, w as int, px, py) == if px < x && sprite_covers(*p, px, py)
                    && column_visible(*p, z@, px) {
                    sprite_pixel(pixel_at(old(screen)@, w as int, px, py), *p, *tex, h as int, px, py, div)
                } else {
                    pixel_at(old(screen)@, w as int, px, py)
                });
                assert(y >= p.end_y);
                assert(pixel_at(screen@, w as int, px, py) == if px == x && p.start_y <= py < y {
                    sprite_pixel(pixel_at(before, w as int, px, py), *p, *tex, h as int, px, py, div)
                } else {
                    pixel_at(before, w as int, px, py)
                });
                if px == x {
                    assert(sprite_covers(*p, px, py) <==> (p.start_y <= py < y && py < p.end_y));
                }
            }
        }
        x = x + 1;
    }
}

/// `r` is the square root of `n`, rounded down.
pub open spec fn is_isqrt(n: int, r: int) -> bool {
    0 <= r && r * r <= n < (r + 1) * (r + 1)
}

/// The square root of `n`, rounded down.
pub open spec fn sqrt_floor(n: int) -> int {
    choose|r: int| is_isqrt(n, r)
}

proof fn lemma_isqrt_unique(n: int, a: int, b: int)
    requires
        is_isqrt(n, a),
        is_isqrt(n, b),
    ensures
        a == b,
{
    if a < b {
        assert((a + 1) * (a + 1) <= b * b) by (nonlinear_arith)
            requires
                0 <= a + 1 <= b,
        ;
    } else if b < a {
        assert((b + 1) * (b + 1) <= a * a) by (nonlinear_arith)
            requires
                0 <= b + 1 <= a,
        ;
    }
}

/// The integer square root, by bisection.
pub fn isqrt(n: u128) -> (r: u128)
    requires
        n < 0x10_0000_0000_0000_0000_0000_0000,
    ensures
        r == sqrt_floor(n as int),
        is_isqrt(n as int, r as int),
        r <= 0x4_0000_0000_0000,
{
    let mut lo: u128 = 0;
    let mut hi: u128 = 0x4_0000_0000_0000;
    assert(hi * hi == 0x10_0000_0000_0000_0000_0000_0000) by (nonlinear_arith)
        requires
            hi == 0x4_0000_0000_0000,
    ;
    while lo + 1 < hi
        invariant
            lo < hi <= 0x4_0000_0000_0000,
            lo * lo <= n < hi * hi,
        decreases hi - lo,
    {
        let mid: u128 = lo + (hi - lo) / 2;
        assert(mid * mid <= 0x10_0000_0000_0000_0000_0000_0000) by (nonlinear_arith)
            requires
                mid <= 0x4_0000_0000_0000,
        ;
        if mid * mid <= n {
            lo = mid;
        } else {
            hi = mid;
        }
    }
    proof {
        assert(is_isqrt(n as int, lo as int));
        lemma_isqrt_unique(n as int, lo as int, sqrt_floor(n as int));
    }
    lo
}

} // verus!
