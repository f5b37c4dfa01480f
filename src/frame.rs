use vstd::prelude::*;
use crate::graphics::Color;
use crate::map::lemma_cell_index_injective;
use crate::raycast::SCREEN_LIMIT;

verus! {

/// A `w` by `h` frame: four bytes (red, green, blue, alpha) per pixel, row by row
/// from the top left.
pub open spec fn frame_ok(s: Seq<u8>, w: int, h: int) -> bool {
    &&& 1 <= w <= SCREEN_LIMIT
    &&& 1 <= h <= SCREEN_LIMIT
    &&& s.len() == 4 * w * h
}

/// The pixel in column `x` and row `y` of a frame `w` pixels wide.
pub open spec fn pixel_at(s: Seq<u8>, w: int, x: int, y: int) -> Color {
    let i = 4 * (y * w + x);
    Color { r: s[i], g: s[i + 1], b: s[i + 2], a: s[i + 3] }
}

/// Channel `k` of a colour: red, green, blue, then alpha.
pub open spec fn channel(c: Color, k: int) -> u8 {
    if k == 0 {
        c.r
    } else if k == 1 {
        c.g
    } else if k == 2 {
        c.b
    } else {
        c.a
    }
}

/// The frame `s` with each pixel `(x, y)` of colour `c` replaced by `f(x, y, c)`.
pub open spec fn frame_map(s: Seq<u8>, w: int, f: spec_fn(int, int, Color) -> Color) -> Seq<u8> {
    Seq::new(
        s.len(),
        |i: int| channel(f((i / 4) % w, (i / 4) / w, pixel_at(s, w, (i / 4) % w, (i / 4) / w)), i % 4),
    )
}

/// A frame that agrees with `f` applied to `s` on every pixel is `frame_map(s, w, f)`.
pub proof fn lemma_frame_map(s: Seq<u8>, t: Seq<u8>, w: int, h: int, f: spec_fn(int, int, Color) -> Color)
    requires
        frame_ok(s, w, h),
        frame_ok(t, w, h),
        forall|x: int, y: int| 0 <= x < w && 0 <= y < h ==> #[trigger] pixel_at(t, w, x, y) == f(x, y, pixel_at(s, w, x, y)),
    ensures
        t == frame_map(s, w, f),
{
    let m = frame_map(s, w, f);
    assert forall|x: int, y: int| 0 <= x < w && 0 <= y < h implies #[trigger] pixel_at(m, w, x, y) == pixel_at(t, w, x, y) by {
        let b = y * w + x;
        crate::graphics::lemma_texel_index(x, y, w, h);
        vstd::arithmetic::div_mod::lemma_fundamental_div_mod_converse(4 * b, 4, b, 0);
        vstd::arithmetic::div_mod::lemma_fundamental_div_mod_converse(4 * b + 1, 4, b, 1);
        vstd::arithmetic::div_mod::lemma_fundamental_div_mod_converse(4 * b + 2, 4, b, 2);
        vstd::arithmetic::div_mod::lemma_fundamental_div_mod_converse(4 * b + 3, 4, b, 3);
        vstd::arithmetic::div_mod::lemma_fundamental_div_mod_converse(b, w, y, x);
        assert(b % w == x && b / w == y);
        assert((4 * b) / 4 == b && (4 * b) % 4 == 0);
        assert((4 * b + 1) / 4 == b && (4 * b + 1) % 4 == 1);
        assert((4 * b + 2) / 4 == b && (4 * b + 2) % 4 == 2);
        assert((4 * b + 3) / 4 == b && (4 * b + 3) % 4 == 3);
    }
    lemma_frames_equal(m, t, w, h);
}

/// Two frames of one size that agree on every pixel are the same bytes.
pub proof fn lemma_frames_equal(s: Seq<u8>, t: Seq<u8>, w: int, h: int)
    requires
        frame_ok(s, w, h),
        frame_ok(t, w, h),
        forall|x: int, y: int| 0 <= x < w && 0 <= y < h ==> #[trigger] pixel_at(s, w, x, y) == pixel_at(t, w, x, y),
    ensures
        s == t,
{
    assert forall|i: int| 0 <= i < s.len() implies s[i] == t[i] by {
        let p = i / 4;
        let x = p % w;
        let y = p / w;
        vstd::arithmetic::div_mod::lemma_fundamental_div_mod(i, 4);
        vstd::arithmetic::div_mod::lemma_fundamental_div_mod(p, w);
        vstd::arithmetic::div_mod::lemma_mod_bound(p, w);
        vstd::arithmetic::div_mod::lemma_mod_bound(i, 4);
        assert(0 <= y < h) by {
            assert(p < w * h) by (nonlinear_arith)
                requires
                    i == 4 * p + i % 4,
                    0 <= i % 4 < 4,
                    i < 4 * w * h,
            ;
            assert(0 <= p) by (nonlinear_arith)
                requires
                    i == 4 * p + i % 4,
                    0 <= i % 4 < 4,
                    0 <= i,
            ;
            vstd::arithmetic::div_mod::lemma_div_pos_is_pos(p, w);
            vstd::arithmetic::div_mod::lemma_div_is_ordered(p, w * h - 1, w);
            assert((w * h - 1) / w < h) by {
                vstd::arithmetic::div_mod::lemma_div_multiples_vanish(h, w);
                vstd::arithmetic::div_mod::lemma_div_is_ordered(w * h - 1, w * h, w);
                assert(w * h == w * h - 1 + 1);
                vstd::arithmetic::div_mod::lemma_fundamental_div_mod(w * h - 1, w);
                vstd::arithmetic::div_mod::lemma_mod_bound(w * h - 1, w);
                assert((w * h - 1) / w < h) by (nonlinear_arith)
                    requires
                        w * h - 1 == w * ((w * h - 1) / w) + (w * h - 1) % w,
                        0 <= (w * h - 1) % w,
                        w >= 1,
                ;
            }
        }
        assert(pixel_at(s, w, x, y) == pixel_at(t, w, x, y));
        assert(4 * (y * w + x) + i % 4 == i) by (nonlinear_arith)
            requires
                i == 4 * p + i % 4,
                p == w * y + x,
        ;
    }
    assert(s =~= t);
}

/// The frame after `c` is written at pixel `(x, y)`.
pub proof fn lemma_put_pixel(s: Seq<u8>, t: Seq<u8>, w: int, h: int, x: int, y: int, c: Color)
    requires
        frame_ok(s, w, h),
        0 <= x < w,
        0 <= y < h,
        t == s.update(4 * (y * w + x), c.r).update(4 * (y * w + x) + 1, c.g).update(
            4 * (y * w + x) + 2,
            c.b,
        ).update(4 * (y * w + x) + 3, c.a),
    ensures
        frame_ok(t, w, h),
        forall|px: int, py: int|
            0 <= px < w && 0 <= py < h ==> #[trigger] pixel_at(t, w, px, py) == if px == x && py == y {
                c
            } else {
                pixel_at(s, w, px, py)
            },
{
    crate::graphics::lemma_texel_index(x, y, w, h);
    assert forall|px: int, py: int| 0 <= px < w && 0 <= py < h implies #[trigger] pixel_at(t, w, px, py)
        == if px == x && py == y {
        c
    } else {
        pixel_at(s, w, px, py)
    } by {
        crate::graphics::lemma_texel_index(px, py, w, h);
        if py * w + px == y * w + x {
            lemma_cell_index_injective(px, py, x, y, w);
        }
    }
}

/// Writes `c` at pixel `(x, y)`.
pub fn put_pixel(screen: &mut Vec<u8>, w: u32, h: u32, x: u32, y: u32, c: Color)
    requires
        frame_ok(old(screen)@, w as int, h as int),
        x < w,
        y < h,
    ensures
        frame_ok(final(screen)@, w as int, h as int),
        forall|px: int, py: int|
            0 <= px < w && 0 <= py < h ==> #[trigger] pixel_at(final(screen)@, w as int, px, py) == if px
                == x && py == y {
                c
            } else {
                pixel_at(old(screen)@, w as int, px, py)
            },
{
    proof {
        crate::graphics::lemma_texel_index(x as int, y as int, w as int, h as int);
        lemma_frame_size(w as int, h as int);
    }
    let i: usize = 4 * (y as usize * w as usize + x as usize);
    screen.set(i, c.r);
    screen.set(i + 1, c.g);
    screen.set(i + 2, c.b);
    screen.set(i + 3, c.a);
    proof {
        lemma_put_pixel(old(screen)@, screen@, w as int, h as int, x as int, y as int, c);
    }
}

/// Reads pixel `(x, y)`.
pub fn get_pixel(screen: &Vec<u8>, w: u32, h: u32, x: u32, y: u32) -> (c: Color)
    requires
        frame_ok(screen@, w as int, h as int),
        x < w,
        y < h,
    ensures
        c == pixel_at(screen@, w as int, x as int, y as int),
{
    proof {
        crate::graphics::lemma_texel_index(x as int, y as int, w as int, h as int);
        lemma_frame_size(w as int, h as int);
    }
    let i: usize = 4 * (y as usize * w as usize + x as usize);
    Color { r: screen[i], g: screen[i + 1], b: screen[i + 2], a: screen[i + 3] }
}

proof fn lemma_frame_size(w: int, h: int)
    requires
        1 <= w <= SCREEN_LIMIT,
        1 <= h <= SCREEN_LIMIT,
    ensures
        4 * w * h <= 4 * SCREEN_LIMIT * SCREEN_LIMIT,
        w * h <= SCREEN_LIMIT * SCREEN_LIMIT,
{
    assert(w * h <= SCREEN_LIMIT * SCREEN_LIMIT) by (nonlinear_arith)
        requires
            1 <= w <= SCREEN_LIMIT,
            1 <= h <= SCREEN_LIMIT,
    ;
    assert(4 * w * h == 4 * (w * h)) by (nonlinear_arith);
}

/// The colour a frame is cleared to: a very dark grey, opaque.
pub open spec fn clear_color() -> Color {
    Color { r: 8, g: 8, b: 8, a: 255 }
}

/// A `w` by `h` frame cleared to `clear_color`.
pub open spec fn clear_frame(w: int, h: int) -> Seq<u8> {
    Seq::new((4 * w * h) as nat, |i: int| if i % 4 == 3 { 255u8 } else { 8u8 })
}

/// Clears every pixel of a `w` by `h` frame.
pub fn clear(screen: &mut Vec<u8>, w: u32, h: u32)
    requires
        frame_ok(old(screen)@, w as int, h as int),
    ensures
        final(screen)@ == clear_frame(w as int, h as int),
{
    let n = screen.len();
    let mut i: usize = 0;
    while i < n
        invariant
            n == screen@.len(),
            n == 4 * w * h,
            i <= n,
            forall|j: int| 0 <= j < i ==> screen@[j] == if j % 4 == 3 { 255u8 } else { 8u8 },
        decreases n - i,
    {
        if i % 4 == 3 {
            screen.set(i, 255);
        } else {
            screen.set(i, 8);
        }
        i = i + 1;
    }
    assert(screen@ =~= clear_frame(w as int, h as int));
}

/// A `w` by `h` frame with every pixel the clear colour.
pub fn new_frame(w: u32, h: u32) -> (s: Vec<u8>)
    requires
        1 <= w <= SCREEN_LIMIT,
        1 <= h <= SCREEN_LIMIT,
    ensures
        frame_ok(s@, w as int, h as int),
        s@ == clear_frame(w as int, h as int),
        forall|x: int, y: int| 0 <= x < w && 0 <= y < h ==> #[trigger] pixel_at(s@, w as int, x as int, y as int) == clear_color(),
{
    assert(4 * w * h <= 4 * SCREEN_LIMIT * SCREEN_LIMIT) by (nonlinear_arith)
        requires
            1 <= w <= SCREEN_LIMIT,
            1 <= h <= SCREEN_LIMIT,
    ;
    let n: usize = 4 * w as usize * h as usize;
    let mut s: Vec<u8> = Vec::new();
    let mut i: usize = 0;
    while i < n
        invariant
            i <= n,
            n == 4 * w * h,
            s@.len() == i,
            forall|j: int| 0 <= j < i ==> s@[j] == if j % 4 == 3 { 255u8 } else { 8u8 },
        decreases n - i,
    {
        if i % 4 == 3 {
            s.push(255);
        } else {
            s.push(8);
        }
        i = i + 1;
    }
    assert forall|x: int, y: int| 0 <= x < w && 0 <= y < h implies #[trigger] pixel_at(s@, w as int, x as int, y as int) == clear_color() by {
        crate::graphics::lemma_texel_index(x, y, w as int, h as int);
        let b = y * w + x;
        assert((4 * b) % 4 == 0 && (4 * b + 1) % 4 == 1 && (4 * b + 2) % 4 == 2 && (4 * b + 3) % 4 == 3) by {
            vstd::arithmetic::div_mod::lemma_mod_multiples_vanish(b, 0, 4);
            vstd::arithmetic::div_mod::lemma_mod_multiples_vanish(b, 1, 4);
            vstd::arithmetic::div_mod::lemma_mod_multiples_vanish(b, 2, 4);
            vstd::arithmetic::div_mod::lemma_mod_multiples_vanish(b, 3, 4);
        }
    }
    assert(s@ =~= clear_frame(w as int, h as int));
    s
}

} // verus!
