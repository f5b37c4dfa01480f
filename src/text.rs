use vstd::prelude::*;
use vstd::string::StrSliceExecFns;
use crate::frame::{frame_map, frame_ok, get_pixel, lemma_frame_map, pixel_at, put_pixel};
use crate::graphics::{Color, Texture};

verus! {

/// The cells of a sprite sheet of `rows` cells across and `columns` cells down.
pub open spec fn cell_w(sheet: Texture, rows: int) -> int {
    sheet.spec_width() as int / rows
}

pub open spec fn cell_h(sheet: Texture, columns: int) -> int {
    sheet.spec_height() as int / columns
}

/// What laying cell `index` of the sheet over the frame, top left at `(dx, dy)`, makes of
/// each pixel: inside the cell's rectangle the texel is blended over it.
pub open spec fn sheet_layer(
    sheet: Texture,
    index: int,
    rows: int,
    columns: int,
    dx: int,
    dy: int,
) -> spec_fn(int, int, Color) -> Color {
    |px: int, py: int, c: Color|
        {
            let cw = cell_w(sheet, rows);
            let ch = cell_h(sheet, columns);
            if dx <= px < dx + cw && dy <= py < dy + ch {
                c.blended(sheet.texel((index % rows) * cw + (px - dx), (index / rows) * ch + (py - dy)))
            } else {
                c
            }
        }
}

/// Blends cell `index` of a sheet of `rows` by `columns` cells over the frame with its top
/// left at `(dx, dy)`; the cell must lie inside both the sheet and the frame.
pub fn blit_sheet(
    screen: &mut Vec<u8>,
    sw: u32,
    sh: u32,
    dx: u32,
    dy: u32,
    sheet: &Texture,
    index: usize,
    rows: usize,
    columns: usize,
)
    requires
        frame_ok(old(screen)@, sw as int, sh as int),
        sheet.wf(),
        rows >= 1,
        columns >= 1,
        index < rows * columns,
        dx + cell_w(*sheet, rows as int) <= sw,
        dy + cell_h(*sheet, columns as int) <= sh,
    ensures
        final(screen)@ == frame_map(old(screen)@, sw as int, sheet_layer(*sheet, index as int, rows as int, columns as int, dx as int, dy as int)),
{
    let ghost f = sheet_layer(*sheet, index as int, rows as int, columns as int, dx as int, dy as int);
    let sheet_w = sheet.width();
    let sheet_h = sheet.height();
    let cw: usize = sheet_w as usize / rows;
    let ch: usize = sheet_h as usize / columns;
    let ix: usize = index % rows;
    let iy: usize = index / rows;
    proof {
        let w = sheet.spec_width() as int;
        let h = sheet.spec_height() as int;
        vstd::arithmetic::div_mod::lemma_fundamental_div_mod(w, rows as int);
        vstd::arithmetic::div_mod::lemma_fundamental_div_mod(h, columns as int);
        vstd::arithmetic::div_mod::lemma_mod_bound(w, rows as int);
        vstd::arithmetic::div_mod::lemma_mod_bound(h, columns as int);
        vstd::arithmetic::div_mod::lemma_mod_bound(index as int, rows as int);
        vstd::arithmetic::div_mod::lemma_multiply_divide_lt(index as int, rows as int, columns as int);
        assert(rows * columns == columns * rows) by (nonlinear_arith);
        assert(ix * cw + cw <= w) by (nonlinear_arith)
            requires
                ix < rows,
                w == rows * cw + w % (rows as int),
                0 <= w % (rows as int),
        ;
        assert(iy * ch + ch <= h) by (nonlinear_arith)
            requires
                iy < columns,
                h == columns * ch + h % (columns as int),
                0 <= h % (columns as int),
        ;
    }
    let mut y: usize = 0;
    while y < ch
        invariant
            frame_ok(screen@, sw as int, sh as int),
            frame_ok(old(screen)@, sw as int, sh as int),
            sheet.wf(),
            f == sheet_layer(*sheet, index as int, rows as int, columns as int, dx as int, dy as int),
            cw == cell_w(*sheet, rows as int),
            ch == cell_h(*sheet, columns as int),
            ix == (index as int) % (rows as int),
            iy == (index as int) / (rows as int),
            ix * cw + cw <= sheet.spec_width(),
            iy * ch + ch <= sheet.spec_height(),
            sheet.spec_width() <= u32::MAX,
            sheet.spec_height() <= u32::MAX,
            dx + cw <= sw,
            dy + ch <= sh,
            y <= ch,
            forall|px: int, py: int|
                0 <= px < sw && 0 <= py < sh ==> #[trigger] pixel_at(screen@, sw as int, px, py) == if py < dy + y {
                    f(px, py, pixel_at(old(screen)@, sw as int, px, py))
                } else {
                    pixel_at(old(screen)@, sw as int, px, py)
                },
        decreases ch - y,
    {
        let mut x: usize = 0;
        while x < cw
            invariant
                frame_ok(screen@, sw as int, sh as int),
                frame_ok(old(screen)@, sw as int, sh as int),
                sheet.wf(),
                f == sheet_layer(*sheet, index as int, rows as int, columns as int, dx as int, dy as int),
                cw == cell_w(*sheet, rows as int),
                ch == cell_h(*sheet, columns as int),
                ix == (index as int) % (rows as int),
                iy == (index as int) / (rows as int),
                ix * cw + cw <= sheet.spec_width(),
                iy * ch + ch <= sheet.spec_height(),
                sheet.spec_width() <= u32::MAX,
                sheet.spec_height() <= u32::MAX,
            sheet.spec_width() <= u32::MAX,
            sheet.spec_height() <= u32::MAX,
                dx + cw <= sw,
                dy + ch <= sh,
                y < ch,
                x <= cw,
                forall|px: int, py: int|
                    0 <= px < sw && 0 <= py < sh ==> #[trigger] pixel_at(screen@, sw as int, px, py) == if py < dy + y
                        || (py == dy + y && px < dx + x) {
                        f(px, py, pixel_at(old(screen)@, sw as int, px, py))
                    } else {
                        pixel_at(old(screen)@, sw as int, px, py)
                    },
            decreases cw - x,
        {
            let t = sheet.texel_at((ix * cw + x) as u32, (iy * ch + y) as u32);
            let mut c = get_pixel(screen, sw, sh, dx + x as u32, dy + y as u32);
            c.blend(t);
            put_pixel(screen, sw, sh, dx + x as u32, dy + y as u32, c);
            x = x + 1;
        }
        y = y + 1;
    }
    proof {
        assert forall|px: int, py: int| 0 <= px < sw && 0 <= py < sh implies #[trigger] pixel_at(screen@, sw as int, px, py) == f(
            px,
            py,
            pixel_at(old(screen)@, sw as int, px, py),
        ) by {
            if py >= dy + ch {
                assert(pixel_at(screen@, sw as int, px, py) == pixel_at(old(screen)@, sw as int, px, py));
            }
        }
        lemma_frame_map(old(screen)@, screen@, sw as int, sh as int, f);
    }
}

/// Blends a whole image over the frame with its top left at `(dx, dy)`.
pub fn blit(screen: &mut Vec<u8>, sw: u32, sh: u32, dx: u32, dy: u32, sprite: &Texture)
    requires
        frame_ok(old(screen)@, sw as int, sh as int),
        sprite.wf(),
        dx + sprite.spec_width() <= sw,
        dy + sprite.spec_height() <= sh,
    ensures
        final(screen)@ == frame_map(old(screen)@, sw as int, sheet_layer(*sprite, 0, 1, 1, dx as int, dy as int)),
{
    blit_sheet(screen, sw, sh, dx, dy, sprite, 0, 1, 1);
}

/// The frame after the first `k` characters of `text` are drawn from a font sheet of 16
/// by 16 glyphs, indexed by character code, each 10 pixels right of the one before,
/// starting 10 pixels right of `(x, y)`.
pub open spec fn text_frame(s: Seq<u8>, sw: int, font: Texture, text: Seq<char>, x: int, y: int, k: nat) -> Seq<u8>
    decreases k,
{
    if k == 0 {
        s
    } else {
        let prev = text_frame(s, sw, font, text, x, y, (k - 1) as nat);
        frame_map(prev, sw, sheet_layer(font, text[k - 1] as int, 16, 16, x + 10 * k, y))
    }
}

/// Draws `text` from a font sheet of 16 by 16 glyphs indexed by character code.
pub fn draw_text(screen: &mut Vec<u8>, sw: u32, sh: u32, x: u32, y: u32, text: &str, font: &Texture)
    requires
        frame_ok(old(screen)@, sw as int, sh as int),
        font.wf(),
        forall|k: int| 0 <= k < text@.len() ==> (#[trigger] text@[k] as int) < 256,
        x + 10 * text@.len() + cell_w(*font, 16) <= sw,
        y + cell_h(*font, 16) <= sh,
    ensures
        final(screen)@ == text_frame(old(screen)@, sw as int, *font, text@, x as int, y as int, text@.len()),
{
    let n = text.unicode_len();
    let mut k: usize = 0;
    let mut px: u32 = x;
    while k < n
        invariant
            n == text@.len(),
            k <= n,
            px == x + 10 * k,
            font.wf(),
            forall|j: int| 0 <= j < text@.len() ==> (#[trigger] text@[j] as int) < 256,
            x + 10 * n + cell_w(*font, 16) <= sw,
            y + cell_h(*font, 16) <= sh,
            frame_ok(screen@, sw as int, sh as int),
            screen@ == text_frame(old(screen)@, sw as int, *font, text@, x as int, y as int, k as nat),
        decreases n - k,
    {
        let c = text.get_char(k);
        assert(c == text@[k as int]);
        px = px + 10;
        blit_sheet(screen, sw, sh, px, y, font, c as usize, 16, 16);
        k = k + 1;
    }
}

} // verus!
