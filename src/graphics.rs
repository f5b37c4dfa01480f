use vstd::prelude::*;

verus! {

/// An RGBA colour with 8 bits per channel.
#[derive(Clone, Copy, PartialEq, Eq, Debug, Structural)]
pub struct Color {
    pub r: u8,
    pub g: u8,
    pub b: u8,
    pub a: u8,
}

/// One colour channel of `src` laid over `dst` with opacity `alpha` out of 255, rounded down.
pub open spec fn blend_channel(dst: u8, src: u8, alpha: u8) -> u8 {
    ((src * alpha + dst * (255 - alpha)) / 255) as u8
}

proof fn lemma_blend_channel_bound(dst: u8, src: u8, alpha: u8)
    ensures
        0 <= (src * alpha + dst * (255 - alpha)) / 255 <= 255,
{
    assert(0 <= src * alpha + dst * (255 - alpha) <= 255 * 255) by (nonlinear_arith)
        requires
            0 <= src <= 255,
            0 <= dst <= 255,
            0 <= alpha <= 255,
    ;
}

fn blend_u8(dst: u8, src: u8, alpha: u8) -> (r: u8)
    ensures
        r == blend_channel(dst, src, alpha),
{
    proof {
        lemma_blend_channel_bound(dst, src, alpha);
    }
    let total: u32 = src as u32 * alpha as u32 + dst as u32 * (255 - alpha as u32);
    (total / 255) as u8
}

impl Color {
    pub fn from_rgb(r: u8, g: u8, b: u8) -> (c: Color)
        ensures
            c == (Color { r, g, b, a: 255 }),
    {
        Color { r, g, b, a: 255 }
    }

    pub fn from_rgba(r: u8, g: u8, b: u8, a: u8) -> (c: Color)
        ensures
            c == (Color { r, g, b, a }),
    {
        Color { r, g, b, a }
    }

    /// The four bytes at the start of `bytes`, read as red, green, blue and alpha.
    pub fn from_bytes(bytes: &[u8]) -> (c: Color)
        requires
            bytes@.len() >= 4,
        ensures
            c == (Color { r: bytes@[0], g: bytes@[1], b: bytes@[2], a: bytes@[3] }),
    {
        Color { r: bytes[0], g: bytes[1], b: bytes[2], a: bytes[3] }
    }

    /// `self` after `color` is composited over it: each colour channel moves towards
    /// `color`'s by its alpha; `self`'s own alpha is kept.
    pub open spec fn blended(self, color: Color) -> Color {
        Color {
            r: blend_channel(self.r, color.r, color.a),
            g: blend_channel(self.g, color.g, color.a),
            b: blend_channel(self.b, color.b, color.a),
            a: self.a,
        }
    }

    pub fn blend(&mut self, color: Color)
        ensures
            *final(self) == old(self).blended(color),
    {
        self.r = blend_u8(self.r, color.r, color.a);
        self.g = blend_u8(self.g, color.g, color.a);
        self.b = blend_u8(self.b, color.b, color.a);
    }

    pub fn slice(&self) -> (s: [u8; 4])
        ensures
            s@ == seq![self.r, self.g, self.b, self.a],
    {
        [self.r, self.g, self.b, self.a]
    }
}

impl Default for Color {
    /// Opaque white.
    fn default() -> (c: Color)
        ensures
            c == (Color { r: 255, g: 255, b: 255, a: 255 }),
    {
        Color { r: 255, g: 255, b: 255, a: 255 }
    }
}

/// `n` is a power of two.
pub open spec fn is_pow2(n: nat) -> bool
    decreases n,
{
    if n == 1 {
        true
    } else if n == 0 || n % 2 == 1 {
        false
    } else {
        is_pow2(n / 2)
    }
}

/// A power of two is at least one.
pub proof fn lemma_pow2_positive(n: nat)
    requires
        is_pow2(n),
    ensures
        n >= 1,
    decreases n,
{
}

/// Decides whether `n` is a power of two.
pub fn power_of_two(n: u32) -> (r: bool)
    ensures
        r == is_pow2(n as nat),
{
    let mut m = n;
    while m > 1 && m % 2 == 0
        invariant
            is_pow2(m as nat) == is_pow2(n as nat),
        decreases m,
    {
        m = m / 2;
    }
    m == 1
}

/// Masking with `n - 1` keeps a coordinate inside `[0, n)`.
pub proof fn lemma_wrap_in_range(v: u32, n: u32)
    requires
        n >= 1,
    ensures
        v & ((n - 1) as u32) < n,
{
    let m: u32 = (n - 1) as u32;
    assert(v & m <= m) by (bit_vector);
}

/// An image of RGBA pixels, row by row, whose sides are powers of two.
pub struct Texture {
    width: u32,
    height: u32,
    bytes: Vec<u8>,
}

impl Texture {
    pub closed spec fn spec_width(&self) -> nat {
        self.width as nat
    }

    pub closed spec fn spec_height(&self) -> nat {
        self.height as nat
    }

    /// The pixel bytes, four per pixel, row by row.
    pub closed spec fn spec_bytes(&self) -> Seq<u8> {
        self.bytes@
    }

    pub open spec fn wf(&self) -> bool {
        &&& is_pow2(self.spec_width())
        &&& is_pow2(self.spec_height())
        &&& self.spec_bytes().len() == 4 * self.spec_width() * self.spec_height()
        &&& 4 * self.spec_width() * self.spec_height() <= u32::MAX
    }

    /// The texel in column `x` and row `y`.
    pub open spec fn texel(&self, x: int, y: int) -> Color {
        let i = 4 * (y * self.spec_width() + x);
        Color {
            r: self.spec_bytes()[i],
            g: self.spec_bytes()[i + 1],
            b: self.spec_bytes()[i + 2],
            a: self.spec_bytes()[i + 3],
        }
    }

    /// A texture from its sides and pixel bytes; `None` unless both sides are powers of
    /// two and there are exactly four bytes per pixel.
    pub fn new(width: u32, height: u32, bytes: Vec<u8>) -> (r: Option<Texture>)
        ensures
            match r {
                Some(t) => t.wf() && t.spec_width() == width && t.spec_height() == height
                    && t.spec_bytes() == bytes@,
                None => !(is_pow2(width as nat) && is_pow2(height as nat) && bytes@.len() == 4
                    * width * height && 4 * width * height <= u32::MAX),
            },
    {
        if !power_of_two(width) || !power_of_two(height) {
            return None;
        }
        assert((width as u64) * (height as u64) <= u32::MAX * u32::MAX) by (nonlinear_arith)
            requires
                width <= u32::MAX,
                height <= u32::MAX,
        ;
        let area = (width as u64) * (height as u64);
        assert(4 * width * height == 4 * area) by (nonlinear_arith)
            requires
                area == width * height,
        ;
        if area > 0x3fff_ffff || bytes.len() as u64 != 4 * area {
            return None;
        }
        Some(Texture { width, height, bytes })
    }

    pub fn width(&self) -> (r: u32)
        ensures
            r == self.spec_width(),
    {
        self.width
    }

    pub fn height(&self) -> (r: u32)
        ensures
            r == self.spec_height(),
    {
        self.height
    }

    /// The pixel whose four bytes start at `idx`.
    pub fn pixel(&self, idx: usize) -> (c: Color)
        requires
            self.wf(),
            idx + 3 < self.spec_bytes().len(),
        ensures
            c == (Color {
                r: self.spec_bytes()[idx as int],
                g: self.spec_bytes()[idx + 1],
                b: self.spec_bytes()[idx + 2],
                a: self.spec_bytes()[idx + 3],
            }),
    {
        Color {
            r: self.bytes[idx],
            g: self.bytes[idx + 1],
            b: self.bytes[idx + 2],
            a: self.bytes[idx + 3],
        }
    }

    /// The texel in column `x` and row `y`.
    pub fn texel_at(&self, x: u32, y: u32) -> (c: Color)
        requires
            self.wf(),
            x < self.spec_width(),
            y < self.spec_height(),
        ensures
            c == self.texel(x as int, y as int),
    {
        proof {
            lemma_texel_index(x as int, y as int, self.spec_width() as int, self.spec_height() as int);
        }
        let i = 4 * (y as usize * self.width as usize + x as usize);
        self.pixel(i)
    }
}

/// The four bytes of the texel at `(x, y)` lie inside a `w` by `h` texture.
pub proof fn lemma_texel_index(x: int, y: int, w: int, h: int)
    requires
        0 <= x < w,
        0 <= y < h,
    ensures
        0 <= 4 * (y * w + x),
        4 * (y * w + x) + 3 < 4 * w * h,
{
    assert(0 <= y * w + x < w * h) by (nonlinear_arith)
        requires
            0 <= x < w,
            0 <= y < h,
    ;
    assert(4 * (w * h) == 4 * w * h) by (nonlinear_arith);
}

} // verus!
