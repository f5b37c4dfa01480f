use vstd::prelude::*;
use crate::frame::{frame_map, frame_ok, lemma_frame_map, pixel_at};
use crate::graphics::{Color, Texture};
use crate::map::{GridMap, Tile};
use crate::raycast::{cast_ray, cast_spec, hit_spec, perp_spec, screen_ok, Camera, WallHit, SCREEN_LIMIT};
use crate::walls::{draw_wall_column, in_wall_strip, wall_pixel};
use crate::floor::{draw_plane_row, plane_pixel};
use crate::assets::Assets;
use crate::frame::{clear, clear_frame};
use crate::order::{draw_order, far_to_near};
use crate::shading::{clamp_distance, clamp_distance_exec, divisor_spec, shade_divisor, SPRITE_SHADE_DEN, SPRITE_SHADE_NUM};
use crate::sprites::{
    column_visible, dist_sq, draw_sprite, isqrt, project, project_spec, sprite_covers, sprite_pixel, sqrt_floor,
    Projection, SpriteRecord,
};

verus! {

/// The depth recorded for a column where no wall was found: farther than any wall.
pub const NO_WALL: i128 = 0x1000_0000_0000_0000_0000;

/// The texture for a tile: exits have their own, every other occupied tile shows the wall.
pub open spec fn wall_texture(tile: Tile, wall_tex: Option<Texture>, exit_tex: Option<Texture>) -> Option<Texture> {
    match tile {
        Tile::Exit => exit_tex,
        _ => wall_tex,
    }
}

/// What the wall pass makes of each pixel: the strip of the wall hit in its column,
/// where a wall was hit and its texture is held; otherwise the pixel as it was.
pub open spec fn wall_layer(
    map: GridMap,
    cam: Camera,
    wall_tex: Option<Texture>,
    exit_tex: Option<Texture>,
    light: u64,
    w: int,
    h: int,
) -> spec_fn(int, int, Color) -> Color {
    |px: int, py: int, c: Color|
        {
            let hit = hit_spec(map, cam, px, w);
            if cast_spec(map, cam, px, w).is_some() && in_wall_strip(hit, h, px, px, py) {
                match wall_texture(hit.tile, wall_tex, exit_tex) {
                    Some(t) => wall_pixel(cam, hit, t, light, h, py),
                    None => c,
                }
            } else {
                c
            }
        }
}

/// A borrowed texture, if any, as a value.
pub open spec fn opt_tex(o: Option<&Texture>) -> Option<Texture> {
    match o {
        Some(t) => Some(*t),
        None => None,
    }
}

/// The depth of column `x`: the distance to its wall, or `NO_WALL`.
pub open spec fn depth_spec(map: GridMap, cam: Camera, x: int, w: int) -> i128 {
    if cast_spec(map, cam, x, w).is_some() {
        perp_spec(map, cam, x, w) as i128
    } else {
        NO_WALL
    }
}

/// Casts every column: draws the wall strips into `screen` and records each column's
/// wall distance in `z`. A column whose ray finds no wall, or whose wall has no texture,
/// is left as it was.
pub fn cast_walls(
    screen: &mut Vec<u8>,
    z: &mut Vec<i128>,
    w: u32,
    h: u32,
    map: &GridMap,
    cam: &Camera,
    wall_tex: Option<&Texture>,
    exit_tex: Option<&Texture>,
    light: u64,
)
    requires
        frame_ok(old(screen)@, w as int, h as int),
        old(z)@.len() == w,
        map.wf(),
        cam.wf(),
        wall_tex matches Some(t) ==> t.wf(),
        exit_tex matches Some(t) ==> t.wf(),
    ensures
        final(screen)@ == frame_map(old(screen)@, w as int, wall_layer(*map, *cam, opt_tex(wall_tex), opt_tex(exit_tex), light, w as int, h as int)),
        final(z)@.len() == w,
        forall|x: int| 0 <= x < w ==> #[trigger] final(z)@[x] == depth_spec(*map, *cam, x, w as int),
{
    let ghost f = wall_layer(*map, *cam, opt_tex(wall_tex), opt_tex(exit_tex), light, w as int, h as int);
    let mut x: u32 = 0;
    while x < w
        invariant
            frame_ok(screen@, w as int, h as int),
            frame_ok(old(screen)@, w as int, h as int),
            x <= w,
            z@.len() == w,
            map.wf(),
            cam.wf(),
            wall_tex matches Some(t) ==> t.wf(),
            exit_tex matches Some(t) ==> t.wf(),
            f == wall_layer(*map, *cam, opt_tex(wall_tex), opt_tex(exit_tex), light, w as int, h as int),
            forall|k: int| 0 <= k < x ==> #[trigger] z@[k] == depth_spec(*map, *cam, k, w as int),
            forall|px: int, py: int|
                0 <= px < w && 0 <= py < h ==> #[trigger] pixel_at(screen@, w as int, px, py) == if px < x {
                    f(px, py, pixel_at(old(screen)@, w as int, px, py))
                } else {
                    pixel_at(old(screen)@, w as int, px, py)
                },
        decreases w - x,
    {
        let ghost before = screen@;
        match cast_ray(map, cam, x, w) {
            None => {
                z.set(x as usize, NO_WALL);
            },
            Some(hit) => {
                z.set(x as usize, hit.perp_dist);
                let tex = match hit.tile {
                    Tile::Exit => exit_tex,
                    _ => wall_tex,
                };
                match tex {
                    Some(t) => {
                        draw_wall_column(screen, w, h, x, cam, &hit, t, light);
                    },
                    None => {},
                }
            },
        }
        assert forall|px: int, py: int| 0 <= px < w && 0 <= py < h implies #[trigger] pixel_at(
            screen@,
            w as int,
            px,
            py,
        ) == if px < x + 1 {
            f(px, py, pixel_at(old(screen)@, w as int, px, py))
        } else {
            pixel_at(old(screen)@, w as int, px, py)
        } by {
            assert(pixel_at(before, w as int, px, py) == if px < x {
                f(px, py, pixel_at(old(screen)@, w as int, px, py))
            } else {
                pixel_at(old(screen)@, w as int, px, py)
            });
            if px != x {
                if cast_spec(*map, *cam, x as int, w as int).is_some() {
                    assert(!in_wall_strip(hit_spec(*map, *cam, x as int, w as int), h as int, x as int, px, py));
                }
            }
        }
        x = x + 1;
    }
    proof {
        lemma_frame_map(old(screen)@, screen@, w as int, h as int, f);
    }
}

/// What the floor and ceiling pass makes of each pixel: rows from the horizon down show
/// the floor; rows above show the ceiling, mirrored from the floor row below.
pub open spec fn plane_layer(
    cam: Camera,
    floor: Texture,
    ceil: Texture,
    light: u64,
    w: int,
    h: int,
) -> spec_fn(int, int, Color) -> Color {
    |px: int, py: int, c: Color|
        if py >= h / 2 {
            plane_pixel(cam, floor, light, w, h, py, px)
        } else {
            plane_pixel(cam, ceil, light, w, h, h - 1 - py, px)
        }
}

/// Fills every row with floor or ceiling, whatever was there before.
pub fn cast_floor(
    screen: &mut Vec<u8>,
    w: u32,
    h: u32,
    cam: &Camera,
    floor: &Texture,
    ceil: &Texture,
    light: u64,
)
    requires
        frame_ok(old(screen)@, w as int, h as int),
        cam.wf(),
        floor.wf(),
        ceil.wf(),
    ensures
        final(screen)@ == frame_map(old(screen)@, w as int, plane_layer(*cam, *floor, *ceil, light, w as int, h as int)),
{
    let ghost f = plane_layer(*cam, *floor, *ceil, light, w as int, h as int);
    let mut y: u32 = h / 2;
    while y < h
        invariant
            frame_ok(screen@, w as int, h as int),
            frame_ok(old(screen)@, w as int, h as int),
            h / 2 <= y <= h,
            cam.wf(),
            floor.wf(),
            ceil.wf(),
            f == plane_layer(*cam, *floor, *ceil, light, w as int, h as int),
            forall|px: int, py: int|
                0 <= px < w && 0 <= py < h ==> #[trigger] pixel_at(screen@, w as int, px, py) == if h / 2 <= py < y || h
                    - 1 - y < py <= h - 1 - h / 2 {
                    f(px, py, pixel_at(old(screen)@, w as int, px, py))
                } else {
                    pixel_at(old(screen)@, w as int, px, py)
                },
        decreases h - y,
    {
        let ghost before = screen@;
        draw_plane_row(screen, w, h, y, cam, floor, ceil, light);
        assert forall|px: int, py: int| 0 <= px < w && 0 <= py < h implies #[trigger] pixel_at(
            screen@,
            w as int,
            px,
            py,
        ) == if h / 2 <= py < y + 1 || h - 1 - (y + 1) < py <= h - 1 - h / 2 {
            f(px, py, pixel_at(old(screen)@, w as int, px, py))
        } else {
            pixel_at(old(screen)@, w as int, px, py)
        } by {
            assert(pixel_at(before, w as int, px, py) == if h / 2 <= py < y || h - 1 - y < py <= h - 1 - h / 2 {
                f(px, py, pixel_at(old(screen)@, w as int, px, py))
            } else {
                pixel_at(old(screen)@, w as int, px, py)
            });
            if py == h - 1 - y && py == y {
                assert(y - h / 2 == 0);
            }
        }
        y = y + 1;
    }
    proof {
        assert forall|px: int, py: int| 0 <= px < w && 0 <= py < h implies #[trigger] pixel_at(screen@, w as int, px, py) == f(
            px,
            py,
            pixel_at(old(screen)@, w as int, px, py),
        ) by {
            assert(h / 2 <= py < y || h - 1 - y < py <= h - 1 - h / 2);
        }
        lemma_frame_map(old(screen)@, screen@, w as int, h as int, f);
    }
}

/// The darkness divisor of a sprite, from its distance to the camera.
pub open spec fn sprite_divisor(cam: Camera, s: SpriteRecord, light: u64) -> u8 {
    divisor_spec(clamp_distance(sqrt_floor(dist_sq(cam, s))), light as nat, SPRITE_SHADE_NUM, SPRITE_SHADE_DEN) as u8
}

/// What compositing one projected sprite makes of each pixel.
pub open spec fn sprite_layer(p: Projection, tex: Texture, z: Seq<i128>, h: int, div: u8) -> spec_fn(int, int, Color) -> Color {
    |px: int, py: int, c: Color|
        if sprite_covers(p, px, py) && column_visible(p, z, px) {
            sprite_pixel(c, p, tex, h, px, py, div)
        } else {
            c
        }
}

/// The squared distance of each sprite to the camera, the key of the drawing order.
pub open spec fn sprite_keys(cam: Camera, sprites: Seq<SpriteRecord>) -> Seq<i128> {
    Seq::new(sprites.len(), |i: int| dist_sq(cam, sprites[i]) as i128)
}

/// The frame `s0` after the first `k` sprites of `order` are composited over it, one
/// after the other; a sprite that does not project or whose texture is not held is
/// left out.
pub open spec fn sprites_frame(
    s0: Seq<u8>,
    cam: Camera,
    sprites: Seq<SpriteRecord>,
    assets: Assets,
    z: Seq<i128>,
    light: u64,
    w: int,
    h: int,
    order: Seq<usize>,
    k: nat,
) -> Seq<u8>
    decreases k,
{
    if k == 0 || k > order.len() {
        s0
    } else {
        let prev = sprites_frame(s0, cam, sprites, assets, z, light, w, h, order, (k - 1) as nat);
        let sp = sprites[order[k - 1] as int];
        match (project_spec(cam, sp, w, h), assets.lookup(sp.texture@)) {
            (Some(p), Some(t)) => frame_map(prev, w, sprite_layer(p, t, z, h, sprite_divisor(cam, sp, light))),
            _ => prev,
        }
    }
}

fn sprite_dist_sq(cam: &Camera, s: &SpriteRecord) -> (d: i128)
    requires
        cam.wf(),
        s.wf(),
    ensures
        d == dist_sq(*cam, *s),
        0 <= d < 0x10_0000_0000_0000_0000_0000_0000,
{
    let dx: i128 = s.pos_x as i128 - cam.pos_x as i128;
    let dy: i128 = s.pos_y as i128 - cam.pos_y as i128;
    assert(0 <= dx * dx <= 0x1_0000_0000_0000 * 0x1_0000_0000_0000) by (nonlinear_arith)
        requires
            -0x1_0000_0000_0000 <= dx <= 0x1_0000_0000_0000,
    ;
    assert(0 <= dy * dy <= 0x1_0000_0000_0000 * 0x1_0000_0000_0000) by (nonlinear_arith)
        requires
            -0x1_0000_0000_0000 <= dy <= 0x1_0000_0000_0000,
    ;
    dx * dx + dy * dy
}

/// Composites the sprites over the frame from the farthest to the nearest, each column
/// tested against the wall distances in `z`.
pub fn draw_sprites(
    screen: &mut Vec<u8>,
    w: u32,
    h: u32,
    cam: &Camera,
    sprites: &Vec<SpriteRecord>,
    assets: &Assets,
    z: &Vec<i128>,
    light: u64,
)
    requires
        frame_ok(old(screen)@, w as int, h as int),
        cam.wf(),
        forall|i: int| 0 <= i < sprites@.len() ==> (#[trigger] sprites@[i]).wf(),
        assets.wf(),
        z@.len() == w,
    ensures
        final(screen)@ == sprites_frame(
            old(screen)@,
            *cam,
            sprites@,
            *assets,
            z@,
            light,
            w as int,
            h as int,
            draw_order(sprite_keys(*cam, sprites@), sprites@.len()),
            sprites@.len(),
        ),
{
    let n = sprites.len();
    let mut keys: Vec<i128> = Vec::new();
    let mut i: usize = 0;
    while i < n
        invariant
            n == sprites@.len(),
            i <= n,
            cam.wf(),
            forall|j: int| 0 <= j < sprites@.len() ==> (#[trigger] sprites@[j]).wf(),
            keys@ == sprite_keys(*cam, sprites@).take(i as int),
        decreases n - i,
    {
        let d = sprite_dist_sq(cam, &sprites[i]);
        keys.push(d);
        assert(keys@ =~= sprite_keys(*cam, sprites@).take(i + 1));
        i = i + 1;
    }
    assert(keys@ =~= sprite_keys(*cam, sprites@));
    let order = far_to_near(&keys);
    let ghost ord = order@;
    proof {
        crate::order::lemma_draw_order_indices(sprite_keys(*cam, sprites@), n as nat);
    }
    let mut k: usize = 0;
    while k < n
        invariant
            n == sprites@.len(),
            k <= n,
            ord == order@,
            ord == draw_order(sprite_keys(*cam, sprites@), n as nat),
            ord.len() == n,
            forall|j: int| 0 <= j < ord.len() ==> (#[trigger] ord[j]) < n,
            frame_ok(screen@, w as int, h as int),
            cam.wf(),
            forall|j: int| 0 <= j < sprites@.len() ==> (#[trigger] sprites@[j]).wf(),
            assets.wf(),
            z@.len() == w,
            screen@ == sprites_frame(old(screen)@, *cam, sprites@, *assets, z@, light, w as int, h as int, ord, k as nat),
        decreases n - k,
    {
        proof {
            crate::order::lemma_draw_order_indices(sprite_keys(*cam, sprites@), n as nat);
        }
        let sp = &sprites[order[k]];
        let ghost before = screen@;
        assert(sprites_frame(old(screen)@, *cam, sprites@, *assets, z@, light, w as int, h as int, ord, (k + 1) as nat)
            == match (project_spec(*cam, *sp, w as int, h as int), assets.lookup(sp.texture@)) {
            (Some(p), Some(t)) => frame_map(before, w as int, sprite_layer(p, t, z@, h as int, sprite_divisor(*cam, *sp, light))),
            _ => before,
        });
        match assets.get_texture(sp.texture.as_str()) {
            None => {},
            Some(t) => {
                match project(cam, sp, w, h) {
                    None => {},
                    Some(p) => {
                        let d = isqrt(sprite_dist_sq(cam, sp) as u128);
                        let div = shade_divisor(clamp_distance_exec(d as i128), light, SPRITE_SHADE_NUM, SPRITE_SHADE_DEN);
                        draw_sprite(screen, w, h, &p, t, z, div);
                        proof {
                            let f = sprite_layer(p, *t, z@, h as int, div);
                            lemma_frame_map(before, screen@, w as int, h as int, f);
                        }
                    },
                }
            },
        }
        k = k + 1;
    }
}

/// Renders frames of one size, keeping the per-column wall distances between the
/// wall pass and the sprite pass.
pub struct Renderer {
    z_buffer: Vec<i128>,
    width: u32,
    height: u32,
}

/// The wall distance of every column, as the wall pass records it.
pub open spec fn depth_seq(map: GridMap, cam: Camera, w: int) -> Seq<i128> {
    Seq::new(w as nat, |x: int| depth_spec(map, cam, x, w))
}

/// The floor and ceiling of a cleared frame, or the cleared frame where either
/// texture is not held.
pub open spec fn base_frame(cam: Camera, assets: Assets, light: u64, w: int, h: int) -> Seq<u8> {
    match (assets.lookup("floor"@), assets.lookup("ceil"@)) {
        (Some(f), Some(c)) => frame_map(clear_frame(w, h), w, plane_layer(cam, f, c, light, w, h)),
        _ => clear_frame(w, h),
    }
}

/// The whole frame: floor and ceiling, then the walls, then the sprites from far to near.
pub open spec fn frame_spec(
    map: GridMap,
    cam: Camera,
    assets: Assets,
    sprites: Seq<SpriteRecord>,
    light: u64,
    w: int,
    h: int,
) -> Seq<u8> {
    let walls = frame_map(
        base_frame(cam, assets, light, w, h),
        w,
        wall_layer(map, cam, assets.lookup("wall"@), assets.lookup("exit"@), light, w, h),
    );
    sprites_frame(
        walls,
        cam,
        sprites,
        assets,
        depth_seq(map, cam, w),
        light,
        w,
        h,
        draw_order(sprite_keys(cam, sprites), sprites.len()),
        sprites.len(),
    )
}

/// Rendering is a function of its inputs alone: two runs of `render_frame` with the same
/// grid, camera, textures, sprites and light leave byte-identical frames and depth
/// buffers, whatever the frames and buffers held before.
pub proof fn lemma_render_deterministic(
    t1: Seq<u8>,
    t2: Seq<u8>,
    d1: Seq<i128>,
    d2: Seq<i128>,
    map: GridMap,
    cam: Camera,
    assets: Assets,
    sprites: Seq<SpriteRecord>,
    light: u64,
    w: int,
    h: int,
)
    requires
        t1 == frame_spec(map, cam, assets, sprites, light, w, h),
        t2 == frame_spec(map, cam, assets, sprites, light, w, h),
        d1 == depth_seq(map, cam, w),
        d2 == depth_seq(map, cam, w),
    ensures
        t1 == t2,
        d1 == d2,
{
}

impl Renderer {
    pub closed spec fn depth(&self) -> Seq<i128> {
        self.z_buffer@
    }

    pub closed spec fn spec_width(&self) -> nat {
        self.width as nat
    }

    pub closed spec fn spec_height(&self) -> nat {
        self.height as nat
    }

    pub open spec fn wf(&self) -> bool {
        &&& self.depth().len() == self.spec_width()
        &&& 1 <= self.spec_width() <= SCREEN_LIMIT
        &&& 1 <= self.spec_height() <= SCREEN_LIMIT
    }

    /// A renderer for frames `width` by `height` pixels.
    pub fn new(width: u32, height: u32) -> (r: Renderer)
        requires
            1 <= width <= SCREEN_LIMIT,
            1 <= height <= SCREEN_LIMIT,
        ensures
            r.wf(),
            r.spec_width() == width,
            r.spec_height() == height,
    {
        let mut z_buffer: Vec<i128> = Vec::new();
        let mut i: u32 = 0;
        while i < width
            invariant
                i <= width,
                z_buffer@.len() == i,
            decreases width - i,
        {
            z_buffer.push(NO_WALL);
            i = i + 1;
        }
        Renderer { z_buffer, width, height }
    }

    pub fn width(&self) -> (r: u32)
        ensures
            r == self.spec_width(),
    {
        self.width
    }

    pub fn height(&self) -> (r: u32)
        ensures
            r == self.spec_height(),
    {
        self.height
    }

    /// The wall distance recorded for column `x` by the last frame.
    pub fn depth_at(&self, x: u32) -> (d: i128)
        requires
            self.wf(),
            x < self.spec_width(),
        ensures
            d == self.depth()[x as int],
    {
        self.z_buffer[x as usize]
    }

    /// Renders one frame into `screen`, which it first clears: floor and ceiling, walls,
    /// then sprites. The textures are taken from `assets` under the names `floor`, `ceil`,
    /// `wall` and `exit`, and each sprite's under its own name.
    pub fn render_frame(
        &mut self,
        screen: &mut Vec<u8>,
        map: &GridMap,
        cam: &Camera,
        assets: &Assets,
        sprites: &Vec<SpriteRecord>,
        light: u64,
    )
        requires
            old(self).wf(),
            old(screen)@.len() == 4 * old(self).spec_width() * old(self).spec_height(),
            map.wf(),
            cam.wf(),
            assets.wf(),
            forall|i: int| 0 <= i < sprites@.len() ==> (#[trigger] sprites@[i]).wf(),
        ensures
            final(self).wf(),
            final(self).spec_width() == old(self).spec_width(),
            final(self).spec_height() == old(self).spec_height(),
            final(self).depth() == depth_seq(*map, *cam, old(self).spec_width() as int),
            final(screen)@ == frame_spec(
                *map,
                *cam,
                *assets,
                sprites@,
                light,
                old(self).spec_width() as int,
                old(self).spec_height() as int,
            ),
    {
        let w = self.width;
        let h = self.height;
        clear(screen, w, h);
        let floor = assets.get_texture("floor");
        let ceil = assets.get_texture("ceil");
        match (floor, ceil) {
            (Some(f), Some(c)) => {
                cast_floor(screen, w, h, cam, f, c, light);
            },
            _ => {},
        }
        assert(screen@ == base_frame(*cam, *assets, light, w as int, h as int));
        let wall_tex = assets.get_texture("wall");
        let exit_tex = assets.get_texture("exit");
        cast_walls(screen, &mut self.z_buffer, w, h, map, cam, wall_tex, exit_tex, light);
        assert(self.z_buffer@ =~= depth_seq(*map, *cam, w as int));
        draw_sprites(screen, w, h, cam, sprites, assets, &self.z_buffer, light);
    }
}

} // verus!
