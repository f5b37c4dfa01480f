use scawy::assets::Assets;
use scawy::frame::{clear, get_pixel, new_frame, put_pixel};
use scawy::graphics::{Color, Texture};
use scawy::map::{GridMap, Tile};
use scawy::order::far_to_near;
use scawy::raycast::Camera;
use scawy::render::{cast_floor, cast_walls, draw_sprites, Renderer, NO_WALL};
use scawy::shading::ONE;
use scawy::sprites::{isqrt, project, SpriteRecord};

const W: u32 = 64;
const H: u32 = 48;
const BRIGHT: u64 = 1000 * ONE as u64;

fn solid(r: u8, g: u8, b: u8) -> Texture {
    Texture::new(1, 1, vec![r, g, b, 255]).unwrap()
}

fn camera() -> Camera {
    Camera { pos_x: 2 * ONE + ONE / 2, pos_y: 2 * ONE + ONE / 2, dir_x: ONE, dir_y: 0, plane_x: 0, plane_y: 43253 }
}

fn sprite(x: i64, y: i64, texture: &str) -> SpriteRecord {
    SpriteRecord { pos_x: x, pos_y: y, scale_x: ONE, scale_y: ONE, height_offset: 0, texture: texture.to_string() }
}

fn sprite_assets() -> Assets {
    let mut assets = Assets::new("assets".to_string());
    assets.load_texture("near".to_string(), solid(255, 0, 0));
    assets.load_texture("far".to_string(), solid(0, 255, 0));
    assets
}

#[test]
fn nearer_sprite_is_seen_in_front() {
    let cam = camera();
    let assets = sprite_assets();
    let near = sprite(5 * ONE + ONE / 2, 2 * ONE + ONE / 2, "near");
    let far = sprite(8 * ONE + ONE / 2, 2 * ONE + ONE / 2, "far");
    for list in [vec![near.clone(), far.clone()], vec![far.clone(), near.clone()]] {
        let mut screen = new_frame(W, H);
        let z = vec![NO_WALL; W as usize];
        draw_sprites(&mut screen, W, H, &cam, &list, &assets, &z, BRIGHT);
        assert_eq!(get_pixel(&screen, W, H, W / 2, H / 2), Color::from_rgba(255, 0, 0, 255));
    }
}

#[test]
fn sprite_behind_a_wall_leaves_the_frame() {
    let cam = camera();
    let assets = sprite_assets();
    let list = vec![sprite(5 * ONE + ONE / 2, 2 * ONE + ONE / 2, "near")];
    let mut screen = new_frame(W, H);
    let before = screen.clone();
    let z = vec![ONE as i128; W as usize];
    draw_sprites(&mut screen, W, H, &cam, &list, &assets, &z, BRIGHT);
    assert_eq!(screen, before);
    let z = vec![NO_WALL; W as usize];
    draw_sprites(&mut screen, W, H, &cam, &list, &assets, &z, BRIGHT);
    assert_ne!(screen, before);
}

#[test]
fn sprite_without_texture_is_dropped() {
    let cam = camera();
    let assets = sprite_assets();
    let list = vec![sprite(5 * ONE, 2 * ONE, "missing")];
    let mut screen = new_frame(W, H);
    let before = screen.clone();
    draw_sprites(&mut screen, W, H, &cam, &list, &assets, &vec![NO_WALL; W as usize], BRIGHT);
    assert_eq!(screen, before);
}

#[test]
fn sprite_projection() {
    let cam = camera();
    let p = project(&cam, &sprite(5 * ONE + ONE / 2, 2 * ONE + ONE / 2, "near"), W, H).unwrap();
    assert_eq!(p.depth, 3 * ONE as i128);
    assert_eq!(p.height, 16);
    assert_eq!(p.width, 16);
    assert_eq!((p.start_x, p.end_x), (24, 40));
    assert_eq!((p.start_y, p.end_y), (16, 32));
    assert!(project(&cam, &sprite(ONE, 2 * ONE + ONE / 2, "near"), W, H).is_none());
    let flat = Camera { plane_x: ONE, plane_y: 0, ..cam };
    assert!(project(&flat, &sprite(5 * ONE, 2 * ONE, "near"), W, H).is_none());
}

#[test]
fn transparent_texels_are_skipped() {
    let cam = camera();
    let mut assets = Assets::new("assets".to_string());
    assets.load_texture("ghost".to_string(), Texture::new(1, 1, vec![255, 255, 255, 0]).unwrap());
    let mut screen = new_frame(W, H);
    let before = screen.clone();
    let list = vec![sprite(4 * ONE, 2 * ONE + ONE / 2, "ghost")];
    draw_sprites(&mut screen, W, H, &cam, &list, &assets, &vec![NO_WALL; W as usize], BRIGHT);
    assert_eq!(screen, before);
}

#[test]
fn draw_order_is_far_to_near() {
    assert_eq!(far_to_near(&vec![3, 9, 5, 9]), vec![1, 3, 2, 0]);
    assert_eq!(far_to_near(&vec![]), Vec::<usize>::new());
}

#[test]
fn integer_square_roots() {
    assert_eq!(isqrt(0), 0);
    assert_eq!(isqrt(10), 3);
    assert_eq!(isqrt(1 << 40), 1 << 20);
    assert_eq!(isqrt((1 << 40) - 1), (1 << 20) - 1);
}

#[test]
fn frame_pixels() {
    let mut screen = new_frame(3, 2);
    assert_eq!(screen.len(), 24);
    assert_eq!(get_pixel(&screen, 3, 2, 2, 1), Color::from_rgba(8, 8, 8, 255));
    put_pixel(&mut screen, 3, 2, 1, 1, Color::from_rgba(1, 2, 3, 4));
    assert_eq!(&screen[16..20], &[1, 2, 3, 4]);
    clear(&mut screen, 3, 2);
    assert_eq!(screen, new_frame(3, 2));
}

#[test]
fn texture_atlas() {
    let mut assets = Assets::new("assets".to_string());
    assert_eq!(assets.folder_path(), "assets");
    assert!(assets.get_texture("wall").is_none());
    assets.load_texture("wall".to_string(), solid(1, 2, 3));
    assets.load_texture("floor".to_string(), solid(4, 5, 6));
    assert_eq!(assets.get_texture("wall").unwrap().texel_at(0, 0), Color::from_rgb(1, 2, 3));
    assets.load_texture("wall".to_string(), solid(7, 8, 9));
    assert_eq!(assets.get_texture("wall").unwrap().texel_at(0, 0), Color::from_rgb(7, 8, 9));
    assert_eq!(assets.get_texture("floor").unwrap().texel_at(0, 0), Color::from_rgb(4, 5, 6));
}

fn room() -> GridMap {
    let mut map = GridMap::new(6, 6);
    for k in 0..6 {
        map.set_tile(k, 0, Tile::Wall);
        map.set_tile(k, 5, Tile::Wall);
        map.set_tile(0, k, Tile::Wall);
        map.set_tile(5, k, Tile::Wall);
    }
    map
}

#[test]
fn floor_and_ceiling_fill_the_frame() {
    let cam = camera();
    let board = Texture::new(2, 2, vec![200, 0, 0, 255, 0, 200, 0, 255, 0, 0, 200, 255, 200, 200, 200, 255]).unwrap();
    let ceil = solid(100, 100, 100);
    let mut screen = vec![77u8; (W * H * 4) as usize];
    cast_floor(&mut screen, W, H, &cam, &board, &ceil, BRIGHT);
    for y in 0..H {
        for x in 0..W {
            let c = get_pixel(&screen, W, H, x, y);
            assert_eq!(c.a, 255);
            if y == H / 2 || y == H - 1 - H / 2 {
                assert_eq!(c, Color::from_rgba(0, 0, 0, 255));
            } else if y < H / 2 {
                assert_eq!(c, Color::from_rgba(50, 50, 50, 255));
            } else {
                assert!([0u8, 100].contains(&c.r) && [0u8, 100].contains(&c.g) && [0u8, 100].contains(&c.b));
            }
        }
    }
}

#[test]
fn walls_fill_columns_and_depths() {
    let cam = camera();
    let map = room();
    let wall = solid(200, 100, 50);
    let mut screen = new_frame(W, H);
    let mut z = vec![0i128; W as usize];
    cast_walls(&mut screen, &mut z, W, H, &map, &cam, Some(&wall), None, BRIGHT);
    assert_eq!(z[(W / 2) as usize], (2 * ONE + ONE / 2) as i128);
    assert_eq!(get_pixel(&screen, W, H, W / 2, H / 2), Color::from_rgb(200, 100, 50));
    assert_eq!(get_pixel(&screen, W, H, W / 2, 0), Color::from_rgba(8, 8, 8, 255));
    let mut bare = new_frame(W, H);
    cast_walls(&mut bare, &mut z, W, H, &map, &cam, None, None, BRIGHT);
    assert_eq!(bare, new_frame(W, H));
}

#[test]
fn rendering_twice_gives_the_same_frame() {
    let cam = camera();
    let map = room();
    let mut assets = sprite_assets();
    assets.load_texture("wall".to_string(), solid(200, 100, 50));
    assets.load_texture("floor".to_string(), solid(60, 60, 60));
    assets.load_texture("ceil".to_string(), solid(30, 30, 30));
    let list = vec![sprite(4 * ONE, 2 * ONE + ONE / 2, "near"), sprite(3 * ONE, 3 * ONE, "far")];
    let mut renderer = Renderer::new(W, H);
    let mut first = vec![0u8; (W * H * 4) as usize];
    renderer.render_frame(&mut first, &map, &cam, &assets, &list, ONE as u64);
    let mut second = vec![123u8; (W * H * 4) as usize];
    renderer.render_frame(&mut second, &map, &cam, &assets, &list, ONE as u64);
    assert_eq!(first, second);
    assert_eq!(renderer.depth_at(W / 2), (2 * ONE + ONE / 2) as i128);
    assert_eq!((renderer.width(), renderer.height()), (W, H));
}
