use scawy::map::{idx, GridMap, Tile};
use scawy::raycast::{cast_ray, column_ray, Camera};
use scawy::shading::ONE;

fn walled_room(w: u32, h: u32) -> GridMap {
    let mut map = GridMap::new(w, h);
    for x in 0..w {
        map.set_tile(x, 0, Tile::Wall);
        map.set_tile(x, h - 1, Tile::Wall);
    }
    for y in 0..h {
        map.set_tile(0, y, Tile::Wall);
        map.set_tile(w - 1, y, Tile::Wall);
    }
    map
}

fn camera(px: i64, py: i64, dx: i64, dy: i64, plx: i64, ply: i64) -> Camera {
    Camera { pos_x: px, pos_y: py, dir_x: dx, dir_y: dy, plane_x: plx, plane_y: ply }
}

#[test]
fn center_column_distance_to_wall() {
    let map = walled_room(6, 6);
    let half = ONE / 2;
    for plane in [43253i64, ONE, 2 * ONE] {
        let cam = camera(2 * ONE + half, 2 * ONE + half, ONE, 0, 0, plane);
        let hit = cast_ray(&map, &cam, 32, 64).expect("a wall in the centre column");
        assert_eq!(hit.perp_dist, (2 * ONE + half) as i128);
        assert_eq!(hit.map_x, 5);
        assert_eq!(hit.map_y, 2);
        assert!(!hit.side);
        assert_eq!(hit.tile, Tile::Wall);
    }
}

#[test]
fn every_column_hits_in_a_bordered_room() {
    let map = walled_room(9, 7);
    let cam = camera(3 * ONE + 1234, 4 * ONE + 999, -40000, 51000, 33000, 26000);
    for x in 0..100u32 {
        let hit = cast_ray(&map, &cam, x, 100).expect("bordered room");
        assert!(hit.map_x < 9 && hit.map_y < 7);
        assert!(hit.perp_dist >= 0);
    }
}

#[test]
fn axis_parallel_ray_does_not_divide_by_zero() {
    let map = walled_room(6, 6);
    let cam = camera(2 * ONE, 3 * ONE, 0, -ONE, ONE, 0);
    let hit = cast_ray(&map, &cam, 10, 20).expect("wall above");
    assert_eq!(hit.map_y, 0);
    assert!(hit.side);
    assert_eq!(hit.perp_dist, (2 * ONE) as i128);
}

#[test]
fn exit_tile_is_reported() {
    let mut map = walled_room(6, 6);
    map.set_tile(5, 2, Tile::Exit);
    let cam = camera(2 * ONE + ONE / 2, 2 * ONE + ONE / 2, ONE, 0, 0, ONE);
    let hit = cast_ray(&map, &cam, 1, 2).unwrap();
    assert_eq!(hit.tile, Tile::Exit);
}

#[test]
fn negative_camera_position_aborts_column() {
    let map = walled_room(6, 6);
    let cam = camera(-ONE, 2 * ONE, ONE, 0, 0, ONE);
    assert!(cast_ray(&map, &cam, 3, 8).is_none());
}

#[test]
fn open_map_gives_no_hit() {
    let map = GridMap::new(4, 4);
    let cam = camera(ONE, ONE, ONE, 0, 0, ONE);
    assert!(cast_ray(&map, &cam, 2, 4).is_none());
}

#[test]
fn column_rays_span_the_view_plane() {
    let cam = camera(0, 0, ONE, 0, 0, ONE);
    assert_eq!(column_ray(&cam, 0, 4), (ONE as i128, -(ONE as i128)));
    assert_eq!(column_ray(&cam, 2, 4), (ONE as i128, 0));
    assert_eq!(column_ray(&cam, 1, 4), (ONE as i128, -(ONE as i128) / 2));
}

#[test]
fn grid_lookups_and_updates() {
    let mut map = GridMap::new(3, 2);
    assert_eq!(map.width(), 3);
    assert_eq!(map.height(), 2);
    assert_eq!(map.get_tile(2, 1), Some(&Tile::Empty));
    assert_eq!(map.get_tile(3, 0), None);
    assert_eq!(map.get_tile(0, 2), None);
    assert!(map.set_tile(1, 1, Tile::Exit));
    assert!(!map.set_tile(3, 1, Tile::Wall));
    assert_eq!(map.get_tile(1, 1), Some(&Tile::Exit));
    assert_eq!(map.get_tile(0, 1), Some(&Tile::Empty));
    map.fill(Tile::Wall);
    assert_eq!(map.get_tile(1, 1), Some(&Tile::Wall));
    assert_eq!(idx(2, 3, 10), 32);
}
