use scawy::astar::navigate;
use scawy::map::{GridMap, Tile};
use scawy::shading::ONE;

fn bordered(w: u32, h: u32) -> GridMap {
    let mut map = GridMap::new(w, h);
    for x in 0..w {
        map.set_tile(x, 0, Tile::Wall);
        map.set_tile(x, h - 1, Tile::Wall);
    }
    for y in 0..h {
        map.set_tile(0, y, Tile::Wall);
        map.set_tile(w - 1, y, Tile::Wall);
    }
    map
}

fn cell(p: (i64, i64)) -> (i64, i64) {
    (p.0 / ONE, p.1 / ONE)
}

fn adjacent(a: (i64, i64), b: (i64, i64)) -> bool {
    (a.0 - b.0).abs() + (a.1 - b.1).abs() == 1
}

const HALF: i64 = ONE / 2;

#[test]
fn shortest_walk_across_a_room() {
    let map = bordered(5, 5);
    let start = (ONE + HALF, ONE + HALF);
    let target = (3 * ONE + HALF, 3 * ONE + HALF);
    let path = navigate(&map, start, target);
    assert_eq!(path.len(), 5);
    assert_eq!(path[0], (ONE, ONE));
    assert_eq!(*path.last().unwrap(), target);
    for k in 0..path.len() - 1 {
        assert!(adjacent(cell(path[k]), cell(path[k + 1])));
        assert_eq!(map.get_tile(cell(path[k + 1]).0 as u32, cell(path[k + 1]).1 as u32), Some(&Tile::Empty));
    }
}

#[test]
fn walk_around_a_wall() {
    let mut map = bordered(5, 5);
    map.set_tile(2, 1, Tile::Wall);
    map.set_tile(2, 2, Tile::Wall);
    let start = (ONE + HALF, ONE + HALF);
    let target = (3 * ONE + HALF, ONE + HALF);
    let path = navigate(&map, start, target);
    assert_eq!(path.len(), 7);
    assert!(path.iter().take(6).all(|&p| cell(p).0 != 2 || cell(p).1 == 3));
}

#[test]
fn start_on_a_cell_corner_is_left_out() {
    let map = bordered(5, 5);
    let path = navigate(&map, (ONE, ONE), (3 * ONE + HALF, ONE + HALF));
    assert_eq!(path, vec![(2 * ONE, ONE), (3 * ONE + HALF, ONE + HALF)]);
    let next_door = (2 * ONE + HALF, ONE + HALF);
    assert_eq!(navigate(&map, (ONE, ONE), next_door), vec![next_door]);
}

#[test]
fn unreachable_target_gives_only_the_target() {
    let mut map = bordered(6, 6);
    for k in 0..6 {
        map.set_tile(3, k, Tile::Wall);
    }
    let target = (4 * ONE + HALF, 2 * ONE + HALF);
    assert_eq!(navigate(&map, (ONE + HALF, ONE + HALF), target), vec![target]);
    let outside = (40 * ONE, 2 * ONE);
    assert_eq!(navigate(&map, (ONE + HALF, ONE + HALF), outside), vec![outside]);
}

#[test]
fn same_start_and_target_gives_nothing() {
    let map = bordered(5, 5);
    assert!(navigate(&map, (2 * ONE, 2 * ONE), (2 * ONE, 2 * ONE)).is_empty());
    let p = (2 * ONE + 7, 2 * ONE + 9);
    assert_eq!(navigate(&map, (2 * ONE + 1, 2 * ONE + 1), p), vec![p]);
}
