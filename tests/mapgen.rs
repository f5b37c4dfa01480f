use scawy::map::Tile;
use scawy::mapgen::{start_rooms, Entity, MapGenerator, Room, SIZE};
use scawy::shading::ONE;

fn room(text: &str) -> Room {
    Room { prefab: text.to_string() }
}

#[test]
fn room_is_placed_at_the_centre() {
    let g = MapGenerator::with_room(&room("\n#E#\n-@-\nNGB\n"));
    let c = SIZE / 2;
    assert_eq!(g.map.width(), SIZE);
    assert_eq!(g.map.height(), SIZE);
    assert_eq!(g.map.get_tile(c, c), Some(&Tile::Wall));
    assert_eq!(g.map.get_tile(c + 1, c), Some(&Tile::Exit));
    assert_eq!(g.map.get_tile(c, c + 1), Some(&Tile::Empty));
    assert_eq!(g.map.get_tile(c + 1, c + 1), Some(&Tile::Empty));
    assert_eq!(g.map.get_tile(c + 2, c + 2), Some(&Tile::Empty));
    assert_eq!(g.map.get_tile(c + 3, c), Some(&Tile::Wall));
    assert_eq!(g.map.get_tile(0, 0), Some(&Tile::Wall));
    let centre = ((c as i64 + 1) * ONE + ONE / 2, (c as i64 + 1) * ONE + ONE / 2);
    assert_eq!((g.spawn_x, g.spawn_y), centre);
    assert_eq!(
        g.entities,
        vec![(Entity::Note, c, c + 2), (Entity::Generator, c + 1, c + 2), (Entity::Battery, c + 2, c + 2)]
    );
}

#[test]
fn room_cells_outside_the_map_are_skipped() {
    let mut g = MapGenerator::with_room(&room("\n-\n"));
    g.place_room(&room("\n-B\n@-\n"), SIZE - 1, SIZE - 1);
    assert_eq!(g.map.get_tile(SIZE - 1, SIZE - 1), Some(&Tile::Empty));
    assert!(g.entities.is_empty());
    assert_eq!((g.spawn_x, g.spawn_y), (0, 0));
}

#[test]
fn room_without_rows_places_nothing() {
    let mut g = MapGenerator::with_room(&room("##"));
    assert_eq!(g.map.get_tile(SIZE / 2, SIZE / 2), Some(&Tile::Wall));
    g.place_room(&room("@"), 3, 3);
    assert_eq!((g.spawn_x, g.spawn_y), (0, 0));
}

#[test]
fn only_rooms_with_a_spawn_point_start_a_map() {
    let rooms = vec![room("\n###\n"), room("\n#@#\n"), room("\n-\n"), room("\n@\n")];
    assert_eq!(start_rooms(&rooms), vec![1, 3]);
    for seed in 0..8u64 {
        let g = MapGenerator::new(seed, &rooms).unwrap();
        let c = SIZE / 2;
        let spawn = (g.spawn_x, g.spawn_y);
        let one = ((c as i64 + 1) * ONE + ONE / 2, c as i64 * ONE + ONE / 2);
        let three = (c as i64 * ONE + ONE / 2, c as i64 * ONE + ONE / 2);
        assert!(spawn == one || spawn == three);
    }
    assert!(MapGenerator::new(1, &vec![room("\n###\n")]).is_none());
    assert!(MapGenerator::new(1, &vec![]).is_none());
}

#[test]
fn whitespace_inside_rows_is_not_a_cell() {
    let g = MapGenerator::with_room(&room("\n #\t-\n - E \n"));
    let c = SIZE / 2;
    assert_eq!(g.map.get_tile(c, c), Some(&Tile::Wall));
    assert_eq!(g.map.get_tile(c + 1, c), Some(&Tile::Empty));
    assert_eq!(g.map.get_tile(c, c + 1), Some(&Tile::Empty));
    assert_eq!(g.map.get_tile(c + 1, c + 1), Some(&Tile::Exit));
    assert_eq!(g.map.get_tile(c + 2, c), Some(&Tile::Wall));
}
