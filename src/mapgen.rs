use vstd::prelude::*;
use vstd::string::StrSliceExecFns;
use crate::map::{GridMap, Tile};
use crate::shading::ONE;
use rand::rngs::StdRng;
use rand::{Rng, SeedableRng};

verus! {

/// Side of a generated map, in cells.
pub const SIZE: u32 = 128;

/// Something placed in a room.
#[derive(Clone, Copy, PartialEq, Eq, Debug, Structural)]
pub enum Entity {
    Note,
    Generator,
    Battery,
}

/// A room as drawn in text: one line per row of cells, one character per cell.
#[derive(Clone, Debug)]
pub struct Room {
    pub prefab: String,
}

/// Whether a character counts as whitespace.
pub uninterp spec fn is_space(c: char) -> bool;

/// Relies on char::is_whitespace, whose answer depends on the character alone.
#[verifier::external_body]
fn whitespace(c: char) -> (r: bool)
    ensures
        r == is_space(c),
{
    c.is_whitespace()
}

pub open spec fn is_cell(c: char) -> bool {
    !is_space(c)
}

pub open spec fn is_line_break(c: char) -> bool {
    is_space(c) && c == '\n'
}

/// The cells of a room: its characters other than whitespace, row after row.
pub open spec fn room_cells(prefab: Seq<char>) -> Seq<char> {
    prefab.filter(|c: char| is_cell(c))
}

/// The number of rows of a room: one less than its line breaks, as the text opens
/// with one.
pub open spec fn room_rows(prefab: Seq<char>) -> int {
    prefab.filter(|c: char| is_line_break(c)).len() - 1
}

/// The number of cells in a row.
pub open spec fn room_cols(prefab: Seq<char>) -> int {
    if room_rows(prefab) >= 1 {
        room_cells(prefab).len() as int / room_rows(prefab)
    } else {
        0
    }
}

/// The tile a cell character stands for: `E` an exit, `-` and the marks of the spawn
/// point and of entities empty floor, anything else wall.
pub open spec fn tile_of(c: char) -> Tile {
    if c == '-' || c == '@' || c == 'N' || c == 'G' || c == 'B' {
        Tile::Empty
    } else if c == 'E' {
        Tile::Exit
    } else {
        Tile::Wall
    }
}

pub open spec fn entity_of(c: char) -> Option<Entity> {
    if c == 'N' {
        Some(Entity::Note)
    } else if c == 'G' {
        Some(Entity::Generator)
    } else if c == 'B' {
        Some(Entity::Battery)
    } else {
        None
    }
}

/// The tile the room puts at `(x, y)` when placed with its top left cell at `(px, py)`,
/// or `None` outside the room.
pub open spec fn room_tile(prefab: Seq<char>, px: int, py: int, x: int, y: int) -> Option<Tile> {
    let cols = room_cols(prefab);
    if px <= x < px + cols && py <= y < py + room_rows(prefab) {
        Some(tile_of(room_cells(prefab)[(y - py) * cols + (x - px)]))
    } else {
        None
    }
}

/// The entities marked in the first `k` cells of a room placed at `(px, py)` that fall
/// inside a `w` by `h` map, in row order, with their cells.
pub open spec fn room_entities(
    prefab: Seq<char>,
    px: int,
    py: int,
    w: int,
    h: int,
    k: nat,
) -> Seq<(Entity, u32, u32)>
    decreases k,
{
    if k == 0 {
        Seq::empty()
    } else {
        let prev = room_entities(prefab, px, py, w, h, (k - 1) as nat);
        let i = k - 1;
        let cols = room_cols(prefab);
        let x = px + i % cols;
        let y = py + i / cols;
        match entity_of(room_cells(prefab)[i]) {
            Some(e) => if x < w && y < h {
                prev.push((e, x as u32, y as u32))
            } else {
                prev
            },
            None => prev,
        }
    }
}

/// The spawn point after the first `k` cells of a room: the centre of the last cell
/// marked `@` inside the map (16.16), else `spawn`.
pub open spec fn room_spawn(
    prefab: Seq<char>,
    px: int,
    py: int,
    w: int,
    h: int,
    k: nat,
    spawn: (i64, i64),
) -> (i64, i64)
    decreases k,
{
    if k == 0 {
        spawn
    } else {
        let prev = room_spawn(prefab, px, py, w, h, (k - 1) as nat, spawn);
        let i = k - 1;
        let cols = room_cols(prefab);
        let x = px + i % cols;
        let y = py + i / cols;
        if room_cells(prefab)[i] == '@' && x < w && y < h {
            ((x * ONE + ONE / 2) as i64, (y * ONE + ONE / 2) as i64)
        } else {
            prev
        }
    }
}

#[verifier::external_type_specification]
#[verifier::external_body]
pub struct ExStdRng(StdRng);

/// Relies on rand's SeedableRng::seed_from_u64 for StdRng: a generator seeded from `seed`.
#[verifier::external_body]
fn seeded_rng(seed: u64) -> StdRng {
    StdRng::seed_from_u64(seed)
}

/// Relies on rand's Rng::gen_range over `0..n`: a value in that range; it panics only
/// on an empty range.
#[verifier::external_body]
fn random_index(rng: &mut StdRng, n: usize) -> (r: usize)
    requires
        n > 0,
    ensures
        r < n,
{
    rng.gen_range(0..n)
}

/// A map under construction, with the spawn point (16.16) and the entities placed so far.
pub struct MapGenerator {
    pub map: GridMap,
    pub spawn_x: i64,
    pub spawn_y: i64,
    pub entities: Vec<(Entity, u32, u32)>,
}

/// The cells and line breaks of a room's text.
fn scan_room(prefab: &str) -> (r: (Vec<char>, usize))
    ensures
        r.0@ == room_cells(prefab@),
        r.1 == prefab@.filter(|c: char| is_line_break(c)).len(),
{
    let n = prefab.unicode_len();
    let mut cells: Vec<char> = Vec::new();
    let mut lines: usize = 0;
    let mut i: usize = 0;
    while i < n
        invariant
            n == prefab@.len(),
            i <= n,
            cells@ == prefab@.take(i as int).filter(|c: char| is_cell(c)),
            lines == prefab@.take(i as int).filter(|c: char| is_line_break(c)).len(),
            lines <= i,
        decreases n - i,
    {
        let c = prefab.get_char(i);
        proof {
            assert(prefab@.take(i + 1) == prefab@.take(i as int).push(c));
            prefab@.take(i as int).lemma_filter_push(c, |c: char| is_cell(c));
            prefab@.take(i as int).lemma_filter_push(c, |c: char| is_line_break(c));
        }
        if !whitespace(c) {
            cells.push(c);
        } else if c == '\n' {
            lines = lines + 1;
        }
        i = i + 1;
    }
    assert(prefab@.take(n as int) == prefab@);
    (cells, lines)
}

/// Whether a room's text marks a spawn point.
fn has_spawn(prefab: &str) -> (r: bool)
    ensures
        r == prefab@.contains('@'),
{
    let n = prefab.unicode_len();
    let mut i: usize = 0;
    while i < n
        invariant
            n == prefab@.len(),
            i <= n,
            forall|j: int| 0 <= j < i ==> prefab@[j] != '@',
        decreases n - i,
    {
        if prefab.get_char(i) == '@' {
            return true;
        }
        i = i + 1;
    }
    false
}

/// The indices of the rooms a map can start in: those that mark a spawn point.
pub fn start_rooms(rooms: &Vec<Room>) -> (r: Vec<usize>)
    ensures
        forall|k: int| 0 <= k < r@.len() ==> (#[trigger] r@[k]) < rooms@.len() && rooms@[r@[k] as int].prefab@.contains('@'),
        forall|j: int| 0 <= j < rooms@.len() && rooms@[j].prefab@.contains('@') ==> r@.contains(j as usize),
        forall|a: int, b: int| 0 <= a < b < r@.len() ==> r@[a] < r@[b],
{
    let mut r: Vec<usize> = Vec::new();
    let mut i: usize = 0;
    while i < rooms.len()
        invariant
            i <= rooms@.len(),
            forall|k: int| 0 <= k < r@.len() ==> (#[trigger] r@[k]) < i && rooms@[r@[k] as int].prefab@.contains('@'),
            forall|j: int| 0 <= j < i && rooms@[j].prefab@.contains('@') ==> r@.contains(j as usize),
            forall|a: int, b: int| 0 <= a < b < r@.len() ==> r@[a] < r@[b],
        decreases rooms@.len() - i,
    {
        let ghost old_r = r@;
        if has_spawn(rooms[i].prefab.as_str()) {
            r.push(i);
            assert(r@[r@.len() - 1] == i);
        }
        assert forall|j: int| 0 <= j < i + 1 && rooms@[j].prefab@.contains('@') implies r@.contains(j as usize) by {
            if j < i {
                let k = choose|k: int| 0 <= k < old_r.len() && old_r[k] == j as usize;
                assert(r@[k] == j as usize);
            } else {
                assert(r@[r@.len() - 1] == i);
            }
        }
        i = i + 1;
    }
    r
}

/// What a generated map holds at `(x, y)`: the start room's tile inside it, wall elsewhere.
pub open spec fn generated_tile(prefab: Seq<char>, x: int, y: int) -> Tile {
    match room_tile(prefab, (SIZE / 2) as int, (SIZE / 2) as int, x, y) {
        Some(t) => t,
        None => Tile::Wall,
    }
}

/// `g` is a fresh map made from the room whose text is `prefab`.
pub open spec fn generated_from(g: MapGenerator, prefab: Seq<char>) -> bool {
    let c = (SIZE / 2) as int;
    let k = (room_rows(prefab) * room_cols(prefab)) as nat;
    &&& g.map.wf()
    &&& g.map.spec_width() == SIZE
    &&& g.map.spec_height() == SIZE
    &&& forall|x: int, y: int| 0 <= x < SIZE && 0 <= y < SIZE ==> #[trigger] g.map.tile_at(x, y) == Some(generated_tile(prefab, x, y))
    &&& g.entities@ == room_entities(prefab, c, c, SIZE as int, SIZE as int, k)
    &&& (g.spawn_x, g.spawn_y) == room_spawn(prefab, c, c, SIZE as int, SIZE as int, k, (0i64, 0i64))
}

impl MapGenerator {
    /// A `SIZE` by `SIZE` map of walls with `room` placed at its centre.
    pub fn with_room(room: &Room) -> (g: MapGenerator)
        ensures
            generated_from(g, room.prefab@),
    {
        let mut map = GridMap::new(SIZE, SIZE);
        map.fill(Tile::Wall);
        let mut g = MapGenerator { map, spawn_x: 0, spawn_y: 0, entities: Vec::new() };
        g.place_room(room, SIZE / 2, SIZE / 2);
        assert(g.entities@ =~= room_entities(room.prefab@, (SIZE / 2) as int, (SIZE / 2) as int, SIZE as int, SIZE as int, (room_rows(room.prefab@) * room_cols(room.prefab@)) as nat));
        g
    }

    /// A map grown from a room picked at random, by a generator seeded with `seed`, among
    /// those that mark a spawn point; `None` where no room does.
    pub fn new(seed: u64, rooms: &Vec<Room>) -> (r: Option<MapGenerator>)
        ensures
            r.is_none() == !(exists|k: int| 0 <= k < rooms@.len() && #[trigger] rooms@[k].prefab@.contains('@')),
            r matches Some(g) ==> exists|k: int|
                0 <= k < rooms@.len() && #[trigger] rooms@[k].prefab@.contains('@') && generated_from(g, rooms@[k].prefab@),
    {
        let starts = start_rooms(rooms);
        if starts.len() == 0 {
            proof {
                assert forall|k: int| 0 <= k < rooms@.len() implies !#[trigger] rooms@[k].prefab@.contains('@') by {
                    if rooms@[k].prefab@.contains('@') {
                        assert(starts@.contains(k as usize));
                    }
                }
            }
            return None;
        }
        let mut rng = seeded_rng(seed);
        let pick = random_index(&mut rng, starts.len());
        let k = starts[pick];
        let g = MapGenerator::with_room(&rooms[k]);
        Some(g)
    }

    /// Places `room` with its top left cell at `(pos_x, pos_y)`: each of its cells inside
    /// the map sets the tile there, records the spawn point where it is marked `@`, and
    /// records an entity where it is marked with one. A room of less than one row places
    /// nothing.
    pub fn place_room(&mut self, room: &Room, pos_x: u32, pos_y: u32)
        requires
            old(self).map.wf(),
        ensures
            final(self).map.wf(),
            final(self).map.spec_width() == old(self).map.spec_width(),
            final(self).map.spec_height() == old(self).map.spec_height(),
            forall|x: int, y: int|
                #[trigger] final(self).map.tile_at(x, y) == match room_tile(room.prefab@, pos_x as int, pos_y as int, x, y) {
                    Some(t) => if old(self).map.tile_at(x, y).is_some() {
                        Some(t)
                    } else {
                        None
                    },
                    None => old(self).map.tile_at(x, y),
                },
            final(self).entities@ == old(self).entities@ + room_entities(
                room.prefab@,
                pos_x as int,
                pos_y as int,
                old(self).map.spec_width() as int,
                old(self).map.spec_height() as int,
                (room_rows(room.prefab@) * room_cols(room.prefab@)) as nat,
            ),
            (final(self).spawn_x, final(self).spawn_y) == room_spawn(
                room.prefab@,
                pos_x as int,
                pos_y as int,
                old(self).map.spec_width() as int,
                old(self).map.spec_height() as int,
                (room_rows(room.prefab@) * room_cols(room.prefab@)) as nat,
                (old(self).spawn_x, old(self).spawn_y),
            ),
    {
        let (cells, lines) = scan_room(room.prefab.as_str());
        let ghost prefab = room.prefab@;
        if lines < 2 {
            assert(room_rows(prefab) < 1);
            assert(room_rows(prefab) * room_cols(prefab) == 0);
            assert(self.entities@ =~= old(self).entities@ + Seq::<(Entity, u32, u32)>::empty());
            return;
        }
        let rows: usize = lines - 1;
        let cols: usize = cells.len() / rows;
        proof {
            let l = cells@.len() as int;
            vstd::arithmetic::div_mod::lemma_fundamental_div_mod(l, rows as int);
            vstd::arithmetic::div_mod::lemma_mod_bound(l, rows as int);
            assert(rows * cols <= l) by (nonlinear_arith)
                requires
                    l == rows * (l / rows as int) + l % (rows as int),
                    0 <= l % (rows as int),
                    cols == l / rows as int,
            ;
        }
        let total: usize = rows * cols;
        let w = self.map.width();
        let h = self.map.height();
        let ghost old_map = self.map;
        let mut i: usize = 0;
        while i < total
            invariant
                self.map.wf(),
                self.map.spec_width() == w,
                self.map.spec_height() == h,
                old_map == old(self).map,
                cells@ == room_cells(prefab),
                prefab == room.prefab@,
                rows == room_rows(prefab),
                cols == room_cols(prefab),
                rows >= 1,
                total == rows * cols,
                total <= cells@.len(),
                i <= total,
                forall|x: int, y: int|
                    #[trigger] self.map.tile_at(x, y) == if pos_x <= x < pos_x + cols && pos_y <= y < pos_y + rows
                        && (y - pos_y) * cols + (x - pos_x) < i && old_map.tile_at(x, y).is_some() {
                        Some(tile_of(cells@[(y - pos_y) * cols + (x - pos_x)]))
                    } else {
                        old_map.tile_at(x, y)
                    },
                self.entities@ == old(self).entities@ + room_entities(prefab, pos_x as int, pos_y as int, w as int, h as int, i as nat),
                (self.spawn_x, self.spawn_y) == room_spawn(
                    prefab,
                    pos_x as int,
                    pos_y as int,
                    w as int,
                    h as int,
                    i as nat,
                    (old(self).spawn_x, old(self).spawn_y),
                ),
            decreases total - i,
        {
            proof {
                assert(rows * cols == cols * rows) by (nonlinear_arith);
                assert(cols > 0) by (nonlinear_arith)
                    requires
                        i < rows * cols,
                        rows >= 1,
                        i >= 0,
                ;
                vstd::arithmetic::div_mod::lemma_fundamental_div_mod(i as int, cols as int);
                vstd::arithmetic::div_mod::lemma_mod_bound(i as int, cols as int);
                vstd::arithmetic::div_mod::lemma_div_pos_is_pos(i as int, cols as int);
                vstd::arithmetic::div_mod::lemma_multiply_divide_lt(i as int, cols as int, rows as int);
                assert(rows * cols == cols * rows) by (nonlinear_arith);
            }
            let cx: usize = i % cols;
            let cy: usize = i / cols;
            assert(i == cy * cols + cx) by (nonlinear_arith)
                requires
                    i == cols * cy + cx,
            ;
            let x: u128 = pos_x as u128 + cx as u128;
            let y: u128 = pos_y as u128 + cy as u128;
            let c = cells[i];
            if x < w as u128 && y < h as u128 {
                let t = if c == '-' || c == '@' || c == 'N' || c == 'G' || c == 'B' {
                    Tile::Empty
                } else if c == 'E' {
                    Tile::Exit
                } else {
                    Tile::Wall
                };
                self.map.set_tile(x as u32, y as u32, t);
                if c == '@' {
                    self.spawn_x = (x as i64) * 65536 + 32768;
                    self.spawn_y = (y as i64) * 65536 + 32768;
                } else if c == 'N' {
                    self.entities.push((Entity::Note, x as u32, y as u32));
                } else if c == 'G' {
                    self.entities.push((Entity::Generator, x as u32, y as u32));
                } else if c == 'B' {
                    self.entities.push((Entity::Battery, x as u32, y as u32));
                }
            }
            proof {
                assert forall|a: int, b: int| #[trigger] self.map.tile_at(a, b) == if pos_x <= a < pos_x + cols
                    && pos_y <= b < pos_y + rows && (b - pos_y) * cols + (a - pos_x) < i + 1
                    && old_map.tile_at(a, b).is_some() {
                    Some(tile_of(cells@[(b - pos_y) * cols + (a - pos_x)]))
                } else {
                    old_map.tile_at(a, b)
                } by {
                    if pos_x <= a < pos_x + cols && pos_y <= b < pos_y + rows {
                        let j = (b - pos_y) * cols + (a - pos_x);
                        if j == i {
                            crate::map::lemma_cell_index_injective(a - pos_x, b - pos_y, cx as int, cy as int, cols as int);
                        } else if a == x && b == y {
                            assert(j == cy * cols + cx);
                        }
                    }
                }
                assert(self.entities@ =~= old(self).entities@ + room_entities(prefab, pos_x as int, pos_y as int, w as int, h as int, (i + 1) as nat));
            }
            i = i + 1;
        }
        proof {
            assert forall|x: int, y: int| #[trigger] self.map.tile_at(x, y) == match room_tile(prefab, pos_x as int, pos_y as int, x, y) {
                Some(t) => if old(self).map.tile_at(x, y).is_some() {
                    Some(t)
                } else {
                    None
                },
                None => old(self).map.tile_at(x, y),
            } by {
                if pos_x <= x < pos_x + cols && pos_y <= y < pos_y + rows {
                    assert((y - pos_y) * cols + (x - pos_x) < rows * cols) by (nonlinear_arith)
                        requires
                            0 <= x - pos_x < cols,
                            0 <= y - pos_y < rows,
                    ;
                }
            }
        }
    }
}

} // verus!
