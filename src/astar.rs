use vstd::prelude::*;
use crate::map::{lemma_cell_index, GridMap, Tile};
use crate::shading::ONE;

verus! {

/// The cell holding a position (16.16), each coordinate rounded towards zero.
pub open spec fn cell_of(p: (i64, i64)) -> (int, int) {
    (trunc(p.0 as int), trunc(p.1 as int))
}

pub open spec fn trunc(v: int) -> int {
    if v >= 0 {
        v / (ONE as int)
    } else {
        -((-v) / (ONE as int))
    }
}

/// The position of a cell's corner (16.16).
pub open spec fn cell_pos(c: (int, int)) -> (i64, i64) {
    ((c.0 * ONE) as i64, (c.1 * ONE) as i64)
}

/// Cells that share a side.
pub open spec fn adjacent(a: (int, int), b: (int, int)) -> bool {
    (a.0 == b.0 && (a.1 - b.1 == 1 || b.1 - a.1 == 1)) || (a.1 == b.1 && (a.0 - b.0 == 1 || b.0 - a.0 == 1))
}

pub open spec fn is_floor(map: GridMap, c: (int, int)) -> bool {
    map.tile_at(c.0, c.1) == Some(Tile::Empty)
}

/// The state of a search over a `w` by `h` grid with the start at index `s`: every cell
/// reached but the start came from a neighbouring floor cell reached at a lower cost,
/// and every cell on the frontier was reached.
pub open spec fn search_ok(
    map: GridMap,
    cost: Seq<Option<u64>>,
    parent: Seq<Option<(u32, u32)>>,
    frontier: Seq<(u32, u32, i64)>,
    s: int,
    bound: int,
) -> bool {
    let w = map.spec_width() as int;
    let n = map.spec_width() * map.spec_height();
    &&& cost.len() == n
    &&& parent.len() == n
    &&& 0 <= s < n
    &&& cost[s] == Some(0u64)
    &&& parent[s].is_none()
    &&& forall|i: int| 0 <= i < n && i != s ==> (#[trigger] cost[i]).is_some() == parent[i].is_some()
    &&& forall|i: int| 0 <= i < n && (#[trigger] cost[i]).is_some() ==> cost[i].unwrap() <= bound
    &&& forall|i: int|
        0 <= i < n && (#[trigger] parent[i]).is_some() ==> {
            let p = parent[i].unwrap();
            let pi = p.1 * w + p.0;
            &&& p.0 < w
            &&& p.1 < map.spec_height()
            &&& adjacent((i % w, i / w), (p.0 as int, p.1 as int))
            &&& is_floor(map, (i % w, i / w))
            &&& cost[pi].is_some()
            &&& cost[pi].unwrap() < cost[i].unwrap()
        }
    &&& forall|k: int|
        0 <= k < frontier.len() ==> {
            let e = #[trigger] frontier[k];
            &&& e.0 < w
            &&& e.1 < map.spec_height()
            &&& cost[e.1 * w + e.0].is_some()
        }
}

/// `r` walks over the grid from the start to the target: it ends at `target`; each entry
/// before it is the corner of a cell of the grid, next to the cell of the entry that
/// follows; every entry after the first stands on floor; and the first stands in the
/// start's cell, or on floor next to it.
pub open spec fn is_walk(map: GridMap, r: Seq<(i64, i64)>, start: (i64, i64), target: (i64, i64)) -> bool {
    &&& r.len() > 0 ==> r.last() == target
    &&& forall|k: int|
        0 <= k < r.len() - 1 ==> #[trigger] r[k] == cell_pos(cell_of(r[k])) && map.tile_at(cell_of(r[k]).0, cell_of(r[k]).1).is_some()
    &&& forall|k: int| 0 <= k < r.len() - 1 ==> adjacent(cell_of(#[trigger] r[k]), cell_of(r[k + 1]))
    &&& forall|k: int| 0 < k < r.len() ==> is_floor(map, cell_of(#[trigger] r[k]))
    &&& r.len() >= 2 ==> (cell_of(r[0]) == cell_of(start) || (adjacent(cell_of(r[0]), cell_of(start)) && is_floor(
        map,
        cell_of(r[0]),
    )))
}

fn cell_coord(v: i64) -> (c: i64)
    ensures
        c == trunc(v as int),
        -0x1_0000_0000_0000 <= c <= 0x1_0000_0000_0000,
{
    let a: i128 = v as i128;
    if a >= 0 {
        (a / 65536) as i64
    } else {
        (-((-a) / 65536)) as i64
    }
}

proof fn lemma_cell_pos_round_trip(x: int, y: int)
    requires
        0 <= x <= u32::MAX,
        0 <= y <= u32::MAX,
    ensures
        cell_of(cell_pos((x, y))) == (x, y),
        cell_pos((x, y)).0 == x * ONE,
        cell_pos((x, y)).1 == y * ONE,
{
    vstd::arithmetic::div_mod::lemma_div_multiples_vanish(x, ONE as int);
    vstd::arithmetic::div_mod::lemma_div_multiples_vanish(y, ONE as int);
    assert(x * ONE == ONE * x && y * ONE == ONE * y) by (nonlinear_arith);
}

/// The index of cell `(x, y)` gives the cell back.
proof fn lemma_index_cell(x: int, y: int, w: int, h: int)
    requires
        0 <= x < w,
        0 <= y < h,
    ensures
        (y * w + x) % w == x,
        (y * w + x) / w == y,
        0 <= y * w + x < w * h,
{
    lemma_cell_index(x, y, w, h);
    vstd::arithmetic::div_mod::lemma_fundamental_div_mod_converse(y * w + x, w, y, x);
}

/// The four cells that share a side with `point`: left, right, up, down.
fn neighbor_points(point: (i64, i64)) -> (r: Vec<(i64, i64)>)
    requires
        -0x1_0000_0000_0000 <= point.0 <= 0x1_0000_0000_0000,
        -0x1_0000_0000_0000 <= point.1 <= 0x1_0000_0000_0000,
    ensures
        r@ == seq![((point.0 - 1) as i64, point.1), ((point.0 + 1) as i64, point.1), (point.0, (point.1 - 1) as i64), (point.0, (point.1 + 1) as i64)],
        forall|k: int| 0 <= k < 4 ==> adjacent(((#[trigger] r@[k]).0 as int, r@[k].1 as int), (point.0 as int, point.1 as int)),
{
    let r = vec![(point.0 - 1, point.1), (point.0 + 1, point.1), (point.0, point.1 - 1), (point.0, point.1 + 1)];
    assert(r@ =~= seq![((point.0 - 1) as i64, point.1), ((point.0 + 1) as i64, point.1), (point.0, (point.1 - 1) as i64), (point.0, (point.1 + 1) as i64)]);
    r
}

/// The distance between two cells along the axes.
fn heuristic(a: (i64, i64), b: (i64, i64)) -> (d: i64)
    requires
        -0x1_0000_0000_0000 <= a.0 <= 0x1_0000_0000_0000,
        -0x1_0000_0000_0000 <= a.1 <= 0x1_0000_0000_0000,
        -0x1_0000_0000_0000 <= b.0 <= 0x1_0000_0000_0000,
        -0x1_0000_0000_0000 <= b.1 <= 0x1_0000_0000_0000,
    ensures
        d == crate::raycast::abs(a.0 - b.0) + crate::raycast::abs(a.1 - b.1),
{
    let dx: i64 = if a.0 > b.0 {
        a.0 - b.0
    } else {
        b.0 - a.0
    };
    let dy: i64 = if a.1 > b.1 {
        a.1 - b.1
    } else {
        b.1 - a.1
    };
    dx + dy
}

/// Reaches the neighbour `(nx, ny)` of the expanded cell `(cx, cy)`, where it is floor
/// inside the grid and cheaper to reach this way than before, and puts it on the frontier.
fn relax(
    map: &GridMap,
    cost: &mut Vec<Option<u64>>,
    parent: &mut Vec<Option<(u32, u32)>>,
    frontier: &mut Vec<(u32, u32, i64)>,
    cx: u32,
    cy: u32,
    nx: i64,
    ny: i64,
    tx: i64,
    ty: i64,
    Ghost(s): Ghost<int>,
    Ghost(bound): Ghost<int>,
)
    requires
        map.wf(),
        search_ok(*map, old(cost)@, old(parent)@, old(frontier)@, s, bound),
        cx < map.spec_width(),
        cy < map.spec_height(),
        old(cost)@[cy * map.spec_width() + cx] matches Some(c) && c < bound,
        bound <= 0x10_0000_0000,
        adjacent((nx as int, ny as int), (cx as int, cy as int)),
        -0x1_0000_0000_0000 <= tx <= 0x1_0000_0000_0000,
        -0x1_0000_0000_0000 <= ty <= 0x1_0000_0000_0000,
    ensures
        search_ok(*map, final(cost)@, final(parent)@, final(frontier)@, s, bound),
        final(cost)@[cy * map.spec_width() + cx] == old(cost)@[cy * map.spec_width() + cx],
        forall|i: int|
            0 <= i < final(cost)@.len() ==> (final(cost)@[i] == old(cost)@[i] && final(parent)@[i] == old(parent)@[i]) || (
            i == ny * map.spec_width() + nx && final(cost)@[i].is_some() && final(cost)@[i].unwrap() == old(cost)@[cy
                * map.spec_width() + cx].unwrap() + 1 && (old(cost)@[i].is_some() ==> final(cost)@[i].unwrap() < old(
                cost,
            )@[i].unwrap()) && final(parent)@[i] == Some((cx, cy))),
        !(0 <= nx < map.spec_width() && 0 <= ny < map.spec_height()) ==> final(cost)@ == old(cost)@ && final(parent)@
            == old(parent)@,
        (0 <= nx < map.spec_width() && 0 <= ny < map.spec_height() && is_floor(*map, (nx as int, ny as int))
            && old(cost)@[ny * map.spec_width() + nx].is_none()) ==> final(cost)@[ny * map.spec_width() + nx] == Some(
            (old(cost)@[cy * map.spec_width() + cx].unwrap() + 1) as u64,
        ) && final(parent)@[ny * map.spec_width() + nx] == Some((cx, cy)),
{
    let w = map.width();
    let h = map.height();
    if nx < 0 || ny < 0 || nx >= w as i64 || ny >= h as i64 {
        return;
    }
    let floor = match map.get_tile(nx as u32, ny as u32) {
        Some(t) => match *t {
            Tile::Empty => true,
            _ => false,
        },
        None => false,
    };
    if !floor {
        return;
    }
    proof {
        lemma_index_cell(nx as int, ny as int, w as int, h as int);
        lemma_index_cell(cx as int, cy as int, w as int, h as int);
    }
    let ni: usize = ny as usize * w as usize + nx as usize;
    let ci: usize = cy as usize * w as usize + cx as usize;
    let gc = match cost[ci] {
        Some(c) => c,
        None => {
            return;
        },
    };
    let nc: u64 = gc + 1;
    let better = match cost[ni] {
        None => true,
        Some(c) => nc < c,
    };
    if !better {
        return;
    }
    assert(ni != ci);
    assert(ni != s);
    let prio: i64 = nc as i64 + heuristic((tx, ty), (nx, ny));
    let ghost oc = cost@;
    let ghost op = parent@;
    cost.set(ni, Some(nc));
    parent.set(ni, Some((cx, cy)));
    frontier.push((nx as u32, ny as u32, prio));
    proof {
        let wi = w as int;
        let n = (w * h) as int;
        assert forall|i: int| 0 <= i < n && (#[trigger] parent@[i]).is_some() implies {
            let p = parent@[i].unwrap();
            let pi = p.1 * wi + p.0;
            &&& p.0 < wi
            &&& p.1 < h
            &&& adjacent((i % wi, i / wi), (p.0 as int, p.1 as int))
            &&& is_floor(*map, (i % wi, i / wi))
            &&& cost@[pi].is_some()
            &&& cost@[pi].unwrap() < cost@[i].unwrap()
        } by {
            if i != ni {
                let p = op[i].unwrap();
                assert(op[i].is_some());
                lemma_index_cell(p.0 as int, p.1 as int, wi, h as int);
            }
        }
        assert forall|k: int| 0 <= k < frontier@.len() implies {
            let e = #[trigger] frontier@[k];
            &&& e.0 < wi
            &&& e.1 < h
            &&& cost@[e.1 * wi + e.0].is_some()
        } by {
            if k < frontier@.len() - 1 {
                assert(old(frontier)@[k] == frontier@[k]);
                let e = frontier@[k];
                lemma_index_cell(e.0 as int, e.1 as int, wi, h as int);
            }
        }
        assert forall|i: int| 0 <= i < n && i != s implies (#[trigger] cost@[i]).is_some() == parent@[i].is_some() by {
            if i != ni {
                assert(oc[i] == cost@[i]);
            }
        }
    }
}

/// Searches the grid for a way from `start` to `target` (16.16 positions) over floor
/// cells, moving between cells that share a side: A*, with each step costing one and the
/// distance in cells along the axes as the estimate. Gives the cell corners to pass
/// through, the start's own cell where its position is not that corner, and then
/// `target` itself; only `target` where no way was found; nothing where the two are one.
pub fn navigate(map: &GridMap, start: (i64, i64), target: (i64, i64)) -> (r: Vec<(i64, i64)>)
    requires
        map.wf(),
    ensures
        (r@.len() == 0) == (start == target),
        is_walk(*map, r@, start, target),
{
    if start.0 == target.0 && start.1 == target.1 {
        return Vec::new();
    }
    let w = map.width();
    let h = map.height();
    let sx = cell_coord(start.0);
    let sy = cell_coord(start.1);
    let tx = cell_coord(target.0);
    let ty = cell_coord(target.1);
    let mut path: Vec<(i64, i64)> = Vec::new();
    path.push(target);
    if sx < 0 || sy < 0 || sx >= w as i64 || sy >= h as i64 {
        return path;
    }
    proof {
        lemma_index_cell(sx as int, sy as int, w as int, h as int);
    }
    let n: usize = w as usize * h as usize;
    let mut cost: Vec<Option<u64>> = Vec::new();
    let mut parent: Vec<Option<(u32, u32)>> = Vec::new();
    let mut i: usize = 0;
    while i < n
        invariant
            i <= n,
            cost@.len() == i,
            parent@.len() == i,
            forall|j: int| 0 <= j < i ==> cost@[j].is_none() && parent@[j].is_none(),
        decreases n - i,
    {
        cost.push(None);
        parent.push(None);
        i = i + 1;
    }
    let si: usize = sy as usize * w as usize + sx as usize;
    cost.set(si, Some(0));
    let mut frontier: Vec<(u32, u32, i64)> = Vec::new();
    frontier.push((sx as u32, sy as u32, 0));
    let fuel: u64 = 4 * n as u64 + 1;
    let mut steps: u64 = 0;
    let ghost s = si as int;
    while frontier.len() > 0 && steps < fuel
        invariant
            map.wf(),
            map.spec_width() == w,
            map.spec_height() == h,
            n == w * h,
            n <= u32::MAX,
            fuel == 4 * n + 1,
            steps <= fuel,
            s == si,
            search_ok(*map, cost@, parent@, frontier@, s, steps as int),
            -0x1_0000_0000_0000 <= tx <= 0x1_0000_0000_0000,
            -0x1_0000_0000_0000 <= ty <= 0x1_0000_0000_0000,
        decreases fuel - steps,
    {
        steps = steps + 1;
        let mut best: usize = 0;
        let mut k: usize = 1;
        while k < frontier.len()
            invariant
                best < frontier@.len(),
                1 <= k <= frontier@.len(),
            decreases frontier@.len() - k,
        {
            if frontier[k].2 < frontier[best].2 {
                best = k;
            }
            k = k + 1;
        }
        let ghost before = frontier@;
        let (cx, cy, _) = frontier.remove(best);
        assert(before[best as int].0 == cx && before[best as int].1 == cy);
        assert forall|j: int| 0 <= j < frontier@.len() implies {
            let e = #[trigger] frontier@[j];
            &&& e.0 < w
            &&& e.1 < h
            &&& cost@[e.1 * w + e.0].is_some()
        } by {
            if j < best {
                assert(frontier@[j] == before[j]);
            } else {
                assert(frontier@[j] == before[j + 1]);
            }
        }
        if cx as i64 == tx && cy as i64 == ty {
            break;
        }
        proof {
            lemma_index_cell(cx as int, cy as int, w as int, h as int);
            assert(cost@[cy * w + cx].is_some());
            assert(cost@[cy * w + cx].unwrap() < steps);
        }
        let neighbors = neighbor_points((cx as i64, cy as i64));
        let ghost gc = cost@[cy * w + cx];
        let mut j: usize = 0;
        while j < neighbors.len()
            invariant
                map.wf(),
                map.spec_width() == w,
                map.spec_height() == h,
                neighbors@.len() == 4,
                forall|k: int| 0 <= k < 4 ==> adjacent(((#[trigger] neighbors@[k]).0 as int, neighbors@[k].1 as int), (cx as int, cy as int)),
                search_ok(*map, cost@, parent@, frontier@, s, steps as int),
                cx < w,
                cy < h,
                cost@[cy * w + cx] == gc,
                gc matches Some(c) && c < steps,
                steps <= fuel,
                fuel == 4 * n + 1,
                n <= u32::MAX,
                -0x1_0000_0000_0000 <= tx <= 0x1_0000_0000_0000,
                -0x1_0000_0000_0000 <= ty <= 0x1_0000_0000_0000,
            decreases neighbors@.len() - j,
        {
            let (nx, ny) = neighbors[j];
            relax(map, &mut cost, &mut parent, &mut frontier, cx, cy, nx, ny, tx, ty, Ghost(s), Ghost(steps as int));
            j = j + 1;
        }
    }
    // follow the cells back from the target
    if tx < 0 || ty < 0 || tx >= w as i64 || ty >= h as i64 {
        return path;
    }
    proof {
        lemma_index_cell(tx as int, ty as int, w as int, h as int);
    }
    let ti: usize = ty as usize * w as usize + tx as usize;
    let mut cur: (u32, u32) = match parent[ti] {
        Some(p) => p,
        None => {
            return path;
        },
    };
    assert(cell_of(target) == (tx as int, ty as int));
    loop
        invariant
            map.wf(),
            map.spec_width() == w,
            map.spec_height() == h,
            search_ok(*map, cost@, parent@, frontier@, s, steps as int),
            s == sy * w + sx,
            0 <= sx < w,
            0 <= sy < h,
            sx == cell_of(start).0,
            sy == cell_of(start).1,
            path@.len() >= 1,
            path@.last() == target,
            start != target,
            cur.0 < w,
            cur.1 < h,
            cost@[cur.1 * w + cur.0].is_some(),
            adjacent((cur.0 as int, cur.1 as int), cell_of(path@[0])),
            is_floor(*map, cell_of(path@[0])),
            forall|k: int|
                0 <= k < path@.len() - 1 ==> #[trigger] path@[k] == cell_pos(cell_of(path@[k])) && map.tile_at(
                    cell_of(path@[k]).0,
                    cell_of(path@[k]).1,
                ).is_some(),
            forall|k: int| 0 <= k < path@.len() - 1 ==> adjacent(cell_of(#[trigger] path@[k]), cell_of(path@[k + 1])),
            forall|k: int| 0 < k < path@.len() ==> is_floor(*map, cell_of(#[trigger] path@[k])),
        decreases cost@[cur.1 * w + cur.0].unwrap(),
    {
        proof {
            lemma_cell_pos_round_trip(cur.0 as int, cur.1 as int);
            lemma_index_cell(cur.0 as int, cur.1 as int, w as int, h as int);
        }
        let pos: (i64, i64) = (cur.0 as i64 * 65536, cur.1 as i64 * 65536);
        assert(pos == cell_pos((cur.0 as int, cur.1 as int)));
        if pos.0 == start.0 && pos.1 == start.1 {
            assert(cell_of(start) == (cur.0 as int, cur.1 as int));
            return path;
        }
        let ghost old_path = path@;
        path.insert(0, pos);
        assert(path@[0] == pos);
        assert forall|k: int| 0 < k < path@.len() implies path@[k] == old_path[k - 1] by {}
        let ci: usize = cur.1 as usize * w as usize + cur.0 as usize;
        match parent[ci] {
            Some(p) => {
                cur = p;
            },
            None => {
                assert(ci == s);
                proof {
                    crate::map::lemma_cell_index_injective(cur.0 as int, cur.1 as int, sx as int, sy as int, w as int);
                    assert(cell_of(path@[0]) == (cur.0 as int, cur.1 as int));
                    assert(cell_of(path@[0]) == cell_of(start));
                    assert forall|k: int| 0 <= k < path@.len() - 1 implies #[trigger] path@[k] == cell_pos(cell_of(path@[k]))
                        && map.tile_at(cell_of(path@[k]).0, cell_of(path@[k]).1).is_some() by {
                        if k > 0 {
                            assert(path@[k] == old_path[k - 1]);
                        }
                    }
                    assert forall|k: int| 0 <= k < path@.len() - 1 implies adjacent(cell_of(#[trigger] path@[k]), cell_of(path@[k + 1])) by {
                        if k > 0 {
                            assert(path@[k] == old_path[k - 1]);
                            assert(path@[k + 1] == old_path[k]);
                        }
                    }
                    assert forall|k: int| 0 < k < path@.len() implies is_floor(*map, cell_of(#[trigger] path@[k])) by {
                        assert(path@[k] == old_path[k - 1]);
                    }
                }
                return path;
            },
        }
    }
}

} // verus!
