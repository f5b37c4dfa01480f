use vstd::prelude::*;

verus! {

/// The kind of one cell of the grid.
#[derive(Clone, Copy, PartialEq, Eq, Debug, Structural)]
pub enum Tile {
    Empty,
    Wall,
    Exit,
}

/// Row-major index of cell `(x, y)` in a grid `width` cells wide.
pub fn idx(x: u32, y: u32, width: u32) -> (r: usize)
    requires
        y as int * width as int + x as int <= u32::MAX,
    ensures
        r == y as int * width as int + x as int,
{
    (y * width + x) as usize
}

/// A rectangular grid of tiles, stored row by row.
pub struct GridMap {
    tiles: Vec<Tile>,
    width: u32,
    height: u32,
}

impl GridMap {
    /// The grid holds exactly `width * height` tiles, and every index fits in a `u32`.
    pub open spec fn wf(&self) -> bool {
        &&& self.cells().len() == self.spec_width() * self.spec_height()
        &&& self.spec_width() * self.spec_height() <= u32::MAX
    }

    /// The tiles, row by row.
    pub closed spec fn cells(&self) -> Seq<Tile> {
        self.tiles@
    }

    pub closed spec fn spec_width(&self) -> nat {
        self.width as nat
    }

    pub closed spec fn spec_height(&self) -> nat {
        self.height as nat
    }

    /// The tile at `(x, y)`, or `None` outside the grid.
    pub open spec fn tile_at(&self, x: int, y: int) -> Option<Tile> {
        if 0 <= x < self.spec_width() && 0 <= y < self.spec_height() {
            Some(self.cells()[y * self.spec_width() + x])
        } else {
            None
        }
    }

    /// Every cell of the outermost rows and columns is occupied.
    pub open spec fn bordered(&self) -> bool {
        &&& self.spec_width() >= 3
        &&& self.spec_height() >= 3
        &&& forall|x: int, y: int|
            0 <= x < self.spec_width() && 0 <= y < self.spec_height() && (x == 0 || y == 0 || x
                == self.spec_width() - 1 || y == self.spec_height() - 1) ==> #[trigger] self.tile_at(x, y) != Some(Tile::Empty)
    }

    /// A grid of `width * height` empty tiles.
    pub fn new(width: u32, height: u32) -> (r: GridMap)
        requires
            width as int * height as int <= u32::MAX,
        ensures
            r.wf(),
            r.spec_width() == width,
            r.spec_height() == height,
            forall|x: int, y: int| 0 <= x < width && 0 <= y < height ==> r.tile_at(x, y) == Some(Tile::Empty),
    {
        let n = (width * height) as usize;
        let mut tiles: Vec<Tile> = Vec::new();
        let mut i: usize = 0;
        while i < n
            invariant
                i <= n,
                tiles@.len() == i,
                forall|j: int| 0 <= j < i ==> tiles@[j] == Tile::Empty,
            decreases n - i,
        {
            tiles.push(Tile::Empty);
            i = i + 1;
        }
        let r = GridMap { tiles, width, height };
        assert forall|x: int, y: int| 0 <= x < width && 0 <= y < height implies r.tile_at(x, y) == Some(Tile::Empty) by {
            lemma_cell_index(x, y, width as int, height as int);
        }
        r
    }

    /// Sets every tile to `tile`.
    pub fn fill(&mut self, tile: Tile)
        requires
            old(self).wf(),
        ensures
            final(self).wf(),
            final(self).spec_width() == old(self).spec_width(),
            final(self).spec_height() == old(self).spec_height(),
            forall|x: int, y: int|
                0 <= x < final(self).spec_width() && 0 <= y < final(self).spec_height()
                    ==> #[trigger] final(self).tile_at(x, y) == Some(tile),
    {
        let n = self.tiles.len();
        let mut i: usize = 0;
        while i < n
            invariant
                n == self.tiles@.len(),
                self.width == old(self).width,
                self.height == old(self).height,
                self.wf(),
                i <= n,
                forall|j: int| 0 <= j < i ==> self.tiles@[j] == tile,
            decreases n - i,
        {
            self.tiles.set(i, tile);
            i = i + 1;
        }
        assert forall|x: int, y: int| 0 <= x < self.spec_width() && 0 <= y < self.spec_height() implies #[trigger] self.tile_at(x, y) == Some(tile) by {
            lemma_cell_index(x, y, self.width as int, self.height as int);
        }
    }

    pub fn width(&self) -> (r: u32)
        ensures
            r == self.spec_width(),
    {
        self.width
    }

    pub fn height(&self) -> (r: u32)
        ensures
            r == self.spec_height(),
    {
        self.height
    }

    /// Replaces the tile at `(x, y)`; returns `false`, changing nothing, outside the grid.
    pub fn set_tile(&mut self, x: u32, y: u32, tile: Tile) -> (r: bool)
        requires
            old(self).wf(),
        ensures
            final(self).wf(),
            r == (x < old(self).spec_width() && y < old(self).spec_height()),
            final(self).spec_width() == old(self).spec_width(),
            final(self).spec_height() == old(self).spec_height(),
            forall|i: int, j: int|
                #[trigger] final(self).tile_at(i, j) == if r && i == x && j == y {
                    Some(tile)
                } else {
                    old(self).tile_at(i, j)
                },
    {
        if x >= self.width || y >= self.height {
            return false;
        }
        proof {
            lemma_cell_index(x as int, y as int, self.width as int, self.height as int);
        }
        let i = idx(x, y, self.width);
        self.tiles.set(i, tile);
        assert forall|a: int, b: int| #[trigger] self.tile_at(a, b) == if a == x && b == y {
            Some(tile)
        } else {
            old(self).tile_at(a, b)
        } by {
            if 0 <= a < self.width && 0 <= b < self.height {
                lemma_cell_index(a, b, self.width as int, self.height as int);
                if b * self.width + a == y * self.width + x {
                    lemma_cell_index_injective(a, b, x as int, y as int, self.width as int);
                }
            }
        }
        true
    }

    /// The tile at `(x, y)`, or `None` outside the grid.
    pub fn get_tile(&self, x: u32, y: u32) -> (r: Option<&Tile>)
        requires
            self.wf(),
        ensures
            match r {
                Some(t) => self.tile_at(x as int, y as int) == Some(*t),
                None => self.tile_at(x as int, y as int).is_none(),
            },
    {
        if x >= self.width || y >= self.height {
            return None;
        }
        proof {
            lemma_cell_index(x as int, y as int, self.width as int, self.height as int);
        }
        let i = idx(x, y, self.width);
        Some(&self.tiles[i])
    }
}

/// A cell inside a `w` by `h` grid has a row-major index inside the grid.
pub proof fn lemma_cell_index(x: int, y: int, w: int, h: int)
    requires
        0 <= x < w,
        0 <= y < h,
    ensures
        0 <= y * w + x < w * h,
{
    assert(y * w + x < w * h) by (nonlinear_arith)
        requires
            0 <= x < w,
            0 <= y < h,
    ;
    assert(0 <= y * w) by (nonlinear_arith)
        requires
            0 <= x < w,
            0 <= y,
    ;
}

/// Distinct cells of a row have distinct row-major indices.
pub proof fn lemma_cell_index_injective(a: int, b: int, x: int, y: int, w: int)
    requires
        0 <= a < w,
        0 <= x < w,
        b * w + a == y * w + x,
    ensures
        a == x && b == y,
{
    assert(b == y) by (nonlinear_arith)
        requires
            0 <= a < w,
            0 <= x < w,
            b * w + a == y * w + x,
    ;
}

} // verus!
