use num_traits::ToPrimitive;
use rand::Rng;
use vstd::prelude::*;

use crate::vec2d::{
    coords_of, in_bounds, lemma_coords_of_index, lemma_index_of_coords, linear_index, Vec2D,
};

verus! {

/// The state of one cell.
#[derive(PartialEq, Eq, Structural, Debug, Clone, Copy)]
pub enum Cell {
    Alive(),
    Dead(),
}

/// Whether `(x, y)` holds a live cell of `grid`; a coordinate outside the
/// grid holds no cell at all.
pub open spec fn is_alive_at(grid: Vec2D<Cell>, x: int, y: int) -> bool {
    in_bounds(grid.width as int, grid.height as int, x, y) && grid.at(x, y) == Cell::Alive()
}

/// One for a live cell at `(x, y)`, zero otherwise.
pub open spec fn alive_count_at(grid: Vec2D<Cell>, x: int, y: int) -> int {
    if is_alive_at(grid, x, y) {
        1
    } else {
        0
    }
}

/// The number of live cells among the eight that surround `(x, y)`.
pub open spec fn living_neighbor_count(grid: Vec2D<Cell>, x: int, y: int) -> int {
    alive_count_at(grid, x - 1, y - 1) + alive_count_at(grid, x, y - 1) + alive_count_at(
        grid,
        x + 1,
        y - 1,
    ) + alive_count_at(grid, x - 1, y) + alive_count_at(grid, x + 1, y) + alive_count_at(
        grid,
        x - 1,
        y + 1,
    ) + alive_count_at(grid, x, y + 1) + alive_count_at(grid, x + 1, y + 1)
}

/// The rule of Life: a live cell survives with two or three live
/// neighbours, a dead cell comes alive with exactly three, and every other
/// cell is dead in the next generation.
pub open spec fn next_state(cell: Cell, neighbors: int) -> Cell {
    match cell {
        Cell::Alive() => if neighbors == 2 || neighbors == 3 {
            Cell::Alive()
        } else {
            Cell::Dead()
        },
        Cell::Dead() => if neighbors == 3 {
            Cell::Alive()
        } else {
            Cell::Dead()
        },
    }
}

/// The cells of the generation after `grid`, in row-major order: each cell
/// follows the rule from its own state and its neighbours in `grid`.
pub open spec fn next_generation(grid: Vec2D<Cell>) -> Seq<Cell> {
    Seq::new(
        grid@.len(),
        |i: int|
            next_state(
                grid@[i],
                living_neighbor_count(
                    grid,
                    coords_of(grid.width as int, i).0,
                    coords_of(grid.width as int, i).1,
                ),
            ),
    )
}

/// A live cell with no live neighbour dies: after a generation with exactly
/// one live cell, at `(x, y)`, that cell and every other cell are dead.
pub proof fn lemma_lonely_cell_dies(grid: Vec2D<Cell>, x: int, y: int)
    requires
        grid.wf(),
        in_bounds(grid.width as int, grid.height as int, x, y),
        forall|i: int, j: int|
            in_bounds(grid.width as int, grid.height as int, i, j) ==> (#[trigger] grid.at(i, j)
                == Cell::Alive() <==> i == x && j == y),
    ensures
        next_generation(grid).len() == grid@.len(),
        next_generation(grid)[linear_index(grid.width as int, x, y)] == Cell::Dead(),
        forall|k: int| 0 <= k < grid@.len() ==> #[trigger] next_generation(grid)[k] == Cell::Dead(),
{
    let w = grid.width as int;
    let h = grid.height as int;
    assert forall|k: int| 0 <= k < grid@.len() implies #[trigger] next_generation(grid)[k]
        == Cell::Dead() by {
        lemma_coords_of_index(w, h, k);
        let (i, j) = coords_of(w, k);
        assert(grid@[k] == grid.at(i, j));
        assert(living_neighbor_count(grid, i, j) <= 1);
        if i == x && j == y {
            assert(living_neighbor_count(grid, i, j) == 0);
        }
    }
    lemma_index_of_coords(w, h, x, y);
}

impl Cell {
    /// `Alive()` for `true`, `Dead()` for `false`.
    pub fn from_alive(alive: bool) -> (r: Cell)
        ensures
            r == (if alive {
                Cell::Alive()
            } else {
                Cell::Dead()
            }),
    {
        if alive {
            Cell::Alive()
        } else {
            Cell::Dead()
        }
    }
}

/// Relies on `rand::thread_rng` and `Rng::gen::<bool>`: a coin flip from the
/// thread's generator, of which nothing is known in advance.
#[verifier::external_body]
fn random_bool() -> bool {
    rand::thread_rng().gen()
}

/// Relies on `num_traits::ToPrimitive::to_i32` for `u32`: the same number
/// when it is at most `i32::MAX`, and `None` otherwise.
#[verifier::external_body]
fn u32_to_i32(v: u32) -> (r: Option<i32>)
    ensures
        r == (if v <= i32::MAX {
            Some(v as i32)
        } else {
            None::<i32>
        }),
{
    v.to_i32()
}

/// One generation of Life on a fixed-size grid.
#[derive(Debug)]
pub struct Board {
    data: Vec2D<Cell>,
}

impl View for Board {
    type V = Vec2D<Cell>;

    /// The grid of the current generation.
    closed spec fn view(&self) -> Vec2D<Cell> {
        self.data
    }
}

impl Board {
    pub open spec fn wf(&self) -> bool {
        self@.wf()
    }

    /// A `width` by `height` board whose cells are each alive or dead by a
    /// coin flip.
    pub fn new_random(width: u32, height: u32) -> (r: Self)
        requires
            width as int * height as int <= usize::MAX,
        ensures
            r.wf(),
            r@.width == width,
            r@.height == height,
    {
        Board::new(width, height, &mut |_x: u32, _y: u32| Cell::from_alive(random_bool()))
    }

    /// A `width` by `height` board whose cell at `(x, y)` is
    /// `initializer(x, y)`, called once per cell in row-major order.
    pub fn new<F>(width: u32, height: u32, initializer: &mut F) -> (r: Self) where
        F: FnMut(u32, u32) -> Cell,
        requires
            width as int * height as int <= usize::MAX,
            forall|x: u32, y: u32|
                x < width && y < height ==> call_requires(*old(initializer), (x, y)),
        ensures
            r.wf(),
            r@.width == width,
            r@.height == height,
            forall|x: int, y: int|
                in_bounds(width as int, height as int, x, y) ==> call_ensures(
                    *old(initializer),
                    (x as u32, y as u32),
                    #[trigger] r@.at(x, y),
                ),
    {
        Board { data: Vec2D::new(width, height, initializer) }
    }

    /// The grid of the current generation, for reading.
    pub fn grid(&self) -> (r: &Vec2D<Cell>)
        ensures
            *r == self@,
    {
        &self.data
    }

    /// Replaces the board by the next generation, computed from the current
    /// one alone.
    pub fn advance(&mut self)
        requires
            old(self).wf(),
        ensures
            final(self).wf(),
            final(self)@.width == old(self)@.width,
            final(self)@.height == old(self)@.height,
            final(self)@@ == next_generation(old(self)@),
    {
        let width = self.data.width;
        let height = self.data.height;
        let mut next: Vec<Cell> = Vec::new();
        let mut cells = self.data.iter().enumerate();
        loop
            invariant
                cells.position() == next@.len(),
                self.wf(),
                width == self@.width,
                height == self@.height,
                cells.wf(),
                cells.grid() == self@,
                forall|i: int|
                    0 <= i < next@.len() ==> #[trigger] next@[i] == next_generation(self@)[i],
            ensures
                next@.len() == self@@.len(),
            decreases self@@.len() - cells.position(),
        {
            match cells.next() {
                Some(((x, y), cell)) => {
                    proof {
                        lemma_coords_of_index(width as int, height as int, next@.len() as int);
                    }
                    let state = self.advance_cell(x, y, cell);
                    next.push(state);
                },
                None => {
                    break ;
                },
            }
        }
        assert(next@ =~= next_generation(self@));
        match Vec2D::from_vec(width, height, next) {
            Ok(grid) => {
                self.data = grid;
            },
            // Not reached: `next` holds one cell per coordinate.
            Err(_) => {},
        }
    }

    /// The state of the cell at `(x, y)`, now `cell`, in the next generation.
    pub fn advance_cell(&self, x: u32, y: u32, cell: &Cell) -> (r: Cell)
        requires
            self.wf(),
        ensures
            r == next_state(*cell, living_neighbor_count(self@, x as int, y as int)),
    {
        let n = self.living_neighbors(x, y);
        match cell {
            Cell::Alive() => if n == 2 || n == 3 {
                Cell::Alive()
            } else {
                Cell::Dead()
            },
            Cell::Dead() => if n == 3 {
                Cell::Alive()
            } else {
                Cell::Dead()
            },
        }
    }

    /// One for a live cell at `(x, y)`, zero for a dead cell or none.
    fn alive_count(&self, x: i64, y: i64) -> (r: u32)
        requires
            self.wf(),
        ensures
            r == alive_count_at(self@, x as int, y as int),
    {
        match self.data.get(x, y) {
            Some(cell) => if *cell == Cell::Alive() {
                1
            } else {
                0
            },
            None => 0,
        }
    }

    /// The number of live cells among the eight that surround `(x, y)`;
    /// those outside the board are not counted.
    pub fn living_neighbors(&self, x: u32, y: u32) -> (r: u32)
        requires
            self.wf(),
        ensures
            r == living_neighbor_count(self@, x as int, y as int),
    {
        let x: i64 = x as i64;
        let y: i64 = y as i64;
        self.alive_count(x - 1, y - 1) + self.alive_count(x, y - 1) + self.alive_count(x + 1, y - 1)
            + self.alive_count(x - 1, y) + self.alive_count(x + 1, y) + self.alive_count(x - 1, y + 1)
            + self.alive_count(x, y + 1) + self.alive_count(x + 1, y + 1)
    }

    /// Where each cell is drawn when cells are `cell_width` by `cell_height`
    /// pixels: the top-left pixel `(x * cell_width, y * cell_height)` of the
    /// cell at `(x, y)`, with its state, in row-major order.
    pub fn tiles(&self, cell_width: u32, cell_height: u32) -> (r: Vec<((i32, i32), Cell)>)
        requires
            self.wf(),
            (self@.width as int - 1) * cell_width as int <= i32::MAX,
            (self@.height as int - 1) * cell_height as int <= i32::MAX,
        ensures
            r@.len() == self@@.len(),
            forall|i: int|
                0 <= i < r@.len() ==> #[trigger] r@[i] == (
                    (
                        (self@.enumerated()[i].0.0 * cell_width) as i32,
                        (self@.enumerated()[i].0.1 * cell_height) as i32,
                    ),
                    self@@[i],
                ),
    {
        let mut tiles: Vec<((i32, i32), Cell)> = Vec::new();
        let mut cells = self.data.iter().enumerate();
        loop
            invariant
                self.wf(),
                (self@.width as int - 1) * cell_width as int <= i32::MAX,
                (self@.height as int - 1) * cell_height as int <= i32::MAX,
                cells.wf(),
                cells.grid() == self@,
                cells.position() == tiles@.len(),
                forall|i: int|
                    0 <= i < tiles@.len() ==> #[trigger] tiles@[i] == (
                        (
                            (self@.enumerated()[i].0.0 * cell_width) as i32,
                            (self@.enumerated()[i].0.1 * cell_height) as i32,
                        ),
                        self@@[i],
                    ),
            ensures
                tiles@.len() == self@@.len(),
            decreases self@@.len() - cells.position(),
        {
            match cells.next() {
                Some(((x, y), cell)) => {
                    proof {
                        lemma_coords_of_index(
                            self@.width as int,
                            self@.height as int,
                            tiles@.len() as int,
                        );
                        lemma_scaled_fits(x, self@.width, cell_width);
                        lemma_scaled_fits(y, self@.height, cell_height);
                    }
                    match (u32_to_i32(x * cell_width), u32_to_i32(y * cell_height)) {
                        (Some(left), Some(top)) => {
                            tiles.push(((left, top), *cell));
                        },
                        // Not reached: both products were shown to fit in an `i32`.
                        _ => {},
                    }
                },
                None => {
                    break ;
                },
            }
        }
        tiles
    }
}

/// A coordinate below `limit`, scaled by `scale`, stays within `i32` when
/// the last coordinate does.
proof fn lemma_scaled_fits(v: u32, limit: u32, scale: u32)
    requires
        v < limit,
        (limit as int - 1) * scale as int <= i32::MAX,
    ensures
        v as int * scale as int <= i32::MAX,
{
    assert(v as int * scale as int <= (limit as int - 1) * scale as int) by (nonlinear_arith)
        requires
            v < limit,
            scale >= 0,
    ;
}

} // verus!
