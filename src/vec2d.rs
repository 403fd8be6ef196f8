use num_traits::ToPrimitive;
use vstd::prelude::*;

verus! {

/// Position of `(x, y)` in a row-major buffer whose rows are `width` long.
pub open spec fn linear_index(width: int, x: int, y: int) -> int {
    y * width + x
}

/// Whether `(x, y)` lies inside a `width` by `height` grid.
pub open spec fn in_bounds(width: int, height: int, x: int, y: int) -> bool {
    0 <= x < width && 0 <= y < height
}

/// The coordinates `(x, y)` of position `i` in a row-major buffer whose rows
/// are `width` long.
pub open spec fn coords_of(width: int, i: int) -> (int, int) {
    (i % width, i / width)
}

/// Every position of a `width` by `height` buffer is the linear index of
/// its coordinates, which lie inside the grid.
pub proof fn lemma_coords_of_index(width: int, height: int, i: int)
    requires
        0 <= width,
        0 <= height,
        0 <= i < width * height,
    ensures
        width > 0,
        in_bounds(width, height, coords_of(width, i).0, coords_of(width, i).1),
        linear_index(width, coords_of(width, i).0, coords_of(width, i).1) == i,
{
    assert(width > 0) by (nonlinear_arith)
        requires
            0 <= i < width * height,
            0 <= width,
    ;
    vstd::arithmetic::div_mod::lemma_fundamental_div_mod(i, width);
    vstd::arithmetic::div_mod::lemma_mod_pos_bound(i, width);
    vstd::arithmetic::div_mod::lemma_div_pos_is_pos(i, width);
    let q = i / width;
    let r = i % width;
    assert(q < height) by (nonlinear_arith)
        requires
            i == width * q + r,
            0 <= r,
            i < width * height,
            width > 0,
    ;
    assert(q * width == width * q) by (nonlinear_arith);
}

/// Every in-bounds coordinate has a linear index inside the buffer, from
/// which the coordinate is recovered.
pub proof fn lemma_index_of_coords(width: int, height: int, x: int, y: int)
    requires
        in_bounds(width, height, x, y),
    ensures
        0 <= linear_index(width, x, y) < width * height,
        coords_of(width, linear_index(width, x, y)) == (x, y),
{
    let i = linear_index(width, x, y);
    assert(0 <= i < width * height) by (nonlinear_arith)
        requires
            i == y * width + x,
            0 <= x < width,
            0 <= y < height,
    ;
    vstd::arithmetic::div_mod::lemma_fundamental_div_mod_converse(i, width, y, x);
}

/// The product of two `u32` values fits in a `u64`.
proof fn lemma_product_fits(a: u32, b: u32)
    ensures
        a as int * b as int <= u64::MAX,
{
    assert(a as int * b as int <= u32::MAX as int * u32::MAX as int) by (nonlinear_arith)
        requires
            a <= u32::MAX,
            b <= u32::MAX,
    ;
}

/// Relies on `num_traits::ToPrimitive::to_usize` for `i64`: the same number
/// when it is not negative and fits in a `usize`, and `None` otherwise.
#[verifier::external_body]
fn i64_to_usize(v: i64) -> (r: Option<usize>)
    ensures
        r == (if 0 <= v && v <= usize::MAX {
            Some(v as usize)
        } else {
            None::<usize>
        }),
{
    v.to_usize()
}

/// A fixed-size grid of values, stored as one flat buffer in row-major order.
#[derive(Debug)]
pub struct Vec2D<T> {
    pub width: u32,
    pub height: u32,
    pub data: Vec<T>,
}

impl<T> View for Vec2D<T> {
    type V = Seq<T>;

    /// The cells in row-major order.
    open spec fn view(&self) -> Seq<T> {
        self.data@
    }
}

impl<T> Vec2D<T> {
    /// The buffer holds exactly one value per coordinate.
    pub open spec fn wf(&self) -> bool {
        self@.len() == self.width as int * self.height as int
    }

    /// The value stored at `(x, y)`; meaningful for in-bounds coordinates.
    pub open spec fn at(&self, x: int, y: int) -> T {
        self@[linear_index(self.width as int, x, y)]
    }

    /// Builds a `width` by `height` grid, calling `initializer(x, y)` once
    /// for every coordinate, in row-major order.
    pub fn new<F>(width: u32, height: u32, initializer: &mut F) -> (r: Self) where
        F: FnMut(u32, u32) -> T,
        requires
            width as int * height as int <= usize::MAX,
            forall|x: u32, y: u32|
                x < width && y < height ==> call_requires(*old(initializer), (x, y)),
        ensures
            r.wf(),
            r.width == width,
            r.height == height,
            forall|x: int, y: int|
                in_bounds(width as int, height as int, x, y) ==> call_ensures(
                    *old(initializer),
                    (x as u32, y as u32),
                    #[trigger] r.at(x, y),
                ),
    {
        let capacity: usize = width as usize * height as usize;
        let mut data: Vec<T> = Vec::new();
        let mut index: usize = 0;
        while index < capacity
            invariant
                capacity == width as int * height as int,
                index <= capacity,
                data@.len() == index,
                *initializer == *old(initializer),
                forall|x: u32, y: u32|
                    x < width && y < height ==> call_requires(*old(initializer), (x, y)),
                forall|i: int|
                    0 <= i < index ==> call_ensures(
                        *old(initializer),
                        ((i % width as int) as u32, (i / width as int) as u32),
                        #[trigger] data@[i],
                    ),
            decreases capacity - index,
        {
            proof {
                lemma_coords_of_index(width as int, height as int, index as int);
            }
            let y = (index / width as usize) as u32;
            let x = (index % width as usize) as u32;
            let value = initializer(x, y);
            data.push(value);
            index = index + 1;
        }
        let r = Vec2D { width, height, data };
        assert forall|x: int, y: int| in_bounds(width as int, height as int, x, y) implies call_ensures(
            *old(initializer),
            (x as u32, y as u32),
            #[trigger] r.at(x, y),
        ) by {
            lemma_index_of_coords(width as int, height as int, x, y);
        }
        r
    }

    /// What a lookup of `(x, y)` finds: the value there when the coordinate
    /// lies inside the grid, and nothing otherwise.
    pub open spec fn lookup(&self, x: int, y: int) -> Option<&T> {
        if in_bounds(self.width as int, self.height as int, x, y) {
            Some(&self.at(x, y))
        } else {
            None
        }
    }

    /// The grid as `((x, y), value)` pairs in row-major order.
    pub open spec fn enumerated(&self) -> Seq<((u32, u32), T)> {
        Seq::new(
            self@.len(),
            |i: int|
                (
                    (
                        coords_of(self.width as int, i).0 as u32,
                        coords_of(self.width as int, i).1 as u32,
                    ),
                    self@[i],
                ),
        )
    }

    /// Takes `data` as a `width` by `height` grid in row-major order; fails
    /// when `width * height` differs from the length of `data`.
    pub fn from_vec(width: u32, height: u32, data: Vec<T>) -> (r: Result<Self, String>)
        ensures
            r is Ok <==> width as int * height as int == data@.len(),
            r matches Ok(g) ==> g.wf() && g.width == width && g.height == height && g@ == data@,
    {
        proof {
            lemma_product_fits(width, height);
        }
        if width as u64 * height as u64 == data.len() as u64 {
            Ok(Vec2D { width, height, data })
        } else {
            Err("Invalid dimensions: Width * height must equal data.len".to_string())
        }
    }

    /// Reads the same buffer as a `new_width` by `new_height` grid; fails and
    /// leaves the grid as it was when `new_width * new_height` differs from
    /// the number of cells.
    pub fn reshape(&mut self, new_width: u32, new_height: u32) -> (r: Result<(), String>)
        ensures
            r is Ok <==> new_width as int * new_height as int == old(self)@.len(),
            r is Ok ==> final(self).wf() && final(self).width == new_width && final(self).height
                == new_height && final(self)@ == old(self)@,
            r is Err ==> *final(self) == *old(self),
    {
        proof {
            lemma_product_fits(new_width, new_height);
        }
        if new_width as u64 * new_height as u64 == self.data.len() as u64 {
            self.width = new_width;
            self.height = new_height;
            Ok(())
        } else {
            Err("Invalid dimensions: Width * height must equal data.len".to_string())
        }
    }

    /// The value at `(x, y)`, or `None` when the coordinate lies outside the
    /// grid; coordinates never wrap around.
    pub fn get(&self, x: i64, y: i64) -> (r: Option<&T>)
        requires
            self.wf(),
        ensures
            r == self.lookup(x as int, y as int),
    {
        if 0 <= x && x < self.width as i64 && 0 <= y && y < self.height as i64 {
            match (i64_to_usize(x), i64_to_usize(y)) {
                (Some(column), Some(row)) => {
                    let length = self.data.len();
                    proof {
                        lemma_index_of_coords(self.width as int, self.height as int, x as int, y as int);
                        assert(row as int * self.width as int == y as int * self.width as int);
                        assert((row as int) * (self.width as int) + (column as int) < length);
                    }
                    Some(&self.data[row * self.width as usize + column])
                },
                // Not reached: both coordinates were checked to lie in `0..u32::MAX`.
                _ => None,
            }
        } else {
            None
        }
    }

    /// Walks the values in row-major order.
    pub fn iter(&self) -> (r: Iter<'_, T>)
        requires
            self.wf(),
        ensures
            r.wf(),
            r.grid() == *self,
            r.position() == 0,
    {
        Iter { grid: self, index: 0 }
    }
}

/// Enumerating a well-formed grid yields one pair per cell, each pair holds
/// the value stored at its coordinates, every in-bounds coordinate comes
/// exactly once (at its linear index), and the pairs come row by row, left
/// to right within a row.
pub proof fn lemma_enumeration_is_row_major<T>(grid: Vec2D<T>)
    requires
        grid.wf(),
    ensures
        grid.enumerated().len() == grid.width as int * grid.height as int,
        forall|i: int|
            0 <= i < grid.enumerated().len() ==> {
                let ((x, y), value) = #[trigger] grid.enumerated()[i];
                &&& in_bounds(grid.width as int, grid.height as int, x as int, y as int)
                &&& value == grid.at(x as int, y as int)
            },
        forall|x: int, y: int|
            in_bounds(grid.width as int, grid.height as int, x, y) ==> (#[trigger] grid.enumerated()[linear_index(grid.width as int, x, y)]).0 == (x as u32, y as u32),
        forall|i: int, j: int|
            0 <= i < j < grid.enumerated().len() ==> {
                let (a, b) = ((#[trigger] grid.enumerated()[i]).0, (#[trigger] grid.enumerated()[j]).0);
                a.1 < b.1 || (a.1 == b.1 && a.0 < b.0)
            },
{
    let w = grid.width as int;
    let h = grid.height as int;
    let e = grid.enumerated();
    assert forall|i: int| 0 <= i < e.len() implies {
        let ((x, y), value) = #[trigger] e[i];
        &&& in_bounds(w, h, x as int, y as int)
        &&& value == grid.at(x as int, y as int)
    } by {
        lemma_coords_of_index(w, h, i);
    }
    assert forall|x: int, y: int| in_bounds(w, h, x, y) implies (#[trigger] e[linear_index(w, x, y)]).0 == (x as u32, y as u32) by {
        lemma_index_of_coords(w, h, x, y);
    }
    assert forall|i: int, j: int| 0 <= i < j < e.len() implies {
        let (a, b) = ((#[trigger] e[i]).0, (#[trigger] e[j]).0);
        a.1 < b.1 || (a.1 == b.1 && a.0 < b.0)
    } by {
        lemma_coords_of_index(w, h, i);
        lemma_coords_of_index(w, h, j);
        let (xi, yi) = coords_of(w, i);
        let (xj, yj) = coords_of(w, j);
        if yj < yi {
            assert(yj * w + xj < yi * w + xi) by (nonlinear_arith)
                requires
                    yj < yi,
                    0 <= xi < w,
                    0 <= xj < w,
            ;
        } else if yj == yi {
            assert(xi < xj);
        }
    }
}

/// A lookup in a grid built from an initializer finds, at every in-bounds
/// coordinate, a value that the initializer returns for that coordinate, and
/// nothing at any other coordinate.
pub proof fn lemma_lookup_finds_initial_value<T, F: FnMut(u32, u32) -> T>(
    grid: Vec2D<T>,
    initializer: F,
    x: int,
    y: int,
)
    requires
        grid.wf(),
        forall|i: int, j: int|
            in_bounds(grid.width as int, grid.height as int, i, j) ==> call_ensures(
                initializer,
                (i as u32, j as u32),
                #[trigger] grid.at(i, j),
            ),
    ensures
        in_bounds(grid.width as int, grid.height as int, x, y) ==> grid.lookup(x, y) == Some(
            &grid.at(x, y),
        ) && call_ensures(initializer, (x as u32, y as u32), grid.at(x, y)),
        !in_bounds(grid.width as int, grid.height as int, x, y) ==> grid.lookup(x, y) is None,
{
}

/// Hands out the values of a grid one by one, in row-major order.
pub struct Iter<'a, T> {
    grid: &'a Vec2D<T>,
    index: usize,
}

impl<'a, T> Iter<'a, T> {
    /// The grid walked.
    pub closed spec fn grid(&self) -> Vec2D<T> {
        *self.grid
    }

    /// How many values have been handed out.
    pub closed spec fn position(&self) -> int {
        self.index as int
    }

    /// The grid is well formed and the position lies within it.
    pub open spec fn wf(&self) -> bool {
        self.grid().wf() && 0 <= self.position() <= self.grid()@.len()
    }

    /// The next value, or `None` once every value has been handed out.
    pub fn next(&mut self) -> (r: Option<&'a T>)
        requires
            old(self).wf(),
        ensures
            final(self).wf(),
            final(self).grid() == old(self).grid(),
            if old(self).position() < old(self).grid()@.len() {
                r == Some(&old(self).grid()@[old(self).position()])
                    && final(self).position() == old(self).position() + 1
            } else {
                r == None::<&T> && final(self).position() == old(self).position()
            },
    {
        if self.index < self.grid.data.len() {
            let value = &self.grid.data[self.index];
            self.index = self.index + 1;
            Some(value)
        } else {
            None
        }
    }

    /// Pairs each remaining value with its coordinates.
    pub fn enumerate(self) -> (r: Enumerator<'a, T>)
        requires
            self.wf(),
        ensures
            r.wf(),
            r.grid() == self.grid(),
            r.position() == self.position(),
    {
        Enumerator { grid: self.grid, index: self.index }
    }
}

/// Hands out the values of a grid with their coordinates, in row-major order.
pub struct Enumerator<'a, T> {
    grid: &'a Vec2D<T>,
    index: usize,
}

impl<'a, T> Enumerator<'a, T> {
    /// The grid walked.
    pub closed spec fn grid(&self) -> Vec2D<T> {
        *self.grid
    }

    /// How many pairs have been handed out.
    pub closed spec fn position(&self) -> int {
        self.index as int
    }

    /// The grid is well formed and the position lies within it.
    pub open spec fn wf(&self) -> bool {
        self.grid().wf() && 0 <= self.position() <= self.grid()@.len()
    }

    /// The next `((x, y), value)` pair, or `None` once every value has been
    /// handed out.
    pub fn next(&mut self) -> (r: Option<((u32, u32), &'a T)>)
        requires
            old(self).wf(),
        ensures
            final(self).wf(),
            final(self).grid() == old(self).grid(),
            if old(self).position() < old(self).grid()@.len() {
                r == Some(
                    (
                        old(self).grid().enumerated()[old(self).position()].0,
                        &old(self).grid().enumerated()[old(self).position()].1,
                    ),
                ) && final(self).position() == old(self).position() + 1
            } else {
                r == None::<((u32, u32), &T)> && final(self).position() == old(self).position()
            },
    {
        if self.index < self.grid.data.len() {
            proof {
                lemma_coords_of_index(
                    self.grid.width as int,
                    self.grid.height as int,
                    self.index as int,
                );
            }
            let width = self.grid.width as usize;
            let x = (self.index % width) as u32;
            let y = (self.index / width) as u32;
            let value = &self.grid.data[self.index];
            self.index = self.index + 1;
            Some(((x, y), value))
        } else {
            None
        }
    }
}

} // verus!
