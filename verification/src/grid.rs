//! A toroidal Game of Life grid with bit-packed cell storage.
//!
//! Cells are stored one bit each inside byte-granular storage, eight cells
//! per byte, in row-major order (`index = x + y * width`). Coordinates wrap
//! around both axes, so the grid behaves as a torus: column `-1` is column
//! `width - 1`, row `height` is row `0`.

use vstd::prelude::*;
use vstd::arithmetic::div_mod::{
    lemma_fundamental_div_mod_converse, lemma_mod_bound, lemma_mod_multiples_vanish,
    lemma_multiply_divide_lt, lemma_small_mod,
};
use vstd::pervasive::VecAdditionalExecFns;
use rand::Rng;
use crate::cell::Cell;

verus! {

/// The widest grid side the engine accepts. Torus addressing adds one grid
/// period to a coordinate before reducing it, so twice a side length must
/// stay representable in an `i32`.
pub const MAX_GRID_SIDE: u32 = 0x3fff_ffff;

/// The most cells a grid may hold: every linear cell index must fit in an
/// `i32` during addressing.
pub const MAX_GRID_CELLS: u32 = 0x7fff_ffff;

/// Whether bit `k` of byte `b` is set.
pub open spec fn byte_bit(b: u8, k: u8) -> bool
    recommends
        k < 8,
{
    (b >> k) & 1 == 1
}

/// Bit `i` of a byte-packed bit array: bit `i % 8` of byte `i / 8`.
pub open spec fn packed_bit(bytes: Seq<u8>, i: int) -> bool
    recommends
        0 <= i,
        i / 8 < bytes.len(),
{
    byte_bit(bytes[i / 8], (i % 8) as u8)
}

/// The classic Game of Life transition for one cell: a live cell survives
/// with two or three live neighbours, a dead cell is born with exactly
/// three, and every other cell is dead in the next generation.
pub open spec fn life_rule(alive: bool, live_neighbours: int) -> bool {
    if alive {
        2 <= live_neighbours <= 3
    } else {
        live_neighbours == 3
    }
}

/// The mathematical model of a [`Grid`]: its dimensions and the boolean
/// state of every cell, in row-major order.
#[verifier::ext_equal]
pub struct GridView {
    pub width: int,
    pub height: int,
    pub cells: Seq<bool>,
}

impl GridView {
    /// A model is valid when both sides are positive and there is exactly
    /// one cell per lattice point.
    pub open spec fn valid(self) -> bool {
        &&& 0 < self.width
        &&& 0 < self.height
        &&& self.cells.len() == self.width * self.height
    }

    /// The linear index that torus coordinates `(x, y)` address: both
    /// coordinates are reduced onto the grid before the row-major index is
    /// formed, so any integers address some cell.
    pub open spec fn index_of(self, x: int, y: int) -> int {
        (x % self.width) + (y % self.height) * self.width
    }

    /// The state of the cell that torus coordinates `(x, y)` address.
    pub open spec fn cell_at(self, x: int, y: int) -> bool {
        self.cells[self.index_of(x, y)]
    }

    /// 1 when the cell at `(x, y)` is alive, else 0.
    pub open spec fn cell_weight(self, x: int, y: int) -> int {
        if self.cell_at(x, y) {
            1
        } else {
            0
        }
    }

    /// How many of the eight Moore neighbours of `(x, y)` are alive,
    /// counted with wraparound across the torus boundary.
    pub open spec fn live_neighbours(self, x: int, y: int) -> int {
        self.cell_weight(x - 1, y - 1) + self.cell_weight(x, y - 1) + self.cell_weight(
            x + 1,
            y - 1,
        ) + self.cell_weight(x - 1, y) + self.cell_weight(x + 1, y) + self.cell_weight(
            x - 1,
            y + 1,
        ) + self.cell_weight(x, y + 1) + self.cell_weight(x + 1, y + 1)
    }

    /// The grid after one generation: every cell is decided by
    /// [`life_rule`] from this (pre-step) state alone.
    pub open spec fn next(self) -> GridView {
        GridView {
            width: self.width,
            height: self.height,
            cells: Seq::new(
                self.cells.len(),
                |i: int| life_rule(self.cells[i], self.live_neighbours(i % self.width, i / self.width)),
            ),
        }
    }

    /// The grid after `n` generations.
    pub open spec fn next_n(self, n: nat) -> GridView
        decreases n,
    {
        if n == 0 {
            self
        } else {
            self.next_n((n - 1) as nat).next()
        }
    }
}

/// A toroidal lattice of binary cells, one bit of storage per cell.
pub struct Grid {
    width: u32,
    height: u32,
    cells: Vec<u8>,
}

impl View for Grid {
    type V = GridView;

    closed spec fn view(&self) -> GridView {
        GridView {
            width: self.width as int,
            height: self.height as int,
            cells: Seq::new(
                (self.width * self.height) as nat,
                |i: int| packed_bit(self.cells@, i),
            ),
        }
    }
}

impl Grid {
    /// The internal well-formedness of a grid: positive sides small enough
    /// for `i32` addressing, and byte storage of exactly the size the cell
    /// count needs.
    pub closed spec fn inv(self) -> bool {
        &&& 0 < self.width
        &&& 0 < self.height
        &&& self.width <= MAX_GRID_SIDE
        &&& self.height <= MAX_GRID_SIDE
        &&& self.width * self.height <= MAX_GRID_CELLS
        &&& self.cells@.len() == (self.width * self.height + 7) / 8
    }

    /// A well-formed grid always presents a valid model.
    pub proof fn lemma_inv_valid(self)
        requires
            self.inv(),
        ensures
            self@.valid(),
            self@.width <= MAX_GRID_SIDE,
            self@.height <= MAX_GRID_SIDE,
            self@.width * self@.height <= MAX_GRID_CELLS,
    {
    }
}

impl Grid {
    /// Creates a new grid whose cells are independently and uniformly
    /// random: each is either `Cell::Dead` or `Cell::Alive`. Nothing is
    /// promised of the pattern drawn.
    pub fn new(width: u32, height: u32) -> (g: Grid)
        requires
            0 < width,
            0 < height,
            width <= MAX_GRID_SIDE,
            height <= MAX_GRID_SIDE,
            width * height <= MAX_GRID_CELLS,
        ensures
            g.inv(),
            g@.valid(),
            g@.width == width,
            g@.height == height,
    {
        let n: usize = ((width as usize) * (height as usize) + 7) / 8;
        let mut cells: Vec<u8> = Vec::with_capacity(n);
        let mut i: usize = 0;
        while i < n
            invariant
                i <= n,
                cells@.len() == i,
            decreases n - i,
        {
            cells.push(random_byte());
            i += 1;
        }
        let g = Grid { width, height, cells };
        proof {
            g.lemma_inv_valid();
        }
        g
    }

    /// Creates a new grid with every cell `Cell::Dead`.
    pub fn new_dead(width: u32, height: u32) -> (g: Grid)
        requires
            0 < width,
            0 < height,
            width <= MAX_GRID_SIDE,
            height <= MAX_GRID_SIDE,
            width * height <= MAX_GRID_CELLS,
        ensures
            g.inv(),
            g@.valid(),
            g@.width == width,
            g@.height == height,
            forall|i: int| 0 <= i < g@.cells.len() ==> !g@.cells[i],
    {
        let n: usize = ((width as usize) * (height as usize) + 7) / 8;
        let mut cells: Vec<u8> = Vec::with_capacity(n);
        let mut i: usize = 0;
        while i < n
            invariant
                i <= n,
                cells@.len() == i,
                forall|j: int| 0 <= j < i ==> cells@[j] == 0u8,
            decreases n - i,
        {
            cells.push(0u8);
            i += 1;
        }
        let g = Grid { width, height, cells };
        proof {
            g.lemma_inv_valid();
            assert forall|i: int| 0 <= i < g@.cells.len() implies !g@.cells[i] by {
                lemma_mod_bound(i, 8);
                assert(0 <= i / 8 < cells@.len()) by {
                    vstd::arithmetic::div_mod::lemma_fundamental_div_mod(i, 8);
                };
                let k = (i % 8) as u8;
                assert(!byte_bit(0u8, k)) by (bit_vector);
            }
        }
        g
    }

    /// Establishes that the linear index addressed by `(x, y)` is a valid
    /// position in the cell sequence, and lies under the byte storage.
    proof fn lemma_index_in_range(self, x: int, y: int)
        requires
            self.inv(),
        ensures
            0 <= self@.index_of(x, y) < self@.width * self@.height,
    {
        let w = self@.width;
        let h = self@.height;
        lemma_mod_bound(x, w);
        lemma_mod_bound(y, h);
        assert((x % w) + (y % h) * w < w * h) by (nonlinear_arith)
            requires
                x % w <= w - 1,
                y % h <= h - 1,
                0 < w,
                0 < h,
        ;
        assert(0 <= (y % h) * w) by (nonlinear_arith)
            requires
                0 <= y % h,
                0 < w,
        ;
    }

    /// Reads the cell addressed by torus coordinates `(x, y)`. The origin
    /// `(0, 0)` is at the top left with `x` increasing to the right and `y`
    /// increasing down; coordinates wrap around the sides. One grid period
    /// is added to each coordinate before reduction, which cancels one
    /// period of negativity, so a coordinate must not sit more than one
    /// period below zero.
    pub fn get_cell(&self, x: i32, y: i32) -> (c: Cell)
        requires
            self.inv(),
            -self@.width <= x as int,
            x + self@.width <= i32::MAX,
            -self@.height <= y as int,
            y + self@.height <= i32::MAX,
        ensures
            c.is_alive() == self@.cell_at(x as int, y as int),
    {
        let w = self.width as i32;
        let h = self.height as i32;
        let x2 = x + w;  // gets rid of negative x values
        let y2 = y + h;  // gets rid of negative y values
        proof {
            lemma_mod_multiples_vanish(1, x as int, w as int);
            lemma_mod_multiples_vanish(1, y as int, h as int);
            lemma_mod_bound(x2 as int, w as int);
            lemma_mod_bound(y2 as int, h as int);
            self.lemma_index_in_range(x as int, y as int);
        }
        let idx = ((x2 % w) + (y2 % h) * w) as usize;
        proof {
            assert(idx / 8 < self.cells@.len()) by {
                vstd::arithmetic::div_mod::lemma_fundamental_div_mod(idx as int, 8);
                vstd::arithmetic::div_mod::lemma_fundamental_div_mod(
                    self.width * self.height + 7,
                    8,
                );
            };
        }
        if get_bit(&self.cells, idx) {
            Cell::Alive
        } else {
            Cell::Dead
        }
    }

    /// Writes `cell` into the cell addressed by torus coordinates
    /// `(x, y)`, with the same wraparound addressing as [`Grid::get_cell`].
    /// Exactly one cell changes: every other cell of the grid reads back
    /// as it did before.
    pub fn set_cell(&mut self, x: i32, y: i32, cell: Cell)
        requires
            old(self).inv(),
            -old(self)@.width <= x as int,
            x + old(self)@.width <= i32::MAX,
            -old(self)@.height <= y as int,
            y + old(self)@.height <= i32::MAX,
        ensures
            final(self).inv(),
            final(self)@.width == old(self)@.width,
            final(self)@.height == old(self)@.height,
            final(self)@.cells == old(self)@.cells.update(
                old(self)@.index_of(x as int, y as int),
                cell.is_alive(),
            ),
    {
        let w = self.width as i32;
        let h = self.height as i32;
        let x2 = x + w;  // gets rid of negative x values
        let y2 = y + h;  // gets rid of negative y values
        proof {
            lemma_mod_multiples_vanish(1, x as int, w as int);
            lemma_mod_multiples_vanish(1, y as int, h as int);
            lemma_mod_bound(x2 as int, w as int);
            lemma_mod_bound(y2 as int, h as int);
            self.lemma_index_in_range(x as int, y as int);
        }
        let idx = ((x2 % w) + (y2 % h) * w) as usize;
        proof {
            assert(idx / 8 < self.cells@.len() && self.cells@.len() * 8 >= self.width
                * self.height) by {
                vstd::arithmetic::div_mod::lemma_fundamental_div_mod(idx as int, 8);
                vstd::arithmetic::div_mod::lemma_fundamental_div_mod(
                    self.width * self.height + 7,
                    8,
                );
            };
        }
        let v = u8::from(cell);
        set_bit(&mut self.cells, idx, v);
        proof {
            assert(self@.cells =~= old(self)@.cells.update(
                old(self)@.index_of(x as int, y as int),
                cell.is_alive(),
            ));
        }
    }

    /// The number of living neighbours around the in-bounds cell `(x, y)`:
    /// the eight surrounding cells of its Moore neighbourhood, read with
    /// wraparound, so edge and corner cells see their neighbours across the
    /// torus boundary.
    pub fn num_live_neighbours(&self, x: u32, y: u32) -> (n: u32)
        requires
            self.inv(),
            x < self@.width,
            y < self@.height,
        ensures
            n == self@.live_neighbours(x as int, y as int),
            n <= 8,
    {
        let xi = x as i32;
        let yi = y as i32;
        let mut count: u32 = 0;
        count += u8::from(self.get_cell(xi - 1, yi - 1)) as u32;
        count += u8::from(self.get_cell(xi, yi - 1)) as u32;
        count += u8::from(self.get_cell(xi + 1, yi - 1)) as u32;
        count += u8::from(self.get_cell(xi - 1, yi)) as u32;
        count += u8::from(self.get_cell(xi + 1, yi)) as u32;
        count += u8::from(self.get_cell(xi - 1, yi + 1)) as u32;
        count += u8::from(self.get_cell(xi, yi + 1)) as u32;
        count += u8::from(self.get_cell(xi + 1, yi + 1)) as u32;
        count
    }

    /// Steps through one iteration of Conway's Game of Life: every cell is
    /// decided by [`life_rule`] against the pre-step state, the decisions
    /// are collected in a working buffer, and the buffer replaces the
    /// grid's storage only once every cell is decided, so no cell ever
    /// observes a partially updated generation.
    pub fn step(&mut self)
        requires
            old(self).inv(),
        ensures
            final(self).inv(),
            final(self)@ == old(self)@.next(),
    {
        let w = self.width;
        let h = self.height;
        let ghost wi = w as int;
        let ghost target = old(self)@.next().cells;
        let mut new_cells = self.cells.clone();
        proof {
            assert(new_cells@ =~= self.cells@);
        }
        let mut x: u32 = 0;
        while x < w
            invariant
                *self == *old(self),
                self.inv(),
                w == self.width,
                h == self.height,
                wi == w as int,
                target == old(self)@.next().cells,
                x <= w,
                new_cells@.len() == self.cells@.len(),
                forall|j: int|
                    0 <= j < wi * h ==> packed_bit(new_cells@, j) == (if j % wi < x {
                        target[j]
                    } else {
                        old(self)@.cells[j]
                    }),
            decreases w - x,
        {
            let mut y: u32 = 0;
            while y < h
                invariant
                    *self == *old(self),
                    self.inv(),
                    w == self.width,
                    h == self.height,
                    wi == w as int,
                    target == old(self)@.next().cells,
                    x < w,
                    y <= h,
                    new_cells@.len() == self.cells@.len(),
                    forall|j: int|
                        0 <= j < wi * h ==> packed_bit(new_cells@, j) == (if j % wi < x || (j % wi
                            == x && j / wi < y) {
                            target[j]
                        } else {
                            old(self)@.cells[j]
                        }),
                decreases h - y,
            {
                let curr = self.get_cell(x as i32, y as i32);
                let n = self.num_live_neighbours(x, y);
                let new_cell = match curr {
                    Cell::Alive => if n < 2 {
                        // underpopulation
                        Cell::Dead
                    } else if n <= 3 {
                        // survival
                        Cell::Alive
                    } else {
                        // overpopulation
                        Cell::Dead
                    },
                    Cell::Dead => if n == 3 {
                        // birth
                        Cell::Alive
                    } else {
                        // default behaviour is to remain in the state you were in
                        Cell::Dead
                    },
                };
                proof {
                    lemma_small_mod(x as nat, w as nat);
                    lemma_small_mod(y as nat, h as nat);
                    self.lemma_index_in_range(x as int, y as int);
                }
                let idx = ((x % w) + (y % h) * w) as usize;
                proof {
                    assert(idx / 8 < new_cells@.len() && new_cells@.len() * 8 >= wi * h) by {
                        vstd::arithmetic::div_mod::lemma_fundamental_div_mod(idx as int, 8);
                        vstd::arithmetic::div_mod::lemma_fundamental_div_mod(wi * h + 7, 8);
                    };
                    lemma_fundamental_div_mod_converse(idx as int, wi, y as int, x as int);
                    assert(target[idx as int] == new_cell.is_alive());
                }
                set_bit(&mut new_cells, idx, u8::from(new_cell));
                proof {
                    assert forall|j: int|
                        0 <= j < wi * h implies packed_bit(new_cells@, j) == (if j % wi < x || (j
                        % wi == x && j / wi < y + 1) {
                        target[j]
                    } else {
                        old(self)@.cells[j]
                    }) by {
                        if j != idx as int && j % wi == x && j / wi == y {
                            vstd::arithmetic::div_mod::lemma_fundamental_div_mod(j, wi);
                            assert(j == wi * (y as int) + x);
                            assert(idx as int == x + (y as int) * wi);
                            assert(wi * (y as int) == (y as int) * wi) by (nonlinear_arith);
                            assert(false);
                        }
                    }
                }
                y += 1;
            }
            proof {
                assert forall|j: int|
                    0 <= j < wi * h implies packed_bit(new_cells@, j) == (if j % wi < x + 1 {
                    target[j]
                } else {
                    old(self)@.cells[j]
                }) by {
                    lemma_mod_bound(j, wi);
                    if j % wi == x as int {
                        lemma_multiply_divide_lt(j, wi, h as int);
                    }
                }
            }
            x += 1;
        }
        proof {
            assert forall|j: int| 0 <= j < wi * h implies packed_bit(new_cells@, j)
                == target[j] by {
                lemma_mod_bound(j, wi);
            }
        }
        // the working buffer atomically replaces the grid's stored state
        self.cells = new_cells;
        proof {
            assert(self@.cells =~= old(self)@.next().cells);
            assert(self@ =~= old(self)@.next());
        }
    }

    /// The fixed number of columns of the grid.
    pub fn width(&self) -> (w: u32)
        ensures
            w == self@.width,
    {
        self.width
    }

    /// The fixed number of rows of the grid.
    pub fn height(&self) -> (h: u32)
        ensures
            h == self@.height,
    {
        self.height
    }
}

/// Periodicity: the torus has no edges, so reading a cell at coordinates
/// shifted by any whole multiples of the grid's width and height observes
/// the very same cell.
pub proof fn lemma_periodicity(v: GridView, x: int, y: int, k: int, m: int)
    requires
        v.valid(),
    ensures
        v.cell_at(x + k * v.width, y + m * v.height) == v.cell_at(x, y),
{
    lemma_mod_multiples_vanish(k, x, v.width);
    lemma_mod_multiples_vanish(m, y, v.height);
    assert(x + k * v.width == v.width * k + x) by (nonlinear_arith);
    assert(y + m * v.height == v.height * m + y) by (nonlinear_arith);
}

/// After one generation, the state of any in-bounds cell is exactly what
/// [`life_rule`] decides from that cell's pre-step state and pre-step live
/// neighbour count.
pub proof fn lemma_step_rule(v: GridView, x: int, y: int)
    requires
        v.valid(),
        0 <= x < v.width,
        0 <= y < v.height,
    ensures
        v.next().cell_at(x, y) == life_rule(v.cell_at(x, y), v.live_neighbours(x, y)),
{
    let i = x + y * v.width;
    lemma_small_mod(x as nat, v.width as nat);
    lemma_small_mod(y as nat, v.height as nat);
    assert(0 <= x + y * v.width < v.width * v.height) by (nonlinear_arith)
        requires
            0 <= x < v.width,
            0 <= y < v.height,
    ;
    lemma_fundamental_div_mod_converse(i, v.width, y, x);
}

/// Birth: a dead cell with exactly three live neighbours is alive after
/// one generation.
pub proof fn lemma_birth(v: GridView, x: int, y: int)
    requires
        v.valid(),
        0 <= x < v.width,
        0 <= y < v.height,
        !v.cell_at(x, y),
        v.live_neighbours(x, y) == 3,
    ensures
        v.next().cell_at(x, y),
{
    lemma_step_rule(v, x, y);
}

/// Death by isolation: a live cell with no live neighbours is dead after
/// one generation.
pub proof fn lemma_death(v: GridView, x: int, y: int)
    requires
        v.valid(),
        0 <= x < v.width,
        0 <= y < v.height,
        v.cell_at(x, y),
        v.live_neighbours(x, y) == 0,
    ensures
        !v.next().cell_at(x, y),
{
    lemma_step_rule(v, x, y);
}

/// Determinism: two grids with identical dimensions and identical initial
/// bit patterns are in identical states after any number of generations.
pub proof fn lemma_determinism(a: GridView, b: GridView, n: nat)
    requires
        a == b,
    ensures
        a.next_n(n) == b.next_n(n),
{
}

/// Relies on `rand::thread_rng` and `rand::Rng::gen`: draws one byte whose
/// bits are uniformly random. Nothing can be promised of the value drawn.
#[verifier::external_body]
fn random_byte() -> u8 {
    rand::thread_rng().gen()
}

/// Reads bit `i` of a byte-packed bit array.
fn get_bit(bytes: &Vec<u8>, i: usize) -> (b: bool)
    requires
        i / 8 < bytes@.len(),
    ensures
        b == packed_bit(bytes@, i as int),
{
    let byte = bytes[i / 8];
    let k = i % 8;
    let bit = (byte & (1u8 << k)) >> k;
    proof {
        assert((byte & (1u8 << k)) >> k == (if (byte >> (k as u8)) & 1 == 1 {
            1u8
        } else {
            0u8
        })) by (bit_vector)
            requires
                k < 8,
        ;
        assert(k as u8 == i as int % 8);
    }
    bit == 1
}

/// Writes `v` (0 or 1) into bit `i` of a byte-packed bit array, leaving
/// every other bit as it was.
fn set_bit(bytes: &mut Vec<u8>, i: usize, v: u8)
    requires
        i / 8 < old(bytes)@.len(),
        v <= 1,
    ensures
        final(bytes)@.len() == old(bytes)@.len(),
        forall|j: int|
            0 <= j < old(bytes)@.len() * 8 ==> packed_bit(final(bytes)@, j) == (if j == i {
                v == 1
            } else {
                packed_bit(old(bytes)@, j)
            }),
{
    let k = i % 8;
    let byte = bytes[i / 8];
    let updated = (byte & !(1u8 << k)) | (v << k);
    bytes.set(i / 8, updated);
    proof {
        assert forall|j: int| 0 <= j < old(bytes)@.len() * 8 implies packed_bit(bytes@, j) == (
        if j == i {
            v == 1
        } else {
            packed_bit(old(bytes)@, j)
        }) by {
            lemma_mod_bound(j, 8);
            lemma_mod_bound(i as int, 8);
            if j / 8 == i / 8 {
                let jk = (j % 8) as u8;
                assert(byte_bit((byte & !(1u8 << k)) | (v << k), jk) == (if jk == k as u8 {
                    v == 1
                } else {
                    byte_bit(byte, jk)
                })) by (bit_vector)
                    requires
                        jk < 8,
                        k < 8,
                        v <= 1,
                ;
                if j != i {
                    // same byte, different bit position
                    assert(j % 8 != i % 8) by {
                        vstd::arithmetic::div_mod::lemma_fundamental_div_mod(j, 8);
                        vstd::arithmetic::div_mod::lemma_fundamental_div_mod(i as int, 8);
                    }
                }
            }
        }
    }
}

} // verus!

