use rand::seq::SliceRandom;
use vstd::prelude::*;

verus! {

/// Each coordinate runs from `-HALF_SIZE` to `HALF_SIZE`.
pub const HALF_SIZE: i32 = 25;

/// Cells along one edge.
pub const SIDE: usize = 51;

/// Cells in one layer of constant x.
pub const LAYER: usize = 2601;

/// Cells in the whole lattice.
pub const CELL_COUNT: usize = 132651;

/// Whether a position lies on the lattice.
pub open spec fn in_grid(x: int, y: int, z: int) -> bool {
    -25 <= x <= 25 && -25 <= y <= 25 && -25 <= z <= 25
}

/// Where the state of a position is stored: x-major, then y, then z.
pub open spec fn index_of(x: int, y: int, z: int) -> int {
    (x + 25) * 2601 + (y + 25) * 51 + (z + 25)
}

pub open spec fn x_of(i: int) -> int {
    i / 2601 - 25
}

pub open spec fn y_of(i: int) -> int {
    (i / 51) % 51 - 25
}

pub open spec fn z_of(i: int) -> int {
    i % 51 - 25
}

/// Positions one unit step apart along one axis.
pub open spec fn pos_adjacent(x1: int, y1: int, z1: int, x2: int, y2: int, z2: int) -> bool {
    let dx = x2 - x1;
    let dy = y2 - y1;
    let dz = z2 - z1;
    (dx == 1 || dx == -1) && dy == 0 && dz == 0 || dx == 0 && (dy == 1 || dy == -1) && dz == 0
        || dx == 0 && dy == 0 && (dz == 1 || dz == -1)
}

/// Storage places whose positions are one unit step apart.
pub open spec fn index_adjacent(i: int, j: int) -> bool {
    pos_adjacent(x_of(i), y_of(i), z_of(i), x_of(j), y_of(j), z_of(j))
}

pub proof fn lemma_index_of_position(x: int, y: int, z: int)
    requires
        in_grid(x, y, z),
    ensures
        0 <= index_of(x, y, z) < CELL_COUNT,
        x_of(index_of(x, y, z)) == x,
        y_of(index_of(x, y, z)) == y,
        z_of(index_of(x, y, z)) == z,
{
    let i = index_of(x, y, z);
    let a = x + 25;
    let b = y + 25;
    let c = z + 25;
    assert(i == a * 2601 + b * 51 + c);
    assert(0 <= b * 51 + c < 2601);
    assert(i / 2601 == a) by (nonlinear_arith)
        requires i == a * 2601 + (b * 51 + c), 0 <= b * 51 + c < 2601, 0 <= a;
    assert(i / 51 == a * 51 + b) by (nonlinear_arith)
        requires i == (a * 51 + b) * 51 + c, 0 <= c < 51, 0 <= a, 0 <= b;
    assert((a * 51 + b) % 51 == b) by (nonlinear_arith)
        requires 0 <= b < 51, 0 <= a;
    assert(i % 51 == c) by (nonlinear_arith)
        requires i == (a * 51 + b) * 51 + c, 0 <= c < 51, 0 <= a, 0 <= b;
    assert(0 <= i < CELL_COUNT) by (nonlinear_arith)
        requires i == a * 2601 + b * 51 + c, 0 <= a < 51, 0 <= b < 51, 0 <= c < 51;
}

pub proof fn lemma_position_of_index(i: int)
    requires
        0 <= i < CELL_COUNT,
    ensures
        in_grid(x_of(i), y_of(i), z_of(i)),
        index_of(x_of(i), y_of(i), z_of(i)) == i,
{
    let q = i / 51;
    let c = i % 51;
    let a = q / 51;
    let b = q % 51;
    assert(i == q * 51 + c && 0 <= c < 51);
    assert(q == a * 51 + b && 0 <= b < 51);
    assert(i / 2601 == a) by (nonlinear_arith)
        requires i == q * 51 + c, q == a * 51 + b, 0 <= c < 51, 0 <= b < 51, 0 <= i;
    assert(0 <= a < 51);
}

/// One lattice cell and its state (-1, 0 or 1 in the viewer; 0 is empty).
#[derive(Clone, Copy, Debug, PartialEq, Eq, Structural)]
pub struct Cell {
    pub x: i32,
    pub y: i32,
    pub z: i32,
    pub state: i8,
}

pub open spec fn cell_in_grid(c: Cell) -> bool {
    in_grid(c.x as int, c.y as int, c.z as int)
}

pub open spec fn cell_index(c: Cell) -> int {
    index_of(c.x as int, c.y as int, c.z as int)
}

/// The cell stored at a place, with the given state.
pub open spec fn cell_at(i: int, state: i8) -> Cell {
    Cell { x: x_of(i) as i32, y: y_of(i) as i32, z: z_of(i) as i32, state }
}

/// A lattice after writing each change in order; changes off the lattice are ignored.
pub open spec fn applied(grid: Seq<i8>, changes: Seq<Cell>) -> Seq<i8>
    decreases changes.len(),
{
    if changes.len() == 0 {
        grid
    } else {
        let c = changes.last();
        let g = applied(grid, changes.drop_last());
        if cell_in_grid(c) {
            g.update(cell_index(c), c.state)
        } else {
            g
        }
    }
}

/// The number of non-empty cells.
pub open spec fn active_count(grid: Seq<i8>) -> nat
    decreases grid.len(),
{
    if grid.len() == 0 {
        0
    } else {
        active_count(grid.drop_last()) + if grid.last() != 0 { 1nat } else { 0nat }
    }
}

/// The non-empty cells among the first `n` places, in storage order.
pub open spec fn active_prefix(grid: Seq<i8>, n: int) -> Seq<Cell>
    decreases n,
{
    if n <= 0 {
        Seq::empty()
    } else {
        let rest = active_prefix(grid, n - 1);
        if grid[n - 1] != 0 {
            rest.push(cell_at(n - 1, grid[n - 1]))
        } else {
            rest
        }
    }
}

/// A cubic lattice of cells whose non-empty states drift to empty neighbours,
/// one step per tick.
pub struct SimulationEngine {
    /// The state of every cell, at `index_of` its position.
    pub grid: Vec<i8>,
    pub step: u64,
}

impl View for SimulationEngine {
    type V = Seq<i8>;

    open spec fn view(&self) -> Seq<i8> {
        self.grid@
    }
}

impl SimulationEngine {
    pub open spec fn wf(&self) -> bool {
        self@.len() == CELL_COUNT
    }

    /// An empty lattice at step 0.
    pub fn new() -> (r: SimulationEngine)
        ensures
            r.wf(),
            r.step == 0,
            forall|i: int| 0 <= i < CELL_COUNT ==> #[trigger] r@[i] == 0,
    {
        let mut grid: Vec<i8> = Vec::new();
        let mut i: usize = 0;
        while i < CELL_COUNT
            invariant
                i <= CELL_COUNT,
                grid@.len() == i,
                forall|j: int| 0 <= j < i ==> #[trigger] grid@[j] == 0,
            decreases CELL_COUNT - i,
        {
            grid.push(0);
            i += 1;
        }
        SimulationEngine { grid, step: 0 }
    }

    /// The state at a position, or `None` off the lattice.
    pub fn state_at(&self, x: i32, y: i32, z: i32) -> (r: Option<i8>)
        requires
            self.wf(),
        ensures
            r == if in_grid(x as int, y as int, z as int) {
                Some(self@[index_of(x as int, y as int, z as int)])
            } else {
                None::<i8>
            },
    {
        match position_index(x, y, z) {
            Some(i) => Some(self.grid[i]),
            None => None,
        }
    }

    /// Sets the state at a position; tells whether the position lies on the lattice,
    /// and leaves the lattice unchanged where it does not.
    pub fn inject_state(&mut self, x: i32, y: i32, z: i32, state: i8) -> (placed: bool)
        requires
            old(self).wf(),
        ensures
            final(self).wf(),
            final(self).step == old(self).step,
            placed == in_grid(x as int, y as int, z as int),
            final(self)@ == if placed {
                old(self)@.update(index_of(x as int, y as int, z as int), state)
            } else {
                old(self)@
            },
    {
        match position_index(x, y, z) {
            Some(i) => {
                self.grid.set(i, state);
                true
            },
            None => false,
        }
    }

    /// Writes each change whose position lies on the lattice, in order.
    pub fn apply_changes(&mut self, changes: &Vec<Cell>)
        requires
            old(self).wf(),
        ensures
            final(self).wf(),
            final(self).step == old(self).step,
            final(self)@ == applied(old(self)@, changes@),
    {
        let ghost start = self.grid@;
        let mut k: usize = 0;
        while k < changes.len()
            invariant
                k <= changes@.len(),
                start.len() == CELL_COUNT,
                self.step == old(self).step,
                start == old(self)@,
                self.grid@ == applied(start, changes@.subrange(0, k as int)),
                self.grid@.len() == CELL_COUNT,
            decreases changes@.len() - k,
        {
            let c = changes[k];
            proof {
                lemma_applied_len(start, changes@.subrange(0, k as int));
                assert(changes@.subrange(0, k as int + 1).drop_last() == changes@.subrange(0, k as int));
            }
            match position_index(c.x, c.y, c.z) {
                Some(i) => {
                    self.grid.set(i, c.state);
                },
                None => {},
            }
            k += 1;
        }
        assert(changes@.subrange(0, changes@.len() as int) == changes@);
    }

    /// The number of non-empty cells.
    pub fn count_active_cells(&self) -> (r: usize)
        requires
            self.wf(),
        ensures
            r == active_count(self@),
    {
        let mut n: usize = 0;
        let mut i: usize = 0;
        while i < self.grid.len()
            invariant
                i <= self.grid@.len(),
                self.grid@.len() == CELL_COUNT,
                n == active_count(self.grid@.subrange(0, i as int)),
                n <= i,
            decreases self.grid@.len() - i,
        {
            assert(self.grid@.subrange(0, i as int + 1).drop_last() == self.grid@.subrange(0, i as int));
            if self.grid[i] != 0 {
                n += 1;
            }
            i += 1;
        }
        assert(self.grid@.subrange(0, i as int) == self.grid@);
        n
    }

    /// The non-empty cells, in storage order.
    pub fn active_cells(&self) -> (r: Vec<Cell>)
        requires
            self.wf(),
        ensures
            r@ == active_prefix(self@, CELL_COUNT as int),
    {
        let mut cells: Vec<Cell> = Vec::new();
        let mut i: usize = 0;
        while i < self.grid.len()
            invariant
                i <= self.grid@.len(),
                self.grid@.len() == CELL_COUNT,
                cells@ == active_prefix(self.grid@, i as int),
            decreases self.grid@.len() - i,
        {
            let s = self.grid[i];
            if s != 0 {
                cells.push(cell_of_index(i, s));
            }
            i += 1;
        }
        cells
    }
}

proof fn lemma_applied_len(grid: Seq<i8>, changes: Seq<Cell>)
    requires
        grid.len() == CELL_COUNT,
    ensures
        applied(grid, changes).len() == CELL_COUNT,
    decreases changes.len(),
{
    if changes.len() > 0 {
        lemma_applied_len(grid, changes.drop_last());
        let c = changes.last();
        if cell_in_grid(c) {
            lemma_index_of_position(c.x as int, c.y as int, c.z as int);
        }
    }
}

/// The storage place of a position, or `None` off the lattice.
fn position_index(x: i32, y: i32, z: i32) -> (r: Option<usize>)
    ensures
        r == if in_grid(x as int, y as int, z as int) {
            Some(index_of(x as int, y as int, z as int) as usize)
        } else {
            None::<usize>
        },
        r is Some ==> r->0 < CELL_COUNT,
{
    if -HALF_SIZE <= x && x <= HALF_SIZE && -HALF_SIZE <= y && y <= HALF_SIZE && -HALF_SIZE <= z
        && z <= HALF_SIZE {
        proof {
            lemma_index_of_position(x as int, y as int, z as int);
        }
        let a = (x + HALF_SIZE) as usize;
        let b = (y + HALF_SIZE) as usize;
        let c = (z + HALF_SIZE) as usize;
        Some(a * LAYER + b * SIDE + c)
    } else {
        None
    }
}

/// The cell at a storage place, with the given state.
fn cell_of_index(i: usize, state: i8) -> (r: Cell)
    requires
        i < CELL_COUNT,
    ensures
        r == cell_at(i as int, state),
        cell_in_grid(r),
        cell_index(r) == i,
{
    proof {
        lemma_position_of_index(i as int);
    }
    let x = (i / LAYER) as i32 - HALF_SIZE;
    let y = ((i / SIDE) % SIDE) as i32 - HALF_SIZE;
    let z = (i % SIDE) as i32 - HALF_SIZE;
    Cell { x, y, z, state }
}

/// Whether the cell at place `j` can receive a state: on the lattice, empty, and
/// not yet written in the current tick.
pub open spec fn is_free(grid: Seq<i8>, taken: Seq<bool>, j: int) -> bool {
    0 <= j < CELL_COUNT && grid[j] == 0 && !taken[j]
}

spec fn push_when(s: Seq<usize>, cond: bool, v: usize) -> Seq<usize> {
    if cond {
        s.push(v)
    } else {
        s
    }
}

/// A free place next to place `i`.
spec fn free_next_to(grid: Seq<i8>, taken: Seq<bool>, i: int, v: int) -> bool {
    is_free(grid, taken, v) && index_adjacent(i, v)
}

spec fn free_at(grid: Seq<i8>, taken: Seq<bool>, x: int, y: int, z: int) -> bool {
    in_grid(x, y, z) && is_free(grid, taken, index_of(x, y, z))
}

proof fn lemma_push_candidate(
    grid: Seq<i8>,
    taken: Seq<bool>,
    i: int,
    s: Seq<usize>,
    x: int,
    y: int,
    z: int,
)
    requires
        0 <= i < CELL_COUNT,
        pos_adjacent(x_of(i), y_of(i), z_of(i), x, y, z),
        forall|k: int| 0 <= k < s.len() ==> free_next_to(grid, taken, i, #[trigger] s[k] as int),
    ensures
        ({
            let t = push_when(s, free_at(grid, taken, x, y, z), index_of(x, y, z) as usize);
            &&& forall|k: int|
                0 <= k < t.len() ==> free_next_to(grid, taken, i, #[trigger] t[k] as int)
            &&& forall|w: usize| s.contains(w) ==> #[trigger] t.contains(w)
            &&& free_at(grid, taken, x, y, z) ==> t.contains(index_of(x, y, z) as usize)
        }),
{
    let c = free_at(grid, taken, x, y, z);
    let v = index_of(x, y, z) as usize;
    let t = push_when(s, c, v);
    if c {
        lemma_index_of_position(x, y, z);
        assert(t[s.len() as int] == v);
    }
    assert forall|w: usize| s.contains(w) implies #[trigger] t.contains(w) by {
        let k = choose|k: int| 0 <= k < s.len() && s[k] == w;
        assert(t[k] == w);
    }
}

/// Appends the place of a position when it lies on the lattice and is free.
fn push_if_free(grid: &Vec<i8>, taken: &Vec<bool>, x: i32, y: i32, z: i32, out: &mut Vec<usize>)
    requires
        grid@.len() == CELL_COUNT,
        taken@.len() == CELL_COUNT,
    ensures
        final(out)@ == push_when(
            old(out)@,
            free_at(grid@, taken@, x as int, y as int, z as int),
            index_of(x as int, y as int, z as int) as usize,
        ),
{
    match position_index(x, y, z) {
        Some(j) => {
            if grid[j] == 0 && !taken[j] {
                out.push(j);
            }
        },
        None => {},
    }
}

/// The free places next to place `i`, in the order +x, -x, +y, -y, +z, -z.
fn free_neighbors(grid: &Vec<i8>, taken: &Vec<bool>, i: usize) -> (r: Vec<usize>)
    requires
        grid@.len() == CELL_COUNT,
        taken@.len() == CELL_COUNT,
        i < CELL_COUNT,
    ensures
        forall|k: int|
            0 <= k < r@.len() ==> is_free(grid@, taken@, #[trigger] r@[k] as int)
                && index_adjacent(i as int, r@[k] as int),
        forall|j: int|
            is_free(grid@, taken@, j) && #[trigger] index_adjacent(i as int, j) ==> r@.contains(
                j as usize,
            ),
{
    let c = cell_of_index(i, 0);
    proof {
        lemma_position_of_index(i as int);
    }
    let ghost (g, t, ii) = (grid@, taken@, i as int);
    let ghost (x, y, z) = (c.x as int, c.y as int, c.z as int);
    let mut r: Vec<usize> = Vec::new();
    let ghost s0 = r@;
    push_if_free(grid, taken, c.x + 1, c.y, c.z, &mut r);
    proof { lemma_push_candidate(g, t, ii, s0, x + 1, y, z); }
    let ghost s1 = r@;
    push_if_free(grid, taken, c.x - 1, c.y, c.z, &mut r);
    proof { lemma_push_candidate(g, t, ii, s1, x - 1, y, z); }
    let ghost s2 = r@;
    push_if_free(grid, taken, c.x, c.y + 1, c.z, &mut r);
    proof { lemma_push_candidate(g, t, ii, s2, x, y + 1, z); }
    let ghost s3 = r@;
    push_if_free(grid, taken, c.x, c.y - 1, c.z, &mut r);
    proof { lemma_push_candidate(g, t, ii, s3, x, y - 1, z); }
    let ghost s4 = r@;
    push_if_free(grid, taken, c.x, c.y, c.z + 1, &mut r);
    proof { lemma_push_candidate(g, t, ii, s4, x, y, z + 1); }
    let ghost s5 = r@;
    push_if_free(grid, taken, c.x, c.y, c.z - 1, &mut r);
    proof { lemma_push_candidate(g, t, ii, s5, x, y, z - 1); }
    proof {
        assert forall|j: int| is_free(g, t, j) && #[trigger] index_adjacent(ii, j) implies r@.contains(
            j as usize,
        ) by {
            lemma_position_of_index(j);
            assert(free_at(g, t, x_of(j), y_of(j), z_of(j)));
        }
    }
    r
}

/// Whether some change writes the cell stored at place `i`.
pub open spec fn touches(changes: Seq<Cell>, i: int) -> bool {
    exists|k: int|
        0 <= k < changes.len() && cell_in_grid(changes[k]) && cell_index(#[trigger] changes[k]) == i
}

/// A move: `target` receives the state of the non-empty cell `origin`, which is
/// one unit step away and becomes empty; `target` was empty.
pub open spec fn is_move(grid: Seq<i8>, target: Cell, origin: Cell) -> bool {
    &&& cell_in_grid(target)
    &&& cell_in_grid(origin)
    &&& pos_adjacent(
        origin.x as int,
        origin.y as int,
        origin.z as int,
        target.x as int,
        target.y as int,
        target.z as int,
    )
    &&& grid[cell_index(origin)] != 0
    &&& grid[cell_index(target)] == 0
    &&& target.state == grid[cell_index(origin)]
    &&& origin.state == 0
}

/// The `k`-th pair of a change list, at `2k` and `2k + 1`, is a move.
pub open spec fn move_at(grid: Seq<i8>, changes: Seq<Cell>, k: int) -> bool {
    is_move(grid, changes[2 * k], changes[2 * k + 1])
}

/// A change list made of moves, target first, then origin.
pub open spec fn is_move_list(grid: Seq<i8>, changes: Seq<Cell>) -> bool {
    &&& changes.len() % 2 == 0
    &&& forall|k: int| 0 <= k < changes.len() / 2 ==> #[trigger] move_at(grid, changes, k)
}

/// No two changes write the same place.
pub open spec fn writes_distinct(changes: Seq<Cell>) -> bool {
    forall|a: int, b: int|
        0 <= a < b < changes.len() ==> cell_index(#[trigger] changes[a]) != cell_index(
            #[trigger] changes[b],
        )
}

/// Among the first `n` places, no non-empty cell that the changes leave alone has
/// an empty neighbour that they leave alone.
pub open spec fn settled_below(grid: Seq<i8>, changes: Seq<Cell>, n: int) -> bool {
    forall|i: int, j: int|
        0 <= i < n && 0 <= j < CELL_COUNT && grid[i] != 0 && !touches(changes, i)
            && #[trigger] index_adjacent(i, j) ==> grid[j] != 0 || touches(changes, j)
}

/// No non-empty cell that stays put has an empty neighbour that stays empty.
pub open spec fn settled(grid: Seq<i8>, changes: Seq<Cell>) -> bool {
    settled_below(grid, changes, CELL_COUNT as int)
}

proof fn lemma_touches_push(u: Seq<Cell>, c: Cell, j: int)
    ensures
        touches(u.push(c), j) == (touches(u, j) || (cell_in_grid(c) && cell_index(c) == j)),
{
    let v = u.push(c);
    if touches(u, j) {
        let k = choose|k: int| 0 <= k < u.len() && cell_in_grid(u[k]) && cell_index(u[k]) == j;
        assert(v[k] == u[k]);
    }
    if cell_in_grid(c) && cell_index(c) == j {
        assert(v[u.len() as int] == c);
    }
    if touches(v, j) {
        let k = choose|k: int| 0 <= k < v.len() && cell_in_grid(v[k]) && cell_index(v[k]) == j;
        if k < u.len() {
            assert(v[k] == u[k]);
        }
    }
}

proof fn lemma_no_active_all_empty(grid: Seq<i8>)
    requires
        active_count(grid) == 0,
    ensures
        forall|i: int| 0 <= i < grid.len() ==> grid[i] == 0,
    decreases grid.len(),
{
    if grid.len() > 0 {
        lemma_no_active_all_empty(grid.drop_last());
        assert forall|i: int| 0 <= i < grid.len() implies grid[i] == 0 by {
            if i < grid.len() - 1 {
                assert(grid.drop_last()[i] == grid[i]);
            }
        }
    }
}

/// Relies on rand's `SliceRandom::choose` with the thread-local generator:
/// `None` exactly for an empty slice, otherwise one of its elements.
#[verifier::external_body]
fn choose_place(places: &Vec<usize>) -> (r: Option<usize>)
    ensures
        r is None <==> places@.len() == 0,
        r is Some ==> places@.contains(r->0),
{
    places.choose(&mut rand::thread_rng()).copied()
}

/// A vector of `n` unset marks.
fn unmarked(n: usize) -> (r: Vec<bool>)
    ensures
        r@.len() == n,
        forall|j: int| 0 <= j < n ==> !#[trigger] r@[j],
{
    let mut r: Vec<bool> = Vec::new();
    let mut i: usize = 0;
    while i < n
        invariant
            i <= n,
            r@.len() == i,
            forall|j: int| 0 <= j < i ==> !#[trigger] r@[j],
        decreases n - i,
    {
        r.push(false);
        i += 1;
    }
    r
}

proof fn lemma_active_count_update(s: Seq<i8>, i: int, v: i8)
    requires
        0 <= i < s.len(),
    ensures
        active_count(s.update(i, v)) + (if s[i] != 0 { 1int } else { 0int }) == active_count(s) + (
        if v != 0 { 1int } else { 0int }),
    decreases s.len(),
{
    let t = s.update(i, v);
    if i == s.len() - 1 {
        assert(t.drop_last() =~= s.drop_last());
    } else {
        assert(t.drop_last() =~= s.drop_last().update(i, v));
        lemma_active_count_update(s.drop_last(), i, v);
    }
}

proof fn lemma_applied_untouched(grid: Seq<i8>, changes: Seq<Cell>, j: int)
    requires
        grid.len() == CELL_COUNT,
        0 <= j < CELL_COUNT,
        !touches(changes, j),
    ensures
        applied(grid, changes)[j] == grid[j],
    decreases changes.len(),
{
    if changes.len() > 0 {
        let u = changes.drop_last();
        assert forall|k: int| 0 <= k < u.len() && cell_in_grid(u[k]) implies cell_index(#[trigger] u[k]) != j by {
            assert(changes[k] == u[k]);
        }
        lemma_applied_untouched(grid, u, j);
        lemma_applied_len(grid, u);
        let c = changes.last();
        if cell_in_grid(c) && cell_index(c) == j {
            assert(changes[changes.len() - 1] == c);
            assert(touches(changes, j));
        }
    }
}

/// A tick moves states from cell to cell and never makes or destroys one: writing
/// a list of moves that write no cell twice keeps the number of non-empty cells.
pub proof fn lemma_moves_keep_active_count(grid: Seq<i8>, changes: Seq<Cell>)
    requires
        grid.len() == CELL_COUNT,
        forall|k: int| 0 <= k < changes.len() ==> cell_in_grid(#[trigger] changes[k]),
        is_move_list(grid, changes),
        writes_distinct(changes),
    ensures
        active_count(applied(grid, changes)) == active_count(grid),
    decreases changes.len(),
{
    if changes.len() > 0 {
        let n = changes.len() as int;
        let u = changes.subrange(0, n - 2);
        let target = changes[n - 2];
        let origin = changes[n - 1];
        assert(move_at(grid, changes, (n - 2) / 2));
        assert(2 * ((n - 2) / 2) == n - 2);
        assert(changes.drop_last() =~= u.push(target));
        assert(changes.drop_last().drop_last() =~= u);
        assert forall|k: int| 0 <= k < u.len() implies cell_in_grid(#[trigger] u[k]) by {
            assert(u[k] == changes[k]);
        }
        assert forall|k: int| 0 <= k < u.len() / 2 implies #[trigger] move_at(grid, u, k) by {
            assert(move_at(grid, changes, k));
            assert(u[2 * k] == changes[2 * k]);
            assert(u[2 * k + 1] == changes[2 * k + 1]);
        }
        assert forall|a: int, b: int| 0 <= a < b < u.len() implies cell_index(#[trigger] u[a])
            != cell_index(#[trigger] u[b]) by {
            assert(u[a] == changes[a] && u[b] == changes[b]);
        }
        lemma_moves_keep_active_count(grid, u);
        let t = cell_index(target);
        let o = cell_index(origin);
        lemma_index_of_position(target.x as int, target.y as int, target.z as int);
        lemma_index_of_position(origin.x as int, origin.y as int, origin.z as int);
        assert(t != o) by {
            assert(changes[n - 2] == target && changes[n - 1] == origin);
        }
        assert(!touches(u, t)) by {
            if touches(u, t) {
                let k = choose|k: int| 0 <= k < u.len() && cell_in_grid(u[k]) && cell_index(u[k]) == t;
                assert(u[k] == changes[k]);
            }
        }
        assert(!touches(u, o)) by {
            if touches(u, o) {
                let k = choose|k: int| 0 <= k < u.len() && cell_in_grid(u[k]) && cell_index(u[k]) == o;
                assert(u[k] == changes[k]);
            }
        }
        lemma_applied_len(grid, u);
        lemma_applied_untouched(grid, u, t);
        lemma_applied_untouched(grid, u, o);
        let g0 = applied(grid, u);
        let g1 = g0.update(t, target.state);
        assert(applied(grid, u.push(target)) == g1);
        assert(applied(grid, changes) == g1.update(o, origin.state));
        lemma_active_count_update(g0, t, target.state);
        lemma_active_count_update(g1, o, origin.state);
    }
}

impl SimulationEngine {
    /// Advances one step: each non-empty cell, in storage order, moves its state to
    /// a randomly chosen empty neighbour that no earlier move of this tick has
    /// written, and becomes empty. Returns the cells written, each move as the new
    /// cell followed by the emptied one.
    pub fn tick(&mut self) -> (r: Vec<Cell>)
        requires
            old(self).wf(),
            old(self).step < u64::MAX,
        ensures
            final(self).wf(),
            final(self).step == old(self).step + 1,
            final(self)@ == applied(old(self)@, r@),
            forall|k: int| 0 <= k < r@.len() ==> cell_in_grid(#[trigger] r@[k]),
            is_move_list(old(self)@, r@),
            writes_distinct(r@),
            settled(old(self)@, r@),
            active_count(final(self)@) == active_count(old(self)@),
    {
        let active_before = self.count_active_cells();
        if active_before == 0 {
            proof {
                lemma_no_active_all_empty(self@);
            }
            self.step = self.step + 1;
            return Vec::new();
        }
        let mut taken = unmarked(CELL_COUNT);
        let mut updates: Vec<Cell> = Vec::new();
        let mut i: usize = 0;
        while i < CELL_COUNT
            invariant
                self@ == old(self)@,
                self.step == old(self).step,
                self@.len() == CELL_COUNT,
                taken@.len() == CELL_COUNT,
                i <= CELL_COUNT,
                forall|j: int| 0 <= j < CELL_COUNT ==> #[trigger] taken@[j] == touches(updates@, j),
                forall|k: int| 0 <= k < updates@.len() ==> cell_in_grid(#[trigger] updates@[k]),
                is_move_list(self@, updates@),
                writes_distinct(updates@),
                settled_below(self@, updates@, i as int),
            decreases CELL_COUNT - i,
        {
            let state = self.grid[i];
            if state != 0 {
                let free = free_neighbors(&self.grid, &taken, i);
                let chosen = choose_place(&free);
                match chosen {
                    Some(n) => {
                        proof {
                            let k = choose|k: int| 0 <= k < free@.len() && free@[k] == n;
                            assert(is_free(self@, taken@, free@[k] as int));
                        }
                        if !taken[i] {
                            let target = cell_of_index(n, state);
                            let origin = cell_of_index(i, 0);
                            let ghost u0 = updates@;
                            let ghost t0 = taken@;
                            updates.push(target);
                            updates.push(origin);
                            taken.set(n, true);
                            taken.set(i, true);
                            proof {
                                self.lemma_record_move(u0, t0, i as int, n as int, target, origin);
                            }
                        } else {
                            proof {
                                assert(touches(updates@, i as int));
                            }
                        }
                    },
                    None => {
                        proof {
                            assert forall|a: int, j: int|
                                0 <= a < i + 1 && 0 <= j < CELL_COUNT && self@[a] != 0 && !touches(
                                    updates@,
                                    a,
                                ) && #[trigger] index_adjacent(a, j) implies self@[j] != 0 || touches(
                                updates@,
                                j,
                            ) by {
                                if a == i && self@[j] == 0 && !touches(updates@, j) {
                                    assert(is_free(self@, taken@, j));
                                    assert(free@.contains(j as usize));
                                }
                            }
                        }
                    },
                }
            }
            i += 1;
        }
        proof {
            lemma_moves_keep_active_count(self@, updates@);
        }
        self.apply_changes(&updates);
        self.step = self.step + 1;
        updates
    }

    proof fn lemma_record_move(
        &self,
        u0: Seq<Cell>,
        t0: Seq<bool>,
        i: int,
        n: int,
        target: Cell,
        origin: Cell,
    )
        requires
            self@.len() == CELL_COUNT,
            t0.len() == CELL_COUNT,
            0 <= i < CELL_COUNT,
            forall|j: int| 0 <= j < CELL_COUNT ==> #[trigger] t0[j] == touches(u0, j),
            forall|k: int| 0 <= k < u0.len() ==> cell_in_grid(#[trigger] u0[k]),
            is_move_list(self@, u0),
            writes_distinct(u0),
            settled_below(self@, u0, i),
            self@[i] != 0,
            !t0[i],
            is_free(self@, t0, n),
            index_adjacent(i, n),
            target == cell_at(n, self@[i]),
            cell_in_grid(target),
            cell_index(target) == n,
            origin == cell_at(i, 0),
            cell_in_grid(origin),
            cell_index(origin) == i,
        ensures
            ({
                let u2 = u0.push(target).push(origin);
                let t2 = t0.update(n, true).update(i, true);
                &&& forall|j: int| 0 <= j < CELL_COUNT ==> #[trigger] t2[j] == touches(u2, j)
                &&& forall|k: int| 0 <= k < u2.len() ==> cell_in_grid(#[trigger] u2[k])
                &&& is_move_list(self@, u2)
                &&& writes_distinct(u2)
                &&& settled_below(self@, u2, i + 1)
            }),
    {
        let g = self@;
        let u1 = u0.push(target);
        let u2 = u1.push(origin);
        let t2 = t0.update(n, true).update(i, true);
        lemma_position_of_index(i);
        lemma_position_of_index(n);
        assert forall|j: int| touches(u0, j) implies #[trigger] touches(u2, j) by {
            lemma_touches_push(u0, target, j);
            lemma_touches_push(u1, origin, j);
        }
        assert forall|j: int| 0 <= j < CELL_COUNT implies #[trigger] t2[j] == touches(u2, j) by {
            lemma_touches_push(u0, target, j);
            lemma_touches_push(u1, origin, j);
        }
        assert forall|k: int| 0 <= k < u2.len() implies cell_in_grid(#[trigger] u2[k]) by {
            if k < u0.len() {
                assert(u2[k] == u0[k]);
            }
        }
        let m = u0.len() / 2;
        assert forall|k: int| 0 <= k < u2.len() / 2 implies #[trigger] move_at(g, u2, k) by {
            if k < m {
                assert(move_at(g, u0, k));
                assert(u2[2 * k] == u0[2 * k]);
                assert(u2[2 * k + 1] == u0[2 * k + 1]);
            } else {
                assert(k == m);
                assert(u2[2 * k] == target);
                assert(u2[2 * k + 1] == origin);
            }
        }
        assert forall|k: int| 0 <= k < u0.len() implies cell_index(#[trigger] u0[k]) != n && cell_index(
            u0[k],
        ) != i by {
            if cell_index(u0[k]) == n {
                assert(touches(u0, n));
            }
            if cell_index(u0[k]) == i {
                assert(touches(u0, i));
            }
        }
        assert forall|a: int, b: int| 0 <= a < b < u2.len() implies cell_index(#[trigger] u2[a])
            != cell_index(#[trigger] u2[b]) by {
            if b < u0.len() {
                assert(u2[a] == u0[a] && u2[b] == u0[b]);
            } else if a < u0.len() {
                assert(u2[a] == u0[a]);
            }
        }
        assert forall|a: int, j: int|
            0 <= a < i + 1 && 0 <= j < CELL_COUNT && g[a] != 0 && !touches(u2, a)
                && #[trigger] index_adjacent(a, j) implies g[j] != 0 || touches(u2, j) by {
            lemma_touches_push(u0, target, a);
            lemma_touches_push(u1, origin, a);
            if a == i {
                lemma_touches_push(u1, origin, i);
            }
        }
    }
}

} // verus!
