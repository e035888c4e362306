//! Midpoint-displacement (diamond-square) subdivision: which cells receive a
//! height, in which order, and from which already-known neighbours.
use vstd::prelude::*;

use crate::error::TerrainError;

verus! {

/// A grid cell, by row and column.
#[derive(Clone, Copy, Debug, PartialEq, Eq, Structural)]
pub struct Cell {
    pub row: usize,
    pub col: usize,
}

/// What an update does to its target cell.
#[derive(Clone, Copy, Debug, PartialEq, Eq, Structural)]
pub enum StepKind {
    /// A grid corner: drawn uniformly from `[-scale_z, scale_z]`.
    Corner,
    /// A square's centre: the mean of its four corners plus jitter.
    Diamond,
    /// An edge midpoint: the mean of its in-grid neighbours plus jitter.
    Square,
}

/// The cells whose heights are averaged; `None` marks a neighbour outside the grid.
#[derive(Clone, Copy, Debug, PartialEq, Eq, Structural)]
pub struct Neighbours {
    pub first: Option<Cell>,
    pub second: Option<Cell>,
    pub third: Option<Cell>,
    pub fourth: Option<Cell>,
}

/// One height assignment of the subdivision. `level` counts the halvings of
/// the step size so far; the jitter's scaling decays once per level.
#[derive(Clone, Copy, Debug, PartialEq, Eq, Structural)]
pub struct Update {
    pub kind: StepKind,
    pub target: Cell,
    pub level: usize,
    pub sources: Neighbours,
}

pub open spec fn power_of_two(n: nat) -> bool
    decreases n,
{
    if n == 1 {
        true
    } else if n < 2 || n % 2 != 0 {
        false
    } else {
        power_of_two(n / 2)
    }
}

/// A grid that binary subdivision can fill: `size - 1` is a power of two.
pub open spec fn subdivision_size(size: int) -> bool {
    size >= 2 && power_of_two((size - 1) as nat)
}

/// Coordinate `v` moved by `step` in direction `dir` (its sign), if that stays in `0..size`.
pub open spec fn shifted(size: int, v: int, dir: int, step: int) -> Option<usize> {
    let t = if dir < 0 {
        v - step
    } else if dir > 0 {
        v + step
    } else {
        v
    };
    if 0 <= t < size {
        Some(t as usize)
    } else {
        None
    }
}

/// The cell `step` away from `cell` in direction `(row_dir, col_dir)`, if it lies in the grid.
pub open spec fn neighbour_of(size: int, cell: Cell, row_dir: int, col_dir: int, step: int) -> Option<
    Cell,
> {
    match (shifted(size, cell.row as int, row_dir, step), shifted(size, cell.col as int, col_dir, step)) {
        (Some(r), Some(c)) => Some(Cell { row: r, col: c }),
        _ => None,
    }
}

pub open spec fn present(c: Option<Cell>) -> int {
    if c is Some {
        1
    } else {
        0
    }
}

/// How many heights an update averages.
pub open spec fn source_count(n: Neighbours) -> int {
    present(n.first) + present(n.second) + present(n.third) + present(n.fourth)
}

pub open spec fn no_sources() -> Neighbours {
    Neighbours { first: None, second: None, third: None, fourth: None }
}

pub open spec fn corner_update(row: int, col: int) -> Update {
    Update {
        kind: StepKind::Corner,
        target: Cell { row: row as usize, col: col as usize },
        level: 0,
        sources: no_sources(),
    }
}

/// The diamond step at `center`: its four diagonal neighbours at distance `step`.
pub open spec fn diamond_update(size: int, center: Cell, step: int, level: int) -> Update {
    Update {
        kind: StepKind::Diamond,
        target: center,
        level: level as usize,
        sources: Neighbours {
            first: neighbour_of(size, center, -1, -1, step),
            second: neighbour_of(size, center, 1, -1, step),
            third: neighbour_of(size, center, -1, 1, step),
            fourth: neighbour_of(size, center, 1, 1, step),
        },
    }
}

/// The square step at `target`: its four axis neighbours at distance `step`
/// that lie in the grid.
pub open spec fn square_update(size: int, target: Cell, step: int, level: int) -> Update {
    Update {
        kind: StepKind::Square,
        target,
        level: level as usize,
        sources: Neighbours {
            first: neighbour_of(size, target, -1, 0, step),
            second: neighbour_of(size, target, 1, 0, step),
            third: neighbour_of(size, target, 0, -1, step),
            fourth: neighbour_of(size, target, 0, 1, step),
        },
    }
}

pub open spec fn cell_at(row: int, col: int) -> Cell {
    Cell { row: row as usize, col: col as usize }
}

/// The diamond step at `(i, j)` followed by the square steps at its four edge midpoints.
pub open spec fn center_updates(size: int, step: int, level: int, i: int, j: int) -> Seq<Update> {
    seq![
        diamond_update(size, cell_at(i, j), step, level),
        square_update(size, cell_at(i - step, j), step, level),
        square_update(size, cell_at(i + step, j), step, level),
        square_update(size, cell_at(i, j - step), step, level),
        square_update(size, cell_at(i, j + step), step, level),
    ]
}

/// The updates of the centres in row `i`, from column `j` on.
pub open spec fn row_plan(size: int, step: int, level: int, i: int, j: int) -> Seq<Update>
    decreases
            if j >= size {
                0
            } else {
                size - j
            },
{
    if step <= 0 || j >= size {
        seq![]
    } else {
        center_updates(size, step, level, i, j) + row_plan(size, step, level, i, j + 2 * step)
    }
}

/// The updates of one pass, from centre row `i` on.
pub open spec fn pass_plan(size: int, step: int, level: int, i: int) -> Seq<Update>
    decreases
            if i >= size {
                0
            } else {
                size - i
            },
{
    if step <= 0 || i >= size {
        seq![]
    } else {
        row_plan(size, step, level, i, step) + pass_plan(size, step, level, i + 2 * step)
    }
}

/// All passes from step size `step` down to 1.
pub open spec fn passes_plan(size: int, step: int, level: int) -> Seq<Update>
    decreases step,
{
    if step <= 0 {
        seq![]
    } else {
        pass_plan(size, step, level, step) + passes_plan(size, (step / 2) as int, level + 1)
    }
}

/// The whole subdivision: the four corners, then every pass.
pub open spec fn plan_of(size: int) -> Seq<Update> {
    seq![
        corner_update(0, 0),
        corner_update(0, size - 1),
        corner_update(size - 1, 0),
        corner_update(size - 1, size - 1),
    ] + passes_plan(size, (size - 1) / 2, 0)
}

fn shift(size: usize, v: usize, dir: i8, step: usize) -> (r: Option<usize>)
    requires
        v < size,
    ensures
        r == shifted(size as int, v as int, dir as int, step as int),
{
    if dir < 0 {
        if v >= step {
            Some(v - step)
        } else {
            None
        }
    } else if dir > 0 {
        if step < size - v {
            Some(v + step)
        } else {
            None
        }
    } else {
        Some(v)
    }
}

fn neighbour(size: usize, cell: Cell, row_dir: i8, col_dir: i8, step: usize) -> (r: Option<Cell>)
    requires
        cell.row < size,
        cell.col < size,
    ensures
        r == neighbour_of(size as int, cell, row_dir as int, col_dir as int, step as int),
{
    match (shift(size, cell.row, row_dir, step), shift(size, cell.col, col_dir, step)) {
        (Some(row), Some(col)) => Some(Cell { row, col }),
        _ => None,
    }
}

/// Whether binary subdivision can fill a grid of edge length `size`.
pub fn is_subdivision_size(size: usize) -> (r: bool)
    ensures
        r == subdivision_size(size as int),
{
    if size < 2 {
        return false;
    }
    let mut n: usize = size - 1;
    while n > 1 && n % 2 == 0
        invariant
            n >= 1,
            power_of_two(n as nat) == power_of_two((size - 1) as nat),
        decreases n,
    {
        n = n / 2;
    }
    n == 1
}

/// The diamond step for the square centred at `center` with half-width `step`.
pub fn diamond_step(size: usize, center: Cell, step: usize, level: usize) -> (r: Update)
    requires
        center.row < size,
        center.col < size,
    ensures
        r == diamond_update(size as int, center, step as int, level as int),
{
    Update {
        kind: StepKind::Diamond,
        target: center,
        level,
        sources: Neighbours {
            first: neighbour(size, center, -1, -1, step),
            second: neighbour(size, center, 1, -1, step),
            third: neighbour(size, center, -1, 1, step),
            fourth: neighbour(size, center, 1, 1, step),
        },
    }
}

/// The square step at the edge midpoint `target`; neighbours outside the grid
/// are left out, so the mean is taken over the ones that exist.
pub fn square_step(size: usize, target: Cell, step: usize, level: usize) -> (r: Update)
    requires
        target.row < size,
        target.col < size,
    ensures
        r == square_update(size as int, target, step as int, level as int),
{
    Update {
        kind: StepKind::Square,
        target,
        level,
        sources: Neighbours {
            first: neighbour(size, target, -1, 0, step),
            second: neighbour(size, target, 1, 0, step),
            third: neighbour(size, target, 0, -1, step),
            fourth: neighbour(size, target, 0, 1, step),
        },
    }
}

proof fn lemma_center_inside(size: int, step: int, q: int, i: int, a: int)
    requires
        step >= 1,
        a >= 0,
        2 * step * q == size - 1,
        i == step + 2 * step * a,
        i < size,
    ensures
        i + step <= size - 1,
{
    if a >= q {
        assert(2 * step * a >= 2 * step * q) by (nonlinear_arith)
            requires
                step >= 1,
                a >= q,
        ;
    }
    assert(2 * step * (a + 1) <= 2 * step * q) by (nonlinear_arith)
        requires
            step >= 1,
            a + 1 <= q,
    ;
    assert(2 * step * (a + 1) == 2 * step * a + 2 * step) by (nonlinear_arith);
}

/// The full update sequence that fills a `size x size` grid by midpoint
/// displacement: the four corners, then for each step size from
/// `(size - 1) / 2` down to 1, each square centre in row-major order with its
/// diamond step and the square steps at its four edge midpoints. Refused,
/// before anything is planned, unless `size - 1` is a power of two.
pub fn subdivision_plan(size: usize) -> (r: Result<Vec<Update>, TerrainError>)
    ensures
        r is Err <==> !subdivision_size(size as int),
        r is Err ==> r == Err::<Vec<Update>, TerrainError>(TerrainError::InvalidDimension { size }),
        r matches Ok(p) ==> p@ == plan_of(size as int),
{
    if !is_subdivision_size(size) {
        return Err(TerrainError::InvalidDimension { size });
    }
    let last = size - 1;
    let mut plan: Vec<Update> = Vec::new();
    let none = Neighbours { first: None, second: None, third: None, fourth: None };
    plan.push(Update { kind: StepKind::Corner, target: Cell { row: 0, col: 0 }, level: 0, sources: none });
    plan.push(Update { kind: StepKind::Corner, target: Cell { row: 0, col: last }, level: 0, sources: none });
    plan.push(Update { kind: StepKind::Corner, target: Cell { row: last, col: 0 }, level: 0, sources: none });
    plan.push(Update { kind: StepKind::Corner, target: Cell { row: last, col: last }, level: 0, sources: none });
    let ghost total = plan_of(size as int);
    assert(plan@ + passes_plan(size as int, (size - 1) / 2, 0) =~= total);
    let mut step: usize = last / 2;
    let mut level: usize = 0;
    let ghost mut q: int = 1;
    if step > 0 {
        assert(2 * step * q == size - 1);
    }
    while step > 0
        invariant
            subdivision_size(size as int),
            q >= 1,
            step > 0 ==> 2 * step * q == size - 1 && power_of_two(step as nat),
            level + step <= size,
            plan@ + passes_plan(size as int, step as int, level as int) == total,
        decreases step,
    {
        assert(2 * step <= 2 * step * q) by (nonlinear_arith)
            requires
                q >= 1,
                step >= 1,
        ;
        assert(plan@ + passes_plan(size as int, step as int, level as int) =~= plan@ + pass_plan(
            size as int,
            step as int,
            level as int,
            step as int,
        ) + passes_plan(size as int, (step / 2) as int, level + 1));
        let mut i: usize = step;
        let ghost mut a: int = 0;
        while i < size
            invariant
                step > 0,
                q >= 1,
                2 * step * q == size - 1,
                2 * step <= size - 1,
                i >= step,
                a >= 0,
                i < size ==> i == step + 2 * step * a,
                plan@ + pass_plan(size as int, step as int, level as int, i as int) + passes_plan(
                    size as int,
                    (step / 2) as int,
                    level + 1,
                ) == total,
            decreases size - i,
        {
            proof {
                lemma_center_inside(size as int, step as int, q, i as int, a);
            }
            assert(plan@ + pass_plan(size as int, step as int, level as int, i as int) =~= plan@
                + row_plan(size as int, step as int, level as int, i as int, step as int)
                + pass_plan(size as int, step as int, level as int, i + 2 * step));
            let mut j: usize = step;
            let ghost mut b: int = 0;
            while j < size
                invariant
                    step > 0,
                    q >= 1,
                    2 * step * q == size - 1,
                    2 * step <= size - 1,
                    i >= step,
                    i + step <= size - 1,
                    j >= step,
                    b >= 0,
                    j < size ==> j == step + 2 * step * b,
                    plan@ + row_plan(size as int, step as int, level as int, i as int, j as int)
                        + pass_plan(size as int, step as int, level as int, i + 2 * step)
                        + passes_plan(size as int, (step / 2) as int, level + 1) == total,
                decreases size - j,
            {
                proof {
                    lemma_center_inside(size as int, step as int, q, j as int, b);
                }
                let ghost before = plan@;
                plan.push(diamond_step(size, Cell { row: i, col: j }, step, level));
                plan.push(square_step(size, Cell { row: i - step, col: j }, step, level));
                plan.push(square_step(size, Cell { row: i + step, col: j }, step, level));
                plan.push(square_step(size, Cell { row: i, col: j - step }, step, level));
                plan.push(square_step(size, Cell { row: i, col: j + step }, step, level));
                assert(plan@ =~= before + center_updates(
                    size as int,
                    step as int,
                    level as int,
                    i as int,
                    j as int,
                ));
                assert(before + row_plan(size as int, step as int, level as int, i as int, j as int)
                    =~= plan@ + row_plan(
                    size as int,
                    step as int,
                    level as int,
                    i as int,
                    j + 2 * step,
                ));
                proof {
                    assert(2 * step * (b + 1) == 2 * step * b + 2 * step) by (nonlinear_arith);
                    b = b + 1;
                }
                j = if j < size - 2 * step {
                    j + 2 * step
                } else {
                    size
                };
            }
            proof {
                assert(2 * step * (a + 1) == 2 * step * a + 2 * step) by (nonlinear_arith);
                a = a + 1;
            }
            assert(plan@ + row_plan(size as int, step as int, level as int, i as int, j as int)
                =~= plan@);
            i = if i < size - 2 * step {
                i + 2 * step
            } else {
                size
            };
        }
        proof {
            if step >= 2 {
                assert(2 * (step / 2) * (2 * q) == 2 * step * q) by (nonlinear_arith)
                    requires
                        step % 2 == 0,
                ;
            }
            q = 2 * q;
        }
        assert(plan@ + pass_plan(size as int, step as int, level as int, i as int) =~= plan@);
        step = step / 2;
        level = level + 1;
    }
    Ok(plan)
}

/// 1 for each end of `0..size` that `v` sits on.
pub open spec fn borders_touched(size: int, v: int) -> int {
    (if v == 0 {
        1int
    } else {
        0int
    }) + (if v == size - 1 {
        1int
    } else {
        0int
    })
}

proof fn lemma_lattice_coordinate(size: int, v: int, step: int)
    requires
        size >= 2,
        step >= 1,
        (size - 1) % step == 0,
        v % step == 0,
        0 <= v < size,
    ensures
        (v >= step) == (v != 0),
        (v + step < size) == (v != size - 1),
{
    let a = v / step;
    let b = (size - 1) / step;
    vstd::arithmetic::div_mod::lemma_fundamental_div_mod(v, step);
    vstd::arithmetic::div_mod::lemma_fundamental_div_mod(size - 1, step);
    assert(v == step * a);
    assert(size - 1 == step * b);
    if v != 0 {
        assert(v >= step) by (nonlinear_arith)
            requires
                v == step * a,
                v > 0,
                step >= 1,
        ;
    }
    if v != size - 1 {
        assert(v + step <= size - 1) by (nonlinear_arith)
            requires
                v == step * a,
                size - 1 == step * b,
                v < size - 1,
                step >= 1,
        ;
    }
}

/// On the lattice of a step that divides `size - 1`, a square step averages
/// four neighbours, less one for each grid border its target lies on: two at
/// a grid corner, three elsewhere on an edge, four inside the grid.
pub proof fn lemma_square_border_count(size: int, target: Cell, step: int, level: int)
    requires
        size >= 2,
        step >= 1,
        (size - 1) % step == 0,
        target.row < size,
        target.col < size,
        (target.row as int) % step == 0,
        (target.col as int) % step == 0,
    ensures
        source_count(square_update(size, target, step, level).sources) == 4 - borders_touched(
            size,
            target.row as int,
        ) - borders_touched(size, target.col as int),
{
    lemma_lattice_coordinate(size, target.row as int, step);
    lemma_lattice_coordinate(size, target.col as int, step);
}

/// Every square centre that the plan visits lies at least `step` away from
/// each border, so its diamond step averages all four corners.
pub proof fn lemma_diamond_corners_inside(size: int, step: int, q: int, center: Cell, a: int, b: int, level: int)
    requires
        step >= 1,
        a >= 0,
        b >= 0,
        2 * step * q == size - 1,
        center.row == step + 2 * step * a,
        center.col == step + 2 * step * b,
        center.row < size,
        center.col < size,
    ensures
        source_count(diamond_update(size, center, step, level).sources) == 4,
{
    lemma_center_inside(size, step, q, center.row as int, a);
    lemma_center_inside(size, step, q, center.col as int, b);
}

/// Whether some update of `plan` assigns a height to `cell`.
pub open spec fn assigns(plan: Seq<Update>, cell: Cell) -> bool {
    exists|k: int| 0 <= k < plan.len() && (#[trigger] plan[k]).target == cell
}

proof fn lemma_assigns_left(a: Seq<Update>, b: Seq<Update>, cell: Cell)
    requires
        assigns(a, cell),
    ensures
        assigns(a + b, cell),
{
    let k = choose|k: int| 0 <= k < a.len() && (#[trigger] a[k]).target == cell;
    assert((a + b)[k] == a[k]);
}

proof fn lemma_assigns_right(a: Seq<Update>, b: Seq<Update>, cell: Cell)
    requires
        assigns(b, cell),
    ensures
        assigns(a + b, cell),
{
    let k = choose|k: int| 0 <= k < b.len() && (#[trigger] b[k]).target == cell;
    assert((a + b)[k + a.len()] == b[k]);
}

proof fn lemma_row_assigns(size: int, step: int, level: int, i: int, j0: int, m: int, t: int)
    requires
        step > 0,
        m >= 0,
        j0 + 2 * step * m < size,
        0 <= t < 5,
    ensures
        assigns(
            row_plan(size, step, level, i, j0),
            center_updates(size, step, level, i, j0 + 2 * step * m)[t].target,
        ),
    decreases m,
{
    assert(2 * step * m >= 0) by (nonlinear_arith)
        requires
            step > 0,
            m >= 0,
    ;
    let here = center_updates(size, step, level, i, j0);
    let rest = row_plan(size, step, level, i, j0 + 2 * step);
    assert(row_plan(size, step, level, i, j0) == here + rest);
    if m == 0 {
        assert(j0 + 2 * step * m == j0) by (nonlinear_arith)
            requires
                m == 0,
        ;
        assert((here + rest)[t] == here[t]);
    } else {
        assert(j0 + 2 * step * m == (j0 + 2 * step) + 2 * step * (m - 1)) by (nonlinear_arith);
        lemma_row_assigns(size, step, level, i, j0 + 2 * step, m - 1, t);
        lemma_assigns_right(here, rest, center_updates(size, step, level, i, j0 + 2 * step * m)[t].target);
    }
}

proof fn lemma_pass_assigns(size: int, step: int, level: int, i0: int, m: int, cell: Cell)
    requires
        step > 0,
        m >= 0,
        i0 + 2 * step * m < size,
        assigns(row_plan(size, step, level, i0 + 2 * step * m, step), cell),
    ensures
        assigns(pass_plan(size, step, level, i0), cell),
    decreases m,
{
    assert(2 * step * m >= 0) by (nonlinear_arith)
        requires
            step > 0,
            m >= 0,
    ;
    let here = row_plan(size, step, level, i0, step);
    let rest = pass_plan(size, step, level, i0 + 2 * step);
    assert(pass_plan(size, step, level, i0) == here + rest);
    if m == 0 {
        assert(i0 + 2 * step * m == i0) by (nonlinear_arith)
            requires
                m == 0,
        ;
        lemma_assigns_left(here, rest, cell);
    } else {
        assert(i0 + 2 * step * m == (i0 + 2 * step) + 2 * step * (m - 1)) by (nonlinear_arith);
        lemma_pass_assigns(size, step, level, i0 + 2 * step, m - 1, cell);
        lemma_assigns_right(here, rest, cell);
    }
}

/// Picks the centre coordinate, along one axis, of a square whose step
/// reaches coordinate `v == step * x`: `v` itself when `x` is odd, else the
/// neighbouring odd multiple inside the grid. Returns the centre's index `a`
/// (centre `step + 2 * step * a`) and whether it lies after `v`.
proof fn lemma_centre_for(size: int, step: int, q: int, v: int, x: int) -> (res: (int, bool))
    requires
        step >= 1,
        q >= 1,
        2 * step * q == size - 1,
        x >= 0,
        v == step * x,
        0 <= v < size,
    ensures
        res.0 >= 0,
        step + 2 * step * res.0 < size,
        x % 2 == 1 ==> step + 2 * step * res.0 == v,
        x % 2 == 0 && res.1 ==> step + 2 * step * res.0 == v + step,
        x % 2 == 0 && !res.1 ==> step + 2 * step * res.0 == v - step,
{
    if x % 2 == 1 {
        let a = (x - 1) / 2;
        assert(step * x == step + 2 * step * a) by (nonlinear_arith)
            requires
                x == 2 * a + 1,
        ;
        (a, true)
    } else {
        let a = x / 2;
        assert(step * x == 2 * step * a) by (nonlinear_arith)
            requires
                x == 2 * a,
        ;
        assert(2 * step <= 2 * step * q) by (nonlinear_arith)
            requires
                q >= 1,
                step >= 1,
        ;
        if v + step < size {
            (a, true)
        } else {
            assert(a >= 1) by (nonlinear_arith)
                requires
                    v == 2 * step * a,
                    v >= 2,
                    a >= 0,
                    step >= 1,
            ;
            assert(step + 2 * step * (a - 1) == 2 * step * a - step) by (nonlinear_arith);
            (a - 1, false)
        }
    }
}

proof fn lemma_step_assigns(size: int, step: int, q: int, level: int, r: int, c: int, x: int, y: int)
    requires
        step >= 1,
        q >= 1,
        2 * step * q == size - 1,
        x >= 0,
        y >= 0,
        r == step * x,
        c == step * y,
        0 <= r < size,
        0 <= c < size,
        !(x % 2 == 0 && y % 2 == 0),
    ensures
        assigns(pass_plan(size, step, level, step), cell_at(r, c)),
{
    let (a, after_r) = lemma_centre_for(size, step, q, r, x);
    let (b, after_c) = lemma_centre_for(size, step, q, c, y);
    let i = step + 2 * step * a;
    let j = step + 2 * step * b;
    let t: int = if x % 2 == 1 && y % 2 == 1 {
        0
    } else if x % 2 == 0 {
        if after_r {
            1
        } else {
            2
        }
    } else if after_c {
        3
    } else {
        4
    };
    assert(center_updates(size, step, level, i, j)[t].target == cell_at(r, c));
    lemma_row_assigns(size, step, level, i, step, b, t);
    lemma_pass_assigns(size, step, level, step, a, cell_at(r, c));
}

proof fn lemma_passes_assign(size: int, step: int, q: int, level: int, r: int, c: int)
    requires
        step >= 1,
        power_of_two(step as nat),
        q >= 1,
        2 * step * q == size - 1,
        0 <= r < size,
        0 <= c < size,
        !(r % (2 * step) == 0 && c % (2 * step) == 0),
    ensures
        assigns(passes_plan(size, step, level), cell_at(r, c)),
    decreases step,
{
    let here = pass_plan(size, step, level, step);
    let rest = passes_plan(size, step / 2, level + 1);
    assert(passes_plan(size, step, level) == here + rest);
    if r % step == 0 && c % step == 0 {
        let x = r / step;
        let y = c / step;
        vstd::arithmetic::div_mod::lemma_fundamental_div_mod(r, step);
        vstd::arithmetic::div_mod::lemma_fundamental_div_mod(c, step);
        assert(x >= 0 && y >= 0) by (nonlinear_arith)
            requires
                r == step * x,
                c == step * y,
                r >= 0,
                c >= 0,
                step >= 1,
        ;
        if x % 2 == 0 && y % 2 == 0 {
            assert(r == (x / 2) * (2 * step)) by (nonlinear_arith)
                requires
                    r == step * x,
                    x % 2 == 0,
            ;
            assert(c == (y / 2) * (2 * step)) by (nonlinear_arith)
                requires
                    c == step * y,
                    y % 2 == 0,
            ;
            vstd::arithmetic::div_mod::lemma_mod_multiples_basic(x / 2, 2 * step);
            vstd::arithmetic::div_mod::lemma_mod_multiples_basic(y / 2, 2 * step);
        }
        lemma_step_assigns(size, step, q, level, r, c, x, y);
        lemma_assigns_left(here, rest, cell_at(r, c));
    } else {
        assert(step != 1);
        let half = step / 2;
        assert(2 * half * (2 * q) == 2 * step * q) by (nonlinear_arith)
            requires
                step == 2 * half,
        ;
        lemma_passes_assign(size, half, 2 * q, level + 1, r, c);
        lemma_assigns_right(here, rest, cell_at(r, c));
    }
}

/// The subdivision plan assigns a height to every cell of the grid.
pub proof fn lemma_plan_covers_grid(size: int, r: int, c: int)
    requires
        subdivision_size(size),
        0 <= r < size,
        0 <= c < size,
    ensures
        assigns(plan_of(size), cell_at(r, c)),
{
    let corners = seq![
        corner_update(0, 0),
        corner_update(0, size - 1),
        corner_update(size - 1, 0),
        corner_update(size - 1, size - 1),
    ];
    let passes = passes_plan(size, (size - 1) / 2, 0);
    assert(plan_of(size) == corners + passes);
    if (r == 0 || r == size - 1) && (c == 0 || c == size - 1) {
        let k: int = if r == 0 {
            if c == 0 {
                0
            } else {
                1
            }
        } else if c == 0 {
            2
        } else {
            3
        };
        assert(corners[k].target == cell_at(r, c));
        lemma_assigns_left(corners, passes, cell_at(r, c));
    } else {
        let n = size - 1;
        assert(n >= 2);
        let step = n / 2;
        assert(2 * step * 1 == n);
        if r % n == 0 && c % n == 0 {
            if r < n {
                vstd::arithmetic::div_mod::lemma_small_mod(r as nat, n as nat);
            }
            if c < n {
                vstd::arithmetic::div_mod::lemma_small_mod(c as nat, n as nat);
            }
        }
        lemma_passes_assign(size, step, 1, 0, r, c);
        lemma_assigns_right(corners, passes, cell_at(r, c));
    }
}

} // verus!
