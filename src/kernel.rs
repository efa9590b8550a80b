//! The two passes of a tick: interaction, which sets every atom's force from
//! its neighbours in the grid, and integration, which advances velocity and
//! position by one explicit Euler step.
use vstd::prelude::*;
use vstd::arithmetic::div_mod::lemma_fundamental_div_mod;
use crate::atom::{Atom, Vec2, DELTA_T, UNIT, trunc_div, saturate, trunc_div_i128, saturate_i128};
use crate::force::ForceLaw;
use crate::grid::{CellTable, HashGridCell, MAX_INDICES, MAX_CELLS_PER_SIDE, lemma_cell_index_below};

verus! {

/// The cells whose atoms act on an atom: the 3x3 block around its own cell.
pub const NEIGHBORHOOD: usize = 9;

/// A bound on the size of any `i64`.
pub open spec fn i64_span() -> int {
    0x8000_0000_0000_0000int
}

pub open spec fn add_pair(p: (int, int), q: (int, int)) -> (int, int) {
    (p.0 + q.0, p.1 + q.1)
}

/// The summed force on atom `i` from the atoms `entries`, itself excepted.
pub open spec fn pull_from<L: ForceLaw>(law: L, atoms: Seq<Atom>, entries: Seq<int>, i: int) -> (int, int)
    decreases entries.len(),
{
    if entries.len() == 0 {
        (0, 0)
    } else {
        let before = pull_from(law, atoms, entries.drop_last(), i);
        let j = entries.last();
        if j == i {
            before
        } else {
            add_pair(before, law.pair_force(atoms[i].position, atoms[j].position))
        }
    }
}

/// Whether cell `t` (counted row by row) of the 3x3 block centred on cell
/// `k` lies inside a grid of `cps` cells per side.
pub open spec fn neighbor_in_grid(cps: int, k: int, t: int) -> bool {
    let nx = k % cps + t % 3 - 1;
    let ny = k / cps + t / 3 - 1;
    0 <= nx < cps && 0 <= ny < cps
}

/// The index of cell `t` of the 3x3 block centred on cell `k`.
pub open spec fn neighbor_cell(cps: int, k: int, t: int) -> int {
    (k / cps + t / 3 - 1) * cps + (k % cps + t % 3 - 1)
}

/// The summed force on atom `i` from the atoms stored in the first `t`
/// cells of the block around cell `k`.
pub open spec fn block_pull<L: ForceLaw>(
    law: L,
    table: CellTable,
    atoms: Seq<Atom>,
    k: int,
    i: int,
    t: int,
) -> (int, int)
    decreases t,
{
    if t <= 0 {
        (0, 0)
    } else {
        let before = block_pull(law, table, atoms, k, i, t - 1);
        let cps = table.cells_per_side as int;
        if neighbor_in_grid(cps, k, t - 1) {
            add_pair(
                before,
                pull_from(law, atoms, table.cells@[neighbor_cell(cps, k, t - 1)].entries(), i),
            )
        } else {
            before
        }
    }
}

/// Atom `i` has a place in its cell: it was not left out by overflow.
pub open spec fn is_stored(table: CellTable, i: int) -> bool {
    table.cells@[table.membership@[i] as int].entries().contains(i)
}

/// The force that the interaction pass gives atom `i`: the sum of the pair
/// forces from the atoms stored in the block around its cell, clamped to
/// `i64`; zero for an atom left out of its cell.
pub open spec fn net_force<L: ForceLaw>(law: L, table: CellTable, atoms: Seq<Atom>, i: int) -> Vec2 {
    if is_stored(table, i) {
        let f = block_pull(law, table, atoms, table.membership@[i] as int, i, NEIGHBORHOOD as int);
        Vec2 { x: saturate(f.0) as i64, y: saturate(f.1) as i64 }
    } else {
        Vec2 { x: 0, y: 0 }
    }
}

/// Atom `a` after one explicit Euler step under force `f`:
/// `v' = v + f * DELTA_T / mass`, then `p' = p + v' * DELTA_T`, each
/// rounded toward zero and clamped to `i64`.
pub open spec fn advance_atom(a: Atom, f: Vec2, mass: int) -> Atom {
    let v = Vec2 {
        x: saturate(a.velocity.x + trunc_div(f.x * DELTA_T, mass)) as i64,
        y: saturate(a.velocity.y + trunc_div(f.y * DELTA_T, mass)) as i64,
    };
    let p = Vec2 {
        x: saturate(a.position.x + trunc_div(v.x * DELTA_T, UNIT as int)) as i64,
        y: saturate(a.position.y + trunc_div(v.y * DELTA_T, UNIT as int)) as i64,
    };
    Atom { position: p, velocity: v, force: f, visual: a.visual }
}

/// The atoms after one tick from `atoms`.
pub open spec fn tick_result<L: ForceLaw>(law: L, table: CellTable, mass: int, atoms: Seq<Atom>) -> Seq<Atom> {
    Seq::new(atoms.len(), |i: int| advance_atom(atoms[i], net_force(law, table, atoms, i), mass))
}

pub open spec fn cell_readable(c: HashGridCell, n: int) -> bool {
    &&& 0 <= c.count <= MAX_INDICES
    &&& forall|j: int| 0 <= j < c.count ==> 0 <= #[trigger] c.indices[j] < n
}

/// The summed force on atom `i` from the atoms of cell `c`.
fn pull_from_cell<L: ForceLaw>(law: &L, atoms: &Vec<Atom>, c: &HashGridCell, i: usize) -> (r: (i128, i128))
    requires
        cell_readable(*c, atoms@.len() as int),
        i < atoms@.len(),
    ensures
        r.0 == pull_from(*law, atoms@, c.entries(), i as int).0,
        r.1 == pull_from(*law, atoms@, c.entries(), i as int).1,
        -(MAX_INDICES * i64_span()) <= r.0 <= MAX_INDICES * i64_span(),
        -(MAX_INDICES * i64_span()) <= r.1 <= MAX_INDICES * i64_span(),
{
    let count = c.count as usize;
    let mut ax: i128 = 0;
    let mut ay: i128 = 0;
    let mut e: usize = 0;
    while e < count
        invariant
            count == c.count,
            cell_readable(*c, atoms@.len() as int),
            i < atoms@.len(),
            e <= count,
            ax == pull_from(*law, atoms@, c.entries().take(e as int), i as int).0,
            ay == pull_from(*law, atoms@, c.entries().take(e as int), i as int).1,
            -(e * i64_span()) <= ax <= e * i64_span(),
            -(e * i64_span()) <= ay <= e * i64_span(),
        decreases count - e,
    {
        let j = c.indices[e];
        proof {
            assert(c.entries().take(e + 1).drop_last() =~= c.entries().take(e as int));
            assert(c.entries().take(e + 1).last() == j);
        }
        if j as usize != i {
            let f = law.force(atoms[i].position, atoms[j as usize].position);
            ax = ax + f.x as i128;
            ay = ay + f.y as i128;
        }
        e += 1;
    }
    proof {
        assert(c.entries().take(count as int) =~= c.entries());
    }
    (ax, ay)
}

/// Whether cell `c` stores atom `i`.
fn cell_stores(c: &HashGridCell, i: usize) -> (r: bool)
    requires
        0 <= c.count <= MAX_INDICES,
    ensures
        r == c.entries().contains(i as int),
{
    let count = c.count as usize;
    let mut e: usize = 0;
    while e < count
        invariant
            count == c.count,
            0 <= c.count <= MAX_INDICES,
            e <= count,
            forall|q: int| 0 <= q < e ==> c.entries()[q] != i,
        decreases count - e,
    {
        if c.indices[e] >= 0 && c.indices[e] as usize == i {
            assert(c.entries()[e as int] == i);
            return true;
        }
        e += 1;
    }
    false
}

/// The summed force on atom `i` from the block around cell `k`.
fn block_pull_of<L: ForceLaw>(law: &L, table: &CellTable, atoms: &Vec<Atom>, k: usize, i: usize) -> (r: (i128, i128))
    requires
        table.wf(atoms@.len() as int),
        k < table.cell_count(),
        i < atoms@.len(),
    ensures
        r.0 == block_pull(*law, *table, atoms@, k as int, i as int, NEIGHBORHOOD as int).0,
        r.1 == block_pull(*law, *table, atoms@, k as int, i as int, NEIGHBORHOOD as int).1,
        -(NEIGHBORHOOD * MAX_INDICES * i64_span()) <= r.0 <= NEIGHBORHOOD * MAX_INDICES * i64_span(),
        -(NEIGHBORHOOD * MAX_INDICES * i64_span()) <= r.1 <= NEIGHBORHOOD * MAX_INDICES * i64_span(),
{
    let cps = table.cells_per_side as usize;
    let kx = k % cps;
    let ky = k / cps;
    proof {
        lemma_fundamental_div_mod(k as int, cps as int);
        assert(ky < cps) by (nonlinear_arith)
            requires
                k == cps * ky + kx,
                0 <= kx,
                k < cps * cps,
                cps >= 1,
        ;
    }
    let mut ax: i128 = 0;
    let mut ay: i128 = 0;
    let mut t: usize = 0;
    while t < NEIGHBORHOOD
        invariant
            table.wf(atoms@.len() as int),
            cps == table.cells_per_side,
            k < table.cell_count(),
            kx == k as int % cps as int,
            ky == k as int / cps as int,
            kx < cps,
            ky < cps,
            i < atoms@.len(),
            t <= NEIGHBORHOOD,
            ax == block_pull(*law, *table, atoms@, k as int, i as int, t as int).0,
            ay == block_pull(*law, *table, atoms@, k as int, i as int, t as int).1,
            -(t * MAX_INDICES * i64_span()) <= ax <= t * MAX_INDICES * i64_span(),
            -(t * MAX_INDICES * i64_span()) <= ay <= t * MAX_INDICES * i64_span(),
        decreases NEIGHBORHOOD - t,
    {
        let nx: i64 = kx as i64 + (t % 3) as i64 - 1;
        let ny: i64 = ky as i64 + (t / 3) as i64 - 1;
        if 0 <= nx && nx < cps as i64 && 0 <= ny && ny < cps as i64 {
            proof {
                lemma_cell_index_below(nx as int, ny as int, cps as int);
                assert(cps * cps <= MAX_CELLS_PER_SIDE * MAX_CELLS_PER_SIDE) by (nonlinear_arith)
                    requires
                        cps <= MAX_CELLS_PER_SIDE,
                ;
            }
            let id: usize = (ny as usize) * cps + (nx as usize);
            assert(id == neighbor_cell(cps as int, k as int, t as int));
            let p = pull_from_cell(law, atoms, &table.cells[id], i);
            ax = ax + p.0;
            ay = ay + p.1;
        }
        t += 1;
    }
    (ax, ay)
}

/// The force that the interaction pass gives atom `i`.
fn force_on<L: ForceLaw>(law: &L, table: &CellTable, atoms: &Vec<Atom>, i: usize) -> (r: Vec2)
    requires
        table.wf(atoms@.len() as int),
        i < atoms@.len(),
    ensures
        r == net_force(*law, *table, atoms@, i as int),
{
    let k = table.membership[i] as usize;
    if !cell_stores(&table.cells[k], i) {
        return Vec2 { x: 0, y: 0 };
    }
    let f = block_pull_of(law, table, atoms, k, i);
    Vec2 { x: saturate_i128(f.0), y: saturate_i128(f.1) }
}

/// The interaction pass: sets the force of every atom of `write` from the
/// positions in `read`, and leaves every other field of `write` as it was.
pub fn interact<L: ForceLaw>(law: &L, table: &CellTable, read: &Vec<Atom>, write: &mut Vec<Atom>)
    requires
        table.wf(read@.len() as int),
        old(write)@.len() == read@.len(),
    ensures
        final(write)@.len() == read@.len(),
        forall|i: int|
            0 <= i < read@.len() ==> #[trigger] final(write)@[i] == (Atom {
                force: net_force(*law, *table, read@, i),
                ..old(write)@[i]
            }),
{
    let n = read.len();
    let mut i: usize = 0;
    while i < n
        invariant
            n == read@.len(),
            table.wf(n as int),
            write@.len() == n,
            i <= n,
            forall|q: int|
                0 <= q < i ==> #[trigger] write@[q] == (Atom {
                    force: net_force(*law, *table, read@, q),
                    ..old(write)@[q]
                }),
            forall|q: int| i <= q < n ==> #[trigger] write@[q] == old(write)@[q],
        decreases n - i,
    {
        let f = force_on(law, table, read, i);
        let mut a = write[i];
        a.force = f;
        write[i] = a;
        i += 1;
    }
}

proof fn lemma_trunc_div_bound(a: int, b: int)
    requires
        b >= 1,
    ensures
        -(if a >= 0 { a } else { -a }) <= trunc_div(a, b) <= (if a >= 0 { a } else { -a }),
{
    let aa = if a >= 0 { a } else { -a };
    lemma_fundamental_div_mod(aa, b);
    assert(0 <= aa / b <= aa) by (nonlinear_arith)
        requires
            aa == b * (aa / b) + aa % b,
            0 <= aa % b < b,
            aa >= 0,
            b >= 1,
    ;
}

/// Atom `a` after one Euler step under force `f`.
fn advance(a: Atom, f: Vec2, mass: i64) -> (r: Atom)
    requires
        mass > 0,
    ensures
        r == advance_atom(a, f, mass as int),
{
    let dt = DELTA_T as i128;
    proof {
        lemma_trunc_div_bound(f.x * DELTA_T, mass as int);
        lemma_trunc_div_bound(f.y * DELTA_T, mass as int);
    }
    let vx = saturate_i128(a.velocity.x as i128 + trunc_div_i128(f.x as i128 * dt, mass as i128));
    let vy = saturate_i128(a.velocity.y as i128 + trunc_div_i128(f.y as i128 * dt, mass as i128));
    proof {
        lemma_trunc_div_bound(vx * DELTA_T, UNIT as int);
        lemma_trunc_div_bound(vy * DELTA_T, UNIT as int);
    }
    let px = saturate_i128(a.position.x as i128 + trunc_div_i128(vx as i128 * dt, UNIT as i128));
    let py = saturate_i128(a.position.y as i128 + trunc_div_i128(vy as i128 * dt, UNIT as i128));
    Atom { position: Vec2 { x: px, y: py }, velocity: Vec2 { x: vx, y: vy }, force: f, visual: a.visual }
}

/// The integration pass: advances each atom of `read` by one step under
/// the force that `write` holds for it, and stores the result in `write`.
pub fn integrate(read: &Vec<Atom>, write: &mut Vec<Atom>, mass: i64)
    requires
        mass > 0,
        old(write)@.len() == read@.len(),
    ensures
        final(write)@.len() == read@.len(),
        forall|i: int|
            0 <= i < read@.len() ==> #[trigger] final(write)@[i] == advance_atom(
                read@[i],
                old(write)@[i].force,
                mass as int,
            ),
{
    let n = read.len();
    let mut i: usize = 0;
    while i < n
        invariant
            n == read@.len(),
            mass > 0,
            write@.len() == n,
            i <= n,
            forall|q: int|
                0 <= q < i ==> #[trigger] write@[q] == advance_atom(
                    read@[q],
                    old(write)@[q].force,
                    mass as int,
                ),
            forall|q: int| i <= q < n ==> #[trigger] write@[q] == old(write)@[q],
        decreases n - i,
    {
        let a = advance(read[i], write[i].force, mass);
        write[i] = a;
        i += 1;
    }
}

/// One tick from `read` into `write`: the interaction pass, then the
/// integration pass, both reading `read` and writing `write` only.
pub fn tick<L: ForceLaw>(law: &L, table: &CellTable, mass: i64, read: &Vec<Atom>, write: &mut Vec<Atom>)
    requires
        table.wf(read@.len() as int),
        mass > 0,
        old(write)@.len() == read@.len(),
    ensures
        final(write)@ == tick_result(*law, *table, mass as int, read@),
{
    interact(law, table, read, write);
    integrate(read, write, mass);
    assert(write@ =~= tick_result(*law, *table, mass as int, read@));
}

} // verus!
