//! Binning of atom positions into a uniform grid of fixed-capacity cells.
use vstd::prelude::*;
use vstd::arithmetic::div_mod::lemma_fundamental_div_mod;
use crate::atom::Vec2;

verus! {

/// How many atom indices one cell can hold.
pub const MAX_INDICES: usize = 16;

/// The largest number of cells along one side of a grid, so that the cell
/// count fits in `u32`.
pub const MAX_CELLS_PER_SIDE: u64 = 65535;

/// The largest number of atoms a grid can index: cells store `i32` indices.
pub const MAX_ATOMS: usize = 2147483647;

/// One cell of the grid, in the layout that the compute kernels read.
#[derive(Clone, Copy, Debug, PartialEq, Eq)]
pub struct HashGridCell {
    /// How many of `indices` are in use; never more than `MAX_INDICES`.
    pub count: i32,
    /// The indices of the atoms stored in this cell, in input order; the
    /// unused slots hold 0.
    pub indices: [i32; MAX_INDICES],
}

impl HashGridCell {
    /// The atom indices this cell stores.
    pub open spec fn entries(self) -> Seq<int> {
        Seq::new(self.count as nat, |j: int| self.indices[j] as int)
    }

    pub fn empty() -> (r: HashGridCell)
        ensures
            r.count == 0,
            forall|j: int| 0 <= j < MAX_INDICES ==> r.indices[j] == 0,
    {
        HashGridCell { count: 0, indices: [0i32; MAX_INDICES] }
    }
}

/// Why a grid, or a simulation over it, could not be set up.
#[derive(Clone, Copy, Debug, PartialEq, Eq, Structural)]
pub enum SetupError {
    /// The domain side or the cell side is not positive.
    InvalidSize,
    /// The grid would have more than `MAX_CELLS_PER_SIDE` cells along a side.
    TooManyCells,
    /// There are more than `MAX_ATOMS` atoms.
    TooManyAtoms,
    /// This atom, the first in input order, lies outside `[0, domain)` on
    /// some axis.
    OutOfDomain { atom: usize },
    /// The atom mass is not positive.
    InvalidMass,
}

/// The binned grid: for each cell, the indices of the atoms in it.
pub struct CellTable {
    /// `ceil(domain / cell)`.
    pub cells_per_side: u32,
    /// The cells, row by row: cell `(cx, cy)` is `cells[cy * cells_per_side + cx]`.
    pub cells: Vec<HashGridCell>,
    /// The cell of each atom, in input order, whether or not the cell had
    /// room for it.
    pub membership: Vec<u32>,
    /// How many atoms found their cell full and were left out of it.
    pub overflow: usize,
}

/// `ceil(a / b)` for positive `b`.
pub open spec fn ceil_div(a: int, b: int) -> int {
    (a + b - 1) / b
}

pub open spec fn in_domain(p: Vec2, domain: int) -> bool {
    0 <= p.x < domain && 0 <= p.y < domain
}

pub open spec fn all_in_domain(ps: Seq<Vec2>, domain: int, n: int) -> bool {
    forall|i: int| 0 <= i < n ==> in_domain(#[trigger] ps[i], domain)
}

/// The cell that contains position `p`.
pub open spec fn cell_id(p: Vec2, cell: int, cells_per_side: int) -> int {
    (p.y as int / cell) * cells_per_side + p.x as int / cell
}

pub open spec fn cell_ids(ps: Seq<Vec2>, cell: int, cells_per_side: int) -> Seq<int> {
    Seq::new(ps.len(), |i: int| cell_id(ps[i], cell, cells_per_side))
}

/// The indices `i` with `ids[i] == k`, in increasing order.
pub open spec fn members(ids: Seq<int>, k: int) -> Seq<int>
    decreases ids.len(),
{
    if ids.len() == 0 {
        Seq::empty()
    } else {
        let before = members(ids.drop_last(), k);
        if ids.last() == k {
            before.push(ids.len() - 1)
        } else {
            before
        }
    }
}

/// How many atoms find `MAX_INDICES` atoms already in their cell.
pub open spec fn dropped(ids: Seq<int>) -> nat
    decreases ids.len(),
{
    if ids.len() == 0 {
        0
    } else {
        let prefix = ids.drop_last();
        dropped(prefix) + if members(prefix, ids.last()).len() >= MAX_INDICES {
            1nat
        } else {
            0nat
        }
    }
}

/// `c` stores the first `MAX_INDICES` of the atoms `m`, and zeros after them.
pub open spec fn cell_holds(c: HashGridCell, m: Seq<int>) -> bool {
    &&& c.count == if m.len() < MAX_INDICES {
        m.len() as int
    } else {
        MAX_INDICES as int
    }
    &&& forall|j: int|
        0 <= j < MAX_INDICES ==> #[trigger] c.indices[j] == if j < c.count {
            m[j]
        } else {
            0
        }
}

pub open spec fn sizes_valid(domain: int, cell: int) -> bool {
    domain > 0 && cell > 0 && ceil_div(domain, cell) <= MAX_CELLS_PER_SIDE
}

/// What building a table from positions `ps` gives: an error exactly when
/// a size is not positive, the grid is too large, there are too many atoms
/// or an atom lies outside the domain, checked in that order; otherwise the
/// binned table.
pub open spec fn build_outcome(ps: Seq<Vec2>, domain: int, cell: int, r: Result<CellTable, SetupError>) -> bool {
    match r {
        Ok(t) => {
            &&& sizes_valid(domain, cell)
            &&& ps.len() <= MAX_ATOMS
            &&& all_in_domain(ps, domain, ps.len() as int)
            &&& t.binned(ps, domain, cell)
            &&& t.wf(ps.len() as int)
        },
        Err(SetupError::InvalidSize) => domain <= 0 || cell <= 0,
        Err(SetupError::TooManyCells) => {
            &&& domain > 0
            &&& cell > 0
            &&& ceil_div(domain, cell) > MAX_CELLS_PER_SIDE
        },
        Err(SetupError::TooManyAtoms) => sizes_valid(domain, cell) && ps.len() > MAX_ATOMS,
        Err(SetupError::OutOfDomain { atom }) => {
            &&& sizes_valid(domain, cell)
            &&& ps.len() <= MAX_ATOMS
            &&& atom < ps.len()
            &&& !in_domain(ps[atom as int], domain)
            &&& all_in_domain(ps, domain, atom as int)
        },
        Err(SetupError::InvalidMass) => false,
    }
}

impl CellTable {
    pub open spec fn cell_count(self) -> int {
        self.cells_per_side * self.cells_per_side
    }

    /// The table holds the atoms at positions `ps` binned with the given sizes.
    pub open spec fn binned(self, ps: Seq<Vec2>, domain: int, cell: int) -> bool {
        let cps = ceil_div(domain, cell);
        let ids = cell_ids(ps, cell, cps);
        &&& self.cells_per_side == cps
        &&& self.cells@.len() == self.cell_count()
        &&& self.membership@.len() == ps.len()
        &&& forall|i: int| 0 <= i < ps.len() ==> self.membership@[i] == #[trigger] ids[i]
        &&& forall|k: int|
            0 <= k < self.cell_count() ==> cell_holds(#[trigger] self.cells@[k], members(ids, k))
        &&& self.overflow == dropped(ids)
    }

    /// The table is a grid over `n` atoms that the kernels can read.
    pub open spec fn wf(self, n: int) -> bool {
        &&& 1 <= self.cells_per_side <= MAX_CELLS_PER_SIDE
        &&& self.cells@.len() == self.cell_count()
        &&& self.membership@.len() == n
        &&& forall|i: int| 0 <= i < n ==> #[trigger] self.membership@[i] < self.cell_count()
        &&& forall|k: int|
            0 <= k < self.cell_count() ==> {
                let c = #[trigger] self.cells@[k];
                &&& 0 <= c.count <= MAX_INDICES
                &&& forall|j: int| 0 <= j < c.count ==> 0 <= #[trigger] c.indices[j] < n
            }
    }

    /// The largest count of any cell, 0 for a table without cells.
    pub fn max_count(&self) -> (r: i32)
        ensures
            forall|k: int| 0 <= k < self.cells@.len() ==> (#[trigger] self.cells@[k]).count <= r,
            self.cells@.len() == 0 ==> r == 0,
            self.cells@.len() > 0 ==> exists|k: int| 0 <= k < self.cells@.len() && (#[trigger] self.cells@[k]).count == r,
    {
        let n = self.cells.len();
        if n == 0 {
            return 0;
        }
        let mut best: i32 = self.cells[0].count;
        let mut k: usize = 1;
        while k < n
            invariant
                n == self.cells@.len(),
                1 <= k <= n,
                forall|q: int| 0 <= q < k ==> (#[trigger] self.cells@[q]).count <= best,
                exists|q: int| 0 <= q < k && (#[trigger] self.cells@[q]).count == best,
            decreases n - k,
        {
            if self.cells[k].count > best {
                best = self.cells[k].count;
            }
            k += 1;
        }
        best
    }

    /// Bins the atoms at `positions` into square cells of side `cell` over
    /// the domain `[0, domain)` on both axes. Atom `i` goes to cell
    /// `floor(y / cell) * cells_per_side + floor(x / cell)`, where
    /// `cells_per_side = ceil(domain / cell)`; a cell keeps the first
    /// `MAX_INDICES` atoms in input order, and the others are counted in
    /// `overflow`.
    pub fn build(positions: &Vec<Vec2>, domain: i64, cell: i64) -> (r: Result<CellTable, SetupError>)
        ensures
            build_outcome(positions@, domain as int, cell as int, r),
    {
        if domain <= 0 || cell <= 0 {
            return Err(SetupError::InvalidSize);
        }
        let cps64: u64 = ((domain as u64) + (cell as u64) - 1) / (cell as u64);
        if cps64 > MAX_CELLS_PER_SIDE {
            return Err(SetupError::TooManyCells);
        }
        let n = positions.len();
        if n > MAX_ATOMS {
            return Err(SetupError::TooManyAtoms);
        }
        let mut i: usize = 0;
        while i < n
            invariant
                n == positions@.len(),
                n <= MAX_ATOMS,
                i <= n,
                domain > 0,
                cell > 0,
                cps64 == ceil_div(domain as int, cell as int),
                cps64 <= MAX_CELLS_PER_SIDE,
                all_in_domain(positions@, domain as int, i as int),
            decreases n - i,
        {
            let p = positions[i];
            if !(0 <= p.x && p.x < domain && 0 <= p.y && p.y < domain) {
                return Err(SetupError::OutOfDomain { atom: i });
            }
            i += 1;
        }
        proof {
            lemma_ceil_div_positive(domain as int, cell as int);
            assert(cps64 * cps64 <= MAX_CELLS_PER_SIDE * MAX_CELLS_PER_SIDE) by (nonlinear_arith)
                requires
                    cps64 <= MAX_CELLS_PER_SIDE,
            ;
        }
        let cps: usize = cps64 as usize;
        let n_cells: usize = cps * cps;
        let mut cells: Vec<HashGridCell> = Vec::new();
        while cells.len() < n_cells
            invariant
                cells@.len() <= n_cells,
                forall|k: int|
                    0 <= k < cells@.len() ==> cell_holds(#[trigger] cells@[k], Seq::<int>::empty()),
            decreases n_cells - cells@.len(),
        {
            cells.push(HashGridCell::empty());
        }
        let ghost ids = cell_ids(positions@, cell as int, cps as int);
        let mut membership: Vec<u32> = Vec::new();
        let mut overflow: usize = 0;
        let mut i: usize = 0;
        proof {
            assert(ids.take(0) =~= Seq::<int>::empty());
            assert forall|k: int| 0 <= k < n_cells implies cell_holds(
                #[trigger] cells@[k],
                members(ids.take(0), k),
            ) by {
                assert(members(ids.take(0), k) =~= Seq::<int>::empty());
            }
        }
        while i < n
            invariant
                n == positions@.len(),
                n <= MAX_ATOMS,
                i <= n,
                all_in_domain(positions@, domain as int, n as int),
                domain > 0,
                cell > 0,
                cps == ceil_div(domain as int, cell as int),
                1 <= cps <= MAX_CELLS_PER_SIDE,
                n_cells == cps * cps,
                n_cells <= MAX_CELLS_PER_SIDE * MAX_CELLS_PER_SIDE,
                ids == cell_ids(positions@, cell as int, cps as int),
                cells@.len() == n_cells,
                membership@.len() == i,
                forall|j: int| 0 <= j < i ==> membership@[j] == #[trigger] ids[j],
                forall|j: int| 0 <= j < i ==> #[trigger] membership@[j] < n_cells,
                forall|k: int|
                    0 <= k < n_cells ==> cell_holds(#[trigger] cells@[k], members(ids.take(i as int), k)),
                forall|k: int|
                    0 <= k < n_cells ==> forall|j: int|
                        0 <= j < (#[trigger] cells@[k]).count ==> 0 <= #[trigger] cells@[k].indices[j] < i,
                overflow == dropped(ids.take(i as int)),
                overflow <= i,
            decreases n - i,
        {
            let p = positions[i];
            proof {
                assert(in_domain(positions@[i as int], domain as int));
                lemma_coord_below(p.x as int, domain as int, cell as int);
                lemma_coord_below(p.y as int, domain as int, cell as int);
            }
            let cx: u64 = (p.x as u64) / (cell as u64);
            let cy: u64 = (p.y as u64) / (cell as u64);
            proof {
                lemma_cell_index_below(cx as int, cy as int, cps as int);
            }
            let k: usize = (cy as usize) * cps + (cx as usize);
            assert(k == ids[i as int]);
            let ghost prefix = ids.take(i as int);
            let ghost next = ids.take(i + 1);
            proof {
                assert(next.drop_last() =~= prefix);
                assert(next.last() == k);
            }
            let mut c = cells[k];
            if (c.count as usize) < MAX_INDICES {
                c.indices[c.count as usize] = i as i32;
                c.count = c.count + 1;
            } else {
                overflow = overflow + 1;
            }
            cells[k] = c;
            membership.push(k as u32);
            proof {
                assert forall|q: int| 0 <= q < n_cells implies cell_holds(
                    #[trigger] cells@[q],
                    members(next, q),
                ) by {
                    if q == k {
                        assert(members(next, q) == members(prefix, q).push(i as int));
                    } else {
                        assert(members(next, q) == members(prefix, q));
                    }
                }
            }
            i += 1;
        }
        proof {
            assert(ids.take(n as int) =~= ids);
        }
        Ok(CellTable { cells_per_side: cps as u32, cells, membership, overflow })
    }
}

/// `members(ids, k)` lists exactly the indices `i` with `ids[i] == k`.
proof fn lemma_members(ids: Seq<int>, k: int)
    ensures
        forall|m: int|
            0 <= m < members(ids, k).len() ==> {
                let i = #[trigger] members(ids, k)[m];
                0 <= i < ids.len() && ids[i] == k
            },
        forall|i: int| 0 <= i < ids.len() && ids[i] == k ==> #[trigger] members(ids, k).contains(i),
    decreases ids.len(),
{
    if ids.len() > 0 {
        let prefix = ids.drop_last();
        lemma_members(prefix, k);
        let before = members(prefix, k);
        assert forall|i: int| 0 <= i < ids.len() && ids[i] == k implies #[trigger] members(
            ids,
            k,
        ).contains(i) by {
            if i < ids.len() - 1 {
                assert(prefix[i] == ids[i]);
                assert(before.contains(i));
                let m = choose|m: int| 0 <= m < before.len() && before[m] == i;
                if ids.last() == k {
                    assert(members(ids, k)[m] == i);
                } else {
                    assert(members(ids, k)[m] == i);
                }
            } else {
                assert(members(ids, k)[before.len() as int] == i);
            }
        }
    }
}

/// Every atom of an input that lies inside the domain belongs to exactly one
/// of the `cells_per_side^2` cells: the cell that its position falls in
/// counts it among its members, whether or not it had room to store it, and
/// no other cell does.
pub proof fn lemma_each_atom_in_one_cell(ps: Seq<Vec2>, domain: int, cell: int, t: CellTable, i: int)
    requires
        build_outcome(ps, domain, cell, Ok(t)),
        0 <= i < ps.len(),
    ensures
        t.cells@.len() == ceil_div(domain, cell) * ceil_div(domain, cell),
        0 <= t.membership@[i] < t.cell_count(),
        forall|k: int|
            0 <= k < t.cell_count() ==> (#[trigger] members(
                cell_ids(ps, cell, t.cells_per_side as int),
                k,
            ).contains(i) <==> k == t.membership@[i]),
{
    let cps = t.cells_per_side as int;
    let ids = cell_ids(ps, cell, cps);
    assert(t.membership@[i] == ids[i]);
    assert(in_domain(ps[i], domain));
    lemma_coord_below(ps[i].x as int, domain, cell);
    lemma_coord_below(ps[i].y as int, domain, cell);
    lemma_cell_index_below(ps[i].x as int / cell, ps[i].y as int / cell, cps);
    assert forall|k: int| 0 <= k < t.cell_count() implies (#[trigger] members(ids, k).contains(i)
        <==> k == t.membership@[i]) by {
        lemma_members(ids, k);
        if members(ids, k).contains(i) {
            let m = choose|m: int| 0 <= m < members(ids, k).len() && members(ids, k)[m] == i;
            assert(ids[members(ids, k)[m]] == k);
        }
    }
}

proof fn lemma_ceil_div_positive(domain: int, cell: int)
    requires
        domain > 0,
        cell > 0,
    ensures
        ceil_div(domain, cell) >= 1,
{
    assert((domain + cell - 1) / cell >= 1) by (nonlinear_arith)
        requires
            domain > 0,
            cell > 0,
    {
        lemma_fundamental_div_mod(domain + cell - 1, cell);
    }
}

/// A coordinate in `[0, domain)` falls in one of the first
/// `ceil(domain / cell)` cells.
proof fn lemma_coord_below(x: int, domain: int, cell: int)
    requires
        0 <= x < domain,
        cell > 0,
    ensures
        0 <= x / cell < ceil_div(domain, cell),
{
    lemma_fundamental_div_mod(x, cell);
    lemma_fundamental_div_mod(domain + cell - 1, cell);
    let q = x / cell;
    let cps = ceil_div(domain, cell);
    assert(0 <= q < cps) by (nonlinear_arith)
        requires
            x == cell * q + x % cell,
            0 <= x % cell < cell,
            domain + cell - 1 == cell * cps + (domain + cell - 1) % cell,
            0 <= (domain + cell - 1) % cell < cell,
            0 <= x < domain,
            cell > 0,
    ;
}

pub(crate) proof fn lemma_cell_index_below(cx: int, cy: int, cps: int)
    requires
        0 <= cx < cps,
        0 <= cy < cps,
    ensures
        0 <= cy * cps + cx < cps * cps,
{
    assert(0 <= cy * cps + cx < cps * cps) by (nonlinear_arith)
        requires
            0 <= cx < cps,
            0 <= cy < cps,
    ;
}

} // verus!
