//! A population of atoms held in two buffers and advanced tick by tick.
use vstd::prelude::*;
use crate::atom::{Atom, Vec2};
use crate::force::ForceLaw;
use crate::grid::{CellTable, SetupError, build_outcome};
use crate::kernel::{tick, tick_result, pull_from, block_pull, net_force, NEIGHBORHOOD};
use crate::tick::{Phase, Slot, TickOrchestrator};

verus! {

pub open spec fn positions_of(atoms: Seq<Atom>) -> Seq<Vec2> {
    Seq::new(atoms.len(), |i: int| atoms[i].position)
}

/// The atoms after `n` ticks from `atoms`.
pub open spec fn run<L: ForceLaw>(law: L, table: CellTable, mass: int, atoms: Seq<Atom>, n: nat) -> Seq<Atom>
    decreases n,
{
    if n == 0 {
        atoms
    } else {
        tick_result(law, table, mass, run(law, table, mass, atoms, (n - 1) as nat))
    }
}

/// Atoms binned once, at construction, into a grid, and advanced by ticks
/// that each read one buffer and write the other.
///
/// The grid is not rebuilt as atoms move: every atom keeps the cell it was
/// binned into, and interacts with the atoms stored in the block around
/// that cell.
pub struct Simulation<L: ForceLaw> {
    law: L,
    mass: i64,
    table: CellTable,
    buffer_a: Vec<Atom>,
    buffer_b: Vec<Atom>,
    ticks: TickOrchestrator,
}

impl<L: ForceLaw> Simulation<L> {
    /// The buffers have the table's atom count, the mass is positive and no
    /// tick is under way.
    pub closed spec fn wf(self) -> bool {
        &&& self.mass > 0
        &&& self.table.wf(self.buffer_a@.len() as int)
        &&& self.buffer_b@.len() == self.buffer_a@.len()
        &&& self.ticks.phase == Phase::Idle
        &&& self.ticks.cells_per_side == self.table.cells_per_side
    }

    pub closed spec fn spec_law(self) -> L {
        self.law
    }

    pub closed spec fn spec_mass(self) -> int {
        self.mass as int
    }

    pub closed spec fn spec_table(self) -> CellTable {
        self.table
    }

    /// The buffer that holds the latest complete state.
    pub closed spec fn spec_slot(self) -> Slot {
        self.ticks.current
    }

    pub closed spec fn spec_buffer(self, s: Slot) -> Seq<Atom> {
        match s {
            Slot::A => self.buffer_a@,
            Slot::B => self.buffer_b@,
        }
    }

    pub open spec fn spec_current(self) -> Seq<Atom> {
        self.spec_buffer(self.spec_slot())
    }

    pub open spec fn spec_previous(self) -> Seq<Atom> {
        self.spec_buffer(self.spec_slot().spec_other())
    }

    /// Bins `atoms` into a grid of cells of side `cell` over `[0, domain)`
    /// and fills both buffers with them. Fails with `InvalidMass` when
    /// `mass` is not positive, else exactly as the grid build does.
    pub fn new(law: L, atoms: Vec<Atom>, domain: i64, cell: i64, mass: i64) -> (r: Result<Self, SetupError>)
        ensures
            mass <= 0 ==> r == Err::<Self, SetupError>(SetupError::InvalidMass),
            mass > 0 ==> match r {
                Ok(s) => {
                    &&& s.wf()
                    &&& build_outcome(positions_of(atoms@), domain as int, cell as int, Ok(s.spec_table()))
                    &&& s.spec_law() == law
                    &&& s.spec_mass() == mass
                    &&& s.spec_slot() == Slot::A
                    &&& s.spec_current() == atoms@
                    &&& s.spec_previous() == atoms@
                },
                Err(e) => build_outcome(positions_of(atoms@), domain as int, cell as int, Err(e)),
            },
    {
        if mass <= 0 {
            return Err(SetupError::InvalidMass);
        }
        let mut positions: Vec<Vec2> = Vec::new();
        let mut i: usize = 0;
        while i < atoms.len()
            invariant
                i <= atoms@.len(),
                positions@ == positions_of(atoms@).take(i as int),
            decreases atoms@.len() - i,
        {
            positions.push(atoms[i].position);
            i += 1;
            assert(positions@ =~= positions_of(atoms@).take(i as int));
        }
        assert(positions@ =~= positions_of(atoms@));
        let table = match CellTable::build(&positions, domain, cell) {
            Ok(t) => t,
            Err(e) => {
                return Err(e);
            },
        };
        let ticks = TickOrchestrator::new(table.cells_per_side);
        let buffer_b = atoms.clone();
        assert(buffer_b@ =~= atoms@);
        Ok(Simulation { law, mass, table, buffer_a: atoms, buffer_b, ticks })
    }

    /// One tick: reads the current buffer, writes the other one, and makes
    /// it current.
    pub fn advance(&mut self)
        requires
            old(self).wf(),
        ensures
            final(self).wf(),
            final(self).spec_current() == tick_result(
                old(self).spec_law(),
                old(self).spec_table(),
                old(self).spec_mass(),
                old(self).spec_current(),
            ),
            final(self).spec_previous() == old(self).spec_current(),
            final(self).spec_slot() == old(self).spec_slot().spec_other(),
            final(self).spec_law() == old(self).spec_law(),
            final(self).spec_table() == old(self).spec_table(),
            final(self).spec_mass() == old(self).spec_mass(),
    {
        let plan = self.ticks.begin_tick();
        match plan {
            Some(p) => {
                match p.write {
                    Slot::B => tick(&self.law, &self.table, self.mass, &self.buffer_a, &mut self.buffer_b),
                    Slot::A => tick(&self.law, &self.table, self.mass, &self.buffer_b, &mut self.buffer_a),
                }
            },
            None => {},
        }
        self.ticks.finish_tick();
    }

    /// The latest complete state.
    pub fn current(&self) -> (r: &Vec<Atom>)
        ensures
            r@ == self.spec_current(),
    {
        match self.ticks.current {
            Slot::A => &self.buffer_a,
            Slot::B => &self.buffer_b,
        }
    }

    /// Which buffer holds the latest complete state.
    pub fn current_slot(&self) -> (r: Slot)
        ensures
            r == self.spec_slot(),
    {
        self.ticks.current
    }

    pub fn table(&self) -> (r: &CellTable)
        ensures
            *r == self.spec_table(),
    {
        &self.table
    }
}

proof fn lemma_pull_from_zero<L: ForceLaw>(law: L, atoms: Seq<Atom>, entries: Seq<int>, i: int)
    requires
        forall|a: Vec2, b: Vec2| #[trigger] law.pair_force(a, b) == (0int, 0int),
    ensures
        pull_from(law, atoms, entries, i) == (0int, 0int),
    decreases entries.len(),
{
    if entries.len() > 0 {
        lemma_pull_from_zero(law, atoms, entries.drop_last(), i);
    }
}

proof fn lemma_block_pull_zero<L: ForceLaw>(law: L, table: CellTable, atoms: Seq<Atom>, k: int, i: int, t: int)
    requires
        forall|a: Vec2, b: Vec2| #[trigger] law.pair_force(a, b) == (0int, 0int),
    ensures
        block_pull(law, table, atoms, k, i, t) == (0int, 0int),
    decreases t,
{
    if t > 0 {
        lemma_block_pull_zero(law, table, atoms, k, i, t - 1);
        let cps = table.cells_per_side as int;
        lemma_pull_from_zero(law, atoms, table.cells@[crate::kernel::neighbor_cell(cps, k, t - 1)].entries(), i);
    }
}

/// Under a force law that exerts no force at all, atoms at rest keep their
/// positions and stay at rest, for any number of ticks.
pub proof fn lemma_rest_is_kept<L: ForceLaw>(law: L, table: CellTable, mass: int, atoms: Seq<Atom>, n: nat)
    requires
        forall|a: Vec2, b: Vec2| #[trigger] law.pair_force(a, b) == (0int, 0int),
        mass > 0,
        forall|i: int| 0 <= i < atoms.len() ==> (#[trigger] atoms[i]).velocity == (Vec2 { x: 0, y: 0 }),
    ensures
        run(law, table, mass, atoms, n).len() == atoms.len(),
        forall|i: int|
            0 <= i < atoms.len() ==> (#[trigger] run(law, table, mass, atoms, n)[i]).position == atoms[i].position,
        forall|i: int|
            0 <= i < atoms.len() ==> (#[trigger] run(law, table, mass, atoms, n)[i]).velocity == atoms[i].velocity,
    decreases n,
{
    if n > 0 {
        let m = (n - 1) as nat;
        lemma_rest_is_kept(law, table, mass, atoms, m);
        let before = run(law, table, mass, atoms, m);
        assert forall|i: int| 0 <= i < atoms.len() implies (#[trigger] run(law, table, mass, atoms, n)[i]).position
            == atoms[i].position && run(law, table, mass, atoms, n)[i].velocity == atoms[i].velocity by {
            assert(before[i].position == atoms[i].position);
            assert(before[i].velocity == atoms[i].velocity);
            lemma_block_pull_zero(law, table, before, table.membership@[i] as int, i, NEIGHBORHOOD as int);
            assert(net_force(law, table, before, i) == Vec2 { x: 0, y: 0 });
            assert(0int / mass == 0);
            assert(0int / (crate::atom::UNIT as int) == 0);
        }
    }
}

} // verus!
