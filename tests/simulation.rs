use atomsim::atom::{Atom, Vec2, DELTA_T, UNIT};
use atomsim::force::{ConstantAttraction, ForceLaw};
use atomsim::grid::SetupError;
use atomsim::mesh::disc_indices;
use atomsim::simulation::Simulation;
use atomsim::tick::{DispatchPlan, Phase, Slot, TickOrchestrator};

fn at_rest(x: i64, y: i64) -> Atom {
    Atom::new(Vec2::new(x, y), Vec2::zeros(), Vec2::zeros())
}

#[test]
fn atom_new_starts_with_zero_visual() {
    let a = Atom::new(Vec2::new(1, 2), Vec2::new(3, 4), Vec2::new(5, 6));
    assert_eq!(a.position, Vec2::new(1, 2));
    assert_eq!(a.velocity, Vec2::new(3, 4));
    assert_eq!(a.force, Vec2::new(5, 6));
    assert_eq!(a.visual, 0);
}

#[test]
fn unit_pull_between_two_atoms_in_one_cell() {
    let atoms = vec![at_rest(UNIT, UNIT), at_rest(UNIT, 1_200_000_000_000)];
    let law = ConstantAttraction::new(UNIT, 2 * UNIT);
    let mut sim = Simulation::new(law, atoms, 100 * UNIT, 2 * UNIT, UNIT).unwrap();
    sim.advance();
    let now = sim.current();
    // atom 0 is pulled toward atom 1 with a unit force
    assert_eq!(now[0].force, Vec2::new(0, UNIT));
    assert_eq!(now[0].velocity, Vec2::new(0, 1_000_000));
    assert_eq!(now[0].position, Vec2::new(UNIT, UNIT + 1));
    // atom 1 receives the opposite force
    assert_eq!(now[1].force, Vec2::new(0, -UNIT));
    assert_eq!(now[1].velocity, Vec2::new(0, -1_000_000));
    assert_eq!(now[1].position, Vec2::new(UNIT, 1_200_000_000_000 - 1));
    assert_eq!(DELTA_T, 1_000_000);
}

#[test]
fn no_force_keeps_resting_atoms_in_place() {
    let atoms: Vec<Atom> = (0..50).map(|i| at_rest((i % 10) * UNIT + 7, (i / 10) * UNIT + 3)).collect();
    let law = ConstantAttraction::new(0, 3 * UNIT);
    let mut sim = Simulation::new(law, atoms.clone(), 10 * UNIT, UNIT, UNIT).unwrap();
    for (a, b) in sim.current().iter().zip(atoms.iter()) {
        assert_eq!(a.position, b.position);
    }
    for _ in 0..6 {
        sim.advance();
        for (a, b) in sim.current().iter().zip(atoms.iter()) {
            assert_eq!(a.position, b.position);
            assert_eq!(a.velocity, Vec2::zeros());
        }
    }
}

#[test]
fn moving_atom_drifts_by_velocity_times_step() {
    let a = Atom::new(Vec2::new(5 * UNIT, 5 * UNIT), Vec2::new(UNIT, -2 * UNIT), Vec2::zeros());
    let law = ConstantAttraction::new(0, UNIT);
    let mut sim = Simulation::new(law, vec![a], 10 * UNIT, UNIT, UNIT).unwrap();
    sim.advance();
    let b = sim.current()[0];
    assert_eq!(b.velocity, Vec2::new(UNIT, -2 * UNIT));
    assert_eq!(b.position, Vec2::new(5 * UNIT + 1_000_000, 5 * UNIT - 2_000_000));
}

#[test]
fn heavier_atoms_accelerate_less() {
    let atoms = vec![at_rest(UNIT, UNIT), at_rest(UNIT, 1_200_000_000_000)];
    let law = ConstantAttraction::new(UNIT, 2 * UNIT);
    let mut sim = Simulation::new(law, atoms, 100 * UNIT, 2 * UNIT, 4 * UNIT).unwrap();
    sim.advance();
    assert_eq!(sim.current()[0].velocity, Vec2::new(0, 250_000));
    // 250_000 * 10^6 / 10^12 rounds toward zero
    assert_eq!(sim.current()[0].position, Vec2::new(UNIT, UNIT));
    assert_eq!(sim.current()[1].velocity, Vec2::new(0, -250_000));
    assert_eq!(sim.current()[1].position, Vec2::new(UNIT, 1_200_000_000_000));
}

#[test]
fn neighbouring_cells_interact_and_distant_ones_do_not() {
    // cells of side 10 over [0, 100): atoms 0 and 1 sit in adjacent cells,
    // atom 2 two cells further on
    let atoms = vec![at_rest(5, 5), at_rest(15, 5), at_rest(35, 5)];
    let law = ConstantAttraction::new(1000, 1000);
    let mut sim = Simulation::new(law, atoms, 100, 10, UNIT).unwrap();
    sim.advance();
    let now = sim.current();
    assert_eq!(now[0].force, Vec2::new(1000, 0));
    assert_eq!(now[1].force, Vec2::new(-1000, 0));
    assert_eq!(now[2].force, Vec2::new(0, 0));
}

#[test]
fn diagonal_neighbours_interact() {
    let atoms = vec![at_rest(9, 9), at_rest(12, 13)];
    let law = ConstantAttraction::new(10, 100);
    let mut sim = Simulation::new(law, atoms, 100, 10, UNIT).unwrap();
    sim.advance();
    assert_eq!(sim.current()[0].force, Vec2::new(6, 8));
    assert_eq!(sim.current()[1].force, Vec2::new(-6, -8));
}

#[test]
fn forces_beyond_cutoff_vanish() {
    let atoms = vec![at_rest(1, 1), at_rest(1, 8)];
    let law = ConstantAttraction::new(1000, 6);
    let mut sim = Simulation::new(law, atoms, 10, 10, UNIT).unwrap();
    sim.advance();
    assert_eq!(sim.current()[0].force, Vec2::zeros());
    assert_eq!(sim.current()[1].force, Vec2::zeros());
}

#[test]
fn forces_from_several_atoms_add_up() {
    let atoms = vec![at_rest(50, 50), at_rest(53, 54), at_rest(50, 45)];
    let law = ConstantAttraction::new(100, 20);
    let mut sim = Simulation::new(law, atoms, 100, 20, UNIT).unwrap();
    sim.advance();
    // (60, 80) toward atom 1 plus (0, -100) toward atom 2
    assert_eq!(sim.current()[0].force, Vec2::new(60, -20));
}

#[test]
fn atoms_left_out_of_a_full_cell_feel_no_force() {
    let atoms: Vec<Atom> = (0..17).map(|i| at_rest(i, 0)).collect();
    let law = ConstantAttraction::new(5, 100);
    let mut sim = Simulation::new(law, atoms, 100, 50, UNIT).unwrap();
    assert_eq!(sim.table().overflow, 1);
    sim.advance();
    let now = sim.current();
    assert_eq!(now[16].force, Vec2::zeros());
    // atom 0 is pulled by the 15 others that were stored
    assert_eq!(now[0].force, Vec2::new(75, 0));
    assert_eq!(now[15].force, Vec2::new(-75, 0));
}

#[test]
fn repulsion_pushes_apart() {
    let law = ConstantAttraction::new(-10, 100);
    let f = law.force(Vec2::new(0, 0), Vec2::new(3, 4));
    assert_eq!(f, Vec2::new(-6, -8));
    let g = law.force(Vec2::new(3, 4), Vec2::new(0, 0));
    assert_eq!(g, Vec2::new(6, 8));
}

#[test]
fn pair_force_rounds_toward_zero() {
    let law = ConstantAttraction::new(10, 100);
    // distance sqrt(2) counts as 1 after flooring the root
    assert_eq!(law.force(Vec2::new(0, 0), Vec2::new(1, 1)), Vec2::new(10, 10));
    // distance sqrt(10) counts as 3: 10 * 1 / 3 and 10 * 3 / 3
    assert_eq!(law.force(Vec2::new(0, 0), Vec2::new(-1, -3)), Vec2::new(-3, -10));
    assert_eq!(law.force(Vec2::new(2, 2), Vec2::new(2, 2)), Vec2::zeros());
}

#[test]
fn pair_force_with_extreme_positions() {
    let law = ConstantAttraction::new(i64::MAX, i64::MAX);
    assert_eq!(law.force(Vec2::new(i64::MIN, 0), Vec2::new(i64::MAX, 0)), Vec2::zeros());
    assert_eq!(
        law.force(Vec2::new(0, 0), Vec2::new(i64::MAX, 0)),
        Vec2::new(i64::MAX, 0)
    );
}

#[test]
fn large_forces_saturate() {
    let atoms: Vec<Atom> = (0..3).map(|i| at_rest(10 + i, 10)).collect();
    let law = ConstantAttraction::new(i64::MAX - 1, 100);
    let mut sim = Simulation::new(law, atoms, 100, 50, 1).unwrap();
    sim.advance();
    let now = sim.current();
    assert_eq!(now[1].force, Vec2::new(0, 0));
    assert_eq!(now[0].force, Vec2::new(i64::MAX, 0));
    assert_eq!(now[2].force, Vec2::new(i64::MIN, 0));
    assert_eq!(now[0].velocity, Vec2::new(i64::MAX, 0));
    assert_eq!(now[0].position, Vec2::new(10 + (i64::MAX / 1_000_000), 10));
}

#[test]
fn buffers_alternate_each_tick() {
    let atoms = vec![at_rest(1, 1)];
    let law = ConstantAttraction::new(0, 1);
    let mut sim = Simulation::new(law, atoms, 10, 5, 1).unwrap();
    assert_eq!(sim.current_slot(), Slot::A);
    sim.advance();
    assert_eq!(sim.current_slot(), Slot::B);
    sim.advance();
    assert_eq!(sim.current_slot(), Slot::A);
}

#[test]
fn setup_rejects_bad_mass() {
    let law = ConstantAttraction::new(1, 1);
    let r = Simulation::new(law, vec![at_rest(1, 1)], 10, 5, 0);
    assert_eq!(r.err(), Some(SetupError::InvalidMass));
    let law = ConstantAttraction::new(1, 1);
    let r = Simulation::new(law, vec![at_rest(1, 1)], 10, 5, -3);
    assert_eq!(r.err(), Some(SetupError::InvalidMass));
}

#[test]
fn setup_reports_grid_errors() {
    let law = ConstantAttraction::new(1, 1);
    let r = Simulation::new(law, vec![at_rest(1, 1), at_rest(10, 0)], 10, 5, 1);
    assert_eq!(r.err(), Some(SetupError::OutOfDomain { atom: 1 }));
    let law = ConstantAttraction::new(1, 1);
    let r = Simulation::new(law, vec![], 10, -1, 1);
    assert_eq!(r.err(), Some(SetupError::InvalidSize));
}

#[test]
fn orchestrator_runs_one_tick_at_a_time() {
    let mut o = TickOrchestrator::new(7);
    assert_eq!(o.current, Slot::A);
    assert_eq!(o.phase, Phase::Idle);
    let plan = o.begin_tick();
    assert_eq!(
        plan,
        Some(DispatchPlan { read: Slot::A, write: Slot::B, groups: 7, cells_per_side: 7 })
    );
    assert_eq!(o.phase, Phase::Ticking);
    assert_eq!(o.begin_tick(), None);
    assert_eq!(o.current, Slot::A);
    assert!(o.finish_tick());
    assert_eq!(o.current, Slot::B);
    assert_eq!(o.phase, Phase::Idle);
    assert!(!o.finish_tick());
    assert_eq!(o.current, Slot::B);
    let plan = o.begin_tick().unwrap();
    assert_eq!((plan.read, plan.write), (Slot::B, Slot::A));
}

#[test]
fn slot_other_flips() {
    assert_eq!(Slot::A.other(), Slot::B);
    assert_eq!(Slot::B.other(), Slot::A);
}

#[test]
fn disc_indices_form_a_fan() {
    let vertex_count: u16 = 25;
    let expected: Vec<u16> = (2..vertex_count - 1)
        .flat_map(|i| [0, i, i + 1])
        .chain([0, 1, 2])
        .collect();
    assert_eq!(disc_indices(vertex_count), expected);
    assert_eq!(disc_indices(3), vec![0, 1, 2]);
    assert_eq!(disc_indices(4), vec![0, 2, 3, 0, 1, 2]);
}
