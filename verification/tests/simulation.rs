use evo::environment::{Action, Color, MoveAction, Organism, SimError, State};

#[test]
fn test_random_init() {
    for i in 1..10 {
        let mut state = State::new(i, i);
        state.initialize_organisms_random((i * i) - 1).unwrap();
        assert!(state.grid.shape() == (i, i));
        assert!(state.num_organisms() == i * i - 1);
    }
}

#[test]
fn test_random_init_rect() {
    let mut state = State::new(200, 500);
    state.initialize_organisms_random(200).unwrap();
    assert!(state.grid.shape() == (200, 500));
    assert!(state.num_organisms() == 200);
}

#[test]
fn test_random_init_grid_agrees_with_registry() {
    let mut state = State::new(4, 5);
    state.initialize_organisms_random(7).unwrap();
    assert_eq!(state.num_organisms(), 7);
    let mut occupied = 0;
    for r in 0..4 {
        for c in 0..5 {
            if state.grid.is_set((r, c)) {
                occupied += 1;
                let id = state.grid.get((r, c)).value;
                let organism = state.get_organism(id).expect("occupied cell must resolve");
                assert_eq!(organism.position, (r, c));
            }
        }
    }
    assert_eq!(occupied, 7);
}

#[test]
fn test_random_init_full_grid() {
    let mut state = State::new(3, 3);
    state.initialize_organisms_random(9).unwrap();
    assert_eq!(state.num_organisms(), 9);
    for r in 0..3 {
        for c in 0..3 {
            assert!(state.grid.is_set((r, c)));
        }
    }
}

#[test]
fn test_random_init_zero_organisms() {
    let mut state = State::new(2, 2);
    state.initialize_organisms_random(0).unwrap();
    assert_eq!(state.num_organisms(), 0);
}

#[test]
fn test_random_init_capacity_exceeded() {
    let mut state = State::new(2, 3);
    assert_eq!(
        state.initialize_organisms_random(7),
        Err(SimError::CapacityExceeded)
    );
    assert_eq!(state.num_organisms(), 0);
}

#[test]
fn test_reset_after_occupancy() {
    let mut state = State::new(3, 3);
    state.initialize_organisms_random(5).unwrap();
    assert_eq!(state.grid.num_set(), 5);
    state.grid.reset();
    assert_eq!(state.grid.num_set(), 0);
}

#[test]
fn test_assign_id_starts_at_two() {
    let mut state = State::new(1, 1);
    assert_eq!(state.assign_id(), 2);
    assert_eq!(state.assign_id(), 3);
    assert_eq!(state.assign_id(), 4);
}

#[test]
fn test_first_organism_gets_id_two() {
    let mut state = State::new(2, 2);
    state.initialize_organism((0, 1));
    let organism = state.get_organism(2).expect("first organism has id 2");
    assert_eq!(organism.position, (0, 1));
    assert_eq!(state.grid.get((0, 1)).value, 2);
}

#[test]
fn test_change_position_round_trip() {
    let mut state = State::new(3, 3);
    state.initialize_organism((0, 0));
    state.change_organism_position(2, (2, 1)).unwrap();
    let organism = state.get_organism(2).unwrap();
    assert_eq!(organism.position, (2, 1));
    assert!(state.grid.is_set((2, 1)));
    assert_eq!(state.grid.get((2, 1)).value, 2);
}

#[test]
fn test_change_position_unknown_id() {
    let mut state = State::new(3, 3);
    state.initialize_organism((0, 0));
    assert_eq!(
        state.change_organism_position(9, (1, 1)),
        Err(SimError::UnknownOrganismId)
    );
    assert!(state.get_organism(9).is_none());
}

fn entry_at(state: &State, id: u32) -> (u32, Organism) {
    (id, state.get_organism(id).unwrap())
}

fn white() -> Color {
    Color { r: 255, g: 255, b: 255, a: 255 }
}

#[test]
fn test_validate_rejects_moves_at_edges() {
    let state = State::new(3, 3);
    let corner_low = (5, Organism { position: (0, 0), color: white() });
    let corner_high = (6, Organism { position: (2, 2), color: white() });
    assert!(!state.validate_action(corner_low, Action::Move(MoveAction::Up)));
    assert!(!state.validate_action(corner_low, Action::Move(MoveAction::Backward)));
    assert!(!state.validate_action(corner_high, Action::Move(MoveAction::Down)));
    assert!(!state.validate_action(corner_high, Action::Move(MoveAction::Forward)));
    assert!(state.validate_action(corner_low, Action::InPlace));
    assert!(state.validate_action(corner_high, Action::InPlace));
}

#[test]
fn test_validate_accepts_move_with_free_cell_ahead() {
    let mut state = State::new(3, 3);
    state.initialize_organism((0, 0));
    let entry = entry_at(&state, 2);
    assert!(state.validate_action(entry, Action::Move(MoveAction::Forward)));
    assert!(state.validate_action(entry, Action::Move(MoveAction::Down)));
}

#[test]
fn test_single_organism_walks_to_edge_and_stops() {
    // A 3x3 grid with one organism at (0, 0); the policy always proposes a
    // forward (+row) move. One step lands it on (1, 0); two more land it on
    // (2, 0), the edge; a further step is rejected and downgraded, leaving
    // it at (2, 0).
    let mut state = State::new(3, 3);
    state.initialize_organism((0, 0));
    state.step();
    assert_eq!(state.get_organism(2).unwrap().position, (1, 0));
    state.step();
    state.step();
    assert_eq!(state.get_organism(2).unwrap().position, (2, 0));
    state.step();
    assert_eq!(state.get_organism(2).unwrap().position, (2, 0));
    assert_eq!(state.grid.get((2, 0)).value, 2);
    assert_eq!(state.num_organisms(), 1);
}

#[test]
fn test_collision_is_rejected_at_validation() {
    // A 1x2 grid with organisms at (0, 0) and (0, 1). The move from (0, 0)
    // toward (0, 1) must be rejected, because the only cell ahead is
    // occupied at snapshot time; a step leaves both organisms in place.
    let mut state = State::new(1, 2);
    state.initialize_organism((0, 0));
    state.initialize_organism((0, 1));
    let entry = entry_at(&state, 2);
    assert!(!state.validate_action(entry, Action::Move(MoveAction::Down)));
    state.step();
    assert_eq!(state.get_organism(2).unwrap().position, (0, 0));
    assert_eq!(state.get_organism(3).unwrap().position, (0, 1));
    assert_eq!(state.grid.get((0, 0)).value, 2);
    assert_eq!(state.grid.get((0, 1)).value, 3);
    assert_eq!(state.num_organisms(), 2);
}

#[test]
fn test_step_repopulates_grid_for_stationary_organisms() {
    // Organisms that stay in place must be recommitted after the per-tick
    // grid clear: the population count may not drop.
    let mut state = State::new(2, 2);
    state.initialize_organisms_random(4).unwrap();
    state.step();
    assert_eq!(state.num_organisms(), 4);
}

#[test]
fn test_handle_action_commits_move_and_inplace() {
    let mut state = State::new(3, 3);
    state.initialize_organism((1, 1));
    let entry = entry_at(&state, 2);
    state.handle_action(entry, Action::Move(MoveAction::Up));
    assert_eq!(state.get_organism(2).unwrap().position, (1, 0));
    let entry = entry_at(&state, 2);
    state.grid.reset();
    state.handle_action(entry, Action::InPlace);
    assert_eq!(state.get_organism(2).unwrap().position, (1, 0));
    assert_eq!(state.grid.get((1, 0)).value, 2);
}

#[test]
fn test_default_state_is_empty() {
    let state = State::default();
    assert_eq!(state.grid.shape(), (0, 0));
    assert_eq!(state.num_organisms(), 0);
}
