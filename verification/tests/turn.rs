use terminalia::turn::{FloorChange, RunState};

#[test]
fn turn_cycle() {
    assert_eq!(RunState::AwaitingInput.next(), (RunState::AwaitingInput, FloorChange::Stay));
    assert_eq!(RunState::PlayerTurn.next(), (RunState::MonsterTurn, FloorChange::Stay));
    assert_eq!(RunState::MonsterTurn.next(), (RunState::AwaitingInput, FloorChange::Stay));
    assert_eq!(RunState::PlayerTurn.next().0.next().0, RunState::AwaitingInput);
}

#[test]
fn modal_states_wait_for_input() {
    assert_eq!(RunState::Examining { index: 9 }.next(), (RunState::Examining { index: 9 }, FloorChange::Stay));
    assert_eq!(RunState::FreeAiming { index: 3 }.next(), (RunState::FreeAiming { index: 3 }, FloorChange::Stay));
    assert_eq!(RunState::LevelUp { index: 5 }.next(), (RunState::LevelUp { index: 5 }, FloorChange::Stay));
}

#[test]
fn floor_transitions_last_one_tick() {
    assert_eq!(RunState::Descending.next(), (RunState::AwaitingInput, FloorChange::Descend));
    assert_eq!(RunState::Ascending.next(), (RunState::AwaitingInput, FloorChange::Ascend));
}

#[test]
fn only_the_monsters_turn_permits_pursuit() {
    assert!(RunState::MonsterTurn.permits_pursuit());
    for state in [
        RunState::AwaitingInput,
        RunState::PlayerTurn,
        RunState::Descending,
        RunState::Ascending,
        RunState::Examining { index: 0 },
        RunState::FreeAiming { index: 0 },
        RunState::LevelUp { index: 0 },
    ] {
        assert!(!state.permits_pursuit());
    }
}

#[test]
fn floor_index_after_a_change() {
    assert_eq!(RunState::floor_after(FloorChange::Stay, 4), Some(4));
    assert_eq!(RunState::floor_after(FloorChange::Descend, 4), Some(5));
    assert_eq!(RunState::floor_after(FloorChange::Ascend, 4), Some(3));
    assert_eq!(RunState::floor_after(FloorChange::Ascend, 0), None);
    assert_eq!(RunState::floor_after(FloorChange::Descend, u32::MAX), None);
}
