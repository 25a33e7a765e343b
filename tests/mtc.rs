use mtc_core::{
    build_initial_ghost_states, decrease_upgrade_coin, finish_battle, initial_ghost_health,
    FinishBattleError, GhostState, GHOST_COUNT,
};

#[test]
fn band_zero_roster_has_three_active_ghosts_with_health_14() {
    let states = build_initial_ghost_states(0);
    assert_eq!(states.len(), 3);
    assert_eq!(GHOST_COUNT, 3);
    for s in &states {
        assert_eq!(*s, GhostState::Active { health: 14 });
    }
}

#[test]
fn band_eight_and_above_roster_has_health_30() {
    for band in [8u16, 9, 100, u16::MAX] {
        let states = build_initial_ghost_states(band);
        assert_eq!(states, vec![GhostState::Active { health: 30 }; 3]);
    }
}

#[test]
fn health_table_per_band() {
    let expected = [14u8, 16, 18, 20, 22, 24, 26, 28, 30, 30];
    for (band, h) in expected.iter().enumerate() {
        assert_eq!(initial_ghost_health(band as u16), *h);
    }
    assert_eq!(
        build_initial_ghost_states(3),
        vec![GhostState::Active { health: 20 }; 3]
    );
}

#[test]
fn upgrade_coin_decreases_down_to_absent() {
    assert_eq!(decrease_upgrade_coin(Some(2)), Some(1));
    assert_eq!(decrease_upgrade_coin(Some(1)), Some(0));
    assert_eq!(decrease_upgrade_coin(Some(0)), None);
    assert_eq!(decrease_upgrade_coin(None), None);
}

#[test]
fn finish_battle_over_turn_limit_aborts() {
    let coin = Some(2u8);
    let index = 1u8;
    assert_eq!(
        finish_battle(coin, true, Some(2)),
        Err(FinishBattleError::TurnLimitExceeded)
    );
    assert_eq!(
        finish_battle(coin, true, None),
        Err(FinishBattleError::TurnLimitExceeded)
    );
    assert_eq!(coin, Some(2));
    assert_eq!(index, 1);
}

#[test]
fn finish_battle_without_selection_aborts() {
    assert_eq!(
        finish_battle(Some(1), false, None),
        Err(FinishBattleError::GhostSelectionFailed)
    );
}

#[test]
fn finish_battle_takes_a_coin_and_the_selected_ghost() {
    assert_eq!(finish_battle(Some(2), false, Some(2)), Ok((Some(1), 2)));
    assert_eq!(finish_battle(Some(0), false, Some(0)), Ok((None, 0)));
    assert_eq!(finish_battle(None, false, Some(1)), Ok((None, 1)));
}
