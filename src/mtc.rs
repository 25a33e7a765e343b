//! Run-scoped pieces: the initial opponent roster and the decision taken when
//! a battle of the run is finished.
use vstd::prelude::*;

verus! {

/// Number of opponents ("ghosts") a run is played against.
pub const GHOST_COUNT: usize = 3;

/// State of one opponent of the run.
#[derive(Debug, Clone, Copy, PartialEq, Eq, Structural)]
pub enum GhostState {
    Active { health: u8 },
    Retired,
}

/// Starting health of an opponent in rating band `band`: two more per band,
/// from 14 at band 0 up to 30 from band 8 on.
pub open spec fn ghost_health_for_band(band: u16) -> u8 {
    if band >= 8 {
        30
    } else {
        (14 + 2 * band) as u8
    }
}

/// Starting health of the opponents of a run in rating band `band`.
pub fn initial_ghost_health(band: u16) -> (r: u8)
    ensures
        r == ghost_health_for_band(band),
        14 <= r <= 30,
{
    match band {
        0 => 14,
        1 => 16,
        2 => 18,
        3 => 20,
        4 => 22,
        5 => 24,
        6 => 26,
        7 => 28,
        _ => 30,
    }
}

/// The roster a run starts with, given the rating band of the player: three
/// active opponents, all with the band's starting health.
pub fn build_initial_ghost_states(ep_band: u16) -> (r: Vec<GhostState>)
    ensures
        r@.len() == GHOST_COUNT,
        forall|i: int|
            0 <= i < r@.len() ==> r@[i] == (GhostState::Active {
                health: ghost_health_for_band(ep_band),
            }),
{
    let health = initial_ghost_health(ep_band);
    let mut states: Vec<GhostState> = Vec::new();
    let mut i: usize = 0;
    while i < GHOST_COUNT
        invariant
            i <= GHOST_COUNT,
            states@.len() == i,
            health == ghost_health_for_band(ep_band),
            forall|j: int| 0 <= j < i ==> states@[j] == (GhostState::Active { health }),
        decreases GHOST_COUNT - i,
    {
        states.push(GhostState::Active { health });
        i = i + 1;
    }
    states
}

/// Upgrade coins left after one battle: one fewer, and none at all once the
/// count was already zero.
pub open spec fn decreased_upgrade_coin(upgrade_coin: Option<u8>) -> Option<u8> {
    match upgrade_coin {
        Some(c) => if c > 0 { Some((c - 1) as u8) } else { None },
        None => None,
    }
}

/// Takes one upgrade coin away; a count of zero becomes absent, and an absent
/// count stays absent.
pub fn decrease_upgrade_coin(upgrade_coin: Option<u8>) -> (r: Option<u8>)
    ensures
        r == decreased_upgrade_coin(upgrade_coin),
{
    match upgrade_coin {
        Some(c) => if c > 0 { Some(c - 1) } else { None },
        None => None,
    }
}

/// Why a finished battle cannot be settled. Either one means the run's state
/// is corrupt, and nothing of the settlement may be kept.
#[derive(Debug, Clone, Copy, PartialEq, Eq, Structural)]
pub enum FinishBattleError {
    /// The run's history is longer than the turn limit allows.
    TurnLimitExceeded,
    /// No next opponent could be selected.
    GhostSelectionFailed,
}

/// Settles a finished battle of a run.
///
/// `history_exceeds_limit` is whether the run's history is over the turn
/// limit, and `selected_ghost_index` the next opponent picked from the roster
/// by the seeded selection (`None` where it found none). Checks the turn limit
/// first, then takes one upgrade coin, then takes the selected opponent. On
/// success returns the new upgrade coin count and the new opponent index; on an
/// error nothing is returned, so the caller's count and index stay as they were.
pub fn finish_battle(
    upgrade_coin: Option<u8>,
    history_exceeds_limit: bool,
    selected_ghost_index: Option<u8>,
) -> (r: Result<(Option<u8>, u8), FinishBattleError>)
    ensures
        history_exceeds_limit ==> r == Err::<(Option<u8>, u8), _>(
            FinishBattleError::TurnLimitExceeded,
        ),
        !history_exceeds_limit && selected_ghost_index is None ==> r == Err::<
            (Option<u8>, u8),
            _,
        >(FinishBattleError::GhostSelectionFailed),
        !history_exceeds_limit && selected_ghost_index is Some ==> r == Ok::<
            _,
            FinishBattleError,
        >((decreased_upgrade_coin(upgrade_coin), selected_ghost_index->0)),
{
    if history_exceeds_limit {
        return Err(FinishBattleError::TurnLimitExceeded);
    }
    let upgrade_coin = decrease_upgrade_coin(upgrade_coin);
    match selected_ghost_index {
        Some(index) => Ok((upgrade_coin, index)),
        None => Err(FinishBattleError::GhostSelectionFailed),
    }
}

} // verus!
