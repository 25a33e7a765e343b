//! Settlement core of an asynchronous battle game: rating updates, a capped
//! ranked leaderboard, initial opponent rosters and the end-of-battle decision.
use vstd::prelude::*;

pub mod ep;
pub mod leaderboard;
pub mod mtc;

pub use ep::{calc_new_ep, INITIAL_EP, MIN_EP};
pub use leaderboard::{
    update_leaderboard, LEADERBOARD_REAL_SIZE, LEADERBOARD_SIZE, LEADERBOARD_SURPLUS_SIZE,
};
pub use mtc::{
    build_initial_ghost_states, decrease_upgrade_coin, finish_battle, initial_ghost_health,
    FinishBattleError, GhostState, GHOST_COUNT,
};

use crate::ep::new_ep;
use crate::leaderboard::{contains_account, leaderboard_wf, updated_leaderboard};

verus! {

/// A new player (at the initial rating) who wins a run gets a rating of
/// exactly 70; folded into a well-formed leaderboard, the account then ranks
/// below every entry rated 70 or more, which were there first, and above every
/// entry rated lower.
pub proof fn lemma_first_place_from_initial_rating<A>(s: Seq<(u16, A)>, a: A)
    requires
        leaderboard_wf(s),
        !contains_account(s, a),
    ensures
        new_ep(1, INITIAL_EP) == 70,
        forall|i: int|
            0 <= i < updated_leaderboard(s, 70, a).len() && updated_leaderboard(s, 70, a)[i].1
                == a ==> (forall|j: int| 0 <= j < i ==> updated_leaderboard(s, 70, a)[j].0 >= 70)
                && (forall|j: int|
                i < j < updated_leaderboard(s, 70, a).len() ==> updated_leaderboard(
                    s,
                    70,
                    a,
                )[j].0 < 70),
{
    leaderboard::lemma_new_account_rank(s, 70, a);
}

} // verus!
