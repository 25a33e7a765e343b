//! Rating engine: the new rating after a settled run.
use vstd::prelude::*;

verus! {

/// Rating that an account starts with.
pub const INITIAL_EP: u16 = 300;

/// Hard lower bound of every rating after a loss.
pub const MIN_EP: u16 = 100;

/// Rating after a run, for a placement in `1..=4` and the prior rating.
pub open spec fn new_ep(place: u8, old_ep: u16) -> int {
    if place == 1 || place == 2 {
        let plus: int = if place == 1 { 70 } else { 50 };
        if old_ep <= INITIAL_EP {
            plus
        } else {
            let x = (old_ep - INITIAL_EP) as int / 40;
            if x < plus { plus - x } else { 1 }
        }
    } else {
        let minus: int = if place == 3 { 30 } else { 50 };
        let e: int = if old_ep >= minus { old_ep - minus } else { 0 };
        if e > MIN_EP { e } else { MIN_EP as int }
    }
}

/// New rating for a player who finished a run at `place` (1st to 4th) with
/// rating `old_ep`. Winners (1st, 2nd) gain less the higher they are rated;
/// losers (3rd, 4th) lose a fixed amount but never fall below `MIN_EP`.
pub fn calc_new_ep(place: u8, old_ep: u16) -> (r: u16)
    requires
        1 <= place <= 4,
    ensures
        r == new_ep(place, old_ep),
        place == 1 && old_ep <= INITIAL_EP ==> r == 70,
        place == 2 && old_ep <= INITIAL_EP ==> r == 50,
        place == 1 && old_ep > INITIAL_EP ==> r == vstd::math::max(
            1,
            70 - (old_ep - INITIAL_EP) / 40,
        ),
        place == 2 && old_ep > INITIAL_EP ==> r == vstd::math::max(
            1,
            50 - (old_ep - INITIAL_EP) / 40,
        ),
        place == 3 ==> r == vstd::math::max(MIN_EP as int, vstd::math::max(0, old_ep - 30)),
        place == 4 ==> r == vstd::math::max(MIN_EP as int, vstd::math::max(0, old_ep - 50)),
        place >= 3 ==> r >= MIN_EP,
        place <= 2 ==> r >= 1,
{
    if place == 1 || place == 2 {
        let plus: u16 = if place == 1 { 70 } else { 50 };
        if old_ep > INITIAL_EP {
            let x: u16 = (old_ep - INITIAL_EP) / 40;
            if x < plus { plus - x } else { 1 }
        } else {
            plus
        }
    } else {
        let minus: u16 = if place == 3 { 30 } else { 50 };
        let e: u16 = old_ep.saturating_sub(minus);
        if e > MIN_EP { e } else { MIN_EP }
    }
}

} // verus!
