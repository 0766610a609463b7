//! The one randomized step: shuffling the roster before the cycle is built.

use vstd::prelude::*;
use rand::seq::SliceRandom;
use crate::game::Player;
use crate::perm::is_reordering_of;

verus! {

/// Relies on rand's `SliceRandom::shuffle`: a Fisher–Yates shuffle that
/// rearranges the slice in place by swaps, so the new contents are exactly
/// the old contents in some order. Which order comes back is random, so no
/// more is stated of it.
#[verifier::external_body]
pub(crate) fn shuffle_players(players: &mut Vec<Player>)
    ensures
        is_reordering_of(final(players)@, old(players)@),
{
    let mut rng = rand::thread_rng();
    players.shuffle(&mut rng);
}

} // verus!
