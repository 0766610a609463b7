//! Laws of the lifecycle, stated over the operations' postcondition
//! relations and proved once for all inputs.

use vstd::prelude::*;
use crate::game::Player;
use crate::game::SecretSantaGame;
use crate::game::add_post;
use crate::game::all_picked;
use crate::game::has_name;
use crate::game::index_of_name;
use crate::game::mark_picked;
use crate::game::pick_post;
use crate::game::start_post;

verus! {

/// Law: adding a participant with an empty name never succeeds; while the
/// game has not started it fails with the empty-name error.
pub proof fn lemma_add_empty_name(
    pre: SecretSantaGame,
    post: SecretSantaGame,
    player: Player,
    r: Result<(), String>,
)
    requires
        pre.wf(),
        add_post(pre, post, player, r),
        player.name@.len() == 0,
    ensures
        r is Err,
        post == pre,
        pre.status is NotStarted ==> (r matches Err(m) && m@ == "Player name cannot be empty"@),
{
    assert forall|i: int| 0 <= i < pre.players@.len() implies (#[trigger] pre.players@[i]).name@
        != player.name@ by {
        assert(pre.players@[i].name@.len() > 0);
    }
    assert(!has_name(pre.players@, player.name@));
}

/// Law: once a participant was added, adding the same name again fails with
/// the duplicate-name error and changes nothing.
pub proof fn lemma_add_duplicate(
    g0: SecretSantaGame,
    g1: SecretSantaGame,
    g2: SecretSantaGame,
    p1: Player,
    p2: Player,
    r1: Result<(), String>,
    r2: Result<(), String>,
)
    requires
        g0.wf(),
        add_post(g0, g1, p1, r1),
        r1 is Ok,
        add_post(g1, g2, p2, r2),
        p2.name@ == p1.name@,
    ensures
        r2 matches Err(m) && m@ == "Player "@ + p2.name@ + " already exists"@,
        g2 == g1,
{
    let n = g0.players@.len() as int;
    assert(g1.players@[n].name@ == p1.name@);
    assert(has_name(g1.players@, p2.name@));
}

/// Law: starting a not-yet-started game succeeds exactly when at least two
/// participants are registered, and then the game is in progress; with
/// fewer it fails for lack of players and changes nothing.
pub proof fn lemma_start_conditions(
    pre: SecretSantaGame,
    post: SecretSantaGame,
    r: Result<(), String>,
)
    requires
        pre.wf(),
        start_post(pre, post, r),
    ensures
        pre.status is NotStarted && pre.players@.len() >= 2 ==> r is Ok && post.status
            is InProgress,
        pre.status is NotStarted && pre.players@.len() < 2 ==> (r matches Err(m) && m@
            == "Not enough players"@ && post == pre),
{
}

/// Law: a participant reveals exactly once: after a successful pick, a
/// second pick by the same name fails and changes nothing — with the
/// already-picked error while the game is still in progress, and with the
/// finished-game error when that first pick was the last one and ended the
/// game.
pub proof fn lemma_pick_twice(
    g0: SecretSantaGame,
    g1: SecretSantaGame,
    g2: SecretSantaGame,
    nm: Seq<char>,
    r1: Result<String, String>,
    r2: Result<String, String>,
)
    requires
        g0.wf(),
        g1.wf(),
        pick_post(g0, g1, nm, r1),
        r1 is Ok,
        pick_post(g1, g2, nm, r2),
    ensures
        r2 is Err,
        g2 == g1,
        g1.status is InProgress ==> (r2 matches Err(m) && m@ == "Player has already picked"@),
        g1.status is Finished ==> (r2 matches Err(m) && m@ == "Game finished"@),
{
    let j0 = index_of_name(g0.players@, nm);
    assert(g0.players@[j0].name@ == nm);
    assert(g1.players@ == mark_picked(g0.players@, j0));
    assert(g1.players@[j0].name@ == nm && g1.players@[j0].has_picked);
    assert(has_name(g1.players@, nm));
    let j1 = index_of_name(g1.players@, nm);
    assert(0 <= j1 < g1.players@.len() && g1.players@[j1].name@ == nm);
    assert(j1 == j0);
}

/// Law: a pick never changes the roster's names or anybody's assigned
/// recipient: the recipient a participant reveals is the one fixed when the
/// game started.
pub proof fn lemma_pick_preserves_assignments(
    g0: SecretSantaGame,
    g1: SecretSantaGame,
    nm: Seq<char>,
    r: Result<String, String>,
)
    requires
        g0.wf(),
        pick_post(g0, g1, nm, r),
    ensures
        g1.players@.len() == g0.players@.len(),
        forall|k: int|
            0 <= k < g0.players@.len() ==> (#[trigger] g1.players@[k]).name@
                == g0.players@[k].name@ && g1.players@[k].picked == g0.players@[k].picked,
{
    if r is Ok {
        let j = index_of_name(g0.players@, nm);
        assert forall|k: int| 0 <= k < g0.players@.len() implies (#[trigger] g1.players@[k]).name@
            == g0.players@[k].name@ && g1.players@[k].picked == g0.players@[k].picked by {
            if k != j {
                assert(g1.players@[k] == g0.players@[k]);
            }
        }
    }
}

/// Law: a successful pick that leaves every participant revealed finishes
/// the game; and a finished game rejects every further pick with the
/// finished-game error, changing nothing.
pub proof fn lemma_all_picked_finishes(
    g0: SecretSantaGame,
    g1: SecretSantaGame,
    g2: SecretSantaGame,
    nm1: Seq<char>,
    nm2: Seq<char>,
    r1: Result<String, String>,
    r2: Result<String, String>,
)
    requires
        g0.wf(),
        pick_post(g0, g1, nm1, r1),
        r1 is Ok,
        all_picked(g1.players@),
        pick_post(g1, g2, nm2, r2),
    ensures
        g1.status is Finished,
        r2 matches Err(m) && m@ == "Game finished"@,
        g2 == g1,
{
}

} // verus!
