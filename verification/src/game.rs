//! The game state machine: roster, lifecycle, assignment and reveal.

use vstd::prelude::*;
use vstd::string::StringExecFns;
use crate::perm::applied_perm;
use crate::perm::is_index_perm;
use crate::perm::is_reordering_of;
use crate::shuffle::shuffle_players;

verus! {

/// One registered participant: a name, the recipient assigned when the game
/// starts, and whether the participant has already revealed that recipient.
#[derive(Debug, Clone, PartialEq)]
pub struct Player {
    pub name: String,
    pub picked: Option<String>,
    pub has_picked: bool,
}

impl Player {
    pub fn new(name: &str) -> (p: Player)
        ensures
            p.name@ == name@,
            p.picked is None,
            !p.has_picked,
    {
        Player { name: name.to_owned(), picked: None, has_picked: false }
    }
}

/// Lifecycle phase of the game; it decides which operations are legal.
#[derive(Debug, Clone, Copy, PartialEq, Eq, Structural)]
pub enum GameStatus {
    NotStarted,
    InProgress,
    Finished,
}

/// Every participant's name is non-empty.
pub open spec fn names_nonempty(ps: Seq<Player>) -> bool {
    forall|i: int| 0 <= i < ps.len() ==> (#[trigger] ps[i]).name@.len() > 0
}

/// No two participants share a name.
pub open spec fn names_distinct(ps: Seq<Player>) -> bool {
    forall|i: int, j: int|
        0 <= i < ps.len() && 0 <= j < ps.len() && i != j ==> (#[trigger] ps[i]).name@ != (
        #[trigger] ps[j]).name@
}

/// Nobody has an assigned recipient and nobody has revealed.
pub open spec fn roster_fresh(ps: Seq<Player>) -> bool {
    forall|i: int| 0 <= i < ps.len() ==> (#[trigger] ps[i]).picked is None && !ps[i].has_picked
}

/// Every participant has revealed their recipient.
pub open spec fn all_picked(ps: Seq<Player>) -> bool {
    forall|i: int| 0 <= i < ps.len() ==> (#[trigger] ps[i]).has_picked
}

/// The index that follows `i` on a cycle over `n` positions.
pub open spec fn cyclic_next(n: int, i: int) -> int {
    if i + 1 == n {
        0
    } else {
        i + 1
    }
}

/// Each participant's assigned recipient is the next participant in roster
/// order, and the last one's recipient is the first: one closed cycle.
pub open spec fn linked(ps: Seq<Player>) -> bool {
    forall|i: int|
        0 <= i < ps.len() ==> (#[trigger] ps[i]).picked is Some && ps[i].picked.unwrap()@ == ps[
            cyclic_next(ps.len() as int, i)].name@
}

/// Some participant is registered under the name `nm`.
pub open spec fn has_name(ps: Seq<Player>, nm: Seq<char>) -> bool {
    exists|i: int| 0 <= i < ps.len() && (#[trigger] ps[i]).name@ == nm
}

/// The roster index of the participant named `nm` (unique when names are
/// distinct).
pub open spec fn index_of_name(ps: Seq<Player>, nm: Seq<char>) -> int {
    choose|i: int| 0 <= i < ps.len() && (#[trigger] ps[i]).name@ == nm
}

/// The sequence of names in roster order.
pub open spec fn names_of(ps: Seq<Player>) -> Seq<Seq<char>> {
    ps.map_values(|p: Player| p.name@)
}

/// The whole game: the lifecycle status and the ordered roster.
#[derive(Debug)]
pub struct SecretSantaGame {
    pub status: GameStatus,
    pub players: Vec<Player>,
}

impl SecretSantaGame {
    /// Well-formedness: names are non-empty and unique; before the start the
    /// roster carries no assignments; from the start on, the roster has at
    /// least two participants linked in one cycle; the game is finished
    /// exactly when everyone has revealed.
    pub open spec fn wf(self) -> bool {
        &&& names_nonempty(self.players@)
        &&& names_distinct(self.players@)
        &&& match self.status {
            GameStatus::NotStarted => roster_fresh(self.players@),
            GameStatus::InProgress => self.players@.len() >= 2 && linked(self.players@)
                && !all_picked(self.players@),
            GameStatus::Finished => self.players@.len() >= 2 && linked(self.players@)
                && all_picked(self.players@),
        }
    }

    pub fn new() -> (g: SecretSantaGame)
        ensures
            g.wf(),
            g.status is NotStarted,
            g.players@.len() == 0,
    {
        SecretSantaGame { status: GameStatus::NotStarted, players: Vec::new() }
    }

    /// Unconditionally discards all participants and assignments and returns
    /// to the initial state; this operation never fails.
    pub fn restart_game(&mut self)
        ensures
            final(self).wf(),
            final(self).status is NotStarted,
            final(self).players@.len() == 0,
    {
        self.status = GameStatus::NotStarted;
        self.players = Vec::new();
    }

    /// Registers one more participant while the game has not started.
    pub fn add_player(&mut self, player: Player) -> (r: Result<(), String>)
        requires
            old(self).wf(),
        ensures
            final(self).wf(),
            add_post(*old(self), *final(self), player, r),
    {
        if !(self.status == GameStatus::NotStarted) {
            return Err("Game already started or finished".to_owned());
        }
        let n = self.players.len();
        let mut i: usize = 0;
        while i < n
            invariant
                old(self).wf(),
                old(self).status is NotStarted,
                *self == *old(self),
                n == self.players@.len(),
                i <= n,
                forall|k: int| 0 <= k < i ==> (#[trigger] self.players@[k]).name@ != player.name@,
            decreases n - i,
        {
            if self.players[i].name == player.name {
                let mut msg = "Player ".to_owned();
                msg.append(player.name.as_str());
                msg.append(" already exists");
                return Err(msg);
            }
            i += 1;
        }
        if player.name.as_str().is_empty() {
            return Err("Player name cannot be empty".to_owned());
        }
        let name = player.name;
        self.players.push(Player { name, picked: None, has_picked: false });
        Ok(())
    }

    /// Removes the participant with the given name while the game has not
    /// started, preserving the relative order of the rest.
    pub fn remove_player(&mut self, player_name: &str) -> (r: Result<(), String>)
        requires
            old(self).wf(),
        ensures
            final(self).wf(),
            remove_post(*old(self), *final(self), player_name@, r),
    {
        if !(self.status == GameStatus::NotStarted) {
            return Err("Game already started or finished".to_owned());
        }
        let target = player_name.to_owned();
        let n = self.players.len();
        let mut i: usize = 0;
        while i < n
            invariant
                old(self).wf(),
                old(self).status is NotStarted,
                *self == *old(self),
                target@ == player_name@,
                n == self.players@.len(),
                i <= n,
                forall|k: int| 0 <= k < i ==> (#[trigger] self.players@[k]).name@ != player_name@,
            decreases n - i,
        {
            if self.players[i].name == target {
                proof {
                    lemma_remove_keeps_distinct_nonempty(self.players@, i as int);
                    assert(has_name(old(self).players@, player_name@));
                    let j = index_of_name(old(self).players@, player_name@);
                    assert(old(self).players@[j].name@ == old(self).players@[i as int].name@);
                }
                self.players.remove(i);
                return Ok(());
            }
            i += 1;
        }
        Err("Player not found".to_owned())
    }

    /// Starts the game once: shuffles the roster, links it into one gift
    /// cycle and moves to `InProgress`.
    pub fn start_game(&mut self) -> (r: Result<(), String>)
        requires
            old(self).wf(),
        ensures
            final(self).wf(),
            start_post(*old(self), *final(self), r),
    {
        if self.status == GameStatus::InProgress {
            return Err("Game already started".to_owned());
        }
        if self.status == GameStatus::Finished {
            return Err("Game already finished".to_owned());
        }
        if self.players.len() < 2 {
            return Err("Not enough players".to_owned());
        }
        self.sort_players();
        self.status = GameStatus::InProgress;
        proof {
            assert(!all_picked(self.players@)) by {
                assert(!self.players@[0].has_picked);
            }
        }
        Ok(())
    }

    /// Reveals the recipient assigned to the named participant, once: marks
    /// the participant as having picked, returns the recipient's name, and
    /// finishes the game when every participant has picked.
    pub fn player_pick(&mut self, player_name: &str) -> (r: Result<String, String>)
        requires
            old(self).wf(),
        ensures
            final(self).wf(),
            pick_post(*old(self), *final(self), player_name@, r),
    {
        if self.status == GameStatus::NotStarted {
            return Err("Game not started".to_owned());
        }
        if self.status == GameStatus::Finished {
            return Err("Game finished".to_owned());
        }
        let target = player_name.to_owned();
        let n = self.players.len();
        let mut j: usize = 0;
        while j < n
            invariant
                old(self).wf(),
                old(self).status is InProgress,
                *self == *old(self),
                target@ == player_name@,
                n == self.players@.len(),
                j <= n,
                forall|k: int| 0 <= k < j ==> (#[trigger] self.players@[k]).name@ != player_name@,
            decreases n - j,
        {
            if self.players[j].name == target {
                proof {
                    assert(has_name(old(self).players@, player_name@));
                    let jj = index_of_name(old(self).players@, player_name@);
                    assert(old(self).players@[jj].name@ == player_name@);
                    assert(jj == j as int);
                }
                if self.players[j].has_picked {
                    return Err("Player has already picked".to_owned());
                }
                let nm = self.players[j].name.clone();
                let stored = match &self.players[j].picked {
                    Some(s) => Some(s.clone()),
                    None => None,
                };
                let picked_name = match &self.players[j].picked {
                    Some(s) => Some(s.clone()),
                    None => None,
                };
                proof {
                    assert(old(self).players@[j as int].picked is Some);
                    assert(stored == old(self).players@[j as int].picked);
                }
                self.players[j] = Player { name: nm, picked: stored, has_picked: true };
                proof {
                    lemma_mark_picked(old(self).players@, j as int);
                    assert(self.players@ == mark_picked(old(self).players@, j as int));
                }
                self.check_game_status();
                if picked_name.is_none() {
                    return Err("Player not found".to_owned());
                } else {
                    return Ok(picked_name.unwrap());
                }
            }
            j += 1;
        }
        Err("Player not found".to_owned())
    }

    /// Finishes the game once every participant has revealed their
    /// recipient; otherwise leaves the status alone.
    fn check_game_status(&mut self)
        ensures
            final(self).players == old(self).players,
            final(self).status == (if all_picked(old(self).players@) {
                GameStatus::Finished
            } else {
                old(self).status
            }),
    {
        let n = self.players.len();
        let mut i: usize = 0;
        while i < n
            invariant
                *self == *old(self),
                n == self.players@.len(),
                i <= n,
                forall|k: int| 0 <= k < i ==> (#[trigger] self.players@[k]).has_picked,
            decreases n - i,
        {
            if !self.players[i].has_picked {
                return;
            }
            i += 1;
        }
        self.status = GameStatus::Finished;
    }

    /// Shuffles the roster, then assigns each participant the next one in
    /// the shuffled order and the last one the first: one closed cycle.
    fn sort_players(&mut self)
        requires
            old(self).players@.len() >= 2,
            names_nonempty(old(self).players@),
            names_distinct(old(self).players@),
            roster_fresh(old(self).players@),
        ensures
            final(self).status == old(self).status,
            final(self).players@.len() == old(self).players@.len(),
            names_nonempty(final(self).players@),
            names_distinct(final(self).players@),
            linked(final(self).players@),
            forall|i: int|
                0 <= i < final(self).players@.len() ==> !(#[trigger] final(self).players@[i]).has_picked,
            is_reordering_of(names_of(final(self).players@), names_of(old(self).players@)),
    {
        shuffle_players(&mut self.players);
        proof {
            lemma_reorder_roster(old(self).players@, self.players@);
        }
        let ghost shuffled = self.players@;
        link_cycle(&mut self.players);
        proof {
            let fin = self.players@;
            let n = shuffled.len() as int;
            assert forall|k: int| 0 <= k < n implies (#[trigger] fin[k]).name@
                == shuffled[k].name@ && !fin[k].has_picked by {}
            assert forall|i: int, j: int|
                0 <= i < n && 0 <= j < n && i != j implies (#[trigger] fin[i]).name@ != (
            #[trigger] fin[j]).name@ by {
                assert(shuffled[i].name@ != shuffled[j].name@);
            }
            assert(names_of(fin) =~= names_of(shuffled));
            assert forall|k: int| 0 <= k < n implies (#[trigger] fin[k]).picked is Some && fin[
                k].picked.unwrap()@ == fin[cyclic_next(n, k)].name@ by {
                assert(fin[k].picked.unwrap() == shuffled[cyclic_next(n, k)].name);
            }
        }
    }
}

/// Links the roster in place: each participant's recipient becomes the next
/// participant's name, and the last one's becomes the first's.
fn link_cycle(players: &mut Vec<Player>)
    requires
        old(players)@.len() >= 2,
    ensures
        final(players)@.len() == old(players)@.len(),
        forall|k: int|
            0 <= k < old(players)@.len() ==> (#[trigger] final(players)@[k]) == (Player {
                name: old(players)@[k].name,
                picked: Some(old(players)@[cyclic_next(old(players)@.len() as int, k)].name),
                has_picked: old(players)@[k].has_picked,
            }),
{
    let n = players.len();
    let mut i: usize = 0;
    while i + 1 < n
        invariant
            n == players@.len(),
            n == old(players)@.len(),
            n >= 2,
            i < n,
            forall|k: int| i <= k < n ==> #[trigger] players@[k] == old(players)@[k],
            forall|k: int|
                0 <= k < i ==> (#[trigger] players@[k]) == (Player {
                    name: old(players)@[k].name,
                    picked: Some(old(players)@[k + 1].name),
                    has_picked: old(players)@[k].has_picked,
                }),
        decreases n - i,
    {
        let next_name = players[i + 1].name.clone();
        let nm = players[i].name.clone();
        let hp = players[i].has_picked;
        players[i] = Player { name: nm, picked: Some(next_name), has_picked: hp };
        i += 1;
    }
    let head_name = players[0].name.clone();
    let last = n - 1;
    let nm = players[last].name.clone();
    let hp = players[last].has_picked;
    players[last] = Player { name: nm, picked: Some(head_name), has_picked: hp };
}

/// A reordered roster keeps its length, its element-wise facts (non-empty
/// names, no assignments) and the distinctness of its names, and its name
/// sequence is a reordering of the old one.
proof fn lemma_reorder_roster(ps1: Seq<Player>, ps2: Seq<Player>)
    requires
        is_reordering_of(ps2, ps1),
        names_nonempty(ps1),
        names_distinct(ps1),
        roster_fresh(ps1),
    ensures
        ps2.len() == ps1.len(),
        names_nonempty(ps2),
        names_distinct(ps2),
        roster_fresh(ps2),
        is_reordering_of(names_of(ps2), names_of(ps1)),
{
    let p = choose|p: Seq<int>|
        #[trigger] is_index_perm(p, ps1.len() as int) && ps2 == applied_perm(p, ps1);
    assert forall|i: int| 0 <= i < ps2.len() implies (#[trigger] ps2[i]).name@.len() > 0 && ps2[i].picked
        is None && !ps2[i].has_picked by {
        assert(ps2[i] == ps1[p[i]]);
    }
    assert forall|i: int, j: int|
        0 <= i < ps2.len() && 0 <= j < ps2.len() && i != j implies (#[trigger] ps2[i]).name@ != (
    #[trigger] ps2[j]).name@ by {
        assert(ps2[i] == ps1[p[i]]);
        assert(ps2[j] == ps1[p[j]]);
        assert(p[i] != p[j]);
    }
    assert(applied_perm(p, names_of(ps1)) =~= names_of(ps2));
    assert(is_index_perm(p, names_of(ps1).len() as int));
}

/// Removing one roster entry keeps the remaining names distinct, non-empty
/// and unassigned.
proof fn lemma_remove_keeps_distinct_nonempty(ps: Seq<Player>, j: int)
    requires
        0 <= j < ps.len(),
        names_nonempty(ps),
        names_distinct(ps),
        roster_fresh(ps),
    ensures
        names_nonempty(ps.remove(j)),
        names_distinct(ps.remove(j)),
        roster_fresh(ps.remove(j)),
{
    let r = ps.remove(j);
    assert forall|i: int| 0 <= i < r.len() implies (#[trigger] r[i]).name@.len() > 0 && r[i].picked
        is None && !r[i].has_picked by {
        if i < j {
            assert(r[i] == ps[i]);
        } else {
            assert(r[i] == ps[i + 1]);
        }
    }
    assert forall|i: int, k: int|
        0 <= i < r.len() && 0 <= k < r.len() && i != k implies (#[trigger] r[i]).name@ != (
    #[trigger] r[k]).name@ by {
        let i0 = if i < j {
            i
        } else {
            i + 1
        };
        let k0 = if k < j {
            k
        } else {
            k + 1
        };
        assert(r[i] == ps[i0]);
        assert(r[k] == ps[k0]);
    }
}

/// Exactly how `remove_player` relates the state before the call, the state
/// after it, the given name and the result: it succeeds if and only if the
/// game has not started and some participant carries the name, and then
/// removes exactly that participant; each failure leaves the game unchanged
/// and names its reason.
pub open spec fn remove_post(
    pre: SecretSantaGame,
    post: SecretSantaGame,
    nm: Seq<char>,
    r: Result<(), String>,
) -> bool {
    match r {
        Ok(_) => {
            &&& pre.status is NotStarted
            &&& has_name(pre.players@, nm)
            &&& post.status is NotStarted
            &&& post.players@ == pre.players@.remove(index_of_name(pre.players@, nm))
        },
        Err(m) => {
            &&& post == pre
            &&& if !(pre.status is NotStarted) {
                m@ == "Game already started or finished"@
            } else {
                !has_name(pre.players@, nm) && m@ == "Player not found"@
            }
        },
    }
}

/// The roster `ps` with the participant at `j` marked as having revealed;
/// the name and the assigned recipient stay as they were.
pub open spec fn mark_picked(ps: Seq<Player>, j: int) -> Seq<Player> {
    ps.update(
        j,
        (Player { name: ps[j].name, picked: ps[j].picked, has_picked: true }),
    )
}

/// Marking one participant as having revealed changes nobody's name or
/// assigned recipient, so it keeps the roster's names and its cycle intact.
proof fn lemma_mark_picked(ps: Seq<Player>, j: int)
    requires
        0 <= j < ps.len(),
        names_nonempty(ps),
        names_distinct(ps),
        linked(ps),
    ensures
        names_nonempty(mark_picked(ps, j)),
        names_distinct(mark_picked(ps, j)),
        linked(mark_picked(ps, j)),
{
    let q = mark_picked(ps, j);
    assert forall|k: int| 0 <= k < q.len() implies (#[trigger] q[k]).name@ == ps[k].name@ && q[
        k].picked == ps[k].picked by {
        if k != j {
            assert(q[k] == ps[k]);
        }
    }
    assert forall|k: int| 0 <= k < q.len() implies (#[trigger] q[k]).name@.len() > 0 by {
        assert(ps[k].name@.len() > 0);
    }
    assert forall|i: int, k: int|
        0 <= i < q.len() && 0 <= k < q.len() && i != k implies (#[trigger] q[i]).name@ != (
    #[trigger] q[k]).name@ by {
        assert(ps[i].name@ != ps[k].name@);
    }
    assert forall|k: int| 0 <= k < q.len() implies (#[trigger] q[k]).picked is Some && q[
        k].picked.unwrap()@ == q[cyclic_next(q.len() as int, k)].name@ by {
        assert(ps[k].picked is Some && ps[k].picked.unwrap()@ == ps[cyclic_next(
            ps.len() as int,
            k,
        )].name@);
    }
}

/// Exactly how `player_pick` relates the state before the call, the state
/// after it, the given name and the result: it succeeds if and only if the
/// game is in progress, some participant carries the name, and that
/// participant has not yet revealed; it then returns that participant's
/// assigned recipient, marks them as having revealed and finishes the game
/// exactly when everyone has now revealed; each failure leaves the game
/// unchanged and names its reason.
pub open spec fn pick_post(
    pre: SecretSantaGame,
    post: SecretSantaGame,
    nm: Seq<char>,
    r: Result<String, String>,
) -> bool {
    match r {
        Ok(recipient) => {
            let j = index_of_name(pre.players@, nm);
            &&& pre.status is InProgress
            &&& has_name(pre.players@, nm)
            &&& !pre.players@[j].has_picked
            &&& recipient@ == pre.players@[j].picked.unwrap()@
            &&& post.players@ == mark_picked(pre.players@, j)
            &&& post.status == (if all_picked(post.players@) {
                GameStatus::Finished
            } else {
                GameStatus::InProgress
            })
        },
        Err(m) => {
            &&& post == pre
            &&& match pre.status {
                GameStatus::NotStarted => m@ == "Game not started"@,
                GameStatus::Finished => m@ == "Game finished"@,
                GameStatus::InProgress => if !has_name(pre.players@, nm) {
                    m@ == "Player not found"@
                } else {
                    pre.players@[index_of_name(pre.players@, nm)].has_picked && m@
                        == "Player has already picked"@
                },
            }
        },
    }
}

/// Exactly how `start_game` relates the state before the call, the state
/// after it and the result: it succeeds if and only if the game has not
/// started and at least two participants are registered; it then links the
/// shuffled roster into one cycle with nobody revealed yet and moves to
/// `InProgress`; each failure leaves the game unchanged and names its
/// reason.
pub open spec fn start_post(
    pre: SecretSantaGame,
    post: SecretSantaGame,
    r: Result<(), String>,
) -> bool {
    match r {
        Ok(_) => {
            &&& pre.status is NotStarted
            &&& pre.players@.len() >= 2
            &&& post.status is InProgress
            &&& post.players@.len() == pre.players@.len()
            &&& is_reordering_of(names_of(post.players@), names_of(pre.players@))
            &&& linked(post.players@)
            &&& forall|i: int|
                0 <= i < post.players@.len() ==> !(#[trigger] post.players@[i]).has_picked
        },
        Err(m) => {
            &&& post == pre
            &&& match pre.status {
                GameStatus::InProgress => m@ == "Game already started"@,
                GameStatus::Finished => m@ == "Game already finished"@,
                GameStatus::NotStarted => pre.players@.len() < 2 && m@ == "Not enough players"@,
            }
        },
    }
}

/// Exactly how `add_player` relates the state before the call, the state
/// after it, the given participant and the result: it succeeds if and only
/// if the game has not started, the name is not yet taken and is non-empty,
/// and then appends a fresh participant; each failure leaves the game
/// unchanged and names its reason.
pub open spec fn add_post(
    pre: SecretSantaGame,
    post: SecretSantaGame,
    player: Player,
    r: Result<(), String>,
) -> bool {
    match r {
        Ok(_) => {
            &&& pre.status is NotStarted
            &&& !has_name(pre.players@, player.name@)
            &&& player.name@.len() > 0
            &&& post.status is NotStarted
            &&& post.players@ == pre.players@.push(
                (Player { name: player.name, picked: None, has_picked: false }),
            )
        },
        Err(m) => {
            &&& post == pre
            &&& if !(pre.status is NotStarted) {
                m@ == "Game already started or finished"@
            } else if has_name(pre.players@, player.name@) {
                m@ == "Player "@ + player.name@ + " already exists"@
            } else {
                player.name@.len() == 0 && m@ == "Player name cannot be empty"@
            }
        },
    }
}

} // verus!
