//! Plain values the HTTP layer exchanges with the game, and the computable
//! part of the request handling: snapshots, name lists and batch adds.

use vstd::prelude::*;
use crate::game::GameStatus;
use crate::game::Player;
use crate::game::SecretSantaGame;
use crate::game::has_name;

verus! {

/// One roster row as shown to everyone: the name and whether that
/// participant has revealed; never the assigned recipient.
pub struct PlayerInfo {
    pub name: String,
    pub has_picked: bool,
}

/// Snapshot of the game for display: the status and one row per
/// participant, in roster order.
pub struct SantaGameInfo {
    pub status: GameStatus,
    pub players: Vec<PlayerInfo>,
}

/// A list of participant names, as received from or returned to a caller.
pub struct Players {
    pub names: Vec<String>,
}

/// The revealed recipient, as answered to the participant who just picked.
pub struct PickedResponse {
    pub name: String,
}

/// A caller-reported validation failure wrapping the game's error message;
/// the transport layer decides how to serialize and return it.
pub enum CustomError {
    ValidationError { error: String },
}

impl CustomError {
    /// The human-readable detail the error displays itself as.
    pub fn message(&self) -> (m: String)
        ensures
            self matches CustomError::ValidationError { error } && m@ == error@,
    {
        match self {
            CustomError::ValidationError { error } => error.clone(),
        }
    }
}

/// Fresh, unassigned participants for the given names, in order.
pub open spec fn fresh_players(names: Seq<String>) -> Seq<Player> {
    names.map_values(|s: String| Player { name: s, picked: None, has_picked: false })
}

/// In a batch add to roster `ps`, the name at `k` is acceptable once the
/// `k` names before it were appended: it is non-empty and not yet taken.
pub open spec fn step_ok(ps: Seq<Player>, names: Seq<String>, k: int) -> bool {
    &&& names[k]@.len() > 0
    &&& !has_name(ps + fresh_players(names.take(k)), names[k]@)
}

/// A batch add stopped at position `k`: the names before `k` were appended,
/// the name at `k` was rejected, and `m` is the message `add_player` gives
/// for that rejection.
pub open spec fn batch_failed_at(
    pre: SecretSantaGame,
    post: SecretSantaGame,
    names: Seq<String>,
    m: String,
    k: int,
) -> bool {
    &&& 0 <= k < names.len()
    &&& forall|j: int| 0 <= j < k ==> step_ok(pre.players@, names, j)
    &&& !step_ok(pre.players@, names, k)
    &&& post.players@ == pre.players@ + fresh_players(names.take(k))
    &&& m@ == if has_name(pre.players@ + fresh_players(names.take(k)), names[k]@) {
        "Player "@ + names[k]@ + " already exists"@
    } else {
        "Player name cannot be empty"@
    }
}

/// Exactly how `add_players` relates the state before the call, the state
/// after it, the given names and the result: it appends a fresh participant
/// per name, in order, stopping at the first name `add_player` would
/// reject; names appended before a rejection stay.
pub open spec fn add_players_post(
    pre: SecretSantaGame,
    post: SecretSantaGame,
    names: Seq<String>,
    r: Result<(), String>,
) -> bool {
    match r {
        Ok(_) => {
            &&& names.len() > 0 ==> pre.status is NotStarted
            &&& post.status == pre.status
            &&& post.players@ == pre.players@ + fresh_players(names)
            &&& forall|k: int| 0 <= k < names.len() ==> step_ok(pre.players@, names, k)
        },
        Err(m) => {
            &&& post.status == pre.status
            &&& if !(pre.status is NotStarted) {
                names.len() > 0 && post == pre && m@ == "Game already started or finished"@
            } else {
                exists|k: int| #[trigger] batch_failed_at(pre, post, names, m, k)
            }
        },
    }
}

impl SecretSantaGame {
    /// Snapshot for display: the status and, for each participant in roster
    /// order, the name and whether they have revealed. Assigned recipients
    /// are never exposed here.
    pub fn get_info(&self) -> (info: SantaGameInfo)
        ensures
            info.status == self.status,
            info.players@.len() == self.players@.len(),
            forall|i: int|
                0 <= i < self.players@.len() ==> (#[trigger] info.players@[i]).name@
                    == self.players@[i].name@ && info.players@[i].has_picked
                    == self.players@[i].has_picked,
    {
        let mut rows: Vec<PlayerInfo> = Vec::new();
        let n = self.players.len();
        let mut i: usize = 0;
        while i < n
            invariant
                n == self.players@.len(),
                i <= n,
                rows@.len() == i,
                forall|k: int|
                    0 <= k < i ==> (#[trigger] rows@[k]).name@ == self.players@[k].name@ && rows@[
                        k].has_picked == self.players@[k].has_picked,
            decreases n - i,
        {
            let nm = self.players[i].name.clone();
            let hp = self.players[i].has_picked;
            rows.push(PlayerInfo { name: nm, has_picked: hp });
            i += 1;
        }
        SantaGameInfo { status: self.status, players: rows }
    }

    /// The registered names, in roster order.
    pub fn show_players(&self) -> (list: Players)
        ensures
            list.names@.len() == self.players@.len(),
            forall|i: int|
                0 <= i < self.players@.len() ==> (#[trigger] list.names@[i])@
                    == self.players@[i].name@,
    {
        let mut names: Vec<String> = Vec::new();
        let n = self.players.len();
        let mut i: usize = 0;
        while i < n
            invariant
                n == self.players@.len(),
                i <= n,
                names@.len() == i,
                forall|k: int| 0 <= k < i ==> (#[trigger] names@[k])@ == self.players@[k].name@,
            decreases n - i,
        {
            let nm = self.players[i].name.clone();
            names.push(nm);
            i += 1;
        }
        Players { names }
    }

    /// Registers every given name in order, stopping at the first one the
    /// game rejects and reporting that rejection's message; names added
    /// before it stay, as a caller sees them through the roster.
    #[verifier::rlimit(50)]
    pub fn add_players(&mut self, names: &Vec<String>) -> (r: Result<(), String>)
        requires
            old(self).wf(),
        ensures
            final(self).wf(),
            add_players_post(*old(self), *final(self), names@, r),
    {
        proof {
            assert(old(self).players@ + fresh_players(names@.take(0)) =~= old(self).players@);
        }
        let n = names.len();
        let mut i: usize = 0;
        while i < n
            invariant
                old(self).wf(),
                self.wf(),
                n == names@.len(),
                i <= n,
                self.status == old(self).status,
                i == 0 ==> *self == *old(self),
                i > 0 ==> old(self).status is NotStarted,
                self.players@ == old(self).players@ + fresh_players(names@.take(i as int)),
                forall|j: int| 0 <= j < i ==> step_ok(old(self).players@, names@, j),
            decreases n - i,
        {
            let ghost pre_call = *self;
            let nm = names[i].clone();
            let res = self.add_player(Player { name: nm, picked: None, has_picked: false });
            match res {
                Err(m) => {
                    proof {
                        if i == 0 && !(old(self).status is NotStarted) {
                            assert(*self == *old(self));
                        } else {
                            assert(old(self).status is NotStarted);
                            assert(batch_failed_at(*old(self), *self, names@, m, i as int));
                        }
                    }
                    return Err(m);
                },
                Ok(_) => {
                    proof {
                        assert(self.players@ =~= old(self).players@ + fresh_players(
                            names@.take(i + 1),
                        ));
                        assert(step_ok(old(self).players@, names@, i as int));
                    }
                },
            }
            i += 1;
        }
        proof {
            assert(names@.take(n as int) =~= names@);
        }
        Ok(())
    }
}

} // verus!
