//! The assignment, read as a relation on names: in a started game it is a
//! permutation of the registered names with no fixed point, and following it
//! from any participant walks one cycle through the whole roster.

use vstd::prelude::*;
use crate::game::Player;
use crate::game::SecretSantaGame;
use crate::game::cyclic_next;
use crate::game::has_name;
use crate::game::index_of_name;
use crate::game::linked;
use crate::game::names_distinct;

verus! {

/// The recipient assigned to the participant named `nm`.
pub open spec fn recipient_of(ps: Seq<Player>, nm: Seq<char>) -> Seq<char> {
    ps[index_of_name(ps, nm)].picked.unwrap()@
}

/// The name reached from `nm` after following the assignment `k` times.
pub open spec fn follow(ps: Seq<Player>, nm: Seq<char>, k: nat) -> Seq<char>
    decreases k,
{
    if k == 0 {
        nm
    } else {
        recipient_of(ps, follow(ps, nm, (k - 1) as nat))
    }
}

/// The position reached from `i` after `k` single steps around a cycle of
/// `n` positions.
pub open spec fn cyclic_add(n: int, i: int, k: nat) -> int
    decreases k,
{
    if k == 0 {
        i
    } else {
        cyclic_next(n, cyclic_add(n, i, (k - 1) as nat))
    }
}

/// With distinct names, a participant's roster position is recovered from
/// their name.
proof fn lemma_index_of_name(ps: Seq<Player>, j: int)
    requires
        names_distinct(ps),
        0 <= j < ps.len(),
    ensures
        index_of_name(ps, ps[j].name@) == j,
{
    assert(has_name(ps, ps[j].name@));
    let i = index_of_name(ps, ps[j].name@);
    assert(0 <= i < ps.len() && ps[i].name@ == ps[j].name@);
}

/// In a linked roster, the recipient of the participant at `j` is the
/// participant at the next position.
proof fn lemma_recipient_at(ps: Seq<Player>, j: int)
    requires
        names_distinct(ps),
        linked(ps),
        0 <= j < ps.len(),
    ensures
        recipient_of(ps, ps[j].name@) == ps[cyclic_next(ps.len() as int, j)].name@,
{
    lemma_index_of_name(ps, j);
}

/// Walking `k <= n` steps around a cycle of `n` positions lands at
/// `i + k`, wrapped once past the end.
proof fn lemma_cyclic_add_value(n: int, i: int, k: nat)
    requires
        0 <= i < n,
        k <= n,
    ensures
        cyclic_add(n, i, k) == if i + k < n {
            i + k
        } else {
            i + k - n
        },
    decreases k,
{
    if k > 0 {
        lemma_cyclic_add_value(n, i, (k - 1) as nat);
    }
}

/// Following the assignment `k` times from the participant at `j` reaches
/// the participant `k` positions further around the roster.
proof fn lemma_follow_at(ps: Seq<Player>, j: int, k: nat)
    requires
        names_distinct(ps),
        linked(ps),
        0 <= j < ps.len(),
    ensures
        0 <= cyclic_add(ps.len() as int, j, k) < ps.len(),
        follow(ps, ps[j].name@, k) == ps[cyclic_add(ps.len() as int, j, k)].name@,
    decreases k,
{
    if k > 0 {
        lemma_follow_at(ps, j, (k - 1) as nat);
        lemma_recipient_at(ps, cyclic_add(ps.len() as int, j, (k - 1) as nat));
    }
}

/// Law: in a started game the assignment maps every registered name to a
/// registered name that is not the bearer's own: it has no fixed point.
pub proof fn lemma_assignment_no_self(g: SecretSantaGame, nm: Seq<char>)
    requires
        g.wf(),
        !(g.status is NotStarted),
        has_name(g.players@, nm),
    ensures
        has_name(g.players@, recipient_of(g.players@, nm)),
        recipient_of(g.players@, nm) != nm,
{
    let ps = g.players@;
    let n = ps.len() as int;
    let j = index_of_name(ps, nm);
    assert(0 <= j < n && ps[j].name@ == nm);
    lemma_recipient_at(ps, j);
    assert(cyclic_next(n, j) != j);
}

/// Law: in a started game the assignment is injective on registered names:
/// no two participants gift the same recipient. Together with
/// `lemma_assignment_no_self` this makes the assignment a fixed-point-free
/// permutation of the registered names.
pub proof fn lemma_assignment_injective(g: SecretSantaGame, nm1: Seq<char>, nm2: Seq<char>)
    requires
        g.wf(),
        !(g.status is NotStarted),
        has_name(g.players@, nm1),
        has_name(g.players@, nm2),
        recipient_of(g.players@, nm1) == recipient_of(g.players@, nm2),
    ensures
        nm1 == nm2,
{
    let ps = g.players@;
    let n = ps.len() as int;
    let j1 = index_of_name(ps, nm1);
    let j2 = index_of_name(ps, nm2);
    assert(0 <= j1 < n && ps[j1].name@ == nm1);
    assert(0 <= j2 < n && ps[j2].name@ == nm2);
    lemma_recipient_at(ps, j1);
    lemma_recipient_at(ps, j2);
    assert(cyclic_next(n, j1) == cyclic_next(n, j2));
}

/// Law: in a started game, following the assignment from any registered
/// name returns to that name after exactly as many steps as there are
/// participants, and never earlier: the assignment is one cycle through the
/// whole roster, not several disjoint sub-cycles.
pub proof fn lemma_assignment_single_cycle(g: SecretSantaGame, nm: Seq<char>, k: nat)
    requires
        g.wf(),
        !(g.status is NotStarted),
        has_name(g.players@, nm),
        k <= g.players@.len(),
    ensures
        follow(g.players@, nm, g.players@.len()) == nm,
        0 < k < g.players@.len() ==> follow(g.players@, nm, k) != nm,
{
    let ps = g.players@;
    let n = ps.len() as int;
    let j = index_of_name(ps, nm);
    assert(0 <= j < n && ps[j].name@ == nm);
    lemma_follow_at(ps, j, ps.len());
    lemma_cyclic_add_value(n, j, ps.len());
    assert(cyclic_add(n, j, ps.len()) == j);
    if 0 < k < ps.len() {
        lemma_follow_at(ps, j, k);
        lemma_cyclic_add_value(n, j, k);
        assert(cyclic_add(n, j, k) != j);
    }
}

} // verus!
