//! Damage application and the death sweep: the second and third combat
//! stages.  Accumulated damage is summed and applied with hit points clamped
//! at zero, accumulators are drained, and entities at zero hit points are
//! logged and queued for deletion at the synchronization point.

use vstd::prelude::*;
use vstd::string::StringExecFns;
use crate::components::CombatStats;
use crate::gamelog::GameLog;
use crate::world::World;

verus! {

/// Sum of a damage accumulator's amounts.
pub open spec fn spec_sum(s: Seq<i32>) -> int
    decreases s.len(),
{
    if s.len() == 0 {
        0
    } else {
        spec_sum(s.drop_last()) + s.last()
    }
}

/// The stats entity `e` holds after damage application: accumulated damage
/// subtracted from hit points, clamped at zero; entities without both stats
/// and an accumulator keep their stats unchanged.
pub open spec fn spec_damaged_stats(w: World, e: int) -> Option<CombatStats> {
    match (w.combat_stats@[e], w.suffer_damage@[e]) {
        (Some(s), Some(d)) => Some(
            CombatStats {
                hp: (if s.hp - spec_sum(d.amount@) > 0 {
                    s.hp - spec_sum(d.amount@)
                } else {
                    0
                }) as i32,
                ..s
            },
        ),
        _ => w.combat_stats@[e],
    }
}

/// A nonnegative-amount accumulator has a nonnegative sum.
proof fn lemma_sum_nonneg(s: Seq<i32>)
    requires
        forall|k: int| 0 <= k < s.len() ==> s[k] >= 0,
    ensures
        spec_sum(s) >= 0,
    decreases s.len(),
{
    if s.len() > 0 {
        lemma_sum_nonneg(s.drop_last());
    }
}

/// Damage application: for every entity with both stats and a damage
/// accumulator, set `hp = max(0, hp - sum(amounts))`; afterwards every
/// accumulator is drained and every stored hit-point value lies in
/// `[0, max_hp]` again.
#[verifier::rlimit(100)]
pub fn run_damage(world: &mut World)
    requires
        old(world).spec_wf(),
    ensures
        final(world).spec_wf(),
        final(world).spec_len() == old(world).spec_len(),
        final(world).alive@ == old(world).alive@,
        final(world).positions@ == old(world).positions@,
        final(world).renderables@ == old(world).renderables@,
        final(world).names@ == old(world).names@,
        final(world).viewsheds@ == old(world).viewsheds@,
        final(world).players@ == old(world).players@,
        final(world).monsters@ == old(world).monsters@,
        final(world).blockers@ == old(world).blockers@,
        final(world).items@ == old(world).items@,
        final(world).potions@ == old(world).potions@,
        final(world).backpacks@ == old(world).backpacks@,
        final(world).melee_intents@ == old(world).melee_intents@,
        final(world).pickup_intents@ == old(world).pickup_intents@,
        final(world).consume_intents@ == old(world).consume_intents@,
        final(world).pending_deletes@ == old(world).pending_deletes@,
        forall|e: int| 0 <= e < old(world).spec_len() ==> final(world).suffer_damage@[e] is None,
        forall|e: int|
            0 <= e < old(world).spec_len() ==> #[trigger] final(world).combat_stats@[e]
                == spec_damaged_stats(*old(world), e),
        forall|e: int|
            0 <= e < old(world).spec_len() ==> (#[trigger] final(world).combat_stats@[e] matches Some(s) ==> 0 <= s.hp <= s.max_hp),
{
    let n = world.alive.len();
    let mut e: usize = 0;
    while e < n
        invariant
            world.spec_wf(),
            old(world).spec_wf(),
            n == old(world).spec_len(),
            world.spec_len() == n,
            e <= n,
            world.alive@ == old(world).alive@,
            world.positions@ == old(world).positions@,
            world.renderables@ == old(world).renderables@,
            world.names@ == old(world).names@,
            world.viewsheds@ == old(world).viewsheds@,
            world.players@ == old(world).players@,
            world.monsters@ == old(world).monsters@,
            world.blockers@ == old(world).blockers@,
            world.items@ == old(world).items@,
            world.potions@ == old(world).potions@,
            world.backpacks@ == old(world).backpacks@,
            world.melee_intents@ == old(world).melee_intents@,
            world.pickup_intents@ == old(world).pickup_intents@,
            world.consume_intents@ == old(world).consume_intents@,
            world.pending_deletes@ == old(world).pending_deletes@,
            forall|d: int| 0 <= d < e ==> world.suffer_damage@[d] is None,
            forall|d: int| e <= d < n ==> world.suffer_damage@[d] == old(world).suffer_damage@[d],
            forall|d: int|
                0 <= d < e ==> #[trigger] world.combat_stats@[d] == spec_damaged_stats(
                    *old(world),
                    d,
                ),
            forall|d: int| e <= d < n ==> world.combat_stats@[d] == old(world).combat_stats@[d],
        decreases n - e,
    {
        let has_stats = world.combat_stats[e].is_some();
        let has_damage = world.suffer_damage[e].is_some();
        if has_stats && has_damage {
            let s = match &world.combat_stats[e] {
                Some(s) => *s,
                None => CombatStats { max_hp: 0, hp: 0, defense: 0, power: 0 },
            };
            let ghost amounts = world.suffer_damage@[e as int]->Some_0.amount@;
            let mut total: u64 = 0;
            let mut k: usize = 0;
            let n_amt = match &world.suffer_damage[e] {
                Some(d) => d.amount.len(),
                None => 0,
            };
            while k < n_amt
                invariant
                    world.spec_wf(),
                    world.spec_len() == n,
                    0 <= e < n,
                    world.suffer_damage@[e as int] matches Some(d) && d.amount@ == amounts,
                    n_amt == amounts.len(),
                    k <= n_amt,
                    forall|kk: int| 0 <= kk < amounts.len() ==> amounts[kk] >= 0,
                    total == (if spec_sum(amounts.take(k as int)) > u64::MAX {
                        u64::MAX as int
                    } else {
                        spec_sum(amounts.take(k as int))
                    }),
                decreases n_amt - k,
            {
                let a = match &world.suffer_damage[e] {
                    Some(d) => d.amount[k],
                    None => 0,
                };
                proof {
                    assert(amounts.take(k + 1).drop_last() =~= amounts.take(k as int));
                    assert(amounts.take(k + 1).last() == amounts[k as int]);
                    lemma_sum_nonneg(amounts.take(k as int));
                }
                total = total.saturating_add(a as u64);
                k = k + 1;
            }
            proof {
                assert(amounts.take(n_amt as int) =~= amounts);
                lemma_sum_nonneg(amounts);
            }
            let new_hp: i32 = if total >= s.hp as u64 {
                0
            } else {
                s.hp - total as i32
            };
            world.combat_stats[e] = Some(
                CombatStats { max_hp: s.max_hp, hp: new_hp, defense: s.defense, power: s.power },
            );
        }
        world.suffer_damage[e] = None;
        e = e + 1;
    }
}

/// Which dead entities the sweep below queues for deletion: every live
/// entity whose stats show exactly zero hit points, except the player, in
/// entity order.
pub open spec fn spec_dead_marks(w: World, upto: int) -> Seq<usize>
    decreases upto,
{
    if upto <= 0 {
        Seq::empty()
    } else {
        let e = upto - 1;
        spec_dead_marks(w, e) + (if spec_is_dead(w, e) && w.players@[e] is None {
            seq![e as usize]
        } else {
            Seq::<usize>::empty()
        })
    }
}

/// Entity `e` is a live combatant at exactly zero hit points.
pub open spec fn spec_is_dead(w: World, e: int) -> bool {
    &&& 0 <= e < w.spec_len()
    &&& w.alive@[e]
    &&& w.combat_stats@[e] matches Some(s) && s.hp == 0
}

/// The log lines the sweep appends, in entity order: the player's death is
/// announced specially; a named entity dies with its name; an unnamed one
/// dies silently.
pub open spec fn spec_death_lines(w: World, upto: int) -> Seq<Seq<char>>
    decreases upto,
{
    if upto <= 0 {
        Seq::empty()
    } else {
        let e = upto - 1;
        spec_death_lines(w, e) + (if spec_is_dead(w, e) {
            if w.players@[e] is Some {
                seq!["You have died!"@]
            } else {
                match w.names@[e] {
                    Some(nm) => seq![nm.name@ + " has died!"@],
                    None => Seq::<Seq<char>>::empty(),
                }
            }
        } else {
            Seq::<Seq<char>>::empty()
        })
    }
}

/// The death sweep: scan every live combatant at zero hit points, append a
/// log entry ("X has died!", or a distinguished message for the player), and
/// queue every non-player among them for deletion.  Deletion itself happens
/// only at the synchronization point, never during the scan, and the player
/// entity is never deleted.
#[verifier::rlimit(100)]
pub fn delete_the_dead(world: &mut World, log: &mut GameLog)
    requires
        old(world).spec_wf(),
    ensures
        final(world).spec_wf(),
        final(world).spec_len() == old(world).spec_len(),
        forall|d: int|
            0 <= d < old(world).spec_len() ==> crate::world::entity_unchanged(
                *old(world),
                *final(world),
                d,
            ),
        final(world).pending_deletes@ == old(world).pending_deletes@ + spec_dead_marks(
            *old(world),
            old(world).spec_len(),
        ),
        final(log).entries@.len() == old(log).entries@.len() + spec_death_lines(
            *old(world),
            old(world).spec_len(),
        ).len(),
        forall|k: int|
            0 <= k < old(log).entries@.len() ==> #[trigger] final(log).entries@[k] == old(log).entries@[k],
        forall|k: int|
            0 <= k < spec_death_lines(*old(world), old(world).spec_len()).len()
                ==> (#[trigger] final(log).entries@[old(log).entries@.len() + k])@
                == spec_death_lines(*old(world), old(world).spec_len())[k],
{
    let n = world.alive.len();
    let mut e: usize = 0;
    while e < n
        invariant
            world.spec_wf(),
            old(world).spec_wf(),
            n == old(world).spec_len(),
            world.spec_len() == n,
            e <= n,
            forall|d: int|
                0 <= d < n ==> crate::world::entity_unchanged(*old(world), *world, d),
            world.pending_deletes@ == old(world).pending_deletes@ + spec_dead_marks(
                *old(world),
                e as int,
            ),
            log.entries@.len() == old(log).entries@.len() + spec_death_lines(
                *old(world),
                e as int,
            ).len(),
            forall|k: int|
                0 <= k < old(log).entries@.len() ==> #[trigger] log.entries@[k] == old(log).entries@[k],
            forall|k: int|
                0 <= k < spec_death_lines(*old(world), e as int).len() ==> (#[trigger] log.entries@[old(log).entries@.len() + k])@ == spec_death_lines(*old(world), e as int)[k],
        decreases n - e,
    {
        let ghost w_pre = *world;
        let ghost log_pre = log.entries@;
        let mut is_dead = false;
        if world.alive[e] {
            if let Some(s) = &world.combat_stats[e] {
                if s.hp == 0 {
                    is_dead = true;
                }
            }
        }
        let is_player = world.players[e].is_some();
        let has_name = world.names[e].is_some();
        if is_dead {
            if is_player {
                log.entries.push("You have died!".to_owned());
            } else {
                match &world.names[e] {
                    Some(nm) => {
                        let mut msg = nm.name.clone();
                        msg.append(" has died!");
                        log.entries.push(msg);
                    },
                    None => {},
                }
                world.delete_entity(e);
            }
        }
        proof {
            assert(crate::world::entity_unchanged(*old(world), w_pre, e as int));
            assert(is_dead == spec_is_dead(*old(world), e as int));
            assert(is_player == (old(world).players@[e as int] is Some));
            assert(has_name == (old(world).names@[e as int] is Some));
            let marks_pre = spec_dead_marks(*old(world), e as int);
            let lines_pre = spec_death_lines(*old(world), e as int);
            if !is_dead {
                assert(spec_dead_marks(*old(world), e + 1) =~= marks_pre);
                assert(spec_death_lines(*old(world), e + 1) =~= lines_pre);
            } else if is_player {
                assert(spec_dead_marks(*old(world), e + 1) =~= marks_pre);
                assert(spec_death_lines(*old(world), e + 1) =~= lines_pre.push("You have died!"@));
            } else if has_name {
                assert(spec_dead_marks(*old(world), e + 1) =~= marks_pre.push(e));
                let nm = old(world).names@[e as int]->Some_0;
                assert(spec_death_lines(*old(world), e + 1) =~= lines_pre.push(
                    nm.name@ + " has died!"@,
                ));
            } else {
                assert(spec_dead_marks(*old(world), e + 1) =~= marks_pre.push(e));
                assert(spec_death_lines(*old(world), e + 1) =~= lines_pre);
            }
            assert(world.pending_deletes@ =~= old(world).pending_deletes@ + spec_dead_marks(
                *old(world),
                e + 1,
            ));
            assert(log.entries@.len() == old(log).entries@.len() + spec_death_lines(
                *old(world),
                e + 1,
            ).len());
            assert forall|k: int|
                0 <= k < spec_death_lines(*old(world), e + 1).len() implies (#[trigger] log.entries@[old(log).entries@.len() + k])@ == spec_death_lines(*old(world), e + 1)[k] by {
                if k < lines_pre.len() {
                    assert(log.entries@[old(log).entries@.len() + k] == log_pre[old(log).entries@.len() + k]);
                }
            }
            assert(spec_dead_marks(*old(world), e + 1) == spec_dead_marks(*old(world), e as int)
                + (if spec_is_dead(*old(world), e as int) && old(world).players@[e as int] is None {
                seq![e]
            } else {
                Seq::<usize>::empty()
            }));
            assert(spec_death_lines(*old(world), e + 1) == spec_death_lines(
                *old(world),
                e as int,
            ) + (if spec_is_dead(*old(world), e as int) {
                if old(world).players@[e as int] is Some {
                    seq!["You have died!"@]
                } else {
                    match old(world).names@[e as int] {
                        Some(nm) => seq![nm.name@ + " has died!"@],
                        None => Seq::<Seq<char>>::empty(),
                    }
                }
            } else {
                Seq::<Seq<char>>::empty()
            }));
            assert forall|d: int|
                0 <= d < n implies crate::world::entity_unchanged(*old(world), *world, d) by {
                assert(crate::world::entity_unchanged(*old(world), w_pre, d));
                assert(crate::world::entity_unchanged(w_pre, *world, d));
            }
        }
        e = e + 1;
    }
}

/// Every queued dead entity is a non-player below the store length.
pub proof fn lemma_dead_marks_non_player(w: World, upto: int)
    requires
        w.spec_len() <= usize::MAX,
    ensures
        forall|k: int|
            0 <= k < spec_dead_marks(w, upto).len() ==> (#[trigger] spec_dead_marks(w, upto)[k])
                < w.spec_len() && w.players@[spec_dead_marks(w, upto)[k] as int] is None,
    decreases upto,
{
    if upto > 0 {
        lemma_dead_marks_non_player(w, upto - 1);
        let prev = spec_dead_marks(w, upto - 1);
        let cur = spec_dead_marks(w, upto);
        assert forall|k: int|
            0 <= k < cur.len() implies cur[k] < w.spec_len() && w.players@[cur[k] as int]
            is None by {
            if k < prev.len() {
                assert(cur[k] == prev[k]);
            } else {
                assert(cur.len() > prev.len());
                if !(spec_is_dead(w, upto - 1) && w.players@[upto - 1] is None) {
                    assert(cur.len() == prev.len());
                }
                assert(cur[k] == (upto - 1) as usize);
            }
        }
    }
}

/// With no live combatant at zero hit points, the sweep queues nothing.
pub proof fn lemma_dead_marks_none(w: World, upto: int)
    requires
        forall|e: int| 0 <= e < w.spec_len() ==> !spec_is_dead(w, e),
        upto <= w.spec_len(),
    ensures
        spec_dead_marks(w, upto).len() == 0,
    decreases upto,
{
    if upto > 0 {
        lemma_dead_marks_none(w, upto - 1);
    }
}

} // verus!
