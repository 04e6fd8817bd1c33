//! Item handling: moving picked-up items into backpacks, and drinking
//! potions.  Both consume their intent attributes within the tick.

use vstd::prelude::*;
use vstd::string::StringExecFns;
use crate::components::{CombatStats, InBackpack};
use crate::gamelog::GameLog;
use crate::world::{Entity, World};

verus! {

/// Entity `e` picks up item `i` this tick.
pub open spec fn spec_picks(w: World, e: int, i: int) -> bool {
    &&& 0 <= e < w.spec_len()
    &&& w.alive@[e]
    &&& w.pickup_intents@[e] matches Some(pk) && pk.item == i
    &&& 0 <= i < w.spec_len()
}

/// The log lines the collection stage appends for `player`, in entity
/// order: one "You pick up the <name>." line per pickup the player makes of
/// a named item.
pub open spec fn spec_pickup_lines(w: World, player: Entity, upto: int) -> Seq<Seq<char>>
    decreases upto,
{
    if upto <= 0 {
        Seq::empty()
    } else {
        let e = upto - 1;
        spec_pickup_lines(w, player, e) + (match w.pickup_intents@[e] {
            Some(pk) => if w.alive@[e] && pk.item < w.spec_len() && pk.collected_by == player {
                match w.names@[pk.item as int] {
                    Some(nm) => seq!["You pick up the "@ + nm.name@ + "."@],
                    None => Seq::<Seq<char>>::empty(),
                }
            } else {
                Seq::<Seq<char>>::empty()
            },
            None => Seq::<Seq<char>>::empty(),
        })
    }
}

/// Item collection: every picked-up item loses its map position and gains an
/// `InBackpack` attribute naming its collector; each of the player's pickups
/// of a named item appends exactly one log line; all pickup intents are
/// consumed.
#[verifier::rlimit(100)]
pub fn run_item_collection(world: &mut World, player_entity: Entity, log: &mut GameLog)
    requires
        old(world).spec_wf(),
    ensures
        final(world).spec_wf(),
        final(world).spec_len() == old(world).spec_len(),
        final(world).alive@ == old(world).alive@,
        final(world).renderables@ == old(world).renderables@,
        final(world).names@ == old(world).names@,
        final(world).viewsheds@ == old(world).viewsheds@,
        final(world).combat_stats@ == old(world).combat_stats@,
        final(world).players@ == old(world).players@,
        final(world).monsters@ == old(world).monsters@,
        final(world).blockers@ == old(world).blockers@,
        final(world).items@ == old(world).items@,
        final(world).potions@ == old(world).potions@,
        final(world).melee_intents@ == old(world).melee_intents@,
        final(world).suffer_damage@ == old(world).suffer_damage@,
        final(world).consume_intents@ == old(world).consume_intents@,
        final(world).pending_deletes@ == old(world).pending_deletes@,
        forall|e: int| 0 <= e < old(world).spec_len() ==> final(world).pickup_intents@[e] is None,
        forall|i: int|
            0 <= i < old(world).spec_len() && (exists|e: int|
                spec_picks(*old(world), e, i)) ==> final(world).positions@[i] is None && (final(world).backpacks@[i] matches Some(b) && exists|e: int|
                spec_picks(*old(world), e, i) && old(world).pickup_intents@[e]->Some_0.collected_by
                    == b.owner),
        forall|i: int|
            0 <= i < old(world).spec_len() && !(exists|e: int|
                spec_picks(*old(world), e, i)) ==> final(world).positions@[i] == old(world).positions@[i] && final(world).backpacks@[i] == old(world).backpacks@[i],
        final(log).entries@.len() == old(log).entries@.len() + spec_pickup_lines(
            *old(world),
            player_entity,
            old(world).spec_len(),
        ).len(),
        forall|k: int|
            0 <= k < old(log).entries@.len() ==> #[trigger] final(log).entries@[k] == old(log).entries@[k],
        forall|k: int|
            0 <= k < spec_pickup_lines(*old(world), player_entity, old(world).spec_len()).len()
                ==> (#[trigger] final(log).entries@[old(log).entries@.len() + k])@
                == spec_pickup_lines(*old(world), player_entity, old(world).spec_len())[k],
{
    let n = world.alive.len();
    let mut e: usize = 0;
    while e < n
        invariant
            world.spec_wf(),
            old(world).spec_wf(),
            n == old(world).spec_len(),
            world.spec_len() == n,
            e <= n,
            world.alive@ == old(world).alive@,
            world.renderables@ == old(world).renderables@,
            world.names@ == old(world).names@,
            world.viewsheds@ == old(world).viewsheds@,
            world.combat_stats@ == old(world).combat_stats@,
            world.players@ == old(world).players@,
            world.monsters@ == old(world).monsters@,
            world.blockers@ == old(world).blockers@,
            world.items@ == old(world).items@,
            world.potions@ == old(world).potions@,
            world.melee_intents@ == old(world).melee_intents@,
            world.suffer_damage@ == old(world).suffer_damage@,
            world.consume_intents@ == old(world).consume_intents@,
            world.pending_deletes@ == old(world).pending_deletes@,
            world.pickup_intents@ == old(world).pickup_intents@,
            forall|i: int|
                0 <= i < n && (exists|d: int|
                    d < e && spec_picks(*old(world), d, i)) ==> world.positions@[i] is None && (
                world.backpacks@[i] matches Some(b) && exists|d: int|
                    spec_picks(*old(world), d, i) && old(world).pickup_intents@[d]->Some_0.collected_by == b.owner),
            forall|i: int|
                0 <= i < n && !(exists|d: int|
                    d < e && spec_picks(*old(world), d, i)) ==> world.positions@[i] == old(world).positions@[i] && world.backpacks@[i] == old(world).backpacks@[i],
            log.entries@.len() == old(log).entries@.len() + spec_pickup_lines(
                *old(world),
                player_entity,
                e as int,
            ).len(),
            forall|k: int|
                0 <= k < old(log).entries@.len() ==> #[trigger] log.entries@[k] == old(log).entries@[k],
            forall|k: int|
                0 <= k < spec_pickup_lines(*old(world), player_entity, e as int).len()
                    ==> (#[trigger] log.entries@[old(log).entries@.len() + k])@
                    == spec_pickup_lines(*old(world), player_entity, e as int)[k],
        decreases n - e,
    {
        let ghost log_pre = log.entries@;
        let mut has_pickup = false;
        let mut item: usize = 0;
        let mut collected_by: usize = 0;
        if world.alive[e] {
            if let Some(pk) = &world.pickup_intents[e] {
                has_pickup = true;
                item = pk.item;
                collected_by = pk.collected_by;
            }
        }
        if has_pickup && item < n {
            world.positions[item] = None;
            world.backpacks[item] = Some(InBackpack { owner: collected_by });
            proof {
                assert(spec_picks(*old(world), e as int, item as int));
            }
            if collected_by == player_entity {
                match &world.names[item] {
                    Some(nm) => {
                        let mut msg = "You pick up the ".to_owned();
                        msg.append(nm.name.as_str());
                        msg.append(".");
                        proof {
                            assert(msg@ == "You pick up the "@ + old(world).names@[item as int]->Some_0.name@ + "."@);
                        }
                        log.entries.push(msg);
                    },
                    None => {},
                }
            }
        }
        proof {
            let lines_pre = spec_pickup_lines(*old(world), player_entity, e as int);
            let lines_now = spec_pickup_lines(*old(world), player_entity, e + 1);
            if has_pickup && item < n && collected_by == player_entity && old(world).names@[item as int] is Some {
                assert(lines_now =~= lines_pre.push(
                    "You pick up the "@ + old(world).names@[item as int]->Some_0.name@ + "."@,
                ));
            } else {
                assert(lines_now =~= lines_pre);
            }
            assert(log.entries@.len() == old(log).entries@.len() + lines_now.len());
            assert forall|k: int|
                0 <= k < lines_now.len() implies (#[trigger] log.entries@[old(log).entries@.len()
                + k])@ == lines_now[k] by {
                if k < lines_pre.len() {
                    assert(log.entries@[old(log).entries@.len() + k] == log_pre[old(log).entries@.len() + k]);
                }
            }
        }
        proof {
            assert forall|i: int|
                0 <= i < n && !(exists|d: int|
                    d < e + 1 && spec_picks(*old(world), d, i)) implies world.positions@[i] == old(world).positions@[i] && world.backpacks@[i] == old(world).backpacks@[i] by {
                assert(!(exists|d: int| d < e && spec_picks(*old(world), d, i)));
                assert(!spec_picks(*old(world), e as int, i));
            }
        }
        e = e + 1;
    }
    let mut c: usize = 0;
    while c < n
        invariant
            world.spec_wf(),
            n == world.spec_len(),
            c <= n,
            world.alive@ == old(world).alive@,
            world.renderables@ == old(world).renderables@,
            world.names@ == old(world).names@,
            world.viewsheds@ == old(world).viewsheds@,
            world.combat_stats@ == old(world).combat_stats@,
            world.players@ == old(world).players@,
            world.monsters@ == old(world).monsters@,
            world.blockers@ == old(world).blockers@,
            world.items@ == old(world).items@,
            world.potions@ == old(world).potions@,
            world.melee_intents@ == old(world).melee_intents@,
            world.suffer_damage@ == old(world).suffer_damage@,
            world.consume_intents@ == old(world).consume_intents@,
            world.pending_deletes@ == old(world).pending_deletes@,
            forall|i: int|
                0 <= i < n && (exists|d: int|
                    d < n && spec_picks(*old(world), d, i)) ==> world.positions@[i] is None && (
                world.backpacks@[i] matches Some(b) && exists|d: int|
                    spec_picks(*old(world), d, i) && old(world).pickup_intents@[d]->Some_0.collected_by == b.owner),
            forall|i: int|
                0 <= i < n && !(exists|d: int|
                    d < n && spec_picks(*old(world), d, i)) ==> world.positions@[i] == old(world).positions@[i] && world.backpacks@[i] == old(world).backpacks@[i],
            old(log).entries@.len() <= log.entries@.len(),
            forall|k: int|
                0 <= k < old(log).entries@.len() ==> #[trigger] log.entries@[k] == old(log).entries@[k],
            forall|d: int| 0 <= d < c ==> world.pickup_intents@[d] is None,
        decreases n - c,
    {
        world.pickup_intents[c] = None;
        c = c + 1;
    }
}

/// The decimal digit character for `d`.
pub open spec fn spec_digit(d: int) -> char {
    if d == 0 {
        '0'
    } else if d == 1 {
        '1'
    } else if d == 2 {
        '2'
    } else if d == 3 {
        '3'
    } else if d == 4 {
        '4'
    } else if d == 5 {
        '5'
    } else if d == 6 {
        '6'
    } else if d == 7 {
        '7'
    } else if d == 8 {
        '8'
    } else {
        '9'
    }
}

/// The decimal rendering of a nonnegative number, most significant digit
/// first.
pub open spec fn spec_decimal(v: int) -> Seq<char>
    decreases v,
{
    if v < 10 {
        seq![spec_digit(v)]
    } else {
        spec_decimal(v / 10) + seq![spec_digit(v % 10)]
    }
}

/// Append the decimal rendering of `v` to `s`.
fn append_decimal(s: &mut String, v: i32)
    requires
        0 <= v,
    ensures
        final(s)@ == old(s)@ + spec_decimal(v as int),
    decreases v,
{
    if v >= 10 {
        append_decimal(s, v / 10);
    }
    let ghost mid = s@;
    let d = v % 10;
    if d == 0 {
        s.append("0");
        proof {
            reveal_strlit("0");
        }
    } else if d == 1 {
        s.append("1");
        proof {
            reveal_strlit("1");
        }
    } else if d == 2 {
        s.append("2");
        proof {
            reveal_strlit("2");
        }
    } else if d == 3 {
        s.append("3");
        proof {
            reveal_strlit("3");
        }
    } else if d == 4 {
        s.append("4");
        proof {
            reveal_strlit("4");
        }
    } else if d == 5 {
        s.append("5");
        proof {
            reveal_strlit("5");
        }
    } else if d == 6 {
        s.append("6");
        proof {
            reveal_strlit("6");
        }
    } else if d == 7 {
        s.append("7");
        proof {
            reveal_strlit("7");
        }
    } else if d == 8 {
        s.append("8");
        proof {
            reveal_strlit("8");
        }
    } else {
        s.append("9");
        proof {
            reveal_strlit("9");
        }
    }
    proof {
        assert(s@ =~= mid + seq![spec_digit(d as int)]);
        if v < 10 {
            assert(s@ =~= old(s)@ + spec_decimal(v as int));
        } else {
            assert(mid == old(s)@ + spec_decimal(v as int / 10));
            assert(s@ =~= old(s)@ + spec_decimal(v as int));
        }
    }
}

/// Entity `e` drinks item `i` this tick: it holds a consume intent for `i`
/// together with its own stats, and `i` is a potion.
pub open spec fn spec_drinks(w: World, e: int, i: int) -> bool {
    &&& 0 <= e < w.spec_len()
    &&& w.alive@[e]
    &&& w.consume_intents@[e] matches Some(c) && c.item == i
    &&& w.combat_stats@[e] is Some
    &&& 0 <= i < w.spec_len()
    &&& w.potions@[i] is Some
}

/// The stats entity `e` holds after the potion stage: healed by the potion's
/// amount, capped at `max_hp`.
pub open spec fn spec_healed_stats(w: World, e: int) -> Option<CombatStats> {
    if exists|i: int| spec_drinks(w, e, i) {
        let i = choose|i: int| spec_drinks(w, e, i);
        let s = w.combat_stats@[e]->Some_0;
        let heal = w.potions@[i]->Some_0.heal_amount;
        Some(
            CombatStats {
                hp: (if s.hp + heal < s.max_hp {
                    s.hp + heal
                } else {
                    s.max_hp as int
                }) as i32,
                ..s
            },
        )
    } else {
        w.combat_stats@[e]
    }
}

/// The consumed potion entities queued for deletion, in drinker order.
pub open spec fn spec_consumed_marks(w: World, upto: int) -> Seq<Entity>
    decreases upto,
{
    if upto <= 0 {
        Seq::empty()
    } else {
        let e = upto - 1;
        spec_consumed_marks(w, e) + (match w.consume_intents@[e] {
            Some(c) => if spec_drinks(w, e, c.item as int) {
                seq![c.item]
            } else {
                Seq::<Entity>::empty()
            },
            None => Seq::<Entity>::empty(),
        })
    }
}

/// The log lines the potion stage appends for `player`, in entity order:
/// one line per potion the player drinks of a named item, naming the potion
/// and the healing amount.
pub open spec fn spec_drink_lines(w: World, player: Entity, upto: int) -> Seq<Seq<char>>
    decreases upto,
{
    if upto <= 0 {
        Seq::empty()
    } else {
        let e = upto - 1;
        spec_drink_lines(w, player, e) + (match w.consume_intents@[e] {
            Some(c) => if e == player && spec_drinks(w, e, c.item as int) {
                match w.names@[c.item as int] {
                    Some(nm) => seq![
                        "You drink the "@ + nm.name@ + ", healing "@ + spec_decimal(
                            w.potions@[c.item as int]->Some_0.heal_amount as int,
                        ) + " hp."@,
                    ],
                    None => Seq::<Seq<char>>::empty(),
                }
            } else {
                Seq::<Seq<char>>::empty()
            },
            None => Seq::<Seq<char>>::empty(),
        })
    }
}

/// Potion use: every live entity with stats and a consume intent naming a
/// potion is healed by the potion's amount, capped at its `max_hp`; each of
/// the player's drinks of a named potion appends exactly one log line; all
/// consume intents are consumed.  Every queued entity carries a potion.
#[verifier::rlimit(100)]
pub fn run_item_use(world: &mut World, player_entity: Entity, log: &mut GameLog)
    requires
        old(world).spec_wf(),
    ensures
        final(world).spec_wf(),
        final(world).spec_len() == old(world).spec_len(),
        final(world).alive@ == old(world).alive@,
        final(world).positions@ == old(world).positions@,
        final(world).renderables@ == old(world).renderables@,
        final(world).names@ == old(world).names@,
        final(world).viewsheds@ == old(world).viewsheds@,
        final(world).players@ == old(world).players@,
        final(world).monsters@ == old(world).monsters@,
        final(world).blockers@ == old(world).blockers@,
        final(world).items@ == old(world).items@,
        final(world).potions@ == old(world).potions@,
        final(world).backpacks@ == old(world).backpacks@,
        final(world).melee_intents@ == old(world).melee_intents@,
        final(world).suffer_damage@ == old(world).suffer_damage@,
        final(world).pickup_intents@ == old(world).pickup_intents@,
        forall|e: int| 0 <= e < old(world).spec_len() ==> final(world).consume_intents@[e] is None,
        forall|e: int|
            0 <= e < old(world).spec_len() ==> #[trigger] final(world).combat_stats@[e]
                == spec_healed_stats(*old(world), e),
        final(world).pending_deletes@ == old(world).pending_deletes@ + spec_consumed_marks(
            *old(world),
            old(world).spec_len(),
        ),
        forall|k: int|
            0 <= k < spec_consumed_marks(*old(world), old(world).spec_len()).len()
                ==> (#[trigger] spec_consumed_marks(*old(world), old(world).spec_len())[k])
                < old(world).spec_len() && old(world).potions@[spec_consumed_marks(
                *old(world),
                old(world).spec_len(),
            )[k] as int] is Some,
        final(log).entries@.len() == old(log).entries@.len() + spec_drink_lines(
            *old(world),
            player_entity,
            old(world).spec_len(),
        ).len(),
        forall|k: int|
            0 <= k < old(log).entries@.len() ==> #[trigger] final(log).entries@[k] == old(log).entries@[k],
        forall|k: int|
            0 <= k < spec_drink_lines(*old(world), player_entity, old(world).spec_len()).len()
                ==> (#[trigger] final(log).entries@[old(log).entries@.len() + k])@
                == spec_drink_lines(*old(world), player_entity, old(world).spec_len())[k],
{
    proof {
        lemma_consumed_marks_potions(*old(world), old(world).spec_len());
    }
    let n = world.alive.len();
    let mut e: usize = 0;
    while e < n
        invariant
            world.spec_wf(),
            old(world).spec_wf(),
            n == old(world).spec_len(),
            world.spec_len() == n,
            e <= n,
            world.alive@ == old(world).alive@,
            world.positions@ == old(world).positions@,
            world.renderables@ == old(world).renderables@,
            world.names@ == old(world).names@,
            world.viewsheds@ == old(world).viewsheds@,
            world.players@ == old(world).players@,
            world.monsters@ == old(world).monsters@,
            world.blockers@ == old(world).blockers@,
            world.items@ == old(world).items@,
            world.potions@ == old(world).potions@,
            world.backpacks@ == old(world).backpacks@,
            world.melee_intents@ == old(world).melee_intents@,
            world.suffer_damage@ == old(world).suffer_damage@,
            world.pickup_intents@ == old(world).pickup_intents@,
            world.consume_intents@ == old(world).consume_intents@,
            forall|d: int|
                0 <= d < e ==> #[trigger] world.combat_stats@[d] == spec_healed_stats(
                    *old(world),
                    d,
                ),
            forall|d: int| e <= d < n ==> world.combat_stats@[d] == old(world).combat_stats@[d],
            world.pending_deletes@ == old(world).pending_deletes@ + spec_consumed_marks(
                *old(world),
                e as int,
            ),
            log.entries@.len() == old(log).entries@.len() + spec_drink_lines(
                *old(world),
                player_entity,
                e as int,
            ).len(),
            forall|k: int|
                0 <= k < old(log).entries@.len() ==> #[trigger] log.entries@[k] == old(log).entries@[k],
            forall|k: int|
                0 <= k < spec_drink_lines(*old(world), player_entity, e as int).len()
                    ==> (#[trigger] log.entries@[old(log).entries@.len() + k])@
                    == spec_drink_lines(*old(world), player_entity, e as int)[k],
        decreases n - e,
    {
        let ghost log_pre = log.entries@;
        let ghost w_pre = *world;
        let mut drinks = false;
        let mut item: usize = 0;
        if world.alive[e] {
            if let Some(c) = &world.consume_intents[e] {
                if world.combat_stats[e].is_some() {
                    item = c.item;
                    if item < n {
                        if world.potions[item].is_some() {
                            drinks = true;
                        }
                    }
                }
            }
        }
        if drinks {
            let heal = match &world.potions[item] {
                Some(p) => p.heal_amount,
                None => 0,
            };
            let s = match &world.combat_stats[e] {
                Some(s) => *s,
                None => CombatStats { max_hp: 0, hp: 0, defense: 0, power: 0 },
            };
            let new_hp = if s.hp + heal < s.max_hp {
                s.hp + heal
            } else {
                s.max_hp
            };
            world.combat_stats[e] = Some(
                CombatStats { max_hp: s.max_hp, hp: new_hp, defense: s.defense, power: s.power },
            );
            if e == player_entity {
                match &world.names[item] {
                    Some(nm) => {
                        let mut msg = "You drink the ".to_owned();
                        msg.append(nm.name.as_str());
                        msg.append(", healing ");
                        append_decimal(&mut msg, heal);
                        msg.append(" hp.");
                        proof {
                            assert(msg@ =~= "You drink the "@ + old(world).names@[item as int]->Some_0.name@ + ", healing "@ + spec_decimal(
                                old(world).potions@[item as int]->Some_0.heal_amount as int,
                            ) + " hp."@);
                        }
                        log.entries.push(msg);
                    },
                    None => {},
                }
            }
            world.pending_deletes.push(item);
            proof {
                assert(spec_drinks(*old(world), e as int, item as int));
                assert(exists|i: int| spec_drinks(*old(world), e as int, i));
                let i0 = choose|i: int| spec_drinks(*old(world), e as int, i);
                assert(old(world).consume_intents@[e as int]->Some_0.item == i0);
                assert(i0 == item as int);
                assert(spec_consumed_marks(*old(world), e + 1) =~= spec_consumed_marks(
                    *old(world),
                    e as int,
                ).push(item));
                assert(world.pending_deletes@ =~= old(world).pending_deletes@
                    + spec_consumed_marks(*old(world), e + 1));
            }
        } else {
            proof {
                if old(world).consume_intents@[e as int] is Some {
                    assert(!spec_drinks(
                        *old(world),
                        e as int,
                        old(world).consume_intents@[e as int]->Some_0.item as int,
                    ));
                }
                assert(spec_consumed_marks(*old(world), e + 1) =~= spec_consumed_marks(
                    *old(world),
                    e as int,
                ));
                assert(!(exists|i: int| spec_drinks(*old(world), e as int, i))) by {
                    if exists|i: int| spec_drinks(*old(world), e as int, i) {
                        let i0 = choose|i: int| spec_drinks(*old(world), e as int, i);
                        assert(old(world).consume_intents@[e as int]->Some_0.item == i0);
                    }
                }
            }
        }
        proof {
            let lines_pre = spec_drink_lines(*old(world), player_entity, e as int);
            let lines_now = spec_drink_lines(*old(world), player_entity, e + 1);
            if drinks && e == player_entity && old(world).names@[item as int] is Some {
                assert(lines_now =~= lines_pre.push(
                    "You drink the "@ + old(world).names@[item as int]->Some_0.name@
                        + ", healing "@ + spec_decimal(
                        old(world).potions@[item as int]->Some_0.heal_amount as int,
                    ) + " hp."@,
                ));
            } else {
                assert(lines_now =~= lines_pre);
            }
            assert(log.entries@.len() == old(log).entries@.len() + lines_now.len());
            assert forall|k: int|
                0 <= k < lines_now.len() implies (#[trigger] log.entries@[old(log).entries@.len()
                + k])@ == lines_now[k] by {
                if k < lines_pre.len() {
                    assert(log.entries@[old(log).entries@.len() + k] == log_pre[old(log).entries@.len() + k]);
                }
            }
        }
        e = e + 1;
    }
    let mut c: usize = 0;
    while c < n
        invariant
            world.spec_wf(),
            n == world.spec_len(),
            c <= n,
            world.alive@ == old(world).alive@,
            world.positions@ == old(world).positions@,
            world.renderables@ == old(world).renderables@,
            world.names@ == old(world).names@,
            world.viewsheds@ == old(world).viewsheds@,
            world.players@ == old(world).players@,
            world.monsters@ == old(world).monsters@,
            world.blockers@ == old(world).blockers@,
            world.items@ == old(world).items@,
            world.potions@ == old(world).potions@,
            world.backpacks@ == old(world).backpacks@,
            world.melee_intents@ == old(world).melee_intents@,
            world.suffer_damage@ == old(world).suffer_damage@,
            world.pickup_intents@ == old(world).pickup_intents@,
            forall|d: int|
                0 <= d < n ==> #[trigger] world.combat_stats@[d] == spec_healed_stats(
                    *old(world),
                    d,
                ),
            world.pending_deletes@ == old(world).pending_deletes@ + spec_consumed_marks(
                *old(world),
                n as int,
            ),
            log.entries@.len() == old(log).entries@.len() + spec_drink_lines(
                *old(world),
                player_entity,
                n as int,
            ).len(),
            forall|k: int|
                0 <= k < old(log).entries@.len() ==> #[trigger] log.entries@[k] == old(log).entries@[k],
            forall|k: int|
                0 <= k < spec_drink_lines(*old(world), player_entity, n as int).len()
                    ==> (#[trigger] log.entries@[old(log).entries@.len() + k])@
                    == spec_drink_lines(*old(world), player_entity, n as int)[k],
            forall|d: int| 0 <= d < c ==> world.consume_intents@[d] is None,
        decreases n - c,
    {
        world.consume_intents[c] = None;
        c = c + 1;
    }
}

/// Every queued consumed entity is a potion holder below the store length.
pub proof fn lemma_consumed_marks_potions(w: World, upto: int)
    ensures
        forall|k: int|
            0 <= k < spec_consumed_marks(w, upto).len() ==> (#[trigger] spec_consumed_marks(
                w,
                upto,
            )[k]) < w.spec_len() && w.potions@[spec_consumed_marks(w, upto)[k] as int] is Some,
    decreases upto,
{
    if upto > 0 {
        lemma_consumed_marks_potions(w, upto - 1);
    }
}

/// With no consume intents pending, nothing is queued for deletion.
pub proof fn lemma_consumed_marks_none(w: World, upto: int)
    requires
        forall|e: int| 0 <= e < w.spec_len() ==> w.consume_intents@[e] is None,
        upto <= w.spec_len(),
    ensures
        spec_consumed_marks(w, upto).len() == 0,
    decreases upto,
{
    if upto > 0 {
        lemma_consumed_marks_none(w, upto - 1);
    }
}

} // verus!
