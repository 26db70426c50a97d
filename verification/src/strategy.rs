//! The per-tick dispatcher: for every controlled unit, in ascending id
//! order, the first applicable behaviour computes its order.

use vstd::prelude::*;

use crate::behaviour::{heal_applicable, spec_fighting_applicable, Fighting, Ghosting,
    MoveOrLoot, RunAndHeal};
use crate::model::{team_pred, Order, Unit, UnitOrder};
use crate::world::World;
use itertools::Itertools;

verus! {

/// Relies on itertools' `sorted_by_key`: a stable sort of the units by
/// their id, returning the same units in ascending id order.
#[verifier::external_body]
fn sort_units_by_id(units: Vec<Unit>) -> (r: Vec<Unit>)
    ensures
        r@.len() == units@.len(),
        r@.to_multiset() == units@.to_multiset(),
        r@.map_values(crate::fight_sim::id_of()).to_multiset()
            == units@.map_values(crate::fight_sim::id_of()).to_multiset(),
        forall|i: int, j: int| 0 <= i <= j < r@.len()
            ==> (#[trigger] r@[i]).id <= (#[trigger] r@[j]).id,
{
    units.into_iter().sorted_by_key(|u| u.id).collect()
}

/// The unit id an order entry is keyed by.
pub open spec fn entry_id() -> spec_fn((i64, UnitOrder)) -> i64 {
    |e: (i64, UnitOrder)| e.0
}

/// An order entry belongs to a controlled unit, and its action follows
/// the fixed behaviour priority: an unspawned unit holds (Ghosting);
/// a spawned unit with a winnable fight in reach aims at most
/// (Fighting); failing that, one that should retreat drinks its potion
/// (RunAndHeal); everyone else at most picks loot up (MoveOrLoot).
pub open spec fn order_entry_ok(w: World, entry: (i64, UnitOrder)) -> bool {
    exists|u: Unit| #![auto] w.game.units@.contains(u) && u.player_id == w.game.my_id
        && entry.0 == u.id
        && ((u.remaining_spawn_time is Some) ==> entry.1.action is None)
        && ((u.remaining_spawn_time is None && spec_fighting_applicable(w, u))
            ==> (match entry.1.action {
                Option::None => true,
                Option::Some(a) => a matches crate::model::ActionOrder::Aim { .. },
            }))
        && ((u.remaining_spawn_time is None && !spec_fighting_applicable(w, u)
            && heal_applicable(w, u))
            ==> entry.1.action == Option::Some(crate::model::ActionOrder::UseShieldPotion))
        && ((u.remaining_spawn_time is None && !spec_fighting_applicable(w, u)
            && !heal_applicable(w, u))
            ==> (match entry.1.action {
                Option::None => true,
                Option::Some(a) => a matches crate::model::ActionOrder::Pickup { .. },
            }))
}

/// Multiset-equal sequences hold each other's elements.
proof fn lemma_multiset_elem_from(a: Seq<Unit>, b: Seq<Unit>)
    requires
        a.to_multiset() == b.to_multiset(),
    ensures
        forall|k: int| 0 <= k < a.len() ==> b.contains(#[trigger] a[k]),
{
    assert forall|k: int| 0 <= k < a.len() implies b.contains(#[trigger] a[k]) by {
        a.to_multiset_ensures();
        b.to_multiset_ensures();
        assert(a.contains(a[k]));
        assert(a.to_multiset().count(a[k]) > 0);
        assert(b.to_multiset().count(a[k]) > 0);
    }
}

/// One tick's decisions: every controlled unit, visited in ascending id
/// order, gets the order of the first behaviour that claims it
/// (Ghosting, Fighting, RunAndHeal, then the MoveOrLoot fallback).
/// Loot booked by one unit is booked before the next unit is evaluated.
pub fn get_order(world: &mut World) -> (r: Order)
    requires
        old(world).wf(),
    ensures
        final(world).wf(),
        final(world).constants == old(world).constants,
        final(world).game == old(world).game,
        r.unit_orders@.len() == old(world).game.units@.filter(
            team_pred(old(world).game.my_id, true)).len(),
        forall|i: int, j: int| 0 <= i <= j < r.unit_orders@.len()
            ==> (#[trigger] r.unit_orders@[i]).0 <= (#[trigger] r.unit_orders@[j]).0,
        forall|k: int| 0 <= k < r.unit_orders@.len()
            ==> order_entry_ok(*old(world), #[trigger] r.unit_orders@[k]),
        // exactly one entry per controlled unit: the entry ids are a
        // permutation of the controlled units' ids (and sorted, above)
        r.unit_orders@.map_values(entry_id()).to_multiset()
            == old(world).game.units@.filter(team_pred(old(world).game.my_id,
                true)).map_values(crate::fight_sim::id_of()).to_multiset(),
{
    let my = world.game.my_units();
    proof {
        world.game.units@.lemma_filter_len(team_pred(world.game.my_id, true));
        crate::behaviour::lemma_filtered_units_valid(world.game.units@,
            team_pred(world.game.my_id, true), world.constants.weapons.len() as int);
    }
    let ghost gmy = my@;
    let sorted = sort_units_by_id(my);
    proof {
        lemma_multiset_elem_from(sorted@, gmy);
        assert forall|k: int| 0 <= k < sorted@.len()
            implies (#[trigger] sorted@[k]).valid(world.constants.weapons.len() as int) by {
            assert(gmy.contains(sorted@[k]));
            let j = choose|j: int| 0 <= j < gmy.len() && gmy[j] == sorted@[k];
        }
        assert(world.game == old(world).game);
        assert forall|k: int| 0 <= k < sorted@.len()
            implies old(world).game.units@.contains(#[trigger] sorted@[k])
                && sorted@[k].player_id == old(world).game.my_id by {
            assert(gmy.contains(sorted@[k]));
            let j0 = choose|j0: int| 0 <= j0 < gmy.len() && gmy[j0] == sorted@[k];
            crate::fight_sim::lemma_filter_elem_of(world.game.units@,
                team_pred(world.game.my_id, true), j0);
            world.game.units@.lemma_filter_pred(team_pred(world.game.my_id, true), j0);
            let j = choose|j: int| 0 <= j < world.game.units@.len()
                && world.game.units@[j] == gmy[j0];
            assert(old(world).game.units@.contains(old(world).game.units@[j]));
        }
    }
    let ghosting = Ghosting {};
    let fighting = Fighting {};
    let run_and_heal = RunAndHeal {};
    let move_or_loot = MoveOrLoot {};
    let mut orders: Vec<(i64, UnitOrder)> = Vec::new();
    let mut i: usize = 0;
    while i < sorted.len()
        invariant
            world.wf(),
            world.constants == old(world).constants,
            world.game == old(world).game,
            0 <= i <= sorted@.len(),
            forall|k: int| 0 <= k < sorted@.len()
                ==> (#[trigger] sorted@[k]).valid(world.constants.weapons.len() as int),
            forall|k: int, k2: int| 0 <= k <= k2 < sorted@.len()
                ==> (#[trigger] sorted@[k]).id <= (#[trigger] sorted@[k2]).id,
            orders@.len() == i,
            gmy == old(world).game.units@.filter(team_pred(old(world).game.my_id, true)),
            sorted@.map_values(crate::fight_sim::id_of()).to_multiset()
                == gmy.map_values(crate::fight_sim::id_of()).to_multiset(),
            orders@.map_values(entry_id())
                == sorted@.take(i as int).map_values(crate::fight_sim::id_of()),
            forall|k: int| 0 <= k < i
                ==> (#[trigger] orders@[k]).0 == sorted@[k].id,
            forall|k: int| 0 <= k < sorted@.len()
                ==> old(world).game.units@.contains(#[trigger] sorted@[k])
                    && sorted@[k].player_id == old(world).game.my_id,
            world.units == old(world).units,
            world.sims == old(world).sims,
            forall|k: int| 0 <= k < i
                ==> order_entry_ok(*old(world), #[trigger] orders@[k]),
        decreases sorted@.len() - i,
    {
        let u = sorted[i];
        let ghost w_now = *world;
        let order = if ghosting.should_use(&u) {
            ghosting.order(&u, world)
        } else if fighting.should_use(&u, world) {
            fighting.order(&u, world)
        } else if run_and_heal.should_use(&u, world) {
            run_and_heal.order(&u, world)
        } else {
            move_or_loot.order(&u, world)
        };
        proof {
            crate::behaviour::lemma_fighting_applicable_frame(w_now, *old(world), u);
            assert(heal_applicable(w_now, u) == heal_applicable(*old(world), u));
            assert(order_entry_ok(*old(world), (u.id, order)));
        }
        orders.push((u.id, order));
        proof {
            assert(orders@.map_values(entry_id())
                =~= sorted@.take(i + 1).map_values(crate::fight_sim::id_of()));
        }
        i = i + 1;
    }
    proof {
        assert(sorted@.take(sorted@.len() as int) =~= sorted@);
        assert(orders@.map_values(entry_id())
            == sorted@.map_values(crate::fight_sim::id_of()));
    }
    Order { unit_orders: orders }
}

} // verus!
