//! The exodus of a civilization: its settlements leave the planet one by
//! one, each after a countdown, and once none is left the civilization is
//! gone.
use vstd::prelude::*;

use crate::animal_id::{animal_id_eq, AnimalId};
use crate::events::{EventInProgress, Events, PlanetEvent};
use crate::planet::{delete_civ, spec_settled_by, spec_tile_without_civ, Planet, Structure, Tile};
use crate::tile_events::{
    spec_count_down, spec_countdowns_positive, spec_find, spec_kinds_distinct, spec_remaining, tile_event_list, TileEvent, TileEventKind,
};

verus! {

/// The civilization of the first exodus in progress.
pub open spec fn spec_exodus_civ(s: Seq<EventInProgress>) -> Option<AnimalId>
    decreases s.len(),
{
    if s.len() == 0 {
        None
    } else {
        match s[0].event {
            PlanetEvent::Exodus(x) => Some(x.id),
            _ => spec_exodus_civ(s.drop_first()),
        }
    }
}

/// The events of a settlement once its exodus may have started: one starts,
/// lasting `cycles`, when none was under way and the draw came out true.
pub open spec fn spec_exodus_started(s: Seq<TileEvent>, draw: bool, cycles: u32) -> Seq<TileEvent> {
    if spec_find(s, TileEventKind::Exodus) is None && draw {
        s.push(TileEvent::Exodus { remaining_cycles: cycles })
    } else {
        s
    }
}

/// The settlement leaves this cycle: its exodus has one cycle left.
pub open spec fn spec_leaves(s: Seq<TileEvent>) -> bool {
    match spec_find(s, TileEventKind::Exodus) {
        Some(i) => spec_remaining(s[i]) == 1,
        None => false,
    }
}

/// The tile after a cycle of the exodus of `id`: a settlement of `id` may
/// start its exodus, its countdown goes one cycle on, and it leaves when the
/// countdown ends; other tiles stay as they are.
pub open spec fn spec_tile_after_exodus(before: Tile, after: Tile, id: AnimalId, draw: bool, cycles: u32) -> bool {
    if spec_settled_by(before.structure, id) {
        let s = spec_exodus_started(tile_event_list(before.tile_events), draw, cycles);
        &&& after.biome == before.biome
        &&& after.animal == before.animal
        &&& after.structure == if spec_leaves(s) {
            None
        } else {
            before.structure
        }
        &&& tile_event_list(after.tile_events) == spec_count_down(s, TileEventKind::Exodus)
    } else {
        after == before
    }
}

/// The number of settlements of `id` on the map.
pub open spec fn spec_settlement_count(map: Seq<Tile>, id: AnimalId) -> nat
    decreases map.len(),
{
    if map.len() == 0 {
        0
    } else {
        spec_settlement_count(map.drop_last(), id) + if spec_settled_by(map.last().structure, id) {
            1nat
        } else {
            0nat
        }
    }
}

proof fn lemma_no_settlement(map: Seq<Tile>, id: AnimalId)
    requires
        spec_settlement_count(map, id) == 0,
    ensures
        forall|i: int| 0 <= i < map.len() ==> !spec_settled_by(#[trigger] map[i].structure, id),
    decreases map.len(),
{
    if map.len() > 0 {
        lemma_no_settlement(map.drop_last(), id);
        assert forall|i: int| 0 <= i < map.len() implies !spec_settled_by(#[trigger] map[i].structure, id) by {
            if i < map.len() - 1 {
                assert(map[i] == map.drop_last()[i]);
            }
        }
    }
}

proof fn lemma_exodus_civ(s: Seq<EventInProgress>, r: Option<AnimalId>)
    requires
        match r {
            Some(id) => exists|k: int|
                0 <= k < s.len() && (#[trigger] s[k].event matches PlanetEvent::Exodus(x) && x.id == id) && forall|j: int|
                    0 <= j < k ==> !(s[j].event is Exodus),
            None => forall|k: int| 0 <= k < s.len() ==> !(#[trigger] s[k].event is Exodus),
        },
    ensures
        spec_exodus_civ(s) == r,
    decreases s.len(),
{
    if s.len() > 0 {
        match r {
            Some(id) => {
                let k = choose|k: int|
                    0 <= k < s.len() && (#[trigger] s[k].event matches PlanetEvent::Exodus(x) && x.id == id) && forall|j: int|
                        0 <= j < k ==> !(s[j].event is Exodus);
                if k > 0 {
                    let t = s.drop_first();
                    assert(t[k - 1] == s[k]);
                    assert forall|j: int| 0 <= j < k - 1 implies !(t[j].event is Exodus) by {
                        assert(t[j] == s[j + 1]);
                    }
                    assert(!(s[0].event is Exodus));
                    lemma_exodus_civ(t, r);
                }
            },
            None => {
                let t = s.drop_first();
                assert(!(s[0].event is Exodus));
                assert forall|k: int| 0 <= k < t.len() implies !(#[trigger] t[k].event is Exodus) by {
                    assert(t[k] == s[k + 1]);
                }
                lemma_exodus_civ(t, r);
            },
        }
    }
}

/// A cycle of the exodus of `id` on every tile, as `spec_tile_after_exodus`
/// says, with `draws` holding one draw per tile in the order of the map.
/// Gives the number of settlements of `id` there were.
pub fn advance_exodus_of(planet: &mut Planet, id: &AnimalId, draws: &Vec<bool>, exodus_cycles: u32) -> (r: usize)
    requires
        draws.len() == old(planet).map.len(),
        exodus_cycles > 0,
        forall|i: int| 0 <= i < old(planet).map.len() ==> spec_countdowns_positive(
            tile_event_list((#[trigger] old(planet).map@[i]).tile_events),
        ) && (spec_kinds_distinct(tile_event_list(old(planet).map@[i].tile_events)) || tile_event_list(
            old(planet).map@[i].tile_events,
        ).len() < usize::MAX),
    ensures
        r == spec_settlement_count(old(planet).map@, *id),
        final(planet).cycles == old(planet).cycles,
        final(planet).origin == old(planet).origin,
        final(planet).width == old(planet).width,
        final(planet).height == old(planet).height,
        final(planet).space_buildings == old(planet).space_buildings,
        final(planet).civs == old(planet).civs,
        final(planet).map.len() == old(planet).map.len(),
        forall|i: int| 0 <= i < old(planet).map.len() ==> spec_tile_after_exodus(
            #[trigger] old(planet).map@[i],
            final(planet).map@[i],
            *id,
            draws@[i],
            exodus_cycles,
        ),
{
    let ghost before = planet.map@;
    let mut count: usize = 0;
    let mut i: usize = 0;
    assert(before.take(0) =~= Seq::<Tile>::empty());
    while i < planet.map.len()
        invariant
            0 <= i <= planet.map.len(),
            planet.map.len() == before.len(),
            draws.len() == before.len(),
            before == old(planet).map@,
            exodus_cycles > 0,
            count <= i,
            count == spec_settlement_count(before.take(i as int), *id),
            planet.cycles == old(planet).cycles,
            planet.origin == old(planet).origin,
            planet.width == old(planet).width,
            planet.height == old(planet).height,
            planet.space_buildings == old(planet).space_buildings,
            planet.civs == old(planet).civs,
            forall|j: int| 0 <= j < before.len() ==> spec_countdowns_positive(
                tile_event_list((#[trigger] before[j]).tile_events),
            ) && (spec_kinds_distinct(tile_event_list(before[j].tile_events)) || tile_event_list(
                before[j].tile_events,
            ).len() < usize::MAX),
            forall|j: int| 0 <= j < i ==> spec_tile_after_exodus(
                #[trigger] before[j],
                planet.map@[j],
                *id,
                draws@[j],
                exodus_cycles,
            ),
            forall|j: int| i <= j < before.len() ==> #[trigger] planet.map@[j] == before[j],
        decreases planet.map.len() - i,
    {
        proof {
            assert(before.take(i + 1).drop_last() =~= before.take(i as int));
            assert(before.take(i + 1).last() == before[i as int]);
        }
        let settled = match &planet.map[i].structure {
            Some(Structure::Settlement(st)) => animal_id_eq(&st.id, id),
            _ => false,
        };
        if settled {
            count += 1;
            let ghost s0 = tile_event_list(planet.map@[i as int].tile_events);
            if !planet.map[i].tile_events.contains(TileEventKind::Exodus) && draws[i] {
                planet.map[i].tile_events.insert(TileEvent::Exodus { remaining_cycles: exodus_cycles });
            }
            proof {
                let s1 = tile_event_list(planet.map@[i as int].tile_events);
                assert(s1 == spec_exodus_started(s0, draws@[i as int], exodus_cycles));
                assert forall|k: int| 0 <= k < s1.len() && (#[trigger] s1[k] is AerosolInjection
                    || s1[k] is NuclearExplosion || s1[k] is Exodus) implies spec_remaining(s1[k]) > 0 by {
                    if k < s0.len() {
                        assert(s1[k] == s0[k]);
                    }
                }
            }
            let leaves = planet.map[i].tile_events.advance_exodus();
            if leaves {
                planet.map[i].structure = None;
            }
        }
        i += 1;
    }
    assert(before.take(i as int) =~= before);
    count
}

/// A cycle of the exodus in progress, that of the first exodus event: its
/// settlements go on as `advance_exodus_of` says, and when it had none left
/// the civilization is deleted as `delete_civ` says. Tells whether there is no
/// exodus in progress any more (none was, or the civilization is gone).
pub fn sim_exodus(events: &Events, planet: &mut Planet, draws: &Vec<bool>, exodus_cycles: u32) -> (done: bool)
    requires
        draws.len() == old(planet).map.len(),
        exodus_cycles > 0,
        forall|i: int| 0 <= i < old(planet).map.len() ==> spec_countdowns_positive(
            tile_event_list((#[trigger] old(planet).map@[i]).tile_events),
        ) && (spec_kinds_distinct(tile_event_list(old(planet).map@[i].tile_events)) || tile_event_list(
            old(planet).map@[i].tile_events,
        ).len() < usize::MAX),
    ensures
        final(planet).cycles == old(planet).cycles,
        final(planet).origin == old(planet).origin,
        final(planet).width == old(planet).width,
        final(planet).height == old(planet).height,
        final(planet).space_buildings == old(planet).space_buildings,
        final(planet).civs == old(planet).civs,
        final(planet).map.len() == old(planet).map.len(),
        match spec_exodus_civ(events.in_progress@) {
            None => done && final(planet).map@ == old(planet).map@,
            Some(id) => {
                &&& done == (spec_settlement_count(old(planet).map@, id) == 0)
                &&& forall|i: int| 0 <= i < old(planet).map.len() ==> if done {
                    spec_tile_without_civ(#[trigger] old(planet).map@[i], final(planet).map@[i], id)
                } else {
                    spec_tile_after_exodus(old(planet).map@[i], final(planet).map@[i], id, draws@[i], exodus_cycles)
                }
            },
        },
{
    let civ = events.in_exodus_civ();
    proof {
        lemma_exodus_civ(events.in_progress@, civ);
    }
    match civ {
        None => true,
        Some(id) => {
            let remaining = advance_exodus_of(planet, &id, draws, exodus_cycles);
            if remaining == 0 {
                proof {
                    lemma_no_settlement(old(planet).map@, id);
                    assert forall|i: int| 0 <= i < old(planet).map.len() implies #[trigger] planet.map@[i]
                        == old(planet).map@[i] by {
                        assert(spec_tile_after_exodus(old(planet).map@[i], planet.map@[i], id, draws@[i], exodus_cycles));
                        assert(!spec_settled_by(old(planet).map@[i].structure, id));
                    }
                }
                delete_civ(planet, &id);
                true
            } else {
                false
            }
        },
    }
}

/// A settlement of the civilization on exodus whose exodus is under way
/// counts down: with one cycle left it leaves (the tile loses the settlement
/// and the exodus), otherwise it stays with one cycle less to go.
pub proof fn law_exodus_counts_down(before: Tile, after: Tile, id: AnimalId, draw: bool, cycles: u32, k: int, left: u32)
    requires
        spec_tile_after_exodus(before, after, id, draw, cycles),
        spec_settled_by(before.structure, id),
        spec_find(tile_event_list(before.tile_events), TileEventKind::Exodus) == Some(k),
        tile_event_list(before.tile_events)[k] == (TileEvent::Exodus { remaining_cycles: left }),
        left >= 1,
    ensures
        left == 1 ==> after.structure is None && spec_find(tile_event_list(after.tile_events), TileEventKind::Exodus) is None,
        left > 1 ==> after.structure == before.structure && tile_event_list(after.tile_events)[k] == (TileEvent::Exodus {
            remaining_cycles: (left - 1) as u32,
        }),
{
    let s = tile_event_list(before.tile_events);
    crate::tile_events::lemma_find_props(s, TileEventKind::Exodus);
    assert(spec_exodus_started(s, draw, cycles) == s);
    assert(spec_remaining(s[k]) == left);
    if left == 1 {
        crate::tile_events::law_remove_then_absent(s, TileEventKind::Exodus);
    } else {
        assert(!spec_leaves(s));
        assert(spec_count_down(s, TileEventKind::Exodus) == s.update(
            k,
            TileEvent::Exodus { remaining_cycles: (left - 1) as u32 },
        ));
    }
}

} // verus!
