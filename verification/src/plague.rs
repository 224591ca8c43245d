//! The course of a plague over the map: plague events stay only on
//! settlements, infected settlements may be cured, and once no settlement is
//! infected the plague is over and its events are cleared.
use vstd::prelude::*;

use crate::planet::{Planet, Structure, Tile};
use crate::tile_events::{spec_find, spec_kind, spec_kinds_distinct, tile_event_list, TileEvent, TileEventKind};

verus! {

/// A settlement stands on the tile.
pub open spec fn spec_tile_settled(t: Tile) -> bool {
    t.structure matches Some(Structure::Settlement(_))
}

/// The settlement on the tile has the plague and is not cured.
pub open spec fn spec_infected(t: Tile) -> bool {
    &&& spec_tile_settled(t)
    &&& spec_find(tile_event_list(t.tile_events), TileEventKind::Plague) matches Some(k) && tile_event_list(
        t.tile_events,
    )[k] matches TileEvent::Plague { cured, .. } && !cured
}

/// The number of infected settlements on the map.
pub open spec fn spec_infected_count(map: Seq<Tile>) -> nat
    decreases map.len(),
{
    if map.len() == 0 {
        0
    } else {
        spec_infected_count(map.drop_last()) + if spec_infected(map.last()) {
            1nat
        } else {
            0nat
        }
    }
}

/// The events of a tile after this cycle of the plague: a tile without a
/// settlement loses its plague; an infected settlement whose cure came this
/// cycle (`cure`) has its plague marked cured.
pub open spec fn spec_plague_stepped(t: Tile, cure: bool) -> Seq<TileEvent> {
    let s = tile_event_list(t.tile_events);
    if !spec_tile_settled(t) {
        s.filter(|e: TileEvent| spec_kind(e) != TileEventKind::Plague)
    } else if spec_infected(t) && cure {
        let k = spec_find(s, TileEventKind::Plague)->0;
        s.update(k, TileEvent::Plague { i: s[k]->Plague_i, cured: true })
    } else {
        s
    }
}

/// A cycle of the plague over the map, with `cured_now` holding for each
/// tile whether its settlement got over the plague this cycle (a comparison
/// of populations made by the caller). Tiles keep their biome, structure and
/// animals; their events go as `spec_plague_stepped` says, and when no
/// settlement was infected the plague is over: every plague event is cleared
/// as well. Tells whether the plague is over.
pub fn sim_plague_step(planet: &mut Planet, cured_now: &Vec<bool>) -> (over: bool)
    requires
        cured_now.len() == old(planet).map.len(),
        forall|i: int| 0 <= i < old(planet).map.len() ==> spec_kinds_distinct(
            tile_event_list((#[trigger] old(planet).map@[i]).tile_events),
        ) || tile_event_list(old(planet).map@[i].tile_events).len() < usize::MAX,
    ensures
        over == (spec_infected_count(old(planet).map@) == 0),
        final(planet).cycles == old(planet).cycles,
        final(planet).origin == old(planet).origin,
        final(planet).width == old(planet).width,
        final(planet).height == old(planet).height,
        final(planet).space_buildings == old(planet).space_buildings,
        final(planet).civs == old(planet).civs,
        final(planet).map.len() == old(planet).map.len(),
        forall|i: int| 0 <= i < old(planet).map.len() ==> {
            let before = #[trigger] old(planet).map@[i];
            let after = final(planet).map@[i];
            &&& after.biome == before.biome
            &&& after.structure == before.structure
            &&& after.animal == before.animal
            &&& tile_event_list(after.tile_events) == if over {
                spec_plague_stepped(before, cured_now@[i]).filter(
                    |e: TileEvent| spec_kind(e) != TileEventKind::Plague,
                )
            } else {
                spec_plague_stepped(before, cured_now@[i])
            }
        },
{
    let ghost before = planet.map@;
    let mut infected: usize = 0;
    let mut i: usize = 0;
    assert(before.take(0) =~= Seq::<Tile>::empty());
    while i < planet.map.len()
        invariant
            0 <= i <= planet.map.len(),
            planet.map.len() == before.len(),
            cured_now.len() == before.len(),
            before == old(planet).map@,
            infected <= i,
            infected == spec_infected_count(before.take(i as int)),
            planet.cycles == old(planet).cycles,
            planet.origin == old(planet).origin,
            planet.width == old(planet).width,
            planet.height == old(planet).height,
            planet.space_buildings == old(planet).space_buildings,
            planet.civs == old(planet).civs,
            forall|j: int| 0 <= j < before.len() ==> spec_kinds_distinct(
                tile_event_list((#[trigger] before[j]).tile_events),
            ) || tile_event_list(before[j].tile_events).len() < usize::MAX,
            forall|j: int| 0 <= j < i ==> {
                let a = #[trigger] planet.map@[j];
                &&& a.biome == before[j].biome
                &&& a.structure == before[j].structure
                &&& a.animal == before[j].animal
                &&& tile_event_list(a.tile_events) == spec_plague_stepped(before[j], cured_now@[j])
            },
            forall|j: int| i <= j < before.len() ==> #[trigger] planet.map@[j] == before[j],
        decreases planet.map.len() - i,
    {
        proof {
            assert(before.take(i + 1).drop_last() =~= before.take(i as int));
            assert(before.take(i + 1).last() == before[i as int]);
        }
        let settled = match &planet.map[i].structure {
            Some(Structure::Settlement(_)) => true,
            _ => false,
        };
        if !settled {
            planet.map[i].tile_events.remove(TileEventKind::Plague);
        } else {
            let plague = match planet.map[i].tile_events.get(TileEventKind::Plague) {
                Some(TileEvent::Plague { i: pi, cured }) => if *cured {
                    None
                } else {
                    Some(*pi)
                },
                _ => None,
            };
            if let Some(pi) = plague {
                infected += 1;
                if cured_now[i] {
                    planet.map[i].tile_events.insert(TileEvent::Plague { i: pi, cured: true });
                }
            }
        }
        i += 1;
    }
    assert(before.take(i as int) =~= before);
    if infected == 0 {
        let ghost stepped = planet.map@;
        let mut k: usize = 0;
        while k < planet.map.len()
            invariant
                0 <= k <= planet.map.len(),
                planet.map.len() == stepped.len(),
                planet.cycles == old(planet).cycles,
                planet.origin == old(planet).origin,
                planet.width == old(planet).width,
                planet.height == old(planet).height,
                planet.space_buildings == old(planet).space_buildings,
                planet.civs == old(planet).civs,
                forall|j: int| 0 <= j < k ==> {
                    let a = #[trigger] planet.map@[j];
                    &&& a.biome == stepped[j].biome
                    &&& a.structure == stepped[j].structure
                    &&& a.animal == stepped[j].animal
                    &&& tile_event_list(a.tile_events) == tile_event_list(stepped[j].tile_events).filter(
                        |e: TileEvent| spec_kind(e) != TileEventKind::Plague,
                    )
                },
                forall|j: int| k <= j < stepped.len() ==> #[trigger] planet.map@[j] == stepped[j],
            decreases planet.map.len() - k,
        {
            planet.map[k].tile_events.remove(TileEventKind::Plague);
            k += 1;
        }
        true
    } else {
        false
    }
}

/// A cycle of the plague on one tile: a tile without a settlement is left
/// with no plague event and its other events; a settlement keeps its events
/// unless it is infected and cured this cycle, when its plague, of the same
/// number, is marked cured and nothing else changes.
pub proof fn law_plague_step_tile(t: Tile, cure: bool)
    ensures
        !(t.structure matches Some(Structure::Settlement(_))) ==> ({
            let r = spec_plague_stepped(t, cure);
            &&& forall|k: int| 0 <= k < r.len() ==> !(#[trigger] r[k] is Plague)
            &&& forall|k: int|
                0 <= k < tile_event_list(t.tile_events).len() && !(tile_event_list(t.tile_events)[k] is Plague)
                    ==> r.contains(#[trigger] tile_event_list(t.tile_events)[k])
        }),
        (t.structure matches Some(Structure::Settlement(_))) && !cure ==> spec_plague_stepped(t, cure) == tile_event_list(
            t.tile_events,
        ),
        (t.structure matches Some(Structure::Settlement(_))) && cure && spec_infected(t) ==> ({
            let s = tile_event_list(t.tile_events);
            let r = spec_plague_stepped(t, cure);
            exists|k: int|
                0 <= k < s.len() && (#[trigger] s[k] matches TileEvent::Plague { i, cured } && !cured && r == s.update(
                    k,
                    TileEvent::Plague { i, cured: true },
                ))
        }),
{
    let s = tile_event_list(t.tile_events);
    let p = |e: TileEvent| spec_kind(e) != TileEventKind::Plague;
    if !(t.structure matches Some(Structure::Settlement(_))) {
        let r = s.filter(p);
        s.filter_lemma(p);
        assert forall|k: int| 0 <= k < r.len() implies !(#[trigger] r[k] is Plague) by {
            assert(p(r[k]));
        }
    }
    if (t.structure matches Some(Structure::Settlement(_))) && cure && spec_infected(t) {
        crate::tile_events::lemma_find_props(s, TileEventKind::Plague);
        let k = spec_find(s, TileEventKind::Plague)->0;
        assert(s[k] is Plague);
    }
}

} // verus!
