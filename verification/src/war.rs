//! The nuclear war: while one is in progress, settlements of the industrial
//! age or later may be hit by bombs, and the war ceases once it has lasted
//! long enough.
use vstd::prelude::*;

use crate::defs::{spec_age_index, CivilizationAge};
use crate::events::{EventInProgress, Events, PlanetEvent, WarEvent, WarKind};
use crate::planet::{Planet, Structure, Tile};
use crate::tile_events::{spec_find, spec_kind, spec_kinds_distinct, tile_event_list, TileEvent};

verus! {

/// A nuclear war that has not ceased.
pub open spec fn spec_active_nuclear_war(e: EventInProgress) -> bool {
    e.event matches PlanetEvent::War(w) && w.kind is NuclearWar && !w.ceased
}

/// The position of the first nuclear war in progress that has not ceased.
pub open spec fn spec_first_active_nuclear_war(s: Seq<EventInProgress>) -> Option<int>
    decreases s.len(),
{
    if s.len() == 0 {
        None
    } else if spec_active_nuclear_war(s[0]) {
        Some(0)
    } else {
        match spec_first_active_nuclear_war(s.drop_first()) {
            Some(k) => Some(k + 1),
            None => None,
        }
    }
}

/// The war after this cycle: it ceases once its progress passes `duration_cycles`.
pub open spec fn spec_nuclear_war_advanced(e: EventInProgress, duration_cycles: u64) -> EventInProgress {
    match e.event {
        PlanetEvent::War(w) => if e.progress > duration_cycles {
            EventInProgress { event: PlanetEvent::War(WarEvent { ceased: true, ..w }), ..e }
        } else {
            e
        },
        _ => e,
    }
}

/// The list of tile events after `insert`: the event in place of the one of
/// its kind, or added at the end.
pub open spec fn spec_inserted(s: Seq<TileEvent>, e: TileEvent) -> Seq<TileEvent> {
    match spec_find(s, spec_kind(e)) {
        Some(i) => s.update(i, e),
        None => s.push(e),
    }
}

/// A bomb falls on the tile: it holds a settlement of the industrial age or
/// later, and the draw for it came out true.
pub open spec fn spec_bombed(t: Tile, draw: bool) -> bool {
    &&& draw
    &&& t.structure matches Some(Structure::Settlement(s)) && spec_age_index(s.age) >= spec_age_index(
        CivilizationAge::IndustrialAge,
    )
}

/// The tile after the bombing, given its draw.
pub open spec fn spec_tile_after_bombing(before: Tile, after: Tile, draw: bool, explosion_cycles: u32) -> bool {
    &&& after.biome == before.biome
    &&& after.structure == before.structure
    &&& after.animal == before.animal
    &&& tile_event_list(after.tile_events) == if spec_bombed(before, draw) {
        spec_inserted(
            tile_event_list(before.tile_events),
            TileEvent::NuclearExplosion { remaining_cycles: explosion_cycles },
        )
    } else {
        tile_event_list(before.tile_events)
    }
}

proof fn lemma_first_active_nuclear_war(s: Seq<EventInProgress>)
    ensures
        match spec_first_active_nuclear_war(s) {
            Some(k) => 0 <= k < s.len() && spec_active_nuclear_war(s[k]) && forall|j: int|
                0 <= j < k ==> !spec_active_nuclear_war(#[trigger] s[j]),
            None => forall|j: int| 0 <= j < s.len() ==> !spec_active_nuclear_war(#[trigger] s[j]),
        },
    decreases s.len(),
{
    if s.len() > 0 && !spec_active_nuclear_war(s[0]) {
        lemma_first_active_nuclear_war(s.drop_first());
        assert forall|j: int| 1 <= j < s.len() implies s[j] == s.drop_first()[j - 1] by {}
    }
}

/// Moves the first nuclear war in progress that has not ceased one step on:
/// it ceases once its progress passes `duration_cycles`. Tells whether there
/// was such a war.
pub fn advance_nuclear_war(events: &mut Events, duration_cycles: u64) -> (active: bool)
    ensures
        match spec_first_active_nuclear_war(old(events).in_progress@) {
            Some(k) => active && final(events).in_progress@ == old(events).in_progress@.update(
                k,
                spec_nuclear_war_advanced(old(events).in_progress@[k], duration_cycles),
            ),
            None => !active && final(events).in_progress@ == old(events).in_progress@,
        },
{
    let mut i: usize = 0;
    while i < events.in_progress.len()
        invariant
            0 <= i <= events.in_progress.len(),
            events.in_progress@ == old(events).in_progress@,
            forall|j: int| 0 <= j < i ==> !spec_active_nuclear_war(#[trigger] events.in_progress@[j]),
        decreases events.in_progress.len() - i,
    {
        let e = events.in_progress[i];
        if let PlanetEvent::War(w) = e.event {
            let nuclear = match w.kind {
                WarKind::NuclearWar => true,
                _ => false,
            };
            if nuclear && !w.ceased {
                if e.progress > duration_cycles {
                    let ceased = EventInProgress {
                        event: PlanetEvent::War(WarEvent { ceased: true, ..w }),
                        ..e
                    };
                    events.in_progress.set(i, ceased);
                }
                proof {
                    let s = old(events).in_progress@;
                    lemma_first_active_nuclear_war(s);
                    match spec_first_active_nuclear_war(s) {
                        Some(k) => {
                            if k < i {
                                assert(!spec_active_nuclear_war(s[k]));
                            }
                            if k > i {
                                assert(!spec_active_nuclear_war(s[i as int]));
                            }
                        },
                        None => {
                            assert(!spec_active_nuclear_war(s[i as int]));
                        },
                    }
                    assert(events.in_progress@ =~= s.update(i as int, spec_nuclear_war_advanced(s[i as int], duration_cycles)));
                }
                return true;
            }
        }
        i += 1;
    }
    proof {
        lemma_first_active_nuclear_war(old(events).in_progress@);
    }
    false
}

impl Planet {
    /// Drops the bombs of a nuclear war: each settlement of the industrial age
    /// or later whose draw in `draws` came out true gets a nuclear explosion
    /// lasting `explosion_cycles`. `draws` holds one draw per tile, in the
    /// order of the map.
    pub fn drop_nuclear_bombs(&mut self, draws: &Vec<bool>, explosion_cycles: u32)
        requires
            draws.len() == old(self).map.len(),
            forall|i: int| 0 <= i < old(self).map.len() ==> spec_kinds_distinct(
                tile_event_list((#[trigger] old(self).map@[i]).tile_events),
            ) || tile_event_list(old(self).map@[i].tile_events).len() < usize::MAX,
        ensures
            final(self).cycles == old(self).cycles,
            final(self).origin == old(self).origin,
            final(self).width == old(self).width,
            final(self).height == old(self).height,
            final(self).space_buildings == old(self).space_buildings,
            final(self).civs == old(self).civs,
            final(self).map.len() == old(self).map.len(),
            forall|i: int| 0 <= i < old(self).map.len() ==> spec_tile_after_bombing(
                #[trigger] old(self).map@[i],
                final(self).map@[i],
                draws@[i],
                explosion_cycles,
            ),
    {
        let ghost before = self.map@;
        let mut i: usize = 0;
        while i < self.map.len()
            invariant
                0 <= i <= self.map.len(),
                self.map.len() == before.len(),
                draws.len() == before.len(),
                self.cycles == old(self).cycles,
                self.origin == old(self).origin,
                self.width == old(self).width,
                self.height == old(self).height,
                self.space_buildings == old(self).space_buildings,
                self.civs == old(self).civs,
                before == old(self).map@,
                forall|j: int| 0 <= j < before.len() ==> spec_kinds_distinct(
                    tile_event_list((#[trigger] before[j]).tile_events),
                ) || tile_event_list(before[j].tile_events).len() < usize::MAX,
                forall|j: int| 0 <= j < i ==> spec_tile_after_bombing(
                    #[trigger] before[j],
                    self.map@[j],
                    draws@[j],
                    explosion_cycles,
                ),
                forall|j: int| i <= j < before.len() ==> #[trigger] self.map@[j] == before[j],
            decreases self.map.len() - i,
        {
            let hit = match &self.map[i].structure {
                Some(Structure::Settlement(s)) => draws[i] && s.age.is_at_least(CivilizationAge::IndustrialAge),
                _ => false,
            };
            if hit {
                self.map[i].tile_events.insert(TileEvent::NuclearExplosion { remaining_cycles: explosion_cycles });
            }
            i += 1;
        }
    }
}

/// One cycle of the nuclear war: the first one in progress that has not
/// ceased moves on as `advance_nuclear_war` says, and if there was one, its
/// bombs fall as `drop_nuclear_bombs` says. Tells whether there was one.
pub fn sim_nuclear_war(
    events: &mut Events,
    planet: &mut Planet,
    draws: &Vec<bool>,
    duration_cycles: u64,
    explosion_cycles: u32,
) -> (active: bool)
    requires
        draws.len() == old(planet).map.len(),
        forall|i: int| 0 <= i < old(planet).map.len() ==> spec_kinds_distinct(
            tile_event_list((#[trigger] old(planet).map@[i]).tile_events),
        ) || tile_event_list(old(planet).map@[i].tile_events).len() < usize::MAX,
    ensures
        active == spec_first_active_nuclear_war(old(events).in_progress@) is Some,
        match spec_first_active_nuclear_war(old(events).in_progress@) {
            Some(k) => final(events).in_progress@ == old(events).in_progress@.update(
                k,
                spec_nuclear_war_advanced(old(events).in_progress@[k], duration_cycles),
            ),
            None => final(events).in_progress@ == old(events).in_progress@,
        },
        final(planet).cycles == old(planet).cycles,
        final(planet).width == old(planet).width,
        final(planet).height == old(planet).height,
        final(planet).space_buildings == old(planet).space_buildings,
        final(planet).civs == old(planet).civs,
        final(planet).map.len() == old(planet).map.len(),
        forall|i: int| 0 <= i < old(planet).map.len() ==> if active {
            spec_tile_after_bombing(#[trigger] old(planet).map@[i], final(planet).map@[i], draws@[i], explosion_cycles)
        } else {
            final(planet).map@[i] == old(planet).map@[i]
        },
{
    let active = advance_nuclear_war(events, duration_cycles);
    if active {
        planet.drop_nuclear_bombs(draws, explosion_cycles);
    }
    active
}

/// A bomb falls exactly on a settlement of the industrial, atomic or early
/// space age whose draw came out true; never on a tile without a settlement
/// or on a settlement of an earlier age.
pub proof fn law_bombs_fall_on_industrial_settlements(t: Tile, draw: bool)
    ensures
        spec_bombed(t, draw) == (draw && (t.structure matches Some(Structure::Settlement(s)) && (s.age is IndustrialAge
            || s.age is AtomicAge || s.age is EarlySpaceAge))),
{
}

/// A nuclear war goes on one cycle: it ceases once its progress is past the
/// duration, and nothing else about it changes.
pub proof fn law_nuclear_war_ceases(e: EventInProgress, duration_cycles: u64)
    requires
        spec_active_nuclear_war(e),
    ensures
        ({
            let n = spec_nuclear_war_advanced(e, duration_cycles);
            &&& n.progress == e.progress
            &&& n.duration == e.duration
            &&& n.event matches PlanetEvent::War(w) && w.kind is NuclearWar && w.i == e.event->War_0.i
                && w.start_pos == e.event->War_0.start_pos && w.ceased == (e.progress > duration_cycles)
        }),
{
}

/// After the bombing, a bombed tile has a nuclear explosion that lasts
/// `explosion_cycles` cycles, found by its kind, and keeps its other events.
pub proof fn law_bombed_tile_explodes(before: Tile, after: Tile, draw: bool, explosion_cycles: u32)
    requires
        spec_tile_after_bombing(before, after, draw, explosion_cycles),
        spec_bombed(before, draw),
        crate::tile_events::spec_kinds_distinct(tile_event_list(before.tile_events)),
    ensures
        ({
            let t = tile_event_list(after.tile_events);
            &&& spec_find(t, crate::tile_events::TileEventKind::NuclearExplosion) matches Some(j) && t[j]
                == TileEvent::NuclearExplosion { remaining_cycles: explosion_cycles }
            &&& t.filter(|x: TileEvent| spec_kind(x) != crate::tile_events::TileEventKind::NuclearExplosion)
                == tile_event_list(before.tile_events).filter(
                |x: TileEvent| spec_kind(x) != crate::tile_events::TileEventKind::NuclearExplosion,
            )
        }),
{
    crate::tile_events::law_insert_then_get(
        tile_event_list(before.tile_events),
        TileEvent::NuclearExplosion { remaining_cycles: explosion_cycles },
    );
}

} // verus!
