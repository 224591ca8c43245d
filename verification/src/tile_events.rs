//! Events on a tile: fires, dust, aerosol, plague, war, decadence, nuclear
//! explosions, exodus, vehicles and troops; at most one of each kind on a tile.
use vstd::prelude::*;

use crate::animal_id::{animal_id_eq, same_animal, AnimalId};
use crate::defs::CivilizationAge;
use crate::geom::Coords;

verus! {

/// An event on a tile.
#[derive(Clone, Copy, Debug)]
pub enum TileEvent {
    Fire,
    BlackDust { remaining_cycles: u32 },
    AerosolInjection { remaining_cycles: u32 },
    Plague { i: u32, cured: bool },
    War { i: u32, offence: AnimalId },
    Decadence { cured: bool },
    NuclearExplosion { remaining_cycles: u32 },
    Exodus { remaining_cycles: u32 },
    Vehicle { kind: VehicleKind, id: AnimalId, age: CivilizationAge, direction: (i8, i8) },
    Troop { id: AnimalId, age: CivilizationAge, dest: Coords },
}

/// What a civilization travels in.
#[derive(Clone, Copy, PartialEq, Eq, Structural, Hash, Debug)]
pub enum VehicleKind {
    Ship,
    AirPlane,
}

/// The kind of a tile event.
#[derive(Clone, Copy, PartialEq, Eq, Structural, PartialOrd, Ord, Hash, Debug)]
pub enum TileEventKind {
    Fire,
    BlackDust,
    AerosolInjection,
    Plague,
    War,
    Decadence,
    NuclearExplosion,
    Exodus,
    Vehicle,
    Troop,
}

pub open spec fn spec_kind(e: TileEvent) -> TileEventKind {
    match e {
        TileEvent::Fire => TileEventKind::Fire,
        TileEvent::BlackDust { .. } => TileEventKind::BlackDust,
        TileEvent::AerosolInjection { .. } => TileEventKind::AerosolInjection,
        TileEvent::Plague { .. } => TileEventKind::Plague,
        TileEvent::War { .. } => TileEventKind::War,
        TileEvent::Decadence { .. } => TileEventKind::Decadence,
        TileEvent::NuclearExplosion { .. } => TileEventKind::NuclearExplosion,
        TileEvent::Exodus { .. } => TileEventKind::Exodus,
        TileEvent::Vehicle { .. } => TileEventKind::Vehicle,
        TileEvent::Troop { .. } => TileEventKind::Troop,
    }
}

/// Events that only concern a settlement: they go when the settlement goes.
pub open spec fn spec_is_settlement_event(e: TileEvent) -> bool {
    e is War || e is Decadence || e is Plague
}

/// Events that keep a settlement from growing or spreading.
pub open spec fn spec_blocks_settlement(e: TileEvent) -> bool {
    match e {
        TileEvent::Fire | TileEvent::BlackDust { .. } | TileEvent::War { .. }
        | TileEvent::NuclearExplosion { .. } => true,
        TileEvent::Plague { cured, .. } => !cured,
        _ => false,
    }
}

impl TileEvent {
    pub fn kind(&self) -> (r: TileEventKind)
        ensures
            r == spec_kind(*self),
    {
        match self {
            TileEvent::Fire => TileEventKind::Fire,
            TileEvent::BlackDust { .. } => TileEventKind::BlackDust,
            TileEvent::AerosolInjection { .. } => TileEventKind::AerosolInjection,
            TileEvent::Plague { .. } => TileEventKind::Plague,
            TileEvent::War { .. } => TileEventKind::War,
            TileEvent::Decadence { .. } => TileEventKind::Decadence,
            TileEvent::NuclearExplosion { .. } => TileEventKind::NuclearExplosion,
            TileEvent::Exodus { .. } => TileEventKind::Exodus,
            TileEvent::Vehicle { .. } => TileEventKind::Vehicle,
            TileEvent::Troop { .. } => TileEventKind::Troop,
        }
    }

    pub fn is_settlement_event(&self) -> (r: bool)
        ensures
            r == spec_is_settlement_event(*self),
    {
        match self {
            TileEvent::War { .. } | TileEvent::Decadence { .. } | TileEvent::Plague { .. } => true,
            _ => false,
        }
    }
}

/// Whether the event is of another kind than `kind`.
fn differs_in_kind(e: &TileEvent, kind: TileEventKind) -> (r: bool)
    ensures
        r == (spec_kind(*e) != kind),
{
    e.kind() != kind
}

/// A vehicle or a troop of the civilization `id`.
pub open spec fn spec_moves_for(e: TileEvent, id: AnimalId) -> bool {
    match e {
        TileEvent::Vehicle { id: v, .. } => same_animal(v, id),
        TileEvent::Troop { id: t, .. } => same_animal(t, id),
        _ => false,
    }
}

/// Whether the event is not a vehicle or a troop of the civilization `id`.
fn stays_without_civ(e: &TileEvent, id: &AnimalId) -> (r: bool)
    ensures
        r == !spec_moves_for(*e, *id),
{
    match e {
        TileEvent::Vehicle { id: v, .. } => !animal_id_eq(v, id),
        TileEvent::Troop { id: t, .. } => !animal_id_eq(t, id),
        _ => true,
    }
}

/// Whether the event stays when the settlement goes.
fn outlives_settlement(e: &TileEvent) -> (r: bool)
    ensures
        r == !spec_is_settlement_event(*e),
{
    !e.is_settlement_event()
}

/// The events of a tile, held in a `smallvec::SmallVec` with room for four.
#[verifier::external_body]
pub struct TileEvents(smallvec::SmallVec<[TileEvent; 4]>);

/// The events that the list holds, in order.
pub uninterp spec fn tile_event_list(events: TileEvents) -> Seq<TileEvent>;

/// No two events of the list have the same kind.
pub open spec fn spec_kinds_distinct(s: Seq<TileEvent>) -> bool {
    forall|i: int, j: int| 0 <= i < j < s.len() ==> spec_kind(#[trigger] s[i]) != spec_kind(#[trigger] s[j])
}

/// The number of a kind, from zero.
pub open spec fn spec_kind_index(k: TileEventKind) -> int {
    match k {
        TileEventKind::Fire => 0,
        TileEventKind::BlackDust => 1,
        TileEventKind::AerosolInjection => 2,
        TileEventKind::Plague => 3,
        TileEventKind::War => 4,
        TileEventKind::Decadence => 5,
        TileEventKind::NuclearExplosion => 6,
        TileEventKind::Exodus => 7,
        TileEventKind::Vehicle => 8,
        TileEventKind::Troop => 9,
    }
}

/// A list with one event per kind holds at most one event of each of the ten kinds.
pub proof fn lemma_distinct_kinds_len(s: Seq<TileEvent>)
    requires
        spec_kinds_distinct(s),
    ensures
        s.len() <= 10,
{
    let idx = s.map_values(|e: TileEvent| spec_kind_index(spec_kind(e)));
    assert(idx.no_duplicates()) by {
        assert forall|i: int, j: int| 0 <= i < idx.len() && 0 <= j < idx.len() && i != j implies idx[i] != idx[j] by {
            if i < j {
                assert(spec_kind(s[i]) != spec_kind(s[j]));
            } else {
                assert(spec_kind(s[j]) != spec_kind(s[i]));
            }
        }
    }
    idx.unique_seq_to_set();
    vstd::set_lib::lemma_int_range(0, 10);
    assert(idx.to_set().subset_of(vstd::set_lib::set_int_range(0, 10))) by {
        assert forall|x: int| idx.to_set().contains(x) implies vstd::set_lib::set_int_range(0, 10).contains(x) by {
            assert(idx.contains(x));
            let k = choose|k: int| 0 <= k < idx.len() && idx[k] == x;
            assert(idx[k] == spec_kind_index(spec_kind(s[k])));
        }
    }
    vstd::set_lib::lemma_len_subset(idx.to_set(), vstd::set_lib::set_int_range(0, 10));
}

/// The position of the first event of `kind`.
pub open spec fn spec_find(s: Seq<TileEvent>, kind: TileEventKind) -> Option<int>
    decreases s.len(),
{
    if s.len() == 0 {
        None
    } else if spec_kind(s[0]) == kind {
        Some(0)
    } else {
        match spec_find(s.subrange(1, s.len() as int), kind) {
            Some(i) => Some(i + 1),
            None => None,
        }
    }
}

/// What the position found says: the first event of the kind, or none at all.
pub proof fn lemma_find_props(s: Seq<TileEvent>, kind: TileEventKind)
    ensures
        match spec_find(s, kind) {
            Some(i) => 0 <= i < s.len() && spec_kind(s[i]) == kind && forall|j: int|
                0 <= j < i ==> spec_kind(#[trigger] s[j]) != kind,
            None => forall|j: int| 0 <= j < s.len() ==> spec_kind(#[trigger] s[j]) != kind,
        },
    decreases s.len(),
{
    if s.len() > 0 && spec_kind(s[0]) != kind {
        let t = s.subrange(1, s.len() as int);
        lemma_find_props(t, kind);
        match spec_find(t, kind) {
            Some(i) => {
                assert forall|j: int| 0 <= j < i + 1 implies spec_kind(#[trigger] s[j]) != kind by {
                    if j > 0 {
                        assert(s[j] == t[j - 1]);
                    }
                }
                assert(s[i + 1] == t[i]);
            },
            None => {
                assert forall|j: int| 0 <= j < s.len() implies spec_kind(#[trigger] s[j]) != kind by {
                    if j > 0 {
                        assert(s[j] == t[j - 1]);
                    }
                }
            },
        }
    }
}

proof fn lemma_find_at(s: Seq<TileEvent>, kind: TileEventKind, i: int)
    requires
        0 <= i < s.len(),
        spec_kind(s[i]) == kind,
        forall|j: int| 0 <= j < i ==> spec_kind(#[trigger] s[j]) != kind,
    ensures
        spec_find(s, kind) == Some(i),
{
    lemma_find_props(s, kind);
    match spec_find(s, kind) {
        Some(k) => {
            if k < i {
                assert(spec_kind(s[k]) != kind);
            }
            if i < k {
                assert(spec_kind(s[i]) != kind);
            }
        },
        None => {
            assert(spec_kind(s[i]) != kind);
        },
    }
}

proof fn lemma_find_none(s: Seq<TileEvent>, kind: TileEventKind)
    requires
        forall|j: int| 0 <= j < s.len() ==> spec_kind(#[trigger] s[j]) != kind,
    ensures
        spec_find(s, kind) is None,
{
    lemma_find_props(s, kind);
    if let Some(k) = spec_find(s, kind) {
        assert(spec_kind(s[k]) == kind);
    }
}

impl TileEvents {
    /// `SmallVec::new`.
    #[verifier::external_body]
    fn sv_new() -> (r: TileEvents)
        ensures
            tile_event_list(r) == Seq::<TileEvent>::empty(),
    {
        TileEvents(smallvec::SmallVec::new())
    }

    /// `SmallVec::len`.
    #[verifier::external_body]
    fn sv_len(&self) -> (r: usize)
        ensures
            r == tile_event_list(*self).len(),
    {
        self.0.len()
    }

    /// `SmallVec::index`.
    #[verifier::external_body]
    fn sv_get(&self, i: usize) -> (r: &TileEvent)
        requires
            i < tile_event_list(*self).len(),
        ensures
            *r == tile_event_list(*self)[i as int],
    {
        &self.0[i]
    }

    /// `SmallVec::index_mut`, writing one element.
    #[verifier::external_body]
    fn sv_set(&mut self, i: usize, e: TileEvent)
        requires
            i < tile_event_list(*old(self)).len(),
        ensures
            tile_event_list(*final(self)) == tile_event_list(*old(self)).update(i as int, e),
    {
        self.0[i] = e;
    }

    /// `SmallVec::push`.
    #[verifier::external_body]
    fn sv_push(&mut self, e: TileEvent)
        requires
            tile_event_list(*old(self)).len() < usize::MAX,
        ensures
            tile_event_list(*final(self)) == tile_event_list(*old(self)).push(e),
    {
        self.0.push(e);
    }

    /// `SmallVec::retain`, keeping the events of other kinds than `kind`.
    #[verifier::external_body]
    fn sv_retain_other_kinds(&mut self, kind: TileEventKind)
        ensures
            tile_event_list(*final(self)) == tile_event_list(*old(self)).filter(
                |e: TileEvent| spec_kind(e) != kind,
            ),
    {
        self.0.retain(|e| differs_in_kind(e, kind));
    }

    /// `SmallVec::retain`, keeping the events that are not settlement events.
    #[verifier::external_body]
    fn sv_retain_outliving_settlement(&mut self)
        ensures
            tile_event_list(*final(self)) == tile_event_list(*old(self)).filter(
                |e: TileEvent| !spec_is_settlement_event(e),
            ),
    {
        self.0.retain(|e| outlives_settlement(e));
    }

    /// `SmallVec::retain`, keeping the events that are not vehicles or troops
    /// of the civilization `id`.
    #[verifier::external_body]
    fn sv_retain_without_civ(&mut self, id: &AnimalId)
        ensures
            tile_event_list(*final(self)) == tile_event_list(*old(self)).filter(
                |e: TileEvent| !spec_moves_for(e, *id),
            ),
    {
        self.0.retain(|e| stays_without_civ(e, id));
    }

    /// `SmallVec::as_slice`.
    #[verifier::external_body]
    fn sv_as_slice(&self) -> (r: &[TileEvent])
        ensures
            r@ == tile_event_list(*self),
    {
        self.0.as_slice()
    }

    /// A tile without events.
    pub fn new() -> (r: TileEvents)
        ensures
            tile_event_list(r) == Seq::<TileEvent>::empty(),
    {
        Self::sv_new()
    }

    /// The position of the event of `kind`, if there is one.
    fn position(&self, kind: TileEventKind) -> (r: Option<usize>)
        ensures
            match r {
                Some(i) => spec_find(tile_event_list(*self), kind) == Some(i as int)
                    && i < tile_event_list(*self).len()
                    && spec_kind(tile_event_list(*self)[i as int]) == kind,
                None => spec_find(tile_event_list(*self), kind) is None,
            },
    {
        let len = self.sv_len();
        let mut i: usize = 0;
        while i < len
            invariant
                0 <= i <= len,
                len == tile_event_list(*self).len(),
                forall|j: int| 0 <= j < i ==> spec_kind(#[trigger] tile_event_list(*self)[j]) != kind,
            decreases len - i,
        {
            if self.sv_get(i).kind() == kind {
                proof {
                    lemma_find_at(tile_event_list(*self), kind, i as int);
                }
                return Some(i);
            }
            i += 1;
        }
        proof {
            lemma_find_none(tile_event_list(*self), kind);
        }
        None
    }

    /// Puts the event on the tile, in place of the event of the same kind if there is one.
    /// A list with one event per kind always has room; any other needs one
    /// free place.
    pub fn insert(&mut self, tile_event: TileEvent)
        requires
            spec_kinds_distinct(tile_event_list(*old(self))) || tile_event_list(*old(self)).len() < usize::MAX,
        ensures
            match spec_find(tile_event_list(*old(self)), spec_kind(tile_event)) {
                Some(i) => tile_event_list(*final(self)) == tile_event_list(*old(self)).update(i, tile_event),
                None => tile_event_list(*final(self)) == tile_event_list(*old(self)).push(tile_event),
            },
            spec_kinds_distinct(tile_event_list(*old(self))) ==> {
                let s = tile_event_list(*old(self));
                let t = tile_event_list(*final(self));
                &&& spec_kinds_distinct(t)
                &&& spec_find(t, spec_kind(tile_event)) matches Some(j) && t[j] == tile_event
                &&& t.filter(|x: TileEvent| spec_kind(x) != spec_kind(tile_event)) == s.filter(
                    |x: TileEvent| spec_kind(x) != spec_kind(tile_event),
                )
                &&& t.len() == s.len() + if spec_find(s, spec_kind(tile_event)) is Some {
                    0int
                } else {
                    1int
                }
            },
    {
        proof {
            if spec_kinds_distinct(tile_event_list(*self)) {
                lemma_distinct_kinds_len(tile_event_list(*self));
                law_insert_then_get(tile_event_list(*self), tile_event);
            }
        }
        match self.position(tile_event.kind()) {
            Some(i) => self.sv_set(i, tile_event),
            None => self.sv_push(tile_event),
        }
    }

    /// Removes the events of `kind`.
    pub fn remove(&mut self, kind: TileEventKind)
        ensures
            tile_event_list(*final(self)) == tile_event_list(*old(self)).filter(
                |e: TileEvent| spec_kind(e) != kind,
            ),
    {
        self.sv_retain_other_kinds(kind);
    }

    /// Removes the settlement events.
    pub fn remove_settlement_events(&mut self)
        ensures
            tile_event_list(*final(self)) == tile_event_list(*old(self)).filter(
                |e: TileEvent| !spec_is_settlement_event(e),
            ),
    {
        self.sv_retain_outliving_settlement();
    }

    /// Removes the vehicles and troops of the civilization `id`.
    pub fn remove_civ_movements(&mut self, id: &AnimalId)
        ensures
            tile_event_list(*final(self)) == tile_event_list(*old(self)).filter(
                |e: TileEvent| !spec_moves_for(e, *id),
            ),
    {
        self.sv_retain_without_civ(id);
    }

    pub fn contains(&self, kind: TileEventKind) -> (r: bool)
        ensures
            r == spec_find(tile_event_list(*self), kind) is Some,
    {
        self.position(kind).is_some()
    }

    /// The event of `kind`, if there is one.
    pub fn get(&self, kind: TileEventKind) -> (r: Option<&TileEvent>)
        ensures
            match spec_find(tile_event_list(*self), kind) {
                Some(i) => r == Some(&tile_event_list(*self)[i]),
                None => r is None,
            },
    {
        match self.position(kind) {
            Some(i) => Some(self.sv_get(i)),
            None => None,
        }
    }

    pub fn list(&self) -> (r: &[TileEvent])
        ensures
            r@ == tile_event_list(*self),
    {
        self.sv_as_slice()
    }

    /// Advances black dust: it lasts `decrease` cycles less, and is gone when
    /// fewer cycles remain.
    pub fn advance_black_dust(&mut self, decrease: u32)
        ensures
            tile_event_list(*final(self)) == spec_black_dust_advanced(tile_event_list(*old(self)), decrease),
    {
        if let Some(i) = self.position(TileEventKind::BlackDust) {
            let remaining_cycles = remaining_of(self.sv_get(i));
            if remaining_cycles < decrease {
                self.remove(TileEventKind::BlackDust);
            } else {
                self.sv_set(i, TileEvent::BlackDust { remaining_cycles: remaining_cycles - decrease });
            }
        }
    }

    /// Advances a countdown event of `kind`: one cycle less, gone at zero.
    /// Tells whether the tile had such an event.
    fn count_down(&mut self, kind: TileEventKind) -> (r: bool)
        requires
            kind == TileEventKind::AerosolInjection || kind == TileEventKind::NuclearExplosion
                || kind == TileEventKind::Exodus,
            spec_countdowns_positive(tile_event_list(*old(self))),
        ensures
            r == spec_find(tile_event_list(*old(self)), kind) is Some,
            tile_event_list(*final(self)) == spec_count_down(tile_event_list(*old(self)), kind),
    {
        if let Some(i) = self.position(kind) {
            let e = *self.sv_get(i);
            let next = match e {
                TileEvent::AerosolInjection { remaining_cycles } => TileEvent::AerosolInjection {
                    remaining_cycles: remaining_cycles - 1,
                },
                TileEvent::NuclearExplosion { remaining_cycles } => TileEvent::NuclearExplosion {
                    remaining_cycles: remaining_cycles - 1,
                },
                TileEvent::Exodus { remaining_cycles } => TileEvent::Exodus {
                    remaining_cycles: remaining_cycles - 1,
                },
                _ => e,
            };
            if remaining_of(&next) == 0 {
                self.remove(kind);
            } else {
                self.sv_set(i, next);
            }
            true
        } else {
            false
        }
    }

    /// Advances aerosol injection; tells whether the tile injects aerosol this cycle.
    pub fn advance_aerosol_injection(&mut self) -> (r: bool)
        requires
            spec_countdowns_positive(tile_event_list(*old(self))),
        ensures
            r == spec_find(tile_event_list(*old(self)), TileEventKind::AerosolInjection) is Some,
            tile_event_list(*final(self)) == spec_count_down(
                tile_event_list(*old(self)),
                TileEventKind::AerosolInjection,
            ),
    {
        self.count_down(TileEventKind::AerosolInjection)
    }

    /// Advances a nuclear explosion; tells whether the tile burns this cycle.
    pub fn advance_nuclear_explosion(&mut self) -> (r: bool)
        requires
            spec_countdowns_positive(tile_event_list(*old(self))),
        ensures
            r == spec_find(tile_event_list(*old(self)), TileEventKind::NuclearExplosion) is Some,
            tile_event_list(*final(self)) == spec_count_down(
                tile_event_list(*old(self)),
                TileEventKind::NuclearExplosion,
            ),
    {
        self.count_down(TileEventKind::NuclearExplosion)
    }

    /// Advances the exodus of a settlement; tells whether it leaves this cycle.
    pub fn advance_exodus(&mut self) -> (r: bool)
        requires
            spec_countdowns_positive(tile_event_list(*old(self))),
        ensures
            r == (match spec_find(tile_event_list(*old(self)), TileEventKind::Exodus) {
                Some(i) => spec_remaining(tile_event_list(*old(self))[i]) == 1,
                None => false,
            }),
            tile_event_list(*final(self)) == spec_count_down(tile_event_list(*old(self)), TileEventKind::Exodus),
    {
        let leaves = match self.get(TileEventKind::Exodus) {
            Some(e) => remaining_of(e) == 1,
            None => false,
        };
        self.count_down(TileEventKind::Exodus);
        leaves
    }
}

impl Default for TileEvents {
    fn default() -> (r: TileEvents)
        ensures
            tile_event_list(r) == Seq::<TileEvent>::empty(),
    {
        TileEvents::new()
    }
}

/// The cycles that a countdown event has left; zero for other events.
pub open spec fn spec_remaining(e: TileEvent) -> u32 {
    match e {
        TileEvent::BlackDust { remaining_cycles } => remaining_cycles,
        TileEvent::AerosolInjection { remaining_cycles } => remaining_cycles,
        TileEvent::NuclearExplosion { remaining_cycles } => remaining_cycles,
        TileEvent::Exodus { remaining_cycles } => remaining_cycles,
        _ => 0,
    }
}

fn remaining_of(e: &TileEvent) -> (r: u32)
    ensures
        r == spec_remaining(*e),
{
    match e {
        TileEvent::BlackDust { remaining_cycles } => *remaining_cycles,
        TileEvent::AerosolInjection { remaining_cycles } => *remaining_cycles,
        TileEvent::NuclearExplosion { remaining_cycles } => *remaining_cycles,
        TileEvent::Exodus { remaining_cycles } => *remaining_cycles,
        _ => 0,
    }
}

/// The events after black dust lasts `decrease` cycles less: gone when fewer
/// cycles remain.
pub open spec fn spec_black_dust_advanced(s: Seq<TileEvent>, decrease: u32) -> Seq<TileEvent> {
    match spec_find(s, TileEventKind::BlackDust) {
        Some(i) => if spec_remaining(s[i]) < decrease {
            s.filter(|e: TileEvent| spec_kind(e) != TileEventKind::BlackDust)
        } else {
            s.update(i, TileEvent::BlackDust { remaining_cycles: (spec_remaining(s[i]) - decrease) as u32 })
        },
        None => s,
    }
}

/// The events of a tile as the rules keep them: one per kind, and every
/// countdown with a cycle left.
pub open spec fn spec_tile_events_wf(s: Seq<TileEvent>) -> bool {
    spec_kinds_distinct(s) && spec_countdowns_positive(s)
}

/// Leaving events out keeps the events as the rules keep them.
pub proof fn lemma_filter_keeps_wf(s: Seq<TileEvent>, pred: spec_fn(TileEvent) -> bool)
    requires
        spec_tile_events_wf(s),
    ensures
        spec_tile_events_wf(s.filter(pred)),
    decreases s.len(),
{
    reveal(Seq::filter);
    if s.len() > 0 {
        let init = s.drop_last();
        assert(spec_tile_events_wf(init)) by {
            assert forall|i: int, j: int| 0 <= i < j < init.len() implies spec_kind(#[trigger] init[i]) != spec_kind(
                #[trigger] init[j],
            ) by {
                assert(init[i] == s[i] && init[j] == s[j]);
            }
            assert forall|i: int| 0 <= i < init.len() implies ((#[trigger] init[i] is AerosolInjection
                || init[i] is NuclearExplosion || init[i] is Exodus) ==> spec_remaining(init[i]) > 0) by {
                assert(init[i] == s[i]);
            }
        }
        lemma_filter_keeps_wf(init, pred);
        let f = init.filter(pred);
        if pred(s.last()) {
            let g = f.push(s.last());
            assert forall|x: TileEvent| f.contains(x) implies init.contains(x) by {
                init.lemma_filter_contains_rev(pred, x);
            }
            assert forall|i: int, j: int| 0 <= i < j < g.len() implies spec_kind(#[trigger] g[i]) != spec_kind(
                #[trigger] g[j],
            ) by {
                if j == f.len() {
                    assert(f.contains(g[i]));
                    let k = choose|k: int| 0 <= k < init.len() && init[k] == g[i];
                    assert(s[k] == g[i] && s[s.len() - 1] == g[j]);
                } else {
                    assert(g[i] == f[i] && g[j] == f[j]);
                }
            }
            assert forall|i: int| 0 <= i < g.len() implies ((#[trigger] g[i] is AerosolInjection || g[i] is NuclearExplosion
                || g[i] is Exodus) ==> spec_remaining(g[i]) > 0) by {
                if i < f.len() {
                    assert(g[i] == f[i]);
                } else {
                    assert(g[i] == s[s.len() - 1]);
                }
            }
        }
    }
}

/// Changing an event for one of the same kind keeps one event per kind.
pub proof fn lemma_update_same_kind(s: Seq<TileEvent>, i: int, e: TileEvent)
    requires
        spec_kinds_distinct(s),
        0 <= i < s.len(),
        spec_kind(e) == spec_kind(s[i]),
    ensures
        spec_kinds_distinct(s.update(i, e)),
        forall|j: int| 0 <= j < s.len() && j != i ==> #[trigger] s.update(i, e)[j] == s[j],
{
    let t = s.update(i, e);
    assert forall|a: int, b: int| 0 <= a < b < t.len() implies spec_kind(#[trigger] t[a]) != spec_kind(#[trigger] t[b]) by {
        assert(spec_kind(t[a]) == spec_kind(s[a]) && spec_kind(t[b]) == spec_kind(s[b]));
    }
}

/// Black dust going on keeps the events as the rules keep them.
pub proof fn lemma_black_dust_keeps_wf(s: Seq<TileEvent>, decrease: u32)
    requires
        spec_tile_events_wf(s),
    ensures
        spec_tile_events_wf(spec_black_dust_advanced(s, decrease)),
{
    lemma_find_props(s, TileEventKind::BlackDust);
    match spec_find(s, TileEventKind::BlackDust) {
        Some(i) => {
            if spec_remaining(s[i]) < decrease {
                lemma_filter_keeps_wf(s, |e: TileEvent| spec_kind(e) != TileEventKind::BlackDust);
            } else {
                let e = TileEvent::BlackDust { remaining_cycles: (spec_remaining(s[i]) - decrease) as u32 };
                lemma_update_same_kind(s, i, e);
                let t = s.update(i, e);
                assert forall|j: int| 0 <= j < t.len() implies ((#[trigger] t[j] is AerosolInjection || t[j] is NuclearExplosion
                    || t[j] is Exodus) ==> spec_remaining(t[j]) > 0) by {
                    if j != i {
                        assert(t[j] == s[j]);
                    }
                }
            }
        },
        None => {},
    }
}

/// A countdown going on keeps the events as the rules keep them.
pub proof fn lemma_count_down_keeps_wf(s: Seq<TileEvent>, kind: TileEventKind)
    requires
        spec_tile_events_wf(s),
        kind == TileEventKind::AerosolInjection || kind == TileEventKind::NuclearExplosion
            || kind == TileEventKind::Exodus,
    ensures
        spec_tile_events_wf(spec_count_down(s, kind)),
{
    lemma_find_props(s, kind);
    match spec_find(s, kind) {
        Some(i) => {
            if spec_remaining(s[i]) == 1 {
                lemma_filter_keeps_wf(s, |e: TileEvent| spec_kind(e) != kind);
            } else {
                let e = match s[i] {
                    TileEvent::AerosolInjection { remaining_cycles } => TileEvent::AerosolInjection {
                        remaining_cycles: (remaining_cycles - 1) as u32,
                    },
                    TileEvent::NuclearExplosion { remaining_cycles } => TileEvent::NuclearExplosion {
                        remaining_cycles: (remaining_cycles - 1) as u32,
                    },
                    TileEvent::Exodus { remaining_cycles } => TileEvent::Exodus {
                        remaining_cycles: (remaining_cycles - 1) as u32,
                    },
                    e => e,
                };
                lemma_update_same_kind(s, i, e);
                let t = s.update(i, e);
                assert forall|j: int| 0 <= j < t.len() implies ((#[trigger] t[j] is AerosolInjection || t[j] is NuclearExplosion
                    || t[j] is Exodus) ==> spec_remaining(t[j]) > 0) by {
                    if j != i {
                        assert(t[j] == s[j]);
                    }
                }
            }
        },
        None => {},
    }
}

/// Every aerosol injection, nuclear explosion and exodus has a cycle left.
pub open spec fn spec_countdowns_positive(s: Seq<TileEvent>) -> bool {
    forall|i: int|
        0 <= i < s.len() ==> ((#[trigger] s[i] is AerosolInjection || s[i] is NuclearExplosion
            || s[i] is Exodus) ==> spec_remaining(s[i]) > 0)
}

/// The countdown event of `kind` one cycle later: gone when it reaches zero.
pub open spec fn spec_count_down(s: Seq<TileEvent>, kind: TileEventKind) -> Seq<TileEvent> {
    match spec_find(s, kind) {
        Some(i) => if spec_remaining(s[i]) == 1 {
            s.filter(|e: TileEvent| spec_kind(e) != kind)
        } else {
            s.update(
                i,
                match s[i] {
                    TileEvent::AerosolInjection { remaining_cycles } => TileEvent::AerosolInjection {
                        remaining_cycles: (remaining_cycles - 1) as u32,
                    },
                    TileEvent::NuclearExplosion { remaining_cycles } => TileEvent::NuclearExplosion {
                        remaining_cycles: (remaining_cycles - 1) as u32,
                    },
                    TileEvent::Exodus { remaining_cycles } => TileEvent::Exodus {
                        remaining_cycles: (remaining_cycles - 1) as u32,
                    },
                    e => e,
                },
            )
        },
        None => s,
    }
}

/// The event that the player causes on a tile: a fire, black dust lasting
/// `black_dust_cycles`, or aerosol injection lasting `aerosol_injection_cycles`;
/// none for the plague, which only a settlement catches and which its own
/// rules start.
pub fn tile_event_to_cause(kind: TileEventKind, black_dust_cycles: u32, aerosol_injection_cycles: u32) -> (r: Option<
    TileEvent,
>)
    requires
        kind == TileEventKind::Fire || kind == TileEventKind::BlackDust || kind == TileEventKind::AerosolInjection
            || kind == TileEventKind::Plague,
    ensures
        r == (match kind {
            TileEventKind::Fire => Some(TileEvent::Fire),
            TileEventKind::BlackDust => Some(TileEvent::BlackDust { remaining_cycles: black_dust_cycles }),
            TileEventKind::AerosolInjection => Some(
                TileEvent::AerosolInjection { remaining_cycles: aerosol_injection_cycles },
            ),
            _ => None::<TileEvent>,
        }),
{
    match kind {
        TileEventKind::Fire => Some(TileEvent::Fire),
        TileEventKind::BlackDust => Some(TileEvent::BlackDust { remaining_cycles: black_dust_cycles }),
        TileEventKind::AerosolInjection => Some(TileEvent::AerosolInjection { remaining_cycles: aerosol_injection_cycles }),
        _ => None,
    }
}

/// Whether an event on the tile keeps a settlement from growing.
pub fn settlement_blocked_by_tile_event(tile_events: &TileEvents) -> (r: bool)
    ensures
        r == exists|i: int|
            0 <= i < tile_event_list(*tile_events).len() && spec_blocks_settlement(
                #[trigger] tile_event_list(*tile_events)[i],
            ),
{
    let list = tile_events.list();
    let mut i: usize = 0;
    while i < list.len()
        invariant
            0 <= i <= list.len(),
            list@ == tile_event_list(*tile_events),
            forall|j: int| 0 <= j < i ==> !spec_blocks_settlement(#[trigger] list@[j]),
        decreases list.len() - i,
    {
        let blocks = match list[i] {
            TileEvent::Fire | TileEvent::BlackDust { .. } | TileEvent::War { .. }
            | TileEvent::NuclearExplosion { .. } => true,
            TileEvent::Plague { cured, .. } => !cured,
            _ => false,
        };
        if blocks {
            return true;
        }
        i += 1;
    }
    false
}

/// Replacing an element that the filter leaves out by another that it leaves
/// out does not change what the filter keeps.
proof fn lemma_filter_update_excluded(s: Seq<TileEvent>, i: int, e: TileEvent, pred: spec_fn(TileEvent) -> bool)
    requires
        0 <= i < s.len(),
        !pred(s[i]),
        !pred(e),
    ensures
        s.update(i, e).filter(pred) == s.filter(pred),
    decreases s.len(),
{
    let t = s.update(i, e);
    let s0 = s.drop_last();
    let t0 = t.drop_last();
    assert(s =~= s0.push(s.last()));
    assert(t =~= t0.push(t.last()));
    s0.lemma_filter_push(s.last(), pred);
    t0.lemma_filter_push(t.last(), pred);
    if i == s.len() - 1 {
        assert(t0 =~= s0);
    } else {
        assert(t0 =~= s0.update(i, e));
        lemma_filter_update_excluded(s0, i, e, pred);
    }
}

/// Putting an event on a tile keeps one event per kind, and the event is then
/// found by its kind; the events of the other kinds stay as they were, in
/// their order, and the list grows by one only when no event of the kind was
/// there.
pub proof fn law_insert_then_get(s: Seq<TileEvent>, e: TileEvent)
    requires
        spec_kinds_distinct(s),
    ensures
        ({
            let t = match spec_find(s, spec_kind(e)) {
                Some(i) => s.update(i, e),
                None => s.push(e),
            };
            &&& spec_kinds_distinct(t)
            &&& spec_find(t, spec_kind(e)) matches Some(j) && t[j] == e
            &&& t.filter(|x: TileEvent| spec_kind(x) != spec_kind(e)) == s.filter(
                |x: TileEvent| spec_kind(x) != spec_kind(e),
            )
            &&& t.len() == s.len() + if spec_find(s, spec_kind(e)) is Some {
                0int
            } else {
                1int
            }
        }),
{
    let k = spec_kind(e);
    let other = |x: TileEvent| spec_kind(x) != k;
    lemma_find_props(s, k);
    match spec_find(s, k) {
        Some(i) => {
            let t = s.update(i, e);
            lemma_filter_update_excluded(s, i, e, other);
            assert forall|a: int, b: int| 0 <= a < b < t.len() implies spec_kind(#[trigger] t[a])
                != spec_kind(#[trigger] t[b]) by {
                assert(spec_kind(s[a]) != spec_kind(s[b]));
            }
            assert forall|j: int| 0 <= j < i implies spec_kind(#[trigger] t[j]) != k by {
                assert(t[j] == s[j]);
            }
            lemma_find_at(t, k, i);
        },
        None => {
            let t = s.push(e);
            s.lemma_filter_push(e, other);
            assert forall|a: int, b: int| 0 <= a < b < t.len() implies spec_kind(#[trigger] t[a])
                != spec_kind(#[trigger] t[b]) by {
                if b == s.len() {
                    assert(t[a] == s[a]);
                } else {
                    assert(t[a] == s[a] && t[b] == s[b]);
                    assert(spec_kind(s[a]) != spec_kind(s[b]));
                }
            }
            assert forall|j: int| 0 <= j < s.len() implies spec_kind(#[trigger] t[j]) != k by {
                assert(t[j] == s[j]);
            }
            lemma_find_at(t, k, s.len() as int);
        },
    }
}

/// After removing a kind, no event of that kind is left.
pub proof fn law_remove_then_absent(s: Seq<TileEvent>, kind: TileEventKind)
    ensures
        spec_find(s.filter(|e: TileEvent| spec_kind(e) != kind), kind) is None,
{
    let f = s.filter(|e: TileEvent| spec_kind(e) != kind);
    assert forall|i: int| 0 <= i < f.len() implies spec_kind(#[trigger] f[i]) != kind by {
        s.lemma_filter_pred(|e: TileEvent| spec_kind(e) != kind, i);
    }
    lemma_find_none(f, kind);
}

} // verus!
