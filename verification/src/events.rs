//! Planet events in progress: civilizations being born, wars, plagues,
//! decadence and exodus, with the numbering of wars.
use vstd::prelude::*;

use crate::animal_id::{animal_id_eq, same_animal, AnimalId};
use crate::defs::CivilizationAge;
use crate::geom::Coords;

verus! {

/// The sides of a war.
#[derive(Clone, Copy, Debug)]
pub enum WarKind {
    CivilWar,
    InterSpecies(AnimalId, AnimalId),
    NuclearWar,
}

#[derive(Clone, Copy, Debug)]
pub struct WarEvent {
    pub i: u32,
    pub kind: WarKind,
    pub start_pos: Option<Coords>,
    pub ceased: bool,
}

#[derive(Clone, Copy, PartialEq, Eq, Structural, Debug)]
pub struct PlagueEvent {
    pub i: u32,
    pub start_pos: Coords,
}

#[derive(Clone, Copy, Debug)]
pub struct DecadenceEvent {
    pub id: AnimalId,
    pub start_pos: Coords,
    pub age: CivilizationAge,
    pub remaining_cycles: i32,
}

#[derive(Clone, Copy, Debug)]
pub struct ExodusEvent {
    pub id: AnimalId,
}

/// An event that concerns the whole planet.
#[derive(Clone, Copy, Debug)]
pub enum PlanetEvent {
    Civilize { target: AnimalId },
    War(WarEvent),
    Plague(PlagueEvent),
    Decadence(DecadenceEvent),
    Exodus(ExodusEvent),
}

/// The kind of a planet event.
#[derive(Clone, Copy, PartialEq, Eq, Structural, PartialOrd, Ord, Hash, Debug)]
pub enum PlanetEventKind {
    Civilize,
    War,
    Plague,
    Decadence,
    Exodus,
}

/// An event and how far it went: cycles since it started and, if it has
/// one, the number of cycles it lasts.
#[derive(Clone, Copy, Debug)]
pub struct EventInProgress {
    pub event: PlanetEvent,
    pub progress: u64,
    pub duration: Option<u64>,
}

/// The events in progress, in the order they started.
#[derive(Clone, Debug)]
pub struct Events {
    pub in_progress: Vec<EventInProgress>,
}

pub open spec fn spec_event_kind(e: PlanetEvent) -> PlanetEventKind {
    match e {
        PlanetEvent::Civilize { .. } => PlanetEventKind::Civilize,
        PlanetEvent::War(_) => PlanetEventKind::War,
        PlanetEvent::Plague(_) => PlanetEventKind::Plague,
        PlanetEvent::Decadence(_) => PlanetEventKind::Decadence,
        PlanetEvent::Exodus(_) => PlanetEventKind::Exodus,
    }
}

/// Two war kinds name the same sides, ids compared by their text.
pub open spec fn spec_same_war_kind(a: WarKind, b: WarKind) -> bool {
    match (a, b) {
        (WarKind::CivilWar, WarKind::CivilWar) => true,
        (WarKind::NuclearWar, WarKind::NuclearWar) => true,
        (WarKind::InterSpecies(a0, a1), WarKind::InterSpecies(b0, b1)) => same_animal(a0, b0)
            && same_animal(a1, b1),
        _ => false,
    }
}

/// Two events are the same event, ids compared by their text.
pub open spec fn spec_same_event(a: PlanetEvent, b: PlanetEvent) -> bool {
    match (a, b) {
        (PlanetEvent::Civilize { target: x }, PlanetEvent::Civilize { target: y }) => same_animal(x, y),
        (PlanetEvent::War(x), PlanetEvent::War(y)) => x.i == y.i && spec_same_war_kind(x.kind, y.kind)
            && x.start_pos == y.start_pos && x.ceased == y.ceased,
        (PlanetEvent::Plague(x), PlanetEvent::Plague(y)) => x == y,
        (PlanetEvent::Decadence(x), PlanetEvent::Decadence(y)) => same_animal(x.id, y.id)
            && x.start_pos == y.start_pos && x.age == y.age && x.remaining_cycles
            == y.remaining_cycles,
        (PlanetEvent::Exodus(x), PlanetEvent::Exodus(y)) => same_animal(x.id, y.id),
        _ => false,
    }
}

fn same_coords_opt(a: Option<Coords>, b: Option<Coords>) -> (r: bool)
    ensures
        r == (a == b),
{
    match (a, b) {
        (Some(x), Some(y)) => x == y,
        (None, None) => true,
        _ => false,
    }
}

impl WarKind {
    pub fn same_as(&self, other: &WarKind) -> (r: bool)
        ensures
            r == spec_same_war_kind(*self, *other),
    {
        match (self, other) {
            (WarKind::CivilWar, WarKind::CivilWar) => true,
            (WarKind::NuclearWar, WarKind::NuclearWar) => true,
            (WarKind::InterSpecies(a0, a1), WarKind::InterSpecies(b0, b1)) => animal_id_eq(a0, b0)
                && animal_id_eq(a1, b1),
            _ => false,
        }
    }
}

impl PlanetEvent {
    pub fn kind(&self) -> (r: PlanetEventKind)
        ensures
            r == spec_event_kind(*self),
    {
        match self {
            PlanetEvent::Civilize { .. } => PlanetEventKind::Civilize,
            PlanetEvent::War(_) => PlanetEventKind::War,
            PlanetEvent::Plague(_) => PlanetEventKind::Plague,
            PlanetEvent::Decadence(_) => PlanetEventKind::Decadence,
            PlanetEvent::Exodus(_) => PlanetEventKind::Exodus,
        }
    }

    /// Whether two events are the same event.
    pub fn same_as(&self, other: &PlanetEvent) -> (r: bool)
        ensures
            r == spec_same_event(*self, *other),
    {
        match (self, other) {
            (PlanetEvent::Civilize { target: x }, PlanetEvent::Civilize { target: y }) => animal_id_eq(x, y),
            (PlanetEvent::War(x), PlanetEvent::War(y)) => x.i == y.i && x.kind.same_as(&y.kind)
                && same_coords_opt(x.start_pos, y.start_pos) && x.ceased == y.ceased,
            (PlanetEvent::Plague(x), PlanetEvent::Plague(y)) => *x == *y,
            (PlanetEvent::Decadence(x), PlanetEvent::Decadence(y)) => animal_id_eq(&x.id, &y.id)
                && x.start_pos == y.start_pos && x.age == y.age && x.remaining_cycles
                == y.remaining_cycles,
            (PlanetEvent::Exodus(x), PlanetEvent::Exodus(y)) => animal_id_eq(&x.id, &y.id),
            _ => false,
        }
    }
}

/// Whether some war in progress has the id `a`.
pub open spec fn spec_war_id_used(s: Seq<EventInProgress>, a: u32) -> bool {
    exists|k: int| 0 <= k < s.len() && (#[trigger] s[k].event matches PlanetEvent::War(w) && w.i == a)
}

/// The enemies of `id` in the inter-species wars that have not ceased.
pub open spec fn spec_enemies(s: Seq<EventInProgress>, id: AnimalId) -> Seq<AnimalId>
    decreases s.len(),
{
    if s.len() == 0 {
        Seq::empty()
    } else {
        let rest = spec_enemies(s.drop_last(), id);
        match s.last().event {
            PlanetEvent::War(w) => if w.ceased {
                rest
            } else {
                match w.kind {
                    WarKind::InterSpecies(a, b) => if same_animal(a, id) {
                        rest.push(b)
                    } else if same_animal(b, id) {
                        rest.push(a)
                    } else {
                        rest
                    },
                    _ => rest,
                }
            },
            _ => rest,
        }
    }
}

/// One step of progress for every event: those that reach their duration complete.
pub open spec fn spec_completes(e: EventInProgress) -> bool {
    match e.duration {
        Some(d) => e.progress + 1 >= d,
        None => false,
    }
}

pub open spec fn spec_advanced(e: EventInProgress) -> EventInProgress {
    EventInProgress { event: e.event, progress: (e.progress + 1) as u64, duration: e.duration }
}

/// Every pair of keys, the earlier key first, in the order of the keys.
pub open spec fn spec_combinations(keys: Seq<AnimalId>) -> Seq<(AnimalId, AnimalId)>
    decreases keys.len(),
{
    if keys.len() < 2 {
        Seq::empty()
    } else {
        keys.drop_first().map_values(|b: AnimalId| (keys[0], b)) + spec_combinations(keys.drop_first())
    }
}

impl Default for Events {
    fn default() -> (r: Events)
        ensures
            r.in_progress@ == Seq::<EventInProgress>::empty(),
    {
        Events { in_progress: Vec::new() }
    }
}

impl Events {
    /// Whether the event is in progress.
    pub fn in_progress(&self, event: &PlanetEvent) -> (r: bool)
        ensures
            r == exists|k: int|
                0 <= k < self.in_progress@.len() && spec_same_event(
                    #[trigger] self.in_progress@[k].event,
                    *event,
                ),
    {
        let mut i: usize = 0;
        while i < self.in_progress.len()
            invariant
                0 <= i <= self.in_progress.len(),
                forall|k: int| 0 <= k < i ==> !spec_same_event(#[trigger] self.in_progress@[k].event, *event),
            decreases self.in_progress.len() - i,
        {
            if self.in_progress[i].event.same_as(event) {
                return true;
            }
            i += 1;
        }
        false
    }

    /// Starts an event; it lasts `duration` cycles, or until it is ended
    /// when there is none.
    pub fn start_event(&mut self, event: PlanetEvent, duration: Option<u64>)
        ensures
            final(self).in_progress@ == old(self).in_progress@.push(
                EventInProgress { event, progress: 0, duration },
            ),
    {
        self.in_progress.push(EventInProgress { event, progress: 0, duration });
    }

    /// Advances every event by one cycle; the events that reach their duration
    /// end and are returned in the order they started.
    pub fn advance(&mut self) -> (completed: Vec<PlanetEvent>)
        requires
            forall|k: int| 0 <= k < old(self).in_progress@.len() ==> #[trigger] old(self).in_progress@[k].progress < u64::MAX,
        ensures
            final(self).in_progress@ == old(self).in_progress@.filter(|e: EventInProgress| !spec_completes(e)).map_values(
                |e: EventInProgress| spec_advanced(e),
            ),
            completed@ == old(self).in_progress@.filter(|e: EventInProgress| spec_completes(e)).map_values(
                |e: EventInProgress| e.event,
            ),
    {
        let ghost orig = self.in_progress@;
        let ghost keep = |e: EventInProgress| !spec_completes(e);
        let ghost done_pred = |e: EventInProgress| spec_completes(e);
        let mut kept: Vec<EventInProgress> = Vec::new();
        let mut completed: Vec<PlanetEvent> = Vec::new();
        let mut i: usize = 0;
        proof {
            reveal(Seq::filter);
            assert(orig.take(0) =~= Seq::<EventInProgress>::empty());
        }
        while i < self.in_progress.len()
            invariant
                0 <= i <= self.in_progress.len(),
                self.in_progress@ == orig,
                forall|k: int| 0 <= k < orig.len() ==> #[trigger] orig[k].progress < u64::MAX,
                keep == (|e: EventInProgress| !spec_completes(e)),
                done_pred == (|e: EventInProgress| spec_completes(e)),
                kept@ == orig.take(i as int).filter(keep).map_values(|e: EventInProgress| spec_advanced(e)),
                completed@ == orig.take(i as int).filter(done_pred).map_values(|e: EventInProgress| e.event),
            decreases self.in_progress.len() - i,
        {
            let e = self.in_progress[i];
            let progress = e.progress + 1;
            let done = match e.duration {
                Some(d) => progress >= d,
                None => false,
            };
            proof {
                assert(orig.take(i + 1) =~= orig.take(i as int).push(e));
                orig.take(i as int).lemma_filter_push(e, keep);
                orig.take(i as int).lemma_filter_push(e, done_pred);
            }
            if done {
                let ghost before = completed@;
                completed.push(e.event);
                proof {
                    assert(orig.take(i as int).filter(done_pred).push(e).map_values(|e: EventInProgress| e.event)
                        =~= before.push(e.event));
                }
            } else {
                let ghost before = kept@;
                kept.push(EventInProgress { event: e.event, progress, duration: e.duration });
                proof {
                    assert(orig.take(i as int).filter(keep).push(e).map_values(|e: EventInProgress| spec_advanced(e))
                        =~= before.push(spec_advanced(e)));
                }
            }
            i += 1;
        }
        proof {
            assert(orig.take(i as int) =~= orig);
        }
        self.in_progress = kept;
        completed
    }

    /// The civilization on exodus: that of the first exodus event in progress.
    pub fn in_exodus_civ(&self) -> (r: Option<AnimalId>)
        ensures
            match r {
                Some(id) => exists|k: int|
                    0 <= k < self.in_progress@.len() && (#[trigger] self.in_progress@[k].event
                        matches PlanetEvent::Exodus(x) && x.id == id) && forall|j: int|
                        0 <= j < k ==> !(self.in_progress@[j].event is Exodus),
                None => forall|k: int| 0 <= k < self.in_progress@.len() ==> !(#[trigger] self.in_progress@[k].event is Exodus),
            },
    {
        let mut i: usize = 0;
        while i < self.in_progress.len()
            invariant
                0 <= i <= self.in_progress.len(),
                forall|k: int| 0 <= k < i ==> !(#[trigger] self.in_progress@[k].event is Exodus),
            decreases self.in_progress.len() - i,
        {
            if let PlanetEvent::Exodus(x) = self.in_progress[i].event {
                return Some(x.id);
            }
            i += 1;
        }
        None
    }

    /// Whether a war of this kind, ceased or not, is in progress.
    pub fn war_in_progress(&self, kind: &WarKind) -> (r: bool)
        ensures
            r == exists|k: int|
                0 <= k < self.in_progress@.len() && (#[trigger] self.in_progress@[k].event
                    matches PlanetEvent::War(w) && spec_same_war_kind(w.kind, *kind)),
    {
        let mut i: usize = 0;
        while i < self.in_progress.len()
            invariant
                0 <= i <= self.in_progress.len(),
                forall|k: int|
                    0 <= k < i ==> !(#[trigger] self.in_progress@[k].event matches PlanetEvent::War(w)
                        && spec_same_war_kind(w.kind, *kind)),
            decreases self.in_progress.len() - i,
        {
            if let PlanetEvent::War(w) = self.in_progress[i].event {
                if w.kind.same_as(kind) {
                    return true;
                }
            }
            i += 1;
        }
        false
    }
}

/// Whether some war in progress has the id `a`.
fn war_id_used(events: &Events, a: u32) -> (r: bool)
    ensures
        r == spec_war_id_used(events.in_progress@, a),
{
    let mut i: usize = 0;
    while i < events.in_progress.len()
        invariant
            0 <= i <= events.in_progress.len(),
            forall|k: int|
                0 <= k < i ==> !(#[trigger] events.in_progress@[k].event matches PlanetEvent::War(w)
                    && w.i == a),
        decreases events.in_progress.len() - i,
    {
        if let PlanetEvent::War(w) = events.in_progress[i].event {
            if w.i == a {
                return true;
            }
        }
        i += 1;
    }
    false
}

/// The smallest id that no war in progress uses.
pub fn empty_war_id(events: &Events) -> (r: u32)
    requires
        events.in_progress@.len() < u32::MAX,
    ensures
        !spec_war_id_used(events.in_progress@, r),
        forall|a: u32| a < r ==> spec_war_id_used(events.in_progress@, a),
{
    let mut a: u32 = 0;
    while war_id_used(events, a)
        invariant
            a <= events.in_progress@.len(),
            events.in_progress@.len() < u32::MAX,
            forall|b: u32| b < a ==> spec_war_id_used(events.in_progress@, b),
        decreases events.in_progress@.len() - a,
    {
        proof {
            lemma_used_ids_fit(events.in_progress@, (a + 1) as nat);
        }
        a += 1;
    }
    a
}

/// When every id below `n` is used, there are at least `n` events.
proof fn lemma_used_ids_fit(s: Seq<EventInProgress>, n: nat)
    requires
        forall|b: u32| b < n ==> spec_war_id_used(s, b),
        n <= u32::MAX,
    ensures
        n <= s.len(),
{
    let ids = Set::new(|b: u32| b < n);
    let idx = vstd::set_lib::set_int_range(0, s.len() as int);
    let f = |b: u32| choose|k: int| 0 <= k < s.len() && (#[trigger] s[k].event matches PlanetEvent::War(w) && w.i == b);
    assert forall|b: u32| ids.contains(b) implies idx.contains(f(b)) && (s[f(b)].event matches PlanetEvent::War(w) && w.i == b) by {
        assert(spec_war_id_used(s, b));
    }
    assert forall|b1: u32, b2: u32| ids.contains(b1) && ids.contains(b2) && f(b1) == f(b2) implies b1 == b2 by {
        assert(s[f(b1)].event matches PlanetEvent::War(w) && w.i == b1);
        assert(s[f(b2)].event matches PlanetEvent::War(w) && w.i == b2);
    }
    lemma_set_u32_below(n);
    vstd::set_lib::lemma_int_range(0, s.len() as int);
    let img = ids.map(f);
    assert(img.subset_of(idx));
    vstd::set_lib::lemma_len_subset(img, idx);
    vstd::set_lib::lemma_map_size(ids, img, f);
}

proof fn lemma_set_u32_below(n: nat)
    requires
        n <= u32::MAX,
    ensures
        Set::new(|b: u32| b < n).finite(),
        Set::new(|b: u32| b < n).len() == n,
    decreases n,
{
    if n == 0 {
        assert(Set::new(|b: u32| b < n) =~= Set::<u32>::empty());
    } else {
        lemma_set_u32_below((n - 1) as nat);
        let m = (n - 1) as u32;
        assert(Set::new(|b: u32| b < n) =~= Set::new(|b: u32| b < (n - 1) as nat).insert(m));
    }
}

/// The enemies of `id`: the other side of every inter-species war that has not ceased.
pub fn get_enemies(events: &Events, id: AnimalId) -> (r: Vec<AnimalId>)
    ensures
        r@ == spec_enemies(events.in_progress@, id),
{
    let ghost s = events.in_progress@;
    let mut enemies: Vec<AnimalId> = Vec::new();
    let mut i: usize = 0;
    proof {
        assert(s.take(0) =~= Seq::<EventInProgress>::empty());
    }
    while i < events.in_progress.len()
        invariant
            0 <= i <= events.in_progress.len(),
            s == events.in_progress@,
            enemies@ == spec_enemies(s.take(i as int), id),
        decreases events.in_progress.len() - i,
    {
        proof {
            assert(s.take(i + 1).drop_last() =~= s.take(i as int));
        }
        if let PlanetEvent::War(event) = events.in_progress[i].event {
            if !event.ceased {
                match event.kind {
                    WarKind::InterSpecies(aid, enemy_id) => {
                        if animal_id_eq(&aid, &id) {
                            enemies.push(enemy_id);
                        } else if animal_id_eq(&enemy_id, &id) {
                            enemies.push(aid);
                        }
                    },
                    _ => {},
                }
            }
        }
        i += 1;
    }
    proof {
        assert(s.take(i as int) =~= s);
    }
    enemies
}

/// Every pair of civilizations, each pair once, in the order of the keys.
pub fn civ_combinations(keys: &Vec<AnimalId>) -> (r: Vec<(AnimalId, AnimalId)>)
    ensures
        r@ == spec_combinations(keys@),
{
    let n = keys.len();
    let mut r: Vec<(AnimalId, AnimalId)> = Vec::new();
    if n < 2 {
        return r;
    }
    let mut i: usize = 0;
    proof {
        assert(keys@.skip(0) =~= keys@);
    }
    while i < n
        invariant
            0 <= i <= n,
            n == keys.len(),
            n >= 2,
            spec_combinations(keys@) == r@ + spec_combinations(keys@.skip(i as int)),
        decreases n - i,
    {
        let ghost before = r@;
        let ghost rest = keys@.skip(i as int);
        let mut j: usize = i + 1;
        while j < n
            invariant
                i < n,
                i + 1 <= j <= n,
                n == keys.len(),
                r@ == before + rest.drop_first().take(j - i - 1).map_values(|b: AnimalId| (keys@[i as int], b)),
                rest == keys@.skip(i as int),
            decreases n - j,
        {
            let ghost r0 = r@;
            r.push((keys[i], keys[j]));
            proof {
                assert(rest.drop_first().take(j - i) =~= rest.drop_first().take(j - i - 1).push(keys@[j as int]));
                assert(r@ =~= before + rest.drop_first().take(j - i).map_values(|b: AnimalId| (keys@[i as int], b)));
            }
            j += 1;
        }
        proof {
            assert(rest.drop_first().take(n - i - 1) =~= rest.drop_first());
            assert(rest.drop_first() =~= keys@.skip(i + 1));
            if rest.len() >= 2 {
                assert(rest[0] == keys@[i as int]);
            } else {
                assert(spec_combinations(rest) == Seq::<(AnimalId, AnimalId)>::empty());
                assert(spec_combinations(keys@.skip(i + 1)) == Seq::<(AnimalId, AnimalId)>::empty());
                assert(rest.drop_first().map_values(|b: AnimalId| (keys@[i as int], b)) =~= Seq::<(AnimalId, AnimalId)>::empty());
            }
            assert(r@ + spec_combinations(keys@.skip(i + 1)) =~= before + spec_combinations(rest));
        }
        i += 1;
    }
    proof {
        assert(keys@.skip(n as int) =~= Seq::<AnimalId>::empty());
    }
    r
}

/// Each pair of distinct positions of the keys makes exactly one combination,
/// the earlier key first.
pub proof fn law_combinations_count(keys: Seq<AnimalId>)
    ensures
        spec_combinations(keys).len() == keys.len() * (keys.len() - 1) / 2,
    decreases keys.len(),
{
    if keys.len() >= 2 {
        let m = keys.drop_first();
        law_combinations_count(m);
        let n = keys.len() as int;
        assert(spec_combinations(keys).len() == (n - 1) + spec_combinations(m).len());
        assert(spec_combinations(m).len() == (n - 1) * (n - 2) / 2);
        assert((n - 1) * (n - 2) / 2 + (n - 1) == n * (n - 1) / 2) by (nonlinear_arith)
            requires
                n >= 2,
        ;
    } else {
        let n = keys.len() as int;
        assert(n * (n - 1) / 2 == 0) by (nonlinear_arith)
            requires
                0 <= n < 2,
        ;
    }
}

/// Every enemy of `id` comes from an inter-species war in progress that has
/// not ceased and in which `id` fights; every such war gives its other side
/// as an enemy. A war that has ceased gives no enemy.
pub proof fn law_enemies_from_wars_in_progress(s: Seq<EventInProgress>, id: AnimalId)
    ensures
        forall|k: int|
            #![trigger spec_enemies(s, id)[k]]
            0 <= k < spec_enemies(s, id).len() ==> exists|j: int|
                0 <= j < s.len() && (#[trigger] s[j].event matches PlanetEvent::War(w) && !w.ceased && (
                w.kind matches WarKind::InterSpecies(a, b) && ((same_animal(a, id) && spec_enemies(s, id)[k] == b)
                    || (same_animal(b, id) && spec_enemies(s, id)[k] == a)))),
        forall|j: int|
            0 <= j < s.len() ==> ((#[trigger] s[j].event matches PlanetEvent::War(w) && !w.ceased && (
            w.kind matches WarKind::InterSpecies(a, b) && same_animal(a, id))) ==> spec_enemies(s, id).contains(
                s[j].event->War_0.kind->InterSpecies_1,
            )),
        forall|j: int|
            0 <= j < s.len() ==> ((#[trigger] s[j].event matches PlanetEvent::War(w) && !w.ceased && (
            w.kind matches WarKind::InterSpecies(a, b) && same_animal(b, id))) ==> (spec_enemies(s, id).contains(
                s[j].event->War_0.kind->InterSpecies_0,
            ) || spec_enemies(s, id).contains(s[j].event->War_0.kind->InterSpecies_1))),
    decreases s.len(),
{
    if s.len() > 0 {
        let init = s.drop_last();
        law_enemies_from_wars_in_progress(init, id);
        let rest = spec_enemies(init, id);
        let e = spec_enemies(s, id);
        assert forall|k: int| #![trigger e[k]] 0 <= k < e.len() implies exists|j: int|
            0 <= j < s.len() && (#[trigger] s[j].event matches PlanetEvent::War(w) && !w.ceased && (
            w.kind matches WarKind::InterSpecies(a, b) && ((same_animal(a, id) && e[k] == b) || (same_animal(b, id)
                && e[k] == a)))) by {
            if k < rest.len() {
                assert(e[k] == rest[k]);
                let j = choose|j: int|
                    0 <= j < init.len() && (#[trigger] init[j].event matches PlanetEvent::War(w) && !w.ceased && (
                    w.kind matches WarKind::InterSpecies(a, b) && ((same_animal(a, id) && rest[k] == b) || (
                    same_animal(b, id) && rest[k] == a))));
                assert(s[j] == init[j]);
            } else {
                assert(s[s.len() - 1] == s.last());
            }
        }
        assert forall|j: int|
            0 <= j < s.len() && (#[trigger] s[j].event matches PlanetEvent::War(w) && !w.ceased && (
            w.kind matches WarKind::InterSpecies(a, b) && same_animal(a, id))) implies e.contains(
            s[j].event->War_0.kind->InterSpecies_1,
        ) by {
            if j < init.len() {
                assert(s[j] == init[j]);
                let x = s[j].event->War_0.kind->InterSpecies_1;
                let k = choose|k: int| 0 <= k < rest.len() && rest[k] == x;
                assert(e[k] == x);
            } else {
                assert(e[rest.len() as int] == s[j].event->War_0.kind->InterSpecies_1);
            }
        }
        assert forall|j: int|
            0 <= j < s.len() && (#[trigger] s[j].event matches PlanetEvent::War(w) && !w.ceased && (
            w.kind matches WarKind::InterSpecies(a, b) && same_animal(b, id))) implies (e.contains(
            s[j].event->War_0.kind->InterSpecies_0,
        ) || e.contains(s[j].event->War_0.kind->InterSpecies_1)) by {
            if j < init.len() {
                assert(s[j] == init[j]);
                let x0 = s[j].event->War_0.kind->InterSpecies_0;
                let x1 = s[j].event->War_0.kind->InterSpecies_1;
                if rest.contains(x0) {
                    let k = choose|k: int| 0 <= k < rest.len() && rest[k] == x0;
                    assert(e[k] == x0);
                } else {
                    let k = choose|k: int| 0 <= k < rest.len() && rest[k] == x1;
                    assert(e[k] == x1);
                }
            } else {
                assert(e[rest.len() as int] == s[j].event->War_0.kind->InterSpecies_0 || e[rest.len() as int]
                    == s[j].event->War_0.kind->InterSpecies_1);
            }
        }
    }
}

/// The combinations are exactly the pairs of keys at two positions, the key
/// at the earlier position first.
pub proof fn law_combinations_pairs(keys: Seq<AnimalId>)
    ensures
        forall|k: int|
            #![trigger spec_combinations(keys)[k]]
            0 <= k < spec_combinations(keys).len() ==> exists|i: int, j: int|
                0 <= i < j < keys.len() && spec_combinations(keys)[k] == (#[trigger] keys[i], #[trigger] keys[j]),
        forall|i: int, j: int|
            0 <= i < j < keys.len() ==> spec_combinations(keys).contains((#[trigger] keys[i], #[trigger] keys[j])),
    decreases keys.len(),
{
    if keys.len() >= 2 {
        let m = keys.drop_first();
        law_combinations_pairs(m);
        let head = m.map_values(|b: AnimalId| (keys[0], b));
        let rest = spec_combinations(m);
        let c = spec_combinations(keys);
        assert(c == head + rest);
        assert forall|k: int| #![trigger c[k]] 0 <= k < c.len() implies exists|i: int, j: int|
            0 <= i < j < keys.len() && c[k] == (#[trigger] keys[i], #[trigger] keys[j]) by {
            if k < head.len() {
                assert(c[k] == (keys[0], keys[k + 1]));
            } else {
                assert(c[k] == rest[k - head.len()]);
                let (i, j) = choose|i: int, j: int| 0 <= i < j < m.len() && rest[k - head.len()] == (#[trigger] m[i], #[trigger] m[j]);
                assert(m[i] == keys[i + 1] && m[j] == keys[j + 1]);
            }
        }
        assert forall|i: int, j: int| 0 <= i < j < keys.len() implies c.contains((#[trigger] keys[i], #[trigger] keys[j])) by {
            if i == 0 {
                assert(c[j - 1] == (keys[0], keys[j]));
            } else {
                assert(m[i - 1] == keys[i] && m[j - 1] == keys[j]);
                assert(rest.contains((m[i - 1], m[j - 1])));
                let k = choose|k: int| 0 <= k < rest.len() && rest[k] == (m[i - 1], m[j - 1]);
                assert(c[head.len() + k] == rest[k]);
            }
        }
    }
}

} // verus!
