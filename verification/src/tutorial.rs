//! The tutorial: a fixed walk through steps, each part with a checklist
//! of goals that the player reaches on the planet.
use vstd::prelude::*;

use crate::animal_id::{animal_id_from_str, animal_id_text, AnimalId};
use crate::defs::{spec_space_building_index, AnimalHabitat, AnimalSize, Biome, SpaceBuildingKind, StructureKind};
use crate::planet::{
    count_tiles, lemma_animal_count_where, lemma_biome_count_where, lemma_count_animal_named, lemma_count_biome_tiles,
    lemma_query_count_where, spec_count_animal_named, spec_count_biome_tiles, spec_count_tiles, spec_tiles_where, Planet,
    Structure, Tile, TileQuery,
};
use crate::savefile::SaveFileMetadata;

verus! {

/// Origin id of the planet that starts the tutorial.
pub const TUTORIAL_PLANET: &'static str = "tutorial";

/// A step of the tutorial: the part and the page within the part.
#[derive(Clone, Copy, PartialEq, Eq, Structural, Debug)]
pub enum TutorialStep {
    Start(usize),
    Power(usize),
    Fertilize(usize),
    BuildOxygen(usize),
    WaitOxygen(usize),
    Carbon(usize),
    Animal(usize),
    Civilize(usize),
    Complete(bool),
}

/// The part of the tutorial that a step belongs to.
#[derive(Clone, Copy, PartialEq, Eq, Structural, Debug)]
pub enum TutorialStepDiscriminants {
    Start,
    Power,
    Fertilize,
    BuildOxygen,
    WaitOxygen,
    Carbon,
    Animal,
    Civilize,
    Complete,
}

/// A goal that the player reaches during the tutorial.
#[derive(Clone, Copy, PartialEq, Eq, Structural, Debug)]
pub enum ChecklistItem {
    PowerChecklist1,
    PowerChecklist2,
    FertilizeChecklist1,
    FertilizeChecklist2,
    BuildOxygenChecklist1,
    BuildOxygenChecklist2,
    WaitOxygenChecklist1,
    WaitOxygenChecklist2,
    CarbonChecklist1,
    AnimalChecklist1,
    CivilizeChecklist1,
}

/// Progress of the tutorial: the current step and the goals of its part.
#[derive(Clone, PartialEq, Eq, Debug)]
pub struct TutorialState {
    pub current: TutorialStep,
    pub checklist: Vec<(ChecklistItem, bool)>,
}

pub open spec fn spec_discriminant(s: TutorialStep) -> TutorialStepDiscriminants {
    match s {
        TutorialStep::Start(_) => TutorialStepDiscriminants::Start,
        TutorialStep::Power(_) => TutorialStepDiscriminants::Power,
        TutorialStep::Fertilize(_) => TutorialStepDiscriminants::Fertilize,
        TutorialStep::BuildOxygen(_) => TutorialStepDiscriminants::BuildOxygen,
        TutorialStep::WaitOxygen(_) => TutorialStepDiscriminants::WaitOxygen,
        TutorialStep::Carbon(_) => TutorialStepDiscriminants::Carbon,
        TutorialStep::Animal(_) => TutorialStepDiscriminants::Animal,
        TutorialStep::Civilize(_) => TutorialStepDiscriminants::Civilize,
        TutorialStep::Complete(_) => TutorialStepDiscriminants::Complete,
    }
}

/// The steps of the tutorial in the order that the player walks through them.
pub open spec fn spec_order() -> Seq<TutorialStep> {
    seq![
        TutorialStep::Start(0),
        TutorialStep::Start(1),
        TutorialStep::Power(0),
        TutorialStep::Power(1),
        TutorialStep::Fertilize(0),
        TutorialStep::Fertilize(1),
        TutorialStep::BuildOxygen(0),
        TutorialStep::BuildOxygen(1),
        TutorialStep::WaitOxygen(0),
        TutorialStep::Carbon(0),
        TutorialStep::Animal(0),
        TutorialStep::Animal(1),
        TutorialStep::Civilize(0),
        TutorialStep::Complete(false),
        TutorialStep::Complete(true),
    ]
}

/// The step that follows `s` in the order; none for the last step and for steps not in it.
pub open spec fn spec_next(s: TutorialStep) -> Option<TutorialStep> {
    if exists|i: int| 0 <= i < spec_order().len() - 1 && spec_order()[i] == s {
        let i = choose|i: int| 0 <= i < spec_order().len() - 1 && spec_order()[i] == s;
        Some(spec_order()[i + 1])
    } else {
        None
    }
}

/// The step that precedes `s` in the order; none for the first step and for steps not in it.
pub open spec fn spec_back(s: TutorialStep) -> Option<TutorialStep> {
    if exists|i: int| 1 <= i < spec_order().len() && spec_order()[i] == s {
        let i = choose|i: int| 1 <= i < spec_order().len() && spec_order()[i] == s;
        Some(spec_order()[i - 1])
    } else {
        None
    }
}

/// The goals of a part of the tutorial.
pub open spec fn spec_checklist(d: TutorialStepDiscriminants) -> Seq<ChecklistItem> {
    match d {
        TutorialStepDiscriminants::Power => seq![
            ChecklistItem::PowerChecklist1,
            ChecklistItem::PowerChecklist2,
        ],
        TutorialStepDiscriminants::Fertilize => seq![
            ChecklistItem::FertilizeChecklist1,
            ChecklistItem::FertilizeChecklist2,
        ],
        TutorialStepDiscriminants::BuildOxygen => seq![
            ChecklistItem::BuildOxygenChecklist1,
            ChecklistItem::BuildOxygenChecklist2,
        ],
        TutorialStepDiscriminants::WaitOxygen => seq![
            ChecklistItem::WaitOxygenChecklist1,
            ChecklistItem::WaitOxygenChecklist2,
        ],
        TutorialStepDiscriminants::Carbon => seq![ChecklistItem::CarbonChecklist1],
        TutorialStepDiscriminants::Animal => seq![ChecklistItem::AnimalChecklist1],
        TutorialStepDiscriminants::Civilize => seq![ChecklistItem::CivilizeChecklist1],
        _ => seq![],
    }
}

/// The goals of a part, none of them reached yet.
pub open spec fn spec_fresh_checklist(d: TutorialStepDiscriminants) -> Seq<(ChecklistItem, bool)> {
    spec_checklist(d).map_values(|item: ChecklistItem| (item, false))
}

/// The state after moving to `step`: a new part starts with a fresh checklist.
pub open spec fn spec_moved_to(st: TutorialState, step: TutorialStep) -> (TutorialStep, Seq<(ChecklistItem, bool)>) {
    if spec_discriminant(st.current) != spec_discriminant(step) {
        (step, spec_fresh_checklist(spec_discriminant(step)))
    } else {
        (step, st.checklist@)
    }
}

/// Every goal of the checklist is reached.
pub open spec fn spec_all_checked(list: Seq<(ChecklistItem, bool)>) -> bool {
    forall|i: int| 0 <= i < list.len() ==> #[trigger] list[i].1
}

impl TutorialStepDiscriminants {
    pub fn from_step(step: TutorialStep) -> (d: TutorialStepDiscriminants)
        ensures
            d == spec_discriminant(step),
    {
        match step {
            TutorialStep::Start(_) => TutorialStepDiscriminants::Start,
            TutorialStep::Power(_) => TutorialStepDiscriminants::Power,
            TutorialStep::Fertilize(_) => TutorialStepDiscriminants::Fertilize,
            TutorialStep::BuildOxygen(_) => TutorialStepDiscriminants::BuildOxygen,
            TutorialStep::WaitOxygen(_) => TutorialStepDiscriminants::WaitOxygen,
            TutorialStep::Carbon(_) => TutorialStepDiscriminants::Carbon,
            TutorialStep::Animal(_) => TutorialStepDiscriminants::Animal,
            TutorialStep::Civilize(_) => TutorialStepDiscriminants::Civilize,
            TutorialStep::Complete(_) => TutorialStepDiscriminants::Complete,
        }
    }
}

impl TutorialStep {
    /// The steps of the tutorial in order.
    fn order() -> (r: [TutorialStep; 15])
        ensures
            r@ == spec_order(),
    {
        let r = [
            TutorialStep::Start(0),
            TutorialStep::Start(1),
            TutorialStep::Power(0),
            TutorialStep::Power(1),
            TutorialStep::Fertilize(0),
            TutorialStep::Fertilize(1),
            TutorialStep::BuildOxygen(0),
            TutorialStep::BuildOxygen(1),
            TutorialStep::WaitOxygen(0),
            TutorialStep::Carbon(0),
            TutorialStep::Animal(0),
            TutorialStep::Animal(1),
            TutorialStep::Civilize(0),
            TutorialStep::Complete(false),
            TutorialStep::Complete(true),
        ];
        assert(r@ =~= spec_order());
        r
    }

    /// The position of the step in the order, if it is in it.
    fn position(&self) -> (r: Option<usize>)
        ensures
            match r {
                Some(i) => i < spec_order().len() && spec_order()[i as int] == *self,
                None => forall|j: int| 0 <= j < spec_order().len() ==> spec_order()[j] != *self,
            },
    {
        let order = Self::order();
        let mut i: usize = 0;
        while i < 15
            invariant
                0 <= i <= 15,
                order@ == spec_order(),
                forall|j: int| 0 <= j < i ==> spec_order()[j] != *self,
            decreases 15 - i,
        {
            if order[i] == *self {
                return Some(i);
            }
            i += 1;
        }
        None
    }

    pub fn next(&self) -> (r: Option<TutorialStep>)
        ensures
            r == spec_next(*self),
    {
        proof {
            lemma_order_distinct();
        }
        match self.position() {
            Some(i) => {
                if i + 1 < 15 {
                    let order = Self::order();
                    assert(spec_order()[i as int] == *self);
                    Some(order[i + 1])
                } else {
                    None
                }
            },
            None => None,
        }
    }

    pub fn back(&self) -> (r: Option<TutorialStep>)
        ensures
            r == spec_back(*self),
    {
        proof {
            lemma_order_distinct();
        }
        match self.position() {
            Some(i) => {
                if i > 0 {
                    let order = Self::order();
                    assert(spec_order()[i as int] == *self);
                    Some(order[i - 1])
                } else {
                    None
                }
            },
            None => None,
        }
    }

    /// Whether the next step starts another part of the tutorial.
    pub fn has_next_tutorial(&self) -> (r: bool)
        ensures
            r == (match spec_next(*self) {
                Some(n) => spec_discriminant(n) != spec_discriminant(*self),
                None => false,
            }),
    {
        let d = TutorialStepDiscriminants::from_step(*self);
        match self.next() {
            Some(next) => d != TutorialStepDiscriminants::from_step(next),
            None => false,
        }
    }

    /// Whether the previous step is in the same part of the tutorial.
    pub fn can_back(&self) -> (r: bool)
        ensures
            r == (match spec_back(*self) {
                Some(b) => spec_discriminant(b) == spec_discriminant(*self),
                None => false,
            }),
    {
        let d = TutorialStepDiscriminants::from_step(*self);
        match self.back() {
            Some(back) => d == TutorialStepDiscriminants::from_step(back),
            None => false,
        }
    }

    pub fn can_complete(&self) -> (r: bool)
        ensures
            r == (*self is Complete),
    {
        match self {
            TutorialStep::Complete(_) => true,
            _ => false,
        }
    }
}

/// No step occurs twice in the order.
proof fn lemma_order_distinct()
    ensures
        forall|i: int, j: int|
            0 <= i < spec_order().len() && 0 <= j < spec_order().len() && i != j
                ==> spec_order()[i] != spec_order()[j],
{
    let o = spec_order();
    assert(o.len() == 15);
    assert(o[0] == TutorialStep::Start(0));
    assert(o[1] == TutorialStep::Start(1));
    assert(o[2] == TutorialStep::Power(0));
    assert(o[3] == TutorialStep::Power(1));
    assert(o[4] == TutorialStep::Fertilize(0));
    assert(o[5] == TutorialStep::Fertilize(1));
    assert(o[6] == TutorialStep::BuildOxygen(0));
    assert(o[7] == TutorialStep::BuildOxygen(1));
    assert(o[8] == TutorialStep::WaitOxygen(0));
    assert(o[9] == TutorialStep::Carbon(0));
    assert(o[10] == TutorialStep::Animal(0));
    assert(o[11] == TutorialStep::Animal(1));
    assert(o[12] == TutorialStep::Civilize(0));
    assert(o[13] == TutorialStep::Complete(false));
    assert(o[14] == TutorialStep::Complete(true));
}

/// The goals of a part of the tutorial.
fn checklist(d: TutorialStepDiscriminants) -> (r: Vec<ChecklistItem>)
    ensures
        r@ == spec_checklist(d),
{
    let r = match d {
        TutorialStepDiscriminants::Power => vec![
            ChecklistItem::PowerChecklist1,
            ChecklistItem::PowerChecklist2,
        ],
        TutorialStepDiscriminants::Fertilize => vec![
            ChecklistItem::FertilizeChecklist1,
            ChecklistItem::FertilizeChecklist2,
        ],
        TutorialStepDiscriminants::BuildOxygen => vec![
            ChecklistItem::BuildOxygenChecklist1,
            ChecklistItem::BuildOxygenChecklist2,
        ],
        TutorialStepDiscriminants::WaitOxygen => vec![
            ChecklistItem::WaitOxygenChecklist1,
            ChecklistItem::WaitOxygenChecklist2,
        ],
        TutorialStepDiscriminants::Carbon => vec![ChecklistItem::CarbonChecklist1],
        TutorialStepDiscriminants::Animal => vec![ChecklistItem::AnimalChecklist1],
        TutorialStepDiscriminants::Civilize => vec![ChecklistItem::CivilizeChecklist1],
        _ => Vec::new(),
    };
    assert(r@ =~= spec_checklist(d));
    r
}

impl Default for TutorialState {
    fn default() -> (st: TutorialState)
        ensures
            st.current == TutorialStep::Start(0),
            st.checklist@ == Seq::<(ChecklistItem, bool)>::empty(),
    {
        TutorialState { current: TutorialStep::Start(0), checklist: Vec::new() }
    }
}

impl TutorialState {
    /// Moves to the next step.
    pub fn move_next(&mut self)
        requires
            spec_next(old(self).current) is Some,
        ensures
            (final(self).current, final(self).checklist@) == spec_moved_to(
                *old(self),
                spec_next(old(self).current).unwrap(),
            ),
    {
        let next = self.current.next();
        self.move_to(next.unwrap());
    }

    /// Moves to the previous step.
    pub fn move_back(&mut self)
        requires
            spec_back(old(self).current) is Some,
        ensures
            (final(self).current, final(self).checklist@) == spec_moved_to(
                *old(self),
                spec_back(old(self).current).unwrap(),
            ),
    {
        let back = self.current.back();
        self.move_to(back.unwrap());
    }

    pub fn current_step(&self) -> (r: TutorialStep)
        ensures
            r == self.current,
    {
        self.current
    }

    /// Marks the final step as done; other steps are left as they are.
    pub fn complete(&mut self)
        ensures
            final(self).checklist == old(self).checklist,
            final(self).current == (if old(self).current is Complete {
                TutorialStep::Complete(true)
            } else {
                old(self).current
            }),
    {
        if let TutorialStep::Complete(_) = self.current {
            self.current = TutorialStep::Complete(true);
        }
    }

    /// Whether every goal of the current part is reached.
    pub fn checked(&self) -> (r: bool)
        ensures
            r == spec_all_checked(self.checklist@),
    {
        let mut i: usize = 0;
        while i < self.checklist.len()
            invariant
                0 <= i <= self.checklist.len(),
                forall|j: int| 0 <= j < i ==> #[trigger] self.checklist@[j].1,
            decreases self.checklist.len() - i,
        {
            if !self.checklist[i].1 {
                return false;
            }
            i += 1;
        }
        true
    }

    pub fn checklist(&self) -> (r: &[(ChecklistItem, bool)])
        ensures
            r@ == self.checklist@,
    {
        self.checklist.as_slice()
    }

    /// Moves to `step`; the checklist starts afresh when the part changes.
    pub fn move_to(&mut self, step: TutorialStep)
        ensures
            (final(self).current, final(self).checklist@) == spec_moved_to(*old(self), step),
    {
        let dstep = TutorialStepDiscriminants::from_step(step);
        if TutorialStepDiscriminants::from_step(self.current) != dstep {
            let items = checklist(dstep);
            let mut list: Vec<(ChecklistItem, bool)> = Vec::new();
            let mut i: usize = 0;
            while i < items.len()
                invariant
                    0 <= i <= items.len(),
                    items@ == spec_checklist(dstep),
                    list@ == spec_fresh_checklist(dstep).take(i as int),
                decreases items.len() - i,
            {
                list.push((items[i], false));
                i += 1;
                assert(list@ =~= spec_fresh_checklist(dstep).take(i as int));
            }
            assert(list@ =~= spec_fresh_checklist(dstep));
            self.checklist = list;
        }
        self.current = step;
    }

    /// Checks the goals not reached yet against the planet: an unchecked goal
    /// becomes checked when the planet meets it, a checked goal stays checked.
    /// `oxygen_reached` tells whether the oxygen partial pressure reached 0.12.
    pub fn update_checklist(&mut self, planet: &Planet, oxygen_reached: bool)
        requires
            planet.wf(),
        ensures
            final(self).current == old(self).current,
            final(self).checklist.len() == old(self).checklist.len(),
            forall|i: int|
                0 <= i < old(self).checklist.len() ==> #[trigger] final(self).checklist@[i] == (
                    old(self).checklist@[i].0,
                    old(self).checklist@[i].1 || spec_item_reached(old(self).checklist@[i].0, *planet, oxygen_reached),
                ),
    {
        let mut i: usize = 0;
        while i < self.checklist.len()
            invariant
                0 <= i <= self.checklist.len(),
                planet.wf(),
                self.checklist.len() == old(self).checklist.len(),
                self.current == old(self).current,
                forall|j: int|
                    0 <= j < i ==> #[trigger] self.checklist@[j] == (
                        old(self).checklist@[j].0,
                        old(self).checklist@[j].1 || spec_item_reached(old(self).checklist@[j].0, *planet, oxygen_reached),
                    ),
                forall|j: int| i <= j < self.checklist.len() ==> #[trigger] self.checklist@[j] == old(self).checklist@[j],
            decreases self.checklist.len() - i,
        {
            let (item, checked) = self.checklist[i];
            if !checked {
                let reached = check(planet, item, oxygen_reached);
                self.checklist.set(i, (item, reached));
            }
            i += 1;
        }
    }
}

/// Whether the planet meets the goal; `oxygen_reached` tells whether the
/// oxygen partial pressure reached 0.12.
pub open spec fn spec_item_reached(item: ChecklistItem, p: Planet, oxygen_reached: bool) -> bool {
    let none = Seq::<(AnimalId, AnimalHabitat)>::empty();
    let built = |k: SpaceBuildingKind| p.space_buildings@[spec_space_building_index(k)].n;
    let structures = |k: StructureKind| spec_count_tiles(p.map@, TileQuery::StructureOf(k), none);
    match item {
        ChecklistItem::PowerChecklist1 => built(SpaceBuildingKind::FusionReactor) >= 4,
        ChecklistItem::PowerChecklist2 => built(SpaceBuildingKind::AsteroidMiningStation) >= 3,
        ChecklistItem::FertilizeChecklist1 => structures(StructureKind::FertilizationPlant) >= 3,
        ChecklistItem::FertilizeChecklist2 => spec_count_biome_tiles(p.map@, seq![Biome::Grassland]) >= 10,
        ChecklistItem::BuildOxygenChecklist1 => built(SpaceBuildingKind::DysonSwarmUnit) >= 5,
        ChecklistItem::BuildOxygenChecklist2 => structures(StructureKind::OxygenGenerator) >= 8,
        ChecklistItem::WaitOxygenChecklist1 => oxygen_reached,
        ChecklistItem::WaitOxygenChecklist2 => spec_count_biome_tiles(
            p.map@,
            seq![Biome::BorealForest, Biome::TemperateForest, Biome::TropicalRainforest],
        ) >= 50,
        ChecklistItem::CarbonChecklist1 => structures(StructureKind::CarbonCapturer) >= 2,
        ChecklistItem::AnimalChecklist1 => spec_count_animal_named(p.map@, AnimalSize::Medium, "fox"@) >= 30,
        ChecklistItem::CivilizeChecklist1 => spec_count_tiles(p.map@, TileQuery::SettlementOf(None), none) >= 1,
    }
}

fn count_structures(p: &Planet, kind: StructureKind) -> (r: usize)
    ensures
        r == spec_count_tiles(p.map@, TileQuery::StructureOf(kind), Seq::<(AnimalId, AnimalHabitat)>::empty()),
{
    let none: Vec<(AnimalId, AnimalHabitat)> = Vec::new();
    assert(none@ =~= Seq::<(AnimalId, AnimalHabitat)>::empty());
    count_tiles(&p.map, &TileQuery::StructureOf(kind), &none)
}

fn count_biomes(p: &Planet, biomes: Vec<Biome>) -> (r: usize)
    ensures
        r == spec_count_biome_tiles(p.map@, biomes@),
{
    let none: Vec<(AnimalId, AnimalHabitat)> = Vec::new();
    proof {
        lemma_count_biome_tiles(p.map@, biomes, none@);
    }
    count_tiles(&p.map, &TileQuery::BiomeIn(biomes), &none)
}

/// The id of the fox.
fn fox_id() -> (r: Option<AnimalId>)
    ensures
        r matches Some(id) && animal_id_text(id) == "fox"@,
{
    proof {
        broadcast use vstd::string::is_ascii_spec_bytes;

        reveal_strlit("fox");
        assert(vstd::string::is_ascii("fox"));
    }
    animal_id_from_str("fox")
}

/// Whether the planet meets the goal; `oxygen_reached` tells whether the
/// oxygen partial pressure reached 0.12.
pub fn check(planet: &Planet, item: ChecklistItem, oxygen_reached: bool) -> (r: bool)
    requires
        planet.wf(),
    ensures
        r == spec_item_reached(item, *planet, oxygen_reached),
{
    match item {
        ChecklistItem::PowerChecklist1 => planet.space_building(SpaceBuildingKind::FusionReactor).n >= 4,
        ChecklistItem::PowerChecklist2 => planet.space_building(SpaceBuildingKind::AsteroidMiningStation).n >= 3,
        ChecklistItem::FertilizeChecklist1 => count_structures(planet, StructureKind::FertilizationPlant) >= 3,
        ChecklistItem::FertilizeChecklist2 => {
            let v = vec![Biome::Grassland];
            assert(v@ =~= seq![Biome::Grassland]);
            count_biomes(planet, v) >= 10
        },
        ChecklistItem::BuildOxygenChecklist1 => planet.space_building(SpaceBuildingKind::DysonSwarmUnit).n >= 5,
        ChecklistItem::BuildOxygenChecklist2 => count_structures(planet, StructureKind::OxygenGenerator) >= 8,
        ChecklistItem::WaitOxygenChecklist1 => oxygen_reached,
        ChecklistItem::WaitOxygenChecklist2 => {
            let v = vec![Biome::BorealForest, Biome::TemperateForest, Biome::TropicalRainforest];
            assert(v@ =~= seq![Biome::BorealForest, Biome::TemperateForest, Biome::TropicalRainforest]);
            count_biomes(planet, v) >= 50
        },
        ChecklistItem::CarbonChecklist1 => count_structures(planet, StructureKind::CarbonCapturer) >= 2,
        ChecklistItem::AnimalChecklist1 => match fox_id() {
            Some(fox) => {
                let none: Vec<(AnimalId, AnimalHabitat)> = Vec::new();
                let q = TileQuery::AnimalOf { id: fox, size: AnimalSize::Medium };
                proof {
                    lemma_count_animal_named(planet.map@, fox, AnimalSize::Medium, none@);
                }
                count_tiles(&planet.map, &q, &none) >= 30
            },
            None => false,
        },
        ChecklistItem::CivilizeChecklist1 => {
            let none: Vec<(AnimalId, AnimalHabitat)> = Vec::new();
            assert(none@ =~= Seq::<(AnimalId, AnimalHabitat)>::empty());
            count_tiles(&planet.map, &TileQuery::SettlementOf(None), &none) >= 1
        },
    }
}

/// Brings the tutorial up to date with the planet: a finished tutorial is
/// dropped from the metadata; otherwise its goals are checked.
pub fn update_tutorial(metadata: &mut SaveFileMetadata, planet: &Planet, oxygen_reached: bool)
    requires
        planet.wf(),
    ensures
        final(metadata).debug_mode_enabled == old(metadata).debug_mode_enabled,
        match old(metadata).tutorial_state {
            None => final(metadata).tutorial_state is None,
            Some(st) => if st.current == TutorialStep::Complete(true) {
                final(metadata).tutorial_state is None
            } else {
                final(metadata).tutorial_state matches Some(t) && t.current == st.current
                    && t.checklist.len() == st.checklist.len() && forall|i: int|
                    0 <= i < st.checklist.len() ==> #[trigger] t.checklist@[i] == (
                        st.checklist@[i].0,
                        st.checklist@[i].1 || spec_item_reached(st.checklist@[i].0, *planet, oxygen_reached),
                    )
            },
        },
{
    let finished = match &metadata.tutorial_state {
        Some(st) => st.current == TutorialStep::Complete(true),
        None => return,
    };
    if finished {
        metadata.tutorial_state = None;
        return;
    }
    let mut st = metadata.tutorial_state.take().unwrap();
    st.update_checklist(planet, oxygen_reached);
    metadata.tutorial_state = Some(st);
}

/// Moving forward and then back returns to the same step; the checklist is
/// kept when both steps belong to the same part, and is fresh otherwise.
pub proof fn law_next_then_back(st: TutorialState)
    requires
        spec_next(st.current) is Some,
    ensures
        ({
            let n = spec_next(st.current).unwrap();
            let mid = spec_moved_to(st, n);
            &&& spec_back(n) == Some(st.current)
            &&& spec_moved_to(TutorialState { current: mid.0, checklist: st.checklist }, st.current).0
                == st.current
            &&& (spec_discriminant(n) == spec_discriminant(st.current) ==> mid.1 == st.checklist@)
        }),
{
    lemma_next_back_inverse(st.current);
}

/// `back` undoes `next` and `next` undoes `back`.
pub proof fn lemma_next_back_inverse(s: TutorialStep)
    ensures
        spec_next(s) matches Some(n) ==> spec_back(n) == Some(s),
        spec_back(s) matches Some(b) ==> spec_next(b) == Some(s),
{
    lemma_order_distinct();
    if spec_next(s) is Some {
        let i = choose|i: int| 0 <= i < spec_order().len() - 1 && spec_order()[i] == s;
        let n = spec_order()[i + 1];
        assert(1 <= i + 1 < spec_order().len() && spec_order()[i + 1] == n);
        let k = choose|k: int| 1 <= k < spec_order().len() && spec_order()[k] == n;
        assert(k == i + 1);
    }
    if spec_back(s) is Some {
        let i = choose|i: int| 1 <= i < spec_order().len() && spec_order()[i] == s;
        let b = spec_order()[i - 1];
        assert(0 <= i - 1 < spec_order().len() - 1 && spec_order()[i - 1] == b);
        let k = choose|k: int| 0 <= k < spec_order().len() - 1 && spec_order()[k] == b;
        assert(k == i - 1);
    }
}

/// The walk through the tutorial starts at `Start(0)`, ends at `Complete(true)`,
/// and each part has its own fixed checklist.
pub proof fn law_tutorial_ends()
    ensures
        spec_back(TutorialStep::Start(0)) is None,
        spec_next(TutorialStep::Complete(true)) is None,
        spec_next(TutorialStep::Complete(false)) == Some(TutorialStep::Complete(true)),
{
    lemma_order_distinct();
    assert(spec_order()[0] == TutorialStep::Start(0));
    assert(spec_order()[14] == TutorialStep::Complete(true));
    assert(spec_order()[13] == TutorialStep::Complete(false));
}

/// What reaches each goal of the tutorial, in terms of the planet: counts of
/// space buildings, of tiles holding a given structure, of tiles of given
/// biomes, of tiles with a fox, of settlements, and the oxygen reading.
pub proof fn law_checklist_goals(p: Planet, oxygen_reached: bool)
    ensures
        spec_item_reached(ChecklistItem::PowerChecklist1, p, oxygen_reached) == (p.space_buildings@[spec_space_building_index(
            SpaceBuildingKind::FusionReactor,
        )].n >= 4),
        spec_item_reached(ChecklistItem::PowerChecklist2, p, oxygen_reached) == (p.space_buildings@[spec_space_building_index(
            SpaceBuildingKind::AsteroidMiningStation,
        )].n >= 3),
        spec_item_reached(ChecklistItem::FertilizeChecklist1, p, oxygen_reached) == (spec_tiles_where(
            p.map@,
            |t: Tile| t.structure matches Some(Structure::FertilizationPlant),
        ) >= 3),
        spec_item_reached(ChecklistItem::FertilizeChecklist2, p, oxygen_reached) == (spec_tiles_where(
            p.map@,
            |t: Tile| t.biome == Biome::Grassland,
        ) >= 10),
        spec_item_reached(ChecklistItem::BuildOxygenChecklist1, p, oxygen_reached) == (p.space_buildings@[spec_space_building_index(
            SpaceBuildingKind::DysonSwarmUnit,
        )].n >= 5),
        spec_item_reached(ChecklistItem::BuildOxygenChecklist2, p, oxygen_reached) == (spec_tiles_where(
            p.map@,
            |t: Tile| t.structure matches Some(Structure::OxygenGenerator),
        ) >= 8),
        spec_item_reached(ChecklistItem::WaitOxygenChecklist1, p, oxygen_reached) == oxygen_reached,
        spec_item_reached(ChecklistItem::WaitOxygenChecklist2, p, oxygen_reached) == (spec_tiles_where(
            p.map@,
            |t: Tile| t.biome == Biome::BorealForest || t.biome == Biome::TemperateForest || t.biome
                == Biome::TropicalRainforest,
        ) >= 50),
        spec_item_reached(ChecklistItem::CarbonChecklist1, p, oxygen_reached) == (spec_tiles_where(
            p.map@,
            |t: Tile| t.structure matches Some(Structure::CarbonCapturer),
        ) >= 2),
        spec_item_reached(ChecklistItem::AnimalChecklist1, p, oxygen_reached) == (spec_tiles_where(
            p.map@,
            |t: Tile| t.animal@[1] matches Some(a) && animal_id_text(a.id) == "fox"@,
        ) >= 30),
        spec_item_reached(ChecklistItem::CivilizeChecklist1, p, oxygen_reached) == (spec_tiles_where(
            p.map@,
            |t: Tile| t.structure matches Some(Structure::Settlement(_)),
        ) >= 1),
{
    let none = Seq::<(AnimalId, AnimalHabitat)>::empty();
    lemma_query_count_where(
        p.map@,
        TileQuery::StructureOf(StructureKind::FertilizationPlant),
        none,
        |t: Tile| t.structure matches Some(Structure::FertilizationPlant),
    );
    lemma_query_count_where(
        p.map@,
        TileQuery::StructureOf(StructureKind::OxygenGenerator),
        none,
        |t: Tile| t.structure matches Some(Structure::OxygenGenerator),
    );
    lemma_query_count_where(
        p.map@,
        TileQuery::StructureOf(StructureKind::CarbonCapturer),
        none,
        |t: Tile| t.structure matches Some(Structure::CarbonCapturer),
    );
    lemma_query_count_where(
        p.map@,
        TileQuery::SettlementOf(None),
        none,
        |t: Tile| t.structure matches Some(Structure::Settlement(_)),
    );
    let grass = seq![Biome::Grassland];
    let pg = |t: Tile| t.biome == Biome::Grassland;
    assert forall|t: Tile| #[trigger] pg(t) == grass.contains(t.biome) by {
        if t.biome == Biome::Grassland {
            assert(grass[0] == t.biome);
        }
    }
    lemma_biome_count_where(p.map@, grass, pg);
    let forest = seq![Biome::BorealForest, Biome::TemperateForest, Biome::TropicalRainforest];
    let pf = |t: Tile| t.biome == Biome::BorealForest || t.biome == Biome::TemperateForest || t.biome
        == Biome::TropicalRainforest;
    assert forall|t: Tile| #[trigger] pf(t) == forest.contains(t.biome) by {
        if t.biome == Biome::BorealForest {
            assert(forest[0] == t.biome);
        } else if t.biome == Biome::TemperateForest {
            assert(forest[1] == t.biome);
        } else if t.biome == Biome::TropicalRainforest {
            assert(forest[2] == t.biome);
        }
    }
    lemma_biome_count_where(p.map@, forest, pf);
    lemma_animal_count_where(
        p.map@,
        AnimalSize::Medium,
        "fox"@,
        |t: Tile| t.animal@[1] matches Some(a) && animal_id_text(a.id) == "fox"@,
    );
}

} // verus!
