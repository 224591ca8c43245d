//! The planet map: tiles with their biome, structure, animals and events,
//! the space buildings and the civilizations.
use vstd::prelude::*;

use crate::animal_id::{animal_id_eq, animal_id_text, same_animal, AnimalId};
use crate::defs::{
    spec_age_from_index, spec_age_index, spec_animal_size_index, spec_is_sea, spec_match_biome, AnimalHabitat, AnimalSize,
    Biome, Building, BuildingControl, BuildingControlValue, CivilizationAge, SpaceBuildingKind,
    StructureKind, CIVILIZATION_AGE_LEN, SPACE_BUILDING_KIND_LEN, spec_space_building_index,
};
use crate::events::{EventInProgress, Events, PlagueEvent, PlanetEvent};
use crate::geom::Coords;
use crate::tile_events::{
    lemma_black_dust_keeps_wf, lemma_count_down_keeps_wf, lemma_filter_keeps_wf, spec_black_dust_advanced,
    spec_count_down, spec_find, spec_is_settlement_event, spec_kind, spec_kinds_distinct, spec_moves_for, spec_tile_events_wf,
    tile_event_list,
    TileEvent, TileEventKind, TileEvents,
};

verus! {

/// Animals of one kind living on a tile.
#[derive(Clone, Copy, Debug)]
pub struct Animal {
    pub id: AnimalId,
}

/// A settlement of a civilized animal.
#[derive(Clone, Copy, Debug)]
pub struct Settlement {
    pub id: AnimalId,
    pub age: CivilizationAge,
}

/// A structure standing on a tile.
#[derive(Clone, Copy, Debug)]
pub enum Structure {
    OxygenGenerator,
    Rainmaker,
    FertilizationPlant,
    Heater,
    CarbonCapturer,
    Settlement(Settlement),
}

pub open spec fn spec_structure_kind(s: Structure) -> StructureKind {
    match s {
        Structure::OxygenGenerator => StructureKind::OxygenGenerator,
        Structure::Rainmaker => StructureKind::Rainmaker,
        Structure::FertilizationPlant => StructureKind::FertilizationPlant,
        Structure::Heater => StructureKind::Heater,
        Structure::CarbonCapturer => StructureKind::CarbonCapturer,
        Structure::Settlement(_) => StructureKind::Settlement,
    }
}

impl Structure {
    pub fn kind(&self) -> (r: StructureKind)
        ensures
            r == spec_structure_kind(*self),
    {
        match self {
            Structure::OxygenGenerator => StructureKind::OxygenGenerator,
            Structure::Rainmaker => StructureKind::Rainmaker,
            Structure::FertilizationPlant => StructureKind::FertilizationPlant,
            Structure::Heater => StructureKind::Heater,
            Structure::CarbonCapturer => StructureKind::CarbonCapturer,
            Structure::Settlement(_) => StructureKind::Settlement,
        }
    }
}

/// The structure that the player builds of a kind; settlements are not built.
pub fn new_structure(kind: StructureKind) -> (r: Structure)
    requires
        kind != StructureKind::Settlement,
    ensures
        spec_structure_kind(r) == kind,
{
    match kind {
        StructureKind::OxygenGenerator => Structure::OxygenGenerator,
        StructureKind::Rainmaker => Structure::Rainmaker,
        StructureKind::FertilizationPlant => Structure::FertilizationPlant,
        StructureKind::Heater => Structure::Heater,
        _ => Structure::CarbonCapturer,
    }
}

/// One tile of the map. Animals are held by size: small, medium, large.
pub struct Tile {
    pub biome: Biome,
    pub structure: Option<Structure>,
    pub animal: [Option<Animal>; 3],
    pub tile_events: TileEvents,
}

impl Default for Tile {
    /// A bare rock tile.
    fn default() -> (t: Tile)
        ensures
            t.biome == Biome::Rock,
            t.structure is None,
            t.animal@ == seq![None::<Animal>, None, None],
            tile_event_list(t.tile_events) == Seq::<crate::tile_events::TileEvent>::empty(),
    {
        Tile { biome: Biome::Rock, structure: None, animal: [None, None, None], tile_events: TileEvents::new() }
    }
}

/// The largest animal on the tile, looking from the large slot down.
pub open spec fn spec_largest_animal(t: Tile) -> Option<Animal> {
    if t.animal@[2] is Some {
        t.animal@[2]
    } else if t.animal@[1] is Some {
        t.animal@[1]
    } else {
        t.animal@[0]
    }
}

impl Tile {
    pub fn largest_animal(&self) -> (r: Option<&Animal>)
        ensures
            match r {
                Some(a) => spec_largest_animal(*self) == Some(*a),
                None => spec_largest_animal(*self) is None,
            },
    {
        match &self.animal[2] {
            Some(a) => Some(a),
            None => match &self.animal[1] {
                Some(a) => Some(a),
                None => match &self.animal[0] {
                    Some(a) => Some(a),
                    None => None,
                },
            },
        }
    }

    /// The animal of the given size on the tile, when it is the animal `id`.
    pub fn get_animal(&self, id: &AnimalId, size: AnimalSize) -> (r: Option<&Animal>)
        ensures
            match self.animal@[spec_animal_size_index(size)] {
                Some(a) => if same_animal(a.id, *id) {
                    r == Some(&a)
                } else {
                    r is None
                },
                None => r is None,
            },
    {
        match &self.animal[size.index()] {
            Some(a) => if animal_id_eq(&a.id, id) {
                Some(a)
            } else {
                None
            },
            None => None,
        }
    }
}

/// A civilization: its settlements by age, the population growth control
/// that the player set, and whether its consumption of gift energy exceeds one.
#[derive(Clone, Copy, Debug)]
pub struct Civilization {
    pub total_settlement: [u32; 6],
    pub pop_growth: i16,
    pub gift_energy_used: bool,
}

/// The most advanced age that has a settlement; the stone age when none has one.
pub open spec fn spec_current_age_index(total_settlement: Seq<u32>) -> int
    decreases total_settlement.len(),
{
    if total_settlement.len() == 0 {
        0
    } else if total_settlement.last() > 0 {
        total_settlement.len() - 1
    } else {
        spec_current_age_index(total_settlement.drop_last())
    }
}

proof fn lemma_current_age_index_bounds(s: Seq<u32>)
    ensures
        0 <= spec_current_age_index(s),
        s.len() > 0 ==> spec_current_age_index(s) < s.len(),
        forall|j: int| spec_current_age_index(s) < j < s.len() ==> s[j] == 0,
    decreases s.len(),
{
    if s.len() > 0 && s.last() == 0 {
        lemma_current_age_index_bounds(s.drop_last());
        assert forall|j: int| spec_current_age_index(s) < j < s.len() implies s[j] == 0 by {
            if j < s.len() - 1 {
                assert(s[j] == s.drop_last()[j]);
            }
        }
    }
}

impl Civilization {
    pub fn current_age(&self) -> (r: CivilizationAge)
        ensures
            Some(r) == spec_age_from_index(spec_current_age_index(self.total_settlement@)),
    {
        let mut i: usize = CIVILIZATION_AGE_LEN;
        assert(self.total_settlement@.take(CIVILIZATION_AGE_LEN as int) =~= self.total_settlement@);
        while i > 0
            invariant
                i <= CIVILIZATION_AGE_LEN,
                self.total_settlement@.len() == CIVILIZATION_AGE_LEN,
                spec_current_age_index(self.total_settlement@) == spec_current_age_index(
                    self.total_settlement@.take(i as int),
                ),
            decreases i,
        {
            let ghost s = self.total_settlement@.take(i as int);
            assert(s.drop_last() == self.total_settlement@.take(i - 1));
            if self.total_settlement[i - 1] > 0 {
                proof {
                    lemma_current_age_index_bounds(s);
                }
                let age = CivilizationAge::from_index(i - 1);
                return match age {
                    Some(a) => a,
                    None => CivilizationAge::StoneAge,
                };
            }
            i -= 1;
        }
        CivilizationAge::StoneAge
    }
}

/// The index of the tile at `p` in a map `width` tiles wide, row by row.
pub open spec fn spec_tile_index(width: int, p: Coords) -> int {
    p.1 * width + p.0
}

/// Whether `p` lies on a map of the given size.
pub open spec fn spec_in_range(width: int, height: int, p: Coords) -> bool {
    0 <= p.0 < width && 0 <= p.1 < height
}

/// The planet: its map, kept row by row, the space buildings by kind, the
/// civilizations by animal and the starting planet it came from.
pub struct Planet {
    pub cycles: u64,
    pub origin: String,
    pub width: u32,
    pub height: u32,
    pub map: Vec<Tile>,
    pub space_buildings: Vec<Building>,
    pub civs: Vec<(AnimalId, Civilization)>,
}

impl Planet {
    /// The map holds one tile per position and one entry per space building kind.
    pub open spec fn wf(&self) -> bool {
        &&& self.map.len() == self.width * self.height
        &&& self.space_buildings.len() == SPACE_BUILDING_KIND_LEN
    }

    /// A planet of bare rock tiles with no buildings and no civilization.
    pub fn with_size(width: u32, height: u32, origin: String) -> (r: Planet)
        requires
            width * height <= usize::MAX,
        ensures
            r.wf(),
            r.width == width,
            r.height == height,
            r.origin == origin,
            r.cycles == 0,
            r.civs@.len() == 0,
            forall|i: int| 0 <= i < r.map.len() ==> (#[trigger] r.map@[i]).biome == Biome::Rock
                && r.map@[i].structure is None
                && r.map@[i].animal@ == seq![None::<Animal>, None, None]
                && tile_event_list(r.map@[i].tile_events) == Seq::<TileEvent>::empty(),
            forall|i: int| 0 <= i < SPACE_BUILDING_KIND_LEN ==> (#[trigger] r.space_buildings@[i]).n == 0
                && r.space_buildings@[i].control == BuildingControlValue::AlwaysEnabled,
    {
        let n: usize = (width as usize) * (height as usize);
        let mut map: Vec<Tile> = Vec::new();
        let mut i: usize = 0;
        while i < n
            invariant
                i <= n,
                map.len() == i,
                forall|j: int| 0 <= j < i ==> (#[trigger] map@[j]).biome == Biome::Rock
                    && map@[j].structure is None
                    && map@[j].animal@ == seq![None::<Animal>, None, None]
                    && tile_event_list(map@[j].tile_events) == Seq::<TileEvent>::empty(),
            decreases n - i,
        {
            map.push(Tile::default());
            i += 1;
        }
        let mut space_buildings: Vec<Building> = Vec::new();
        let mut k: usize = 0;
        while k < SPACE_BUILDING_KIND_LEN
            invariant
                k <= SPACE_BUILDING_KIND_LEN,
                space_buildings.len() == k,
                forall|j: int| 0 <= j < k ==> (#[trigger] space_buildings@[j]).n == 0
                    && space_buildings@[j].control == BuildingControlValue::AlwaysEnabled,
            decreases SPACE_BUILDING_KIND_LEN - k,
        {
            space_buildings.push(Building::default());
            k += 1;
        }
        Planet { cycles: 0, origin, width, height, map, space_buildings, civs: Vec::new() }
    }

    /// The number of tiles.
    pub fn n_tile(&self) -> (r: u32)
        requires
            self.width * self.height <= u32::MAX,
        ensures
            r == self.width * self.height,
    {
        self.width * self.height
    }

    pub fn in_range(&self, p: Coords) -> (r: bool)
        ensures
            r == spec_in_range(self.width as int, self.height as int, p),
    {
        0 <= p.0 && (p.0 as i64) < (self.width as i64) && 0 <= p.1 && (p.1 as i64) < (self.height as i64)
    }

    fn index_of(&self, p: Coords) -> (r: usize)
        requires
            self.wf(),
            spec_in_range(self.width as int, self.height as int, p),
        ensures
            r == spec_tile_index(self.width as int, p),
            r < self.map.len(),
    {
        proof {
            assert(p.1 * self.width + p.0 < self.width * self.height) by (nonlinear_arith)
                requires
                    0 <= p.0 < self.width,
                    0 <= p.1 < self.height,
            ;
            assert(0 <= p.1 * self.width) by (nonlinear_arith)
                requires
                    0 <= p.1,
                    0 <= self.width,
            ;
        }
        (p.1 as usize) * (self.width as usize) + (p.0 as usize)
    }

    /// The tile at `p`.
    pub fn tile(&self, p: Coords) -> (r: &Tile)
        requires
            self.wf(),
            spec_in_range(self.width as int, self.height as int, p),
        ensures
            *r == self.map@[spec_tile_index(self.width as int, p)],
    {
        let i = self.index_of(p);
        &self.map[i]
    }

    /// A structure can be placed on a tile of the map that has none.
    pub fn placeable(&self, p: Coords) -> (r: bool)
        requires
            self.wf(),
        ensures
            r == (spec_in_range(self.width as int, self.height as int, p)
                && self.map@[spec_tile_index(self.width as int, p)].structure is None),
    {
        if !self.in_range(p) {
            return false;
        }
        self.tile(p).structure.is_none()
    }

    /// Puts the structure on the tile at `p`; nothing else of the planet changes.
    pub fn place(&mut self, p: Coords, structure: Structure)
        requires
            old(self).wf(),
            spec_in_range(old(self).width as int, old(self).height as int, p),
            old(self).map@[spec_tile_index(old(self).width as int, p)].structure is None,
        ensures
            final(self).wf(),
            final(self).width == old(self).width,
            final(self).height == old(self).height,
            final(self).space_buildings == old(self).space_buildings,
            final(self).cycles == old(self).cycles,
            final(self).origin == old(self).origin,
            final(self).civs == old(self).civs,
            final(self).map.len() == old(self).map.len(),
            ({
                let i = spec_tile_index(old(self).width as int, p);
                &&& final(self).map@[i].structure == Some(structure)
                &&& final(self).map@[i].biome == old(self).map@[i].biome
                &&& final(self).map@[i].animal == old(self).map@[i].animal
                &&& final(self).map@[i].tile_events == old(self).map@[i].tile_events
                &&& forall|j: int| 0 <= j < final(self).map.len() && j != i ==> #[trigger] final(self).map@[j]
                    == old(self).map@[j]
            }),
    {
        let i = self.index_of(p);
        self.map[i].structure = Some(structure);
    }

    /// Takes down the structure at `p` unless it is a settlement; tells whether
    /// one was taken down.
    pub fn demolition(&mut self, p: Coords) -> (r: bool)
        requires
            old(self).wf(),
            spec_in_range(old(self).width as int, old(self).height as int, p),
        ensures
            final(self).wf(),
            final(self).width == old(self).width,
            final(self).height == old(self).height,
            final(self).space_buildings == old(self).space_buildings,
            final(self).cycles == old(self).cycles,
            final(self).origin == old(self).origin,
            final(self).civs == old(self).civs,
            final(self).map.len() == old(self).map.len(),
            ({
                let i = spec_tile_index(old(self).width as int, p);
                let before = old(self).map@[i].structure;
                &&& r == (before is Some && !(before matches Some(Structure::Settlement(_))))
                &&& final(self).map@[i].structure == (if r { None } else { before })
                &&& final(self).map@[i].biome == old(self).map@[i].biome
                &&& final(self).map@[i].animal == old(self).map@[i].animal
                &&& final(self).map@[i].tile_events == old(self).map@[i].tile_events
                &&& forall|j: int| 0 <= j < final(self).map.len() && j != i ==> #[trigger] final(self).map@[j]
                    == old(self).map@[j]
            }),
    {
        let i = self.index_of(p);
        let removable = match &self.map[i].structure {
            Some(Structure::Settlement(_)) => false,
            Some(_) => true,
            None => false,
        };
        if removable {
            self.map[i].structure = None;
        }
        removable
    }

    /// The buildings of one space building kind.
    pub fn space_building(&self, kind: SpaceBuildingKind) -> (r: &Building)
        requires
            self.wf(),
        ensures
            *r == self.space_buildings@[spec_space_building_index(kind)],
    {
        &self.space_buildings[kind.index()]
    }

    /// Builds one more space building of `kind`, whose control is `control`.
    /// The first one built gets the initial control value: an increase rate
    /// of zero for buildings controlled by rate.
    pub fn build_space_building(&mut self, kind: SpaceBuildingKind, control: BuildingControl)
        requires
            old(self).wf(),
            old(self).space_buildings@[spec_space_building_index(kind)].n < u32::MAX,
        ensures
            final(self).wf(),
            final(self).map == old(self).map,
            final(self).width == old(self).width,
            final(self).height == old(self).height,
            final(self).civs == old(self).civs,
            final(self).cycles == old(self).cycles,
            final(self).origin == old(self).origin,
            final(self).space_buildings@ == old(self).space_buildings@.update(
                spec_space_building_index(kind),
                spec_built(old(self).space_buildings@[spec_space_building_index(kind)], control),
            ),
    {
        let k = kind.index();
        let mut building = self.space_buildings[k];
        building.n = building.n + 1;
        if building.n == 1 {
            match control {
                BuildingControl::AlwaysEnabled => {},
                BuildingControl::IncreaseRate => {
                    building.control = BuildingControlValue::IncreaseRate(0);
                },
            }
        }
        self.space_buildings.set(k, building);
    }

    /// Takes down `n` space buildings of `kind`, or all of them when there are
    /// no more; with none left the control goes back to its default.
    pub fn demolish_space_building(&mut self, kind: SpaceBuildingKind, n: u32)
        requires
            old(self).wf(),
        ensures
            final(self).wf(),
            final(self).map == old(self).map,
            final(self).width == old(self).width,
            final(self).height == old(self).height,
            final(self).civs == old(self).civs,
            final(self).cycles == old(self).cycles,
            final(self).origin == old(self).origin,
            final(self).space_buildings@ == old(self).space_buildings@.update(
                spec_space_building_index(kind),
                spec_demolished(old(self).space_buildings@[spec_space_building_index(kind)], n),
            ),
    {
        let k = kind.index();
        let mut building = self.space_buildings[k];
        if building.n > n {
            building.n = building.n - n;
        } else {
            building.n = 0;
        }
        if building.n == 0 {
            building.control = BuildingControlValue::default();
        }
        self.space_buildings.set(k, building);
    }
}

/// The buildings of a kind after one more is built: the first one built
/// gets the initial control value, an increase rate of zero for buildings
/// controlled by rate.
pub open spec fn spec_built(b: Building, control: BuildingControl) -> Building {
    Building {
        n: (b.n + 1) as u32,
        control: if b.n == 0 && control == BuildingControl::IncreaseRate {
            BuildingControlValue::IncreaseRate(0)
        } else {
            b.control
        },
    }
}

/// The buildings of a kind after `n` are taken down, or all of them when
/// there are no more; with none left the control is the default one.
pub open spec fn spec_demolished(b: Building, n: u32) -> Building {
    let left: u32 = if b.n > n {
        (b.n - n) as u32
    } else {
        0
    };
    Building {
        n: left,
        control: if left == 0 {
            BuildingControlValue::AlwaysEnabled
        } else {
            b.control
        },
    }
}

/// Building one space building and then taking one down gives back what was
/// there, control included, when some were built already; from none, none are
/// left and the control is the default one.
pub proof fn law_build_then_demolish(b: Building, control: BuildingControl)
    requires
        b.n < u32::MAX,
    ensures
        b.n > 0 ==> spec_demolished(spec_built(b, control), 1) == b,
        b.n == 0 ==> spec_demolished(spec_built(b, control), 1) == (Building {
            n: 0,
            control: BuildingControlValue::AlwaysEnabled,
        }),
{
}

/// Taking down more than there are leaves none: demolishing is never below zero.
pub proof fn law_demolish_all(b: Building, n: u32)
    requires
        n >= b.n,
    ensures
        spec_demolished(b, n).n == 0,
        spec_demolished(b, n).control == BuildingControlValue::AlwaysEnabled,
{
}

/// A property of a tile that the rules count tiles by.
pub enum TileQuery {
    /// A structure of the kind stands on the tile.
    StructureOf(StructureKind),
    /// The tile's biome is one of these.
    BiomeIn(Vec<Biome>),
    /// The animal `id` lives on the tile in the slot of `size`.
    AnimalOf { id: AnimalId, size: AnimalSize },
    /// A settlement stands on the tile, of the animal when one is named.
    SettlementOf(Option<AnimalId>),
    /// A settlement of at least the age stands on the tile.
    SettlementAtLeast(CivilizationAge),
    /// Some animal lives on the tile.
    AnyAnimal,
    /// The tile has the plague.
    Plague,
    /// A sea tile where an animal lives that could live on the ocean.
    OceanAnimalAtSea,
}

/// The habitat that the list gives for an animal: its first entry for it.
pub open spec fn spec_habitat_of(habitats: Seq<(AnimalId, AnimalHabitat)>, id: AnimalId) -> Option<AnimalHabitat>
    decreases habitats.len(),
{
    if habitats.len() == 0 {
        None
    } else if same_animal(habitats[0].0, id) {
        Some(habitats[0].1)
    } else {
        spec_habitat_of(habitats.subrange(1, habitats.len() as int), id)
    }
}

/// An animal in the slot that could live on the ocean.
pub open spec fn spec_ocean_animal(habitats: Seq<(AnimalId, AnimalHabitat)>, slot: Option<Animal>) -> bool {
    match slot {
        Some(a) => match spec_habitat_of(habitats, a.id) {
            Some(h) => spec_match_biome(h, Biome::Ocean),
            None => false,
        },
        None => false,
    }
}

pub open spec fn spec_query_holds(q: TileQuery, habitats: Seq<(AnimalId, AnimalHabitat)>, t: Tile) -> bool {
    match q {
        TileQuery::StructureOf(kind) => t.structure matches Some(s) && spec_structure_kind(s) == kind,
        TileQuery::BiomeIn(biomes) => biomes@.contains(t.biome),
        TileQuery::AnimalOf { id, size } => t.animal@[spec_animal_size_index(size)] matches Some(a)
            && same_animal(a.id, id),
        TileQuery::SettlementOf(animal) => t.structure matches Some(Structure::Settlement(st)) && (
        animal matches Some(id) ==> same_animal(id, st.id)),
        TileQuery::SettlementAtLeast(age) => t.structure matches Some(Structure::Settlement(st))
            && spec_age_index(st.age) >= spec_age_index(age),
        TileQuery::AnyAnimal => t.animal@[0] is Some || t.animal@[1] is Some || t.animal@[2] is Some,
        TileQuery::Plague => spec_find(tile_event_list(t.tile_events), TileEventKind::Plague) is Some,
        TileQuery::OceanAnimalAtSea => spec_is_sea(t.biome) && (spec_ocean_animal(habitats, t.animal@[0])
            || spec_ocean_animal(habitats, t.animal@[1]) || spec_ocean_animal(habitats, t.animal@[2])),
    }
}

/// The number of tiles with the property.
pub open spec fn spec_count_tiles(tiles: Seq<Tile>, q: TileQuery, habitats: Seq<(AnimalId, AnimalHabitat)>) -> nat
    decreases tiles.len(),
{
    if tiles.len() == 0 {
        0
    } else {
        spec_count_tiles(tiles.drop_last(), q, habitats) + if spec_query_holds(q, habitats, tiles.last()) {
            1nat
        } else {
            0nat
        }
    }
}

/// The number of tiles whose biome is one of `biomes`.
pub open spec fn spec_count_biome_tiles(tiles: Seq<Tile>, biomes: Seq<Biome>) -> nat
    decreases tiles.len(),
{
    if tiles.len() == 0 {
        0
    } else {
        spec_count_biome_tiles(tiles.drop_last(), biomes) + if biomes.contains(tiles.last().biome) {
            1nat
        } else {
            0nat
        }
    }
}

/// The number of tiles for which `pred` holds.
pub open spec fn spec_tiles_where(tiles: Seq<Tile>, pred: spec_fn(Tile) -> bool) -> nat
    decreases tiles.len(),
{
    if tiles.len() == 0 {
        0
    } else {
        spec_tiles_where(tiles.drop_last(), pred) + if pred(tiles.last()) {
            1nat
        } else {
            0nat
        }
    }
}

/// Counting by a query counts the tiles for which any property equivalent
/// to the query holds.
pub proof fn lemma_query_count_where(
    tiles: Seq<Tile>,
    q: TileQuery,
    habitats: Seq<(AnimalId, AnimalHabitat)>,
    pred: spec_fn(Tile) -> bool,
)
    requires
        forall|t: Tile| #[trigger] pred(t) == spec_query_holds(q, habitats, t),
    ensures
        spec_count_tiles(tiles, q, habitats) == spec_tiles_where(tiles, pred),
    decreases tiles.len(),
{
    if tiles.len() > 0 {
        lemma_query_count_where(tiles.drop_last(), q, habitats, pred);
        assert(pred(tiles.last()) == spec_query_holds(q, habitats, tiles.last()));
    }
}

/// Counting by a list of biomes counts the tiles for which any property
/// equivalent to membership in the list holds.
pub proof fn lemma_biome_count_where(tiles: Seq<Tile>, biomes: Seq<Biome>, pred: spec_fn(Tile) -> bool)
    requires
        forall|t: Tile| #[trigger] pred(t) == biomes.contains(t.biome),
    ensures
        spec_count_biome_tiles(tiles, biomes) == spec_tiles_where(tiles, pred),
    decreases tiles.len(),
{
    if tiles.len() > 0 {
        lemma_biome_count_where(tiles.drop_last(), biomes, pred);
        assert(pred(tiles.last()) == biomes.contains(tiles.last().biome));
    }
}

/// Counting animals by name counts the tiles for which any property
/// equivalent to holding such an animal holds.
pub proof fn lemma_animal_count_where(tiles: Seq<Tile>, size: AnimalSize, name: Seq<char>, pred: spec_fn(Tile) -> bool)
    requires
        forall|t: Tile| #[trigger] pred(t) == (t.animal@[spec_animal_size_index(size)] matches Some(a)
            && animal_id_text(a.id) == name),
    ensures
        spec_count_animal_named(tiles, size, name) == spec_tiles_where(tiles, pred),
    decreases tiles.len(),
{
    if tiles.len() > 0 {
        lemma_animal_count_where(tiles.drop_last(), size, name, pred);
        assert(pred(tiles.last()) == (tiles.last().animal@[spec_animal_size_index(size)] matches Some(a)
            && animal_id_text(a.id) == name));
    }
}

/// No tile is counted exactly when the property holds of no tile.
pub proof fn lemma_tiles_where_none(tiles: Seq<Tile>, pred: spec_fn(Tile) -> bool)
    ensures
        (spec_tiles_where(tiles, pred) == 0) == (forall|i: int| 0 <= i < tiles.len() ==> !pred(#[trigger] tiles[i])),
    decreases tiles.len(),
{
    if tiles.len() > 0 {
        let init = tiles.drop_last();
        lemma_tiles_where_none(init, pred);
        if spec_tiles_where(tiles, pred) == 0 {
            assert forall|i: int| 0 <= i < tiles.len() implies !pred(#[trigger] tiles[i]) by {
                if i < tiles.len() - 1 {
                    assert(tiles[i] == init[i]);
                }
            }
        } else if spec_tiles_where(init, pred) > 0 {
            let i = choose|i: int| 0 <= i < init.len() && pred(#[trigger] init[i]);
            assert(tiles[i] == init[i]);
        } else {
            assert(pred(tiles[tiles.len() - 1]));
        }
    }
}

/// Counting tiles by a list of biomes counts by what the list holds.
pub proof fn lemma_count_biome_tiles(tiles: Seq<Tile>, biomes: Vec<Biome>, habitats: Seq<(AnimalId, AnimalHabitat)>)
    ensures
        spec_count_tiles(tiles, TileQuery::BiomeIn(biomes), habitats) == spec_count_biome_tiles(tiles, biomes@),
    decreases tiles.len(),
{
    if tiles.len() > 0 {
        lemma_count_biome_tiles(tiles.drop_last(), biomes, habitats);
    }
}

/// The number of tiles holding, in the slot of `size`, an animal whose id is `name`.
pub open spec fn spec_count_animal_named(tiles: Seq<Tile>, size: AnimalSize, name: Seq<char>) -> nat
    decreases tiles.len(),
{
    if tiles.len() == 0 {
        0
    } else {
        spec_count_animal_named(tiles.drop_last(), size, name) + if tiles.last().animal@[spec_animal_size_index(size)] matches Some(a)
            && animal_id_text(a.id) == name {
            1nat
        } else {
            0nat
        }
    }
}

/// Counting tiles by an animal counts them by the animal's name.
pub proof fn lemma_count_animal_named(tiles: Seq<Tile>, id: AnimalId, size: AnimalSize, habitats: Seq<(AnimalId, AnimalHabitat)>)
    ensures
        spec_count_tiles(tiles, TileQuery::AnimalOf { id, size }, habitats) == spec_count_animal_named(
            tiles,
            size,
            animal_id_text(id),
        ),
    decreases tiles.len(),
{
    if tiles.len() > 0 {
        lemma_count_animal_named(tiles.drop_last(), id, size, habitats);
    }
}

/// Two properties that hold of the same tiles count the same tiles.
pub proof fn lemma_count_same(
    tiles: Seq<Tile>,
    q1: TileQuery,
    q2: TileQuery,
    habitats: Seq<(AnimalId, AnimalHabitat)>,
)
    requires
        forall|t: Tile| spec_query_holds(q1, habitats, t) == spec_query_holds(q2, habitats, t),
    ensures
        spec_count_tiles(tiles, q1, habitats) == spec_count_tiles(tiles, q2, habitats),
    decreases tiles.len(),
{
    if tiles.len() > 0 {
        lemma_count_same(tiles.drop_last(), q1, q2, habitats);
    }
}

/// The habitat of the animal in the list, if the list has it.
pub fn habitat_of<'a>(habitats: &'a Vec<(AnimalId, AnimalHabitat)>, id: &AnimalId) -> (r: Option<&'a AnimalHabitat>)
    ensures
        match r {
            Some(h) => spec_habitat_of(habitats@, *id) == Some(*h),
            None => spec_habitat_of(habitats@, *id) is None,
        },
{
    let mut i: usize = 0;
    assert(habitats@.subrange(0, habitats@.len() as int) =~= habitats@);
    while i < habitats.len()
        invariant
            0 <= i <= habitats.len(),
            spec_habitat_of(habitats@, *id) == spec_habitat_of(habitats@.subrange(i as int, habitats@.len() as int), *id),
        decreases habitats.len() - i,
    {
        let ghost rest = habitats@.subrange(i as int, habitats@.len() as int);
        assert(rest.subrange(1, rest.len() as int) =~= habitats@.subrange(i + 1, habitats@.len() as int));
        if animal_id_eq(&habitats[i].0, id) {
            return Some(&habitats[i].1);
        }
        i += 1;
    }
    None
}

fn ocean_animal(habitats: &Vec<(AnimalId, AnimalHabitat)>, slot: &Option<Animal>) -> (r: bool)
    ensures
        r == spec_ocean_animal(habitats@, *slot),
{
    match slot {
        Some(a) => match habitat_of(habitats, &a.id) {
            Some(h) => h.match_biome(Biome::Ocean),
            None => false,
        },
        None => false,
    }
}

impl TileQuery {
    pub fn holds(&self, habitats: &Vec<(AnimalId, AnimalHabitat)>, t: &Tile) -> (r: bool)
        ensures
            r == spec_query_holds(*self, habitats@, *t),
    {
        match self {
            TileQuery::StructureOf(kind) => match &t.structure {
                Some(s) => s.kind() == *kind,
                None => false,
            },
            TileQuery::BiomeIn(biomes) => crate::defs::contains_biome(biomes, t.biome),
            TileQuery::AnimalOf { id, size } => match &t.animal[size.index()] {
                Some(a) => animal_id_eq(&a.id, id),
                None => false,
            },
            TileQuery::SettlementOf(animal) => match &t.structure {
                Some(Structure::Settlement(st)) => match animal {
                    Some(id) => animal_id_eq(id, &st.id),
                    None => true,
                },
                _ => false,
            },
            TileQuery::SettlementAtLeast(age) => match &t.structure {
                Some(Structure::Settlement(st)) => st.age.is_at_least(*age),
                _ => false,
            },
            TileQuery::AnyAnimal => t.animal[0].is_some() || t.animal[1].is_some() || t.animal[2].is_some(),
            TileQuery::Plague => t.tile_events.contains(TileEventKind::Plague),
            TileQuery::OceanAnimalAtSea => t.biome.is_sea() && (ocean_animal(habitats, &t.animal[0])
                || ocean_animal(habitats, &t.animal[1]) || ocean_animal(habitats, &t.animal[2])),
        }
    }
}

/// The number of tiles of the list with the property.
pub fn count_tiles(tiles: &Vec<Tile>, q: &TileQuery, habitats: &Vec<(AnimalId, AnimalHabitat)>) -> (r: usize)
    ensures
        r == spec_count_tiles(tiles@, *q, habitats@),
{
    let mut count: usize = 0;
    let mut i: usize = 0;
    while i < tiles.len()
        invariant
            0 <= i <= tiles.len(),
            count == spec_count_tiles(tiles@.take(i as int), *q, habitats@),
            count <= i,
        decreases tiles.len() - i,
    {
        assert(tiles@.take(i + 1).drop_last() =~= tiles@.take(i as int));
        if q.holds(habitats, &tiles[i]) {
            count += 1;
        }
        i += 1;
    }
    assert(tiles@.take(tiles.len() as int) =~= tiles@);
    count
}

/// What the first part of a cycle found on a tile.
#[derive(Clone, Copy, Debug)]
pub struct TileAdvance {
    /// A fire burns on the tile.
    pub fire: bool,
    /// Aerosol is injected from the tile.
    pub aerosol_injected: bool,
    /// A war goes on at the tile's settlement: a combat is due.
    pub war_combat_due: bool,
}

pub open spec fn spec_has_settlement(structure: Option<Structure>) -> bool {
    structure matches Some(Structure::Settlement(_))
}

/// The structure after a fire or an explosion: a settlement burns down,
/// other structures stay.
pub open spec fn spec_burned(structure: Option<Structure>) -> Option<Structure> {
    if spec_has_settlement(structure) {
        None
    } else {
        structure
    }
}

pub open spec fn spec_without_kind(s: Seq<TileEvent>, kind: TileEventKind) -> Seq<TileEvent> {
    s.filter(|e: TileEvent| spec_kind(e) != kind)
}

/// Runs a tile's events through the first part of a cycle, up to the war:
/// settlement events go when there is no settlement; a fire burns the
/// settlement and the animals and goes out when `fire_goes_out`; black dust
/// lasts `black_dust_decrease` cycles less; aerosol injection lasts a cycle
/// less; a war without a settlement ends.
pub fn advance_tile_events(tile: &mut Tile, fire_goes_out: bool, black_dust_decrease: u32) -> (r: TileAdvance)
    requires
        spec_tile_events_wf(tile_event_list(old(tile).tile_events)),
    ensures
        ({
            let s0 = tile_event_list(old(tile).tile_events);
            let settled = spec_has_settlement(old(tile).structure);
            let s1 = if settled {
                s0
            } else {
                s0.filter(|e: TileEvent| !spec_is_settlement_event(e))
            };
            let fire = spec_find(s1, TileEventKind::Fire) is Some;
            let s2 = if fire && fire_goes_out {
                spec_without_kind(s1, TileEventKind::Fire)
            } else {
                s1
            };
            let structure = if fire {
                spec_burned(old(tile).structure)
            } else {
                old(tile).structure
            };
            let s3 = spec_black_dust_advanced(s2, black_dust_decrease);
            let aerosol = spec_find(s3, TileEventKind::AerosolInjection) is Some;
            let s4 = spec_count_down(s3, TileEventKind::AerosolInjection);
            let war = spec_find(s4, TileEventKind::War) is Some;
            let s5 = if war && !spec_has_settlement(structure) {
                spec_without_kind(s4, TileEventKind::War)
            } else {
                s4
            };
            &&& tile_event_list(final(tile).tile_events) == s5
            &&& final(tile).structure == structure
            &&& final(tile).animal@ == (if fire {
                seq![None::<Animal>, None, None]
            } else {
                old(tile).animal@
            })
            &&& final(tile).biome == old(tile).biome
            &&& r == (TileAdvance {
                fire,
                aerosol_injected: aerosol,
                war_combat_due: war && spec_has_settlement(structure),
            })
            &&& spec_tile_events_wf(s5)
        }),
{
    let ghost s0 = tile_event_list(tile.tile_events);
    let settled = match &tile.structure {
        Some(Structure::Settlement(_)) => true,
        _ => false,
    };
    if !settled {
        tile.tile_events.remove_settlement_events();
        proof {
            lemma_filter_keeps_wf(s0, |e: TileEvent| !spec_is_settlement_event(e));
        }
    }
    let fire = tile.tile_events.contains(TileEventKind::Fire);
    if fire {
        if fire_goes_out {
            let ghost s1 = tile_event_list(tile.tile_events);
            tile.tile_events.remove(TileEventKind::Fire);
            proof {
                lemma_filter_keeps_wf(s1, |e: TileEvent| spec_kind(e) != TileEventKind::Fire);
            }
        }
        if settled {
            tile.structure = None;
        }
        tile.animal = [None, None, None];
    }
    let ghost s2 = tile_event_list(tile.tile_events);
    tile.tile_events.advance_black_dust(black_dust_decrease);
    proof {
        lemma_black_dust_keeps_wf(s2, black_dust_decrease);
    }
    let ghost s3 = tile_event_list(tile.tile_events);
    let aerosol_injected = tile.tile_events.advance_aerosol_injection();
    proof {
        lemma_count_down_keeps_wf(s3, TileEventKind::AerosolInjection);
    }
    let still_settled = match &tile.structure {
        Some(Structure::Settlement(_)) => true,
        _ => false,
    };
    let war = tile.tile_events.contains(TileEventKind::War);
    if war && !still_settled {
        let ghost s4 = tile_event_list(tile.tile_events);
        tile.tile_events.remove(TileEventKind::War);
        proof {
            lemma_filter_keeps_wf(s4, |e: TileEvent| spec_kind(e) != TileEventKind::War);
        }
    }
    TileAdvance { fire, aerosol_injected, war_combat_due: war && still_settled }
}

/// Runs the nuclear explosion of a tile, after the war: it burns the
/// settlement and the animals and lasts a cycle less. Tells whether one burns.
pub fn advance_tile_nuclear_explosion(tile: &mut Tile) -> (r: bool)
    requires
        spec_tile_events_wf(tile_event_list(old(tile).tile_events)),
    ensures
        r == spec_find(tile_event_list(old(tile).tile_events), TileEventKind::NuclearExplosion) is Some,
        tile_event_list(final(tile).tile_events) == spec_count_down(
            tile_event_list(old(tile).tile_events),
            TileEventKind::NuclearExplosion,
        ),
        spec_tile_events_wf(tile_event_list(final(tile).tile_events)),
        final(tile).structure == (if r {
            spec_burned(old(tile).structure)
        } else {
            old(tile).structure
        }),
        final(tile).animal@ == (if r {
            seq![None::<Animal>, None, None]
        } else {
            old(tile).animal@
        }),
        final(tile).biome == old(tile).biome,
{
    let ghost s0 = tile_event_list(tile.tile_events);
    let burning = tile.tile_events.advance_nuclear_explosion();
    proof {
        lemma_count_down_keeps_wf(s0, TileEventKind::NuclearExplosion);
    }
    if burning {
        let settled = match &tile.structure {
            Some(Structure::Settlement(_)) => true,
            _ => false,
        };
        if settled {
            tile.structure = None;
        }
        tile.animal = [None, None, None];
    }
    burning
}

/// The number of the first plague in progress, if one is.
pub open spec fn spec_first_plague(s: Seq<EventInProgress>) -> Option<u32>
    decreases s.len(),
{
    if s.len() == 0 {
        None
    } else {
        match s[0].event {
            PlanetEvent::Plague(pl) => Some(pl.i),
            _ => spec_first_plague(s.drop_first()),
        }
    }
}

fn first_plague(events: &Events) -> (r: Option<u32>)
    ensures
        r == spec_first_plague(events.in_progress@),
{
    let mut i: usize = 0;
    assert(events.in_progress@.skip(0) =~= events.in_progress@);
    while i < events.in_progress.len()
        invariant
            0 <= i <= events.in_progress.len(),
            spec_first_plague(events.in_progress@) == spec_first_plague(events.in_progress@.skip(i as int)),
        decreases events.in_progress.len() - i,
    {
        assert(events.in_progress@.skip(i as int).drop_first() =~= events.in_progress@.skip(i + 1));
        if let PlanetEvent::Plague(pl) = events.in_progress[i].event {
            return Some(pl.i);
        }
        i += 1;
    }
    None
}

/// Causes the plague at `p`: joins the plague in progress, or starts the
/// first plague there; a settlement on the tile catches it. Gives the number
/// of the plague.
pub fn cause_plague(events: &mut Events, tile: &mut Tile, p: Coords) -> (r: u32)
    requires
        spec_kinds_distinct(tile_event_list(old(tile).tile_events)) || tile_event_list(old(tile).tile_events).len()
            < usize::MAX,
    ensures
        match spec_first_plague(old(events).in_progress@) {
            Some(i) => r == i && final(events).in_progress@ == old(events).in_progress@,
            None => r == 0 && final(events).in_progress@ == old(events).in_progress@.push(
                EventInProgress { event: PlanetEvent::Plague(PlagueEvent { i: 0, start_pos: p }), progress: 0, duration: None },
            ),
        },
        final(tile).structure == old(tile).structure,
        final(tile).animal == old(tile).animal,
        final(tile).biome == old(tile).biome,
        ({
            let s = tile_event_list(old(tile).tile_events);
            let e = TileEvent::Plague { i: r, cured: false };
            if spec_has_settlement(old(tile).structure) {
                tile_event_list(final(tile).tile_events) == match spec_find(s, TileEventKind::Plague) {
                    Some(k) => s.update(k, e),
                    None => s.push(e),
                }
            } else {
                tile_event_list(final(tile).tile_events) == s
            }
        }),
{
    let i = match first_plague(events) {
        Some(i) => i,
        None => {
            events.start_event(PlanetEvent::Plague(PlagueEvent { i: 0, start_pos: p }), None);
            0
        },
    };
    let settled = match &tile.structure {
        Some(Structure::Settlement(_)) => true,
        _ => false,
    };
    if settled {
        tile.tile_events.insert(TileEvent::Plague { i, cured: false });
    }
    i
}

/// A settlement of the civilization `id` stands on the tile.
pub open spec fn spec_settled_by(structure: Option<Structure>, id: AnimalId) -> bool {
    structure matches Some(Structure::Settlement(st)) && same_animal(st.id, id)
}

/// The tile after its civilization `id` is deleted: its settlement of that
/// civilization goes, and so do its vehicles and troops.
pub open spec fn spec_tile_without_civ(before: Tile, after: Tile, id: AnimalId) -> bool {
    &&& after.biome == before.biome
    &&& after.animal == before.animal
    &&& after.structure == if spec_settled_by(before.structure, id) {
        None
    } else {
        before.structure
    }
    &&& tile_event_list(after.tile_events) == tile_event_list(before.tile_events).filter(
        |e: TileEvent| !spec_moves_for(e, id),
    )
}

/// The tile after every civilization is deleted: settlements go, and so do
/// vehicles.
pub open spec fn spec_tile_without_civs(before: Tile, after: Tile) -> bool {
    &&& after.biome == before.biome
    &&& after.animal == before.animal
    &&& after.structure == if before.structure matches Some(Structure::Settlement(_)) {
        None
    } else {
        before.structure
    }
    &&& tile_event_list(after.tile_events) == tile_event_list(before.tile_events).filter(
        |e: TileEvent| spec_kind(e) != TileEventKind::Vehicle,
    )
}

/// Deletes the civilization `civ_id` from the map: its settlements, its
/// vehicles and its troops.
pub fn delete_civ(planet: &mut Planet, civ_id: &AnimalId)
    ensures
        final(planet).cycles == old(planet).cycles,
        final(planet).origin == old(planet).origin,
        final(planet).width == old(planet).width,
        final(planet).height == old(planet).height,
        final(planet).space_buildings == old(planet).space_buildings,
        final(planet).civs == old(planet).civs,
        final(planet).map.len() == old(planet).map.len(),
        forall|i: int| 0 <= i < old(planet).map.len() ==> spec_tile_without_civ(
            #[trigger] old(planet).map@[i],
            final(planet).map@[i],
            *civ_id,
        ),
{
    let ghost before = planet.map@;
    let mut i: usize = 0;
    while i < planet.map.len()
        invariant
            0 <= i <= planet.map.len(),
            planet.map.len() == before.len(),
            before == old(planet).map@,
            planet.cycles == old(planet).cycles,
            planet.origin == old(planet).origin,
            planet.width == old(planet).width,
            planet.height == old(planet).height,
            planet.space_buildings == old(planet).space_buildings,
            planet.civs == old(planet).civs,
            forall|j: int| 0 <= j < i ==> spec_tile_without_civ(#[trigger] before[j], planet.map@[j], *civ_id),
            forall|j: int| i <= j < before.len() ==> #[trigger] planet.map@[j] == before[j],
        decreases planet.map.len() - i,
    {
        let settled = match &planet.map[i].structure {
            Some(Structure::Settlement(st)) => animal_id_eq(&st.id, civ_id),
            _ => false,
        };
        if settled {
            planet.map[i].structure = None;
        }
        planet.map[i].tile_events.remove_civ_movements(civ_id);
        i += 1;
    }
}

impl Planet {
    /// Deletes every civilization from the map: the settlements and the
    /// vehicles go.
    pub fn delete_civilization(&mut self)
        ensures
            final(self).cycles == old(self).cycles,
            final(self).origin == old(self).origin,
            final(self).width == old(self).width,
            final(self).height == old(self).height,
            final(self).space_buildings == old(self).space_buildings,
            final(self).civs == old(self).civs,
            final(self).map.len() == old(self).map.len(),
            forall|i: int| 0 <= i < old(self).map.len() ==> spec_tile_without_civs(
                #[trigger] old(self).map@[i],
                final(self).map@[i],
            ),
    {
        let ghost before = self.map@;
        let mut i: usize = 0;
        while i < self.map.len()
            invariant
                0 <= i <= self.map.len(),
                self.map.len() == before.len(),
                before == old(self).map@,
                self.cycles == old(self).cycles,
                self.origin == old(self).origin,
                self.width == old(self).width,
                self.height == old(self).height,
                self.space_buildings == old(self).space_buildings,
                self.civs == old(self).civs,
                forall|j: int| 0 <= j < i ==> spec_tile_without_civs(#[trigger] before[j], self.map@[j]),
                forall|j: int| i <= j < before.len() ==> #[trigger] self.map@[j] == before[j],
            decreases self.map.len() - i,
        {
            let settled = match &self.map[i].structure {
                Some(Structure::Settlement(_)) => true,
                _ => false,
            };
            if settled {
                self.map[i].structure = None;
            }
            self.map[i].tile_events.remove(TileEventKind::Vehicle);
            i += 1;
        }
    }
}

} // verus!
