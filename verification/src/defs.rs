//! Kinds of things found on a planet: biomes, structures, animals,
//! civilization ages, energy sources, gases and buildings.
use vstd::prelude::*;

verus! {

/// Surface biome of a tile.
#[derive(Clone, Copy, PartialEq, Eq, Structural, PartialOrd, Ord, Hash, Debug)]
pub enum Biome {
    Rock,
    Ocean,
    SeaIce,
    Desert,
    IceField,
    Tundra,
    Grassland,
    BorealForest,
    TemperateForest,
    TropicalRainforest,
}

impl Default for Biome {
    fn default() -> (b: Biome)
        ensures
            b == Biome::Rock,
    {
        Biome::Rock
    }
}

/// The sea biomes: ocean and sea ice.
pub open spec fn spec_is_sea(b: Biome) -> bool {
    b == Biome::Ocean || b == Biome::SeaIce
}

impl Biome {
    /// Every biome that is not a sea biome is a land biome.
    pub fn is_land(&self) -> (r: bool)
        ensures
            r == !spec_is_sea(*self),
    {
        !self.is_sea()
    }

    pub fn is_sea(&self) -> (r: bool)
        ensures
            r == spec_is_sea(*self),
    {
        match self {
            Biome::Ocean | Biome::SeaIce => true,
            _ => false,
        }
    }
}

/// Kinds of structures that stand on tiles.
#[derive(Clone, Copy, PartialEq, Eq, Structural, PartialOrd, Ord, Hash, Debug)]
pub enum StructureKind {
    OxygenGenerator,
    Rainmaker,
    FertilizationPlant,
    Heater,
    CarbonCapturer,
    Settlement,
}

impl StructureKind {
    /// Settlements grow by themselves; every other structure is built by the player.
    pub fn buildable_by_player(self) -> (r: bool)
        ensures
            r == (self != StructureKind::Settlement),
    {
        match self {
            StructureKind::Settlement => false,
            _ => true,
        }
    }
}

/// Working state of a structure building.
#[derive(Clone, Copy, PartialEq, Eq, Structural, Debug)]
pub enum StructureBuildingState {
    Working,
    Stopped,
    Disabled,
}

/// Animal size class; a tile holds at most one animal of each size.
#[derive(Clone, Copy, PartialEq, Eq, Structural, Hash, Debug)]
pub enum AnimalSize {
    Small,
    Medium,
    Large,
}

/// The number of animal sizes.
pub const ANIMAL_SIZE_LEN: usize = 3;

pub open spec fn spec_animal_size_index(s: AnimalSize) -> int {
    match s {
        AnimalSize::Small => 0,
        AnimalSize::Medium => 1,
        AnimalSize::Large => 2,
    }
}

impl AnimalSize {
    /// All sizes, from the smallest to the largest.
    pub fn iter() -> (r: [AnimalSize; 3])
        ensures
            r@ == seq![AnimalSize::Small, AnimalSize::Medium, AnimalSize::Large],
    {
        [AnimalSize::Small, AnimalSize::Medium, AnimalSize::Large]
    }

    /// Index of the size in per-size arrays.
    pub fn index(self) -> (r: usize)
        ensures
            r as int == spec_animal_size_index(self),
            r < ANIMAL_SIZE_LEN,
    {
        match self {
            AnimalSize::Small => 0,
            AnimalSize::Medium => 1,
            AnimalSize::Large => 2,
        }
    }
}

/// Whether a list of biomes holds the biome.
pub fn contains_biome(biomes: &Vec<Biome>, biome: Biome) -> (r: bool)
    ensures
        r == biomes@.contains(biome),
{
    let mut i: usize = 0;
    while i < biomes.len()
        invariant
            0 <= i <= biomes.len(),
            forall|j: int| 0 <= j < i ==> biomes@[j] != biome,
        decreases biomes.len() - i,
    {
        if biomes[i] == biome {
            assert(biomes@[i as int] == biome);
            return true;
        }
        i += 1;
    }
    false
}

/// Where an animal can live.
#[derive(Clone, PartialEq, Eq, Hash, Debug)]
pub enum AnimalHabitat {
    Land,
    Sea,
    Biomes(Vec<Biome>),
}

/// Whether an animal of the habitat can live on a biome.
pub open spec fn spec_match_biome(h: AnimalHabitat, biome: Biome) -> bool {
    match h {
        AnimalHabitat::Land => !spec_is_sea(biome),
        AnimalHabitat::Sea => spec_is_sea(biome),
        AnimalHabitat::Biomes(biomes) => biomes@.contains(biome),
    }
}

impl AnimalHabitat {
    pub fn match_biome(&self, biome: Biome) -> (r: bool)
        ensures
            r == spec_match_biome(*self, biome),
    {
        match *self {
            AnimalHabitat::Land => biome.is_land(),
            AnimalHabitat::Sea => biome.is_sea(),
            AnimalHabitat::Biomes(ref biomes) => contains_biome(biomes, biome),
        }
    }

    /// Two habitats compete on a biome when both can live there.
    pub fn compete_at_biome(&self, other: &Self, biome: Biome) -> (r: bool)
        ensures
            r == (spec_match_biome(*self, biome) && spec_match_biome(*other, biome)),
    {
        self.match_biome(biome) && other.match_biome(biome)
    }
}

/// Technology age of a settlement, in order of advance.
#[derive(Clone, Copy, PartialEq, Eq, Structural, Hash, Debug)]
pub enum CivilizationAge {
    StoneAge,
    BronzeAge,
    IronAge,
    IndustrialAge,
    AtomicAge,
    EarlySpaceAge,
}

/// The number of civilization ages.
pub const CIVILIZATION_AGE_LEN: usize = 6;

pub open spec fn spec_age_index(a: CivilizationAge) -> int {
    match a {
        CivilizationAge::StoneAge => 0,
        CivilizationAge::BronzeAge => 1,
        CivilizationAge::IronAge => 2,
        CivilizationAge::IndustrialAge => 3,
        CivilizationAge::AtomicAge => 4,
        CivilizationAge::EarlySpaceAge => 5,
    }
}

pub open spec fn spec_age_from_index(i: int) -> Option<CivilizationAge> {
    if i == 0 {
        Some(CivilizationAge::StoneAge)
    } else if i == 1 {
        Some(CivilizationAge::BronzeAge)
    } else if i == 2 {
        Some(CivilizationAge::IronAge)
    } else if i == 3 {
        Some(CivilizationAge::IndustrialAge)
    } else if i == 4 {
        Some(CivilizationAge::AtomicAge)
    } else if i == 5 {
        Some(CivilizationAge::EarlySpaceAge)
    } else {
        None
    }
}

impl Default for CivilizationAge {
    fn default() -> (a: CivilizationAge)
        ensures
            a == CivilizationAge::StoneAge,
    {
        CivilizationAge::StoneAge
    }
}

impl CivilizationAge {
    pub fn index(self) -> (r: usize)
        ensures
            r as int == spec_age_index(self),
            r < CIVILIZATION_AGE_LEN,
    {
        match self {
            CivilizationAge::StoneAge => 0,
            CivilizationAge::BronzeAge => 1,
            CivilizationAge::IronAge => 2,
            CivilizationAge::IndustrialAge => 3,
            CivilizationAge::AtomicAge => 4,
            CivilizationAge::EarlySpaceAge => 5,
        }
    }

    /// The age with the given index, if there is one.
    pub fn from_index(i: usize) -> (r: Option<CivilizationAge>)
        ensures
            r == spec_age_from_index(i as int),
    {
        match i {
            0 => Some(CivilizationAge::StoneAge),
            1 => Some(CivilizationAge::BronzeAge),
            2 => Some(CivilizationAge::IronAge),
            3 => Some(CivilizationAge::IndustrialAge),
            4 => Some(CivilizationAge::AtomicAge),
            5 => Some(CivilizationAge::EarlySpaceAge),
            _ => None,
        }
    }

    /// Ages are ordered by their index.
    pub fn is_at_least(self, other: CivilizationAge) -> (r: bool)
        ensures
            r == (spec_age_index(self) >= spec_age_index(other)),
    {
        self.index() >= other.index()
    }
}

/// Sources of energy that a civilization consumes.
#[derive(Clone, Copy, PartialEq, Eq, Structural, Hash, Debug)]
pub enum EnergySource {
    Biomass,
    WindSolar,
    HydroGeothermal,
    FossilFuel,
    Nuclear,
    Gift,
}

/// The number of energy sources.
pub const ENERGY_SOURCE_LEN: usize = 6;

/// Gases of the atmosphere.
#[derive(Clone, Copy, PartialEq, Eq, Structural, PartialOrd, Ord, Hash, Debug)]
pub enum GasKind {
    Oxygen,
    Nitrogen,
    CarbonDioxide,
    Argon,
}

/// How the player controls a kind of building.
#[derive(Clone, Copy, PartialEq, Eq, Structural, PartialOrd, Ord, Debug)]
pub enum BuildingControl {
    AlwaysEnabled,
    IncreaseRate,
}

impl Default for BuildingControl {
    fn default() -> (c: BuildingControl)
        ensures
            c == BuildingControl::AlwaysEnabled,
    {
        BuildingControl::AlwaysEnabled
    }
}

/// Buildings in orbit around the planet.
#[derive(Clone, Copy, PartialEq, Eq, Structural, PartialOrd, Ord, Hash, Debug)]
pub enum SpaceBuildingKind {
    FusionReactor,
    AsteroidMiningStation,
    DysonSwarmUnit,
    OrbitalMirror,
    IceImporter,
    NitrogenImporter,
    CarbonImporter,
    IonIrradiator,
}

/// The number of space building kinds.
pub const SPACE_BUILDING_KIND_LEN: usize = 8;

pub open spec fn spec_space_building_index(k: SpaceBuildingKind) -> int {
    match k {
        SpaceBuildingKind::FusionReactor => 0,
        SpaceBuildingKind::AsteroidMiningStation => 1,
        SpaceBuildingKind::DysonSwarmUnit => 2,
        SpaceBuildingKind::OrbitalMirror => 3,
        SpaceBuildingKind::IceImporter => 4,
        SpaceBuildingKind::NitrogenImporter => 5,
        SpaceBuildingKind::CarbonImporter => 6,
        SpaceBuildingKind::IonIrradiator => 7,
    }
}

impl SpaceBuildingKind {
    pub fn index(self) -> (r: usize)
        ensures
            r as int == spec_space_building_index(self),
            r < SPACE_BUILDING_KIND_LEN,
    {
        match self {
            SpaceBuildingKind::FusionReactor => 0,
            SpaceBuildingKind::AsteroidMiningStation => 1,
            SpaceBuildingKind::DysonSwarmUnit => 2,
            SpaceBuildingKind::OrbitalMirror => 3,
            SpaceBuildingKind::IceImporter => 4,
            SpaceBuildingKind::NitrogenImporter => 5,
            SpaceBuildingKind::CarbonImporter => 6,
            SpaceBuildingKind::IonIrradiator => 7,
        }
    }
}

/// A building on the surface or in space.
#[derive(Clone, Copy, PartialEq, Eq, Structural, PartialOrd, Ord, Hash, Debug)]
pub enum BuildingKind {
    Structure(StructureKind),
    Space(SpaceBuildingKind),
}

impl From<StructureKind> for BuildingKind {
    fn from(kind: StructureKind) -> (r: BuildingKind) {
        BuildingKind::Structure(kind)
    }
}

impl vstd::std_specs::convert::FromSpecImpl<StructureKind> for BuildingKind {
    open spec fn obeys_from_spec() -> bool {
        true
    }

    open spec fn from_spec(v: StructureKind) -> BuildingKind {
        BuildingKind::Structure(v)
    }
}

impl From<SpaceBuildingKind> for BuildingKind {
    fn from(kind: SpaceBuildingKind) -> (r: BuildingKind) {
        BuildingKind::Space(kind)
    }
}

impl vstd::std_specs::convert::FromSpecImpl<SpaceBuildingKind> for BuildingKind {
    open spec fn obeys_from_spec() -> bool {
        true
    }

    open spec fn from_spec(v: SpaceBuildingKind) -> BuildingKind {
        BuildingKind::Space(v)
    }
}

/// How hard it is to make a starting planet habitable.
#[derive(Clone, Copy, PartialEq, Eq, Structural, PartialOrd, Ord, Debug)]
pub enum PlanetHabitability {
    Ideal,
    Adequate,
    Poor,
    Hostile,
}

/// How the planet history is recorded.
#[derive(Clone, Debug)]
pub struct HistoryParams {
    pub max_record: usize,
    pub interval_cycles: u64,
}

/// Control value that the player set on a kind of space building.
#[derive(Clone, Copy, PartialEq, Eq, Structural, Debug)]
pub enum BuildingControlValue {
    AlwaysEnabled,
    IncreaseRate(i32),
}

impl Default for BuildingControlValue {
    fn default() -> (c: BuildingControlValue)
        ensures
            c == BuildingControlValue::AlwaysEnabled,
    {
        BuildingControlValue::AlwaysEnabled
    }
}

/// The number of buildings of one space building kind and their control value.
#[derive(Clone, Copy, PartialEq, Eq, Structural, Debug)]
pub struct Building {
    pub n: u32,
    pub control: BuildingControlValue,
}

impl Default for Building {
    fn default() -> (b: Building)
        ensures
            b.n == 0,
            b.control == BuildingControlValue::AlwaysEnabled,
    {
        Building { n: 0, control: BuildingControlValue::AlwaysEnabled }
    }
}

impl Building {
    /// The number of buildings that work; every built one works, whatever the control.
    pub fn enabled(&self) -> (r: u32)
        ensures
            r == self.n,
    {
        match self.control {
            BuildingControlValue::AlwaysEnabled => self.n,
            BuildingControlValue::IncreaseRate(_) => self.n,
        }
    }
}

} // verus!
