//! Requirements that the planet must meet, as the tutorial and the
//! achievements state them.
use vstd::prelude::*;
use vstd::std_specs::range::ContainsSpec;

use crate::animal_id::AnimalId;
use crate::defs::{
    spec_space_building_index, AnimalHabitat, AnimalSize, Biome, BuildingControlValue, GasKind,
    SpaceBuildingKind, StructureKind,
};
use crate::planet::{count_tiles, lemma_count_same, spec_count_tiles, Civilization, Planet, TileQuery};

verus! {

/// A condition on the planet.
pub enum Requirement {
    /// At least `n` structures of the kind stand on the map.
    StructureBuilt { kind: StructureKind, n: u32 },
    /// At least `n` space buildings of the kind are built.
    SpaceBuildingBuilt { kind: SpaceBuildingKind, n: u32 },
    /// At least `n` tiles have one of the biomes.
    BiomeTiles { biomes: Vec<Biome>, n: u32 },
    /// The partial pressure of the gas reached a value; the caller measures it.
    PartialPressureHigherThan { kind: GasKind },
    /// At least `n` tiles hold the animal in the slot of its size.
    AnimalTiles { id: AnimalId, size: AnimalSize, n: u32 },
    /// At least `n` settlements stand on the map, of the animal when one is named.
    Settlements { n: u32, animal_id: Option<AnimalId> },
    /// Some civilization has its population growth control in the range.
    CivPopGrowthAdjust { range: std::ops::RangeInclusive<i16> },
    /// The orbital mirrors are controlled by a rate in the range.
    OrbitalMirrorAdjust { range: std::ops::RangeInclusive<i32> },
}

/// Some civilization has its population growth control in the range.
pub open spec fn spec_some_civ_growth_in(civs: Seq<(AnimalId, Civilization)>, range: std::ops::RangeInclusive<i16>) -> bool {
    exists|i: int| 0 <= i < civs.len() && range.contains_spec(&(#[trigger] civs[i]).1.pop_growth)
}

/// Whether the planet meets the requirement; `pressure_reached` tells whether
/// the gas of a partial pressure requirement reached its value.
pub open spec fn spec_requirement_met(r: Requirement, p: Planet, pressure_reached: bool) -> bool {
    let none = Seq::<(AnimalId, AnimalHabitat)>::empty();
    match r {
        Requirement::StructureBuilt { kind, n } => spec_count_tiles(p.map@, TileQuery::StructureOf(kind), none) >= n,
        Requirement::SpaceBuildingBuilt { kind, n } => p.space_buildings@[spec_space_building_index(kind)].n >= n,
        Requirement::BiomeTiles { biomes, n } => spec_count_tiles(p.map@, TileQuery::BiomeIn(biomes), none) >= n,
        Requirement::PartialPressureHigherThan { .. } => pressure_reached,
        Requirement::AnimalTiles { id, size, n } => spec_count_tiles(
            p.map@,
            TileQuery::AnimalOf { id, size },
            none,
        ) >= n,
        Requirement::Settlements { n, animal_id } => spec_count_tiles(
            p.map@,
            TileQuery::SettlementOf(animal_id),
            none,
        ) >= n,
        Requirement::CivPopGrowthAdjust { range } => spec_some_civ_growth_in(p.civs@, range),
        Requirement::OrbitalMirrorAdjust { range } => match p.space_buildings@[spec_space_building_index(
            SpaceBuildingKind::OrbitalMirror,
        )].control {
            BuildingControlValue::IncreaseRate(rate) => range.contains_spec(&rate),
            BuildingControlValue::AlwaysEnabled => false,
        },
    }
}

fn count_query(p: &Planet, q: TileQuery) -> (r: usize)
    ensures
        r == spec_count_tiles(p.map@, q, Seq::<(AnimalId, AnimalHabitat)>::empty()),
{
    let none: Vec<(AnimalId, AnimalHabitat)> = Vec::new();
    assert(none@ =~= Seq::<(AnimalId, AnimalHabitat)>::empty());
    count_tiles(&p.map, &q, &none)
}

fn some_civ_growth_in(civs: &Vec<(AnimalId, Civilization)>, range: &std::ops::RangeInclusive<i16>) -> (r: bool)
    ensures
        r == spec_some_civ_growth_in(civs@, *range),
{
    let mut i: usize = 0;
    while i < civs.len()
        invariant
            0 <= i <= civs.len(),
            forall|j: int| 0 <= j < i ==> !range.contains_spec(&(#[trigger] civs@[j]).1.pop_growth),
        decreases civs.len() - i,
    {
        if range.contains(&civs[i].1.pop_growth) {
            assert(range.contains_spec(&civs@[i as int].1.pop_growth));
            return true;
        }
        i += 1;
    }
    false
}

impl Requirement {
    pub fn check(&self, planet: &Planet, pressure_reached: bool) -> (r: bool)
        requires
            planet.wf(),
        ensures
            r == spec_requirement_met(*self, *planet, pressure_reached),
    {
        match self {
            Requirement::StructureBuilt { kind, n } => count_query(planet, TileQuery::StructureOf(*kind))
                >= *n as usize,
            Requirement::SpaceBuildingBuilt { kind, n } => planet.space_building(*kind).n >= *n,
            Requirement::BiomeTiles { biomes, n } => {
                let list = biomes.clone();
                assert(list@ =~= biomes@);
                let c = count_query(planet, TileQuery::BiomeIn(list));
                proof {
                    lemma_count_same(
                        planet.map@,
                        TileQuery::BiomeIn(list),
                        TileQuery::BiomeIn(*biomes),
                        Seq::<(AnimalId, AnimalHabitat)>::empty(),
                    );
                }
                c >= *n as usize
            },
            Requirement::PartialPressureHigherThan { .. } => pressure_reached,
            Requirement::AnimalTiles { id, size, n } => count_query(
                planet,
                TileQuery::AnimalOf { id: *id, size: *size },
            ) >= *n as usize,
            Requirement::Settlements { n, animal_id } => count_query(
                planet,
                TileQuery::SettlementOf(*animal_id),
            ) >= *n as usize,
            Requirement::CivPopGrowthAdjust { range } => some_civ_growth_in(&planet.civs, range),
            Requirement::OrbitalMirrorAdjust { range } => match planet.space_building(
                SpaceBuildingKind::OrbitalMirror,
            ).control {
                BuildingControlValue::IncreaseRate(rate) => range.contains(&rate),
                BuildingControlValue::AlwaysEnabled => false,
            },
        }
    }
}

} // verus!
