//! Achievements: what the player can unlock, when the planet earns each one,
//! and the list of unlocked achievements.
use vstd::prelude::*;

use crate::animal_id::AnimalId;
use crate::defs::{spec_age_index, spec_is_sea, spec_space_building_index, AnimalHabitat, Biome, CivilizationAge, SpaceBuildingKind};
use crate::planet::{
    count_tiles, lemma_biome_count_where, lemma_query_count_where, lemma_tiles_where_none, spec_count_biome_tiles,
    spec_count_tiles, spec_current_age_index, spec_ocean_animal, spec_tiles_where, Civilization, Planet, Structure, Tile,
    TileQuery,
};
use crate::tile_events::{spec_find, tile_event_list, TileEventKind};

verus! {

/// An achievement. Each has a number of its own, kept in saved data.
#[derive(Clone, Copy, PartialEq, Eq, Structural, PartialOrd, Ord, Hash, Debug)]
pub enum Achivement {
    Grasslands,
    Forests,
    Animals,
    Civilize,
    GiantMirror,
    GreenPlanet,
    MeltedIce,
    DesertGreening,
    ArtificialBlueSky,
    OceanParadise,
    IndustrialRevolution,
    InterSpeciesWar,
    Pandemic,
    StepTowardEcumenopolis,
    MagicalEnergy,
    Exodus,
    AbundantPower,
    LowCarbonDioxide,
    DestroyPlanet,
    DarkClouds,
    PlanetSculpting,
}

impl Achivement {
    /// The number of the achievement.
    pub open spec fn spec_code(self) -> u16 {
        match self {
            Achivement::Grasslands => 1,
            Achivement::Forests => 2,
            Achivement::Animals => 3,
            Achivement::Civilize => 4,
            Achivement::GiantMirror => 5,
            Achivement::GreenPlanet => 6,
            Achivement::MeltedIce => 101,
            Achivement::DesertGreening => 102,
            Achivement::ArtificialBlueSky => 103,
            Achivement::OceanParadise => 104,
            Achivement::IndustrialRevolution => 201,
            Achivement::InterSpeciesWar => 202,
            Achivement::Pandemic => 203,
            Achivement::StepTowardEcumenopolis => 204,
            Achivement::MagicalEnergy => 205,
            Achivement::Exodus => 206,
            Achivement::AbundantPower => 301,
            Achivement::LowCarbonDioxide => 302,
            Achivement::DestroyPlanet => 303,
            Achivement::DarkClouds => 304,
            Achivement::PlanetSculpting => 305,
        }
    }

    /// The name of the achievement in kebab case, as texts look it up.
    pub open spec fn spec_kebab_name(self) -> Seq<char> {
        match self {
            Achivement::Grasslands => "grasslands"@,
            Achivement::Forests => "forests"@,
            Achivement::Animals => "animals"@,
            Achivement::Civilize => "civilize"@,
            Achivement::GiantMirror => "giant-mirror"@,
            Achivement::GreenPlanet => "green-planet"@,
            Achivement::MeltedIce => "melted-ice"@,
            Achivement::DesertGreening => "desert-greening"@,
            Achivement::ArtificialBlueSky => "artificial-blue-sky"@,
            Achivement::OceanParadise => "ocean-paradise"@,
            Achivement::IndustrialRevolution => "industrial-revolution"@,
            Achivement::InterSpeciesWar => "inter-species-war"@,
            Achivement::Pandemic => "pandemic"@,
            Achivement::StepTowardEcumenopolis => "step-toward-ecumenopolis"@,
            Achivement::MagicalEnergy => "magical-energy"@,
            Achivement::Exodus => "exodus"@,
            Achivement::AbundantPower => "abundant-power"@,
            Achivement::LowCarbonDioxide => "low-carbon-dioxide"@,
            Achivement::DestroyPlanet => "destroy-planet"@,
            Achivement::DarkClouds => "dark-clouds"@,
            Achivement::PlanetSculpting => "planet-sculpting"@,
        }
    }

    /// The achievement with the number, if there is one.
    pub open spec fn spec_from_code(n: u16) -> Option<Achivement> {
        if n == 1 {
            Some(Achivement::Grasslands)
        } else if n == 2 {
            Some(Achivement::Forests)
        } else if n == 3 {
            Some(Achivement::Animals)
        } else if n == 4 {
            Some(Achivement::Civilize)
        } else if n == 5 {
            Some(Achivement::GiantMirror)
        } else if n == 6 {
            Some(Achivement::GreenPlanet)
        } else if n == 101 {
            Some(Achivement::MeltedIce)
        } else if n == 102 {
            Some(Achivement::DesertGreening)
        } else if n == 103 {
            Some(Achivement::ArtificialBlueSky)
        } else if n == 104 {
            Some(Achivement::OceanParadise)
        } else if n == 201 {
            Some(Achivement::IndustrialRevolution)
        } else if n == 202 {
            Some(Achivement::InterSpeciesWar)
        } else if n == 203 {
            Some(Achivement::Pandemic)
        } else if n == 204 {
            Some(Achivement::StepTowardEcumenopolis)
        } else if n == 205 {
            Some(Achivement::MagicalEnergy)
        } else if n == 206 {
            Some(Achivement::Exodus)
        } else if n == 301 {
            Some(Achivement::AbundantPower)
        } else if n == 302 {
            Some(Achivement::LowCarbonDioxide)
        } else if n == 303 {
            Some(Achivement::DestroyPlanet)
        } else if n == 304 {
            Some(Achivement::DarkClouds)
        } else if n == 305 {
            Some(Achivement::PlanetSculpting)
        } else {
            None
        }
    }

    /// Numbers and achievements go one to one.
    pub proof fn lemma_code_round_trip(a: Achivement)
        ensures
            Achivement::spec_from_code(a.spec_code()) == Some(a),
    {
    }

    pub fn code(self) -> (r: u16)
        ensures
            r == self.spec_code(),
    {
        match self {
            Achivement::Grasslands => 1,
            Achivement::Forests => 2,
            Achivement::Animals => 3,
            Achivement::Civilize => 4,
            Achivement::GiantMirror => 5,
            Achivement::GreenPlanet => 6,
            Achivement::MeltedIce => 101,
            Achivement::DesertGreening => 102,
            Achivement::ArtificialBlueSky => 103,
            Achivement::OceanParadise => 104,
            Achivement::IndustrialRevolution => 201,
            Achivement::InterSpeciesWar => 202,
            Achivement::Pandemic => 203,
            Achivement::StepTowardEcumenopolis => 204,
            Achivement::MagicalEnergy => 205,
            Achivement::Exodus => 206,
            Achivement::AbundantPower => 301,
            Achivement::LowCarbonDioxide => 302,
            Achivement::DestroyPlanet => 303,
            Achivement::DarkClouds => 304,
            Achivement::PlanetSculpting => 305,
        }
    }

    /// The achievement with the number, if there is one.
    pub fn from_u16(n: u16) -> (r: Option<Achivement>)
        ensures
            r == Achivement::spec_from_code(n),
            match r {
                Some(a) => a.spec_code() == n,
                None => forall|a: Achivement| a.spec_code() != n,
            },
    {
        match n {
            1 => Some(Achivement::Grasslands),
            2 => Some(Achivement::Forests),
            3 => Some(Achivement::Animals),
            4 => Some(Achivement::Civilize),
            5 => Some(Achivement::GiantMirror),
            6 => Some(Achivement::GreenPlanet),
            101 => Some(Achivement::MeltedIce),
            102 => Some(Achivement::DesertGreening),
            103 => Some(Achivement::ArtificialBlueSky),
            104 => Some(Achivement::OceanParadise),
            201 => Some(Achivement::IndustrialRevolution),
            202 => Some(Achivement::InterSpeciesWar),
            203 => Some(Achivement::Pandemic),
            204 => Some(Achivement::StepTowardEcumenopolis),
            205 => Some(Achivement::MagicalEnergy),
            206 => Some(Achivement::Exodus),
            301 => Some(Achivement::AbundantPower),
            302 => Some(Achivement::LowCarbonDioxide),
            303 => Some(Achivement::DestroyPlanet),
            304 => Some(Achivement::DarkClouds),
            305 => Some(Achivement::PlanetSculpting),
            _ => {
                assert forall|a: Achivement| a.spec_code() != n by {
                    match a {
                        Achivement::Grasslands => {},
                        Achivement::Forests => {},
                        Achivement::Animals => {},
                        Achivement::Civilize => {},
                        Achivement::GiantMirror => {},
                        Achivement::GreenPlanet => {},
                        Achivement::MeltedIce => {},
                        Achivement::DesertGreening => {},
                        Achivement::ArtificialBlueSky => {},
                        Achivement::OceanParadise => {},
                        Achivement::IndustrialRevolution => {},
                        Achivement::InterSpeciesWar => {},
                        Achivement::Pandemic => {},
                        Achivement::StepTowardEcumenopolis => {},
                        Achivement::MagicalEnergy => {},
                        Achivement::Exodus => {},
                        Achivement::AbundantPower => {},
                        Achivement::LowCarbonDioxide => {},
                        Achivement::DestroyPlanet => {},
                        Achivement::DarkClouds => {},
                        Achivement::PlanetSculpting => {},
                    }
                }
                None
            },
        }
    }

    pub fn kebab_name(&self) -> (r: &'static str)
        ensures
            r@ == self.spec_kebab_name(),
    {
        match self {
            Achivement::Grasslands => "grasslands",
            Achivement::Forests => "forests",
            Achivement::Animals => "animals",
            Achivement::Civilize => "civilize",
            Achivement::GiantMirror => "giant-mirror",
            Achivement::GreenPlanet => "green-planet",
            Achivement::MeltedIce => "melted-ice",
            Achivement::DesertGreening => "desert-greening",
            Achivement::ArtificialBlueSky => "artificial-blue-sky",
            Achivement::OceanParadise => "ocean-paradise",
            Achivement::IndustrialRevolution => "industrial-revolution",
            Achivement::InterSpeciesWar => "inter-species-war",
            Achivement::Pandemic => "pandemic",
            Achivement::StepTowardEcumenopolis => "step-toward-ecumenopolis",
            Achivement::MagicalEnergy => "magical-energy",
            Achivement::Exodus => "exodus",
            Achivement::AbundantPower => "abundant-power",
            Achivement::LowCarbonDioxide => "low-carbon-dioxide",
            Achivement::DestroyPlanet => "destroy-planet",
            Achivement::DarkClouds => "dark-clouds",
            Achivement::PlanetSculpting => "planet-sculpting",
        }
    }

    /// The name in upper snake case: the kebab name with its hyphens made
    /// underscores and its letters capitals.
    pub fn upper_snake_case(&self) -> (r: String)
        ensures
            r@ == spec_upper_snake(self.spec_kebab_name()),
    {
        let s: &str = match self {
            Achivement::Grasslands => {
                proof {
                    reveal_strlit("grasslands");
                    reveal_strlit("GRASSLANDS");
                }
                let s = "GRASSLANDS";
                assert(s@ =~= spec_upper_snake(self.spec_kebab_name()));
                s
            },
            Achivement::Forests => {
                proof {
                    reveal_strlit("forests");
                    reveal_strlit("FORESTS");
                }
                let s = "FORESTS";
                assert(s@ =~= spec_upper_snake(self.spec_kebab_name()));
                s
            },
            Achivement::Animals => {
                proof {
                    reveal_strlit("animals");
                    reveal_strlit("ANIMALS");
                }
                let s = "ANIMALS";
                assert(s@ =~= spec_upper_snake(self.spec_kebab_name()));
                s
            },
            Achivement::Civilize => {
                proof {
                    reveal_strlit("civilize");
                    reveal_strlit("CIVILIZE");
                }
                let s = "CIVILIZE";
                assert(s@ =~= spec_upper_snake(self.spec_kebab_name()));
                s
            },
            Achivement::GiantMirror => {
                proof {
                    reveal_strlit("giant-mirror");
                    reveal_strlit("GIANT_MIRROR");
                }
                let s = "GIANT_MIRROR";
                assert(s@ =~= spec_upper_snake(self.spec_kebab_name()));
                s
            },
            Achivement::GreenPlanet => {
                proof {
                    reveal_strlit("green-planet");
                    reveal_strlit("GREEN_PLANET");
                }
                let s = "GREEN_PLANET";
                assert(s@ =~= spec_upper_snake(self.spec_kebab_name()));
                s
            },
            Achivement::MeltedIce => {
                proof {
                    reveal_strlit("melted-ice");
                    reveal_strlit("MELTED_ICE");
                }
                let s = "MELTED_ICE";
                assert(s@ =~= spec_upper_snake(self.spec_kebab_name()));
                s
            },
            Achivement::DesertGreening => {
                proof {
                    reveal_strlit("desert-greening");
                    reveal_strlit("DESERT_GREENING");
                }
                let s = "DESERT_GREENING";
                assert(s@ =~= spec_upper_snake(self.spec_kebab_name()));
                s
            },
            Achivement::ArtificialBlueSky => {
                proof {
                    reveal_strlit("artificial-blue-sky");
                    reveal_strlit("ARTIFICIAL_BLUE_SKY");
                }
                let s = "ARTIFICIAL_BLUE_SKY";
                assert(s@ =~= spec_upper_snake(self.spec_kebab_name()));
                s
            },
            Achivement::OceanParadise => {
                proof {
                    reveal_strlit("ocean-paradise");
                    reveal_strlit("OCEAN_PARADISE");
                }
                let s = "OCEAN_PARADISE";
                assert(s@ =~= spec_upper_snake(self.spec_kebab_name()));
                s
            },
            Achivement::IndustrialRevolution => {
                proof {
                    reveal_strlit("industrial-revolution");
                    reveal_strlit("INDUSTRIAL_REVOLUTION");
                }
                let s = "INDUSTRIAL_REVOLUTION";
                assert(s@ =~= spec_upper_snake(self.spec_kebab_name()));
                s
            },
            Achivement::InterSpeciesWar => {
                proof {
                    reveal_strlit("inter-species-war");
                    reveal_strlit("INTER_SPECIES_WAR");
                }
                let s = "INTER_SPECIES_WAR";
                assert(s@ =~= spec_upper_snake(self.spec_kebab_name()));
                s
            },
            Achivement::Pandemic => {
                proof {
                    reveal_strlit("pandemic");
                    reveal_strlit("PANDEMIC");
                }
                let s = "PANDEMIC";
                assert(s@ =~= spec_upper_snake(self.spec_kebab_name()));
                s
            },
            Achivement::StepTowardEcumenopolis => {
                proof {
                    reveal_strlit("step-toward-ecumenopolis");
                    reveal_strlit("STEP_TOWARD_ECUMENOPOLIS");
                }
                let s = "STEP_TOWARD_ECUMENOPOLIS";
                assert(s@ =~= spec_upper_snake(self.spec_kebab_name()));
                s
            },
            Achivement::MagicalEnergy => {
                proof {
                    reveal_strlit("magical-energy");
                    reveal_strlit("MAGICAL_ENERGY");
                }
                let s = "MAGICAL_ENERGY";
                assert(s@ =~= spec_upper_snake(self.spec_kebab_name()));
                s
            },
            Achivement::Exodus => {
                proof {
                    reveal_strlit("exodus");
                    reveal_strlit("EXODUS");
                }
                let s = "EXODUS";
                assert(s@ =~= spec_upper_snake(self.spec_kebab_name()));
                s
            },
            Achivement::AbundantPower => {
                proof {
                    reveal_strlit("abundant-power");
                    reveal_strlit("ABUNDANT_POWER");
                }
                let s = "ABUNDANT_POWER";
                assert(s@ =~= spec_upper_snake(self.spec_kebab_name()));
                s
            },
            Achivement::LowCarbonDioxide => {
                proof {
                    reveal_strlit("low-carbon-dioxide");
                    reveal_strlit("LOW_CARBON_DIOXIDE");
                }
                let s = "LOW_CARBON_DIOXIDE";
                assert(s@ =~= spec_upper_snake(self.spec_kebab_name()));
                s
            },
            Achivement::DestroyPlanet => {
                proof {
                    reveal_strlit("destroy-planet");
                    reveal_strlit("DESTROY_PLANET");
                }
                let s = "DESTROY_PLANET";
                assert(s@ =~= spec_upper_snake(self.spec_kebab_name()));
                s
            },
            Achivement::DarkClouds => {
                proof {
                    reveal_strlit("dark-clouds");
                    reveal_strlit("DARK_CLOUDS");
                }
                let s = "DARK_CLOUDS";
                assert(s@ =~= spec_upper_snake(self.spec_kebab_name()));
                s
            },
            Achivement::PlanetSculpting => {
                proof {
                    reveal_strlit("planet-sculpting");
                    reveal_strlit("PLANET_SCULPTING");
                }
                let s = "PLANET_SCULPTING";
                assert(s@ =~= spec_upper_snake(self.spec_kebab_name()));
                s
            },
        };
        String::from_str(s)
    }
}

/// A character of a kebab-case name in upper snake case.
pub open spec fn spec_upper_snake_char(c: char) -> char {
    if c == '-' {
        '_'
    } else if 'a' <= c && c <= 'z' {
        ((c as u32) - 32) as char
    } else {
        c
    }
}

pub open spec fn spec_upper_snake(s: Seq<char>) -> Seq<char> {
    s.map_values(|c: char| spec_upper_snake_char(c))
}

/// Every achievement, in the order of their numbers.
pub open spec fn spec_all_achivements() -> Seq<Achivement> {
    seq![
        Achivement::Grasslands, Achivement::Forests, Achivement::Animals, Achivement::Civilize, Achivement::GiantMirror, Achivement::GreenPlanet, Achivement::MeltedIce, Achivement::DesertGreening, Achivement::ArtificialBlueSky, Achivement::OceanParadise, Achivement::IndustrialRevolution, Achivement::InterSpeciesWar, Achivement::Pandemic, Achivement::StepTowardEcumenopolis, Achivement::MagicalEnergy, Achivement::Exodus, Achivement::AbundantPower, Achivement::LowCarbonDioxide, Achivement::DestroyPlanet, Achivement::DarkClouds, Achivement::PlanetSculpting,
    ]
}

/// Every achievement, in the order of their numbers.
pub fn all_achivements() -> (r: Vec<Achivement>)
    ensures
        r@ == spec_all_achivements(),
        forall|a: Achivement| r@.contains(a),
{
    let r = vec![
        Achivement::Grasslands, Achivement::Forests, Achivement::Animals, Achivement::Civilize, Achivement::GiantMirror, Achivement::GreenPlanet, Achivement::MeltedIce, Achivement::DesertGreening, Achivement::ArtificialBlueSky, Achivement::OceanParadise, Achivement::IndustrialRevolution, Achivement::InterSpeciesWar, Achivement::Pandemic, Achivement::StepTowardEcumenopolis, Achivement::MagicalEnergy, Achivement::Exodus, Achivement::AbundantPower, Achivement::LowCarbonDioxide, Achivement::DestroyPlanet, Achivement::DarkClouds, Achivement::PlanetSculpting,
    ];
    assert(r@ =~= spec_all_achivements());
    assert forall|a: Achivement| r@.contains(a) by {
        match a {
            Achivement::Grasslands => { assert(r@[0] == a); },
            Achivement::Forests => { assert(r@[1] == a); },
            Achivement::Animals => { assert(r@[2] == a); },
            Achivement::Civilize => { assert(r@[3] == a); },
            Achivement::GiantMirror => { assert(r@[4] == a); },
            Achivement::GreenPlanet => { assert(r@[5] == a); },
            Achivement::MeltedIce => { assert(r@[6] == a); },
            Achivement::DesertGreening => { assert(r@[7] == a); },
            Achivement::ArtificialBlueSky => { assert(r@[8] == a); },
            Achivement::OceanParadise => { assert(r@[9] == a); },
            Achivement::IndustrialRevolution => { assert(r@[10] == a); },
            Achivement::InterSpeciesWar => { assert(r@[11] == a); },
            Achivement::Pandemic => { assert(r@[12] == a); },
            Achivement::StepTowardEcumenopolis => { assert(r@[13] == a); },
            Achivement::MagicalEnergy => { assert(r@[14] == a); },
            Achivement::Exodus => { assert(r@[15] == a); },
            Achivement::AbundantPower => { assert(r@[16] == a); },
            Achivement::LowCarbonDioxide => { assert(r@[17] == a); },
            Achivement::DestroyPlanet => { assert(r@[18] == a); },
            Achivement::DarkClouds => { assert(r@[19] == a); },
            Achivement::PlanetSculpting => { assert(r@[20] == a); },
        }
    }
    r
}

/// Facts about the planet that rest on measured quantities, given by the
/// caller: each tells whether a measure passed the achievement's threshold.
#[derive(Clone, Copy, Debug)]
pub struct Gauges {
    /// The total biomass exceeds 2,000,000.
    pub biomass_over_green_planet: bool,
    /// The total biomass exceeds 600,000.
    pub biomass_over_desert_greening: bool,
    /// The atmospheric pressure is at least one atmosphere.
    pub pressure_at_least_one_atm: bool,
    /// The population of all civilizations exceeds 7,500,000.
    pub pop_over_ecumenopolis: bool,
    /// The power is at least 30,000.
    pub power_abundant: bool,
    /// The partial pressure of carbon dioxide is below 30 millionths.
    pub carbon_dioxide_low: bool,
    /// The biomass fell below one after the record of cycle 3000 had more than
    /// 500,000 biomass and more than 1,000 people.
    pub life_wiped_out: bool,
    /// The cloud albedo is at least 0.79.
    pub clouds_dark: bool,
}

/// Half the tiles of the map, rounded down.
pub open spec fn spec_half_tiles(p: Planet) -> int {
    (p.width * p.height) / 2
}

/// Some civilization is in the iron age and uses gift energy.
pub open spec fn spec_magical_energy(civs: Seq<(AnimalId, Civilization)>) -> bool {
    exists|i: int| 0 <= i < civs.len() && spec_current_age_index((#[trigger] civs[i]).1.total_settlement@)
        == 2 && civs[i].1.gift_energy_used
}

/// Whether the planet earns the achievement.
pub open spec fn spec_achieved(
    a: Achivement,
    p: Planet,
    g: Gauges,
    habitats: Seq<(AnimalId, AnimalHabitat)>,
) -> bool {
    let count = |q: TileQuery| spec_count_tiles(p.map@, q, habitats);
    match a {
        Achivement::Grasslands => spec_count_biome_tiles(p.map@, seq![Biome::Grassland]) >= 10,
        Achivement::Forests => spec_count_biome_tiles(
            p.map@,
            seq![Biome::BorealForest, Biome::TemperateForest, Biome::TropicalRainforest],
        ) >= 50,
        Achivement::Animals => count(TileQuery::AnyAnimal) > 0,
        Achivement::Civilize => count(TileQuery::SettlementOf(None)) > 0,
        Achivement::GreenPlanet => g.biomass_over_green_planet,
        Achivement::MeltedIce => p.origin@ == "ice"@ && spec_count_biome_tiles(
            p.map@,
            seq![Biome::IceField, Biome::SeaIce],
        ) == 0,
        Achivement::DesertGreening => p.origin@ == "desert"@ && g.biomass_over_desert_greening,
        Achivement::ArtificialBlueSky => p.origin@ == "barren"@ && g.pressure_at_least_one_atm,
        Achivement::OceanParadise => p.origin@ == "archipelago"@ && count(TileQuery::OceanAnimalAtSea)
            > spec_half_tiles(p),
        Achivement::IndustrialRevolution => count(TileQuery::SettlementAtLeast(CivilizationAge::IndustrialAge)) > 0,
        Achivement::Pandemic => count(TileQuery::Plague) > 1000,
        Achivement::StepTowardEcumenopolis => count(TileQuery::SettlementOf(None)) > spec_half_tiles(p)
            && g.pop_over_ecumenopolis,
        Achivement::MagicalEnergy => spec_magical_energy(p.civs@),
        Achivement::AbundantPower => g.power_abundant,
        Achivement::GiantMirror => p.space_buildings@[spec_space_building_index(SpaceBuildingKind::OrbitalMirror)].n
            >= 1,
        Achivement::LowCarbonDioxide => g.carbon_dioxide_low,
        Achivement::DestroyPlanet => p.civs@.len() == 0 && g.life_wiped_out,
        Achivement::DarkClouds => g.clouds_dark,
        _ => false,
    }
}

/// Whether the starting planet of `p` was the one named `name`.
fn origin_is(p: &Planet, name: &str) -> (r: bool)
    ensures
        r == (p.origin@ == name@),
{
    let other = String::from_str(name);
    p.origin == other
}

fn count_query(p: &Planet, q: TileQuery, habitats: &Vec<(AnimalId, AnimalHabitat)>) -> (r: usize)
    ensures
        r == spec_count_tiles(p.map@, q, habitats@),
{
    count_tiles(&p.map, &q, habitats)
}

fn magical_energy(civs: &Vec<(AnimalId, Civilization)>) -> (r: bool)
    ensures
        r == spec_magical_energy(civs@),
{
    let mut i: usize = 0;
    while i < civs.len()
        invariant
            0 <= i <= civs.len(),
            forall|j: int| 0 <= j < i ==> !(spec_current_age_index((#[trigger] civs@[j]).1.total_settlement@) == 2
                && civs@[j].1.gift_energy_used),
        decreases civs.len() - i,
    {
        let age = civs[i].1.current_age();
        if age == CivilizationAge::IronAge && civs[i].1.gift_energy_used {
            return true;
        }
        i += 1;
    }
    false
}

/// The number of tiles whose biome is in the list.
fn count_biomes(p: &Planet, biomes: Vec<Biome>, habitats: &Vec<(AnimalId, AnimalHabitat)>) -> (r: usize)
    ensures
        r == spec_count_biome_tiles(p.map@, biomes@),
{
    proof {
        crate::planet::lemma_count_biome_tiles(p.map@, biomes, habitats@);
    }
    count_tiles(&p.map, &TileQuery::BiomeIn(biomes), habitats)
}

impl Achivement {
    /// Whether the planet earns the achievement; `habitats` gives the habitat
    /// of each animal.
    pub fn check(self, planet: &Planet, gauges: &Gauges, habitats: &Vec<(AnimalId, AnimalHabitat)>) -> (r: bool)
        requires
            planet.wf(),
            planet.width * planet.height <= u32::MAX,
        ensures
            r == spec_achieved(self, *planet, *gauges, habitats@),
    {
        let half: usize = ((planet.width * planet.height) / 2) as usize;
        match self {
            Achivement::Grasslands => {
                let v = vec![Biome::Grassland];
                assert(v@ =~= seq![Biome::Grassland]);
                count_biomes(planet, v, habitats) >= 10
            },
            Achivement::Forests => {
                let v = vec![Biome::BorealForest, Biome::TemperateForest, Biome::TropicalRainforest];
                assert(v@ =~= seq![Biome::BorealForest, Biome::TemperateForest, Biome::TropicalRainforest]);
                count_biomes(planet, v, habitats) >= 50
            },
            Achivement::Animals => count_query(planet, TileQuery::AnyAnimal, habitats) > 0,
            Achivement::Civilize => count_query(planet, TileQuery::SettlementOf(None), habitats) > 0,
            Achivement::GreenPlanet => gauges.biomass_over_green_planet,
            Achivement::MeltedIce => {
                if !origin_is(planet, "ice") {
                    return false;
                }
                let v = vec![Biome::IceField, Biome::SeaIce];
                assert(v@ =~= seq![Biome::IceField, Biome::SeaIce]);
                count_biomes(planet, v, habitats) == 0
            },
            Achivement::DesertGreening => origin_is(planet, "desert") && gauges.biomass_over_desert_greening,
            Achivement::ArtificialBlueSky => origin_is(planet, "barren") && gauges.pressure_at_least_one_atm,
            Achivement::OceanParadise => origin_is(planet, "archipelago") && count_query(
                planet,
                TileQuery::OceanAnimalAtSea,
                habitats,
            ) > half,
            Achivement::IndustrialRevolution => count_query(
                planet,
                TileQuery::SettlementAtLeast(CivilizationAge::IndustrialAge),
                habitats,
            ) > 0,
            Achivement::Pandemic => count_query(planet, TileQuery::Plague, habitats) > 1000,
            Achivement::StepTowardEcumenopolis => count_query(planet, TileQuery::SettlementOf(None), habitats)
                > half && gauges.pop_over_ecumenopolis,
            Achivement::MagicalEnergy => magical_energy(&planet.civs),
            Achivement::AbundantPower => gauges.power_abundant,
            Achivement::GiantMirror => planet.space_building(SpaceBuildingKind::OrbitalMirror).n >= 1,
            Achivement::LowCarbonDioxide => gauges.carbon_dioxide_low,
            Achivement::DestroyPlanet => planet.civs.len() == 0 && gauges.life_wiped_out,
            Achivement::DarkClouds => gauges.clouds_dark,
            _ => false,
        }
    }
}

/// Whether the list holds the achievement.
pub fn list_contains(list: &Vec<Achivement>, a: Achivement) -> (r: bool)
    ensures
        r == list@.contains(a),
{
    let mut i: usize = 0;
    while i < list.len()
        invariant
            0 <= i <= list.len(),
            forall|j: int| 0 <= j < i ==> list@[j] != a,
        decreases list.len() - i,
    {
        if list[i] == a {
            return true;
        }
        i += 1;
    }
    false
}

/// The new achievements after going through `candidates` in order, adding
/// each that the planet earns, that is not unlocked and not there yet.
pub open spec fn spec_newly_earned(
    candidates: Seq<Achivement>,
    new: Seq<Achivement>,
    unlocked: Seq<Achivement>,
    p: Planet,
    g: Gauges,
    habitats: Seq<(AnimalId, AnimalHabitat)>,
) -> Seq<Achivement>
    decreases candidates.len(),
{
    if candidates.len() == 0 {
        new
    } else {
        let m = spec_newly_earned(candidates.drop_last(), new, unlocked, p, g, habitats);
        let a = candidates.last();
        if !unlocked.contains(a) && spec_achieved(a, p, g, habitats) && !m.contains(a) {
            m.push(a)
        } else {
            m
        }
    }
}

/// Adds to `new_achivements` each achievement that the planet earns and that
/// is not unlocked yet, once, in the order of their numbers.
pub fn check_achivements(
    planet: &Planet,
    unlocked_achivements: &Vec<Achivement>,
    new_achivements: &mut Vec<Achivement>,
    gauges: &Gauges,
    habitats: &Vec<(AnimalId, AnimalHabitat)>,
)
    requires
        planet.wf(),
        planet.width * planet.height <= u32::MAX,
        old(new_achivements)@.no_duplicates(),
    ensures
        final(new_achivements)@ == spec_newly_earned(
            spec_all_achivements(),
            old(new_achivements)@,
            unlocked_achivements@,
            *planet,
            *gauges,
            habitats@,
        ),
        final(new_achivements)@.no_duplicates(),
        forall|a: Achivement| #[trigger] final(new_achivements)@.contains(a) <==> (old(new_achivements)@.contains(a)
            || (!unlocked_achivements@.contains(a) && spec_achieved(a, *planet, *gauges, habitats@))),
{
    let all = all_achivements();
    let mut i: usize = 0;
    while i < all.len()
        invariant
            0 <= i <= all.len(),
            all@ == spec_all_achivements(),
            planet.wf(),
            planet.width * planet.height <= u32::MAX,
            new_achivements@.no_duplicates(),
            new_achivements@ == spec_newly_earned(
                all@.subrange(0, i as int),
                old(new_achivements)@,
                unlocked_achivements@,
                *planet,
                *gauges,
                habitats@,
            ),
            forall|a: Achivement| #[trigger] new_achivements@.contains(a) <==> (old(new_achivements)@.contains(a)
                || (all@.subrange(0, i as int).contains(a) && !unlocked_achivements@.contains(a) && spec_achieved(
                a,
                *planet,
                *gauges,
                habitats@,
            ))),
        decreases all.len() - i,
    {
        let a = all[i];
        let ghost prev = new_achivements@;
        assert(all@.subrange(0, i + 1).drop_last() =~= all@.subrange(0, i as int));
        let earned = !list_contains(unlocked_achivements, a) && a.check(planet, gauges, habitats);
        if earned {
            if !list_contains(new_achivements, a) {
                new_achivements.push(a);
                assert(new_achivements@.no_duplicates()) by {
                    assert forall|p: int, q: int| 0 <= p < q < new_achivements@.len() implies new_achivements@[p] != new_achivements@[q] by {
                        if q == prev.len() {
                            assert(prev[p] == new_achivements@[p]);
                        } else {
                            assert(prev[p] == new_achivements@[p] && prev[q] == new_achivements@[q]);
                        }
                    }
                }
                proof {
                    assert forall|x: Achivement| new_achivements@.contains(x) <==> (prev.contains(x) || x == a) by {
                        if new_achivements@.contains(x) && x != a {
                            let k = choose|k: int| 0 <= k < new_achivements@.len() && #[trigger] new_achivements@[k] == x;
                            assert(prev[k] == x);
                        }
                        if prev.contains(x) {
                            let k = choose|k: int| 0 <= k < prev.len() && #[trigger] prev[k] == x;
                            assert(new_achivements@[k] == x);
                        }
                        if x == a {
                            assert(new_achivements@[prev.len() as int] == x);
                        }
                    }
                }
            }
        }
        proof {
            assert forall|x: Achivement| all@.subrange(0, i + 1).contains(x) <==> (all@.subrange(0, i as int).contains(x) || x == a) by {
                if all@.subrange(0, i + 1).contains(x) {
                    let k = choose|k: int| 0 <= k < i + 1 && #[trigger] all@.subrange(0, i + 1)[k] == x;
                    if k < i {
                        assert(all@.subrange(0, i as int)[k] == x);
                    }
                }
                if all@.subrange(0, i as int).contains(x) {
                    let k = choose|k: int| 0 <= k < i && #[trigger] all@.subrange(0, i as int)[k] == x;
                    assert(all@.subrange(0, i + 1)[k] == x);
                }
                if x == a {
                    assert(all@.subrange(0, i + 1)[i as int] == x);
                }
            }
            assert(earned == (!unlocked_achivements@.contains(a) && spec_achieved(a, *planet, *gauges, habitats@)));
            assert forall|x: Achivement| #[trigger] new_achivements@.contains(x) <==> (old(new_achivements)@.contains(x)
                || (all@.subrange(0, i + 1).contains(x) && !unlocked_achivements@.contains(x) && spec_achieved(
                x,
                *planet,
                *gauges,
                habitats@,
            ))) by {
                if x != a {
                    assert(new_achivements@.contains(x) == prev.contains(x));
                }
            }
        }
        i += 1;
    }
    proof {
        assert(all@.subrange(0, all.len() as int) =~= all@);
        assert forall|a: Achivement| all@.contains(a) by {
            match a {
                _ => {
                    assert(spec_all_achivements().contains(a)) by {
                        lemma_all_contains(a);
                    }
                },
            }
        }
    }
}

proof fn lemma_all_contains(a: Achivement)
    ensures
        spec_all_achivements().contains(a),
{
    let s = spec_all_achivements();
    match a {
        Achivement::Grasslands => { assert(s[0] == a); },
        Achivement::Forests => { assert(s[1] == a); },
        Achivement::Animals => { assert(s[2] == a); },
        Achivement::Civilize => { assert(s[3] == a); },
        Achivement::GiantMirror => { assert(s[4] == a); },
        Achivement::GreenPlanet => { assert(s[5] == a); },
        Achivement::MeltedIce => { assert(s[6] == a); },
        Achivement::DesertGreening => { assert(s[7] == a); },
        Achivement::ArtificialBlueSky => { assert(s[8] == a); },
        Achivement::OceanParadise => { assert(s[9] == a); },
        Achivement::IndustrialRevolution => { assert(s[10] == a); },
        Achivement::InterSpeciesWar => { assert(s[11] == a); },
        Achivement::Pandemic => { assert(s[12] == a); },
        Achivement::StepTowardEcumenopolis => { assert(s[13] == a); },
        Achivement::MagicalEnergy => { assert(s[14] == a); },
        Achivement::Exodus => { assert(s[15] == a); },
        Achivement::AbundantPower => { assert(s[16] == a); },
        Achivement::LowCarbonDioxide => { assert(s[17] == a); },
        Achivement::DestroyPlanet => { assert(s[18] == a); },
        Achivement::DarkClouds => { assert(s[19] == a); },
        Achivement::PlanetSculpting => { assert(s[20] == a); },
    }
}

/// The unlocked list after taking in the new achievements in order, each one
/// that it does not hold yet.
pub open spec fn spec_merge_unlocked(unlocked: Seq<Achivement>, new: Seq<Achivement>) -> Seq<Achivement>
    decreases new.len(),
{
    if new.len() == 0 {
        unlocked
    } else {
        let m = spec_merge_unlocked(unlocked, new.drop_last());
        if m.contains(new.last()) {
            m
        } else {
            m.push(new.last())
        }
    }
}

/// The last of the new achievements that was not unlocked before it.
pub open spec fn spec_last_unlocked(unlocked: Seq<Achivement>, new: Seq<Achivement>) -> Option<Achivement>
    decreases new.len(),
{
    if new.len() == 0 {
        None
    } else if !spec_merge_unlocked(unlocked, new.drop_last()).contains(new.last()) {
        Some(new.last())
    } else {
        spec_last_unlocked(unlocked, new.drop_last())
    }
}

/// Moves the new achievements into the unlocked list, leaving `new_achivements`
/// empty; gives the last one that was not unlocked before, to be announced.
pub fn unlock(unlocked_achivements: &mut Vec<Achivement>, new_achivements: &mut Vec<Achivement>) -> (r: Option<Achivement>)
    ensures
        final(unlocked_achivements)@ == spec_merge_unlocked(old(unlocked_achivements)@, old(new_achivements)@),
        final(new_achivements)@.len() == 0,
        r == spec_last_unlocked(old(unlocked_achivements)@, old(new_achivements)@),
{
    let ghost u0 = unlocked_achivements@;
    let ghost n0 = new_achivements@;
    let mut last: Option<Achivement> = None;
    let mut i: usize = 0;
    while i < new_achivements.len()
        invariant
            0 <= i <= new_achivements.len(),
            new_achivements@ == n0,
            unlocked_achivements@ == spec_merge_unlocked(u0, n0.take(i as int)),
            last == spec_last_unlocked(u0, n0.take(i as int)),
        decreases new_achivements.len() - i,
    {
        assert(n0.take(i + 1).drop_last() =~= n0.take(i as int));
        let a = new_achivements[i];
        if !list_contains(unlocked_achivements, a) {
            unlocked_achivements.push(a);
            last = Some(a);
        }
        i += 1;
    }
    assert(n0.take(n0.len() as int) =~= n0);
    new_achivements.clear();
    last
}

/// Merging keeps every achievement once.
pub proof fn lemma_merge_unlocked(unlocked: Seq<Achivement>, new: Seq<Achivement>)
    requires
        unlocked.no_duplicates(),
    ensures
        spec_merge_unlocked(unlocked, new).no_duplicates(),
        forall|a: Achivement| #[trigger] spec_merge_unlocked(unlocked, new).contains(a) <==> (unlocked.contains(a)
            || new.contains(a)),
    decreases new.len(),
{
    if new.len() > 0 {
        lemma_merge_unlocked(unlocked, new.drop_last());
        let m = spec_merge_unlocked(unlocked, new.drop_last());
        assert forall|a: Achivement| #[trigger] spec_merge_unlocked(unlocked, new).contains(a) <==> (unlocked.contains(a)
            || new.contains(a)) by {
            if new.contains(a) && a != new.last() {
                let k = choose|k: int| 0 <= k < new.len() && #[trigger] new[k] == a;
                assert(new.drop_last()[k] == a);
            }
            if new.drop_last().contains(a) {
                let k = choose|k: int| 0 <= k < new.len() - 1 && #[trigger] new.drop_last()[k] == a;
                assert(new[k] == a);
            }
            if a == new.last() {
                assert(new[new.len() - 1] == a);
            }
            if !m.contains(new.last()) {
                assert(m.push(new.last())[m.len() as int] == new.last());
                if m.contains(a) {
                    let k = choose|k: int| 0 <= k < m.len() && #[trigger] m[k] == a;
                    assert(m.push(new.last())[k] == a);
                }
            }
        }
    }
}

/// Unlocking takes every new achievement in, keeps each once, and announces
/// one exactly when one was not unlocked before.
pub proof fn law_unlock(unlocked: Seq<Achivement>, new: Seq<Achivement>)
    requires
        unlocked.no_duplicates(),
    ensures
        spec_merge_unlocked(unlocked, new).no_duplicates(),
        forall|a: Achivement| #[trigger] spec_merge_unlocked(unlocked, new).contains(a) <==> (unlocked.contains(a)
            || new.contains(a)),
        spec_last_unlocked(unlocked, new) is Some <==> exists|a: Achivement| new.contains(a) && !unlocked.contains(a),
        spec_last_unlocked(unlocked, new) matches Some(a) ==> new.contains(a) && !unlocked.contains(a),
    decreases new.len(),
{
    lemma_merge_unlocked(unlocked, new);
    if new.len() > 0 {
        law_unlock(unlocked, new.drop_last());
        lemma_merge_unlocked(unlocked, new.drop_last());
        let last = new.last();
        assert(new[new.len() - 1] == last);
        assert forall|a: Achivement| new.drop_last().contains(a) implies new.contains(a) by {
            let k = choose|k: int| 0 <= k < new.len() - 1 && #[trigger] new.drop_last()[k] == a;
            assert(new[k] == a);
        }
        if exists|a: Achivement| new.contains(a) && !unlocked.contains(a) {
            let a = choose|a: Achivement| new.contains(a) && !unlocked.contains(a);
            if a != last {
                let k = choose|k: int| 0 <= k < new.len() && #[trigger] new[k] == a;
                assert(new.drop_last()[k] == a);
            }
        }
    }
}

/// What a periodic check of the achievements decided.
#[derive(Clone, Copy, Debug)]
pub struct AchivementCheck {
    /// The achievement to announce: the last one unlocked now.
    pub announce: Option<Achivement>,
    /// Whether the unlocked list changed and is to be written.
    pub save: bool,
}

/// Every `CHECK_ACHIVEMENT_INTERVAL_CYCLES` cycles, checks the achievements
/// and unlocks the new ones; on other cycles nothing is checked.
pub fn check_periodic(
    cycles: u64,
    planet: &Planet,
    gauges: &Gauges,
    habitats: &Vec<(AnimalId, AnimalHabitat)>,
    unlocked_achivements: &mut Vec<Achivement>,
    new_achivements: &mut Vec<Achivement>,
) -> (r: Option<AchivementCheck>)
    requires
        planet.wf(),
        planet.width * planet.height <= u32::MAX,
        old(new_achivements)@.no_duplicates(),
    ensures
        cycles % 10 != 0 ==> r is None && final(unlocked_achivements)@ == old(unlocked_achivements)@
            && final(new_achivements)@ == old(new_achivements)@,
        cycles % 10 == 0 ==> ({
            let earned = spec_newly_earned(
                spec_all_achivements(),
                old(new_achivements)@,
                old(unlocked_achivements)@,
                *planet,
                *gauges,
                habitats@,
            );
            let announce = spec_last_unlocked(old(unlocked_achivements)@, earned);
            &&& final(unlocked_achivements)@ == spec_merge_unlocked(old(unlocked_achivements)@, earned)
            &&& final(new_achivements)@.len() == 0
            &&& r == Some(AchivementCheck { announce, save: announce is Some })
        }),
{
    if cycles % crate::achivement_save::CHECK_ACHIVEMENT_INTERVAL_CYCLES != 0 {
        return None;
    }
    check_achivements(planet, unlocked_achivements, new_achivements, gauges, habitats);
    let announce = unlock(unlocked_achivements, new_achivements);
    Some(AchivementCheck { announce, save: announce.is_some() })
}

/// The achievements earned by what grows on the tiles: grasslands by ten
/// grassland tiles, forests by fifty boreal, temperate or tropical forest
/// tiles, and melted ice, on the ice planet, by no ice sheet and no sea ice
/// left on any tile.
pub proof fn law_biome_achievements(p: Planet, g: Gauges, h: Seq<(AnimalId, AnimalHabitat)>)
    ensures
        spec_achieved(Achivement::Grasslands, p, g, h) == (spec_tiles_where(
            p.map@,
            |t: Tile| t.biome == Biome::Grassland,
        ) >= 10),
        spec_achieved(Achivement::Forests, p, g, h) == (spec_tiles_where(
            p.map@,
            |t: Tile| t.biome == Biome::BorealForest || t.biome == Biome::TemperateForest || t.biome
                == Biome::TropicalRainforest,
        ) >= 50),
        spec_achieved(Achivement::MeltedIce, p, g, h) == (p.origin@ == "ice"@ && forall|i: int|
            0 <= i < p.map@.len() ==> (#[trigger] p.map@[i]).biome != Biome::IceField && p.map@[i].biome
                != Biome::SeaIce),
        forall|i: int|
            0 <= i < p.map@.len() && ((#[trigger] p.map@[i]).biome == Biome::IceField || p.map@[i].biome
                == Biome::SeaIce) ==> !spec_achieved(Achivement::MeltedIce, p, g, h),
{
    let grass = seq![Biome::Grassland];
    let pg = |t: Tile| t.biome == Biome::Grassland;
    assert forall|t: Tile| #[trigger] pg(t) == grass.contains(t.biome) by {
        if t.biome == Biome::Grassland {
            assert(grass[0] == t.biome);
        }
    }
    lemma_biome_count_where(p.map@, grass, pg);

    let forest = seq![Biome::BorealForest, Biome::TemperateForest, Biome::TropicalRainforest];
    let pf = |t: Tile| t.biome == Biome::BorealForest || t.biome == Biome::TemperateForest || t.biome
        == Biome::TropicalRainforest;
    assert forall|t: Tile| #[trigger] pf(t) == forest.contains(t.biome) by {
        if t.biome == Biome::BorealForest {
            assert(forest[0] == t.biome);
        } else if t.biome == Biome::TemperateForest {
            assert(forest[1] == t.biome);
        } else if t.biome == Biome::TropicalRainforest {
            assert(forest[2] == t.biome);
        }
    }
    lemma_biome_count_where(p.map@, forest, pf);

    let ice = seq![Biome::IceField, Biome::SeaIce];
    let pi = |t: Tile| t.biome == Biome::IceField || t.biome == Biome::SeaIce;
    assert forall|t: Tile| #[trigger] pi(t) == ice.contains(t.biome) by {
        if t.biome == Biome::IceField {
            assert(ice[0] == t.biome);
        } else if t.biome == Biome::SeaIce {
            assert(ice[1] == t.biome);
        }
    }
    lemma_biome_count_where(p.map@, ice, pi);
    lemma_tiles_where_none(p.map@, pi);
}

/// The achievements earned by what lives and stands on the tiles: animals by
/// any animal on any tile, civilizing by any settlement, the industrial
/// revolution by a settlement of the industrial age or later, a pandemic by
/// more than a thousand tiles with the plague, the ocean paradise (on the
/// archipelago planet) by more than half the tiles being sea with an animal
/// living in the ocean, and the step toward an ecumenopolis by settlements
/// on more than half the tiles and a large population.
pub proof fn law_tile_achievements(p: Planet, g: Gauges, h: Seq<(AnimalId, AnimalHabitat)>)
    ensures
        spec_achieved(Achivement::Animals, p, g, h) == exists|i: int|
            0 <= i < p.map@.len() && ((#[trigger] p.map@[i]).animal@[0] is Some || p.map@[i].animal@[1] is Some
                || p.map@[i].animal@[2] is Some),
        spec_achieved(Achivement::Civilize, p, g, h) == exists|i: int|
            0 <= i < p.map@.len() && ((#[trigger] p.map@[i]).structure matches Some(Structure::Settlement(_))),
        spec_achieved(Achivement::IndustrialRevolution, p, g, h) == exists|i: int|
            0 <= i < p.map@.len() && ((#[trigger] p.map@[i]).structure matches Some(Structure::Settlement(st))
                && spec_age_index(st.age) >= spec_age_index(CivilizationAge::IndustrialAge)),
        spec_achieved(Achivement::Pandemic, p, g, h) == (spec_tiles_where(
            p.map@,
            |t: Tile| spec_find(tile_event_list(t.tile_events), TileEventKind::Plague) is Some,
        ) > 1000),
        spec_achieved(Achivement::OceanParadise, p, g, h) == (p.origin@ == "archipelago"@ && spec_tiles_where(
            p.map@,
            |t: Tile| spec_is_sea(t.biome) && (spec_ocean_animal(h, t.animal@[0]) || spec_ocean_animal(h, t.animal@[1])
                || spec_ocean_animal(h, t.animal@[2])),
        ) > (p.width * p.height) / 2),
        spec_achieved(Achivement::StepTowardEcumenopolis, p, g, h) == (spec_tiles_where(
            p.map@,
            |t: Tile| t.structure matches Some(Structure::Settlement(_)),
        ) > (p.width * p.height) / 2 && g.pop_over_ecumenopolis),
{
    let pa = |t: Tile| t.animal@[0] is Some || t.animal@[1] is Some || t.animal@[2] is Some;
    lemma_query_count_where(p.map@, TileQuery::AnyAnimal, h, pa);
    lemma_tiles_where_none(p.map@, pa);

    let ps = |t: Tile| t.structure matches Some(Structure::Settlement(_));
    lemma_query_count_where(p.map@, TileQuery::SettlementOf(None), h, ps);
    lemma_tiles_where_none(p.map@, ps);

    let pr = |t: Tile| t.structure matches Some(Structure::Settlement(st)) && spec_age_index(st.age) >= spec_age_index(
        CivilizationAge::IndustrialAge,
    );
    lemma_query_count_where(p.map@, TileQuery::SettlementAtLeast(CivilizationAge::IndustrialAge), h, pr);
    lemma_tiles_where_none(p.map@, pr);

    let pp = |t: Tile| spec_find(tile_event_list(t.tile_events), TileEventKind::Plague) is Some;
    lemma_query_count_where(p.map@, TileQuery::Plague, h, pp);

    let po = |t: Tile| spec_is_sea(t.biome) && (spec_ocean_animal(h, t.animal@[0]) || spec_ocean_animal(h, t.animal@[1])
        || spec_ocean_animal(h, t.animal@[2]));
    lemma_query_count_where(p.map@, TileQuery::OceanAnimalAtSea, h, po);

    if spec_tiles_where(p.map@, pa) > 0 {
        let i = choose|i: int| 0 <= i < p.map@.len() && pa(#[trigger] p.map@[i]);
    }
    if spec_tiles_where(p.map@, ps) > 0 {
        let i = choose|i: int| 0 <= i < p.map@.len() && ps(#[trigger] p.map@[i]);
    }
    if spec_tiles_where(p.map@, pr) > 0 {
        let i = choose|i: int| 0 <= i < p.map@.len() && pr(#[trigger] p.map@[i]);
    }
}

/// The achievements earned by the civilizations, the buildings and the
/// gauges: each by its own gauge or condition, and never those that other
/// events unlock.
pub proof fn law_state_achievements(p: Planet, g: Gauges, h: Seq<(AnimalId, AnimalHabitat)>)
    ensures
        spec_achieved(Achivement::GreenPlanet, p, g, h) == g.biomass_over_green_planet,
        spec_achieved(Achivement::DesertGreening, p, g, h) == (p.origin@ == "desert"@ && g.biomass_over_desert_greening),
        spec_achieved(Achivement::ArtificialBlueSky, p, g, h) == (p.origin@ == "barren"@ && g.pressure_at_least_one_atm),
        spec_achieved(Achivement::MagicalEnergy, p, g, h) == exists|j: int|
            0 <= j < p.civs@.len() && spec_current_age_index((#[trigger] p.civs@[j]).1.total_settlement@)
                == spec_age_index(CivilizationAge::IronAge) && p.civs@[j].1.gift_energy_used,
        spec_achieved(Achivement::AbundantPower, p, g, h) == g.power_abundant,
        spec_achieved(Achivement::GiantMirror, p, g, h) == (p.space_buildings@[spec_space_building_index(
            SpaceBuildingKind::OrbitalMirror,
        )].n >= 1),
        spec_achieved(Achivement::LowCarbonDioxide, p, g, h) == g.carbon_dioxide_low,
        spec_achieved(Achivement::DestroyPlanet, p, g, h) == (p.civs@.len() == 0 && g.life_wiped_out),
        spec_achieved(Achivement::DarkClouds, p, g, h) == g.clouds_dark,
        !spec_achieved(Achivement::InterSpeciesWar, p, g, h),
        !spec_achieved(Achivement::Exodus, p, g, h),
        !spec_achieved(Achivement::PlanetSculpting, p, g, h),
{
}

} // verus!
