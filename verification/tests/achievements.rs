use gaia_maker::achivement::{
    all_achivements, check_achivements, check_periodic, list_contains, unlock, Achivement, Gauges,
};
use gaia_maker::achivement_save::{decode_unlocked, encode_unlocked, AchivementDataError};
use gaia_maker::animal_id::animal_id_from_str;
use gaia_maker::defs::{AnimalHabitat, Biome, BuildingControl, CivilizationAge, SpaceBuildingKind};
use gaia_maker::geom::Coords;
use gaia_maker::planet::{Animal, Civilization, Planet, Settlement, Structure};
use gaia_maker::tile_events::TileEvent;

fn no_gauges() -> Gauges {
    Gauges {
        biomass_over_green_planet: false,
        biomass_over_desert_greening: false,
        pressure_at_least_one_atm: false,
        pop_over_ecumenopolis: false,
        power_abundant: false,
        carbon_dioxide_low: false,
        life_wiped_out: false,
        clouds_dark: false,
    }
}

fn set_biome(planet: &mut Planet, n: usize, biome: Biome) {
    for i in 0..n {
        planet.map[i].biome = biome;
    }
}

#[test]
fn achievement_numbers_round_trip() {
    for a in all_achivements() {
        assert_eq!(Achivement::from_u16(a.code()), Some(a));
    }
    assert_eq!(Achivement::Grasslands.code(), 1);
    assert_eq!(Achivement::MeltedIce.code(), 101);
    assert_eq!(Achivement::IndustrialRevolution.code(), 201);
    assert_eq!(Achivement::PlanetSculpting.code(), 305);
    assert_eq!(Achivement::from_u16(0), None);
    assert_eq!(Achivement::from_u16(7), None);
    assert_eq!(Achivement::from_u16(306), None);
}

#[test]
fn all_achievements_in_number_order() {
    let all = all_achivements();
    assert_eq!(all.len(), 21);
    assert_eq!(all[0], Achivement::Grasslands);
    assert_eq!(all[20], Achivement::PlanetSculpting);
    for w in all.windows(2) {
        assert!(w[0].code() < w[1].code());
    }
}

#[test]
fn achievement_names() {
    assert_eq!(Achivement::GreenPlanet.kebab_name(), "green-planet");
    assert_eq!(Achivement::GreenPlanet.upper_snake_case(), "GREEN_PLANET");
    assert_eq!(Achivement::StepTowardEcumenopolis.upper_snake_case(), "STEP_TOWARD_ECUMENOPOLIS");
    assert_eq!(Achivement::Exodus.upper_snake_case(), "EXODUS");
    for a in all_achivements() {
        assert_eq!(a.upper_snake_case(), a.kebab_name().replace('-', "_").to_uppercase());
    }
}

#[test]
fn grasslands_need_ten_tiles() {
    let mut planet = Planet::with_size(4, 4, "earth".to_string());
    let g = no_gauges();
    let h = Vec::new();
    set_biome(&mut planet, 9, Biome::Grassland);
    assert!(!Achivement::Grasslands.check(&planet, &g, &h));
    set_biome(&mut planet, 10, Biome::Grassland);
    assert!(Achivement::Grasslands.check(&planet, &g, &h));
}

#[test]
fn forests_need_fifty_tiles() {
    let mut planet = Planet::with_size(10, 10, "earth".to_string());
    let g = no_gauges();
    let h = Vec::new();
    for i in 0..50 {
        planet.map[i].biome = match i % 3 {
            0 => Biome::BorealForest,
            1 => Biome::TemperateForest,
            _ => Biome::TropicalRainforest,
        };
    }
    assert!(Achivement::Forests.check(&planet, &g, &h));
    planet.map[0].biome = Biome::Grassland;
    assert!(!Achivement::Forests.check(&planet, &g, &h));
}

#[test]
fn melted_ice_only_on_ice_planet() {
    let mut planet = Planet::with_size(3, 3, "ice".to_string());
    let g = no_gauges();
    let h = Vec::new();
    assert!(Achivement::MeltedIce.check(&planet, &g, &h));
    planet.map[4].biome = Biome::SeaIce;
    assert!(!Achivement::MeltedIce.check(&planet, &g, &h));
    let other = Planet::with_size(3, 3, "desert".to_string());
    assert!(!Achivement::MeltedIce.check(&other, &g, &h));
}

#[test]
fn animals_and_civilize() {
    let mut planet = Planet::with_size(3, 3, "earth".to_string());
    let g = no_gauges();
    let h = Vec::new();
    let fox = animal_id_from_str("fox").unwrap();
    assert!(!Achivement::Animals.check(&planet, &g, &h));
    planet.map[2].animal[1] = Some(Animal { id: fox });
    assert!(Achivement::Animals.check(&planet, &g, &h));
    assert!(!Achivement::Civilize.check(&planet, &g, &h));
    assert!(!Achivement::IndustrialRevolution.check(&planet, &g, &h));
    planet.map[5].structure = Some(Structure::Settlement(Settlement { id: fox, age: CivilizationAge::IronAge }));
    assert!(Achivement::Civilize.check(&planet, &g, &h));
    assert!(!Achivement::IndustrialRevolution.check(&planet, &g, &h));
    planet.map[5].structure =
        Some(Structure::Settlement(Settlement { id: fox, age: CivilizationAge::AtomicAge }));
    assert!(Achivement::IndustrialRevolution.check(&planet, &g, &h));
}

#[test]
fn ocean_paradise_needs_more_than_half_the_tiles() {
    let mut planet = Planet::with_size(2, 2, "archipelago".to_string());
    let g = no_gauges();
    let whale = animal_id_from_str("whale").unwrap();
    let h = vec![(whale, AnimalHabitat::Sea)];
    for i in 0..4 {
        planet.map[i].biome = Biome::Ocean;
    }
    planet.map[0].animal[2] = Some(Animal { id: whale });
    planet.map[1].animal[2] = Some(Animal { id: whale });
    assert!(!Achivement::OceanParadise.check(&planet, &g, &h));
    planet.map[2].animal[2] = Some(Animal { id: whale });
    assert!(Achivement::OceanParadise.check(&planet, &g, &h));
    let no_habitats = Vec::new();
    assert!(!Achivement::OceanParadise.check(&planet, &g, &no_habitats));
}

#[test]
fn pandemic_needs_more_than_a_thousand_tiles() {
    let mut planet = Planet::with_size(40, 26, "earth".to_string());
    let g = no_gauges();
    let h = Vec::new();
    for i in 0..1000 {
        planet.map[i].tile_events.insert(TileEvent::Plague { i: 0, cured: false });
    }
    assert!(!Achivement::Pandemic.check(&planet, &g, &h));
    planet.map[1000].tile_events.insert(TileEvent::Plague { i: 0, cured: true });
    assert!(Achivement::Pandemic.check(&planet, &g, &h));
}

#[test]
fn giant_mirror_and_gauges() {
    let mut planet = Planet::with_size(2, 2, "barren".to_string());
    let mut g = no_gauges();
    let h = Vec::new();
    assert!(!Achivement::GiantMirror.check(&planet, &g, &h));
    planet.build_space_building(SpaceBuildingKind::OrbitalMirror, BuildingControl::IncreaseRate);
    assert!(Achivement::GiantMirror.check(&planet, &g, &h));
    g.pressure_at_least_one_atm = true;
    assert!(Achivement::ArtificialBlueSky.check(&planet, &g, &h));
    g.life_wiped_out = true;
    assert!(Achivement::DestroyPlanet.check(&planet, &g, &h));
    let fox = animal_id_from_str("fox").unwrap();
    planet.civs.push((fox, Civilization { total_settlement: [0; 6], pop_growth: 0, gift_energy_used: false }));
    assert!(!Achivement::DestroyPlanet.check(&planet, &g, &h));
    assert!(!Achivement::InterSpeciesWar.check(&planet, &g, &h));
}

#[test]
fn magical_energy_in_iron_age() {
    let mut planet = Planet::with_size(2, 2, "earth".to_string());
    let g = no_gauges();
    let h = Vec::new();
    let fox = animal_id_from_str("fox").unwrap();
    planet.civs.push((fox, Civilization { total_settlement: [1, 0, 3, 0, 0, 0], pop_growth: 0, gift_energy_used: true }));
    assert!(Achivement::MagicalEnergy.check(&planet, &g, &h));
    planet.civs[0].1.total_settlement[3] = 1;
    assert!(!Achivement::MagicalEnergy.check(&planet, &g, &h));
}

#[test]
fn check_adds_each_new_achievement_once() {
    let mut planet = Planet::with_size(4, 4, "earth".to_string());
    set_biome(&mut planet, 10, Biome::Grassland);
    let mut g = no_gauges();
    g.power_abundant = true;
    let h = Vec::new();
    let unlocked = vec![Achivement::AbundantPower];
    let mut new = vec![Achivement::Grasslands];
    check_achivements(&planet, &unlocked, &mut new, &g, &h);
    assert_eq!(new, vec![Achivement::Grasslands]);
    let mut fresh = Vec::new();
    check_achivements(&planet, &Vec::new(), &mut fresh, &g, &h);
    assert_eq!(fresh, vec![Achivement::Grasslands, Achivement::AbundantPower]);
}

#[test]
fn unlocking_announces_the_last_new_one() {
    let mut unlocked = vec![Achivement::Forests];
    let mut new = vec![Achivement::Grasslands, Achivement::Forests, Achivement::Pandemic];
    let announced = unlock(&mut unlocked, &mut new);
    assert_eq!(announced, Some(Achivement::Pandemic));
    assert!(new.is_empty());
    assert_eq!(unlocked, vec![Achivement::Forests, Achivement::Grasslands, Achivement::Pandemic]);
    let mut again = vec![Achivement::Forests];
    assert_eq!(unlock(&mut unlocked, &mut again), None);
    assert_eq!(unlocked.len(), 3);
    assert!(list_contains(&unlocked, Achivement::Pandemic));
    assert!(!list_contains(&unlocked, Achivement::Exodus));
}

#[test]
fn periodic_check_every_ten_cycles() {
    let mut planet = Planet::with_size(4, 4, "earth".to_string());
    set_biome(&mut planet, 10, Biome::Grassland);
    let g = no_gauges();
    let h = Vec::new();
    let mut unlocked = Vec::new();
    let mut new = Vec::new();
    assert!(check_periodic(11, &planet, &g, &h, &mut unlocked, &mut new).is_none());
    assert!(unlocked.is_empty());
    let r = check_periodic(20, &planet, &g, &h, &mut unlocked, &mut new).unwrap();
    assert_eq!(r.announce, Some(Achivement::Grasslands));
    assert!(r.save);
    assert_eq!(unlocked, vec![Achivement::Grasslands]);
    let r = check_periodic(30, &planet, &g, &h, &mut unlocked, &mut new).unwrap();
    assert_eq!(r.announce, None);
    assert!(!r.save);
}

#[test]
fn unlocked_data_known_text() {
    let list = vec![Achivement::Grasslands, Achivement::MeltedIce, Achivement::PlanetSculpting];
    // [1, 101, 305] as MessagePack: 0x93 0x01 0x65 0xcd 0x01 0x31
    assert_eq!(encode_unlocked(&list), "kwFlzQEx");
    let d = decode_unlocked("kwFlzQEx").unwrap();
    assert_eq!(d.achivements, list);
    assert!(d.unknown.is_empty());
}

#[test]
fn unlocked_data_round_trip() {
    let list = all_achivements();
    let text = encode_unlocked(&list);
    let d = decode_unlocked(&text).unwrap();
    assert_eq!(d.achivements, list);
    assert!(d.unknown.is_empty());
    let empty = encode_unlocked(&Vec::new());
    assert_eq!(empty, "kA==");
    assert!(decode_unlocked(&empty).unwrap().achivements.is_empty());
}

#[test]
fn unlocked_data_errors_and_unknown_numbers() {
    assert_eq!(decode_unlocked("not base64!").unwrap_err(), AchivementDataError::InvalidBase64);
    // "wA==" is the single byte 0xc0 (nil), no array
    assert_eq!(decode_unlocked("wA==").unwrap_err(), AchivementDataError::InvalidData);
    // [7, 1, 1] as MessagePack is 0x93 0x07 0x01 0x01
    let d = decode_unlocked("kwcBAQ==").unwrap();
    assert_eq!(d.achivements, vec![Achivement::Grasslands]);
    assert_eq!(d.unknown, vec![7]);
}

#[test]
fn planet_origin_compares_whole_text() {
    let planet = Planet::with_size(1, 1, "desert".to_string());
    let mut g = no_gauges();
    g.biomass_over_desert_greening = true;
    assert!(Achivement::DesertGreening.check(&planet, &g, &Vec::new()));
    let planet = Planet::with_size(1, 1, "deserts".to_string());
    assert!(!Achivement::DesertGreening.check(&planet, &g, &Vec::new()));
    let _ = Coords(0, 0);
}
