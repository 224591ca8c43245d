use gaia_maker::animal_id::animal_id_from_str;
use gaia_maker::defs::{
    AnimalSize, Biome, Building, BuildingControl, BuildingControlValue, CivilizationAge, GasKind,
    SpaceBuildingKind, StructureKind,
};
use gaia_maker::events::{Events, PlanetEvent};
use gaia_maker::geom::Coords;
use gaia_maker::planet::{
    advance_tile_events, advance_tile_nuclear_explosion, cause_plague, count_tiles, habitat_of, new_structure, Animal, Civilization,
    Planet, Settlement, Structure, Tile, TileQuery,
};
use gaia_maker::requirement::Requirement;
use gaia_maker::tile_events::{TileEvent, TileEventKind};

fn settlement(name: &str, age: CivilizationAge) -> Structure {
    Structure::Settlement(Settlement { id: animal_id_from_str(name).unwrap(), age })
}

#[test]
fn blank_planet() {
    let planet = Planet::with_size(3, 2, "ice".to_string());
    assert_eq!(planet.map.len(), 6);
    assert_eq!(planet.n_tile(), 6);
    assert_eq!(planet.space_buildings.len(), 8);
    assert!(planet.map.iter().all(|t| t.biome == Biome::Rock && t.structure.is_none()));
    assert!(planet.in_range(Coords(2, 1)));
    assert!(!planet.in_range(Coords(3, 0)));
    assert!(!planet.in_range(Coords(0, -1)));
}

#[test]
fn tiles_are_kept_row_by_row() {
    let mut planet = Planet::with_size(3, 2, "ice".to_string());
    planet.map[4].biome = Biome::Tundra;
    assert_eq!(planet.tile(Coords(1, 1)).biome, Biome::Tundra);
    assert_eq!(planet.tile(Coords(0, 1)).biome, Biome::Rock);
}

#[test]
fn place_and_demolish() {
    let mut planet = Planet::with_size(3, 3, "earth".to_string());
    let p = Coords(1, 2);
    assert!(planet.placeable(p));
    assert!(!planet.placeable(Coords(5, 0)));
    planet.place(p, Structure::Heater);
    assert!(!planet.placeable(p));
    assert_eq!(planet.tile(p).structure.unwrap().kind(), StructureKind::Heater);
    assert!(planet.demolition(p));
    assert!(planet.placeable(p));
    assert!(!planet.demolition(p));
    planet.place(p, settlement("fox", CivilizationAge::StoneAge));
    assert!(!planet.demolition(p));
    assert_eq!(planet.tile(p).structure.unwrap().kind(), StructureKind::Settlement);
}

#[test]
fn build_then_demolish_space_buildings() {
    let mut planet = Planet::with_size(1, 1, "earth".to_string());
    planet.build_space_building(SpaceBuildingKind::OrbitalMirror, BuildingControl::IncreaseRate);
    assert_eq!(
        *planet.space_building(SpaceBuildingKind::OrbitalMirror),
        Building { n: 1, control: BuildingControlValue::IncreaseRate(0) }
    );
    planet.space_buildings[3].control = BuildingControlValue::IncreaseRate(5);
    planet.build_space_building(SpaceBuildingKind::OrbitalMirror, BuildingControl::IncreaseRate);
    assert_eq!(planet.space_building(SpaceBuildingKind::OrbitalMirror).control, BuildingControlValue::IncreaseRate(5));
    planet.demolish_space_building(SpaceBuildingKind::OrbitalMirror, 1);
    assert_eq!(
        *planet.space_building(SpaceBuildingKind::OrbitalMirror),
        Building { n: 1, control: BuildingControlValue::IncreaseRate(5) }
    );
    planet.demolish_space_building(SpaceBuildingKind::OrbitalMirror, 10);
    assert_eq!(*planet.space_building(SpaceBuildingKind::OrbitalMirror), Building::default());
    planet.build_space_building(SpaceBuildingKind::FusionReactor, BuildingControl::AlwaysEnabled);
    assert_eq!(
        *planet.space_building(SpaceBuildingKind::FusionReactor),
        Building { n: 1, control: BuildingControlValue::AlwaysEnabled }
    );
    assert_eq!(planet.space_building(SpaceBuildingKind::FusionReactor).enabled(), 1);
}

#[test]
fn current_age_is_the_most_advanced_with_settlements() {
    let civ = Civilization { total_settlement: [3, 0, 2, 0, 0, 0], pop_growth: 0, gift_energy_used: false };
    assert_eq!(civ.current_age(), CivilizationAge::IronAge);
    let none = Civilization { total_settlement: [0; 6], pop_growth: 0, gift_energy_used: false };
    assert_eq!(none.current_age(), CivilizationAge::StoneAge);
    let space = Civilization { total_settlement: [0, 0, 0, 0, 0, 9], pop_growth: 0, gift_energy_used: false };
    assert_eq!(space.current_age(), CivilizationAge::EarlySpaceAge);
}

#[test]
fn largest_and_named_animals() {
    let mut tile = Tile::default();
    assert!(tile.largest_animal().is_none());
    let fox = animal_id_from_str("fox").unwrap();
    let bear = animal_id_from_str("bear").unwrap();
    tile.animal[0] = Some(Animal { id: fox });
    assert_eq!(tile.largest_animal().unwrap().id, fox);
    tile.animal[2] = Some(Animal { id: bear });
    assert_eq!(tile.largest_animal().unwrap().id, bear);
    assert!(tile.get_animal(&fox, AnimalSize::Small).is_some());
    assert!(tile.get_animal(&fox, AnimalSize::Large).is_none());
    assert!(tile.get_animal(&bear, AnimalSize::Medium).is_none());
}

#[test]
fn habitats_are_looked_up_by_animal() {
    let fox = animal_id_from_str("fox").unwrap();
    let whale = animal_id_from_str("whale").unwrap();
    let list = vec![
        (fox, gaia_maker::defs::AnimalHabitat::Land),
        (whale, gaia_maker::defs::AnimalHabitat::Sea),
        (fox, gaia_maker::defs::AnimalHabitat::Sea),
    ];
    assert_eq!(habitat_of(&list, &fox), Some(&gaia_maker::defs::AnimalHabitat::Land));
    assert_eq!(habitat_of(&list, &whale), Some(&gaia_maker::defs::AnimalHabitat::Sea));
    assert_eq!(habitat_of(&list, &animal_id_from_str("cat").unwrap()), None);
}

#[test]
fn requirements() {
    let mut planet = Planet::with_size(4, 4, "earth".to_string());
    let fox = animal_id_from_str("fox").unwrap();
    planet.place(Coords(0, 0), Structure::OxygenGenerator);
    planet.place(Coords(1, 0), Structure::OxygenGenerator);
    planet.place(Coords(2, 0), settlement("fox", CivilizationAge::StoneAge));
    planet.map[5].biome = Biome::Desert;
    planet.map[6].biome = Biome::Desert;
    planet.map[7].animal[1] = Some(Animal { id: fox });
    let r = Requirement::StructureBuilt { kind: StructureKind::OxygenGenerator, n: 2 };
    assert!(r.check(&planet, false));
    let r = Requirement::StructureBuilt { kind: StructureKind::OxygenGenerator, n: 3 };
    assert!(!r.check(&planet, false));
    let r = Requirement::BiomeTiles { biomes: vec![Biome::Desert, Biome::Tundra], n: 2 };
    assert!(r.check(&planet, false));
    let r = Requirement::BiomeTiles { biomes: vec![Biome::Tundra], n: 1 };
    assert!(!r.check(&planet, false));
    let r = Requirement::AnimalTiles { id: fox, size: AnimalSize::Medium, n: 1 };
    assert!(r.check(&planet, false));
    let r = Requirement::AnimalTiles { id: fox, size: AnimalSize::Small, n: 1 };
    assert!(!r.check(&planet, false));
    let r = Requirement::Settlements { n: 1, animal_id: Some(fox) };
    assert!(r.check(&planet, false));
    let r = Requirement::Settlements { n: 1, animal_id: Some(animal_id_from_str("cat").unwrap()) };
    assert!(!r.check(&planet, false));
    let r = Requirement::Settlements { n: 2, animal_id: None };
    assert!(!r.check(&planet, false));
    let r = Requirement::PartialPressureHigherThan { kind: GasKind::Oxygen };
    assert!(r.check(&planet, true));
    assert!(!r.check(&planet, false));
    let r = Requirement::SpaceBuildingBuilt { kind: SpaceBuildingKind::DysonSwarmUnit, n: 1 };
    assert!(!r.check(&planet, false));
    planet.build_space_building(SpaceBuildingKind::DysonSwarmUnit, BuildingControl::AlwaysEnabled);
    assert!(r.check(&planet, false));
}

#[test]
fn control_requirements() {
    let mut planet = Planet::with_size(1, 1, "earth".to_string());
    let fox = animal_id_from_str("fox").unwrap();
    let r = Requirement::CivPopGrowthAdjust { range: 5..=10 };
    assert!(!r.check(&planet, false));
    planet.civs.push((fox, Civilization { total_settlement: [1, 0, 0, 0, 0, 0], pop_growth: 10, gift_energy_used: false }));
    assert!(r.check(&planet, false));
    planet.civs[0].1.pop_growth = 11;
    assert!(!r.check(&planet, false));
    let r = Requirement::OrbitalMirrorAdjust { range: -3..=-1 };
    assert!(!r.check(&planet, false));
    planet.build_space_building(SpaceBuildingKind::OrbitalMirror, BuildingControl::IncreaseRate);
    assert!(!r.check(&planet, false));
    planet.space_buildings[3].control = BuildingControlValue::IncreaseRate(-2);
    assert!(r.check(&planet, false));
}

#[test]
fn counting_tiles() {
    let mut planet = Planet::with_size(3, 1, "earth".to_string());
    planet.map[0].biome = Biome::Ocean;
    planet.map[2].biome = Biome::SeaIce;
    let q = TileQuery::BiomeIn(vec![Biome::Ocean, Biome::SeaIce]);
    assert_eq!(count_tiles(&planet.map, &q, &Vec::new()), 2);
    assert_eq!(count_tiles(&planet.map, &TileQuery::AnyAnimal, &Vec::new()), 0);
}

#[test]
fn fire_burns_settlement_and_animals() {
    let mut tile = Tile::default();
    let fox = animal_id_from_str("fox").unwrap();
    tile.structure = Some(settlement("fox", CivilizationAge::StoneAge));
    tile.animal[0] = Some(Animal { id: fox });
    tile.tile_events.insert(TileEvent::Fire);
    tile.tile_events.insert(TileEvent::War { i: 0, offence: fox });
    let r = advance_tile_events(&mut tile, false, 1);
    assert!(r.fire);
    assert!(!r.aerosol_injected);
    assert!(!r.war_combat_due);
    assert!(tile.structure.is_none());
    assert!(tile.animal.iter().all(|a| a.is_none()));
    assert!(tile.tile_events.contains(TileEventKind::Fire));
    assert!(!tile.tile_events.contains(TileEventKind::War));
    let r = advance_tile_events(&mut tile, true, 1);
    assert!(r.fire);
    assert!(!tile.tile_events.contains(TileEventKind::Fire));
}

#[test]
fn fire_spares_other_structures() {
    let mut tile = Tile::default();
    tile.structure = Some(Structure::Rainmaker);
    tile.tile_events.insert(TileEvent::Fire);
    advance_tile_events(&mut tile, true, 1);
    assert_eq!(tile.structure.unwrap().kind(), StructureKind::Rainmaker);
}

#[test]
fn settlement_events_need_a_settlement() {
    let mut tile = Tile::default();
    tile.tile_events.insert(TileEvent::Plague { i: 1, cured: false });
    tile.tile_events.insert(TileEvent::Decadence { cured: false });
    tile.tile_events.insert(TileEvent::AerosolInjection { remaining_cycles: 2 });
    let r = advance_tile_events(&mut tile, false, 1);
    assert!(!r.fire);
    assert!(r.aerosol_injected);
    assert!(!tile.tile_events.contains(TileEventKind::Plague));
    assert!(!tile.tile_events.contains(TileEventKind::Decadence));
    assert!(matches!(
        tile.tile_events.get(TileEventKind::AerosolInjection),
        Some(TileEvent::AerosolInjection { remaining_cycles: 1 })
    ));
    let r = advance_tile_events(&mut tile, false, 1);
    assert!(r.aerosol_injected);
    assert!(tile.tile_events.list().is_empty());
}

#[test]
fn war_goes_on_at_a_settlement() {
    let mut tile = Tile::default();
    let fox = animal_id_from_str("fox").unwrap();
    tile.structure = Some(settlement("fox", CivilizationAge::BronzeAge));
    tile.tile_events.insert(TileEvent::War { i: 2, offence: fox });
    tile.tile_events.insert(TileEvent::BlackDust { remaining_cycles: 3 });
    let r = advance_tile_events(&mut tile, false, 2);
    assert!(r.war_combat_due);
    assert!(tile.tile_events.contains(TileEventKind::War));
    assert!(matches!(
        tile.tile_events.get(TileEventKind::BlackDust),
        Some(TileEvent::BlackDust { remaining_cycles: 1 })
    ));
    advance_tile_events(&mut tile, false, 2);
    assert!(!tile.tile_events.contains(TileEventKind::BlackDust));
}

#[test]
fn nuclear_explosion_burns_for_its_cycles() {
    let mut tile = Tile::default();
    let fox = animal_id_from_str("fox").unwrap();
    tile.structure = Some(settlement("fox", CivilizationAge::AtomicAge));
    tile.animal[1] = Some(Animal { id: fox });
    assert!(!advance_tile_nuclear_explosion(&mut tile));
    assert!(tile.structure.is_some());
    tile.tile_events.insert(TileEvent::NuclearExplosion { remaining_cycles: 2 });
    assert!(advance_tile_nuclear_explosion(&mut tile));
    assert!(tile.structure.is_none());
    assert!(tile.animal[1].is_none());
    assert!(tile.tile_events.contains(TileEventKind::NuclearExplosion));
    assert!(advance_tile_nuclear_explosion(&mut tile));
    assert!(!tile.tile_events.contains(TileEventKind::NuclearExplosion));
}

#[test]
fn plague_spreads_to_settlements() {
    let mut events = Events { in_progress: Vec::new() };
    let mut empty = Tile::default();
    assert_eq!(cause_plague(&mut events, &mut empty, Coords(3, 4)), 0);
    assert_eq!(events.in_progress.len(), 1);
    assert!(matches!(events.in_progress[0].event, PlanetEvent::Plague(p) if p.i == 0 && p.start_pos == Coords(3, 4)));
    assert!(empty.tile_events.list().is_empty());
    if let PlanetEvent::Plague(p) = &mut events.in_progress[0].event {
        p.i = 2;
    }
    let mut town = Tile::default();
    town.structure = Some(settlement("fox", CivilizationAge::StoneAge));
    assert_eq!(cause_plague(&mut events, &mut town, Coords(0, 0)), 2);
    assert_eq!(events.in_progress.len(), 1);
    assert!(matches!(town.tile_events.get(TileEventKind::Plague), Some(TileEvent::Plague { i: 2, cured: false })));
}

#[test]
fn structures_the_player_builds() {
    for kind in [
        StructureKind::OxygenGenerator,
        StructureKind::Rainmaker,
        StructureKind::FertilizationPlant,
        StructureKind::Heater,
        StructureKind::CarbonCapturer,
    ] {
        assert_eq!(new_structure(kind).kind(), kind);
    }
}
