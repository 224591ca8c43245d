use gaia_maker::animal_id::{animal_id_as_str, animal_id_eq, animal_id_from_str};
use gaia_maker::defs::{
    contains_biome, AnimalHabitat, AnimalSize, Biome, BuildingKind, CivilizationAge, SpaceBuildingKind, StructureKind,
};
use gaia_maker::events::{
    civ_combinations, empty_war_id, get_enemies, EventInProgress, Events, PlagueEvent, PlanetEvent, PlanetEventKind,
    WarEvent, WarKind,
};
use gaia_maker::geom::{coord_rotation_x, corner_idx, direction, Coords};
use gaia_maker::reports::{Report, ReportContent, Reports};

fn civilized(cycles: u64) -> ReportContent {
    let _ = cycles;
    ReportContent::EventCivilized { pos: Coords(1, 2), animal: animal_id_from_str("fox").unwrap() }
}

fn war(i: u32, kind: WarKind, ceased: bool) -> PlanetEvent {
    PlanetEvent::War(WarEvent { i, kind, start_pos: None, ceased })
}

#[test]
fn animal_ids() {
    let fox = animal_id_from_str("fox").unwrap();
    assert_eq!(animal_id_as_str(&fox), "fox");
    assert!(animal_id_eq(&fox, &animal_id_from_str("fox").unwrap()));
    assert!(!animal_id_eq(&fox, &animal_id_from_str("cat").unwrap()));
    assert!(animal_id_from_str("abcdefghijklmnopqrst").is_some());
    assert!(animal_id_from_str("abcdefghijklmnopqrstu").is_none());
}

#[test]
fn biomes_and_habitats() {
    assert!(Biome::Ocean.is_sea() && Biome::SeaIce.is_sea());
    assert!(Biome::Desert.is_land() && !Biome::Desert.is_sea());
    assert!(AnimalHabitat::Land.match_biome(Biome::Tundra));
    assert!(!AnimalHabitat::Land.match_biome(Biome::Ocean));
    let forest = AnimalHabitat::Biomes(vec![Biome::BorealForest, Biome::TemperateForest]);
    assert!(forest.match_biome(Biome::BorealForest));
    assert!(!forest.match_biome(Biome::Grassland));
    assert!(forest.compete_at_biome(&AnimalHabitat::Land, Biome::TemperateForest));
    assert!(!forest.compete_at_biome(&AnimalHabitat::Sea, Biome::TemperateForest));
    assert!(contains_biome(&vec![Biome::Rock], Biome::Rock));
    assert_eq!(Biome::default(), Biome::Rock);
}

#[test]
fn kinds_and_sizes() {
    assert!(StructureKind::Heater.buildable_by_player());
    assert!(!StructureKind::Settlement.buildable_by_player());
    assert_eq!(AnimalSize::iter(), [AnimalSize::Small, AnimalSize::Medium, AnimalSize::Large]);
    assert_eq!(AnimalSize::Large.index(), 2);
    assert_eq!(CivilizationAge::from_index(3), Some(CivilizationAge::IndustrialAge));
    assert_eq!(CivilizationAge::from_index(6), None);
    assert!(CivilizationAge::AtomicAge.is_at_least(CivilizationAge::IndustrialAge));
    assert!(!CivilizationAge::StoneAge.is_at_least(CivilizationAge::BronzeAge));
    assert_eq!(BuildingKind::from(StructureKind::Rainmaker), BuildingKind::Structure(StructureKind::Rainmaker));
    assert_eq!(BuildingKind::from(SpaceBuildingKind::IceImporter), BuildingKind::Space(SpaceBuildingKind::IceImporter));
}

#[test]
fn notices_newest_first_merged_with_warnings() {
    let mut reports = Reports::new();
    reports.append(10, civilized(10));
    reports.append(20, civilized(20));
    reports.append(30, civilized(30));
    reports.append_persitent_warn(25, ReportContent::WarnLowOxygen);
    let cycles: Vec<u64> = reports.list().iter().map(|r| r.cycles).collect();
    assert_eq!(cycles, vec![30, 25, 20, 10]);
    reports.append_persitent_warn(27, ReportContent::WarnLowOxygen);
    let cycles: Vec<u64> = reports.list().iter().map(|r| r.cycles).collect();
    assert_eq!(cycles, vec![30, 27, 20, 10]);
    reports.remove_persitent_warn(&ReportContent::WarnLowOxygen);
    let cycles: Vec<u64> = reports.list().iter().map(|r| r.cycles).collect();
    assert_eq!(cycles, vec![30, 20, 10]);
}

#[test]
fn outdated_notices_go() {
    let mut reports = Reports::new();
    reports.append(10, civilized(10));
    reports.append(20, civilized(20));
    reports.append_persitent_warn(0, ReportContent::WarnHighTemp);
    reports.remove_outdated(1015);
    let cycles: Vec<u64> = reports.list().iter().map(|r| r.cycles).collect();
    assert_eq!(cycles, vec![20, 0]);
    reports.remove_outdated(1020);
    let cycles: Vec<u64> = reports.list().iter().map(|r| r.cycles).collect();
    assert_eq!(cycles, vec![0]);
}

#[test]
fn report_content() {
    assert_eq!(ReportContent::WarnLowTemp.span(), None);
    assert_eq!(civilized(0).span(), Some(1000));
    assert_eq!(civilized(0).pos(), Some(Coords(1, 2)));
    assert_eq!(ReportContent::WarnLowTemp.pos(), None);
    let r = Report { cycles: 3, content: ReportContent::WarnLowCarbonDioxide };
    assert!(r.content.same_as(&ReportContent::WarnLowCarbonDioxide));
    assert!(!r.content.same_as(&ReportContent::WarnLowTemp));
}

#[test]
fn events_advance_and_complete() {
    let mut events = Events { in_progress: Vec::new() };
    let fox = animal_id_from_str("fox").unwrap();
    events.start_event(PlanetEvent::Civilize { target: fox }, Some(2));
    events.start_event(PlanetEvent::Plague(PlagueEvent { i: 0, start_pos: Coords(0, 0) }), None);
    assert!(events.in_progress(&PlanetEvent::Civilize { target: fox }));
    assert!(events.advance().is_empty());
    let done = events.advance();
    assert_eq!(done.len(), 1);
    assert_eq!(done[0].kind(), PlanetEventKind::Civilize);
    assert_eq!(events.in_progress.len(), 1);
    assert_eq!(events.in_progress[0].progress, 2);
    assert!(!events.in_progress(&PlanetEvent::Civilize { target: fox }));
}

#[test]
fn war_ids_and_enemies() {
    let fox = animal_id_from_str("fox").unwrap();
    let cat = animal_id_from_str("cat").unwrap();
    let dog = animal_id_from_str("dog").unwrap();
    let mut events = Events { in_progress: Vec::new() };
    assert_eq!(empty_war_id(&events), 0);
    for (i, kind, ceased) in [
        (0, WarKind::InterSpecies(fox, cat), false),
        (2, WarKind::InterSpecies(dog, fox), false),
        (1, WarKind::InterSpecies(fox, dog), true),
    ] {
        events.in_progress.push(EventInProgress { event: war(i, kind, ceased), progress: 0, duration: None });
    }
    assert_eq!(empty_war_id(&events), 3);
    events.in_progress.remove(2);
    assert_eq!(empty_war_id(&events), 1);
    let enemies = get_enemies(&events, fox);
    assert_eq!(enemies, vec![cat, dog]);
    assert!(events.war_in_progress(&WarKind::InterSpecies(fox, cat)));
    assert!(!events.war_in_progress(&WarKind::CivilWar));
}

#[test]
fn civ_pairs() {
    let ids: Vec<_> = ["a", "b", "c"].iter().map(|s| animal_id_from_str(s).unwrap()).collect();
    let pairs = civ_combinations(&ids);
    let names: Vec<(String, String)> = pairs.iter().map(|(a, b)| (a.to_string(), b.to_string())).collect();
    assert_eq!(names.len(), 3);
    assert!(names.contains(&("a".to_string(), "b".to_string())));
    assert!(names.contains(&("a".to_string(), "c".to_string())));
    assert!(names.contains(&("b".to_string(), "c".to_string())));
    assert!(civ_combinations(&ids[..1].to_vec()).is_empty());
}

#[test]
fn map_geometry() {
    assert_eq!(coord_rotation_x((10, 5), Coords(-3, 1)), Coords(7, 1));
    assert_eq!(coord_rotation_x((10, 5), Coords(23, 1)), Coords(3, 1));
    assert_eq!(coord_rotation_x((10, 5), Coords(4, 1)), Coords(4, 1));
    assert_eq!(coord_rotation_x((10, 5), Coords(-10, 0)), Coords(10, 0));
    assert_eq!(direction(Coords(1, 1), Coords(8, 1), 10), Coords(-1, 0));
    assert_eq!(direction(Coords(1, 1), Coords(3, 4), 10), Coords(1, 1));
    assert_eq!(direction(Coords(2, 2), Coords(2, 2), 10), Coords(0, 0));
    assert_eq!(Coords(0, 0).cdistance(Coords(3, -5)), 5);
    assert_eq!(corner_idx(true, true, true), 0);
    assert_eq!(corner_idx(true, false, true), 1);
    assert_eq!(corner_idx(false, true, false), 2);
    assert_eq!(corner_idx(false, false, true), 3);
    assert_eq!(corner_idx(true, true, false), 4);
}
