use gaia_maker::animal_id::animal_id_from_str;
use gaia_maker::defs::{Biome, CivilizationAge, PlanetHabitability};
use gaia_maker::geom::{coord_rotation_x, direction, Coords};
use gaia_maker::planet::{delete_civ, Planet, Settlement, Structure};
use gaia_maker::reports::{ReportContent, Reports};
use gaia_maker::savefile::{SaveState, SavedTime};
use gaia_maker::start_planet::{sort_start_planets, StartPlanet};
use gaia_maker::text::replace;
use gaia_maker::tile_events::{TileEvent, TileEventKind, TileEvents, VehicleKind};

fn civilized(x: i32) -> ReportContent {
    ReportContent::EventCivilized { pos: Coords(x, 0), animal: animal_id_from_str("fox").unwrap() }
}

#[test]
fn direction_on_wide_maps() {
    let w: u32 = 1_000_000_000;
    assert_eq!(direction(Coords(0, 0), Coords(900_000_000, 5), w), Coords(-1, 1));
    assert_eq!(direction(Coords(0, 0), Coords(100, -5), w), Coords(1, -1));
    assert_eq!(direction(Coords(-1_000_000, 0), Coords(-1_000_000, 0), 3), Coords(0, 0));
}

#[test]
fn rotation_near_the_limits() {
    assert_eq!(coord_rotation_x((1, 1), Coords(-2_147_483_646, 0)), Coords(1, 0));
    assert_eq!(coord_rotation_x((3, 1), Coords(2_147_483_647, 0)), Coords(1, 0));
    assert_eq!(coord_rotation_x((2_000_000_000, 1), Coords(-5, 0)), Coords(1_999_999_995, 0));
}

#[test]
fn new_planet_tiles_are_empty() {
    let planet = Planet::with_size(2, 2, "x".to_string());
    for t in planet.map.iter() {
        assert!(t.animal.iter().all(|a| a.is_none()));
        assert!(t.tile_events.list().is_empty());
    }
}

#[test]
fn insert_keeps_other_kinds_in_order() {
    let mut events = TileEvents::new();
    events.insert(TileEvent::Fire);
    events.insert(TileEvent::BlackDust { remaining_cycles: 3 });
    events.insert(TileEvent::Exodus { remaining_cycles: 4 });
    assert_eq!(events.list().len(), 3);
    events.insert(TileEvent::BlackDust { remaining_cycles: 9 });
    assert_eq!(events.list().len(), 3);
    assert!(matches!(events.list()[0], TileEvent::Fire));
    assert!(matches!(events.list()[1], TileEvent::BlackDust { remaining_cycles: 9 }));
    assert!(matches!(events.list()[2], TileEvent::Exodus { remaining_cycles: 4 }));
    assert!(matches!(events.get(TileEventKind::BlackDust), Some(TileEvent::BlackDust { remaining_cycles: 9 })));
}

#[test]
fn repeated_appends_list_newest_first() {
    let mut reports = Reports::new();
    for c in 1..=5 {
        reports.append(c as u64, civilized(c));
    }
    let listed: Vec<u64> = reports.list().iter().map(|r| r.cycles).collect();
    assert_eq!(listed, vec![5, 4, 3, 2, 1]);
}

fn state(current: &str, autos: Vec<u32>, manuals: Vec<u32>, dirs: &[&str]) -> SaveState {
    let mut st = SaveState::default();
    st.current = current.to_string();
    st.auto_save_files = autos;
    st.manual_save_files = manuals;
    for d in dirs {
        st.list.push_back((SavedTime("t".to_string()), d.to_string()));
    }
    st
}

fn dir_names(st: &SaveState) -> Vec<String> {
    st.list.iter().map(|(_, d)| d.clone()).collect()
}

#[test]
fn deleting_one_save_of_the_current_dir() {
    let mut st = state("earth", vec![1, 2], vec![1], &["earth", "mars"]);
    st.forget_deleted_save("earth", false, true, 2);
    assert_eq!(st.auto_save_files, vec![1]);
    assert_eq!(st.manual_save_files, vec![1]);
    assert_eq!(dir_names(&st), vec!["earth", "mars"]);

    st.forget_deleted_save("earth", false, false, 1);
    st.forget_deleted_save("earth", false, true, 1);
    assert!(st.auto_save_files.is_empty() && st.manual_save_files.is_empty());
    assert_eq!(dir_names(&st), vec!["mars"]);
}

#[test]
fn deleting_in_another_dir_keeps_the_current_saves() {
    let mut st = state("earth", vec![1], vec![], &["earth", "mars"]);
    st.forget_deleted_save("mars", false, true, 1);
    assert_eq!(st.auto_save_files, vec![1]);
    assert_eq!(dir_names(&st), vec!["earth", "mars"]);
    st.forget_deleted_save("earth", true, true, 1);
    assert_eq!(st.auto_save_files, vec![1]);
}

#[test]
fn opening_a_new_save_dir() {
    let mut st = state("earth", vec![3], vec![4], &["earth"]);
    st.open_new_save_dir(SavedTime("2025".to_string()), "venus".to_string());
    assert_eq!(st.current, "venus");
    assert!(st.auto_save_files.is_empty() && st.manual_save_files.is_empty());
    assert_eq!(dir_names(&st), vec!["venus", "earth"]);
    assert_eq!(st.list[0].0, SavedTime("2025".to_string()));
}

fn pairs(kv: &[(&str, &str)]) -> Vec<(String, String)> {
    kv.iter().map(|(k, v)| (k.to_string(), v.to_string())).collect()
}

#[test]
fn placeholders_are_replaced() {
    let map = pairs(&[("name", "Gaia"), ("n", "3"), ("name", "other")]);
    assert_eq!(replace("Hello {$name}!", &map), "Hello Gaia!");
    assert_eq!(replace("{$n}{$n}", &map), "33");
    assert_eq!(replace("{$missing} x", &map), "{} x");
    assert_eq!(replace("{$1a} {$} {name} {$na me}", &map), "{$1a} {$} {name} {$na me}");
    assert_eq!(replace("{{$name}}", &map), "{Gaia}");
    assert_eq!(replace("{$a-b_c9}", &pairs(&[("a-b_c9", "ok")])), "ok");
    assert_eq!(replace("", &map), "");
}

#[test]
fn deleting_a_civilization() {
    let fox = animal_id_from_str("fox").unwrap();
    let cat = animal_id_from_str("cat").unwrap();
    let mut planet = Planet::with_size(3, 1, "earth".to_string());
    planet.map[0].structure = Some(Structure::Settlement(Settlement { id: fox, age: CivilizationAge::IronAge }));
    planet.map[1].structure = Some(Structure::Settlement(Settlement { id: cat, age: CivilizationAge::IronAge }));
    planet.map[2].structure = Some(Structure::Heater);
    planet.map[0].biome = Biome::Tundra;
    planet.map[1].tile_events.insert(TileEvent::Vehicle {
        kind: VehicleKind::Ship,
        id: fox,
        age: CivilizationAge::IronAge,
        direction: (1, 0),
    });
    planet.map[1].tile_events.insert(TileEvent::Fire);
    planet.map[2].tile_events.insert(TileEvent::Troop { id: cat, age: CivilizationAge::IronAge, dest: Coords(0, 0) });
    delete_civ(&mut planet, &fox);
    assert!(planet.map[0].structure.is_none());
    assert_eq!(planet.map[0].biome, Biome::Tundra);
    assert!(planet.map[1].structure.is_some());
    assert_eq!(planet.map[1].tile_events.list().len(), 1);
    assert!(matches!(planet.map[1].tile_events.list()[0], TileEvent::Fire));
    assert_eq!(planet.map[2].tile_events.list().len(), 1);

    planet.delete_civilization();
    assert!(planet.map[1].structure.is_none());
    assert!(planet.map[2].structure.is_some());
    assert_eq!(planet.map[2].tile_events.list().len(), 1);
}

#[test]
fn start_planets_in_offer_order() {
    let p = |id: &str, h| StartPlanet { id: id.to_string(), habitability: h };
    let sorted = sort_start_planets(vec![
        p("venus", PlanetHabitability::Hostile),
        p("mars", PlanetHabitability::Poor),
        p("earth", PlanetHabitability::Ideal),
        p("aqua", PlanetHabitability::Poor),
        p("terra", PlanetHabitability::Ideal),
    ]);
    let ids: Vec<&str> = sorted.iter().map(|s| s.id.as_str()).collect();
    assert_eq!(ids, vec!["earth", "terra", "aqua", "mars", "venus"]);
    assert!(sort_start_planets(vec![]).is_empty());
}
