use gaia_maker::animal_id::animal_id_from_str;
use gaia_maker::defs::{CivilizationAge, PlanetHabitability};
use gaia_maker::planet::{Planet, Settlement, Structure};
use gaia_maker::plague::sim_plague_step;
use gaia_maker::start_planet::{sort_start_planets, StartPlanet};
use gaia_maker::tile_events::{TileEvent, TileEventKind};

fn settle(planet: &mut Planet, i: usize) {
    planet.map[i].structure =
        Some(Structure::Settlement(Settlement { id: animal_id_from_str("fox").unwrap(), age: CivilizationAge::IronAge }));
}

fn plague(planet: &Planet, i: usize) -> Option<(u32, bool)> {
    match planet.map[i].tile_events.get(TileEventKind::Plague) {
        Some(TileEvent::Plague { i, cured }) => Some((*i, *cured)),
        _ => None,
    }
}

#[test]
fn plague_runs_its_course() {
    let mut planet = Planet::with_size(3, 1, "earth".to_string());
    settle(&mut planet, 0);
    settle(&mut planet, 1);
    planet.map[0].tile_events.insert(TileEvent::Plague { i: 2, cured: false });
    planet.map[1].tile_events.insert(TileEvent::Plague { i: 2, cured: false });
    planet.map[2].tile_events.insert(TileEvent::Plague { i: 2, cured: false });
    planet.map[2].tile_events.insert(TileEvent::Fire);

    // Tile 2 has no settlement: its plague goes. Tile 0 is cured this cycle.
    assert!(!sim_plague_step(&mut planet, &vec![true, false, true]));
    assert_eq!(plague(&planet, 0), Some((2, true)));
    assert_eq!(plague(&planet, 1), Some((2, false)));
    assert_eq!(plague(&planet, 2), None);
    assert_eq!(planet.map[2].tile_events.list().len(), 1);

    // Tile 1 is still counted as infected in the cycle it is cured.
    assert!(!sim_plague_step(&mut planet, &vec![false, true, false]));
    assert_eq!(plague(&planet, 1), Some((2, true)));

    // No settlement is infected any more: the plague is over and cleared.
    assert!(sim_plague_step(&mut planet, &vec![false, false, false]));
    assert_eq!(plague(&planet, 0), None);
    assert_eq!(plague(&planet, 1), None);
    assert!(planet.map[0].structure.is_some());
}

#[test]
fn equal_start_planets_keep_their_order() {
    let sorted = sort_start_planets(vec![
        StartPlanet { id: "b".to_string(), habitability: PlanetHabitability::Poor },
        StartPlanet { id: "a".to_string(), habitability: PlanetHabitability::Poor },
        StartPlanet { id: "b".to_string(), habitability: PlanetHabitability::Poor },
        StartPlanet { id: "b".to_string(), habitability: PlanetHabitability::Ideal },
    ]);
    let keys: Vec<(String, PlanetHabitability)> = sorted.iter().map(|p| (p.id.clone(), p.habitability)).collect();
    assert_eq!(
        keys,
        vec![
            ("b".to_string(), PlanetHabitability::Ideal),
            ("a".to_string(), PlanetHabitability::Poor),
            ("b".to_string(), PlanetHabitability::Poor),
            ("b".to_string(), PlanetHabitability::Poor),
        ]
    );
}
