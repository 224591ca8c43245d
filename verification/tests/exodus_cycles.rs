use gaia_maker::animal_id::animal_id_from_str;
use gaia_maker::defs::CivilizationAge;
use gaia_maker::events::{EventInProgress, Events, ExodusEvent, PlanetEvent};
use gaia_maker::exodus::{advance_exodus_of, sim_exodus};
use gaia_maker::geom::Coords;
use gaia_maker::planet::{Planet, Settlement, Structure};
use gaia_maker::tile_events::{TileEvent, TileEventKind, VehicleKind};

fn settle(planet: &mut Planet, i: usize, name: &str) {
    planet.map[i].structure =
        Some(Structure::Settlement(Settlement { id: animal_id_from_str(name).unwrap(), age: CivilizationAge::EarlySpaceAge }));
}

fn exodus_left(planet: &Planet, i: usize) -> Option<u32> {
    match planet.map[i].tile_events.get(TileEventKind::Exodus) {
        Some(TileEvent::Exodus { remaining_cycles }) => Some(*remaining_cycles),
        _ => None,
    }
}

#[test]
fn settlements_leave_after_their_countdown() {
    let fox = animal_id_from_str("fox").unwrap();
    let mut planet = Planet::with_size(3, 1, "earth".to_string());
    settle(&mut planet, 0, "fox");
    settle(&mut planet, 1, "fox");
    settle(&mut planet, 2, "cat");
    let draws = vec![true, false, true];
    assert_eq!(advance_exodus_of(&mut planet, &fox, &draws, 2), 2);
    assert_eq!(exodus_left(&planet, 0), Some(1));
    assert_eq!(exodus_left(&planet, 1), None);
    assert_eq!(exodus_left(&planet, 2), None);
    assert_eq!(advance_exodus_of(&mut planet, &fox, &vec![false, false, false], 2), 2);
    assert!(planet.map[0].structure.is_none());
    assert_eq!(exodus_left(&planet, 0), None);
    assert!(planet.map[1].structure.is_some());
    assert!(planet.map[2].structure.is_some());
}

#[test]
fn a_civilization_without_settlements_is_gone() {
    let fox = animal_id_from_str("fox").unwrap();
    let events = Events {
        in_progress: vec![EventInProgress { event: PlanetEvent::Exodus(ExodusEvent { id: fox }), progress: 0, duration: None }],
    };
    let mut planet = Planet::with_size(2, 1, "earth".to_string());
    settle(&mut planet, 0, "fox");
    assert!(!sim_exodus(&events, &mut planet, &vec![true, true], 1));
    assert!(planet.map[0].structure.is_none());
    planet.map[1].tile_events.insert(TileEvent::Vehicle {
        kind: VehicleKind::AirPlane,
        id: fox,
        age: CivilizationAge::EarlySpaceAge,
        direction: (0, 1),
    });
    planet.map[1].tile_events.insert(TileEvent::Troop { id: fox, age: CivilizationAge::EarlySpaceAge, dest: Coords(0, 0) });
    assert!(sim_exodus(&events, &mut planet, &vec![true, true], 1));
    assert!(planet.map[1].tile_events.list().is_empty());
}

#[test]
fn no_exodus_in_progress() {
    let events = Events { in_progress: vec![] };
    let mut planet = Planet::with_size(1, 1, "earth".to_string());
    settle(&mut planet, 0, "fox");
    assert!(sim_exodus(&events, &mut planet, &vec![true], 3));
    assert!(planet.map[0].structure.is_some());
    assert_eq!(exodus_left(&planet, 0), None);
}
