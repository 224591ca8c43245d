use gaia_maker::animal_id::animal_id_from_str;
use gaia_maker::defs::CivilizationAge;
use gaia_maker::events::{EventInProgress, Events, PlanetEvent, WarEvent, WarKind};
use gaia_maker::planet::{Planet, Settlement, Structure};
use gaia_maker::tile_events::TileEvent;
use gaia_maker::war::{advance_nuclear_war, sim_nuclear_war};

fn war(kind: WarKind, ceased: bool, progress: u64) -> EventInProgress {
    EventInProgress {
        event: PlanetEvent::War(WarEvent { i: 0, kind, start_pos: None, ceased }),
        progress,
        duration: None,
    }
}

fn ceased(e: &EventInProgress) -> bool {
    match e.event {
        PlanetEvent::War(w) => w.ceased,
        _ => panic!("not a war"),
    }
}

fn settle(planet: &mut Planet, i: usize, age: CivilizationAge) {
    planet.map[i].structure = Some(Structure::Settlement(Settlement { id: animal_id_from_str("fox").unwrap(), age }));
}

fn has_explosion(planet: &Planet, i: usize) -> Option<u32> {
    planet.map[i].tile_events.list().iter().find_map(|e| match e {
        TileEvent::NuclearExplosion { remaining_cycles } => Some(*remaining_cycles),
        _ => None,
    })
}

#[test]
fn no_nuclear_war_no_bombs() {
    let mut events = Events { in_progress: vec![war(WarKind::CivilWar, false, 50), war(WarKind::NuclearWar, true, 50)] };
    let mut planet = Planet::with_size(2, 1, "earth".to_string());
    settle(&mut planet, 0, CivilizationAge::AtomicAge);
    assert!(!sim_nuclear_war(&mut events, &mut planet, &vec![true, true], 10, 30));
    assert_eq!(has_explosion(&planet, 0), None);
    assert!(!ceased(&events.in_progress[0]));
    assert!(ceased(&events.in_progress[1]));
}

#[test]
fn nuclear_war_ceases_after_its_duration() {
    let mut events = Events { in_progress: vec![war(WarKind::NuclearWar, false, 10)] };
    assert!(advance_nuclear_war(&mut events, 10));
    assert!(!ceased(&events.in_progress[0]));
    events.in_progress[0].progress = 11;
    assert!(advance_nuclear_war(&mut events, 10));
    assert!(ceased(&events.in_progress[0]));
    assert!(!advance_nuclear_war(&mut events, 10));
}

#[test]
fn only_the_first_active_nuclear_war_moves_on() {
    let mut events = Events {
        in_progress: vec![
            war(WarKind::NuclearWar, true, 99),
            war(WarKind::NuclearWar, false, 20),
            war(WarKind::NuclearWar, false, 20),
        ],
    };
    assert!(advance_nuclear_war(&mut events, 5));
    assert!(ceased(&events.in_progress[1]));
    assert!(!ceased(&events.in_progress[2]));
}

#[test]
fn bombs_fall_on_industrial_settlements_whose_draw_is_true() {
    let mut events = Events { in_progress: vec![war(WarKind::NuclearWar, false, 0)] };
    let mut planet = Planet::with_size(5, 1, "earth".to_string());
    settle(&mut planet, 0, CivilizationAge::IndustrialAge);
    settle(&mut planet, 1, CivilizationAge::IronAge);
    settle(&mut planet, 2, CivilizationAge::EarlySpaceAge);
    settle(&mut planet, 3, CivilizationAge::AtomicAge);
    let draws = vec![true, true, false, true, true];
    assert!(sim_nuclear_war(&mut events, &mut planet, &draws, 100, 30));
    assert_eq!(has_explosion(&planet, 0), Some(30));
    assert_eq!(has_explosion(&planet, 1), None);
    assert_eq!(has_explosion(&planet, 2), None);
    assert_eq!(has_explosion(&planet, 3), Some(30));
    assert_eq!(has_explosion(&planet, 4), None);
    assert!(planet.map[0].structure.is_some());
    assert!(!ceased(&events.in_progress[0]));

    // A second bombing replaces the explosion rather than adding one.
    assert!(sim_nuclear_war(&mut events, &mut planet, &draws, 100, 12));
    assert_eq!(planet.map[0].tile_events.list().len(), 1);
    assert_eq!(has_explosion(&planet, 0), Some(12));
}
