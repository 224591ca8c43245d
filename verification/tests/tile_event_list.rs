use gaia_maker::animal_id::animal_id_from_str;
use gaia_maker::tile_events::{
    settlement_blocked_by_tile_event, tile_event_to_cause, TileEvent, TileEventKind, TileEvents,
};

#[test]
fn insert_replaces_the_event_of_the_same_kind() {
    let mut events = TileEvents::new();
    events.insert(TileEvent::BlackDust { remaining_cycles: 5 });
    events.insert(TileEvent::Fire);
    events.insert(TileEvent::BlackDust { remaining_cycles: 9 });
    assert_eq!(events.list().len(), 2);
    assert!(matches!(events.list()[0], TileEvent::BlackDust { remaining_cycles: 9 }));
    assert!(matches!(events.list()[1], TileEvent::Fire));
    assert!(matches!(events.get(TileEventKind::BlackDust), Some(TileEvent::BlackDust { remaining_cycles: 9 })));
    assert!(events.get(TileEventKind::Plague).is_none());
}

#[test]
fn remove_leaves_no_event_of_the_kind() {
    let mut events = TileEvents::default();
    events.insert(TileEvent::Fire);
    events.insert(TileEvent::AerosolInjection { remaining_cycles: 3 });
    events.remove(TileEventKind::Fire);
    assert!(!events.contains(TileEventKind::Fire));
    assert!(events.contains(TileEventKind::AerosolInjection));
    events.remove(TileEventKind::Fire);
    assert_eq!(events.list().len(), 1);
}

#[test]
fn settlement_events_are_war_decadence_and_plague() {
    let fox = animal_id_from_str("fox").unwrap();
    assert!(TileEvent::War { i: 0, offence: fox }.is_settlement_event());
    assert!(TileEvent::Decadence { cured: true }.is_settlement_event());
    assert!(TileEvent::Plague { i: 0, cured: false }.is_settlement_event());
    assert!(!TileEvent::Fire.is_settlement_event());
    assert!(!TileEvent::Exodus { remaining_cycles: 1 }.is_settlement_event());
    let mut events = TileEvents::new();
    events.insert(TileEvent::Plague { i: 0, cured: false });
    events.insert(TileEvent::Fire);
    events.insert(TileEvent::Decadence { cured: false });
    events.remove_settlement_events();
    assert_eq!(events.list().len(), 1);
    assert_eq!(events.list()[0].kind(), TileEventKind::Fire);
}

#[test]
fn black_dust_wears_off() {
    let mut events = TileEvents::new();
    events.advance_black_dust(3);
    assert!(events.list().is_empty());
    events.insert(TileEvent::BlackDust { remaining_cycles: 4 });
    events.advance_black_dust(3);
    assert!(matches!(events.get(TileEventKind::BlackDust), Some(TileEvent::BlackDust { remaining_cycles: 1 })));
    events.advance_black_dust(1);
    assert!(matches!(events.get(TileEventKind::BlackDust), Some(TileEvent::BlackDust { remaining_cycles: 0 })));
    events.advance_black_dust(1);
    assert!(!events.contains(TileEventKind::BlackDust));
}

#[test]
fn countdowns() {
    let mut events = TileEvents::new();
    assert!(!events.advance_aerosol_injection());
    events.insert(TileEvent::AerosolInjection { remaining_cycles: 1 });
    assert!(events.advance_aerosol_injection());
    assert!(!events.contains(TileEventKind::AerosolInjection));
    events.insert(TileEvent::Exodus { remaining_cycles: 2 });
    assert!(!events.advance_exodus());
    assert!(events.advance_exodus());
    assert!(!events.contains(TileEventKind::Exodus));
    events.insert(TileEvent::NuclearExplosion { remaining_cycles: 3 });
    assert!(events.advance_nuclear_explosion());
    assert!(matches!(
        events.get(TileEventKind::NuclearExplosion),
        Some(TileEvent::NuclearExplosion { remaining_cycles: 2 })
    ));
}

#[test]
fn blocking_events() {
    let fox = animal_id_from_str("fox").unwrap();
    let mut events = TileEvents::new();
    assert!(!settlement_blocked_by_tile_event(&events));
    events.insert(TileEvent::Plague { i: 0, cured: true });
    events.insert(TileEvent::AerosolInjection { remaining_cycles: 2 });
    assert!(!settlement_blocked_by_tile_event(&events));
    events.insert(TileEvent::Plague { i: 0, cured: false });
    assert!(settlement_blocked_by_tile_event(&events));
    let mut events = TileEvents::new();
    events.insert(TileEvent::War { i: 3, offence: fox });
    assert!(settlement_blocked_by_tile_event(&events));
}

#[test]
fn events_a_player_causes() {
    assert!(matches!(tile_event_to_cause(TileEventKind::Fire, 10, 20), Some(TileEvent::Fire)));
    assert!(matches!(
        tile_event_to_cause(TileEventKind::BlackDust, 10, 20),
        Some(TileEvent::BlackDust { remaining_cycles: 10 })
    ));
    assert!(matches!(
        tile_event_to_cause(TileEventKind::AerosolInjection, 10, 20),
        Some(TileEvent::AerosolInjection { remaining_cycles: 20 })
    ));
    assert!(tile_event_to_cause(TileEventKind::Plague, 10, 20).is_none());
}
