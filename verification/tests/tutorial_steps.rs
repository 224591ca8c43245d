use gaia_maker::animal_id::animal_id_from_str;
use gaia_maker::defs::{Biome, BuildingControl, SpaceBuildingKind};
use gaia_maker::geom::Coords;
use gaia_maker::planet::{Animal, Planet, Structure};
use gaia_maker::savefile::SaveFileMetadata;
use gaia_maker::tutorial::{
    check, update_tutorial, ChecklistItem, TutorialState, TutorialStep, TUTORIAL_PLANET,
};

#[test]
fn steps_in_order() {
    assert_eq!(TutorialStep::Start(0).next(), Some(TutorialStep::Start(1)));
    assert_eq!(TutorialStep::Start(1).next(), Some(TutorialStep::Power(0)));
    assert_eq!(TutorialStep::WaitOxygen(0).next(), Some(TutorialStep::Carbon(0)));
    assert_eq!(TutorialStep::Complete(true).next(), None);
    assert_eq!(TutorialStep::Start(0).back(), None);
    assert_eq!(TutorialStep::Carbon(0).back(), Some(TutorialStep::WaitOxygen(0)));
    assert_eq!(TutorialStep::Power(5).next(), None);
    assert_eq!(TUTORIAL_PLANET, "tutorial");
}

#[test]
fn next_then_back_returns() {
    let mut step = TutorialStep::Start(0);
    while let Some(next) = step.next() {
        assert_eq!(next.back(), Some(step));
        step = next;
    }
    assert_eq!(step, TutorialStep::Complete(true));
}

#[test]
fn parts_and_pages() {
    assert!(TutorialStep::Start(1).has_next_tutorial());
    assert!(!TutorialStep::Start(0).has_next_tutorial());
    assert!(!TutorialStep::Complete(true).has_next_tutorial());
    assert!(TutorialStep::Power(1).can_back());
    assert!(!TutorialStep::Power(0).can_back());
    assert!(!TutorialStep::Start(0).can_back());
    assert!(TutorialStep::Complete(false).can_complete());
    assert!(!TutorialStep::Civilize(0).can_complete());
}

#[test]
fn moving_to_a_new_part_gives_a_fresh_checklist() {
    let mut st = TutorialState::default();
    assert_eq!(st.current_step(), TutorialStep::Start(0));
    assert!(st.checklist().is_empty());
    st.move_next();
    st.move_next();
    assert_eq!(st.current_step(), TutorialStep::Power(0));
    assert_eq!(
        st.checklist(),
        &[(ChecklistItem::PowerChecklist1, false), (ChecklistItem::PowerChecklist2, false)]
    );
    assert!(!st.checked());
    st.checklist[0].1 = true;
    st.move_next();
    assert_eq!(st.current_step(), TutorialStep::Power(1));
    assert_eq!(st.checklist()[0], (ChecklistItem::PowerChecklist1, true));
    st.move_back();
    st.move_back();
    assert_eq!(st.current_step(), TutorialStep::Start(1));
    assert!(st.checklist().is_empty());
    assert!(st.checked());
}

#[test]
fn completing() {
    let mut st = TutorialState { current: TutorialStep::Civilize(0), checklist: Vec::new() };
    st.complete();
    assert_eq!(st.current, TutorialStep::Civilize(0));
    st.move_to(TutorialStep::Complete(false));
    st.complete();
    assert_eq!(st.current, TutorialStep::Complete(true));
}

#[test]
fn checklist_goals() {
    let mut planet = Planet::with_size(10, 10, TUTORIAL_PLANET.to_string());
    assert!(!check(&planet, ChecklistItem::PowerChecklist1, false));
    for _ in 0..4 {
        planet.build_space_building(SpaceBuildingKind::FusionReactor, BuildingControl::AlwaysEnabled);
    }
    assert!(check(&planet, ChecklistItem::PowerChecklist1, false));
    assert!(check(&planet, ChecklistItem::WaitOxygenChecklist1, true));
    assert!(!check(&planet, ChecklistItem::WaitOxygenChecklist1, false));
    for x in 0..2 {
        planet.place(Coords(x, 0), Structure::CarbonCapturer);
    }
    assert!(check(&planet, ChecklistItem::CarbonChecklist1, false));
    for i in 10..20 {
        planet.map[i].biome = Biome::Grassland;
    }
    assert!(check(&planet, ChecklistItem::FertilizeChecklist2, false));
    let fox = animal_id_from_str("fox").unwrap();
    for i in 0..30 {
        planet.map[i].animal[1] = Some(Animal { id: fox });
    }
    assert!(check(&planet, ChecklistItem::AnimalChecklist1, false));
    planet.map[0].animal[1] = Some(Animal { id: animal_id_from_str("cat").unwrap() });
    assert!(!check(&planet, ChecklistItem::AnimalChecklist1, false));
    assert!(!check(&planet, ChecklistItem::CivilizeChecklist1, false));
}

#[test]
fn update_keeps_reached_goals() {
    let mut planet = Planet::with_size(4, 4, TUTORIAL_PLANET.to_string());
    let mut st = TutorialState::default();
    st.move_to(TutorialStep::WaitOxygen(0));
    let mut metadata = SaveFileMetadata { debug_mode_enabled: false, tutorial_state: Some(st) };
    update_tutorial(&mut metadata, &planet, true);
    let st = metadata.tutorial_state.as_ref().unwrap();
    assert_eq!(
        st.checklist,
        vec![(ChecklistItem::WaitOxygenChecklist1, true), (ChecklistItem::WaitOxygenChecklist2, false)]
    );
    update_tutorial(&mut metadata, &planet, false);
    assert!(metadata.tutorial_state.as_ref().unwrap().checklist[0].1);
    planet.map[0].biome = Biome::Tundra;
    metadata.tutorial_state.as_mut().unwrap().move_to(TutorialStep::Complete(true));
    update_tutorial(&mut metadata, &planet, false);
    assert!(metadata.tutorial_state.is_none());
    update_tutorial(&mut metadata, &planet, false);
    assert!(metadata.tutorial_state.is_none());
}
