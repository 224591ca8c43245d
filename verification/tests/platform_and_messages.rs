use gaia_maker::platform::{
    even_window_size, frame_message, preferred_window_size, save_sub_dir_files, save_sub_dir_name, save_sub_dirs,
    start_acknowledged, sub_dir_of, unframe_message, window_close, window_open, PreferredWindowResolution,
    Response, DEFAULT_WINDOW_SIZE,
};
use gaia_maker::reports::{MsgStyle, ReportContent};
use gaia_maker::savefile::SavedTime;

#[test]
fn window_sizes() {
    assert_eq!(preferred_window_size(), (1600, 900));
    assert_eq!(DEFAULT_WINDOW_SIZE, (1600, 900));
    assert_eq!(PreferredWindowResolution::default(), PreferredWindowResolution::Size(1600, 900));
    assert_eq!(even_window_size(1281, 721), (1280, 720));
    assert_eq!(even_window_size(1280, 0), (1280, 0));
    assert_eq!(even_window_size(1, 1), (0, 0));
    window_open();
    window_close();
}

#[test]
fn sub_dirs_of_storage_keys() {
    assert_eq!(sub_dir_of("saves/earth/000001.planet").as_deref(), Some("earth"));
    assert_eq!(sub_dir_of("saves//x").as_deref(), Some(""));
    assert_eq!(sub_dir_of("saves/earth"), None);
    assert_eq!(sub_dir_of("saves/achivements"), None);
    assert_eq!(sub_dir_of("config/x/y"), None);
}

#[test]
fn save_sub_dirs_sorted_and_unique() {
    let keys: Vec<String> = vec![
        "saves/mars/000001.planet",
        "saves/earth/000001.planet",
        "saves/achivements",
        "saves/mars/autosave000001.planet",
        "conf",
        "saves/Zeta/1.planet",
    ]
    .into_iter()
    .map(String::from)
    .collect();
    let now = SavedTime("2024-01-01 00:00:00".to_string());
    let dirs = save_sub_dirs(&keys, &now);
    let names: Vec<&str> = dirs.iter().map(|d| d.1.as_str()).collect();
    assert_eq!(names, vec!["Zeta", "earth", "mars"]);
    assert!(dirs.iter().all(|d| d.0 == now));
}

#[test]
fn files_of_a_save_dir() {
    let keys: Vec<String> = vec!["saves/mars/2.planet", "saves/marsx/1.planet", "saves/mars/1.planet", "saves/earth/3.planet"]
        .into_iter()
        .map(String::from)
        .collect();
    assert_eq!(save_sub_dir_files(&keys, "mars"), vec!["2.planet", "1.planet"]);
    assert!(save_sub_dir_files(&keys, "venus").is_empty());
}

#[test]
fn launcher_messages() {
    let framed = frame_message(br#"{"Start":{}}"#);
    assert_eq!(framed.last(), Some(&0));
    assert_eq!(&framed[..framed.len() - 1], br#"{"Start":{}}"#);
    assert_eq!(unframe_message(&framed), Some(&br#"{"Start":{}}"#[..]));
    assert_eq!(unframe_message(&[]), None);
    assert_eq!(unframe_message(&[0]), Some(&[][..]));
    assert!(start_acknowledged(&Response::Start {}));
    assert!(!start_acknowledged(&Response::UnlockAchivement {}));
}

#[test]
fn message_styles() {
    assert_eq!(MsgStyle::Notice.icon(), "ℹ");
    assert_eq!(MsgStyle::Warn.icon(), "⚠");
    assert_eq!(ReportContent::WarnLowOxygen.style(), MsgStyle::Warn);
    assert_eq!(ReportContent::EventCivExtinct { id: gaia_maker::animal_id::animal_id_from_str("fox").unwrap(), name: None }.style(), MsgStyle::Notice);
}

#[test]
fn save_dir_names_from_planet_names() {
    assert_eq!(save_sub_dir_name("Earth"), "Earth");
    assert_eq!(save_sub_dir_name("a/b:c"), "a b c");
    assert_eq!(save_sub_dir_name(".."), " ");
    assert_eq!(save_sub_dir_name("con"), " ");
    assert_eq!(save_sub_dir_name("Earth."), "Earth ");
    let long = "a".repeat(300);
    assert_eq!(save_sub_dir_name(&long), "a".repeat(255));
}
