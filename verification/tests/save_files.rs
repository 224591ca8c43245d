use gaia_maker::savefile::{
    is_save_file_name, next_save_number, parse_u32, read_save_sub_dir, save_file_name, save_sub_dir_item,
    save_sub_dir_item_from_captures, sort_latest_first, text_lt, SaveFile, SaveFileError, SaveState,
    SaveSubDirSkip, SavedTime, GAME_VERSION, SAVE_FILE_EXTENSION, SAVE_FILE_NAME_PATTERN,
};

fn time(s: &str) -> SavedTime {
    SavedTime(s.to_string())
}

fn file_bytes(t: &str) -> Vec<u8> {
    SaveFile::new(vec![9, 8, 7], "Terra", vec![0x80], time(t)).to_bytes()
}

#[test]
fn save_file_layout() {
    let f = SaveFile::new(vec![1, 2], "ab", vec![0xc0], time("t"));
    assert_eq!(f.version, GAME_VERSION);
    let bytes = f.to_bytes();
    let mut expected = vec![5u8];
    expected.extend_from_slice(b"0.1.0");
    expected.extend_from_slice(&[1, b't', 2, b'a', b'b', 0, 1, 0xc0, 1, 2]);
    assert_eq!(bytes, expected);
}

#[test]
fn save_file_round_trip() {
    let f = SaveFile::new(vec![1, 2, 3, 4], "Gaia", vec![0x81, 0xa1, 0x61, 0xc3], time("2024-01-02 03:04:05"));
    let g = SaveFile::from_bytes(&f.to_bytes()).unwrap();
    assert_eq!(g.version, f.version);
    assert_eq!(g.time, f.time);
    assert_eq!(g.name, f.name);
    assert_eq!(g.metadata, f.metadata);
    assert_eq!(g.planet_data, f.planet_data);
}

#[test]
fn truncated_and_invalid_save_files() {
    assert_eq!(SaveFile::from_bytes(&[]).unwrap_err(), SaveFileError::UnexpectedEof);
    assert_eq!(SaveFile::from_bytes(&[3, b'a']).unwrap_err(), SaveFileError::UnexpectedEof);
    assert_eq!(SaveFile::from_bytes(&[1, 0xff, 0, 0, 0, 0]).unwrap_err(), SaveFileError::InvalidUtf8);
    let g = SaveFile::from_bytes(&[0, 0, 0, 0, 0]).unwrap();
    assert!(g.version.is_empty() && g.planet_data.is_empty());
}

#[test]
fn save_file_names() {
    assert_eq!(save_file_name(false, 7), "000007.planet");
    assert_eq!(save_file_name(true, 123), "autosave000123.planet");
    assert_eq!(save_file_name(false, 1234567), "1234567.planet");
    assert_eq!(SAVE_FILE_EXTENSION, "planet");
    assert!(is_save_file_name("000001.planet"));
    assert!(!is_save_file_name("000001.planets"));
    assert!(!is_save_file_name("planet"));
}

#[test]
fn decimal_numbers() {
    assert_eq!(parse_u32("000123"), Some(123));
    assert_eq!(parse_u32("4294967295"), Some(u32::MAX));
    assert_eq!(parse_u32("4294967296"), None);
    assert_eq!(parse_u32(""), None);
    assert_eq!(parse_u32("12a"), None);
    for n in [0u32, 9, 10, 99999, 1000000, u32::MAX] {
        let name = save_file_name(false, n);
        assert_eq!(parse_u32(name.trim_end_matches(".planet")), Some(n));
    }
}

#[test]
fn new_save_numbers() {
    assert_eq!(next_save_number(&vec![]), 1);
    assert_eq!(next_save_number(&vec![3, 9, 2]), 10);
    let mut st = SaveState::default();
    st.auto_save_files = vec![4, 2];
    let (name, n) = st.register_save_file(true);
    assert_eq!((name.as_str(), n), ("autosave000005.planet", 5));
    assert_eq!(st.auto_save_files, vec![4, 2, 5]);
    let (name, n) = st.register_save_file(false);
    assert_eq!((name.as_str(), n), ("000001.planet", 1));
    let (_, n2) = st.register_save_file(false);
    assert_ne!(n, n2);
}

#[test]
fn saved_time_from_timestamp() {
    let t = SavedTime::from_timestamp_text("2024-05-06 07:08:09.123 +09:00").unwrap();
    assert_eq!(t.as_str(), "2024-05-06 07:08:09");
    assert!(SavedTime::from_timestamp_text("no fraction").is_none());
    assert_eq!(t.copy(), t);
}

#[test]
fn listing_entries() {
    assert_eq!(SAVE_FILE_NAME_PATTERN, r"(autosave)?(\d+)\..+");
    let data = file_bytes("2024-01-01 00:00:00");
    let item = save_sub_dir_item("autosave000012.planet".to_string(), &data).unwrap().unwrap();
    assert!(item.auto);
    assert_eq!(item.n, 12);
    assert_eq!(item.time.as_str(), "2024-01-01 00:00:00");
    assert_eq!(item._file_name, "autosave000012.planet");
    let item = save_sub_dir_item("000003.planet".to_string(), &data).unwrap().unwrap();
    assert!(!item.auto && item.n == 3);
    let skip = save_sub_dir_item("save.planet".to_string(), &data).unwrap().unwrap_err();
    assert_eq!(skip, SaveSubDirSkip::InvalidFileName);
    let skip = save_sub_dir_item("000003.planet".to_string(), &[1]).unwrap().unwrap_err();
    assert_eq!(skip, SaveSubDirSkip::InvalidSaveFile(SaveFileError::UnexpectedEof));
    assert!(save_sub_dir_item("99999999999.planet".to_string(), &data).is_none());
}

#[test]
fn listing_from_captures() {
    let data = file_bytes("t");
    let r = save_sub_dir_item_from_captures("x".to_string(), &data, Some(Some((None, Some("42".to_string())))));
    assert_eq!(r.unwrap().unwrap().n, 42);
    let r = save_sub_dir_item_from_captures("x".to_string(), &data, Some(None));
    assert_eq!(r.unwrap().unwrap_err(), SaveSubDirSkip::InvalidFileName);
    assert!(save_sub_dir_item_from_captures("x".to_string(), &data, None).is_none());
    assert!(save_sub_dir_item_from_captures("x".to_string(), &data, Some(Some((None, None)))).is_none());
}

#[test]
fn listing_sorted_from_latest() {
    let files = vec![
        ("000001.planet".to_string(), file_bytes("2024-01-01 00:00:00")),
        ("notes.txt".to_string(), vec![]),
        ("000002.planet".to_string(), file_bytes("2024-03-01 00:00:00")),
        ("broken.planet".to_string(), vec![1, 2]),
        ("autosave000001.planet".to_string(), file_bytes("2024-02-01 00:00:00")),
        ("000003.planet".to_string(), file_bytes("2024-03-01 00:00:00")),
    ];
    let list = read_save_sub_dir(files).unwrap();
    let names: Vec<&str> = list.iter().map(|i| i._file_name.as_str()).collect();
    assert_eq!(names, vec!["000002.planet", "000003.planet", "autosave000001.planet", "000001.planet"]);
    assert!(read_save_sub_dir(vec![]).unwrap().is_empty());
}

#[test]
fn sorting_keeps_entries_and_order_of_ties() {
    let items = vec![
        (time("b"), "1".to_string()),
        (time("c"), "2".to_string()),
        (time("a"), "3".to_string()),
        (time("c"), "4".to_string()),
    ];
    let sorted = sort_latest_first(items);
    let names: Vec<&str> = sorted.iter().map(|e| e.1.as_str()).collect();
    assert_eq!(names, vec!["2", "4", "1", "3"]);
    assert!(text_lt("2024-01", "2024-02"));
    assert!(text_lt("ab", "abc"));
    assert!(!text_lt("abc", "abc"));
    assert!(!text_lt("b", "abc"));
}

#[test]
fn save_dirs_latest_first() {
    let mut st = SaveState::default();
    st.set_save_dirs(vec![
        (time("2024-01-01 00:00:00"), "old".to_string()),
        (time("2024-06-01 00:00:00"), "new".to_string()),
        (time("2024-03-01 00:00:00"), "mid".to_string()),
    ]);
    let names: Vec<&str> = st.list.iter().map(|(_, n)| n.as_str()).collect();
    assert_eq!(names, vec!["new", "mid", "old"]);
}
