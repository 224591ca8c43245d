use gaia_maker::text::{random_name_list, Lang};

fn std_names(text: &str) -> Vec<String> {
    text.lines().filter(|line| !line.trim_start().is_empty()).map(|line| line.to_owned()).collect()
}

#[test]
fn names_are_the_non_blank_lines() {
    let text = "Alice\nBob\r\n  \n\tCarol\r";
    assert_eq!(random_name_list(text), vec!["Alice", "Bob", "\tCarol\r"]);
    assert!(random_name_list("").is_empty());
    assert!(random_name_list("\n\n \u{3000}\n").is_empty());
    assert_eq!(random_name_list("a\nb"), vec!["a", "b"]);
    assert_eq!(random_name_list("a\n"), vec!["a"]);
    assert_eq!(random_name_list("\r\n x \r\n"), vec![" x "]);
    for text in [text, "x\r\ny\n\r\n\rz", "\u{2003}\nname\u{a0}\n", "\r", "one"] {
        assert_eq!(random_name_list(text), std_names(text));
    }
}

#[test]
fn languages() {
    assert_eq!(Lang::English.name(), "English");
    assert_eq!(Lang::Japanese.name(), "日本語");
    assert_eq!(Lang::English.code(), "en");
    assert_eq!(Lang::Japanese.code(), "ja");
}
