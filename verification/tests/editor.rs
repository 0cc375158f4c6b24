use mamar::logger::MyLogger;
use mamar::ui::{Song, Ui};
use mamar::Bgm;

#[test]
fn window_title_without_song() {
    let ui = Ui::new();
    assert!(ui.open_song.is_none());
    assert_eq!(ui.window_title(), "Mamar");
}

#[test]
fn window_title_with_song() {
    let mut ui = Ui::new();
    ui.open_song = Some(Song { file_name: "battle.bgm".to_string(), bgm: Bgm::default() });
    assert_eq!(ui.window_title(), "battle.bgm - Mamar");
}

#[test]
fn logger_keeps_only_editor_files() {
    assert!(MyLogger.enabled());
    assert!(MyLogger::is_relevant_file(b"mamar/src/main.rs"));
    assert!(MyLogger::is_relevant_file(b"a/mamar"));
    assert!(!MyLogger::is_relevant_file(b"codec/src/lib.rs"));
    assert!(!MyLogger::is_relevant_file(b"mama"));
    assert!(!MyLogger::is_relevant_file(b""));
}

#[test]
fn logger_location_rule() {
    // both parts known: shown, except for info records in release builds
    assert!(MyLogger::should_show_location(true, true, true, true));
    assert!(MyLogger::should_show_location(true, true, false, false));
    assert!(!MyLogger::should_show_location(true, true, false, true));
    assert!(!MyLogger::should_show_location(false, true, true, false));
    assert!(!MyLogger::should_show_location(true, false, true, false));
}
