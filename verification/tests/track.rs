use theme_art_daemon::track::{split_metadata, DaemonAction, DaemonState};

#[test]
fn metadata_fields_are_trimmed() {
    assert_eq!(split_metadata("  file:///a.jpg | Song |Artist \n"), vec!["file:///a.jpg", "Song", "Artist"]);
    assert_eq!(split_metadata(""), vec![""]);
    assert_eq!(split_metadata("a||b|"), vec!["a", "", "b", ""]);
}

#[test]
fn new_track_applies_cover_art_once() {
    let mut s = DaemonState::new();
    match s.player_found("p".to_string(), "https://x/a.jpg|Song|Artist\n") {
        DaemonAction::ApplyCoverArt { art_url, title, artist } => {
            assert_eq!(art_url, "https://x/a.jpg");
            assert_eq!(title, "Song");
            assert_eq!(artist, "Artist");
        }
        _ => panic!("expected the cover art to be applied"),
    }
    assert_eq!(s.last_track_id, "Song|Artist");
    assert_eq!(s.last_player, Some("p".to_string()));
    assert!(matches!(s.player_found("p".to_string(), "https://x/a.jpg|Song|Artist"), DaemonAction::Nothing));
    // a new art URL alone is no new track
    assert!(matches!(s.player_found("q".to_string(), "other|Song|Artist"), DaemonAction::Nothing));
    assert_eq!(s.last_player, Some("q".to_string()));
}

#[test]
fn track_without_art_applies_fallback() {
    let mut s = DaemonState::new();
    match s.player_found("p".to_string(), "|Song|Artist") {
        DaemonAction::ApplyDefaults { title, artist } => {
            assert_eq!(title, "Song");
            assert_eq!(artist, "Artist");
        }
        _ => panic!("expected the fallback theme"),
    }
}

#[test]
fn incomplete_metadata_changes_nothing() {
    let mut s = DaemonState::new();
    assert!(matches!(s.player_found("p".to_string(), "a|b"), DaemonAction::Nothing));
    assert_eq!(s.last_track_id, "");
    assert_eq!(s.last_player, Some("p".to_string()));
}

#[test]
fn losing_the_player_reverts_once() {
    let mut s = DaemonState::new();
    assert!(matches!(s.player_lost(), DaemonAction::Nothing));
    s.player_found("p".to_string(), "a|Song|Artist");
    assert!(matches!(s.player_lost(), DaemonAction::RevertToDefaults));
    assert_eq!(s.last_track_id, "");
    assert_eq!(s.last_player, None);
    assert!(matches!(s.player_lost(), DaemonAction::Nothing));
    // the same track is applied again after the player returns
    assert!(matches!(s.player_found("p".to_string(), "a|Song|Artist"), DaemonAction::ApplyCoverArt { .. }));
}
