use theme_art_daemon::player::{instance_pid_text, instance_player_name};
use theme_art_daemon::{apple_music_pids, parse_player_list, select_player, HyprlandClient};

fn client(pid: i32, title: &str, class: &str) -> HyprlandClient {
    HyprlandClient { pid, title: title.to_string(), class: class.to_string() }
}

fn names(list: &[&str]) -> Vec<String> {
    list.iter().map(|s| s.to_string()).collect()
}

#[test]
fn apple_music_windows_are_found_by_title_or_class() {
    let clients = vec![
        client(10, "Apple Music - Song", "chrome"),
        client(11, "YouTube", "chrome"),
        client(12, "Player", "chrome-music.apple.com__-apple-music"),
        client(13, "apple music", "Apple-Music"),
    ];
    assert_eq!(apple_music_pids(&clients), vec![10, 12]);
}

#[test]
fn player_list_is_trimmed_without_blank_lines() {
    let players = parse_player_list("  spotify \r\n\nchromium.instance42\n\t\n");
    assert_eq!(players, names(&["spotify", "chromium.instance42"]));
    assert!(parse_player_list("").is_empty());
}

#[test]
fn instance_names_are_decimal() {
    assert_eq!(instance_player_name(1234), "chromium.instance1234");
    assert_eq!(instance_player_name(0), "chromium.instance0");
    assert_eq!(instance_player_name(-7), "chromium.instance-7");
    assert_eq!(instance_player_name(i32::MIN), "chromium.instance-2147483648");
}

#[test]
fn instance_pid_text_strips_the_prefix() {
    assert_eq!(instance_pid_text("chromium.instance77"), Some("77".to_string()));
    assert_eq!(instance_pid_text("firefox.instance77"), None);
}

#[test]
fn window_instance_wins_over_other_players() {
    let players = names(&["chromium.instance5", "chromium.instance9", "spotify"]);
    let cmdlines = vec![Some("--app=https://music.apple.com".to_string()), None, None];
    assert_eq!(select_player(&[9], &players, &cmdlines), Some("chromium.instance9".to_string()));
}

#[test]
fn first_listed_window_instance_wins() {
    let players = names(&["chromium.instance3", "chromium.instance2"]);
    let cmdlines = vec![None, None];
    assert_eq!(select_player(&[1, 2, 3], &players, &cmdlines), Some("chromium.instance2".to_string()));
}

#[test]
fn command_line_identifies_the_web_app() {
    let players = names(&["spotify", "chromium.instance5", "chromium.instance6"]);
    let cmdlines = vec![None, Some("chrome --profile".to_string()), Some("x apple-music-chrome y".to_string())];
    assert_eq!(select_player(&[1], &players, &cmdlines), Some("chromium.instance6".to_string()));
}

#[test]
fn command_line_of_other_players_is_ignored() {
    let players = names(&["vlc", "chromium.instance6"]);
    let cmdlines = vec![Some("music.apple.com".to_string()), None];
    assert_eq!(select_player(&[], &players, &cmdlines), Some("chromium.instance6".to_string()));
}

#[test]
fn any_chromium_player_comes_next() {
    let players = names(&["spotify", "org.chromium.player"]);
    assert_eq!(select_player(&[], &players, &[None, None]), Some("org.chromium.player".to_string()));
}

#[test]
fn other_media_players_are_never_chosen() {
    let players = names(&["spotify", "vlc"]);
    assert_eq!(select_player(&[], &players, &[None, None]), None);
    assert_eq!(select_player(&[1], &names(&["spotify"]), &[None]), None);
    assert_eq!(select_player(&[3], &[], &[]), None);
}
