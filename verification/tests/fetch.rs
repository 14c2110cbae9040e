use theme_art_daemon::fetch::{
    apply_song, is_playing_status, load_jsonc, module_insert_index, now_playing, song_rows, strip_comments, SongRow,
};
use theme_art_daemon::json::Json;

fn s(t: &str) -> Json {
    Json::Str(t.to_string())
}

fn obj(members: Vec<(&str, Json)>) -> Json {
    Json::Object(members.into_iter().map(|(k, v)| (k.to_string(), v)).collect())
}

fn num(t: &str) -> Json {
    Json::Number(t.to_string())
}

#[test]
fn comment_lines_are_removed() {
    let src = "// header\n{\n  // note\n  \"a\": 1, // trailing goes\r\n  \"b\": \"//x\"\n}";
    assert_eq!(strip_comments(src), "{\n  \"a\": 1, \n  \"b\": \"//x\"\n}\n");
    assert_eq!(strip_comments(""), "");
    assert_eq!(strip_comments("a\n\nb\n"), "a\n\nb\n");
}

#[test]
fn jsonc_template_is_parsed() {
    let v = load_jsonc("// c\n{\n \"logo\": {\"source\": \"x\"},\n // m\n \"modules\": [\"title\"]\n}");
    assert_eq!(v, Some(obj(vec![("logo", obj(vec![("source", s("x"))])), ("modules", Json::Array(vec![s("title")]))])));
    assert!(load_jsonc("{ \"a\": 1, }").is_none());
}

#[test]
fn leading_comment_line_is_dropped() {
    assert_eq!(load_jsonc("  // fastfetch config\n{\n  \"a\": 1\n}\n"), Some(obj(vec![("a", num("1"))])));
}

#[test]
fn slashes_in_strings_are_not_comments() {
    assert_eq!(
        load_jsonc("{\"$schema\": \"https://example.com/s.json\"}"),
        Some(obj(vec![("$schema", s("https://example.com/s.json"))]))
    );
}

#[test]
fn trailing_comment_is_dropped() {
    assert_eq!(load_jsonc("{\n  \"a\": 1 // one\n}\n"), Some(obj(vec![("a", num("1"))])));
}

#[test]
fn plain_json_parses_as_json() {
    let text = "{\"b\": [true, null, 2.5, -3], \"a\": {\"c\": \"d\"}}";
    assert_eq!(
        load_jsonc(text),
        Some(obj(vec![
            ("a", obj(vec![("c", s("d"))])),
            ("b", Json::Array(vec![Json::Bool(true), Json::Null, num("2.5"), num("-3")])),
        ]))
    );
}

#[test]
fn song_is_applied_to_the_configuration() {
    let config = obj(vec![
        ("logo", obj(vec![("source", s("cinnamoroll.png")), ("padding", num("2"))])),
        ("modules", Json::Array(vec![s("break"), obj(vec![("type", s("title"))]), s("cpu")])),
    ]);
    let rows = song_rows("T", "A", "");
    let out = apply_song(config, Some("/tmp/cover.jpg".to_string()), rows);
    let row = |key: &str, text: &str| {
        obj(vec![("format", s(text)), ("key", s(key)), ("keyColor", s("blue")), ("type", s("custom"))])
    };
    assert_eq!(
        out,
        obj(vec![
            ("logo", obj(vec![("source", s("/tmp/cover.jpg")), ("padding", num("2"))])),
            (
                "modules",
                Json::Array(vec![
                    s("break"),
                    obj(vec![("type", s("title"))]),
                    s("break"),
                    row("🎵 Song", "T"),
                    row("👤 Artist", "A"),
                    s("break"),
                    s("cpu"),
                ])
            ),
        ])
    );
}

#[test]
fn logo_is_kept_without_cover_art() {
    let config = obj(vec![("logo", obj(vec![("source", s("x"))])), ("modules", Json::Array(vec![]))]);
    let out = apply_song(config, None, vec![SongRow::Break]);
    assert_eq!(out, obj(vec![("logo", obj(vec![("source", s("x"))])), ("modules", Json::Array(vec![s("break")]))]));
}

#[test]
fn playing_status() {
    assert!(is_playing_status("Playing\n"));
    assert!(!is_playing_status("Paused\n"));
    assert!(!is_playing_status("Playing now"));
    assert!(!is_playing_status(""));
}

#[test]
fn now_playing_needs_four_fields() {
    let s = now_playing(" file:///c.jpg|Title|Artist| Album \n").expect("four fields");
    assert_eq!(s.art_url, "file:///c.jpg");
    assert_eq!(s.title, "Title");
    assert_eq!(s.artist, "Artist");
    assert_eq!(s.album, "Album");
    assert!(now_playing("a|b|c").is_none());
}

fn custom(row: &SongRow) -> (String, String) {
    match row {
        SongRow::Custom { key, text } => (key.clone(), text.clone()),
        SongRow::Break => panic!("expected a labelled row"),
    }
}

#[test]
fn song_rows_with_album() {
    let rows = song_rows("T", "A", "L");
    assert_eq!(rows.len(), 5);
    assert!(matches!(rows[0], SongRow::Break));
    assert_eq!(custom(&rows[1]), ("🎵 Song".to_string(), "T".to_string()));
    assert_eq!(custom(&rows[2]), ("👤 Artist".to_string(), "A".to_string()));
    assert_eq!(custom(&rows[3]), ("💿 Album".to_string(), "L".to_string()));
    assert!(matches!(rows[4], SongRow::Break));
}

#[test]
fn song_rows_without_album() {
    let rows = song_rows("T", "A", "");
    assert_eq!(rows.len(), 4);
    assert!(matches!(rows[3], SongRow::Break));
}

#[test]
fn rows_go_after_the_title_module() {
    let t = |s: &str| Some(s.to_string());
    assert_eq!(module_insert_index(&[t("os"), t("title"), None, t("title")]), 2);
    assert_eq!(module_insert_index(&[None, t("cpu")]), 0);
    assert_eq!(module_insert_index(&[]), 0);
    assert_eq!(module_insert_index(&[t("titles")]), 0);
}

#[test]
fn slashes_inside_strings_are_kept() {
    let src = "{\"url\": \"https://x/y\", \"q\": \"say \\\"//\\\" ok\"} // end";
    assert_eq!(strip_comments(src), "{\"url\": \"https://x/y\", \"q\": \"say \\\"//\\\" ok\"} \n");
}
