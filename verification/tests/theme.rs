use theme_art_daemon::theme::{expand_home, hex_string, rgba_string};
use theme_art_daemon::{render_theme, Rgb};

#[test]
fn hex_is_lowercase_and_padded() {
    assert_eq!(hex_string(Rgb { r: 51, g: 204, b: 255 }), "#33ccff");
    assert_eq!(hex_string(Rgb { r: 0, g: 10, b: 171 }), "#000aab");
    assert_eq!(rgba_string(Rgb { r: 0, g: 255, b: 153 }), "rgba(00ff99ee)");
}

#[test]
fn theme_strings() {
    let t = render_theme(Rgb { r: 51, g: 204, b: 255 }, Rgb { r: 0, g: 255, b: 153 });
    assert_eq!(t.primary_hex, "#33ccff");
    assert_eq!(t.accent_hex, "#00ff99");
    assert_eq!(t.active_border, "rgba(33ccffee) rgba(00ff99ee) 45deg");
    assert_eq!(
        t.stylesheet,
        "/* Generated dynamically from Apple Music Cover Art */\n\
         @define-color apple-music-primary #33ccff;\n\
         @define-color apple-music-accent #00ff99;\n"
    );
}

#[test]
fn distinct_colors_have_distinct_hex() {
    assert_ne!(hex_string(Rgb { r: 1, g: 2, b: 3 }), hex_string(Rgb { r: 1, g: 2, b: 4 }));
}

#[test]
fn home_is_expanded() {
    assert_eq!(expand_home("~/.config/waybar/colors.css", "/home/me"), "/home/me/.config/waybar/colors.css");
    assert_eq!(expand_home("~/a~b", "/h"), "/h/a/hb");
    assert_eq!(expand_home("/etc/x", "/h"), "/etc/x");
}
