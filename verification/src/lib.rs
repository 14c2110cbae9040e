//! Cover-art driven theming: the verified core.
//!
//! The library picks the Apple Music player among the media players,
//! builds a colour palette from decoded cover art, selects a primary and
//! an accent colour from it, and renders the strings that the compositor
//! and the status bar are updated with. It also holds the decisions of the
//! background service and of the terminal greeting.
//!
//! Modules:
//! - `text`: character-level string helpers and their models;
//! - `color`: colours, saturation and brightness, the theme choice;
//! - `palette`: the colour-popularity histogram and the dominant colours;
//! - `art`: where cover art is found, and its decoding into a palette;
//! - `player`: choosing the Apple Music player;
//! - `theme`: the hexadecimal colours, border gradient and stylesheet;
//! - `track`: track metadata and the service's state machine;
//! - `json`: JSON values as plain data, and their parser;
//! - `fetch`: the greeting's configuration template, its comments, the
//!   song rows and the edits that apply the song.

pub mod art;
pub mod color;
pub mod fetch;
pub mod json;
pub mod palette;
pub mod player;
pub mod text;
pub mod theme;
pub mod track;

pub use art::{art_source, extract_colors, ArtSource};
pub use color::{select_theme_colors, Rgb};
pub use palette::dominant_colors;
pub use player::{apple_music_pids, parse_player_list, select_player, HyprlandClient};
pub use theme::{render_theme, ThemeStrings};
