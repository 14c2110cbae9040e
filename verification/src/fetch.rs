//! The terminal greeting: the now-playing check, the JSONC configuration
//! template, and the song rows injected into it.

use vstd::prelude::*;
use crate::text::{
    chars_of, has_prefix, split, split_chars, string_of, string_views, trim, trim_chars, views,
};
use crate::track::{metadata_fields, split_metadata};
use crate::json::{
    json_of, json_view, lemma_items_view, lemma_members_view, members_view, items_view, opt_view,
    parse_json, Json, JsonView,
};

verus! {

/// A line without the carriage return that ends it, if any.
pub open spec fn strip_cr(line: Seq<char>) -> Seq<char> {
    if line.len() > 0 && line.last() == '\r' {
        line.drop_last()
    } else {
        line
    }
}

/// The lines of a text (`str::lines`): split at `\n`, a `\r` before the
/// `\n` removed, and no empty line after a final line ending.
pub open spec fn text_lines(s: Seq<char>) -> Seq<Seq<char>> {
    let p = split(s, '\n');
    let body = p.drop_last().map_values(|l: Seq<char>| strip_cr(l));
    if p.last().len() == 0 {
        body
    } else {
        body.push(p.last())
    }
}

/// Whether a line is a `//` comment line.
pub open spec fn is_comment_line(line: Seq<char>) -> bool {
    has_prefix(trim(line), "//"@)
}

/// The state of a JSON scanner after the first `i` characters of a line:
/// 0 outside strings, 1 inside a string, 2 just after a backslash inside a
/// string.
pub open spec fn scan_state(line: Seq<char>, i: int) -> int
    decreases i,
{
    if i <= 0 {
        0
    } else {
        let st = scan_state(line, i - 1);
        let c = line[i - 1];
        if st == 0 {
            if c == '"' {
                1
            } else {
                0
            }
        } else if st == 1 {
            if c == '\\' {
                2
            } else if c == '"' {
                0
            } else {
                1
            }
        } else {
            1
        }
    }
}

/// Whether a `//` comment starts at position `i` of a line: two slashes
/// outside any string.
pub open spec fn comment_at(line: Seq<char>, i: int) -> bool {
    0 <= i && i + 1 < line.len() && scan_state(line, i) == 0 && line[i] == '/' && line[i + 1]
        == '/'
}

/// The position of the first comment at or after `i`, or the line's length.
pub open spec fn comment_from(line: Seq<char>, i: int) -> int
    decreases line.len() - i,
{
    if i < 0 || i >= line.len() {
        line.len() as int
    } else if comment_at(line, i) {
        i
    } else {
        comment_from(line, i + 1)
    }
}

/// A line without its trailing `//` comment, if any.
pub open spec fn code_part(line: Seq<char>) -> Seq<char> {
    line.take(comment_from(line, 0))
}

/// The code of the lines that are not comment lines, in order.
pub open spec fn code_lines(lines: Seq<Seq<char>>) -> Seq<Seq<char>>
    decreases lines.len(),
{
    if lines.len() == 0 {
        Seq::empty()
    } else if is_comment_line(lines.last()) {
        code_lines(lines.drop_last())
    } else {
        code_lines(lines.drop_last()).push(code_part(lines.last()))
    }
}

/// Lines, each followed by `\n`.
pub open spec fn joined(lines: Seq<Seq<char>>) -> Seq<char>
    decreases lines.len(),
{
    if lines.len() == 0 {
        Seq::empty()
    } else {
        joined(lines.drop_last()) + lines.last().push('\n')
    }
}

/// JSONC content without its `//` comments: comment lines are dropped,
/// and every other line loses the `//` comment that ends it outside
/// strings, and is ended with `\n`.
pub open spec fn without_comments(content: Seq<char>) -> Seq<char> {
    joined(code_lines(text_lines(content)))
}

fn line_of(piece: &Vec<char>, strip: bool) -> (l: Vec<char>)
    ensures
        strip ==> l@ == strip_cr(piece@),
        !strip ==> l@ == piece@,
{
    let mut l = piece.clone();
    if strip && l.len() > 0 && l[l.len() - 1] == '\r' {
        l.pop();
    }
    l
}

/// `str::lines`.
fn lines_of(s: &[char]) -> (lines: Vec<Vec<char>>)
    ensures
        views(lines@) == text_lines(s@),
{
    let pieces = split_chars(s, '\n');
    proof {
        crate::text::lemma_split_nonempty(s@, '\n');
    }
    let n = pieces.len();
    let mut lines: Vec<Vec<char>> = Vec::new();
    let mut i: usize = 0;
    let ghost p = views(pieces@);
    while i + 1 < n
        invariant
            n == pieces@.len(),
            n >= 1,
            0 <= i < n,
            p == split(s@, '\n'),
            p == views(pieces@),
            views(lines@) == p.drop_last().map_values(|l: Seq<char>| strip_cr(l)).take(i as int),
        decreases n - i,
    {
        let l = line_of(&pieces[i], true);
        let ghost before = views(lines@);
        lines.push(l);
        assert(views(lines@) == before.push(l@));
        assert(p.drop_last().map_values(|l: Seq<char>| strip_cr(l)).take(i + 1)
            == p.drop_last().map_values(|l: Seq<char>| strip_cr(l)).take(i as int).push(strip_cr(p[i as int])));
        i = i + 1;
    }
    assert(p.drop_last().map_values(|l: Seq<char>| strip_cr(l)).take(i as int)
        == p.drop_last().map_values(|l: Seq<char>| strip_cr(l)));
    if pieces[n - 1].len() > 0 {
        let l = line_of(&pieces[n - 1], false);
        let ghost before = views(lines@);
        lines.push(l);
        assert(views(lines@) == before.push(l@));
    }
    lines
}

proof fn lemma_comment_from_step(line: Seq<char>, i: int)
    requires
        0 <= i < line.len(),
        !comment_at(line, i),
    ensures
        comment_from(line, i) == comment_from(line, i + 1),
{
}

/// A line without its trailing `//` comment.
fn code_of(line: &[char]) -> (code: Vec<char>)
    ensures
        code@ == code_part(line@),
{
    let n = line.len();
    let mut st: u8 = 0;
    let mut i: usize = 0;
    while i < n
        invariant
            n == line@.len(),
            0 <= i <= n,
            st as int == scan_state(line@, i as int),
            comment_from(line@, 0) == comment_from(line@, i as int),
        ensures
            0 <= i <= n,
            comment_from(line@, 0) == comment_from(line@, i as int),
            i == n || comment_at(line@, i as int),
        decreases n - i,
    {
        let c = line[i];
        if st == 0 && c == '/' && i + 1 < n && line[i + 1] == '/' {
            break;
        }
        proof {
            lemma_comment_from_step(line@, i as int);
        }
        st = if st == 0 {
            if c == '"' {
                1
            } else {
                0
            }
        } else if st == 1 {
            if c == '\\' {
                2
            } else if c == '"' {
                0
            } else {
                1
            }
        } else {
            1
        };
        i = i + 1;
    }
    assert(comment_from(line@, 0) == i as int);
    let mut code: Vec<char> = Vec::new();
    let mut k: usize = 0;
    while k < i
        invariant
            i <= n,
            n == line@.len(),
            0 <= k <= i,
            code@ == line@.take(k as int),
        decreases i - k,
    {
        code.push(line[k]);
        assert(line@.take(k + 1) == line@.take(k as int).push(line@[k as int]));
        k = k + 1;
    }
    code
}

/// Removes the `//` comments from JSONC content: every line whose trimmed
/// text starts with `//` is dropped, every other line loses the `//`
/// comment that ends it outside strings and is ended with `\n`.
pub fn strip_comments(content: &str) -> (clean: String)
    ensures
        clean@ == without_comments(content@),
{
    let text = chars_of(content);
    let lines = lines_of(&text);
    let slashes = chars_of("//");
    let mut out: Vec<char> = Vec::new();
    let mut i: usize = 0;
    assert(views(lines@).take(0) == Seq::<Seq<char>>::empty());
    while i < lines.len()
        invariant
            0 <= i <= lines@.len(),
            slashes@ == "//"@,
            out@ == joined(code_lines(views(lines@).take(i as int))),
        decreases lines@.len() - i,
    {
        proof {
            let u = views(lines@).take(i + 1);
            assert(u.drop_last() == views(lines@).take(i as int));
            assert(u.last() == lines@[i as int]@);
        }
        let t = trim_chars(lines[i].as_slice());
        if !crate::text::starts_with_chars(&t, &slashes) {
            let ghost before = code_lines(views(lines@).take(i as int));
            let mut l = code_of(lines[i].as_slice());
            l.push('\n');
            out.append(&mut l);
            assert(before.push(code_part(lines@[i as int]@)).drop_last() == before);
        }
        i = i + 1;
    }
    assert(views(lines@).take(lines@.len() as int) == views(lines@));
    string_of(&out)
}

/// Parses the JSONC configuration template: its comments are removed
/// (`strip_comments`) and the rest is parsed as JSON.
pub fn load_jsonc(content: &str) -> (value: Option<Json>)
    ensures
        opt_view(value) == json_of(without_comments(content@)),
{
    let clean = strip_comments(content);
    parse_json(clean.as_str())
}

/// The song being played, as the greeting shows it.
pub struct NowPlaying {
    pub art_url: String,
    pub title: String,
    pub artist: String,
    pub album: String,
}

/// Whether the player reports that it is playing.
pub open spec fn is_playing(status: Seq<char>) -> bool {
    trim(status) == "Playing"@
}

/// Whether a player status line says `Playing`.
pub fn is_playing_status(status: &str) -> (playing: bool)
    ensures
        playing == is_playing(status@),
{
    let st = chars_of(status);
    let st = trim_chars(&st);
    let word = chars_of("Playing");
    if st.len() != word.len() {
        return false;
    }
    let mut i: usize = 0;
    while i < st.len()
        invariant
            st@.len() == word@.len(),
            word@ == "Playing"@,
            st@ == trim(status@),
            0 <= i <= st@.len(),
            forall|k: int| 0 <= k < i ==> st@[k] == word@[k],
        decreases st@.len() - i,
    {
        if st[i] != word[i] {
            return false;
        }
        i = i + 1;
    }
    assert(st@ == word@);
    true
}

/// The song to show, from a metadata line with the four fields
/// `artUrl|title|artist|album`; `None` when it has fewer.
pub fn now_playing(metadata: &str) -> (song: Option<NowPlaying>)
    ensures
        match song {
            Some(s) => {
                let f = metadata_fields(metadata@);
                &&& f.len() >= 4
                &&& s.art_url@ == f[0]
                &&& s.title@ == f[1]
                &&& s.artist@ == f[2]
                &&& s.album@ == f[3]
            },
            None => metadata_fields(metadata@).len() < 4,
        },
{
    let fields = split_metadata(metadata);
    if fields.len() < 4 {
        return None;
    }
    assert(string_views(fields@)[3] == fields@[3]@);
    Some(NowPlaying {
        art_url: fields[0].clone(),
        title: fields[1].clone(),
        artist: fields[2].clone(),
        album: fields[3].clone(),
    })
}

/// A row that the greeting shows about the song.
pub enum SongRow {
    /// An empty separator row.
    Break,
    /// A labelled row: its key and its text.
    Custom { key: String, text: String },
}

/// The label of the song title row.
pub open spec fn song_key() -> Seq<char> {
    "🎵 Song"@
}

/// The label of the artist row.
pub open spec fn artist_key() -> Seq<char> {
    "👤 Artist"@
}

/// The label of the album row.
pub open spec fn album_key() -> Seq<char> {
    "💿 Album"@
}

/// Whether a row is the labelled row with the given key and text.
pub open spec fn is_row(row: SongRow, key: Seq<char>, text: Seq<char>) -> bool {
    row matches SongRow::Custom { key: k, text: t } && k@ == key && t@ == text
}

/// The rows injected into the greeting: a break, the song title, the
/// artist, the album where it is not empty, and a break.
pub fn song_rows(title: &str, artist: &str, album: &str) -> (rows: Vec<SongRow>)
    ensures
        rows@.len() == if album@.len() > 0 { 5int } else { 4int },
        rows@[0] is Break,
        is_row(rows@[1], song_key(), title@),
        is_row(rows@[2], artist_key(), artist@),
        album@.len() > 0 ==> is_row(rows@[3], album_key(), album@),
        rows@.last() is Break,
{
    let mut rows: Vec<SongRow> = Vec::new();
    rows.push(SongRow::Break);
    rows.push(SongRow::Custom { key: string_of(&chars_of("🎵 Song")), text: string_of(&chars_of(title)) });
    rows.push(SongRow::Custom { key: string_of(&chars_of("👤 Artist")), text: string_of(&chars_of(artist)) });
    if album.unicode_len() > 0 {
        rows.push(SongRow::Custom { key: string_of(&chars_of("💿 Album")), text: string_of(&chars_of(album)) });
    }
    rows.push(SongRow::Break);
    rows
}

/// The position at which the song rows are inserted among the
/// configuration's modules: just after the first module of type `title`,
/// or at the start when there is none.
pub open spec fn insert_position(types: Seq<Option<Seq<char>>>) -> int
    decreases types.len(),
{
    if types.len() == 0 {
        0
    } else if types[0] == Some("title"@) {
        1
    } else {
        let p = insert_position(types.drop_first());
        if p == 0 {
            0
        } else {
            p + 1
        }
    }
}

/// Where the song rows go; `types[i]` is the `type` of the `i`-th module
/// where it is an object with a string `type`.
pub fn module_insert_index(types: &[Option<String>]) -> (index: usize)
    ensures
        index as int == insert_position(
            types@.map_values(|t: Option<String>| match t {
                Some(s) => Some(s@),
                None => None,
            }),
        ),
{
    let ghost tv = types@.map_values(|t: Option<String>| match t {
        Some(s) => Some(s@),
        None => None,
    });
    let title = chars_of("title");
    let mut i: usize = 0;
    while i < types.len()
        invariant
            0 <= i <= types@.len(),
            title@ == "title"@,
            tv == types@.map_values(|t: Option<String>| match t {
                Some(s) => Some(s@),
                None => None,
            }),
            forall|k: int| 0 <= k < i ==> tv[k] != Some("title"@),
        decreases types@.len() - i,
    {
        let hit = match &types[i] {
            Some(t) => {
                let tc = chars_of(t.as_str());
                let h = tc.len() == title.len() && crate::text::starts_with_chars(&tc, &title);
                proof {
                    assert(tv[i as int] == Some(t@));
                    if tc@.len() == title@.len() {
                        assert(tc@.take(title@.len() as int) == tc@);
                    }
                    assert(h == (t@ == "title"@));
                }
                h
            },
            None => {
                assert(tv[i as int] is None);
                false
            },
        };
        if hit {
            proof {
                lemma_insert_position_at(tv, i as int);
            }
            return i + 1;
        }
        i = i + 1;
    }
    proof {
        lemma_insert_position_none(tv);
    }
    0
}

proof fn lemma_insert_position_at(types: Seq<Option<Seq<char>>>, i: int)
    requires
        0 <= i < types.len(),
        types[i] == Some("title"@),
        forall|k: int| 0 <= k < i ==> types[k] != Some("title"@),
    ensures
        insert_position(types) == i + 1,
    decreases i,
{
    if i > 0 {
        lemma_insert_position_at(types.drop_first(), i - 1);
    }
}

proof fn lemma_insert_position_none(types: Seq<Option<Seq<char>>>)
    requires
        forall|k: int| 0 <= k < types.len() ==> types[k] != Some("title"@),
    ensures
        insert_position(types) == 0,
    decreases types.len(),
{
    if types.len() > 0 {
        lemma_insert_position_none(types.drop_first());
    }
}

proof fn lemma_insert_position_bounds(types: Seq<Option<Seq<char>>>)
    ensures
        0 <= insert_position(types) <= types.len(),
    decreases types.len(),
{
    if types.len() > 0 {
        lemma_insert_position_bounds(types.drop_first());
    }
}

/// The value of the first member named `key`.
pub open spec fn member_value(members: Seq<(Seq<char>, JsonView)>, key: Seq<char>) -> Option<
    JsonView,
>
    decreases members.len(),
{
    if members.len() == 0 {
        None
    } else if members[0].0 == key {
        Some(members[0].1)
    } else {
        member_value(members.drop_first(), key)
    }
}

/// The `type` of a configuration module, where the module is an object
/// whose `type` is a string.
pub open spec fn module_type(module: JsonView) -> Option<Seq<char>> {
    match module {
        JsonView::Object(members) => match member_value(members, "type"@) {
            Some(JsonView::Str(t)) => Some(t),
            _ => None,
        },
        _ => None,
    }
}

/// A logo object with its `source` replaced by `path`.
pub open spec fn with_source(logo: JsonView, path: Seq<char>) -> JsonView {
    match logo {
        JsonView::Object(members) => JsonView::Object(
            members.map_values(
                |m: (Seq<char>, JsonView)|
                    if m.0 == "source"@ {
                        (m.0, JsonView::Str(path))
                    } else {
                        m
                    },
            ),
        ),
        _ => logo,
    }
}

/// The modules array with the song rows inserted just after the first
/// `title` module (see `insert_position`).
pub open spec fn with_rows(modules: JsonView, rows: Seq<JsonView>) -> JsonView {
    match modules {
        JsonView::Array(items) => {
            let p = insert_position(items.map_values(|m: JsonView| module_type(m)));
            JsonView::Array(items.take(p) + rows + items.skip(p))
        },
        _ => modules,
    }
}

/// A song row as a configuration module: `"break"`, or a custom module
/// with its key, a blue key colour and its text.
pub open spec fn row_view(row: SongRow) -> JsonView {
    match row {
        SongRow::Break => JsonView::Str("break"@),
        SongRow::Custom { key, text } => JsonView::Object(
            seq![
                ("format"@, JsonView::Str(text@)),
                ("key"@, JsonView::Str(key@)),
                ("keyColor"@, JsonView::Str("blue"@)),
                ("type"@, JsonView::Str("custom"@)),
            ],
        ),
    }
}

/// The modules for a sequence of song rows.
pub open spec fn rows_view(rows: Seq<SongRow>) -> Seq<JsonView> {
    Seq::new(rows.len(), |i: int| row_view(rows[i]))
}

/// A configuration member after the song is applied: the logo's source
/// becomes the cover art where there is one, and the song rows join the
/// modules.
pub open spec fn edit_member(
    m: (Seq<char>, JsonView),
    art: Option<Seq<char>>,
    rows: Seq<JsonView>,
) -> (Seq<char>, JsonView) {
    if m.0 == "logo"@ && art is Some {
        (m.0, with_source(m.1, art->0))
    } else if m.0 == "modules"@ {
        (m.0, with_rows(m.1, rows))
    } else {
        m
    }
}

/// The greeting's configuration with the song applied.
pub open spec fn song_config(config: JsonView, art: Option<Seq<char>>, rows: Seq<JsonView>) -> JsonView {
    match config {
        JsonView::Object(members) => JsonView::Object(
            members.map_values(|m: (Seq<char>, JsonView)| edit_member(m, art, rows)),
        ),
        _ => config,
    }
}

proof fn lemma_member_value_at(members: Seq<(Seq<char>, JsonView)>, key: Seq<char>, i: int)
    requires
        0 <= i <= members.len(),
        forall|k: int| 0 <= k < i ==> #[trigger] members[k].0 != key,
    ensures
        i < members.len() && members[i].0 == key ==> member_value(members, key) == Some(members[i].1),
        i == members.len() ==> member_value(members, key) is None,
    decreases i,
{
    if i > 0 {
        let d = members.drop_first();
        assert forall|k: int| 0 <= k < i - 1 implies #[trigger] d[k].0 != key by {
            assert(d[k] == members[k + 1]);
        }
        lemma_member_value_at(d, key, i - 1);
        if i < members.len() {
            assert(d[i - 1] == members[i]);
        }
    }
}

fn string_from(s: &str) -> (r: String)
    ensures
        r@ == s@,
{
    string_of(&chars_of(s))
}

fn module_type_of(module: &Json) -> (t: Option<String>)
    ensures
        match t {
            Some(s) => module_type(json_view(*module)) == Some(s@),
            None => module_type(json_view(*module)) is None,
        },
{
    match module {
        Json::Object(members) => {
            let key = string_from("type");
            proof {
                lemma_members_view(members@);
            }
            let ghost mv = members_view(members@);
            assert(json_view(*module) == JsonView::Object(mv));
            let mut i: usize = 0;
            while i < members.len()
                invariant
                    json_view(*module) == JsonView::Object(mv),
                    0 <= i <= members@.len(),
                    key@ == "type"@,
                    mv == members_view(members@),
                    mv.len() == members@.len(),
                    forall|k: int| 0 <= k < members@.len() ==> #[trigger] mv[k] == (
                        members@[k].0@,
                        json_view(members@[k].1),
                    ),
                    forall|k: int| 0 <= k < i ==> #[trigger] mv[k].0 != "type"@,
                decreases members@.len() - i,
            {
                if members[i].0 == key {
                    proof {
                        lemma_member_value_at(mv, "type"@, i as int);
                    }
                    assert(member_value(mv, "type"@) == Some(json_view(members@[i as int].1)));
                    assert(json_view(*module) == JsonView::Object(mv));
                    return match &members[i].1 {
                        Json::Str(t) => Some(t.clone()),
                        Json::Null => None,
                        Json::Bool(_) => None,
                        Json::Number(_) => None,
                        Json::Array(_) => None,
                        Json::Object(_) => None,
                    };
                }
                assert(mv[i as int].0 != "type"@);
                i = i + 1;
            }
            proof {
                lemma_member_value_at(mv, "type"@, i as int);
            }
            assert(json_view(*module) == JsonView::Object(mv));
            None
        },
        _ => None,
    }
}

fn row_json(row: &SongRow) -> (j: Json)
    ensures
        json_view(j) == row_view(*row),
{
    match row {
        SongRow::Break => Json::Str(string_from("break")),
        SongRow::Custom { key, text } => {
            let mut members: Vec<(String, Json)> = Vec::new();
            members.push((string_from("format"), Json::Str(text.clone())));
            members.push((string_from("key"), Json::Str(key.clone())));
            members.push((string_from("keyColor"), Json::Str(string_from("blue"))));
            members.push((string_from("type"), Json::Str(string_from("custom"))));
            proof {
                lemma_members_view(members@);
            }
            assert(members_view(members@) =~= seq![
                ("format"@, JsonView::Str(text@)),
                ("key"@, JsonView::Str(key@)),
                ("keyColor"@, JsonView::Str("blue"@)),
                ("type"@, JsonView::Str("custom"@)),
            ]);
            Json::Object(members)
        },
    }
}

fn set_source(logo: Json, path: &String) -> (j: Json)
    ensures
        json_view(j) == with_source(json_view(logo), path@),
{
    match logo {
        Json::Object(members) => {
            let ghost orig = members@;
            proof {
                lemma_members_view(orig);
            }
            let source = string_from("source");
            let mut rest = members;
            let mut out: Vec<(String, Json)> = Vec::new();
            while rest.len() > 0
                invariant
                    source@ == "source"@,
                    out@.len() + rest@.len() == orig.len(),
                    rest@ == orig.skip(out@.len() as int),
                    forall|k: int|
                        0 <= k < out@.len() ==> (#[trigger] out@[k]).0@ == orig[k].0@ && json_view(
                            out@[k].1,
                        ) == (if orig[k].0@ == "source"@ {
                            JsonView::Str(path@)
                        } else {
                            json_view(orig[k].1)
                        }),
                decreases rest@.len(),
            {
                let ghost n = out@.len();
                let (k, v) = rest.remove(0);
                assert(orig[n as int] == (k, v));
                assert(rest@ == orig.skip((n + 1) as int));
                if k == source {
                    out.push((k, Json::Str(path.clone())));
                } else {
                    out.push((k, v));
                }
            }
            proof {
                lemma_members_view(out@);
                assert(members_view(out@) =~= members_view(orig).map_values(
                    |m: (Seq<char>, JsonView)|
                        if m.0 == "source"@ {
                            (m.0, JsonView::Str(path@))
                        } else {
                            m
                        },
                ));
            }
            Json::Object(out)
        },
        other => other,
    }
}

fn add_rows(modules: Json, rows: &Vec<SongRow>) -> (j: Json)
    ensures
        json_view(j) == with_rows(json_view(modules), rows_view(rows@)),
{
    match modules {
        Json::Array(items) => {
            let ghost orig = items@;
            proof {
                lemma_items_view(orig);
            }
            let ghost v = items_view(orig);
            let mut types: Vec<Option<String>> = Vec::new();
            let mut i: usize = 0;
            while i < items.len()
                invariant
                    items@ == orig,
                    v == items_view(orig),
                    v.len() == orig.len(),
                    forall|k: int| 0 <= k < orig.len() ==> #[trigger] v[k] == json_view(orig[k]),
                    0 <= i <= items@.len(),
                    types@.len() == i,
                    forall|k: int|
                        0 <= k < i ==> match #[trigger] types@[k] {
                            Some(s) => module_type(v[k]) == Some(s@),
                            None => module_type(v[k]) is None,
                        },
                decreases items@.len() - i,
            {
                let t = module_type_of(&items[i]);
                types.push(t);
                i = i + 1;
            }
            let ghost tv = types@.map_values(|t: Option<String>| match t {
                Some(s) => Some(s@),
                None => None,
            });
            assert(tv =~= v.map_values(|m: JsonView| module_type(m)));
            let p = module_insert_index(&types);
            proof {
                lemma_insert_position_bounds(tv);
            }
            let ghost r = rows_view(rows@);
            let mut items = items;
            let mut k: usize = 0;
            assert(v.take(p as int) + r.take(0) + v.skip(p as int) =~= v);
            while k < rows.len()
                invariant
                    p <= orig.len(),
                    v == items_view(orig),
                    v.len() == orig.len(),
                    r == rows_view(rows@),
                    0 <= k <= rows@.len(),
                    items_view(items@) == v.take(p as int) + r.take(k as int) + v.skip(p as int),
                    items@.len() == orig.len() + k,
                decreases rows@.len() - k,
            {
                let row = row_json(&rows[k]);
                let ghost before = items@;
                let len_now = items.len();
                assert(p + k <= len_now);
                proof {
                    lemma_items_view(before);
                }
                items.insert(p + k, row);
                proof {
                    lemma_items_view(items@);
                    assert(items_view(items@) =~= items_view(before).insert(p + k, json_view(row)));
                    let a = v.take(p as int);
                    let b = r.take(k as int);
                    let c = v.skip(p as int);
                    assert(a.len() == p);
                    assert(b.len() == k);
                    assert(r.take(k + 1) =~= b.push(r[k as int]));
                    assert((a + b + c).insert(p + k, r[k as int]) =~= a + b.push(r[k as int]) + c);
                }
                k = k + 1;
            }
            assert(r.take(rows@.len() as int) =~= r);
            Json::Array(items)
        },
        other => other,
    }
}

/// The view of an optional string.
pub open spec fn opt_string_view(o: Option<String>) -> Option<Seq<char>> {
    match o {
        Some(s) => Some(s@),
        None => None,
    }
}

/// Applies the song to the greeting's configuration: where `art_path` is
/// given, the logo's `source` becomes it, and the song rows are inserted
/// among the modules just after the first `title` module (see
/// `song_config`).
pub fn apply_song(config: Json, art_path: Option<String>, rows: Vec<SongRow>) -> (out: Json)
    ensures
        json_view(out) == song_config(json_view(config), opt_string_view(art_path), rows_view(rows@)),
{
    let ghost art = opt_string_view(art_path);
    let ghost r = rows_view(rows@);
    match config {
        Json::Object(members) => {
            let ghost orig = members@;
            proof {
                lemma_members_view(orig);
            }
            let logo = string_from("logo");
            let modules = string_from("modules");
            let mut rest = members;
            let mut out: Vec<(String, Json)> = Vec::new();
            while rest.len() > 0
                invariant
                    logo@ == "logo"@,
                    modules@ == "modules"@,
                    r == rows_view(rows@),
                    art == opt_string_view(art_path),
                    out@.len() + rest@.len() == orig.len(),
                    rest@ == orig.skip(out@.len() as int),
                    forall|k: int|
                        0 <= k < out@.len() ==> (out@[k].0@, json_view(out@[k].1)) == edit_member(
                            (orig[k].0@, json_view(orig[k].1)),
                            art,
                            r,
                        ),
                decreases rest@.len(),
            {
                let ghost n = out@.len();
                let (k, v) = rest.remove(0);
                assert(orig[n as int] == (k, v));
                assert(rest@ == orig.skip((n + 1) as int));
                let is_logo = k == logo;
                if is_logo && art_path.is_some() {
                    let path = match &art_path {
                        Some(p) => p,
                        None => {
                            assert(false);
                            &logo
                        },
                    };
                    let nv = set_source(v, path);
                    out.push((k, nv));
                } else if k == modules {
                    let nv = add_rows(v, &rows);
                    out.push((k, nv));
                } else {
                    out.push((k, v));
                }
            }
            proof {
                lemma_members_view(out@);
                assert(members_view(out@) =~= members_view(orig).map_values(
                    |m: (Seq<char>, JsonView)| edit_member(m, art, r),
                ));
            }
            Json::Object(out)
        },
        other => other,
    }
}

proof fn lemma_split_append_plain(a: Seq<char>, l: Seq<char>, sep: char)
    requires
        !l.contains(sep),
    ensures
        split(a + l, sep) == split(a, sep).update(
            split(a, sep).len() - 1,
            split(a, sep).last() + l,
        ),
    decreases l.len(),
{
    crate::text::lemma_split_nonempty(a, sep);
    if l.len() == 0 {
        assert(a + l == a);
        assert(split(a, sep).last() + l == split(a, sep).last());
        assert(split(a, sep).update(split(a, sep).len() - 1, split(a, sep).last()) == split(a, sep));
    } else {
        let l2 = l.drop_last();
        assert(!l2.contains(sep)) by {
            assert forall|k: int| 0 <= k < l2.len() implies l2[k] != sep by {
                assert(l2[k] == l[k]);
            }
        }
        lemma_split_append_plain(a, l2, sep);
        assert((a + l).drop_last() == a + l2);
        assert((a + l).last() == l.last());
        assert(l.last() != sep) by {
            assert(l[l.len() - 1] == l.last());
        }
        assert(split(a, sep).last() + l == (split(a, sep).last() + l2).push(l.last()));
        crate::text::lemma_split_nonempty(a + l2, sep);
    }
}

proof fn lemma_split_joined(lines: Seq<Seq<char>>)
    requires
        forall|j: int| 0 <= j < lines.len() ==> !(#[trigger] lines[j]).contains('\n'),
    ensures
        split(joined(lines), '\n') == lines.push(Seq::<char>::empty()),
    decreases lines.len(),
{
    if lines.len() == 0 {
        assert(split(Seq::<char>::empty(), '\n') == seq![Seq::<char>::empty()]);
    } else {
        let prev = lines.drop_last();
        let l = lines.last();
        assert forall|j: int| 0 <= j < prev.len() implies !(#[trigger] prev[j]).contains('\n') by {
            assert(prev[j] == lines[j]);
        }
        lemma_split_joined(prev);
        assert(!l.contains('\n')) by {
            assert(lines[lines.len() - 1] == l);
        }
        let a = joined(prev);
        lemma_split_append_plain(a, l, '\n');
        assert(joined(lines) == (a + l).push('\n'));
        assert((a + l).push('\n').drop_last() == a + l);
        let s1 = split(a, '\n');
        assert(s1.update(s1.len() - 1, s1.last() + l) == lines);
    }
}

proof fn lemma_split_pieces_plain(s: Seq<char>, sep: char)
    ensures
        forall|j: int| 0 <= j < split(s, sep).len() ==> !(#[trigger] split(s, sep)[j]).contains(sep),
    decreases s.len(),
{
    if s.len() > 0 {
        let rest = split(s.drop_last(), sep);
        lemma_split_pieces_plain(s.drop_last(), sep);
        crate::text::lemma_split_nonempty(s.drop_last(), sep);
        let cur = split(s, sep);
        if s.last() != sep {
            let piece = rest.last().push(s.last());
            assert(!piece.contains(sep)) by {
                assert forall|k: int| 0 <= k < piece.len() implies piece[k] != sep by {
                    if k < rest.last().len() {
                        assert(rest[rest.len() - 1] == rest.last());
                        assert(piece[k] == rest.last()[k]);
                    }
                }
            }
            assert forall|j: int| 0 <= j < cur.len() implies !(#[trigger] cur[j]).contains(sep) by {
                if j < rest.len() - 1 {
                    assert(cur[j] == rest[j]);
                }
            }
        } else {
            assert forall|j: int| 0 <= j < cur.len() implies !(#[trigger] cur[j]).contains(sep) by {
                if j < rest.len() {
                    assert(cur[j] == rest[j]);
                } else {
                    assert(cur[j] == Seq::<char>::empty());
                }
            }
        }
    }
}

proof fn lemma_comment_from_bounds(line: Seq<char>, i: int)
    requires
        0 <= i <= line.len(),
    ensures
        i <= comment_from(line, i) <= line.len(),
        forall|k: int| i <= k < comment_from(line, i) ==> !#[trigger] comment_at(line, k),
    decreases line.len() - i,
{
    if i < line.len() && !comment_at(line, i) {
        lemma_comment_from_bounds(line, i + 1);
    }
}

proof fn lemma_scan_state_prefix(line: Seq<char>, m: int, i: int)
    requires
        0 <= i <= m <= line.len(),
    ensures
        scan_state(line.take(m), i) == scan_state(line, i),
    decreases i,
{
    if i > 0 {
        lemma_scan_state_prefix(line, m, i - 1);
        assert(line.take(m)[i - 1] == line[i - 1]);
    }
}

/// A prefix of a line that ends before its first comment holds no
/// comment.
proof fn lemma_code_prefix_clean(line: Seq<char>, m: int)
    requires
        0 <= m <= comment_from(line, 0),
        m <= line.len(),
    ensures
        forall|k: int| !#[trigger] comment_at(line.take(m), k),
{
    lemma_comment_from_bounds(line, 0);
    assert forall|k: int| !#[trigger] comment_at(line.take(m), k) by {
        if comment_at(line.take(m), k) {
            lemma_scan_state_prefix(line, m, k);
            assert(line.take(m)[k] == line[k]);
            assert(line.take(m)[k + 1] == line[k + 1]);
            assert(comment_at(line, k));
        }
    }
}

proof fn lemma_code_lines_members(lines: Seq<Seq<char>>)
    ensures
        forall|j: int|
            0 <= j < code_lines(lines).len() ==> exists|k: int|
                0 <= k < lines.len() && #[trigger] code_lines(lines)[j] == code_part(lines[k]),
    decreases lines.len(),
{
    if lines.len() > 0 {
        let prev = lines.drop_last();
        lemma_code_lines_members(prev);
        let c = code_lines(lines);
        let cp = code_lines(prev);
        assert forall|j: int| 0 <= j < c.len() implies exists|k: int|
            0 <= k < lines.len() && #[trigger] c[j] == code_part(lines[k]) by {
            if j < cp.len() {
                assert(c[j] == cp[j]);
                let k = choose|k: int| 0 <= k < prev.len() && cp[j] == code_part(prev[k]);
                assert(lines[k] == prev[k]);
            } else {
                assert(lines[lines.len() - 1] == lines.last());
            }
        }
    }
}

/// The comments are gone: the lines of the stripped text are the code of
/// the template's lines that are not comment lines, in order (without the
/// carriage return that may end the last of them), and none of them holds
/// a `//` comment outside strings.
pub proof fn lemma_comment_lines_removed(content: Seq<char>)
    ensures
        text_lines(without_comments(content)) == code_lines(text_lines(content)).map_values(
            |l: Seq<char>| strip_cr(l),
        ),
        forall|j: int, k: int|
            0 <= j < text_lines(without_comments(content)).len() ==> !#[trigger] comment_at(
                text_lines(without_comments(content))[j],
                k,
            ),
{
    let lines = text_lines(content);
    let p = split(content, '\n');
    lemma_split_pieces_plain(content, '\n');
    crate::text::lemma_split_nonempty(content, '\n');
    assert forall|j: int| 0 <= j < lines.len() implies !(#[trigger] lines[j]).contains('\n') by {
        if j < p.len() - 1 {
            assert(p.drop_last()[j] == p[j]);
            let q = p[j];
            assert(!q.contains('\n'));
            if q.len() > 0 && q.last() == '\r' {
                assert forall|k: int| 0 <= k < q.drop_last().len() implies q.drop_last()[k] != '\n' by {
                    assert(q.drop_last()[k] == q[k]);
                }
            }
        } else {
            assert(lines[j] == p[p.len() - 1]);
        }
    }
    let kept = code_lines(lines);
    lemma_code_lines_members(lines);
    assert forall|j: int| 0 <= j < kept.len() implies !(#[trigger] kept[j]).contains('\n') by {
        let k = choose|k: int| 0 <= k < lines.len() && kept[j] == code_part(lines[k]);
        lemma_comment_from_bounds(lines[k], 0);
        assert forall|x: int| 0 <= x < kept[j].len() implies kept[j][x] != '\n' by {
            assert(kept[j][x] == lines[k][x]);
        }
    }
    lemma_split_joined(kept);
    let out = without_comments(content);
    assert(split(out, '\n') == kept.push(Seq::<char>::empty()));
    assert(kept.push(Seq::<char>::empty()).drop_last() == kept);
    let r = text_lines(out);
    assert forall|j: int, x: int| 0 <= j < r.len() implies !#[trigger] comment_at(r[j], x) by {
        let k = choose|k: int| 0 <= k < lines.len() && kept[j] == code_part(lines[k]);
        let l = lines[k];
        lemma_comment_from_bounds(l, 0);
        let fc = comment_from(l, 0);
        let m = if fc > 0 && l[fc - 1] == '\r' { fc - 1 } else { fc };
        assert(r[j] == strip_cr(kept[j]));
        assert(r[j] == l.take(m));
        lemma_code_prefix_clean(l, m);
    }
}

/// Only the logo's source changes: applying the song with a cover-art
/// path to a configuration object keeps its members' keys in place, and in
/// a `logo` object member every member keeps its key, the `source` member's
/// value becomes the path, and every other member is unchanged.
pub proof fn lemma_logo_source_only(
    members: Seq<(Seq<char>, JsonView)>,
    k: int,
    logo: Seq<(Seq<char>, JsonView)>,
    path: Seq<char>,
    rows: Seq<JsonView>,
)
    requires
        0 <= k < members.len(),
        members[k] == ("logo"@, JsonView::Object(logo)),
    ensures
        ({
            let out = song_config(JsonView::Object(members), Some(path), rows);
            &&& out is Object
            &&& out->Object_0.len() == members.len()
            &&& forall|x: int| 0 <= x < members.len() ==> (#[trigger] out->Object_0[x]).0 == members[x].0
            &&& out->Object_0[k].1 is Object
            &&& out->Object_0[k].1->Object_0.len() == logo.len()
            &&& forall|j: int|
                0 <= j < logo.len() ==> #[trigger] out->Object_0[k].1->Object_0[j] == (
                    logo[j].0,
                    if logo[j].0 == "source"@ {
                        JsonView::Str(path)
                    } else {
                        logo[j].1
                    },
                )
        }),
{
    reveal_strlit("logo");
    reveal_strlit("modules");
    assert("logo"@.len() != "modules"@.len());
    let out = song_config(JsonView::Object(members), Some(path), rows);
    assert(out->Object_0[k] == edit_member(members[k], Some(path), rows));
}

} // verus!
