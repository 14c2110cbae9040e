//! Track metadata as the media controller prints it, and the background
//! service's reaction to what it observes.
//!
//! The metadata is queried as `artUrl|title|artist[|album]`.

use vstd::prelude::*;
use crate::text::{chars_of, split, split_chars, string_of, string_views, trim, trim_chars};

verus! {

/// The trimmed `|`-separated fields of the trimmed metadata line.
pub open spec fn metadata_fields(meta: Seq<char>) -> Seq<Seq<char>> {
    split(trim(meta), '|').map_values(|p: Seq<char>| trim(p))
}

/// Splits a metadata line into its trimmed fields.
pub fn split_metadata(meta: &str) -> (fields: Vec<String>)
    ensures
        string_views(fields@) == metadata_fields(meta@),
{
    let line = chars_of(meta);
    let line = trim_chars(&line);
    let pieces = split_chars(&line, '|');
    let mut fields: Vec<String> = Vec::new();
    let mut i: usize = 0;
    while i < pieces.len()
        invariant
            0 <= i <= pieces@.len(),
            split(trim(meta@), '|') == crate::text::views(pieces@),
            string_views(fields@) == metadata_fields(meta@).take(i as int),
        decreases pieces@.len() - i,
    {
        let t = trim_chars(pieces[i].as_slice());
        let ghost before = string_views(fields@);
        fields.push(string_of(&t));
        assert(string_views(fields@) == before.push(t@));
        assert(metadata_fields(meta@).take(i + 1) == metadata_fields(meta@).take(i as int).push(t@));
        i = i + 1;
    }
    assert(metadata_fields(meta@).take(pieces@.len() as int) == metadata_fields(meta@));
    fields
}

/// The identity of a track for change detection, `title|artist`.
pub open spec fn track_id(title: Seq<char>, artist: Seq<char>) -> Seq<char> {
    title + seq!['|'] + artist
}

/// Whether a metadata line has the three fields the service reads.
pub open spec fn has_track(meta: Seq<char>) -> bool {
    metadata_fields(meta).len() >= 3
}

/// The identity of the track that a metadata line describes.
pub open spec fn track_id_of(meta: Seq<char>) -> Seq<char> {
    track_id(metadata_fields(meta)[1], metadata_fields(meta)[2])
}

/// What the service observed last.
pub struct DaemonState {
    /// `title|artist` of the last track the theme was set for; empty when
    /// none was.
    pub last_track_id: String,
    /// The player followed at the last poll.
    pub last_player: Option<String>,
}

/// What the service does after a poll.
pub enum DaemonAction {
    /// Nothing changed.
    Nothing,
    /// The player went away: the fallback theme is restored.
    RevertToDefaults,
    /// A new track without cover art: the fallback theme is applied.
    ApplyDefaults { title: String, artist: String },
    /// A new track: the theme is taken from its cover art.
    ApplyCoverArt { art_url: String, title: String, artist: String },
}

impl DaemonState {
    /// The state before the first poll.
    pub fn new() -> (s: Self)
        ensures
            s.last_track_id@ == Seq::<char>::empty(),
            s.last_player is None,
    {
        DaemonState { last_track_id: String::new(), last_player: None }
    }

    /// No player is active. If one was, the fallback theme is restored and
    /// the last track forgotten; otherwise nothing happens.
    pub fn player_lost(&mut self) -> (action: DaemonAction)
        ensures
            old(self).last_player is Some ==> {
                &&& action is RevertToDefaults
                &&& final(self).last_player is None
                &&& final(self).last_track_id@ == Seq::<char>::empty()
            },
            old(self).last_player is None ==> {
                &&& action is Nothing
                &&& final(self).last_player is None
                &&& final(self).last_track_id@ == old(self).last_track_id@
            },
    {
        if self.last_player.is_some() {
            self.last_player = None;
            self.last_track_id = String::new();
            DaemonAction::RevertToDefaults
        } else {
            DaemonAction::Nothing
        }
    }

    /// `player` is active and its metadata line is `metadata`. The player
    /// is remembered. When the line has the three fields and names another
    /// track than the last one, the track is remembered and the theme is
    /// taken from its cover art, or is the fallback where the art URL is
    /// empty.
    pub fn player_found(&mut self, player: String, metadata: &str) -> (action: DaemonAction)
        ensures
            final(self).last_player matches Some(p) && p@ == player@,
            !has_track(metadata@) || track_id_of(metadata@) == old(self).last_track_id@ ==> {
                &&& action is Nothing
                &&& final(self).last_track_id@ == old(self).last_track_id@
            },
            has_track(metadata@) && track_id_of(metadata@) != old(self).last_track_id@ ==> {
                let f = metadata_fields(metadata@);
                &&& final(self).last_track_id@ == track_id_of(metadata@)
                &&& f[0].len() > 0 ==> (action matches DaemonAction::ApplyCoverArt {
                    art_url,
                    title,
                    artist,
                } && art_url@ == f[0] && title@ == f[1] && artist@ == f[2])
                &&& f[0].len() == 0 ==> (action matches DaemonAction::ApplyDefaults {
                    title,
                    artist,
                } && title@ == f[1] && artist@ == f[2])
            },
    {
        self.last_player = Some(player);
        let fields = split_metadata(metadata);
        if fields.len() < 3 {
            return DaemonAction::Nothing;
        }
        let title = fields[1].clone();
        let artist = fields[2].clone();
        let mut id = chars_of(title.as_str());
        id.push('|');
        let mut artist_chars = chars_of(artist.as_str());
        id.append(&mut artist_chars);
        let id = string_of(&id);
        assert(id@ == track_id_of(metadata@));
        if id == self.last_track_id {
            return DaemonAction::Nothing;
        }
        self.last_track_id = id;
        let art_url = fields[0].clone();
        if art_url.as_str().unicode_len() > 0 {
            DaemonAction::ApplyCoverArt { art_url, title, artist }
        } else {
            DaemonAction::ApplyDefaults { title, artist }
        }
    }
}

/// The last track that the service remembers after seeing `meta` when it
/// remembered `last`.
pub open spec fn next_track_id(last: Seq<char>, meta: Seq<char>) -> Seq<char> {
    if has_track(meta) && track_id_of(meta) != last {
        track_id_of(meta)
    } else {
        last
    }
}

/// The same metadata seen twice changes the theme at most once: after the
/// first poll, the second sees no track change.
pub proof fn lemma_no_repeated_update(last: Seq<char>, meta: Seq<char>)
    ensures
        !(has_track(meta) && track_id_of(meta) != next_track_id(last, meta)),
        next_track_id(next_track_id(last, meta), meta) == next_track_id(last, meta),
{
}

} // verus!
