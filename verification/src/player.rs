//! Choosing the Apple Music player among the media players.
//!
//! The compositor reports its windows (`HyprlandClient`), the media
//! controller lists its players one per line, and the process table gives
//! each Chromium instance's command line. From these plain values the
//! library picks the player to follow.

use vstd::prelude::*;
use crate::text::{
    chars_of, contains_chars, has_infix, has_prefix, remove_all, remove_all_chars, split, split_chars,
    starts_with_chars, string_of, string_views, trim, trim_chars, views, lemma_trim_idempotent,
    occurs_at,
};

verus! {

/// A window client as the compositor reports it.
#[derive(Debug)]
pub struct HyprlandClient {
    /// Process ID of the client window.
    pub pid: i32,
    /// Current window title.
    pub title: String,
    /// Window class identifier.
    pub class: String,
}

/// Whether a window belongs to Apple Music: its title contains
/// `Apple Music` or its class contains `apple-music`.
pub open spec fn is_apple_music_window(title: Seq<char>, class: Seq<char>) -> bool {
    has_infix(title, "Apple Music"@) || has_infix(class, "apple-music"@)
}

/// The process IDs of the Apple Music windows, in window order.
pub open spec fn apple_music_pids_of(clients: Seq<HyprlandClient>) -> Seq<i32>
    decreases clients.len(),
{
    if clients.len() == 0 {
        Seq::empty()
    } else {
        let prev = apple_music_pids_of(clients.drop_last());
        let c = clients.last();
        if is_apple_music_window(c.title@, c.class@) {
            prev.push(c.pid)
        } else {
            prev
        }
    }
}

/// The trimmed lines of a text that are not blank, in order.
pub open spec fn nonblank_trimmed(pieces: Seq<Seq<char>>) -> Seq<Seq<char>>
    decreases pieces.len(),
{
    if pieces.len() == 0 {
        Seq::empty()
    } else {
        let prev = nonblank_trimmed(pieces.drop_last());
        let t = trim(pieces.last());
        if t.len() > 0 {
            prev.push(t)
        } else {
            prev
        }
    }
}

/// The player names in the media controller's listing: each line trimmed,
/// blank lines dropped.
pub open spec fn player_list(output: Seq<char>) -> Seq<Seq<char>> {
    nonblank_trimmed(split(output, '\n'))
}

/// The decimal digit character for `d` in `0..10`.
pub open spec fn digit_char(d: int) -> char {
    (48 + d) as char
}

/// The decimal representation of a natural number.
pub open spec fn decimal_digits(m: nat) -> Seq<char>
    decreases m,
{
    if m < 10 {
        seq![digit_char(m as int)]
    } else {
        decimal_digits(m / 10).push(digit_char((m % 10) as int))
    }
}

/// The decimal representation of an integer, as `{}` formats it.
pub open spec fn decimal(n: int) -> Seq<char> {
    if n < 0 {
        seq!['-'] + decimal_digits((-n) as nat)
    } else {
        decimal_digits(n as nat)
    }
}

/// The prefix of the names that Chromium instances register.
pub open spec fn instance_prefix() -> Seq<char> {
    "chromium.instance"@
}

/// The player name of the Chromium instance with process ID `pid`.
pub open spec fn instance_name(pid: i32) -> Seq<char> {
    instance_prefix() + decimal(pid as int)
}

/// The first element of `s` that satisfies `p`.
pub open spec fn first_where<A>(s: Seq<A>, p: spec_fn(A) -> bool) -> Option<A>
    decreases s.len(),
{
    if s.len() == 0 {
        None
    } else if p(s[0]) {
        Some(s[0])
    } else {
        first_where(s.drop_first(), p)
    }
}

/// Whether a command line shows the Apple Music web app.
pub open spec fn is_apple_music_cmdline(cmdline: Seq<char>) -> bool {
    has_infix(cmdline, "music.apple.com"@) || has_infix(cmdline, "apple-music-chrome"@)
}

/// Whether a player, paired with the command line read for it, is a
/// Chromium instance running the Apple Music web app.
pub open spec fn runs_apple_music(entry: (Seq<char>, Option<Seq<char>>)) -> bool {
    has_prefix(entry.0, instance_prefix()) && match entry.1 {
        Some(c) => is_apple_music_cmdline(c),
        None => false,
    }
}

/// The player to follow.
///
/// First, the instance of the first Apple Music window whose player is
/// listed; then the first Chromium instance whose command line shows Apple
/// Music; then the first player whose name contains `chromium`. Other
/// media players are never chosen.
pub open spec fn chosen_player(
    pids: Seq<i32>,
    players: Seq<Seq<char>>,
    cmdlines: Seq<Option<Seq<char>>>,
) -> Option<Seq<char>> {
    match first_where(pids, |pid: i32| players.contains(instance_name(pid))) {
        Some(pid) => Some(instance_name(pid)),
        None => match first_where(
            Seq::new(players.len(), |i: int| (players[i], cmdlines[i])),
            |e: (Seq<char>, Option<Seq<char>>)| runs_apple_music(e),
        ) {
            Some(e) => Some(e.0),
            None => match first_where(players, |p: Seq<char>| has_infix(p, "chromium"@)) {
                Some(p) => Some(p),
                None => None,
            },
        },
    }
}

proof fn lemma_first_where_skip<A>(s: Seq<A>, p: spec_fn(A) -> bool, i: int)
    requires
        0 <= i < s.len(),
        !p(s[i]),
    ensures
        first_where(s.skip(i), p) == first_where(s.skip(i + 1), p),
{
    assert(s.skip(i).drop_first() == s.skip(i + 1));
}

/// The process IDs of the Apple Music windows.
pub fn apple_music_pids(clients: &[HyprlandClient]) -> (pids: Vec<i32>)
    ensures
        pids@ == apple_music_pids_of(clients@),
{
    let apple = chars_of("Apple Music");
    let apple_class = chars_of("apple-music");
    let mut pids: Vec<i32> = Vec::new();
    let n = clients.len();
    let mut i: usize = 0;
    assert(clients@.take(0) == Seq::<HyprlandClient>::empty());
    while i < n
        invariant
            n == clients@.len(),
            0 <= i <= n,
            apple@ == "Apple Music"@,
            apple_class@ == "apple-music"@,
            pids@ == apple_music_pids_of(clients@.take(i as int)),
        decreases n - i,
    {
        let c = &clients[i];
        proof {
            let u = clients@.take(i + 1);
            assert(u.drop_last() == clients@.take(i as int));
            assert(u.last() == clients@[i as int]);
        }
        let title = chars_of(c.title.as_str());
        let class = chars_of(c.class.as_str());
        if contains_chars(&title, &apple) || contains_chars(&class, &apple_class) {
            pids.push(c.pid);
        }
        i = i + 1;
    }
    assert(clients@.take(n as int) == clients@);
    pids
}

/// The player names listed by the media controller, one per line.
pub fn parse_player_list(output: &str) -> (players: Vec<String>)
    ensures
        string_views(players@) == player_list(output@),
{
    let text = chars_of(output);
    let lines = split_chars(&text, '\n');
    let mut players: Vec<String> = Vec::new();
    let n = lines.len();
    let mut i: usize = 0;
    assert(views(lines@).take(0) == Seq::<Seq<char>>::empty());
    while i < n
        invariant
            n == lines@.len(),
            0 <= i <= n,
            string_views(players@) == nonblank_trimmed(views(lines@).take(i as int)),
        decreases n - i,
    {
        proof {
            let u = views(lines@).take(i + 1);
            assert(u.drop_last() == views(lines@).take(i as int));
            assert(u.last() == lines@[i as int]@);
        }
        let t = trim_chars(lines[i].as_slice());
        if t.len() > 0 {
            let ghost before = string_views(players@);
            players.push(string_of(&t));
            assert(string_views(players@) == before.push(t@));
        }
        i = i + 1;
    }
    assert(views(lines@).take(n as int) == views(lines@));
    players
}

fn decimal_of_nat(m: u32) -> (v: Vec<char>)
    ensures
        v@ == decimal_digits(m as nat),
    decreases m,
{
    if m < 10 {
        let d = (48 + m) as u8 as char;
        assert(d == digit_char(m as int));
        vec![d]
    } else {
        let mut v = decimal_of_nat(m / 10);
        let d = (48 + m % 10) as u8 as char;
        assert(d == digit_char((m % 10) as int));
        v.push(d);
        v
    }
}

/// The player name of the Chromium instance with process ID `pid`
/// (`chromium.instance{pid}`).
pub fn instance_player_name(pid: i32) -> (name: String)
    ensures
        name@ == instance_name(pid),
{
    let mut v = chars_of("chromium.instance");
    let magnitude: u32 = if pid < 0 {
        (-(pid as i64)) as u32
    } else {
        pid as u32
    };
    let mut digits = decimal_of_nat(magnitude);
    if pid < 0 {
        v.push('-');
    }
    v.append(&mut digits);
    proof {
        if pid < 0 {
            assert(v@ == instance_prefix() + (seq!['-'] + decimal_digits((-(pid as int)) as nat)));
        }
    }
    string_of(&v)
}

/// The process ID text of a Chromium instance's player name: the name with
/// every `chromium.instance` removed, for names that start with it.
pub fn instance_pid_text(player: &str) -> (pid: Option<String>)
    ensures
        match pid {
            Some(t) => has_prefix(player@, instance_prefix()) && t@ == remove_all(
                player@,
                instance_prefix(),
            ),
            None => !has_prefix(player@, instance_prefix()),
        },
{
    let name = chars_of(player);
    let prefix = chars_of("chromium.instance");
    if starts_with_chars(&name, &prefix) {
        proof {
            reveal_strlit("chromium.instance");
        }
        let rest = remove_all_chars(&name, &prefix);
        Some(string_of(&rest))
    } else {
        None
    }
}

/// Picks the player to follow (see `chosen_player`); `cmdlines[i]` is the
/// command line read for `players[i]`, where one was read.
#[verifier::loop_isolation(false)]
pub fn select_player(pids: &[i32], players: &[String], cmdlines: &[Option<String>]) -> (chosen:
    Option<String>)
    requires
        cmdlines@.len() == players@.len(),
    ensures
        match chosen {
            Some(p) => chosen_player(
                pids@,
                string_views(players@),
                cmdlines@.map_values(|c: Option<String>| match c {
                    Some(s) => Some(s@),
                    None => None,
                }),
            ) == Some(p@),
            None => chosen_player(
                pids@,
                string_views(players@),
                cmdlines@.map_values(|c: Option<String>| match c {
                    Some(s) => Some(s@),
                    None => None,
                }),
            ) is None,
        },
{
    let ghost names = string_views(players@);
    let ghost cls = cmdlines@.map_values(|c: Option<String>| match c {
        Some(s) => Some(s@),
        None => None,
    });
    let ghost pid_pred = |pid: i32| names.contains(instance_name(pid));
    // 1. the instance of an Apple Music window
    let mut k: usize = 0;
    assert(pids@.skip(0) == pids@);
    while k < pids.len()
        invariant
            0 <= k <= pids@.len(),
            first_where(pids@, pid_pred) == first_where(pids@.skip(k as int), pid_pred),
        decreases pids@.len() - k,
    {
        let expected = instance_player_name(pids[k]);
        let mut j: usize = 0;
        while j < players.len()
            invariant
                0 <= j <= players@.len(),
                names == string_views(players@),
                expected@ == instance_name(pids@[k as int]),
                forall|q: int| 0 <= q < j ==> names[q] != expected@,
            decreases players@.len() - j,
        {
            if players[j] == expected {
                proof {
                    assert(names[j as int] == expected@);
                    assert(pid_pred(pids@[k as int]));
                    assert(pids@.skip(k as int)[0] == pids@[k as int]);
                }
                return Some(expected);
            }
            j = j + 1;
        }
        proof {
            assert(!names.contains(expected@));
            lemma_first_where_skip(pids@, pid_pred, k as int);
        }
        k = k + 1;
    }
    assert(pids@.skip(pids@.len() as int).len() == 0);
    // 2. a Chromium instance running the Apple Music web app
    let ghost pairs = Seq::new(names.len(), |i: int| (names[i], cls[i]));
    let ghost run_pred = |e: (Seq<char>, Option<Seq<char>>)| runs_apple_music(e);
    let prefix = chars_of("chromium.instance");
    let music = chars_of("music.apple.com");
    let music_app = chars_of("apple-music-chrome");
    let mut i: usize = 0;
    assert(pairs.skip(0) == pairs);
    while i < players.len()
        invariant
            0 <= i <= players@.len(),
            cmdlines@.len() == players@.len(),
            names == string_views(players@),
            pairs == Seq::new(names.len(), |i: int| (names[i], cls[i])),
            cls == cmdlines@.map_values(|c: Option<String>| match c {
                Some(s) => Some(s@),
                None => None,
            }),
            prefix@ == instance_prefix(),
            music@ == "music.apple.com"@,
            music_app@ == "apple-music-chrome"@,
            first_where(pairs, run_pred) == first_where(pairs.skip(i as int), run_pred),
        decreases players@.len() - i,
    {
        let name = chars_of(players[i].as_str());
        let mut hit = false;
        if starts_with_chars(&name, &prefix) {
            match &cmdlines[i] {
                Some(c) => {
                    let cmd = chars_of(c.as_str());
                    hit = contains_chars(&cmd, &music) || contains_chars(&cmd, &music_app);
                },
                None => {},
            }
        }
        proof {
            assert(pairs[i as int] == (names[i as int], cls[i as int]));
            assert(hit == run_pred(pairs[i as int]));
        }
        if hit {
            assert(pairs.skip(i as int)[0] == pairs[i as int]);
            return Some(players[i].clone());
        }
        proof {
            lemma_first_where_skip(pairs, run_pred, i as int);
        }
        i = i + 1;
    }
    assert(pairs.skip(pairs.len() as int).len() == 0);
    // 3. any Chromium player
    let ghost chromium_pred = |p: Seq<char>| has_infix(p, "chromium"@);
    let chromium = chars_of("chromium");
    let mut i: usize = 0;
    assert(names.skip(0) == names);
    while i < players.len()
        invariant
            0 <= i <= players@.len(),
            names == string_views(players@),
            chromium@ == "chromium"@,
            first_where(names, chromium_pred) == first_where(names.skip(i as int), chromium_pred),
        decreases players@.len() - i,
    {
        let name = chars_of(players[i].as_str());
        if contains_chars(&name, &chromium) {
            assert(names.skip(i as int)[0] == names[i as int]);
            return Some(players[i].clone());
        }
        proof {
            lemma_first_where_skip(names, chromium_pred, i as int);
        }
        i = i + 1;
    }
    assert(names.skip(names.len() as int).len() == 0);
    None
}

proof fn lemma_first_where<A>(s: Seq<A>, p: spec_fn(A) -> bool)
    ensures
        first_where(s, p) matches Some(x) ==> s.contains(x) && p(x),
        first_where(s, p) is None ==> forall|i: int| 0 <= i < s.len() ==> !p(#[trigger] s[i]),
    decreases s.len(),
{
    if s.len() > 0 {
        lemma_first_where(s.drop_first(), p);
        if !p(s[0]) {
            if let Some(x) = first_where(s.drop_first(), p) {
                let k = choose|k: int| 0 <= k < s.drop_first().len() && s.drop_first()[k] == x;
                assert(s[k + 1] == x);
            } else {
                assert forall|i: int| 0 <= i < s.len() implies !p(#[trigger] s[i]) by {
                    if i > 0 {
                        assert(s[i] == s.drop_first()[i - 1]);
                    }
                }
            }
        } else {
            assert(s[0] == s[0]);
        }
    }
}

/// Only Chromium players are followed: a player is chosen exactly when a
/// listed player's name contains `chromium`, and the chosen player is
/// listed and is such a player.
pub proof fn lemma_chosen_player_listed(
    pids: Seq<i32>,
    players: Seq<Seq<char>>,
    cmdlines: Seq<Option<Seq<char>>>,
)
    requires
        cmdlines.len() == players.len(),
    ensures
        chosen_player(pids, players, cmdlines) is Some <==> exists|i: int|
            0 <= i < players.len() && has_infix(#[trigger] players[i], "chromium"@),
        chosen_player(pids, players, cmdlines) matches Some(p) ==> players.contains(p) && has_infix(
            p,
            "chromium"@,
        ),
{
    let pid_pred = |pid: i32| players.contains(instance_name(pid));
    let pairs = Seq::new(players.len(), |i: int| (players[i], cmdlines[i]));
    let run_pred = |e: (Seq<char>, Option<Seq<char>>)| runs_apple_music(e);
    let chromium_pred = |p: Seq<char>| has_infix(p, "chromium"@);
    lemma_first_where(pids, pid_pred);
    lemma_first_where(pairs, run_pred);
    lemma_first_where(players, chromium_pred);
    reveal_strlit("chromium");
    reveal_strlit("chromium.instance");
    assert forall|q: Seq<char>| has_prefix(q, instance_prefix()) implies has_infix(q, "chromium"@) by {
        assert(instance_prefix().subrange(0, 8) =~= "chromium"@);
        assert(q.subrange(0, 8) =~= q.take(17).subrange(0, 8));
        assert(occurs_at(q, "chromium"@, 0));
    }
    if let Some(pid) = first_where(pids, pid_pred) {
        let q = instance_name(pid);
        assert(q.take(17) == instance_prefix());
        assert(has_prefix(q, instance_prefix()));
        let k = choose|k: int| 0 <= k < players.len() && players[k] == q;
        assert(has_infix(players[k], "chromium"@));
    } else if let Some(e) = first_where(pairs, run_pred) {
        let k = choose|k: int| 0 <= k < pairs.len() && pairs[k] == e;
        assert(players[k] == e.0);
        assert(has_infix(players[k], "chromium"@));
    } else if let Some(q) = first_where(players, chromium_pred) {
    } else {
        assert forall|i: int| 0 <= i < players.len() implies !has_infix(#[trigger] players[i], "chromium"@) by {
            assert(!chromium_pred(players[i]));
        }
    }
}

/// The Apple Music window comes first: when the player of some Apple Music
/// window is listed, the chosen player is the player of an Apple Music
/// window, whatever other media players are active.
pub proof fn lemma_apple_music_window_first(
    pids: Seq<i32>,
    players: Seq<Seq<char>>,
    cmdlines: Seq<Option<Seq<char>>>,
    pid: i32,
)
    requires
        pids.contains(pid),
        players.contains(instance_name(pid)),
    ensures
        chosen_player(pids, players, cmdlines) matches Some(p) && exists|k: int|
            0 <= k < pids.len() && p == instance_name(pids[k]),
{
    let pid_pred = |q: i32| players.contains(instance_name(q));
    lemma_first_where(pids, pid_pred);
    let k = choose|k: int| 0 <= k < pids.len() && pids[k] == pid;
    assert(pid_pred(pids[k]));
    let q = first_where(pids, pid_pred)->0;
    let j = choose|j: int| 0 <= j < pids.len() && pids[j] == q;
    assert(instance_name(pids[j]) == instance_name(q));
}

proof fn lemma_nonblank_trimmed(pieces: Seq<Seq<char>>)
    ensures
        forall|j: int|
            0 <= j < nonblank_trimmed(pieces).len() ==> (#[trigger] nonblank_trimmed(pieces)[j]).len()
                > 0 && trim(nonblank_trimmed(pieces)[j]) == nonblank_trimmed(pieces)[j],
    decreases pieces.len(),
{
    if pieces.len() > 0 {
        lemma_nonblank_trimmed(pieces.drop_last());
        lemma_trim_idempotent(pieces.last());
        let prev = nonblank_trimmed(pieces.drop_last());
        let cur = nonblank_trimmed(pieces);
        assert forall|j: int| 0 <= j < cur.len() implies (#[trigger] cur[j]).len() > 0 && trim(cur[j])
            == cur[j] by {
            if j < prev.len() {
                assert(cur[j] == prev[j]);
            }
        }
    }
}

/// The listed player names are never blank and carry no surrounding white
/// space.
pub proof fn lemma_player_names_trimmed(output: Seq<char>)
    ensures
        forall|j: int|
            0 <= j < player_list(output).len() ==> (#[trigger] player_list(output)[j]).len() > 0
                && trim(player_list(output)[j]) == player_list(output)[j],
{
    lemma_nonblank_trimmed(split(output, '\n'));
}

proof fn lemma_first_where_index<A>(s: Seq<A>, p: spec_fn(A) -> bool, i: int)
    requires
        0 <= i < s.len(),
        p(s[i]),
        forall|k: int| 0 <= k < i ==> !p(#[trigger] s[k]),
    ensures
        first_where(s, p) == Some(s[i]),
    decreases i,
{
    if i > 0 {
        let d = s.drop_first();
        assert(!p(s[0]));
        assert forall|k: int| 0 <= k < i - 1 implies !p(#[trigger] d[k]) by {
            assert(d[k] == s[k + 1]);
        }
        assert(d[i - 1] == s[i]);
        lemma_first_where_index(d, p, i - 1);
    }
}

/// Whether a player is a Chromium instance whose command line, as read,
/// contains `music.apple.com` or `apple-music-chrome`.
pub open spec fn web_app_instance(player: Seq<char>, cmdline: Option<Seq<char>>) -> bool {
    has_prefix(player, "chromium.instance"@) && match cmdline {
        Some(c) => has_infix(c, "music.apple.com"@) || has_infix(c, "apple-music-chrome"@),
        None => false,
    }
}

/// The Apple Music web app is recognised by its command line: when no
/// Apple Music window's instance is listed, the chosen player is the first
/// listed player whose name starts with `chromium.instance` and whose
/// command line contains `music.apple.com` or `apple-music-chrome`.
pub proof fn lemma_command_line_instance_chosen(
    pids: Seq<i32>,
    players: Seq<Seq<char>>,
    cmdlines: Seq<Option<Seq<char>>>,
    i: int,
)
    requires
        cmdlines.len() == players.len(),
        forall|k: int| 0 <= k < pids.len() ==> !players.contains(#[trigger] instance_name(pids[k])),
        0 <= i < players.len(),
        web_app_instance(players[i], cmdlines[i]),
        forall|k: int| 0 <= k < i ==> !web_app_instance(#[trigger] players[k], cmdlines[k]),
    ensures
        chosen_player(pids, players, cmdlines) == Some(players[i]),
{
    let pid_pred = |pid: i32| players.contains(instance_name(pid));
    let pairs = Seq::new(players.len(), |x: int| (players[x], cmdlines[x]));
    let run_pred = |e: (Seq<char>, Option<Seq<char>>)| runs_apple_music(e);
    lemma_first_where(pids, pid_pred);
    if let Some(q) = first_where(pids, pid_pred) {
        let k = choose|k: int| 0 <= k < pids.len() && pids[k] == q;
        assert(!players.contains(instance_name(pids[k])));
    }
    assert(pairs[i] == (players[i], cmdlines[i]));
    assert forall|k: int| 0 <= k < i implies !run_pred(#[trigger] pairs[k]) by {
        assert(pairs[k] == (players[k], cmdlines[k]));
        assert(!web_app_instance(players[k], cmdlines[k]));
    }
    lemma_first_where_index(pairs, run_pred, i);
}

} // verus!
