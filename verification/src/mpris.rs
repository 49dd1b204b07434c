//! Media players: the bar label for the current track and the mapping of user
//! actions to player methods.
use vstd::prelude::*;
use crate::json::str_eq;
use crate::text::{chars_of, push_all, push_str, starts_with, string_of};

verus! {

/// The track shown by the bar and the popup.
#[derive(Debug, Clone)]
pub struct Track {
    pub title: String,
    pub artist: String,
    pub playing: bool,
    pub player: String,
}

impl Default for Track {
    fn default() -> (r: Track)
        ensures
            r.title@ == Seq::<char>::empty(),
            r.artist@ == Seq::<char>::empty(),
            !r.playing,
            r.player@ == Seq::<char>::empty(),
    {
        Track { title: String::new(), artist: String::new(), playing: false, player: String::new() }
    }
}

/// `artist — title` when the artist is asked for and known, else the title.
pub open spec fn track_line(t: Track, show_artist: bool) -> Seq<char> {
    if show_artist && t.artist@.len() > 0 {
        t.artist@ + " — "@ + t.title@
    } else {
        t.title@
    }
}

/// A line cut to `max_chars` characters: the first `max_chars - 1` (saturating)
/// followed by an ellipsis when it is longer.
pub open spec fn clip(s: Seq<char>, max_chars: nat) -> Seq<char> {
    if s.len() > max_chars {
        s.take(if max_chars == 0 { 0 } else { max_chars - 1 }) + "…"@
    } else {
        s
    }
}

/// Pause icon while playing, play icon while paused.
pub open spec fn play_icon(playing: bool) -> Seq<char> {
    if playing {
        "󰏤"@
    } else {
        "󰏥"@
    }
}

/// The label: nothing without a track, while paused when asked to hide, or
/// without a title; otherwise the icon and the clipped line.
pub open spec fn spec_bar_text(
    t: Option<Track>,
    hide_on_pause: bool,
    show_artist: bool,
    max_chars: nat,
) -> Option<Seq<char>> {
    match t {
        None => None,
        Some(t) => if hide_on_pause && !t.playing {
            None
        } else if t.title@.len() == 0 {
            None
        } else {
            Some(play_icon(t.playing) + " "@ + clip(track_line(t, show_artist), max_chars))
        },
    }
}

pub open spec fn opt_text(r: Option<String>) -> Option<Seq<char>> {
    match r {
        Some(s) => Some(s@),
        None => None,
    }
}

pub open spec fn opt_track(t: Option<&Track>) -> Option<Track> {
    match t {
        Some(t) => Some(*t),
        None => None,
    }
}

/// Text for the media bar module.
pub fn bar_text(t: Option<&Track>, hide_on_pause: bool, show_artist: bool, max_chars: usize) -> (r:
    Option<String>)
    ensures
        opt_text(r) == spec_bar_text(opt_track(t), hide_on_pause, show_artist, max_chars as nat),
{
    let t = match t {
        Some(t) => t,
        None => return None,
    };
    if hide_on_pause && !t.playing {
        return None;
    }
    if t.title.as_str().is_empty() {
        return None;
    }
    let mut s: Vec<char> = Vec::new();
    if show_artist && !t.artist.as_str().is_empty() {
        push_str(&mut s, t.artist.as_str());
        push_str(&mut s, " — ");
        push_str(&mut s, t.title.as_str());
    } else {
        push_str(&mut s, t.title.as_str());
    }
    assert(s@ =~= track_line(*t, show_artist));
    let mut line: Vec<char> = Vec::new();
    if s.len() > max_chars {
        let keep: usize = if max_chars == 0 {
            0
        } else {
            max_chars - 1
        };
        let mut i: usize = 0;
        while i < keep
            invariant
                keep < s.len(),
                i <= keep,
                line@ == s@.take(i as int),
            decreases keep - i,
        {
            line.push(s[i]);
            i = i + 1;
            assert(line@ =~= s@.take(i as int));
        }
        push_str(&mut line, "…");
    } else {
        push_all(&mut line, &s);
        assert(line@ =~= s@);
    }
    let mut out: Vec<char> = Vec::new();
    push_str(&mut out, if t.playing { "󰏤" } else { "󰏥" });
    push_str(&mut out, " ");
    push_all(&mut out, &line);
    Some(string_of(out.as_slice()))
}

/// The clipped line never has more than `max_chars` characters (one, the
/// ellipsis, when `max_chars` is zero), and a line that fits is kept whole.
pub proof fn clip_fits(s: Seq<char>, max_chars: nat)
    ensures
        clip(s, max_chars).len() <= if max_chars == 0 { 1 } else { max_chars },
        s.len() <= max_chars ==> clip(s, max_chars) == s,
        s.len() > max_chars && max_chars > 0 ==> clip(s, max_chars).take(max_chars - 1) == s.take(
            max_chars - 1,
        ),
{
    reveal_strlit("…");
    if s.len() > max_chars && max_chars > 0 {
        assert(clip(s, max_chars).take(max_chars - 1) =~= s.take(max_chars - 1));
    }
}

/// The player method for a user action (`next`, `prev`, `play-pause`).
pub open spec fn spec_player_method(act: Seq<char>) -> Option<Seq<char>> {
    if act == "next"@ {
        Some("Next"@)
    } else if act == "prev"@ {
        Some("Previous"@)
    } else if act == "play-pause"@ {
        Some("PlayPause"@)
    } else {
        None
    }
}

/// The MPRIS method name called for an action; `None` for an unknown action.
pub fn player_method(act: &str) -> (r: Option<&'static str>)
    ensures
        match r {
            Some(m) => spec_player_method(act@) == Some(m@),
            None => spec_player_method(act@).is_none(),
        },
{
    if str_eq(act, "next") {
        Some("Next")
    } else if str_eq(act, "prev") {
        Some("Previous")
    } else if str_eq(act, "play-pause") {
        Some("PlayPause")
    } else {
        None
    }
}

/// The `playerctl` argument used when the bus is unavailable.
pub open spec fn spec_playerctl_arg(act: Seq<char>) -> Option<Seq<char>> {
    if act == "next"@ {
        Some("next"@)
    } else if act == "prev"@ {
        Some("previous"@)
    } else if act == "play-pause"@ {
        Some("play-pause"@)
    } else {
        None
    }
}

/// The fallback command's argument for an action; `None` for an unknown action.
pub fn playerctl_arg(act: &str) -> (r: Option<&'static str>)
    ensures
        match r {
            Some(a) => spec_playerctl_arg(act@) == Some(a@),
            None => spec_playerctl_arg(act@).is_none(),
        },
{
    if str_eq(act, "next") {
        Some("next")
    } else if str_eq(act, "prev") {
        Some("previous")
    } else if str_eq(act, "play-pause") {
        Some("play-pause")
    } else {
        None
    }
}

/// Both paths accept the same actions: an action has a player method exactly
/// when it has a fallback argument.
pub proof fn actions_agree(act: Seq<char>)
    ensures
        spec_player_method(act).is_some() == spec_playerctl_arg(act).is_some(),
{
}

/// Bus names of media players.
pub open spec fn spec_is_player_name(name: Seq<char>) -> bool {
    starts_with(name, "org.mpris.MediaPlayer2."@)
}

/// Is a bus name that of a media player?
pub fn is_player_name(name: &str) -> (r: bool)
    ensures
        r == spec_is_player_name(name@),
{
    let v = chars_of(name);
    let p = chars_of("org.mpris.MediaPlayer2.");
    crate::text::has_prefix(&v, &p)
}

} // verus!
