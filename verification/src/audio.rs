//! The decisions of the audio engine: which channel a command addresses, which
//! files may hold a sound, how RPG Maker's percentages are bounded, and which
//! sound handles each channel holds.
use vstd::prelude::*;
use crate::text::{push_str, str_eq, string_from_chars};

verus! {

/// The audio channels of RPG Maker that hold at most one playing sound each.
#[derive(Clone, Copy, PartialEq, Eq, Structural, Debug)]
pub enum PersistentAudioKind {
    Bgm,
    Bgs,
    Me,
}

impl PersistentAudioKind {
    /// The folder under `audio/` holding the files of this channel.
    pub open spec fn spec_folder(self) -> Seq<char> {
        match self {
            PersistentAudioKind::Bgm => "bgm"@,
            PersistentAudioKind::Bgs => "bgs"@,
            PersistentAudioKind::Me => "me"@,
        }
    }

    /// The folder under `audio/` holding the files of this channel.
    pub fn folder(self) -> (r: &'static str)
        ensures
            r@ == self.spec_folder(),
    {
        match self {
            PersistentAudioKind::Bgm => "bgm",
            PersistentAudioKind::Bgs => "bgs",
            PersistentAudioKind::Me => "me",
        }
    }

    /// Background music and background sound loop; music effects play once.
    pub fn loops(self) -> (r: bool)
        ensures
            r <==> (self == PersistentAudioKind::Bgm || self == PersistentAudioKind::Bgs),
    {
        match self {
            PersistentAudioKind::Bgm | PersistentAudioKind::Bgs => true,
            PersistentAudioKind::Me => false,
        }
    }
}

/// What a play command starts: a sound on a persistent channel, or a sound
/// effect, of which any number may play at once.
#[derive(Clone, Copy, PartialEq, Eq, Structural, Debug)]
pub enum PlayTarget {
    Persistent(PersistentAudioKind),
    SoundEffect,
}

/// What a stop command stops: the sound of a persistent channel, or every
/// sound effect.
#[derive(Clone, Copy, PartialEq, Eq, Structural, Debug)]
pub enum StopTarget {
    Persistent(PersistentAudioKind),
    SoundEffects,
}

/// The persistent channel that the RPG Maker kind name `kind` names.
pub open spec fn persistent_kind_named(kind: Seq<char>) -> Option<PersistentAudioKind> {
    if kind == "bgm"@ {
        Some(PersistentAudioKind::Bgm)
    } else if kind == "bgs"@ {
        Some(PersistentAudioKind::Bgs)
    } else if kind == "me"@ {
        Some(PersistentAudioKind::Me)
    } else {
        None
    }
}

fn persistent_kind(kind: &str) -> (r: Option<PersistentAudioKind>)
    ensures
        r == persistent_kind_named(kind@),
{
    if str_eq(kind, "bgm") {
        Some(PersistentAudioKind::Bgm)
    } else if str_eq(kind, "bgs") {
        Some(PersistentAudioKind::Bgs)
    } else if str_eq(kind, "me") {
        Some(PersistentAudioKind::Me)
    } else {
        None
    }
}

fn message_with(prefix: &str, subject: &str) -> (r: String)
    ensures
        r@ == prefix@ + subject@,
{
    let mut text: Vec<char> = Vec::new();
    push_str(&mut text, prefix);
    push_str(&mut text, subject);
    string_from_chars(&text)
}

/// The error for a kind that no channel has.
pub open spec fn unsupported_kind_message(kind: Seq<char>) -> Seq<char> {
    "unsupported RPG Maker audio kind: "@ + kind
}

/// What a play command for `kind` starts: `bgm`, `bgs` and `me` their
/// channels, `se` a sound effect; any other kind is an error.
pub fn play_target(kind: &str) -> (r: Result<PlayTarget, String>)
    ensures
        persistent_kind_named(kind@) matches Some(k) ==> r == Ok::<PlayTarget, String>(
            PlayTarget::Persistent(k),
        ),
        persistent_kind_named(kind@) is None && kind@ == "se"@ ==> r == Ok::<PlayTarget, String>(
            PlayTarget::SoundEffect,
        ),
        persistent_kind_named(kind@) is None && kind@ != "se"@ ==> (r matches Err(m) && m@
            == unsupported_kind_message(kind@)),
{
    match persistent_kind(kind) {
        Some(k) => Ok(PlayTarget::Persistent(k)),
        None => if str_eq(kind, "se") {
            Ok(PlayTarget::SoundEffect)
        } else {
            Err(message_with("unsupported RPG Maker audio kind: ", kind))
        },
    }
}

/// What a stop command for `kind` stops, in order: `bgm`, `bgs` and `me`
/// their channels, `se` every sound effect, and `all` the music effect, the
/// background music, the background sound and then every sound effect; any
/// other kind is an error.
pub fn stop_targets(kind: &str) -> (r: Result<Vec<StopTarget>, String>)
    ensures
        persistent_kind_named(kind@) matches Some(k) ==> (r matches Ok(ts) && ts@ == seq![
            StopTarget::Persistent(k),
        ]),
        persistent_kind_named(kind@) is None && kind@ == "se"@ ==> (r matches Ok(ts) && ts@
            == seq![StopTarget::SoundEffects]),
        persistent_kind_named(kind@) is None && kind@ != "se"@ && kind@ == "all"@ ==> (r matches Ok(
            ts,
        ) && ts@ == seq![
            StopTarget::Persistent(PersistentAudioKind::Me),
            StopTarget::Persistent(PersistentAudioKind::Bgm),
            StopTarget::Persistent(PersistentAudioKind::Bgs),
            StopTarget::SoundEffects,
        ]),
        persistent_kind_named(kind@) is None && kind@ != "se"@ && kind@ != "all"@ ==> (r matches Err(
            m,
        ) && m@ == unsupported_kind_message(kind@)),
{
    let mut targets: Vec<StopTarget> = Vec::new();
    match persistent_kind(kind) {
        Some(k) => {
            targets.push(StopTarget::Persistent(k));
        },
        None => if str_eq(kind, "se") {
            targets.push(StopTarget::SoundEffects);
        } else if str_eq(kind, "all") {
            targets.push(StopTarget::Persistent(PersistentAudioKind::Me));
            targets.push(StopTarget::Persistent(PersistentAudioKind::Bgm));
            targets.push(StopTarget::Persistent(PersistentAudioKind::Bgs));
            targets.push(StopTarget::SoundEffects);
        } else {
            return Err(message_with("unsupported RPG Maker audio kind: ", kind));
        },
    }
    Ok(targets)
}

/// The channel that a fade-out command for `kind` fades: `bgm`, `bgs` or
/// `me`; any other kind is an error.
pub fn fade_target(kind: &str) -> (r: Result<PersistentAudioKind, String>)
    ensures
        persistent_kind_named(kind@) matches Some(k) ==> r == Ok::<PersistentAudioKind, String>(k),
        persistent_kind_named(kind@) is None ==> (r matches Err(m) && m@
            == "unsupported RPG Maker fade target: "@ + kind@),
{
    match persistent_kind(kind) {
        Some(k) => Ok(k),
        None => Err(message_with("unsupported RPG Maker fade target: ", kind)),
    }
}

/// The name of the sound a command plays, unless it is missing or empty, in
/// which case nothing plays.
pub fn playable_name(name: Option<&str>) -> (r: Option<&str>)
    ensures
        r == (match name {
            Some(n) => if n@.len() > 0 {
                Some(n)
            } else {
                None
            },
            None => None,
        }),
{
    match name {
        Some(n) => if n.is_empty() {
            None
        } else {
            Some(n)
        },
        None => None,
    }
}

/// The file names, in the order they are tried, that may hold the sound
/// `name`: an Ogg Vorbis file, then an MPEG-4 audio file.
pub fn audio_file_names(name: &str) -> (r: Vec<String>)
    ensures
        r@.len() == 2,
        r@[0]@ == name@ + ".ogg"@,
        r@[1]@ == name@ + ".m4a"@,
{
    let mut names: Vec<String> = Vec::new();
    names.push(message_with(name, ".ogg"));
    names.push(message_with(name, ".m4a"));
    names
}

/// The error for a sound that neither file holds.
pub fn missing_audio_message(folder: &str, name: &str) -> (r: String)
    ensures
        r@ == "missing RPG Maker audio file: audio/"@ + folder@ + "/"@ + name@ + ".ogg or .m4a"@,
{
    let mut text: Vec<char> = Vec::new();
    push_str(&mut text, "missing RPG Maker audio file: audio/");
    push_str(&mut text, folder);
    push_str(&mut text, "/");
    push_str(&mut text, name);
    push_str(&mut text, ".ogg or .m4a");
    string_from_chars(&text)
}

/// `value` bounded to `low..=high`.
pub open spec fn clamp_int(value: int, low: int, high: int) -> int {
    if value < low {
        low
    } else if value > high {
        high
    } else {
        value
    }
}

/// The volume of a command in percent: 100 where it gives none, and
/// bounded to `0..=100`.
pub fn volume_percent(volume: Option<i32>) -> (r: i32)
    ensures
        r == clamp_int(
            match volume {
                Some(v) => v as int,
                None => 100,
            },
            0,
            100,
        ),
{
    let v = match volume {
        Some(v) => v,
        None => 100,
    };
    if v < 0 {
        0
    } else if v > 100 {
        100
    } else {
        v
    }
}

/// The pitch of a command in percent of the normal rate: 100 where it gives
/// none, and at least 1.
pub fn pitch_percent(pitch: Option<i32>) -> (r: i32)
    ensures
        r == (match pitch {
            Some(p) => if p < 1 {
                1
            } else {
                p as int
            },
            None => 100,
        }),
{
    match pitch {
        Some(p) => if p < 1 {
            1
        } else {
            p
        },
        None => 100,
    }
}

/// The pan of a command in percent to the right: 0 where it gives none, and
/// bounded to `-100..=100`.
pub fn pan_percent(pan: Option<i32>) -> (r: i32)
    ensures
        r == clamp_int(
            match pan {
                Some(p) => p as int,
                None => 0,
            },
            -100,
            100,
        ),
{
    let p = match pan {
        Some(p) => p,
        None => 0,
    };
    if p < -100 {
        -100
    } else if p > 100 {
        100
    } else {
        p
    }
}

} // verus!
