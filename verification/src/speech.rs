//! Decisions of the reading pipeline: the settings a reading uses, the text
//! it reads, and when the watcher of a playback stops.

use vstd::prelude::*;
use crate::language_detector::{
    detect_with_lingua, language_from_detection, language_of, lingua_may_find, DetectedLanguage,
};
use crate::chars::trim;
use crate::textutils::{read_vars, read_vars_text};
use crate::translator::{text_to_read, translate_if_needed};
use crate::tts::{create_tts_engine, Platform, PlatformTts, TtsEngine};

verus! {

/// What a reading takes from the saved settings.
#[derive(Debug)]
pub struct SpeechSettings {
    pub dev_mode: bool,
    pub source_language: String,
    pub target_language: String,
}

/// The settings a reading uses: the saved ones when they could be read,
/// otherwise no developer mode, automatic source language and French as
/// the target.
pub fn settings_or_default(saved: Option<SpeechSettings>) -> (s: SpeechSettings)
    ensures
        match saved {
            Some(c) => s == c,
            None => !s.dev_mode && s.source_language@ == "auto"@ && s.target_language@ == "fr"@,
        },
{
    match saved {
        Some(c) => c,
        None => SpeechSettings {
            dev_mode: false,
            source_language: "auto".to_owned(),
            target_language: "fr".to_owned(),
        },
    }
}

/// The text a reading works on: in developer mode identifiers are spelled
/// out as words first. No other cleaning step is applied: the text is
/// otherwise read as it was given.
pub open spec fn speech_text_of(text: Seq<char>, dev_mode: bool) -> Seq<char> {
    if dev_mode {
        read_vars_text(text)
    } else {
        text
    }
}

/// The text a reading works on (identifiers spelled out in developer mode,
/// nothing else changed).
pub fn speech_text(text: &str, dev_mode: bool) -> (r: String)
    ensures
        r@ == speech_text_of(text@, dev_mode),
{
    if dev_mode {
        read_vars(text)
    } else {
        text.to_owned()
    }
}

/// What a reading speaks, and the engine that speaks it.
#[derive(Debug)]
pub struct PreparedReading {
    pub text: String,
    pub engine: PlatformTts,
}

/// The engine of `platform` as a reading leaves it: set to `target` and to
/// `speed`, its other settings the platform's defaults.
pub open spec fn reading_engine(e: PlatformTts, platform: Platform, target: Seq<char>, speed: i32) -> bool {
    match e {
        PlatformTts::Espeak(x) => platform == Platform::Linux && x.lang@ == target && x.speed
            == speed && x.pitch == 50 && x.amplitude == 100 && x.output_file@ == "/dev/shm/out.wav"@,
        PlatformTts::Say(x) => platform == Platform::MacOs && x.lang@ == target && x.speed == speed,
    }
}

/// Prepares a reading of the text worked on, `worked`, once lingua has
/// reported `found` for it: the text translated with `translate` when the
/// settings ask for it, and the engine of `platform` set to the target
/// language and to `speed`.
pub fn prepare_detected_reading<F: Fn(&str, &str, &str) -> Result<String, String>>(
    worked: &str,
    found: Option<DetectedLanguage>,
    settings: &SpeechSettings,
    platform: Platform,
    speed: i32,
    translate: &F,
) -> (r: PreparedReading)
    requires
        forall|a: &str, b: &str, c: &str| call_requires(*translate, (a, b, c)),
    ensures
        text_to_read(
            worked@,
            language_of(found),
            settings.source_language@,
            settings.target_language@,
            *translate,
            r.text@,
        ),
        reading_engine(r.engine, platform, settings.target_language@, speed),
{
    let detected = language_from_detection(found);
    let read = translate_if_needed(
        worked,
        detected,
        settings.source_language.as_str(),
        settings.target_language.as_str(),
        translate,
    );
    let read = match read {
        Ok(t) => t,
        Err(_) => String::new(),
    };
    let mut engine = create_tts_engine(platform);
    engine.set_lang(settings.target_language.clone());
    engine.set_speed(speed);
    PreparedReading { text: read, engine }
}

/// Prepares a reading of `text` with `settings`: the text worked on, its
/// language as lingua detects it, translated with `translate` when the
/// settings ask for it; and the engine of `platform` set to the target
/// language and to `speed`. Whatever lingua reports, the reading is the
/// one `prepare_detected_reading` makes of it.
pub fn prepare_reading<F: Fn(&str, &str, &str) -> Result<String, String>>(
    text: &str,
    settings: &SpeechSettings,
    platform: Platform,
    speed: i32,
    translate: &F,
) -> (r: PreparedReading)
    requires
        forall|a: &str, b: &str, c: &str| call_requires(*translate, (a, b, c)),
    ensures
        exists|found: Option<DetectedLanguage>|
            lingua_may_find(speech_text_of(text@, settings.dev_mode), found) && text_to_read(
                speech_text_of(text@, settings.dev_mode),
                language_of(found),
                settings.source_language@,
                settings.target_language@,
                *translate,
                r.text@,
            ),
        trim(speech_text_of(text@, settings.dev_mode)).len() == 0 ==> text_to_read(
            speech_text_of(text@, settings.dev_mode),
            DetectedLanguage::French,
            settings.source_language@,
            settings.target_language@,
            *translate,
            r.text@,
        ),
        reading_engine(r.engine, platform, settings.target_language@, speed),
{
    let worked = speech_text(text, settings.dev_mode);
    let found = detect_with_lingua(worked.as_str());
    prepare_detected_reading(worked.as_str(), found, settings, platform, speed, translate)
}

/// What the watcher of a playback sees of the player.
#[derive(Debug, Clone, Copy, PartialEq, Eq, Structural)]
pub enum PlayerState {
    /// The player could not be looked at.
    Unavailable,
    /// No playback is kept.
    Idle,
    /// A playback is kept; `finished` when it has nothing left to play.
    Playing { finished: bool },
}

/// What the watcher does after one look.
#[derive(Debug, Clone, Copy, PartialEq, Eq, Structural)]
pub enum WatchAction {
    /// Look again later.
    KeepWaiting,
    /// Stop watching, silently.
    StopWatching,
    /// Tell the window that playback finished, and stop watching.
    AnnounceFinished,
}

/// How long a playback is watched at most: ten minutes, in nanoseconds.
pub const WATCH_LIMIT_NANOS: u128 = 600_000_000_000;

/// What the watcher of playback `watcher_id` does when the newest playback
/// is `current_id`, the player is in `player` and `elapsed_nanos` have
/// passed since it started: a watcher of an older playback, or one that
/// cannot look at the player, stops silently; a finished playback, or one
/// watched for more than the limit, is announced as finished.
pub open spec fn watch_decision(
    watcher_id: u128,
    current_id: u128,
    player: PlayerState,
    elapsed_nanos: u128,
) -> WatchAction {
    if current_id != watcher_id {
        WatchAction::StopWatching
    } else {
        match player {
            PlayerState::Unavailable => WatchAction::StopWatching,
            PlayerState::Playing { finished: true } => WatchAction::AnnounceFinished,
            _ => if elapsed_nanos > WATCH_LIMIT_NANOS {
                WatchAction::AnnounceFinished
            } else {
                WatchAction::KeepWaiting
            },
        }
    }
}

/// What the watcher of a playback does after one look.
pub fn watch_step(watcher_id: u128, current_id: u128, player: PlayerState, elapsed_nanos: u128) -> (r:
    WatchAction)
    ensures
        r == watch_decision(watcher_id, current_id, player, elapsed_nanos),
{
    if current_id != watcher_id {
        return WatchAction::StopWatching;
    }
    match player {
        PlayerState::Unavailable => WatchAction::StopWatching,
        PlayerState::Playing { finished: true } => WatchAction::AnnounceFinished,
        _ => if elapsed_nanos > WATCH_LIMIT_NANOS {
            WatchAction::AnnounceFinished
        } else {
            WatchAction::KeepWaiting
        },
    }
}

/// A newer reading silences the watcher of an older one: it stops without
/// announcing anything, whatever the player shows.
pub proof fn law_superseded_watcher_is_silent(
    watcher_id: u128,
    current_id: u128,
    player: PlayerState,
    elapsed_nanos: u128,
)
    requires
        watcher_id != current_id,
    ensures
        watch_decision(watcher_id, current_id, player, elapsed_nanos) == WatchAction::StopWatching,
{
}

/// The watcher of the newest playback never waits past the limit.
pub proof fn law_watch_is_bounded(watcher_id: u128, player: PlayerState, elapsed_nanos: u128)
    requires
        elapsed_nanos > WATCH_LIMIT_NANOS,
    ensures
        watch_decision(watcher_id, watcher_id, player, elapsed_nanos) != WatchAction::KeepWaiting,
{
}

} // verus!
