//! Speech engines: eSpeak-NG (Linux) and the `say` command (macOS), as far
//! as their settings go. Running the engines is done around the library.

use vstd::prelude::*;
use crate::chars::text_eq;

verus! {

/// A speech engine's settings: a language and a speed.
pub trait TtsEngine {
    /// The language the engine speaks.
    spec fn lang_spec(&self) -> Seq<char>;

    /// The speed the engine speaks at.
    spec fn speed_spec(&self) -> i32;

    /// Sets the language.
    fn set_lang(&mut self, lang: String)
        ensures
            final(self).lang_spec() == lang@,
            final(self).speed_spec() == old(self).speed_spec(),
    ;

    /// Sets the speed.
    fn set_speed(&mut self, speed: i32)
        ensures
            final(self).speed_spec() == speed,
            final(self).lang_spec() == old(self).lang_spec(),
    ;
}

/// eSpeak-NG settings (the Linux engine).
#[derive(Debug, Clone)]
pub struct EspeakNg {
    pub lang: String,
    pub speed: i32,
    pub pitch: i32,
    pub amplitude: i32,
    pub output_file: String,
}

impl EspeakNg {
    /// French at speed 100, pitch 50, amplitude 100, writing
    /// `/dev/shm/out.wav`.
    pub fn new() -> (e: EspeakNg)
        ensures
            e.lang@ == "fr"@,
            e.speed == 100,
            e.pitch == 50,
            e.amplitude == 100,
            e.output_file@ == "/dev/shm/out.wav"@,
    {
        EspeakNg {
            lang: "fr".to_owned(),
            speed: 100,
            pitch: 50,
            amplitude: 100,
            output_file: "/dev/shm/out.wav".to_owned(),
        }
    }

    /// The voice: `mb-EN1` for English, `mb-FR4` for anything else.
    pub fn voice(&self) -> (r: &'static str)
        ensures
            self.lang@ == "en"@ ==> r@ == "mb-EN1"@,
            self.lang@ != "en"@ ==> r@ == "mb-FR4"@,
    {
        if text_eq(self.lang.as_str(), "en") {
            "mb-EN1"
        } else {
            "mb-FR4"
        }
    }
}

impl TtsEngine for EspeakNg {
    open spec fn lang_spec(&self) -> Seq<char> {
        self.lang@
    }

    open spec fn speed_spec(&self) -> i32 {
        self.speed
    }

    fn set_lang(&mut self, lang: String)
        ensures
            final(self).pitch == old(self).pitch,
            final(self).amplitude == old(self).amplitude,
            final(self).output_file == old(self).output_file,
    {
        self.lang = lang;
    }

    fn set_speed(&mut self, speed: i32)
        ensures
            final(self).pitch == old(self).pitch,
            final(self).amplitude == old(self).amplitude,
            final(self).output_file == old(self).output_file,
    {
        self.speed = speed;
    }
}

/// Settings of the macOS `say` command.
#[derive(Debug, Clone)]
pub struct MacOsTts {
    pub lang: String,
    pub speed: i32,
}

impl MacOsTts {
    /// French at 200 words per minute.
    pub fn new() -> (e: MacOsTts)
        ensures
            e.lang@ == "fr"@,
            e.speed == 200,
    {
        MacOsTts { lang: "fr".to_owned(), speed: 200 }
    }

    /// The voice: `Samantha` for English, `Thomas` for anything else.
    pub fn get_voice(&self) -> (r: &'static str)
        ensures
            self.lang@ == "en"@ ==> r@ == "Samantha"@,
            self.lang@ != "en"@ ==> r@ == "Thomas"@,
    {
        if text_eq(self.lang.as_str(), "en") {
            "Samantha"
        } else {
            "Thomas"
        }
    }
}

impl TtsEngine for MacOsTts {
    open spec fn lang_spec(&self) -> Seq<char> {
        self.lang@
    }

    open spec fn speed_spec(&self) -> i32 {
        self.speed
    }

    fn set_lang(&mut self, lang: String) {
        self.lang = lang;
    }

    fn set_speed(&mut self, speed: i32) {
        self.speed = speed;
    }
}

/// The platforms the reader runs on.
#[derive(Debug, Clone, Copy, PartialEq, Eq, Structural)]
pub enum Platform {
    Linux,
    MacOs,
}

/// The speech engine of a platform, with its default settings.
#[derive(Debug, Clone)]
pub enum PlatformTts {
    Espeak(EspeakNg),
    Say(MacOsTts),
}

/// `b` is the engine `a` with at most its language and speed changed: the
/// same kind of engine, with the same eSpeak-NG pitch, amplitude and output
/// file.
pub open spec fn other_settings_kept(a: PlatformTts, b: PlatformTts) -> bool {
    match (a, b) {
        (PlatformTts::Espeak(x), PlatformTts::Espeak(y)) => y.pitch == x.pitch && y.amplitude
            == x.amplitude && y.output_file == x.output_file,
        (PlatformTts::Say(_), PlatformTts::Say(_)) => true,
        _ => false,
    }
}

impl TtsEngine for PlatformTts {
    open spec fn lang_spec(&self) -> Seq<char> {
        match self {
            PlatformTts::Espeak(e) => e.lang@,
            PlatformTts::Say(e) => e.lang@,
        }
    }

    open spec fn speed_spec(&self) -> i32 {
        match self {
            PlatformTts::Espeak(e) => e.speed,
            PlatformTts::Say(e) => e.speed,
        }
    }

    fn set_lang(&mut self, lang: String)
        ensures
            *final(self) is Espeak <==> *old(self) is Espeak,
            other_settings_kept(*old(self), *final(self)),
    {
        match self {
            PlatformTts::Espeak(e) => e.set_lang(lang),
            PlatformTts::Say(e) => e.set_lang(lang),
        }
    }

    fn set_speed(&mut self, speed: i32)
        ensures
            *final(self) is Espeak <==> *old(self) is Espeak,
            other_settings_kept(*old(self), *final(self)),
    {
        match self {
            PlatformTts::Espeak(e) => e.set_speed(speed),
            PlatformTts::Say(e) => e.set_speed(speed),
        }
    }
}

/// The engine of the platform: `say` on macOS, eSpeak-NG on Linux.
pub fn create_tts_engine(platform: Platform) -> (e: PlatformTts)
    ensures
        platform == Platform::Linux ==> (e matches PlatformTts::Espeak(x) && x.lang@ == "fr"@
            && x.speed == 100 && x.pitch == 50 && x.amplitude == 100 && x.output_file@
            == "/dev/shm/out.wav"@),
        platform == Platform::MacOs ==> (e matches PlatformTts::Say(x) && x.lang@ == "fr"@
            && x.speed == 200),
{
    match platform {
        Platform::MacOs => PlatformTts::Say(MacOsTts::new()),
        Platform::Linux => PlatformTts::Espeak(EspeakNg::new()),
    }
}

/// The speed given to eSpeak-NG: the requested one kept between 50 and 200.
pub fn clamp_espeak_speed(speed: i32) -> (r: i32)
    ensures
        r == if speed < 50 {
            50
        } else if speed > 200 {
            200
        } else {
            speed
        },
{
    if speed < 50 {
        50
    } else if speed > 200 {
        200
    } else {
        speed
    }
}

} // verus!
