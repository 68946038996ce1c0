//! The language of a text, as far as speech needs it: English or French.

use vstd::prelude::*;
use crate::chars::trim;

verus! {

/// The languages the reader tells apart.
#[derive(Debug, Clone, Copy, PartialEq, Eq, Structural)]
pub enum DetectedLanguage {
    French,
    English,
}

impl DetectedLanguage {
    /// The eSpeak-NG language code: `fr` or `en`.
    pub fn as_espeak_code(&self) -> (r: &'static str)
        ensures
            *self == DetectedLanguage::French ==> r@ == "fr"@,
            *self == DetectedLanguage::English ==> r@ == "en"@,
    {
        match self {
            DetectedLanguage::French => "fr",
            DetectedLanguage::English => "en",
        }
    }

    /// The eSpeak-NG voice: `mb-FR4` or `mb-EN1`.
    pub fn as_espeak_voice(&self) -> (r: &'static str)
        ensures
            *self == DetectedLanguage::French ==> r@ == "mb-FR4"@,
            *self == DetectedLanguage::English ==> r@ == "mb-EN1"@,
    {
        match self {
            DetectedLanguage::French => "mb-FR4",
            DetectedLanguage::English => "mb-EN1",
        }
    }
}

/// Whether `found` is an answer lingua, restricted to English and French,
/// may give for `text`. Which answers those are is lingua's statistical
/// models and is not restated; two calls on one text may give different
/// answers among them.
pub uninterp spec fn lingua_may_find(text: Seq<char>, found: Option<DetectedLanguage>) -> bool;

/// Builds a `lingua` detector for English and French and calls
/// `LanguageDetector::detect_language_of` on the text; `None` when lingua
/// cannot decide. The answer is one that lingua may give for the text; it
/// is not named as a function of the text, because lingua sums
/// floating-point scores in the order of a hash set seeded anew in each
/// process, so on a near tie two calls on one text may disagree. A text
/// that is only whitespace has no words, both scores stay zero, and that tie
/// gives `None`.
#[verifier::external_body]
pub(crate) fn detect_with_lingua(text: &str) -> (r: Option<DetectedLanguage>)
    ensures
        lingua_may_find(text@, r),
        trim(text@).len() == 0 ==> r is None,
{
    let languages = [lingua::Language::English, lingua::Language::French];
    let detector = lingua::LanguageDetectorBuilder::from_languages(&languages).build();
    match detector.detect_language_of(text) {
        Some(lingua::Language::English) => Some(DetectedLanguage::English),
        Some(lingua::Language::French) => Some(DetectedLanguage::French),
        _ => None,
    }
}

/// The language read from what lingua found: English when it found
/// English, French otherwise (also when it could not decide).
pub open spec fn language_of(found: Option<DetectedLanguage>) -> DetectedLanguage {
    match found {
        Some(DetectedLanguage::English) => DetectedLanguage::English,
        _ => DetectedLanguage::French,
    }
}

/// The language read from what lingua found.
pub fn language_from_detection(found: Option<DetectedLanguage>) -> (r: DetectedLanguage)
    ensures
        r == language_of(found),
{
    match found {
        Some(DetectedLanguage::English) => DetectedLanguage::English,
        _ => DetectedLanguage::French,
    }
}

/// The language of `text`: English when lingua detects English, French
/// otherwise (also when lingua cannot decide); `language_from_detection`
/// says what is returned for each answer of lingua.
pub fn detect_language(text: &str) -> (r: DetectedLanguage)
    ensures
        exists|found: Option<DetectedLanguage>|
            lingua_may_find(text@, found) && r == language_of(found),
        trim(text@).len() == 0 ==> r == DetectedLanguage::French,
{
    language_from_detection(detect_with_lingua(text))
}

} // verus!
