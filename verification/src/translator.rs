//! The translation service of the reader: starting the engine, translating
//! with it, and when the text to read is translated.

use vstd::prelude::*;
use crate::chars::{concat2, concat3, text_eq};
use crate::language_detector::DetectedLanguage;
use crate::translation_engine::{text_res_view, translated_by, TranslationEngine};

verus! {

/// The language code of a detected language: `en` or `fr`.
pub open spec fn language_code(l: DetectedLanguage) -> Seq<char> {
    match l {
        DetectedLanguage::English => "en"@,
        DetectedLanguage::French => "fr"@,
    }
}

/// The language code of a detected language: `en` or `fr`.
pub fn get_language_code(detected_lang: DetectedLanguage) -> (r: &'static str)
    ensures
        r@ == language_code(detected_lang),
{
    match detected_lang {
        DetectedLanguage::English => "en",
        DetectedLanguage::French => "fr",
    }
}

/// The translation to ask for, as (from, to), if any. With source `auto`,
/// only English text is translated, and only into French; with any other
/// source, a translation is asked for (source, target) when they differ.
pub open spec fn translation_request(
    detected: DetectedLanguage,
    source: Seq<char>,
    target: Seq<char>,
) -> Option<(Seq<char>, Seq<char>)> {
    if source == "auto"@ {
        if language_code(detected) != target && language_code(detected) == "en"@ && target
            == "fr"@ {
            Some(("en"@, "fr"@))
        } else {
            None
        }
    } else if source != target {
        Some((source, target))
    } else {
        None
    }
}

/// The translation to ask for, as (from, to), if any.
pub fn plan_translation(detected: DetectedLanguage, source_lang: &str, target_lang: &str) -> (r:
    Option<(String, String)>)
    ensures
        match translation_request(detected, source_lang@, target_lang@) {
            None => r is None,
            Some((f, t)) => r matches Some(p) && p.0@ == f && p.1@ == t,
        },
{
    let code = get_language_code(detected);
    if text_eq(source_lang, "auto") {
        if !text_eq(code, target_lang) && text_eq(code, "en") && text_eq(target_lang, "fr") {
            Some(("en".to_owned(), "fr".to_owned()))
        } else {
            None
        }
    } else if !text_eq(source_lang, target_lang) {
        Some((source_lang.to_owned(), target_lang.to_owned()))
    } else {
        None
    }
}

/// The text to read after a translation was asked for: the translation when
/// it succeeded, the text itself when it failed.
pub open spec fn text_after(text: Seq<char>, outcome: Result<String, String>) -> Seq<char> {
    match outcome {
        Ok(t) => t@,
        Err(_) => text,
    }
}

/// The text to read after a translation was asked for: the translation when
/// it succeeded, the text itself when it failed.
pub fn translated_or_unchanged(text: &str, outcome: Result<String, String>) -> (r: String)
    ensures
        r@ == text_after(text@, outcome),
{
    match outcome {
        Ok(t) => t,
        Err(_) => text.to_owned(),
    }
}

/// `read` is the text to read for `text`: what `translate` (called as
/// `translate(text, from, to)`) gave when `translation_request` asks for a
/// translation and it succeeded; `text` itself otherwise.
pub open spec fn text_to_read<F: Fn(&str, &str, &str) -> Result<String, String>>(
    text: Seq<char>,
    detected: DetectedLanguage,
    source: Seq<char>,
    target: Seq<char>,
    translate: F,
    read: Seq<char>,
) -> bool {
    match translation_request(detected, source, target) {
        None => read == text,
        Some((f, t)) => exists|a: &str, b: &str, c: &str, o: Result<String, String>|
            a@ == text && b@ == f && c@ == t && call_ensures(translate, (a, b, c), o) && read
                == text_after(text, o),
    }
}

/// The text to read: translated by `translate` (called as `translate(text,
/// from, to)`) when `translation_request` asks for a translation, and the
/// text itself otherwise or when the translation fails. Always succeeds.
pub fn translate_if_needed<F: Fn(&str, &str, &str) -> Result<String, String>>(
    text: &str,
    detected_lang: DetectedLanguage,
    source_lang: &str,
    target_lang: &str,
    translate: &F,
) -> (r: Result<String, String>)
    requires
        forall|a: &str, b: &str, c: &str| call_requires(*translate, (a, b, c)),
    ensures
        r matches Ok(s) && text_to_read(
            text@,
            detected_lang,
            source_lang@,
            target_lang@,
            *translate,
            s@,
        ),
{
    match plan_translation(detected_lang, source_lang, target_lang) {
        None => Ok(text.to_owned()),
        Some((from, to)) => {
            let outcome = translate(text, from.as_str(), to.as_str());
            Ok(translated_or_unchanged(text, outcome))
        },
    }
}


// ---------------------------------------------------------------------------
// The translation service
// ---------------------------------------------------------------------------

/// The message when the engine is not started.
pub open spec fn engine_missing_message() -> Seq<char> {
    "Moteur de traduction non initialisé"@
}

/// A translation outcome as the service reports it: an error is prefixed.
pub open spec fn reported(o: Result<String, String>) -> Result<Seq<char>, Seq<char>> {
    match o {
        Ok(t) => Ok(t@),
        Err(e) => Err("Erreur de traduction: "@ + e@),
    }
}

/// Translates `text` from `lang_from` into `lang_to` with the started
/// engine, running its models with `run`; without an engine, that is an
/// error.
pub fn translate<M, F: Fn(&M, &str) -> Result<String, String>>(
    engine: Option<&TranslationEngine<M>>,
    text: &str,
    lang_from: &str,
    lang_to: &str,
    run: &F,
) -> (r: Result<String, String>)
    requires
        forall|m: &M, t: &str| call_requires(*run, (m, t)),
    ensures
        engine is None ==> (r matches Err(m) && m@ == engine_missing_message()),
        engine matches Some(e) ==> exists|o: Result<String, String>|
            translated_by(*e, text@, lang_from@, lang_to@, *run, o) && text_res_view(r)
                == reported(o),
{
    match engine {
        None => Err("Moteur de traduction non initialisé".to_owned()),
        Some(e) => {
            let o = e.translate(text, lang_from, lang_to, run);
            let ghost og = o;
            let r = match o {
                Ok(t) => Ok(t),
                Err(m) => Err(concat2("Erreur de traduction: ", m.as_str())),
            };
            assert(translated_by(*e, text@, lang_from@, lang_to@, *run, og) && text_res_view(r)
                == reported(og));
            r
        },
    }
}

/// The message when the models directory could not be prepared.
pub open spec fn models_init_message(e: Seq<char>) -> Seq<char> {
    "Erreur lors de l'initialisation des modèles: "@ + e
}

/// The message when the models directory does not exist.
pub open spec fn missing_models_dir_message(dir: Seq<char>) -> Seq<char> {
    "Répertoire des modèles n'existe pas: "@ + dir
}

/// The message when no engine could be loaded.
pub open spec fn engine_unavailable_message(e: Seq<char>) -> Seq<char> {
    "Moteur de traduction non disponible: "@ + e + ". L'app fonctionnera sans traduction."@
}

/// `r` and the engine slot `after` are what starting the engine into the
/// slot `before` gives: a slot that holds an engine is kept and that is
/// success; otherwise the models directory is prepared with `init_models`,
/// checked with `dir_exists`, and loaded with `load`, each failure reported
/// and leaving the slot empty, and on success the loaded engine is kept.
pub open spec fn engine_started<
    E,
    I: Fn() -> Result<String, String>,
    X: Fn(&str) -> bool,
    L: Fn(&str) -> Result<E, String>,
>(
    before: Option<E>,
    after: Option<E>,
    init_models: I,
    dir_exists: X,
    load: L,
    r: Result<(), String>,
) -> bool {
    if before is Some {
        r is Ok && after == before
    } else {
        exists|o: Result<String, String>|
            #[trigger] call_ensures(init_models, (), o) && match o {
                Err(e) => r matches Err(m) && m@ == models_init_message(e@) && after is None,
                Ok(dir) => exists|a: &str, present: bool|
                    a@ == dir@ && #[trigger] call_ensures(dir_exists, (a,), present) && if !present {
                        r matches Err(m) && m@ == missing_models_dir_message(dir@) && after is None
                    } else {
                        exists|b: &str, l: Result<E, String>|
                            b@ == dir@ && #[trigger] call_ensures(load, (b,), l) && match l {
                                Ok(e) => r is Ok && after == Some(e),
                                Err(e) => r matches Err(m) && m@ == engine_unavailable_message(
                                    e@,
                                ) && after is None,
                            }
                    },
            }
    }
}

/// Starts the translation engine into `slot` unless it already holds one:
/// prepares the models directory with `init_models`, checks with
/// `dir_exists` that it exists, then loads the engine from it with `load`
/// and keeps it; each failure is reported.
pub fn initialize_engine<
    E,
    I: Fn() -> Result<String, String>,
    X: Fn(&str) -> bool,
    L: Fn(&str) -> Result<E, String>,
>(slot: &mut Option<E>, init_models: &I, dir_exists: &X, load: &L) -> (r: Result<(), String>)
    requires
        call_requires(*init_models, ()),
        forall|d: &str| call_requires(*dir_exists, (d,)),
        forall|d: &str| call_requires(*load, (d,)),
    ensures
        engine_started(*old(slot), *final(slot), *init_models, *dir_exists, *load, r),
        (*final(slot) is Some) == (r is Ok),
{
    if slot.is_some() {
        return Ok(());
    }
    let o = init_models();
    assert(call_ensures(*init_models, (), o));
    let dir = match o {
        Ok(d) => d,
        Err(e) => {
            return Err(concat2("Erreur lors de l'initialisation des modèles: ", e.as_str()));
        },
    };
    let a = dir.as_str();
    let present = dir_exists(a);
    assert(call_ensures(*dir_exists, (a,), present));
    if !present {
        return Err(concat2("Répertoire des modèles n'existe pas: ", a));
    }
    let l = load(a);
    assert(call_ensures(*load, (a,), l));
    match l {
        Ok(e) => {
            *slot = Some(e);
            Ok(())
        },
        Err(e) => Err(
            concat3(
                "Moteur de traduction non disponible: ",
                e.as_str(),
                ". L'app fonctionnera sans traduction.",
            ),
        ),
    }
}

/// Starting the engine again after a start that succeeded succeeds too and
/// changes nothing: the engine loaded first is kept.
pub proof fn law_second_start_changes_nothing<
    E,
    I: Fn() -> Result<String, String>,
    X: Fn(&str) -> bool,
    L: Fn(&str) -> Result<E, String>,
>(
    s0: Option<E>,
    s1: Option<E>,
    s2: Option<E>,
    init_models: I,
    dir_exists: X,
    load: L,
    r1: Result<(), String>,
    r2: Result<(), String>,
)
    requires
        engine_started(s0, s1, init_models, dir_exists, load, r1),
        r1 is Ok,
        engine_started(s1, s2, init_models, dir_exists, load, r2),
    ensures
        r2 is Ok,
        s2 == s1,
        s1 is Some,
{
}

/// When the translation that was asked for fails, the text read is the
/// text itself, never the error: whatever the request, if `translate`
/// never succeeds, what is read is the input text.
pub proof fn law_failed_translation_reads_the_text<F: Fn(&str, &str, &str) -> Result<String, String>>(
    text: Seq<char>,
    detected: DetectedLanguage,
    source: Seq<char>,
    target: Seq<char>,
    translate: F,
    read: Seq<char>,
    error: String,
)
    requires
        text_to_read(text, detected, source, target, translate, read),
        forall|a: &str, b: &str, c: &str, o: Result<String, String>|
            #[trigger] call_ensures(translate, (a, b, c), o) ==> o is Err,
    ensures
        read == text,
        text_after(text, Err(error)) == text,
{
}

} // verus!
