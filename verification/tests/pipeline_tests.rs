use gsp_ui::language_detector::{detect_language, language_from_detection, DetectedLanguage};
use gsp_ui::config::app_config_dir;
use gsp_ui::ocr::{
    capture_taken, decimal_text, fetch_language_data, tesseract, ocr_language_for, recognized_text, screenshot_path, tessdata_dir_from,
    tesseract_code, tesseract_languages, traineddata_file, traineddata_urls,
};
use gsp_ui::replacements::{apply_replacements, load_dictionary_text, parse_dictionary_line, replace_text};
use gsp_ui::speech::{
    prepare_detected_reading, prepare_reading, settings_or_default, speech_text, watch_step, PlayerState, SpeechSettings,
    WatchAction,
};
use gsp_ui::textmap::TextMap;
use gsp_ui::tts::{clamp_espeak_speed, create_tts_engine, EspeakNg, MacOsTts, Platform, PlatformTts, TtsEngine};

#[test]
fn ocr_languages() {
    assert_eq!(ocr_language_for("fr"), "fr-FR");
    assert_eq!(ocr_language_for("de"), "de-DE");
    assert_eq!(ocr_language_for("es"), "es-ES");
    assert_eq!(ocr_language_for("it"), "it-IT");
    assert_eq!(ocr_language_for("auto"), "auto");
    assert_eq!(ocr_language_for("en"), "en-GB");
    assert_eq!(tesseract_code("fr-FR"), "fra");
    assert_eq!(tesseract_code("en-GB"), "eng");
    assert_eq!(tesseract_code("auto"), "eng+fra");
    assert_eq!(tesseract_languages("eng+fra"), vec!["eng".to_string(), "fra".to_string()]);
    assert_eq!(tesseract_languages("deu"), vec!["deu".to_string()]);
}

#[test]
fn tesseract_data() {
    assert_eq!(traineddata_file("eng"), "eng.traineddata");
    let (best, fast) = traineddata_urls("fra");
    assert_eq!(best, "https://github.com/tesseract-ocr/tessdata_best/raw/main/fra.traineddata");
    assert_eq!(fast, "https://github.com/tesseract-ocr/tessdata_fast/raw/main/fra.traineddata");
    assert_eq!(tessdata_dir_from(Some("/td".to_string()), None, Platform::Linux), "/td");
    assert_eq!(
        tessdata_dir_from(None, Some("/home/u".to_string()), Platform::Linux),
        "/home/u/.tesseract-rs/tessdata"
    );
    assert_eq!(
        tessdata_dir_from(None, Some("/Users/u".to_string()), Platform::MacOs),
        "/Users/u/Library/Application Support/tesseract-rs/tessdata"
    );
}

#[test]
fn capture_paths() {
    assert_eq!(decimal_text(0), "0");
    assert_eq!(decimal_text(1700000000123), "1700000000123");
    assert_eq!(decimal_text(u128::MAX), u128::MAX.to_string());
    assert_eq!(
        screenshot_path(Platform::Linux, "/tmp", 42),
        "/dev/shm/gsp-ui-screenshot-42.png"
    );
    assert_eq!(
        screenshot_path(Platform::MacOs, "/var/tmp/", 7),
        "/var/tmp/gsp-ui-screenshot-7.png"
    );
}

#[test]
fn recognized_text_must_not_be_empty() {
    assert_eq!(recognized_text(String::new()).unwrap_err(), "Aucun texte reconnu par OCR");
    assert_eq!(recognized_text("abc".to_string()).unwrap(), "abc");
}

#[test]
fn replacing_text() {
    assert_eq!(replace_text("aaa", "aa", "b"), "ba");
    assert_eq!(replace_text("abc", "", "-"), "-a-b-c-");
    assert_eq!(replace_text("", "", "-"), "-");
    assert_eq!(replace_text("hello world", "o", "0"), "hell0 w0rld");
    assert_eq!(replace_text("abc", "abcd", "x"), "abc");
    assert_eq!(replace_text("same word", "word", "word"), "same word");
    for (s, f, t) in [("xyxy", "xy", "Q"), ("été", "é", "e"), ("aaaa", "a", "aa")] {
        assert_eq!(replace_text(s, f, t), s.replace(f, t));
    }
}

#[test]
fn dictionary_lines() {
    let chars = |s: &str| s.chars().collect::<Vec<char>>();
    assert_eq!(
        parse_dictionary_line(&chars("  SQL = esse cu elle ")),
        Some(("SQL".to_string(), "esse cu elle".to_string()))
    );
    assert_eq!(parse_dictionary_line(&chars("# a = b")), None);
    assert_eq!(parse_dictionary_line(&chars("   ")), None);
    assert_eq!(parse_dictionary_line(&chars("no equals")), None);
    assert_eq!(
        parse_dictionary_line(&chars("a=b=c")),
        Some(("a".to_string(), "b=c".to_string()))
    );
}

#[test]
fn dictionaries_are_loaded_and_applied() {
    let mut dict: TextMap<String> = TextMap::new();
    load_dictionary_text(&mut dict, "# prononciation\r\nSQL = esse cu elle\r\n\r\nAPI=a pé i\n");
    load_dictionary_text(&mut dict, "API = a p i");
    assert_eq!(dict.get("SQL").unwrap(), "esse cu elle");
    assert_eq!(dict.get("API").unwrap(), "a p i");
    assert_eq!(
        apply_replacements("une API en SQL", &dict),
        "une a p i en esse cu elle"
    );
    let empty: TextMap<String> = TextMap::new();
    assert_eq!(apply_replacements("HelloWorld", &empty), "HelloWorld");
}

#[test]
fn speech_settings() {
    let s = settings_or_default(None);
    assert!(!s.dev_mode);
    assert_eq!(s.source_language, "auto");
    assert_eq!(s.target_language, "fr");
    let saved = SpeechSettings {
        dev_mode: true,
        source_language: "en".to_string(),
        target_language: "de".to_string(),
    };
    let s = settings_or_default(Some(saved));
    assert!(s.dev_mode);
    assert_eq!(s.target_language, "de");
    assert_eq!(speech_text("my_var", true), "my var");
    assert_eq!(speech_text("my_var", false), "my_var");
}

#[test]
fn playback_watcher() {
    let limit: u128 = 600_000_000_000;
    assert_eq!(watch_step(1, 2, PlayerState::Playing { finished: true }, 0), WatchAction::StopWatching);
    assert_eq!(watch_step(1, 1, PlayerState::Unavailable, 0), WatchAction::StopWatching);
    assert_eq!(watch_step(1, 1, PlayerState::Playing { finished: true }, 0), WatchAction::AnnounceFinished);
    assert_eq!(watch_step(1, 1, PlayerState::Playing { finished: false }, limit), WatchAction::KeepWaiting);
    assert_eq!(watch_step(1, 1, PlayerState::Playing { finished: false }, limit + 1), WatchAction::AnnounceFinished);
    assert_eq!(watch_step(1, 1, PlayerState::Idle, limit + 1), WatchAction::AnnounceFinished);
    assert_eq!(watch_step(1, 1, PlayerState::Idle, 5), WatchAction::KeepWaiting);
}

#[test]
fn speech_engines() {
    let e = EspeakNg::new();
    assert_eq!(e.lang, "fr");
    assert_eq!(e.speed, 100);
    assert_eq!(e.pitch, 50);
    assert_eq!(e.amplitude, 100);
    assert_eq!(e.output_file, "/dev/shm/out.wav");
    assert_eq!(e.voice(), "mb-FR4");
    let m = MacOsTts::new();
    assert_eq!(m.speed, 200);
    assert_eq!(m.get_voice(), "Thomas");
    let mut engine = create_tts_engine(Platform::Linux);
    engine.set_lang("en".to_string());
    engine.set_speed(150);
    match engine {
        PlatformTts::Espeak(e) => {
            assert_eq!(e.lang, "en");
            assert_eq!(e.speed, 150);
            assert_eq!(e.voice(), "mb-EN1");
        }
        _ => panic!("eSpeak expected"),
    }
    match create_tts_engine(Platform::MacOs) {
        PlatformTts::Say(mut m) => {
            m.set_lang("en".to_string());
            assert_eq!(m.get_voice(), "Samantha");
        }
        _ => panic!("say expected"),
    }
    assert_eq!(clamp_espeak_speed(10), 50);
    assert_eq!(clamp_espeak_speed(120), 120);
    assert_eq!(clamp_espeak_speed(900), 200);
}

#[test]
fn language_detection() {
    assert_eq!(language_from_detection(None), DetectedLanguage::French);
    assert_eq!(language_from_detection(Some(DetectedLanguage::English)), DetectedLanguage::English);
    assert_eq!(language_from_detection(Some(DetectedLanguage::French)), DetectedLanguage::French);
    assert_eq!(
        detect_language("The weather is very nice today and we are going to the beach."),
        DetectedLanguage::English
    );
    assert_eq!(
        detect_language("Il fait très beau aujourd'hui et nous allons à la plage."),
        DetectedLanguage::French
    );
    assert_eq!(DetectedLanguage::English.as_espeak_code(), "en");
    assert_eq!(DetectedLanguage::French.as_espeak_voice(), "mb-FR4");
}

#[test]
fn capture_and_settings_directories() {
    assert!(capture_taken(true).is_ok());
    assert_eq!(capture_taken(false).unwrap_err(), "La capture d'écran a échoué");
    assert_eq!(app_config_dir(Some("/home/u/.config".to_string())).unwrap(), "/home/u/.config/gsp-ui");
    assert_eq!(
        app_config_dir(None).unwrap_err(),
        "Impossible de trouver le répertoire de configuration"
    );
}

#[test]
fn language_data_is_fetched_with_a_fallback() {
    let absent = |_p: &str| false;
    let present = |_p: &str| true;
    let dir_ok = |_d: &str| -> Result<(), String> { Ok(()) };
    let dir_ko = |_d: &str| -> Result<(), String> { Err("lecture seule".to_string()) };
    let best_only = |url: &str, path: &str| -> Result<bool, String> {
        assert_eq!(path, "/td/fra.traineddata");
        if url.contains("tessdata_best") { Ok(true) } else { Err("jamais".to_string()) }
    };
    let fast_only = |url: &str, _p: &str| -> Result<bool, String> {
        if url.contains("tessdata_fast") { Ok(true) } else { Err("404".to_string()) }
    };
    let none = |_u: &str, _p: &str| -> Result<bool, String> { Err("hors ligne".to_string()) };
    assert_eq!(fetch_language_data("fra", "/td", &present, &dir_ko, &none), Ok(true));
    assert_eq!(fetch_language_data("fra", "/td", &absent, &dir_ko, &none), Err("lecture seule".to_string()));
    assert_eq!(fetch_language_data("fra", "/td", &absent, &dir_ok, &best_only), Ok(true));
    assert_eq!(fetch_language_data("fra", "/td", &absent, &dir_ok, &fast_only), Ok(true));
    assert_eq!(fetch_language_data("fra", "/td", &absent, &dir_ok, &none), Err("hors ligne".to_string()));
}

#[test]
fn recognition_needs_all_language_data() {
    let run = |path: &str, code: &str| format!("{}:{}", path, code);
    assert_eq!(tesseract("/s.png", "auto", &|_l: &str| true, &run), "/s.png:eng+fra");
    assert_eq!(tesseract("/s.png", "de-DE", &|_l: &str| true, &run), "/s.png:deu");
    assert_eq!(tesseract("/s.png", "auto", &|l: &str| l == "eng", &run), "");
}

#[test]
fn readings_are_prepared_with_the_target_language() {
    let settings = SpeechSettings {
        dev_mode: true,
        source_language: "auto".to_string(),
        target_language: "fr".to_string(),
    };
    let translate = |text: &str, from: &str, to: &str| -> Result<String, String> {
        Ok(format!("{}>{}: {}", from, to, text))
    };
    let r = prepare_reading(
        "the_weather_is_nice_today_and_we_are_going_to_the_beach",
        &settings,
        Platform::Linux,
        120,
        &translate,
    );
    assert_eq!(r.text, "en>fr: the weather is nice today and we are going to the beach");
    match r.engine {
        PlatformTts::Espeak(e) => {
            assert_eq!(e.lang, "fr");
            assert_eq!(e.speed, 120);
        }
        _ => panic!("eSpeak expected"),
    }
    let settings = SpeechSettings {
        dev_mode: false,
        source_language: "fr".to_string(),
        target_language: "fr".to_string(),
    };
    let r = prepare_reading("my_var", &settings, Platform::MacOs, 200, &translate);
    assert_eq!(r.text, "my_var");
    assert!(matches!(r.engine, PlatformTts::Say(_)));
}

#[test]
fn readings_follow_the_detected_language() {
    let settings = SpeechSettings {
        dev_mode: false,
        source_language: "auto".to_string(),
        target_language: "fr".to_string(),
    };
    let translate = |text: &str, from: &str, to: &str| -> Result<String, String> {
        Ok(format!("{}>{}: {}", from, to, text))
    };
    let r = prepare_detected_reading("hello", Some(DetectedLanguage::English), &settings, Platform::Linux, 300, &translate);
    assert_eq!(r.text, "en>fr: hello");
    match r.engine {
        PlatformTts::Espeak(e) => {
            assert_eq!(e.lang, "fr");
            assert_eq!(e.speed, 300);
            assert_eq!(e.pitch, 50);
            assert_eq!(e.amplitude, 100);
            assert_eq!(e.output_file, "/dev/shm/out.wav");
        }
        _ => panic!("eSpeak expected"),
    }
    let r = prepare_detected_reading("bonjour", None, &settings, Platform::MacOs, 180, &translate);
    assert_eq!(r.text, "bonjour");
    assert!(matches!(r.engine, PlatformTts::Say(_)));
}

#[test]
fn blank_text_is_read_as_french() {
    assert_eq!(detect_language(""), DetectedLanguage::French);
    assert_eq!(detect_language("   \n\t"), DetectedLanguage::French);
}
