use gsp_ui::{
    get_language_code, parse_binding_to_shortcut, translate_if_needed, ClipboardShortcut,
    DetectedLanguage,
};

fn no_engine(_text: &str, _from: &str, _to: &str) -> Result<String, String> {
    Err("Moteur de traduction non initialisé".to_string())
}

#[test]
fn test_parse_binding_to_shortcut_simple_key() {
    let result = parse_binding_to_shortcut("v").unwrap();
    assert!(!result.ctrl);
    assert!(!result.shift);
    assert!(!result.alt);
    assert!(!result.meta);
    assert_eq!(result.key, "v");
}

#[test]
fn test_parse_binding_to_shortcut_with_modifiers() {
    let result = parse_binding_to_shortcut("ctrl+shift+v").unwrap();
    assert!(result.ctrl);
    assert!(result.shift);
    assert!(!result.alt);
    assert!(!result.meta);
    assert_eq!(result.key, "v");
}

#[test]
fn test_parse_binding_to_shortcut_with_alt_and_super() {
    let result = parse_binding_to_shortcut("alt+super+o").unwrap();
    assert!(!result.ctrl);
    assert!(!result.shift);
    assert!(result.alt);
    assert!(result.meta);
    assert_eq!(result.key, "o");
}

#[test]
fn test_parse_binding_to_shortcut_preserves_key_case() {
    let result = parse_binding_to_shortcut("ctrl+V").unwrap();
    assert_eq!(result.key, "V");
}

#[test]
fn test_parse_binding_to_shortcut_with_spaces() {
    let result = parse_binding_to_shortcut("ctrl+ shift +alt +v").unwrap();
    assert!(result.ctrl);
    assert!(result.shift);
    assert!(result.alt);
    assert_eq!(result.key, "v");
}

#[test]
fn test_get_language_code_english() {
    let code = get_language_code(DetectedLanguage::English);
    assert_eq!(code, "en");
}

#[test]
fn test_get_language_code_french() {
    let code = get_language_code(DetectedLanguage::French);
    assert_eq!(code, "fr");
}

#[test]
fn test_clipboard_shortcut_default() {
    let default = ClipboardShortcut::default();
    assert!(default.ctrl);
    assert!(default.shift);
    assert!(!default.alt);
    assert!(!default.meta);
    assert_eq!(default.key, "V");
}

#[test]
fn test_translate_if_needed_source_language_same_as_target() {
    let result = translate_if_needed("Hello", DetectedLanguage::English, "en", "en", &no_engine);
    assert!(result.is_ok());
    assert_eq!(result.unwrap(), "Hello");
}

#[test]
fn test_translate_if_needed_auto_detection_same_language() {
    let result = translate_if_needed("Bonjour", DetectedLanguage::French, "auto", "fr", &no_engine);
    assert!(result.is_ok());
    assert_eq!(result.unwrap(), "Bonjour");
}

#[test]
fn test_translate_if_needed_auto_detection_different_language_english_to_french() {
    let result = translate_if_needed("Hello", DetectedLanguage::English, "auto", "fr", &no_engine);
    assert!(result.is_ok());
    let text = result.unwrap();
    assert!(!text.is_empty());
}

#[test]
fn test_parse_binding_to_shortcut_multiple_modifiers_order() {
    let result1 = parse_binding_to_shortcut("ctrl+alt+shift+x").unwrap();
    let result2 = parse_binding_to_shortcut("shift+ctrl+alt+x").unwrap();

    assert_eq!(result1.ctrl, result2.ctrl);
    assert_eq!(result1.alt, result2.alt);
    assert_eq!(result1.shift, result2.shift);
    assert_eq!(result1.key, result2.key);
}

// Scenarios and laws on concrete values.

#[test]
fn translate_if_needed_uses_a_successful_translation() {
    let translate = |text: &str, from: &str, to: &str| -> Result<String, String> {
        Ok(format!("[{}>{}] {}", from, to, text))
    };
    let result = translate_if_needed("Hello", DetectedLanguage::English, "auto", "fr", &translate);
    assert_eq!(result.unwrap(), "[en>fr] Hello");
    let result = translate_if_needed("Hallo", DetectedLanguage::French, "de", "fr", &translate);
    assert_eq!(result.unwrap(), "[de>fr] Hallo");
}

#[test]
fn translate_if_needed_in_auto_mode_only_translates_english_into_french() {
    let translate = |_t: &str, _f: &str, _to: &str| -> Result<String, String> {
        Ok("translated".to_string())
    };
    let result = translate_if_needed("Hello", DetectedLanguage::English, "auto", "de", &translate);
    assert_eq!(result.unwrap(), "Hello");
    let result = translate_if_needed("Salut", DetectedLanguage::French, "auto", "en", &translate);
    assert_eq!(result.unwrap(), "Salut");
}

#[test]
fn parse_binding_keeps_last_key_and_ignores_empty_parts() {
    let result = parse_binding_to_shortcut("a+ctrl+b").unwrap();
    assert!(result.ctrl);
    assert_eq!(result.key, "b");
    let result = parse_binding_to_shortcut("").unwrap();
    assert!(!result.ctrl && !result.shift && !result.alt && !result.meta);
    assert_eq!(result.key, "");
}

#[test]
fn saved_binding_text_reads_back() {
    let shortcut = ClipboardShortcut {
        ctrl: true,
        shift: false,
        alt: true,
        meta: false,
        key: "K".to_string(),
    };
    let text = gsp_ui::config::shortcut_binding_text(&shortcut);
    assert_eq!(text, "ctrl+alt+K");
    let read = parse_binding_to_shortcut(&text).unwrap();
    assert!(read.ctrl && !read.shift && read.alt && !read.meta);
    assert_eq!(read.key, "K");
}

#[test]
fn ocr_shortcut_default() {
    let s = gsp_ui::config::default_ocr_shortcut();
    assert!(s.ctrl && !s.shift && s.alt && !s.meta);
    assert_eq!(s.key, "o");
}
