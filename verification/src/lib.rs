//! The GSP desktop reader's logic, with its contracts proved by Verus:
//! cleaning text before it is read, pronunciation dictionaries, keyboard
//! shortcuts and their settings, language detection and translation
//! (language codes, model directories, the choice of models), text
//! recognition settings, and the decisions of a reading.

pub mod chars;
pub mod config;
pub mod language_detector;
pub mod models;
pub mod ocr;
pub mod replacements;
pub mod shortcut;
pub mod speech;
pub mod textmap;
pub mod textutils;
pub mod translation_engine;
pub mod translator;
pub mod tts;

pub use config::{parse_binding_to_shortcut, ClipboardShortcut};
pub use language_detector::DetectedLanguage;
pub use translator::{get_language_code, translate_if_needed};
