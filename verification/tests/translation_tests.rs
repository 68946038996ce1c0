use gsp_ui::translation_engine::{
    choose_iso_code, directory_pieces, first_translation, iso_code, parse_language_code,
    parse_language_pair, sort_by_name, LoadedModels, ModelDir, Route, TranslationEngine,
};
use gsp_ui::translator::{initialize_engine, translate};

fn lang(code: &str) -> u16 {
    parse_language_code(code).unwrap()
}

#[test]
fn language_codes_are_normalized() {
    assert_eq!(lang("EN-us"), lang("en"));
    assert_eq!(lang("fr-FR"), lang("fr"));
    assert_ne!(lang("en"), lang("fr"));
    assert_eq!(iso_code(lang("en")).unwrap(), "en");
    assert_eq!(iso_code(lang("DE")).unwrap(), "de");
}

#[test]
fn invalid_language_code_is_reported() {
    assert_eq!(
        parse_language_code("xx").unwrap_err(),
        "Code de langue invalide: 'xx'. Format attendu: ISO 639-1"
    );
    assert!(parse_language_code("").is_err());
}

#[test]
fn model_directory_names() {
    assert_eq!(parse_language_pair("enfr").unwrap(), (lang("en"), lang("fr")));
    assert_eq!(parse_language_pair("fr-en").unwrap(), (lang("fr"), lang("en")));
    assert_eq!(
        parse_language_pair("en-fr-de").unwrap_err(),
        "Répertoire de modèles invalide 'en-fr-de'; format attendu: 'en-fr' ou 'enfr'"
    );
    assert_eq!(
        parse_language_pair("enxx").unwrap_err(),
        "Code de langue invalide: 'xx'. Format attendu: ISO 639-1"
    );
    assert_eq!(directory_pieces("abcd"), Some(("ab".to_string(), "cd".to_string())));
    assert_eq!(directory_pieces("abc"), None);
}

#[test]
fn loaded_models_and_routes() {
    let mut loaded = LoadedModels::new();
    assert_eq!(
        loaded.ensure_loaded("/m").unwrap_err(),
        "Aucun répertoire de modèles trouvé dans '/m'"
    );
    let d = loaded.check_dir("de-en").unwrap();
    assert_eq!(d.source_code, "de");
    assert_eq!(d.target_code, "en");
    loaded.add(d.source, d.target);
    let d = loaded.check_dir("enfr").unwrap();
    loaded.add(d.source, d.target);
    assert_eq!(
        loaded.check_dir("en-fr").unwrap_err(),
        "Modèle dupliqué pour la paire linguistique 'en-fr'"
    );
    assert!(loaded.ensure_loaded("/m").is_ok());
    assert_eq!(loaded.plan("en", "fr").unwrap(), Route::Direct(1));
    assert_eq!(loaded.plan("de", "fr").unwrap(), Route::ViaEnglish(0, 1));
    assert_eq!(
        loaded.plan("fr", "de").unwrap_err(),
        "Traduction de 'fr' à 'de' n'est pas supportée"
    );
    assert_eq!(loaded.plan("zz", "fr").unwrap_err(), "Code de langue source invalide: 'zz'");
    assert_eq!(loaded.plan("en", "zz").unwrap_err(), "Code de langue cible invalide: 'zz'");
}

fn entries(names: &[(&str, bool)]) -> Vec<(String, bool)> {
    names.iter().map(|(n, d)| (n.to_string(), *d)).collect()
}

#[test]
fn engine_loads_directories_in_order_and_translates() {
    let load = |name: &str, d: &ModelDir| -> Result<String, String> {
        Ok(format!("{}:{}-{}", name, d.source_code, d.target_code))
    };
    let engine =
        TranslationEngine::load("/m", entries(&[("readme", false), ("de-en", true), ("enfr", true)]), &load)
            .unwrap();
    let run = |model: &String, text: &str| -> Result<String, String> {
        Ok(format!("{}({})", model, text))
    };
    assert_eq!(engine.translate("x", "en", "fr", &run).unwrap(), "enfr:en-fr(x)");
    assert_eq!(
        engine.translate("x", "de", "fr", &run).unwrap(),
        "enfr:en-fr(de-en:de-en(x))"
    );
    assert_eq!(
        translate(Some(&engine), "x", "fr", "de", &run).unwrap_err(),
        "Erreur de traduction: Traduction de 'fr' à 'de' n'est pas supportée"
    );
    assert_eq!(
        translate(None::<&TranslationEngine<String>>, "x", "en", "fr", &run).unwrap_err(),
        "Moteur de traduction non initialisé"
    );
}

#[test]
fn engine_load_failures() {
    let load = |_name: &str, _d: &ModelDir| -> Result<u8, String> { Ok(0) };
    assert_eq!(
        TranslationEngine::load("/m", entries(&[("file", false)]), &load).err().unwrap(),
        "Aucun répertoire de modèles trouvé dans '/m'"
    );
    assert_eq!(
        TranslationEngine::load("/m", entries(&[("enfr", true), ("en-fr", true)]), &load)
            .err()
            .unwrap(),
        "Modèle dupliqué pour la paire linguistique 'en-fr'"
    );
    let failing = |_name: &str, _d: &ModelDir| -> Result<u8, String> { Err("broken".to_string()) };
    assert_eq!(
        TranslationEngine::load("/m", entries(&[("fren", true), ("enfr", true)]), &failing)
            .err()
            .unwrap(),
        "broken"
    );
}

#[test]
fn engine_stops_at_first_failing_model() {
    let load = |_name: &str, _d: &ModelDir| -> Result<u8, String> { Ok(0) };
    let engine =
        TranslationEngine::load("/m", entries(&[("de-en", true), ("en-fr", true)]), &load).unwrap();
    let run = |_m: &u8, _t: &str| -> Result<String, String> { Err("panne".to_string()) };
    assert_eq!(engine.translate("x", "de", "fr", &run).unwrap_err(), "panne");
    assert_eq!(
        translate(Some(&engine), "x", "de", "fr", &run).unwrap_err(),
        "Erreur de traduction: panne"
    );
}

#[test]
fn first_translation_of_a_batch() {
    assert_eq!(first_translation(vec!["a".to_string(), "b".to_string()]).unwrap(), "a");
    assert_eq!(first_translation(vec![]).unwrap_err(), "Aucune traduction retournée");
}

#[test]
fn engine_start_steps() {
    let ok_dir = || -> Result<String, String> { Ok("/models".to_string()) };
    let exists = |_d: &str| true;
    let missing = |_d: &str| false;
    let loads = |_d: &str| -> Result<u8, String> { Ok(7) };
    let fails = |_d: &str| -> Result<u8, String> { Err("vide".to_string()) };
    let mut started = Some(1u8);
    assert!(initialize_engine(&mut started, &ok_dir, &missing, &fails).is_ok());
    assert_eq!(started, Some(1));
    let mut slot = None;
    assert!(initialize_engine(&mut slot, &ok_dir, &exists, &loads).is_ok());
    assert_eq!(slot, Some(7));
    assert!(initialize_engine(&mut slot, &ok_dir, &exists, &fails).is_ok());
    assert_eq!(slot, Some(7));
    let mut slot: Option<u8> = None;
    assert_eq!(
        initialize_engine(&mut slot, &ok_dir, &missing, &loads).unwrap_err(),
        "Répertoire des modèles n'existe pas: /models"
    );
    assert_eq!(
        initialize_engine(&mut slot, &ok_dir, &exists, &fails).unwrap_err(),
        "Moteur de traduction non disponible: vide. L'app fonctionnera sans traduction."
    );
    let bad_dir = || -> Result<String, String> { Err("droits".to_string()) };
    assert_eq!(
        initialize_engine(&mut slot, &bad_dir, &exists, &loads).unwrap_err(),
        "Erreur lors de l'initialisation des modèles: droits"
    );
    assert_eq!(slot, None);
}

#[test]
fn entries_are_taken_in_name_order() {
    let sorted = sort_by_name(entries(&[("enfr", true), ("b", false), ("de-en", true), ("a", true), ("ab", false)]));
    let names: Vec<&str> = sorted.iter().map(|(n, _)| n.as_str()).collect();
    assert_eq!(names, vec!["a", "ab", "b", "de-en", "enfr"]);
    assert_eq!(sort_by_name(vec![]), vec![]);
    let load = |name: &str, _d: &ModelDir| -> Result<String, String> { Ok(name.to_string()) };
    let engine = TranslationEngine::load("/m", entries(&[("enfr", true), ("de-en", true)]), &load).unwrap();
    let run = |model: &String, text: &str| -> Result<String, String> { Ok(format!("{}({})", model, text)) };
    assert_eq!(engine.translate("x", "de", "fr", &run).unwrap(), "enfr(de-en(x))");
    // A refused name stops loading, even when a later directory is fine.
    assert_eq!(
        TranslationEngine::load("/m", entries(&[("zz-yy", true), ("enfr", true)]), &load).err().unwrap(),
        "Code de langue invalide: 'zz'. Format attendu: ISO 639-1"
    );
}

#[test]
fn languages_are_shown_by_their_two_letter_code() {
    // Indices in isolang's table: 0 is Ghotuo (no two-letter code), 1310 is Mandarin.
    assert_eq!(iso_code(0).unwrap_err(), "Langue 'Ghotuo' n'a pas de code ISO 639-1");
    assert_eq!(iso_code(1310).unwrap(), "zh");
    assert_eq!(choose_iso_code("cmn", None, "Mandarin Chinese").unwrap(), "zh");
    assert_eq!(choose_iso_code("fra", Some("fr".to_string()), "French").unwrap(), "fr");
    assert_eq!(
        choose_iso_code("aaa", None, "Ghotuo").unwrap_err(),
        "Langue 'Ghotuo' n'a pas de code ISO 639-1"
    );
    assert_eq!(parse_language_code("zh").map(iso_code).unwrap().unwrap(), "zh");
}
