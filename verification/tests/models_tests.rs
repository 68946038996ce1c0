use gsp_ui::models::{
    archive_file_name, asset_bytes, classify_model_file, count_valid_models, default_models,
    has_gzip_extension, is_valid_model_listing, models_dir_from, pair_dir_name,
    download_default_models, select_model_files, set_unique, single_subdirectory,
    temp_archive_name, temp_extract_name, ModelFileKind, VocabularyFiles,
};
use std::cell::RefCell;
use gsp_ui::chars::join_path;
use gsp_ui::translation_engine::parse_language_pair;

fn names(v: &[&str]) -> Vec<String> {
    v.iter().map(|s| s.to_string()).collect()
}

fn files(v: &[&str]) -> Vec<(String, String)> {
    v.iter().map(|s| (s.to_string(), format!("/m/enfr/{}", s))).collect()
}

#[test]
fn valid_model_listing() {
    assert!(is_valid_model_listing(&names(&[
        "model.enfr.intgemm.alphas.bin",
        "lex.50.50.enfr.s2t.bin",
        "vocab.enfr.spm.gz",
    ])));
    assert!(!is_valid_model_listing(&names(&["model.enfr.intgemm.alphas.bin", "lex.s2t.bin"])));
    assert!(!is_valid_model_listing(&names(&[
        ".model.intgemm.x.bin",
        "lex.s2t.bin",
        "vocab.spm",
    ])));
    assert!(!is_valid_model_listing(&names(&[
        "model.intgemm.x.bin",
        "lex.s2t.bin",
        "vocab.spm.backup",
    ])));
}

#[test]
fn counting_valid_models() {
    let good = names(&["m.intgemm.a.bin", "l.s2t.bin", "v.spm"]);
    let bad = names(&["readme.txt"]);
    assert_eq!(count_valid_models(&vec![good.clone(), bad, good]), 2);
    assert_eq!(count_valid_models(&vec![]), 0);
}

#[test]
fn classifying_model_files() {
    assert_eq!(classify_model_file("lex.50.50.enfr.s2t.bin.gz"), Some(ModelFileKind::Shortlist));
    assert_eq!(classify_model_file("model.enfr.intgemm.alphas.bin"), Some(ModelFileKind::Model));
    assert_eq!(classify_model_file("srcvocab.enfr.spm"), Some(ModelFileKind::SourceVocabulary));
    assert_eq!(classify_model_file("trgvocab.enfr.spm.gz"), Some(ModelFileKind::TargetVocabulary));
    assert_eq!(classify_model_file("vocab.enfr.spm"), Some(ModelFileKind::SharedVocabulary));
    assert_eq!(classify_model_file("other.spm"), None);
    assert_eq!(classify_model_file("model.bin"), None);
}

#[test]
fn selecting_model_files() {
    let r = select_model_files(
        "/m/enfr",
        &files(&["model.intgemm.alphas.bin", "lex.s2t.bin", "vocab.spm", "notes.txt"]),
    )
    .unwrap();
    assert_eq!(r.model, "/m/enfr/model.intgemm.alphas.bin");
    assert_eq!(r.shortlist, "/m/enfr/lex.s2t.bin");
    match r.vocabularies {
        VocabularyFiles::Shared(v) => assert_eq!(v, "/m/enfr/vocab.spm"),
        _ => panic!("shared vocabulary expected"),
    }
    let r = select_model_files(
        "/m/enfr",
        &files(&["model.intgemm.bin", "lex.s2t.bin", "srcvocab.spm", "trgvocab.spm"]),
    )
    .unwrap();
    match r.vocabularies {
        VocabularyFiles::Separate { source, target } => {
            assert_eq!(source, "/m/enfr/srcvocab.spm");
            assert_eq!(target, "/m/enfr/trgvocab.spm");
        }
        _ => panic!("separate vocabularies expected"),
    }
}

#[test]
fn model_file_errors() {
    assert_eq!(
        select_model_files("/d", &files(&["a.s2t.bin", "b.s2t.bin"])).err().unwrap(),
        "Fichiers 'shortlist' multiples trouvés dans le répertoire de modèles '/d'"
    );
    assert_eq!(
        select_model_files("/d", &files(&["a.s2t.bin", "vocab.spm"])).err().unwrap(),
        "Fichier 'model' manquant dans le répertoire de modèles '/d'"
    );
    assert_eq!(
        select_model_files("/d", &files(&["m.intgemm.bin", "vocab.spm"])).err().unwrap(),
        "Fichier 'shortlist' manquant dans le répertoire de modèles '/d'"
    );
    assert_eq!(
        select_model_files("/d", &files(&["m.intgemm.bin", "l.s2t.bin", "vocab.spm", "srcvocab.spm"]))
            .err()
            .unwrap(),
        "Répertoire de modèles '/d' doit contenir soit un seul vocabulaire partagé, soit un vocabulaire source et cible"
    );
}

#[test]
fn gzip_extension() {
    assert!(has_gzip_extension("vocab.spm.gz"));
    assert!(has_gzip_extension("a.gz"));
    assert!(!has_gzip_extension(".gz"));
    assert!(!has_gzip_extension("vocab.spm"));
}

#[test]
fn assets_are_decoded_when_gzipped() {
    // "hello" compressed with gzip.
    let gz: Vec<u8> = vec![
        0x1f, 0x8b, 0x08, 0x00, 0x00, 0x00, 0x00, 0x00, 0x02, 0x03, 0xcb, 0x48, 0xcd, 0xc9, 0xc9,
        0x07, 0x00, 0x86, 0xa6, 0x10, 0x36, 0x05, 0x00, 0x00, 0x00,
    ];
    assert_eq!(asset_bytes("vocab.spm.gz", gz.clone()).unwrap(), b"hello".to_vec());
    assert_eq!(asset_bytes("vocab.spm", gz.clone()).unwrap(), gz);
    assert!(asset_bytes("bad.gz", vec![1, 2, 3]).is_err());
}

#[test]
fn models_directory() {
    assert_eq!(
        models_dir_from(Some("/xdg".to_string()), Some("/home/u".to_string())),
        "/xdg/gsp-ui/models"
    );
    assert_eq!(models_dir_from(Some("/xdg/".to_string()), None), "/xdg/gsp-ui/models");
    assert_eq!(
        models_dir_from(None, Some("/home/u".to_string())),
        "/home/u/.config/gsp-ui/models"
    );
    assert_eq!(models_dir_from(None, None), "/tmp/gsp-ui/models");
    assert_eq!(join_path("", "a"), "a");
}

#[test]
fn default_models_and_their_directories() {
    let models = default_models();
    assert_eq!(models.len(), 2);
    assert_eq!(models[0].0, "en");
    assert_eq!(models[0].1, "fr");
    assert_eq!(models[1].0, "fr");
    assert_eq!(models[1].1, "en");
    for (from, to, url) in &models {
        let dir = pair_dir_name(from, to);
        let (s, t) = parse_language_pair(&dir).unwrap();
        assert_eq!(parse_language_pair(&format!("{}-{}", from, to)).unwrap(), (s, t));
        assert!(archive_file_name(url).ends_with(".tar.gz"));
    }
    assert_eq!(
        archive_file_name(&models[0].2),
        "enfr.student.tiny11.v1.805d112122af03d0.tar.gz"
    );
    assert_eq!(archive_file_name("no-slash"), "no-slash");
}

#[test]
fn temporary_names() {
    let a = temp_archive_name("x.tar.gz");
    assert!(a.starts_with("gsp-ui-model-") && a.ends_with("-x.tar.gz"));
    assert_eq!(a.len(), "gsp-ui-model-".len() + 36 + "-x.tar.gz".len());
    let b = temp_archive_name("x.tar.gz");
    assert_ne!(a, b);
    let e = temp_extract_name();
    assert!(e.starts_with("gsp-ui-extract-"));
    assert_eq!(e.len(), "gsp-ui-extract-".len() + 36);
}

#[test]
fn unpacked_archive_layout() {
    assert!(single_subdirectory(&vec![true]));
    assert!(!single_subdirectory(&vec![false]));
    assert!(!single_subdirectory(&vec![true, true]));
    assert!(!single_subdirectory(&vec![]));
}

#[test]
fn a_second_file_of_a_kind_is_refused() {
    let mut slot: Option<String> = None;
    assert!(set_unique(&mut slot, "/a".to_string(), "model", "/d").is_ok());
    assert_eq!(slot.as_deref(), Some("/a"));
    assert_eq!(
        set_unique(&mut slot, "/b".to_string(), "model", "/d").unwrap_err(),
        "Fichiers 'model' multiples trouvés dans le répertoire de modèles '/d'"
    );
    assert_eq!(slot.as_deref(), Some("/b"));
}

#[test]
fn default_models_are_fetched_only_where_missing() {
    let fetched = RefCell::new(Vec::new());
    let is_valid = |target: &str| target.ends_with("/fren");
    let download = |url: &str, target: &str| -> Result<(), String> {
        fetched.borrow_mut().push((url.to_string(), target.to_string()));
        Err("hors ligne".to_string())
    };
    let steps = download_default_models("/m", &is_valid, &download);
    assert_eq!(steps.len(), 2);
    assert_eq!(steps[0].pair_dir, "enfr");
    assert_eq!(steps[0].target, "/m/enfr");
    assert_eq!(steps[0].download, Some(Err("hors ligne".to_string())));
    assert_eq!(steps[1].target, "/m/fren");
    assert_eq!(steps[1].download, None);
    let fetched = fetched.into_inner();
    assert_eq!(fetched.len(), 1);
    assert_eq!(fetched[0].0, default_models()[0].2);
    assert_eq!(fetched[0].1, "/m/enfr");
}
