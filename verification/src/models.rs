//! Translation model directories: which files make a model, how a model
//! directory is named and read, and where a downloaded archive goes.

use vstd::prelude::*;
use crate::chars::{
    chars_of, concat3, concat5, contains_str, contains_text, ends_with, ends_with_str, join_path,
    path_join, push_str, split_chars, split_on, starts_with, starts_with_str, string_from_chars,
};
use crate::translation_engine::{is_ascii_text, law_pair_directory_reads_back, pair_pieces};

verus! {

// ---------------------------------------------------------------------------
// Model directory listings
// ---------------------------------------------------------------------------

/// A file that counts in a model directory: not a backup, not hidden.
pub open spec fn counted_name(n: Seq<char>) -> bool {
    !ends_with(n, ".backup"@) && !starts_with(n, "."@)
}

/// A model weights file (`*.intgemm.*.bin`).
pub open spec fn is_model_name(n: Seq<char>) -> bool {
    contains_text(n, ".intgemm."@) && ends_with(n, ".bin"@)
}

/// A shortlist file (`*.s2t.bin`).
pub open spec fn is_shortlist_name(n: Seq<char>) -> bool {
    ends_with(n, ".s2t.bin"@)
}

/// A vocabulary file (`*.spm`, possibly gzipped).
pub open spec fn is_vocab_name(n: Seq<char>) -> bool {
    ends_with(n, ".spm"@) || ends_with(n, ".spm.gz"@)
}

/// A directory listing holds a usable model: among the counted files there
/// are weights, a shortlist and a vocabulary.
pub open spec fn listing_complete(names: Seq<Seq<char>>) -> bool {
    &&& exists|i: int|
        0 <= i < names.len() && counted_name(#[trigger] names[i]) && is_model_name(names[i])
    &&& exists|i: int|
        0 <= i < names.len() && counted_name(#[trigger] names[i]) && is_shortlist_name(names[i])
    &&& exists|i: int|
        0 <= i < names.len() && counted_name(#[trigger] names[i]) && is_vocab_name(names[i])
}

/// The text views of a list of strings.
pub open spec fn string_views(v: Seq<String>) -> Seq<Seq<char>> {
    v.map_values(|s: String| s@)
}

/// Whether the file names of a directory make a usable model.
pub fn is_valid_model_listing(file_names: &Vec<String>) -> (r: bool)
    ensures
        r == listing_complete(string_views(file_names@)),
{
    let ghost names = string_views(file_names@);
    let mut has_model = false;
    let mut has_shortlist = false;
    let mut has_vocab = false;
    let n = file_names.len();
    for i in 0..n
        invariant
            n == file_names@.len(),
            names == string_views(file_names@),
            has_model == exists|j: int|
                0 <= j < i && counted_name(#[trigger] names[j]) && is_model_name(names[j]),
            has_shortlist == exists|j: int|
                0 <= j < i && counted_name(#[trigger] names[j]) && is_shortlist_name(names[j]),
            has_vocab == exists|j: int|
                0 <= j < i && counted_name(#[trigger] names[j]) && is_vocab_name(names[j]),
    {
        let f = chars_of(file_names[i].as_str());
        assert(f@ == names[i as int]);
        if !ends_with_str(&f, ".backup") && !starts_with_str(&f, ".") {
            if contains_str(&f, ".intgemm.") && ends_with_str(&f, ".bin") {
                has_model = true;
            }
            if ends_with_str(&f, ".s2t.bin") {
                has_shortlist = true;
            }
            if ends_with_str(&f, ".spm") || ends_with_str(&f, ".spm.gz") {
                has_vocab = true;
            }
        }
    }
    has_model && has_shortlist && has_vocab
}

// ---------------------------------------------------------------------------
// Model assets
// ---------------------------------------------------------------------------

/// The files a model is made of.
#[derive(Debug, Clone, Copy, PartialEq, Eq, Structural)]
pub enum ModelFileKind {
    Shortlist,
    Model,
    SourceVocabulary,
    TargetVocabulary,
    SharedVocabulary,
}

/// A file name without a trailing `.gz`.
pub open spec fn uncompressed_name(n: Seq<char>) -> Seq<char> {
    if ends_with(n, ".gz"@) {
        n.subrange(0, n.len() - 3)
    } else {
        n
    }
}

/// What a file of a model directory is, from its name (a `.gz` ending
/// aside): `*.s2t.bin` a shortlist; another `*.bin` holding `.intgemm` the
/// weights; `*.spm` a vocabulary, source (`srcvocab*`), target
/// (`trgvocab*`) or shared (`vocab*`); anything else nothing.
pub open spec fn model_file_kind(n: Seq<char>) -> Option<ModelFileKind> {
    let u = uncompressed_name(n);
    if ends_with(u, ".s2t.bin"@) {
        Some(ModelFileKind::Shortlist)
    } else if ends_with(u, ".bin"@) && contains_text(u, ".intgemm"@) {
        Some(ModelFileKind::Model)
    } else if ends_with(u, ".spm"@) {
        if starts_with(u, "srcvocab"@) {
            Some(ModelFileKind::SourceVocabulary)
        } else if starts_with(u, "trgvocab"@) {
            Some(ModelFileKind::TargetVocabulary)
        } else if starts_with(u, "vocab"@) {
            Some(ModelFileKind::SharedVocabulary)
        } else {
            None
        }
    } else {
        None
    }
}

/// What a file of a model directory is, from its name.
pub fn classify_model_file(file_name: &str) -> (r: Option<ModelFileKind>)
    ensures
        r == model_file_kind(file_name@),
{
    let n = chars_of(file_name);
    proof {
        reveal_strlit(".gz");
    }
    let u: Vec<char> = if ends_with_str(&n, ".gz") {
        let mut u: Vec<char> = Vec::new();
        let m = n.len() - 3;
        for i in 0..m
            invariant
                m == n@.len() - 3,
                m <= n@.len(),
                u@ == n@.subrange(0, i as int),
        {
            u.push(n[i]);
            assert(n@.subrange(0, i + 1) =~= n@.subrange(0, i as int).push(n@[i as int]));
        }
        u
    } else {
        n
    };
    assert(u@ == uncompressed_name(file_name@));
    if ends_with_str(&u, ".s2t.bin") {
        Some(ModelFileKind::Shortlist)
    } else if ends_with_str(&u, ".bin") && contains_str(&u, ".intgemm") {
        Some(ModelFileKind::Model)
    } else if ends_with_str(&u, ".spm") {
        if starts_with_str(&u, "srcvocab") {
            Some(ModelFileKind::SourceVocabulary)
        } else if starts_with_str(&u, "trgvocab") {
            Some(ModelFileKind::TargetVocabulary)
        } else if starts_with_str(&u, "vocab") {
            Some(ModelFileKind::SharedVocabulary)
        } else {
            None
        }
    } else {
        None
    }
}

/// How a kind of model file is named in messages.
pub open spec fn kind_label(k: ModelFileKind) -> Seq<char> {
    match k {
        ModelFileKind::Shortlist => "shortlist"@,
        ModelFileKind::Model => "model"@,
        ModelFileKind::SourceVocabulary => "source vocabulary"@,
        ModelFileKind::TargetVocabulary => "target vocabulary"@,
        ModelFileKind::SharedVocabulary => "shared vocabulary"@,
    }
}

fn kind_label_exec(k: ModelFileKind) -> (r: &'static str)
    ensures
        r@ == kind_label(k),
{
    match k {
        ModelFileKind::Shortlist => "shortlist",
        ModelFileKind::Model => "model",
        ModelFileKind::SourceVocabulary => "source vocabulary",
        ModelFileKind::TargetVocabulary => "target vocabulary",
        ModelFileKind::SharedVocabulary => "shared vocabulary",
    }
}

/// The message for two files of the same kind.
pub open spec fn duplicate_message(kind: Seq<char>, dir: Seq<char>) -> Seq<char> {
    "Fichiers '"@ + kind + "' multiples trouvés dans le répertoire de modèles '"@ + dir + "'"@
}

/// The message for a missing file.
pub open spec fn missing_message(kind: Seq<char>, dir: Seq<char>) -> Seq<char> {
    "Fichier '"@ + kind + "' manquant dans le répertoire de modèles '"@ + dir + "'"@
}

/// The message for vocabularies that are neither one shared file nor a
/// source and a target file.
pub open spec fn vocabulary_message(dir: Seq<char>) -> Seq<char> {
    "Répertoire de modèles '"@ + dir
        + "' doit contenir soit un seul vocabulaire partagé, soit un vocabulaire source et cible"@
}

/// The path found for each kind of file so far, indexed as
/// shortlist, model, source, target, shared vocabulary.
pub type Slots = Seq<Option<Seq<char>>>;

/// The slot of a kind.
pub open spec fn slot_index(k: ModelFileKind) -> int {
    match k {
        ModelFileKind::Shortlist => 0,
        ModelFileKind::Model => 1,
        ModelFileKind::SourceVocabulary => 2,
        ModelFileKind::TargetVocabulary => 3,
        ModelFileKind::SharedVocabulary => 4,
    }
}

/// Going through the files (name, path) of `dir` in order: each file of a
/// kind fills its slot, and a second file of a kind already found stops
/// with the duplicate message.
pub open spec fn scan_files(dir: Seq<char>, files: Seq<(Seq<char>, Seq<char>)>) -> Result<
    Slots,
    Seq<char>,
>
    decreases files.len(),
{
    if files.len() == 0 {
        Ok(seq![None, None, None, None, None])
    } else {
        match scan_files(dir, files.drop_last()) {
            Err(e) => Err(e),
            Ok(slots) => match model_file_kind(files.last().0) {
                None => Ok(slots),
                Some(k) => if slots[slot_index(k)] is Some {
                    Err(duplicate_message(kind_label(k), dir))
                } else {
                    Ok(slots.update(slot_index(k), Some(files.last().1)))
                },
            },
        }
    }
}

proof fn lemma_scan_error_stays(
    dir: Seq<char>,
    files: Seq<(Seq<char>, Seq<char>)>,
    k: int,
    m: int,
)
    requires
        0 <= k <= m <= files.len(),
        scan_files(dir, files.take(k)) is Err,
    ensures
        scan_files(dir, files.take(m)) == scan_files(dir, files.take(k)),
    decreases m - k,
{
    if m > k {
        lemma_scan_error_stays(dir, files, k, m - 1);
        assert(files.take(m).drop_last() =~= files.take(m - 1));
    }
}

/// Puts `path` in `slot`, the place of the file of kind `kind` of the model
/// directory `model_dir`; a slot already filled is an error (the new path
/// is kept all the same).
pub fn set_unique(slot: &mut Option<String>, path: String, kind: &str, model_dir: &str) -> (r:
    Result<(), String>)
    ensures
        *final(slot) == Some(path),
        *old(slot) is None ==> r is Ok,
        *old(slot) is Some ==> (r matches Err(m) && m@ == duplicate_message(kind@, model_dir@)),
{
    let was_filled = slot.is_some();
    *slot = Some(path);
    if was_filled {
        Err(
            concat5(
                "Fichiers '",
                kind,
                "' multiples trouvés dans le répertoire de modèles '",
                model_dir,
                "'",
            ),
        )
    } else {
        Ok(())
    }
}

/// The vocabulary files of a model.
#[derive(Debug)]
pub enum VocabularyFiles {
    Shared(String),
    Separate { source: String, target: String },
}

/// The files of a model.
#[derive(Debug)]
pub struct ModelFiles {
    pub model: String,
    pub shortlist: String,
    pub vocabularies: VocabularyFiles,
}

/// The files chosen for the model of `dir`, or the first problem: a
/// duplicate, missing weights, a missing shortlist, or vocabularies that are
/// neither one shared file nor a source and a target file.
pub open spec fn chosen_files(dir: Seq<char>, files: Seq<(Seq<char>, Seq<char>)>) -> Result<
    (Seq<char>, Seq<char>, Slots),
    Seq<char>,
> {
    match scan_files(dir, files) {
        Err(e) => Err(e),
        Ok(s) => if s[1] is None {
            Err(missing_message("model"@, dir))
        } else if s[0] is None {
            Err(missing_message("shortlist"@, dir))
        } else if (s[4] is Some && s[2] is None && s[3] is None) || (s[4] is None && s[2] is Some
            && s[3] is Some) {
            Ok((s[1]->0, s[0]->0, s))
        } else {
            Err(vocabulary_message(dir))
        },
    }
}

/// The (name, path) views of a list of files.
pub open spec fn file_views(files: Seq<(String, String)>) -> Seq<(Seq<char>, Seq<char>)> {
    files.map_values(|f: (String, String)| (f.0@, f.1@))
}

fn owned_slot(slot: &Option<String>) -> (r: Option<String>)
    ensures
        match slot {
            Some(s) => r matches Some(t) && t@ == s@,
            None => r is None,
        },
{
    match slot {
        Some(s) => Some(s.clone()),
        None => None,
    }
}

/// The text views of the slots.
pub open spec fn slot_views(slots: Seq<Option<String>>) -> Slots {
    slots.map_values(
        |o: Option<String>|
            match o {
                Some(s) => Some(s@),
                None => None,
            },
    )
}

/// Sorts the regular files of the model in `dir`, given as (file name,
/// path) in listing order, into the slots of their kinds (shortlist, model,
/// source, target, shared vocabulary); two files of one kind are an error.
pub fn scan_model_files(dir: &str, files: &Vec<(String, String)>) -> (r: Result<
    Vec<Option<String>>,
    String,
>)
    ensures
        match scan_files(dir@, file_views(files@)) {
            Err(e) => r matches Err(m) && m@ == e,
            Ok(s) => r matches Ok(v) && v@.len() == 5 && slot_views(v@) == s,
        },
{
    let mut slots: Vec<Option<String>> = vec![None, None, None, None, None];
    assert(slot_views(slots@) =~= seq![None, None, None, None, None]);
    let n = files.len();
    for i in 0..n
        invariant
            n == files@.len(),
            slots@.len() == 5,
            scan_files(dir@, file_views(files@).take(i as int)) == Ok::<Slots, Seq<char>>(
                slot_views(slots@),
            ),
    {
        let ghost pre = file_views(files@).take(i as int);
        assert(file_views(files@).take(i + 1).drop_last() =~= pre);
        assert(file_views(files@).take(i + 1).last() == (files@[i as int].0@, files@[i as int].1@));
        let (name, path) = &files[i];
        match classify_model_file(name.as_str()) {
            None => {},
            Some(k) => {
                let idx: usize = match k {
                    ModelFileKind::Shortlist => 0,
                    ModelFileKind::Model => 1,
                    ModelFileKind::SourceVocabulary => 2,
                    ModelFileKind::TargetVocabulary => 3,
                    ModelFileKind::SharedVocabulary => 4,
                };
                assert(idx == slot_index(k));
                let ghost before = slots@;
                let mut slot = slots.remove(idx);
                let p = path.clone();
                let ghost pv = p@;
                let found = set_unique(&mut slot, p, kind_label_exec(k), dir);
                slots.insert(idx, slot);
                if found.is_err() {
                    proof {
                        lemma_scan_error_stays(dir@, file_views(files@), i + 1, n as int);
                        assert(file_views(files@).take(n as int) =~= file_views(files@));
                    }
                    return Err(found.unwrap_err());
                }
                assert(slots@[idx as int] matches Some(q) && q@ == pv);
                assert(forall|j: int| 0 <= j < 5 && j != idx ==> slots@[j] == before[j]);
                assert(slot_views(slots@) =~= slot_views(before).update(idx as int, Some(path@)));
            },
        }
    }
    assert(file_views(files@).take(n as int) =~= file_views(files@));
    Ok(slots)
}

/// The path in `slot`, the file of kind `kind` of the model directory
/// `dir`; an empty slot is an error.
pub fn required_file(slot: &Option<String>, kind: &str, dir: &str) -> (r: Result<String, String>)
    ensures
        match slot {
            Some(p) => r matches Ok(q) && q@ == p@,
            None => r matches Err(m) && m@ == missing_message(kind@, dir@),
        },
{
    match owned_slot(slot) {
        Some(p) => Ok(p),
        None => Err(concat5("Fichier '", kind, "' manquant dans le répertoire de modèles '", dir, "'")),
    }
}

/// The vocabulary files of the model in `dir` from its shared, source and
/// target vocabulary slots: one shared file, or a source and a target file;
/// anything else is an error.
pub fn vocabulary_files(
    shared: &Option<String>,
    source: &Option<String>,
    target: &Option<String>,
    dir: &str,
) -> (r: Result<VocabularyFiles, String>)
    ensures
        match (shared, source, target) {
            (Some(v), None, None) => r matches Ok(VocabularyFiles::Shared(w)) && w@ == v@,
            (None, Some(s), Some(t)) => r matches Ok(VocabularyFiles::Separate { source: a, target: b })
                && a@ == s@ && b@ == t@,
            _ => r matches Err(m) && m@ == vocabulary_message(dir@),
        },
{
    proof {
        reveal_strlit("");
    }
    match (owned_slot(shared), owned_slot(source), owned_slot(target)) {
        (Some(v), None, None) => Ok(VocabularyFiles::Shared(v)),
        (None, Some(s), Some(t)) => Ok(VocabularyFiles::Separate { source: s, target: t }),
        _ => Err(
            concat5(
                "Répertoire de modèles '",
                dir,
                "' doit contenir soit un seul vocabulaire partagé, soit un vocabulaire source et cible",
                "",
                "",
            ),
        ),
    }
}

/// Chooses the files of the model in `dir` from its regular files, given as
/// (file name, path) in listing order.
pub fn select_model_files(dir: &str, files: &Vec<(String, String)>) -> (r: Result<ModelFiles, String>)
    ensures
        match chosen_files(dir@, file_views(files@)) {
            Err(e) => r matches Err(m) && m@ == e,
            Ok((model, shortlist, s)) => r matches Ok(f) && f.model@ == model && f.shortlist@
                == shortlist && match f.vocabularies {
                VocabularyFiles::Shared(v) => s[4] == Some(v@),
                VocabularyFiles::Separate { source, target } => s[2] == Some(source@) && s[3]
                    == Some(target@),
            },
        },
{
    let slots = match scan_model_files(dir, files) {
        Ok(v) => v,
        Err(e) => return Err(e),
    };
    let ghost sv = slot_views(slots@);
    assert(sv[0] == match slots@[0] { Some(s) => Some(s@), None => None::<Seq<char>> });
    assert(sv[1] == match slots@[1] { Some(s) => Some(s@), None => None::<Seq<char>> });
    assert(sv[2] == match slots@[2] { Some(s) => Some(s@), None => None::<Seq<char>> });
    assert(sv[3] == match slots@[3] { Some(s) => Some(s@), None => None::<Seq<char>> });
    assert(sv[4] == match slots@[4] { Some(s) => Some(s@), None => None::<Seq<char>> });
    let model = match required_file(&slots[1], "model", dir) {
        Ok(p) => p,
        Err(e) => return Err(e),
    };
    let shortlist = match required_file(&slots[0], "shortlist", dir) {
        Ok(p) => p,
        Err(e) => return Err(e),
    };
    let vocabularies = match vocabulary_files(&slots[4], &slots[2], &slots[3], dir) {
        Ok(v) => v,
        Err(e) => return Err(e),
    };
    Ok(ModelFiles { model, shortlist, vocabularies })
}


// ---------------------------------------------------------------------------
// Compressed assets
// ---------------------------------------------------------------------------

/// A file name whose extension is `gz` (as `Path::extension` reads it: the
/// part after the last `.`, when something comes before that `.`).
pub open spec fn is_gzip_name(n: Seq<char>) -> bool {
    ends_with(n, ".gz"@) && n.len() > 3
}

/// Whether a file name has the extension `gz`.
pub fn has_gzip_extension(file_name: &str) -> (r: bool)
    ensures
        r == is_gzip_name(file_name@),
{
    let n = chars_of(file_name);
    proof {
        reveal_strlit(".gz");
    }
    ends_with_str(&n, ".gz") && n.len() > 3
}

/// What decoding `data` as gzip with flate2's `GzDecoder` gives: the
/// decoded bytes, or the text of the error met.
pub uninterp spec fn gunzip_outcome(data: Seq<u8>) -> Result<Seq<u8>, Seq<char>>;

/// Decodes gzip data with flate2's `read::GzDecoder`, reading to the end.
/// The decoder is not restated: the result, a function of the data alone,
/// is named; an error is given as its text.
#[verifier::external_body]
fn gunzip(data: &Vec<u8>) -> (r: Result<Vec<u8>, String>)
    ensures
        match (r, gunzip_outcome(data@)) {
            (Ok(v), Ok(d)) => v@ == d,
            (Err(m), Err(e)) => m@ == e,
            _ => false,
        },
{
    let mut decoded = Vec::new();
    let mut decoder = flate2::read::GzDecoder::new(data.as_slice());
    match std::io::Read::read_to_end(&mut decoder, &mut decoded) {
        Ok(_) => Ok(decoded),
        Err(e) => Err(e.to_string()),
    }
}

/// The bytes of a model asset read from the file `file_name`: decoded when
/// the file is gzipped, as read otherwise.
pub open spec fn asset_outcome(file_name: Seq<char>, raw: Seq<u8>) -> Result<Seq<u8>, Seq<char>> {
    if is_gzip_name(file_name) {
        gunzip_outcome(raw)
    } else {
        Ok(raw)
    }
}

/// The bytes of a model asset read from the file `file_name`.
pub fn asset_bytes(file_name: &str, raw: Vec<u8>) -> (r: Result<Vec<u8>, String>)
    ensures
        match (r, asset_outcome(file_name@, raw@)) {
            (Ok(v), Ok(d)) => v@ == d,
            (Err(m), Err(e)) => m@ == e,
            _ => false,
        },
{
    if has_gzip_extension(file_name) {
        gunzip(&raw)
    } else {
        Ok(raw)
    }
}

// ---------------------------------------------------------------------------
// Where models are stored and fetched from
// ---------------------------------------------------------------------------

/// The directory models are stored in: `gsp-ui/models` under the
/// configuration directory `XDG_CONFIG_HOME` when it is set, else under
/// `~/.config`, else `/tmp/gsp-ui/models`.
pub open spec fn models_dir_path(xdg_config_home: Option<Seq<char>>, home: Option<Seq<char>>) -> Seq<
    char,
> {
    match xdg_config_home {
        Some(c) => path_join(path_join(c, "gsp-ui"@), "models"@),
        None => match home {
            Some(h) => path_join(path_join(path_join(h, ".config"@), "gsp-ui"@), "models"@),
            None => "/tmp/gsp-ui/models"@,
        },
    }
}

/// The directory models are stored in, from the value of `XDG_CONFIG_HOME`
/// and the home directory, where they are known.
pub fn models_dir_from(xdg_config_home: Option<String>, home: Option<String>) -> (r: String)
    ensures
        r@ == models_dir_path(
            match xdg_config_home {
                Some(c) => Some(c@),
                None => None,
            },
            match home {
                Some(h) => Some(h@),
                None => None,
            },
        ),
{
    match xdg_config_home {
        Some(c) => {
            let d = join_path(c.as_str(), "gsp-ui");
            join_path(d.as_str(), "models")
        },
        None => match home {
            Some(h) => {
                let d = join_path(h.as_str(), ".config");
                let d = join_path(d.as_str(), "gsp-ui");
                join_path(d.as_str(), "models")
            },
            None => "/tmp/gsp-ui/models".to_owned(),
        },
    }
}

/// The models fetched when none is stored: (source, target, archive URL).
pub open spec fn default_model_table() -> Seq<(Seq<char>, Seq<char>, Seq<char>)> {
    seq![
        ("en"@, "fr"@, "https://data.statmt.org/bergamot/models/fren/enfr.student.tiny11.v1.805d112122af03d0.tar.gz"@),
        ("fr"@, "en"@, "https://data.statmt.org/bergamot/models/fren/fren.student.tiny11.v1.dccea16d03c0a389.tar.gz"@),
    ]
}

/// The models fetched when none is stored: English to French and French
/// to English, as (source, target, archive URL).
pub fn default_models() -> (r: Vec<(String, String, String)>)
    ensures
        r@.len() == default_model_table().len(),
        forall|i: int|
            0 <= i < r@.len() ==> (#[trigger] r@[i]).0@ == default_model_table()[i].0 && r@[i].1@
                == default_model_table()[i].1 && r@[i].2@ == default_model_table()[i].2,
{
    let mut r: Vec<(String, String, String)> = Vec::new();
    r.push(
        (
            "en".to_owned(),
            "fr".to_owned(),
            "https://data.statmt.org/bergamot/models/fren/enfr.student.tiny11.v1.805d112122af03d0.tar.gz".to_owned(),
        ),
    );
    r.push(
        (
            "fr".to_owned(),
            "en".to_owned(),
            "https://data.statmt.org/bergamot/models/fren/fren.student.tiny11.v1.dccea16d03c0a389.tar.gz".to_owned(),
        ),
    );
    r
}

/// The directory a downloaded model of a pair is stored in: the two codes
/// one after the other (`enfr`).
pub fn pair_dir_name(from: &str, to: &str) -> (r: String)
    ensures
        r@ == from@ + to@,
{
    let mut r = String::new();
    push_str(&mut r, from);
    push_str(&mut r, to);
    assert(r@ =~= from@ + to@);
    r
}

/// What was done for one default model: the directory it belongs in, and,
/// when that directory held no usable model, what its download gave.
#[derive(Debug)]
pub struct DefaultModelStep {
    pub pair_dir: String,
    pub target: String,
    pub download: Option<Result<(), String>>,
}

/// `step` is what was done for the default model `m` under `models_dir`:
/// its directory was checked with `is_valid_dir`, and only when it held no
/// usable model was the archive fetched into it with `download`.
pub open spec fn default_step_done<V: Fn(&str) -> bool, D: Fn(&str, &str) -> Result<(), String>>(
    models_dir: Seq<char>,
    m: (Seq<char>, Seq<char>, Seq<char>),
    is_valid_dir: V,
    download: D,
    step: DefaultModelStep,
) -> bool {
    &&& step.pair_dir@ == m.0 + m.1
    &&& step.target@ == path_join(models_dir, m.0 + m.1)
    &&& exists|a: &str, valid: bool|
        a@ == step.target@ && call_ensures(is_valid_dir, (a,), valid) && if valid {
            step.download is None
        } else {
            step.download matches Some(o) && exists|u: &str, t: &str|
                u@ == m.2 && t@ == step.target@ && call_ensures(download, (u, t), o)
        }
}

/// Fetches the default models whose directory under `models_dir` holds no
/// usable model (checked with `is_valid_dir`), with `download` (archive
/// URL, target directory); a failed download does not stop the others.
/// Tells, model by model, what was done.
pub fn download_default_models<
    V: Fn(&str) -> bool,
    D: Fn(&str, &str) -> Result<(), String>,
>(models_dir: &str, is_valid_dir: &V, download: &D) -> (r: Vec<DefaultModelStep>)
    requires
        forall|a: &str| call_requires(*is_valid_dir, (a,)),
        forall|u: &str, t: &str| call_requires(*download, (u, t)),
    ensures
        r@.len() == default_model_table().len(),
        forall|i: int|
            0 <= i < r@.len() ==> default_step_done(
                models_dir@,
                default_model_table()[i],
                *is_valid_dir,
                *download,
                #[trigger] r@[i],
            ),
{
    let models = default_models();
    let mut steps: Vec<DefaultModelStep> = Vec::new();
    let n = models.len();
    for i in 0..n
        invariant
            n == models@.len(),
            n == default_model_table().len(),
            forall|j: int|
                0 <= j < n ==> (#[trigger] models@[j]).0@ == default_model_table()[j].0
                    && models@[j].1@ == default_model_table()[j].1 && models@[j].2@
                    == default_model_table()[j].2,
            forall|a: &str| call_requires(*is_valid_dir, (a,)),
            forall|u: &str, t: &str| call_requires(*download, (u, t)),
            steps@.len() == i,
            forall|j: int|
                0 <= j < i ==> default_step_done(
                    models_dir@,
                    default_model_table()[j],
                    *is_valid_dir,
                    *download,
                    #[trigger] steps@[j],
                ),
    {
        let (from, to, url) = &models[i];
        let pair_dir = pair_dir_name(from.as_str(), to.as_str());
        let target = join_path(models_dir, pair_dir.as_str());
        let a = target.as_str();
        let valid = is_valid_dir(a);
        assert(call_ensures(*is_valid_dir, (a,), valid));
        let outcome = if valid {
            None
        } else {
            let u = url.as_str();
            let o = download(u, a);
            assert(call_ensures(*download, (u, a), o));
            Some(o)
        };
        let step = DefaultModelStep { pair_dir, target, download: outcome };
        assert(default_step_done(
            models_dir@,
            default_model_table()[i as int],
            *is_valid_dir,
            *download,
            step,
        ));
        steps.push(step);
    }
    steps
}

/// Each default model is stored in a directory that the engine reads back
/// as the model's own pair of codes.
pub proof fn law_default_model_dirs_read_back()
    ensures
        forall|i: int|
            0 <= i < default_model_table().len() ==> pair_pieces(
                (#[trigger] default_model_table()[i]).0 + default_model_table()[i].1,
            ) == Some((default_model_table()[i].0, default_model_table()[i].1)),
{
    reveal_strlit("en");
    reveal_strlit("fr");
    let en = "en"@;
    let fr = "fr"@;
    assert(en.len() == 2 && fr.len() == 2);
    assert(is_ascii_text(en) && is_ascii_text(fr)) by {
        assert(en[0] == 'e' && en[1] == 'n' && fr[0] == 'f' && fr[1] == 'r');
    }
    law_pair_directory_reads_back(en, fr);
    law_pair_directory_reads_back(fr, en);
}

/// The file name of an archive URL: what follows its last `/`.
pub open spec fn archive_name(url: Seq<char>) -> Seq<char> {
    split_on(url, '/').last()
}

/// The file name of an archive URL.
pub fn archive_file_name(url: &str) -> (r: String)
    ensures
        r@ == archive_name(url@),
{
    let v = chars_of(url);
    let parts = split_chars(&v, '/');
    let last = parts.len() - 1;
    assert(parts@[last as int]@ == split_on(url@, '/')[last as int]);
    string_from_chars(&parts[last])
}

/// A lower-case hexadecimal digit.
pub open spec fn is_lower_hex(c: char) -> bool {
    ('0' <= c && c <= '9') || ('a' <= c && c <= 'f')
}

/// The text of a UUID: 36 characters, hyphens at 8, 13, 18 and 23 and
/// lower-case hexadecimal digits elsewhere.
pub open spec fn is_uuid_text(u: Seq<char>) -> bool {
    &&& u.len() == 36
    &&& forall|i: int|
        0 <= i < 36 ==> if i == 8 || i == 13 || i == 18 || i == 23 {
            #[trigger] u[i] == '-'
        } else {
            is_lower_hex(u[i])
        }
}

/// Calls uuid's `Uuid::new_v4` and formats it: a random UUID, so only its
/// shape (uuid's `Display`, hyphenated and lower case) is stated.
#[verifier::external_body]
fn new_uuid_text() -> (r: String)
    ensures
        is_uuid_text(r@),
{
    uuid::Uuid::new_v4().to_string()
}

/// A name for the temporary file an archive is downloaded to:
/// `gsp-ui-model-<uuid>-<archive>`, with a fresh random UUID.
pub fn temp_archive_name(archive: &str) -> (r: String)
    ensures
        exists|u: Seq<char>| is_uuid_text(u) && r@ == "gsp-ui-model-"@ + u + "-"@ + archive@,
{
    let u = new_uuid_text();
    let r = concat5("gsp-ui-model-", u.as_str(), "-", archive, "");
    proof {
        reveal_strlit("");
        assert(r@ =~= "gsp-ui-model-"@ + u@ + "-"@ + archive@);
        assert(is_uuid_text(u@));
    }
    r
}

/// A name for the temporary directory an archive is unpacked into:
/// `gsp-ui-extract-<uuid>`, with a fresh random UUID.
pub fn temp_extract_name() -> (r: String)
    ensures
        exists|u: Seq<char>| is_uuid_text(u) && r@ == "gsp-ui-extract-"@ + u,
{
    let u = new_uuid_text();
    let r = concat3("gsp-ui-extract-", u.as_str(), "");
    proof {
        reveal_strlit("");
        assert(r@ =~= "gsp-ui-extract-"@ + u@);
        assert(is_uuid_text(u@));
    }
    r
}

/// Whether the files of an unpacked archive lie in a subdirectory: the
/// archive held exactly one entry, a directory. `entry_is_dir` tells, for
/// each entry, whether it is a directory.
pub fn single_subdirectory(entry_is_dir: &Vec<bool>) -> (r: bool)
    ensures
        r == (entry_is_dir@.len() == 1 && entry_is_dir@[0]),
{
    entry_is_dir.len() == 1 && entry_is_dir[0]
}

/// How many of the listings are those of usable models.
pub open spec fn complete_count(listings: Seq<Seq<Seq<char>>>) -> nat
    decreases listings.len(),
{
    if listings.len() == 0 {
        0
    } else {
        complete_count(listings.drop_last()) + if listing_complete(listings.last()) {
            1nat
        } else {
            0nat
        }
    }
}

/// The text views of listings.
pub open spec fn listing_views(listings: Seq<Vec<String>>) -> Seq<Seq<Seq<char>>> {
    listings.map_values(|l: Vec<String>| string_views(l@))
}

/// How many of the model directories, given by their listings, hold a
/// usable model.
pub fn count_valid_models(listings: &Vec<Vec<String>>) -> (n: usize)
    ensures
        n == complete_count(listing_views(listings@)),
{
    let mut count: usize = 0;
    let len = listings.len();
    for i in 0..len
        invariant
            len == listings@.len(),
            count == complete_count(listing_views(listings@).take(i as int)),
            count <= i,
    {
        assert(listing_views(listings@).take(i + 1).drop_last() =~= listing_views(listings@).take(
            i as int,
        ));
        if is_valid_model_listing(&listings[i]) {
            count = count + 1;
        }
    }
    assert(listing_views(listings@).take(len as int) =~= listing_views(listings@));
    count
}

} // verus!
