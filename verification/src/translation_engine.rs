//! Language codes, the names of model directories, and which of the loaded
//! translation models serve a request.
//!
//! A language is named by its index in isolang's language table (the
//! number isolang itself gives `Language as u16`).

use vstd::prelude::*;
use crate::chars::{
    chars_of, concat3, concat5, push_char, split_chars, split_on, text_eq, text_le, text_le_exec,
};

verus! {

// ---------------------------------------------------------------------------
// isolang
// ---------------------------------------------------------------------------

/// How many languages isolang's table holds: every language index is below.
pub const LANGUAGE_COUNT: u16 = 7916;

/// What isolang's `Language::from_639_1` finds for a code, as a language index.
pub uninterp spec fn iso_639_1_language(code: Seq<char>) -> Option<u16>;

/// What isolang's `Language::to_639_3` gives for a language index.
pub uninterp spec fn iso_639_3_code(lang: u16) -> Seq<char>;

/// What isolang's `Language::to_639_1` gives for a language index.
pub uninterp spec fn iso_639_1_code(lang: u16) -> Option<Seq<char>>;

/// What isolang's `Display` for `Language` writes (its English name).
pub uninterp spec fn language_display(lang: u16) -> Seq<char>;

/// Calls isolang's `Language::from_639_1`. The language table is not
/// restated: the result is named. As isolang's source shows, a language it
/// finds lies in the table, and its 639-1 code is the code looked up (both
/// directions of isolang's table are made from the same rows).
#[verifier::external_body]
fn language_from_639_1(code: &str) -> (r: Option<u16>)
    ensures
        r == iso_639_1_language(code@),
        r matches Some(l) ==> l < LANGUAGE_COUNT && iso_639_1_code(l) == Some(code@),
{
    match isolang::Language::from_639_1(code) {
        Some(l) => Some(l as u16),
        None => None,
    }
}

/// isolang's `Language::Eng`: the language that `from_639_1` finds for `en`.
#[verifier::external_body]
fn english_language() -> (r: u16)
    ensures
        r < LANGUAGE_COUNT,
        iso_639_1_language("en"@) == Some(r),
{
    isolang::Language::Eng as u16
}

/// Calls isolang's `Language::to_639_3` on the language of index `lang`
/// (`Language::from_usize` turns the index back into the language, and does
/// so for every index of the table). The result is named.
#[verifier::external_body]
fn language_639_3(lang: u16) -> (r: String)
    requires
        lang < LANGUAGE_COUNT,
    ensures
        r@ == iso_639_3_code(lang),
{
    match isolang::Language::from_usize(lang as usize) {
        Some(l) => l.to_639_3().to_string(),
        None => String::new(),
    }
}

/// Calls isolang's `Language::to_639_1` on the language of index `lang`. The
/// result is named; as isolang's source shows, `from_639_1` finds the same
/// language again from the code given back.
#[verifier::external_body]
fn language_639_1(lang: u16) -> (r: Option<String>)
    requires
        lang < LANGUAGE_COUNT,
    ensures
        match iso_639_1_code(lang) {
            Some(c) => r matches Some(s) && s@ == c,
            None => r is None,
        },
        r matches Some(s) ==> iso_639_1_language(s@) == Some(lang),
{
    match isolang::Language::from_usize(lang as usize) {
        Some(l) => match l.to_639_1() {
            Some(c) => Some(c.to_string()),
            None => None,
        },
        None => None,
    }
}

/// Formats the language of index `lang` with isolang's `Display`. The
/// result is named.
#[verifier::external_body]
fn language_name(lang: u16) -> (r: String)
    requires
        lang < LANGUAGE_COUNT,
    ensures
        r@ == language_display(lang),
{
    match isolang::Language::from_usize(lang as usize) {
        Some(l) => format!("{}", l),
        None => String::new(),
    }
}

/// The language index of English.
pub open spec fn english_index() -> u16 {
    match iso_639_1_language("en"@) {
        Some(l) => l,
        None => 0,
    }
}

// ---------------------------------------------------------------------------
// Results as text
// ---------------------------------------------------------------------------

/// A result with its error message as text.
pub open spec fn res_view<T>(r: Result<T, String>) -> Result<T, Seq<char>> {
    match r {
        Ok(v) => Ok(v),
        Err(e) => Err(e@),
    }
}

/// A text result as text.
pub open spec fn text_res_view(r: Result<String, String>) -> Result<Seq<char>, Seq<char>> {
    match r {
        Ok(v) => Ok(v@),
        Err(e) => Err(e@),
    }
}

// ---------------------------------------------------------------------------
// Language codes
// ---------------------------------------------------------------------------

/// ASCII lower case of one character.
pub open spec fn ascii_lower(c: char) -> char {
    if 65 <= (c as u32) && (c as u32) <= 90 {
        (((c as u32) + 32) as u8) as char
    } else {
        c
    }
}

/// ASCII lower case of a text (`to_ascii_lowercase`).
pub open spec fn lower_ascii(s: Seq<char>) -> Seq<char> {
    s.map_values(|c: char| ascii_lower(c))
}

/// The text of `v`, in ASCII lower case.
fn lower_ascii_chars(v: &Vec<char>) -> (r: String)
    ensures
        r@ == lower_ascii(v@),
{
    let mut r = String::new();
    let n = v.len();
    for i in 0..n
        invariant
            n == v.len(),
            r@ == lower_ascii(v@.take(i as int)),
    {
        let c = v[i];
        let d = if 65 <= (c as u32) && (c as u32) <= 90 {
            ((c as u32 + 32) as u8) as char
        } else {
            c
        };
        push_char(&mut r, d);
        assert(lower_ascii(v@.take(i + 1)) =~= lower_ascii(v@.take(i as int)).push(
            ascii_lower(v@[i as int]),
        ));
    }
    assert(v@.take(n as int) =~= v@);
    r
}

/// The code looked up for a language code: what comes before its first
/// `-` (so `en-GB` is looked up as `en`), in ASCII lower case.
pub open spec fn normalized_code(code: Seq<char>) -> Seq<char> {
    lower_ascii(split_on(code, '-')[0])
}

/// The message for a code that names no language.
pub open spec fn invalid_code_message(code: Seq<char>) -> Seq<char> {
    "Code de langue invalide: '"@ + code + "'. Format attendu: ISO 639-1"@
}

/// The language of a code, given what the lookup of its normalized form
/// found.
pub open spec fn code_outcome(code: Seq<char>, found: Option<u16>) -> Result<u16, Seq<char>> {
    match found {
        Some(l) => Ok(l),
        None => Err(invalid_code_message(code)),
    }
}

/// The language of a code, or why there is none.
pub open spec fn language_code_outcome(code: Seq<char>) -> Result<u16, Seq<char>> {
    code_outcome(code, iso_639_1_language(normalized_code(code)))
}

/// The language of `code` once its normalized form was looked up.
pub fn code_lookup_result(code: &str, found: Option<u16>) -> (r: Result<u16, String>)
    ensures
        res_view(r) == code_outcome(code@, found),
{
    match found {
        Some(l) => Ok(l),
        None => Err(concat3("Code de langue invalide: '", code, "'. Format attendu: ISO 639-1")),
    }
}

/// The language of an ISO 639-1 code such as `fr` or `en-GB`.
pub fn parse_language_code(code: &str) -> (r: Result<u16, String>)
    ensures
        res_view(r) == language_code_outcome(code@),
        r matches Ok(l) ==> l < LANGUAGE_COUNT,
{
    let v = chars_of(code);
    let parts = split_chars(&v, '-');
    assert(parts@[0]@ == split_on(code@, '-')[0]);
    let lowered = lower_ascii_chars(&parts[0]);
    let found = language_from_639_1(lowered.as_str());
    code_lookup_result(code, found)
}

// ---------------------------------------------------------------------------
// Model directory names
// ---------------------------------------------------------------------------

/// Every character is ASCII.
pub open spec fn is_ascii_text(s: Seq<char>) -> bool {
    forall|i: int| 0 <= i < s.len() ==> (#[trigger] s[i] as u32) < 128
}

/// The two codes a model directory name holds: four ASCII characters are
/// split in the middle (`enfr`); otherwise the name must be two pieces
/// around one `-` (`en-fr`).
pub open spec fn pair_pieces(name: Seq<char>) -> Option<(Seq<char>, Seq<char>)> {
    if name.len() == 4 && is_ascii_text(name) {
        Some((name.subrange(0, 2), name.subrange(2, 4)))
    } else if split_on(name, '-').len() == 2 {
        Some((split_on(name, '-')[0], split_on(name, '-')[1]))
    } else {
        None
    }
}

/// The message for a directory name that holds no pair of codes.
pub open spec fn invalid_dir_message(name: Seq<char>) -> Seq<char> {
    "Répertoire de modèles invalide '"@ + name + "'; format attendu: 'en-fr' ou 'enfr'"@
}

/// The (source, target) languages of a model directory name, or the first
/// problem: no pair of codes, then the source code, then the target code.
pub open spec fn language_pair_outcome(name: Seq<char>) -> Result<(u16, u16), Seq<char>> {
    match pair_pieces(name) {
        None => Err(invalid_dir_message(name)),
        Some((a, b)) => match language_code_outcome(a) {
            Err(e) => Err(e),
            Ok(s) => match language_code_outcome(b) {
                Err(e) => Err(e),
                Ok(t) => Ok((s, t)),
            },
        },
    }
}

/// Whether every character of `v` is ASCII.
fn all_ascii(v: &Vec<char>) -> (r: bool)
    ensures
        r == is_ascii_text(v@),
{
    let n = v.len();
    for i in 0..n
        invariant
            n == v.len(),
            forall|j: int| 0 <= j < i ==> (#[trigger] v@[j] as u32) < 128,
    {
        if v[i] as u32 >= 128 {
            return false;
        }
    }
    true
}

/// The text of `v` from `lo` up to `hi`.
fn text_of_range(v: &Vec<char>, lo: usize, hi: usize) -> (s: String)
    requires
        lo <= hi <= v.len(),
    ensures
        s@ == v@.subrange(lo as int, hi as int),
{
    let mut s = String::new();
    for i in lo..hi
        invariant
            lo <= hi <= v.len(),
            s@ == v@.subrange(lo as int, i as int),
    {
        push_char(&mut s, v[i]);
        assert(v@.subrange(lo as int, i + 1) =~= v@.subrange(lo as int, i as int).push(
            v@[i as int],
        ));
    }
    s
}

/// The two codes of a model directory name, if it holds two.
pub fn directory_pieces(name: &str) -> (r: Option<(String, String)>)
    ensures
        match pair_pieces(name@) {
            None => r is None,
            Some((a, b)) => r matches Some(p) && p.0@ == a && p.1@ == b,
        },
{
    let v = chars_of(name);
    if v.len() == 4 && all_ascii(&v) {
        return Some((text_of_range(&v, 0, 2), text_of_range(&v, 2, 4)));
    }
    let parts = split_chars(&v, '-');
    if parts.len() == 2 {
        let a = text_of_range(&parts[0], 0, parts[0].len());
        let b = text_of_range(&parts[1], 0, parts[1].len());
        assert(parts@[0]@.subrange(0, parts@[0]@.len() as int) =~= parts@[0]@);
        assert(parts@[1]@.subrange(0, parts@[1]@.len() as int) =~= parts@[1]@);
        assert(parts@[0]@ == split_on(name@, '-')[0]);
        assert(parts@[1]@ == split_on(name@, '-')[1]);
        Some((a, b))
    } else {
        None
    }
}

/// The (source, target) languages of a model directory name such as
/// `en-fr` or `enfr`.
pub fn parse_language_pair(name: &str) -> (r: Result<(u16, u16), String>)
    ensures
        res_view(r) == language_pair_outcome(name@),
        r matches Ok((s, t)) ==> s < LANGUAGE_COUNT && t < LANGUAGE_COUNT,
{
    match directory_pieces(name) {
        None => Err(
            concat3(
                "Répertoire de modèles invalide '",
                name,
                "'; format attendu: 'en-fr' ou 'enfr'",
            ),
        ),
        Some((a, b)) => {
            let s = match parse_language_code(a.as_str()) {
                Ok(l) => l,
                Err(e) => return Err(e),
            };
            let t = match parse_language_code(b.as_str()) {
                Ok(l) => l,
                Err(e) => return Err(e),
            };
            Ok((s, t))
        },
    }
}

/// A directory named by two codes of two ASCII characters each, written
/// one after the other (as models are stored when downloaded), is read back
/// as those two codes.
pub proof fn law_pair_directory_reads_back(a: Seq<char>, b: Seq<char>)
    requires
        a.len() == 2,
        b.len() == 2,
        is_ascii_text(a),
        is_ascii_text(b),
    ensures
        pair_pieces(a + b) == Some((a, b)),
{
    let n = a + b;
    assert(is_ascii_text(n)) by {
        assert forall|i: int| 0 <= i < n.len() implies (#[trigger] n[i] as u32) < 128 by {
            if i < 2 {
                assert(n[i] == a[i]);
            } else {
                assert(n[i] == b[i - 2]);
            }
        }
    }
    assert(n.subrange(0, 2) =~= a);
    assert(n.subrange(2, 4) =~= b);
}

// ---------------------------------------------------------------------------
// ISO codes of languages
// ---------------------------------------------------------------------------

/// The message for a language without a two-letter code.
pub open spec fn no_639_1_message(name: Seq<char>) -> Seq<char> {
    "Langue '"@ + name + "' n'a pas de code ISO 639-1"@
}

/// The code a language is shown with, from its three-letter code, its
/// two-letter code and its name: `cmn` is shown as `zh`; other languages by
/// their two-letter code, and one without it is an error.
pub open spec fn iso_code_choice(
    code3: Seq<char>,
    code1: Option<Seq<char>>,
    name: Seq<char>,
) -> Result<Seq<char>, Seq<char>> {
    if code3 == "cmn"@ {
        Ok("zh"@)
    } else {
        match code1 {
            Some(c) => Ok(c),
            None => Err(no_639_1_message(name)),
        }
    }
}

/// The code a language is shown with.
pub open spec fn iso_code_outcome(lang: u16) -> Result<Seq<char>, Seq<char>> {
    iso_code_choice(iso_639_3_code(lang), iso_639_1_code(lang), language_display(lang))
}

/// The code a language is shown with, from what isolang gives for it.
pub fn choose_iso_code(code3: &str, code1: Option<String>, name: &str) -> (r: Result<
    String,
    String,
>)
    ensures
        text_res_view(r) == iso_code_choice(
            code3@,
            match code1 {
                Some(c) => Some(c@),
                None => None,
            },
            name@,
        ),
{
    if text_eq(code3, "cmn") {
        Ok("zh".to_owned())
    } else {
        match code1 {
            Some(c) => Ok(c),
            None => Err(concat3("Langue '", name, "' n'a pas de code ISO 639-1")),
        }
    }
}

/// The code a language is shown with: `zh` for Mandarin (`cmn`), otherwise
/// its ISO 639-1 code, which names the language again.
pub fn iso_code(lang: u16) -> (r: Result<String, String>)
    requires
        lang < LANGUAGE_COUNT,
    ensures
        text_res_view(r) == iso_code_outcome(lang),
        iso_639_3_code(lang) != "cmn"@ ==> (r matches Ok(c) ==> iso_639_1_language(c@) == Some(
            lang,
        )),
{
    let code3 = language_639_3(lang);
    let code1 = language_639_1(lang);
    let name = language_name(lang);
    choose_iso_code(code3.as_str(), code1, name.as_str())
}


// ---------------------------------------------------------------------------
// Loaded models
// ---------------------------------------------------------------------------

/// The message for a second model directory of the same pair.
pub open spec fn duplicate_pair_message(source: Seq<char>, target: Seq<char>) -> Seq<char> {
    "Modèle dupliqué pour la paire linguistique '"@ + source + "-"@ + target + "'"@
}

/// The message for a models directory without any model.
pub open spec fn no_models_message(dir: Seq<char>) -> Seq<char> {
    "Aucun répertoire de modèles trouvé dans '"@ + dir + "'"@
}

/// What loading the model directory `name` is to give, beside the models
/// already loaded: its (source, target) languages and their codes, or the
/// first problem: the name, the codes, then a pair already loaded.
pub open spec fn model_dir_outcome(loaded: Seq<(u16, u16)>, name: Seq<char>) -> Result<
    (u16, u16, Seq<char>, Seq<char>),
    Seq<char>,
> {
    match language_pair_outcome(name) {
        Err(e) => Err(e),
        Ok((s, t)) => match iso_code_outcome(s) {
            Err(e) => Err(e),
            Ok(sc) => match iso_code_outcome(t) {
                Err(e) => Err(e),
                Ok(tc) => if loaded.contains((s, t)) {
                    Err(duplicate_pair_message(sc, tc))
                } else {
                    Ok((s, t, sc, tc))
                },
            },
        },
    }
}

/// A model directory whose name reads as a pair of known languages is
/// refused as a duplicate exactly when a model of that same pair, in that
/// order, is loaded already; the reverse pair is no duplicate, so `enfr`
/// and `fren` load side by side. When it is admitted, it is admitted as
/// the pair its name reads as, with the codes of its two languages.
pub proof fn law_only_the_same_pair_is_a_duplicate(loaded: Seq<(u16, u16)>, name: Seq<char>)
    ensures
        language_pair_outcome(name) matches Ok((s, t)) ==> (iso_code_outcome(s) matches Ok(sc)
            ==> (iso_code_outcome(t) matches Ok(tc) ==> (model_dir_outcome(loaded, name) is Ok
            <==> !loaded.contains((s, t))) && (loaded.contains((s, t)) ==> model_dir_outcome(
            loaded,
            name,
        ) == Err::<(u16, u16, Seq<char>, Seq<char>), Seq<char>>(duplicate_pair_message(sc, tc)))
            && (!loaded.contains((s, t)) ==> model_dir_outcome(loaded, name) == Ok::<
            (u16, u16, Seq<char>, Seq<char>),
            Seq<char>,
        >((s, t, sc, tc))))),
        model_dir_outcome(loaded, name) matches Ok((s, t, _sc, _tc)) ==> language_pair_outcome(name)
            == Ok::<(u16, u16), Seq<char>>((s, t)) && !loaded.contains((s, t)),
        loaded.len() == 1 && (language_pair_outcome(name) matches Ok((s, t)) && loaded[0] == (t, s)
            && s != t && iso_code_outcome(s) is Ok && iso_code_outcome(t) is Ok) ==> model_dir_outcome(
            loaded,
            name,
        ) is Ok,
{
    if loaded.len() == 1 && language_pair_outcome(name) is Ok {
        let (s, t) = language_pair_outcome(name)->Ok_0;
        if loaded[0] == (t, s) && s != t {
            assert(!loaded.contains((s, t))) by {
                if loaded.contains((s, t)) {
                    let i = choose|i: int| 0 <= i < loaded.len() && loaded[i] == (s, t);
                    assert(i == 0);
                }
            }
        }
    }
}

/// A model directory that may be loaded: its languages and their codes.
#[derive(Debug)]
pub struct ModelDir {
    pub source: u16,
    pub target: u16,
    pub source_code: String,
    pub target_code: String,
}

/// How a translation goes through the loaded models, by their places in
/// load order: one model for the pair, or two through English.
#[derive(Debug, Clone, Copy, PartialEq, Eq, Structural)]
pub enum Route {
    Direct(usize),
    ViaEnglish(usize, usize),
}

/// The pairs of the models a route uses, in order.
pub open spec fn route_pairs(loaded: Seq<(u16, u16)>, r: Route) -> Seq<(u16, u16)> {
    match r {
        Route::Direct(i) => seq![loaded[i as int]],
        Route::ViaEnglish(i, j) => seq![loaded[i as int], loaded[j as int]],
    }
}

/// The places of a route are places of loaded models.
pub open spec fn route_in(loaded: Seq<(u16, u16)>, r: Route) -> bool {
    match r {
        Route::Direct(i) => i < loaded.len(),
        Route::ViaEnglish(i, j) => i < loaded.len() && j < loaded.len(),
    }
}

/// The pairs to translate through from `s` to `t`: the model of the pair
/// when one is loaded, else the models into and out of English when both
/// are loaded, else none.
pub open spec fn route_outcome(loaded: Seq<(u16, u16)>, english: u16, s: u16, t: u16) -> Option<
    Seq<(u16, u16)>,
> {
    if loaded.contains((s, t)) {
        Some(seq![(s, t)])
    } else if loaded.contains((s, english)) && loaded.contains((english, t)) {
        Some(seq![(s, english), (english, t)])
    } else {
        None
    }
}

/// The message for a source code that names no language.
pub open spec fn source_code_message(code: Seq<char>) -> Seq<char> {
    "Code de langue source invalide: '"@ + code + "'"@
}

/// The message for a target code that names no language.
pub open spec fn target_code_message(code: Seq<char>) -> Seq<char> {
    "Code de langue cible invalide: '"@ + code + "'"@
}

/// The message for a pair of languages no loaded model serves.
pub open spec fn unsupported_message(from: Seq<char>, to: Seq<char>) -> Seq<char> {
    "Traduction de '"@ + from + "' à '"@ + to + "' n'est pas supportée"@
}

/// The models to translate `from` into `to` with, or why there are none.
pub open spec fn translation_plan(loaded: Seq<(u16, u16)>, from: Seq<char>, to: Seq<char>) -> Result<
    Seq<(u16, u16)>,
    Seq<char>,
> {
    match iso_639_1_language(normalized_code(from)) {
        None => Err(source_code_message(from)),
        Some(s) => match iso_639_1_language(normalized_code(to)) {
            None => Err(target_code_message(to)),
            Some(t) => match route_outcome(loaded, english_index(), s, t) {
                Some(ps) => Ok(ps),
                None => Err(unsupported_message(from, to)),
            },
        },
    }
}

/// The language pairs of the loaded translation models, in load order,
/// each at most once.
pub struct LoadedModels {
    pairs: Vec<(u16, u16)>,
}

impl View for LoadedModels {
    type V = Seq<(u16, u16)>;

    closed spec fn view(&self) -> Seq<(u16, u16)> {
        self.pairs@
    }
}

/// No pair occurs twice.
pub open spec fn distinct_pairs(ps: Seq<(u16, u16)>) -> bool {
    forall|i: int, j: int| 0 <= i < j < ps.len() ==> ps[i] != ps[j]
}

impl LoadedModels {
    #[verifier::type_invariant]
    spec fn wf(self) -> bool {
        distinct_pairs(self.pairs@)
    }

    /// No model loaded yet.
    pub fn new() -> (m: LoadedModels)
        ensures
            m@ == Seq::<(u16, u16)>::empty(),
    {
        LoadedModels { pairs: Vec::new() }
    }

    /// How many models are loaded.
    pub fn len(&self) -> (n: usize)
        ensures
            n == self@.len(),
            distinct_pairs(self@),
    {
        proof {
            use_type_invariant(self);
        }
        self.pairs.len()
    }

    /// The place of the model of a pair, if one is loaded.
    pub fn find(&self, source: u16, target: u16) -> (r: Option<usize>)
        ensures
            match r {
                Some(i) => i < self@.len() && self@[i as int] == (source, target),
                None => !self@.contains((source, target)),
            },
    {
        let n = self.pairs.len();
        for i in 0..n
            invariant
                n == self.pairs@.len(),
                forall|j: int| 0 <= j < i ==> self.pairs@[j] != (source, target),
        {
            let p = self.pairs[i];
            if p.0 == source && p.1 == target {
                return Some(i);
            }
        }
        None
    }

    /// Whether the directory `name` may be loaded beside the models loaded.
    pub fn check_dir(&self, name: &str) -> (r: Result<ModelDir, String>)
        ensures
            match model_dir_outcome(self@, name@) {
                Err(e) => r matches Err(m) && m@ == e,
                Ok((s, t, sc, tc)) => r matches Ok(d) && d.source == s && d.target == t
                    && d.source_code@ == sc && d.target_code@ == tc,
            },
    {
        let (s, t) = match parse_language_pair(name) {
            Ok(p) => p,
            Err(e) => return Err(e),
        };
        let sc = match iso_code(s) {
            Ok(c) => c,
            Err(e) => return Err(e),
        };
        let tc = match iso_code(t) {
            Ok(c) => c,
            Err(e) => return Err(e),
        };
        if self.find(s, t).is_some() {
            return Err(
                concat5(
                    "Modèle dupliqué pour la paire linguistique '",
                    sc.as_str(),
                    "-",
                    tc.as_str(),
                    "'",
                ),
            );
        }
        Ok(ModelDir { source: s, target: t, source_code: sc, target_code: tc })
    }

    /// Records the model of a pair not loaded yet, after those loaded.
    pub fn add(&mut self, source: u16, target: u16)
        requires
            !old(self)@.contains((source, target)),
        ensures
            final(self)@ == old(self)@.push((source, target)),
    {
        proof {
            use_type_invariant(&*self);
        }
        let mut pairs: Vec<(u16, u16)> = Vec::new();
        std::mem::swap(&mut pairs, &mut self.pairs);
        let ghost before = pairs@;
        pairs.push((source, target));
        assert forall|i: int, j: int| 0 <= i < j < pairs@.len() implies pairs@[i] != pairs@[j] by {
            if j == before.len() {
                assert(before[i] == pairs@[i]);
            }
        }
        self.pairs = pairs;
    }

    /// The models directory `dir` gave at least one model.
    pub fn ensure_loaded(&self, dir: &str) -> (r: Result<(), String>)
        ensures
            r is Ok <==> self@.len() > 0,
            r matches Err(m) ==> m@ == no_models_message(dir@),
    {
        if self.pairs.len() == 0 {
            Err(concat3("Aucun répertoire de modèles trouvé dans '", dir, "'"))
        } else {
            Ok(())
        }
    }

    /// The models that carry language `s` over into `t`, with `english` as
    /// the pivot language.
    pub fn route(&self, english: u16, s: u16, t: u16) -> (r: Option<Route>)
        ensures
            match route_outcome(self@, english, s, t) {
                None => r is None,
                Some(ps) => r matches Some(rt) && route_in(self@, rt) && route_pairs(self@, rt)
                    == ps,
            },
    {
        if let Some(i) = self.find(s, t) {
            return Some(Route::Direct(i));
        }
        let to_english = self.find(s, english);
        let from_english = self.find(english, t);
        match (to_english, from_english) {
            (Some(i), Some(j)) => Some(Route::ViaEnglish(i, j)),
            _ => None,
        }
    }

    /// The models that carry the language coded `from` over into the one
    /// coded `to`.
    pub fn plan(&self, from: &str, to: &str) -> (r: Result<Route, String>)
        ensures
            match translation_plan(self@, from@, to@) {
                Err(e) => r matches Err(m) && m@ == e,
                Ok(ps) => r matches Ok(rt) && route_in(self@, rt) && route_pairs(self@, rt) == ps,
            },
    {
        let s = match parse_language_code(from) {
            Ok(l) => l,
            Err(_) => return Err(concat3("Code de langue source invalide: '", from, "'")),
        };
        let t = match parse_language_code(to) {
            Ok(l) => l,
            Err(_) => return Err(concat3("Code de langue cible invalide: '", to, "'")),
        };
        let english = english_language();
        match self.route(english, s, t) {
            Some(r) => Ok(r),
            None => Err(concat5("Traduction de '", from, "' à '", to, "' n'est pas supportée")),
        }
    }
}

/// Once the model of a pair is loaded, a translation between those two
/// languages uses that model alone.
pub proof fn law_loaded_model_serves_its_pair(
    loaded: Seq<(u16, u16)>,
    english: u16,
    s: u16,
    t: u16,
)
    ensures
        route_outcome(loaded.push((s, t)), english, s, t) == Some(seq![(s, t)]),
{
    assert(loaded.push((s, t))[loaded.len() as int] == (s, t));
}

/// English is the only pivot: a translation through two models goes into
/// English and out of it, and only when no model serves the pair.
pub proof fn law_pivot_is_english(loaded: Seq<(u16, u16)>, english: u16, s: u16, t: u16)
    requires
        route_outcome(loaded, english, s, t) matches Some(ps) && ps.len() == 2,
    ensures
        !loaded.contains((s, t)),
        route_outcome(loaded, english, s, t) == Some(seq![(s, english), (english, t)]),
{
}


// ---------------------------------------------------------------------------
// The engine
// ---------------------------------------------------------------------------

/// The (source, target) languages admitted for the model directories
/// `names`, in order, each checked beside those before it; or the first
/// problem with a name.
pub open spec fn admit_all(names: Seq<Seq<char>>) -> Result<Seq<(u16, u16)>, Seq<char>>
    decreases names.len(),
{
    if names.len() == 0 {
        Ok(seq![])
    } else {
        match admit_all(names.drop_last()) {
            Err(e) => Err(e),
            Ok(ps) => match model_dir_outcome(ps, names.last()) {
                Err(e) => Err(e),
                Ok((s, t, _sc, _tc)) => Ok(ps.push((s, t))),
            },
        }
    }
}

/// The names of the entries that are directories, in order.
pub open spec fn dir_names(entries: Seq<(String, bool)>) -> Seq<Seq<char>>
    decreases entries.len(),
{
    if entries.len() == 0 {
        seq![]
    } else if entries.last().1 {
        dir_names(entries.drop_last()).push(entries.last().0@)
    } else {
        dir_names(entries.drop_last())
    }
}

/// The entries with `e` put before the first one whose name does not come
/// before its own.
pub open spec fn insert_by_name(sorted: Seq<(String, bool)>, e: (String, bool)) -> Seq<
    (String, bool),
>
    decreases sorted.len(),
{
    if sorted.len() == 0 {
        seq![e]
    } else if text_le(e.0@, sorted[0].0@) {
        seq![e] + sorted
    } else {
        seq![sorted[0]] + insert_by_name(sorted.subrange(1, sorted.len() as int), e)
    }
}

/// The entries in the order of their names (each put in turn into the
/// ones before it).
pub open spec fn name_order(es: Seq<(String, bool)>) -> Seq<(String, bool)>
    decreases es.len(),
{
    if es.len() == 0 {
        seq![]
    } else {
        insert_by_name(name_order(es.drop_last()), es.last())
    }
}

/// Inserting before place `i`, the first whose name does not come before
/// the new one, is `insert_by_name`.
proof fn lemma_insert_at_first_place(s: Seq<(String, bool)>, e: (String, bool), i: int)
    requires
        0 <= i <= s.len(),
        forall|j: int| 0 <= j < i ==> !text_le(e.0@, #[trigger] s[j].0@),
        i < s.len() ==> text_le(e.0@, s[i].0@),
    ensures
        insert_by_name(s, e) == s.insert(i, e),
    decreases i,
{
    if i == 0 {
        if s.len() == 0 {
            assert(s.insert(0, e) =~= seq![e]);
        } else {
            assert(s.insert(0, e) =~= seq![e] + s);
        }
    } else {
        let t = s.subrange(1, s.len() as int);
        assert forall|j: int| 0 <= j < i - 1 implies !text_le(e.0@, #[trigger] t[j].0@) by {
            assert(t[j] == s[j + 1]);
        }
        if i - 1 < t.len() {
            assert(t[i - 1] == s[i]);
        }
        assert(!text_le(e.0@, s[0].0@));
        lemma_insert_at_first_place(t, e, i - 1);
        assert(s.insert(i, e) =~= seq![s[0]] + t.insert(i - 1, e));
    }
}

/// Puts `e` into `sorted` before the first entry whose name does not come
/// before its own.
fn insert_entry(sorted: &mut Vec<(String, bool)>, e: (String, bool))
    ensures
        final(sorted)@ == insert_by_name(old(sorted)@, e),
{
    let key = chars_of(e.0.as_str());
    let n = sorted.len();
    let mut i: usize = 0;
    let mut found = false;
    while !found && i < n
        invariant
            n == sorted@.len(),
            i <= n,
            key@ == e.0@,
            forall|j: int| 0 <= j < i ==> !text_le(e.0@, #[trigger] sorted@[j].0@),
            found ==> i < n && text_le(e.0@, sorted@[i as int].0@),
        decreases n - i + if found { 0int } else { 1int },
    {
        let other = chars_of(sorted[i].0.as_str());
        if text_le_exec(&key, &other) {
            found = true;
        } else {
            i = i + 1;
        }
    }
    proof {
        lemma_insert_at_first_place(sorted@, e, i as int);
    }
    sorted.insert(i, e);
}

/// The entries in the order of their names.
pub fn sort_by_name(entries: Vec<(String, bool)>) -> (r: Vec<(String, bool)>)
    ensures
        r@ == name_order(entries@),
{
    let mut rest = entries;
    let mut sorted: Vec<(String, bool)> = Vec::new();
    let ghost all = rest@;
    let n = rest.len();
    let mut k: usize = 0;
    while k < n
        invariant
            n == all.len(),
            k <= n,
            rest@ == all.subrange(k as int, n as int),
            sorted@ == name_order(all.take(k as int)),
        decreases n - k,
    {
        let e = rest.remove(0);
        assert(all.take(k + 1).drop_last() =~= all.take(k as int));
        assert(all.take(k + 1).last() == e);
        insert_entry(&mut sorted, e);
        assert(rest@ =~= all.subrange(k + 1, n as int));
        k = k + 1;
    }
    assert(all.take(n as int) =~= all);
    sorted
}

/// The message when a model gives no translation.
pub open spec fn no_translation_message() -> Seq<char> {
    "Aucune traduction retournée"@
}

/// The first of the translations a model gave for one text.
pub fn first_translation(translations: Vec<String>) -> (r: Result<String, String>)
    ensures
        translations@.len() > 0 ==> r == Ok::<String, String>(translations@[0]),
        translations@.len() == 0 ==> (r matches Err(m) && m@ == no_translation_message()),
{
    let mut translations = translations;
    if translations.len() == 0 {
        Err("Aucune traduction retournée".to_owned())
    } else {
        Ok(translations.swap_remove(0))
    }
}

/// Loaded translation models, each of type `M`, with the language pair of
/// each: the pair of the model at place `i` is the `i`-th pair.
pub struct TranslationEngine<M> {
    pairs: LoadedModels,
    models: Vec<M>,
}

impl<M> TranslationEngine<M> {
    #[verifier::type_invariant]
    spec fn wf(self) -> bool {
        self.models@.len() == self.pairs@.len()
    }

    /// The language pairs of the loaded models, in load order.
    pub closed spec fn pairs(self) -> Seq<(u16, u16)> {
        self.pairs@
    }

    /// The model at place `i`.
    pub closed spec fn model(self, i: int) -> M {
        self.models@[i]
    }

    /// Loads the models of a models directory, its entries (name, whether
    /// a directory) taken in the order given: each directory is checked by
    /// name (`check_dir`) beside the models loaded before it, then its model
    /// is loaded by `load_model`; the first failure is returned. Without any
    /// model directory, that is an error.
    fn load_in_order<F: Fn(&str, &ModelDir) -> Result<M, String>>(
        models_dir: &str,
        entries: &Vec<(String, bool)>,
        load_model: &F,
    ) -> (r: Result<TranslationEngine<M>, String>)
        requires
            forall|n: &str, d: &ModelDir| call_requires(*load_model, (n, d)),
        ensures
            loaded_from(models_dir@, entries@, *load_model, r),
    {
        let mut pairs = LoadedModels::new();
        let mut models: Vec<M> = Vec::new();
        let ghost names = dir_names(entries@);
        let ghost mut k: int = 0;
        let n = entries.len();
        for i in 0..n
            invariant
                n == entries@.len(),
                names == dir_names(entries@),
                forall|n: &str, d: &ModelDir| call_requires(*load_model, (n, d)),
                k == dir_names(entries@.take(i as int)).len(),
                0 <= k <= names.len(),
                names.take(k) == dir_names(entries@.take(i as int)),
                admit_all(names.take(k)) == Ok::<Seq<(u16, u16)>, Seq<char>>(pairs@),
                models@.len() == pairs@.len(),
                models@.len() == k,
                forall|j: int|
                    0 <= j < models@.len() ==> model_loaded_from(
                        #[trigger] models@[j],
                        pairs@.take(j),
                        pairs@[j],
                        names[j],
                        *load_model,
                    ),
        {
            proof {
                lemma_dir_names_prefix(entries@, i as int);
            }
            let (name, is_dir) = &entries[i];
            assert(entries@.take(i + 1).drop_last() =~= entries@.take(i as int));
            if *is_dir {
                proof {
                    lemma_dir_names_take(entries@, i + 1);
                    assert(names.take(k + 1) == dir_names(entries@.take(i + 1)));
                    assert(names.take(k + 1).drop_last() =~= names.take(k));
                    assert(names.take(k + 1)[k] == name@);
                }
                let d = match pairs.check_dir(name.as_str()) {
                    Ok(d) => d,
                    Err(e) => {
                        proof {
                            assert(admit_all(names.take(k + 1)) is Err);
                            lemma_admit_error_stays(names, k + 1, names.len() as int);
                            assert(names.take(names.len() as int) =~= names);
                        }
                        return Err(e);
                    },
                };
                let name_text = name.as_str();
                let loaded = load_model(name_text, &d);
                assert(call_ensures(*load_model, (name_text, &d), loaded));
                let ghost got = loaded;
                let model = match loaded {
                    Ok(m) => m,
                    Err(e) => {
                        assert(admit_all(names.take(k)) is Ok);
                        return Err(e);
                    },
                };
                let ghost before_models = models@;
                let ghost before_pairs = pairs@;
                pairs.add(d.source, d.target);
                models.push(model);
                proof {
                    assert(got == Ok::<M, String>(model));
                    assert(names[k] == name_text@);
                    assert(dir_checked(d, before_pairs, names[k]));
                    assert(model_loaded_from(
                        model,
                        before_pairs,
                        (d.source, d.target),
                        names[k],
                        *load_model,
                    ));
                    assert forall|j: int| 0 <= j < models@.len() implies model_loaded_from(
                        #[trigger] models@[j],
                        pairs@.take(j),
                        pairs@[j],
                        names[j],
                        *load_model,
                    ) by {
                        if j < before_models.len() {
                            assert(models@[j] == before_models[j]);
                            assert(pairs@[j] == before_pairs[j]);
                            assert(pairs@.take(j) =~= before_pairs.take(j));
                        } else {
                            assert(models@[j] == model);
                            assert(pairs@[j] == (d.source, d.target));
                            assert(pairs@.take(j) =~= before_pairs);
                        }
                    }
                    k = k + 1;
                }
            }
        }
        assert(entries@.take(n as int) =~= entries@);
        assert(names.take(k) =~= names);
        if pairs.len() == 0 {
            assert(admit_all(names.take(k)) is Ok);
            return Err(concat3("Aucun répertoire de modèles trouvé dans '", models_dir, "'"));
        }
        let engine = TranslationEngine { pairs, models };
        assert forall|i: int| 0 <= i < engine.pairs().len() implies model_loaded_from(
            #[trigger] engine.model(i),
            engine.pairs().take(i),
            engine.pairs()[i],
            names[i],
            *load_model,
        ) by {
            assert(engine.model(i) == engine.models@[i]);
        }
        Ok(engine)
    }

    /// Loads the models of a models directory from its entries (name,
    /// whether a directory), taken in the order of their names.
    pub fn load<F: Fn(&str, &ModelDir) -> Result<M, String>>(
        models_dir: &str,
        entries: Vec<(String, bool)>,
        load_model: &F,
    ) -> (r: Result<TranslationEngine<M>, String>)
        requires
            forall|n: &str, d: &ModelDir| call_requires(*load_model, (n, d)),
        ensures
            loaded_from(models_dir@, name_order(entries@), *load_model, r),
    {
        let sorted = sort_by_name(entries);
        Self::load_in_order(models_dir, &sorted, load_model)
    }

    /// Translates `text` from the code `from` into the code `to`, running
    /// the chosen models with `run`: the model of the pair, or the models
    /// into and out of English one after the other.
    pub fn translate<F: Fn(&M, &str) -> Result<String, String>>(
        &self,
        text: &str,
        from: &str,
        to: &str,
        run: &F,
    ) -> (r: Result<String, String>)
        requires
            forall|m: &M, t: &str| call_requires(*run, (m, t)),
        ensures
            translated_by(*self, text@, from@, to@, *run, r),
    {
        proof {
            use_type_invariant(self);
        }
        let route = match self.pairs.plan(from, to) {
            Ok(rt) => rt,
            Err(e) => return Err(e),
        };
        let ghost ps = route_pairs(self.pairs@, route);
        match route {
            Route::Direct(i) => {
                let o = run(&self.models[i], text);
                assert(self.pairs()[i as int] == ps[0]);
                assert(call_ensures(*run, (&self.model(i as int), text), o));
                o
            },
            Route::ViaEnglish(i, j) => {
                let o = run(&self.models[i], text);
                assert(self.pairs()[i as int] == ps[0]);
                assert(self.pairs()[j as int] == ps[1]);
                assert(call_ensures(*run, (&self.model(i as int), text), o));
                match o {
                    Err(e) => Err(e),
                    Ok(mid) => {
                        let ms = mid.as_str();
                        let o2 = run(&self.models[j], ms);
                        assert(call_ensures(*run, (&self.model(j as int), ms), o2));
                        o2
                    },
                }
            },
        }
    }
}

/// `r` is what translating `text` from the code `from` into the code `to`
/// gives, running the models of `engine` with `run`: the reason no models
/// serve the request, or what `run` gave for the model of the pair, or for
/// the model into English and then the one out of it (stopping at the first
/// failure).
pub open spec fn translated_by<M, F: Fn(&M, &str) -> Result<String, String>>(
    engine: TranslationEngine<M>,
    text: Seq<char>,
    from: Seq<char>,
    to: Seq<char>,
    run: F,
    r: Result<String, String>,
) -> bool {
    match translation_plan(engine.pairs(), from, to) {
        Err(e) => r matches Err(m) && m@ == e,
        Ok(ps) => exists|i: int|
            0 <= i < engine.pairs().len() && #[trigger] engine.pairs()[i] == ps[0] && exists|
                a: &str,
                o: Result<String, String>,
            |
                a@ == text && call_ensures(run, (&engine.model(i), a), o) && if ps.len()
                    == 1 {
                    r == o
                } else {
                    match o {
                        Err(e) => r == Err::<String, String>(e),
                        Ok(mid) => exists|j: int|
                            0 <= j < engine.pairs().len() && #[trigger] engine.pairs()[j]
                                == ps[1] && exists|b: &str, o2: Result<String, String>|
                                b@ == mid@ && call_ensures(run, (&engine.model(j), b), o2)
                                    && r == o2,
                    }
                },
    }
}

/// `d` is what checking the directory `name` beside the models of the
/// pairs `loaded` gives: its languages and their codes.
pub open spec fn dir_checked(d: ModelDir, loaded: Seq<(u16, u16)>, name: Seq<char>) -> bool {
    model_dir_outcome(loaded, name) == Ok::<(u16, u16, Seq<char>, Seq<char>), Seq<char>>(
        (d.source, d.target, d.source_code@, d.target_code@),
    )
}

/// `model` is what `load_model` gave for the directory `name`, checked
/// beside the models of the pairs `loaded` as the language pair `pair`.
pub open spec fn model_loaded_from<M, F: Fn(&str, &ModelDir) -> Result<M, String>>(
    model: M,
    loaded: Seq<(u16, u16)>,
    pair: (u16, u16),
    name: Seq<char>,
    load_model: F,
) -> bool {
    exists|n: &str, d: &ModelDir|
        n@ == name && d.source == pair.0 && d.target == pair.1 && dir_checked(*d, loaded, name)
            && #[trigger] call_ensures(load_model, (n, d), Ok::<M, String>(model))
}

/// The model at each place of `e` is what `load_model` gave for the
/// directory name at the same place of `names`, checked beside the models
/// before it as the pair at that place.
pub open spec fn models_loaded_from<M, F: Fn(&str, &ModelDir) -> Result<M, String>>(
    e: TranslationEngine<M>,
    names: Seq<Seq<char>>,
    load_model: F,
) -> bool {
    forall|i: int|
        0 <= i < e.pairs().len() ==> model_loaded_from(
            #[trigger] e.model(i),
            e.pairs().take(i),
            e.pairs()[i],
            names[i],
            load_model,
        )
}

/// `r` is what loading the models of `models_dir` gives, its entries taken
/// in the order `entries`: on success, the pairs admitted for all its
/// directories, at least one; on failure, the first problem, with every
/// directory before it admitted: no model directory at all, a refused
/// directory name, or the error `load_model` gave for a directory. When
/// `load_model` never fails, every directory admitted means success.
pub open spec fn loaded_from<M, F: Fn(&str, &ModelDir) -> Result<M, String>>(
    models_dir: Seq<char>,
    entries: Seq<(String, bool)>,
    load_model: F,
    r: Result<TranslationEngine<M>, String>,
) -> bool {
    let names = dir_names(entries);
    &&& (r matches Ok(e) ==> admit_all(names) == Ok::<Seq<(u16, u16)>, Seq<char>>(e.pairs())
        && e.pairs().len() > 0 && models_loaded_from(e, names, load_model))
    &&& (r matches Err(m) ==> exists|k: int|
        0 <= k <= names.len() && #[trigger] admit_all(names.take(k)) is Ok && ({
            let ps = admit_all(names.take(k))->Ok_0;
            ||| k == names.len() && ps.len() == 0 && m@ == no_models_message(models_dir)
            ||| k < names.len() && model_dir_outcome(ps, names[k]) == Err::<
                (u16, u16, Seq<char>, Seq<char>),
                Seq<char>,
            >(m@)
            ||| k < names.len() && exists|n: &str, d: &ModelDir|
                n@ == names[k] && dir_checked(*d, ps, names[k]) && call_ensures(
                    load_model,
                    (n, d),
                    Err::<M, String>(m),
                )
        }))
    &&& ((forall|n: &str, d: &ModelDir, o: Result<M, String>|
        call_ensures(load_model, (n, d), o) ==> o is Ok) ==> (admit_all(names) matches Ok(ps)
        ==> (ps.len() > 0 ==> r is Ok)))
}

/// Once a name is refused, the names after it change nothing.
proof fn lemma_admit_error_stays(names: Seq<Seq<char>>, k: int, m: int)
    requires
        0 <= k <= m <= names.len(),
        admit_all(names.take(k)) is Err,
    ensures
        admit_all(names.take(m)) == admit_all(names.take(k)),
    decreases m - k,
{
    if m > k {
        lemma_admit_error_stays(names, k, m - 1);
        assert(names.take(m).drop_last() =~= names.take(m - 1));
    }
}

/// The directories among the first `m` entries come first among all.
proof fn lemma_dir_names_take(entries: Seq<(String, bool)>, m: int)
    requires
        0 <= m <= entries.len(),
    ensures
        dir_names(entries.take(m)).len() <= dir_names(entries).len(),
        dir_names(entries).take(dir_names(entries.take(m)).len() as int) == dir_names(
            entries.take(m),
        ),
    decreases entries.len(),
{
    if m == entries.len() {
        assert(entries.take(m) =~= entries);
        assert(dir_names(entries).take(dir_names(entries).len() as int) =~= dir_names(entries));
    } else {
        let d = entries.drop_last();
        lemma_dir_names_take(d, m);
        assert(d.take(m) =~= entries.take(m));
        let dn = dir_names(d);
        let a = dir_names(entries.take(m));
        if entries.last().1 {
            assert(dir_names(entries) == dn.push(entries.last().0@));
            assert(dn.push(entries.last().0@).take(a.len() as int) =~= dn.take(a.len() as int));
        } else {
            assert(dir_names(entries) == dn);
        }
    }
}

/// The directories among the first `i + 1` entries are those among the
/// first `i`, and the `i`-th entry when it is one.
proof fn lemma_dir_names_prefix(entries: Seq<(String, bool)>, i: int)
    requires
        0 <= i < entries.len(),
    ensures
        dir_names(entries.take(i + 1)) == if entries[i].1 {
            dir_names(entries.take(i)).push(entries[i].0@)
        } else {
            dir_names(entries.take(i))
        },
{
    assert(entries.take(i + 1).drop_last() =~= entries.take(i));
    assert(entries.take(i + 1).last() == entries[i]);
}

} // verus!
