//! Text recognition on a screen region: which Tesseract languages to use,
//! where their data lives and is fetched from, and where captures go.

use vstd::prelude::*;
use crate::chars::{
    chars_of, concat3, push_char, push_str, split_chars, split_on, string_from_chars, text_eq,
    views_of,
};
use crate::chars::{join_path, path_join};
use crate::tts::Platform;

verus! {

/// The recognition language used for a configured source language:
/// French, German, Spanish and Italian by their region codes, `auto` kept,
/// anything else British English.
pub open spec fn ocr_language(source: Seq<char>) -> Seq<char> {
    if source == "fr"@ {
        "fr-FR"@
    } else if source == "de"@ {
        "de-DE"@
    } else if source == "es"@ {
        "es-ES"@
    } else if source == "it"@ {
        "it-IT"@
    } else if source == "auto"@ {
        "auto"@
    } else {
        "en-GB"@
    }
}

/// The recognition language used for a configured source language.
pub fn ocr_language_for(source_lang: &str) -> (r: &'static str)
    ensures
        r@ == ocr_language(source_lang@),
{
    if text_eq(source_lang, "fr") {
        "fr-FR"
    } else if text_eq(source_lang, "de") {
        "de-DE"
    } else if text_eq(source_lang, "es") {
        "es-ES"
    } else if text_eq(source_lang, "it") {
        "it-IT"
    } else if text_eq(source_lang, "auto") {
        "auto"
    } else {
        "en-GB"
    }
}

/// The Tesseract language code of a recognition language; any language
/// without its own code (`auto` among them) reads English and French.
pub open spec fn tesseract_code_of(lang: Seq<char>) -> Seq<char> {
    if lang == "de-DE"@ {
        "deu"@
    } else if lang == "en-GB"@ {
        "eng"@
    } else if lang == "es-ES"@ {
        "spa"@
    } else if lang == "fr-FR"@ {
        "fra"@
    } else if lang == "it-IT"@ {
        "ita"@
    } else {
        "eng+fra"@
    }
}

/// The language names and codes of recognition are distinct texts.
proof fn lemma_recognition_texts_distinct()
    ensures
        "fr"@ != "de"@,
        "fr"@ != "es"@,
        "fr"@ != "it"@,
        "fr"@ != "auto"@,
        "de"@ != "es"@,
        "de"@ != "it"@,
        "de"@ != "auto"@,
        "es"@ != "it"@,
        "es"@ != "auto"@,
        "it"@ != "auto"@,
        "fr-FR"@ != "de-DE"@,
        "fr-FR"@ != "es-ES"@,
        "fr-FR"@ != "it-IT"@,
        "fr-FR"@ != "en-GB"@,
        "fr-FR"@ != "auto"@,
        "de-DE"@ != "es-ES"@,
        "de-DE"@ != "it-IT"@,
        "de-DE"@ != "en-GB"@,
        "de-DE"@ != "auto"@,
        "es-ES"@ != "it-IT"@,
        "es-ES"@ != "en-GB"@,
        "es-ES"@ != "auto"@,
        "it-IT"@ != "en-GB"@,
        "it-IT"@ != "auto"@,
        "en-GB"@ != "auto"@,
        "fra"@ != "deu"@,
        "fra"@ != "spa"@,
        "fra"@ != "ita"@,
        "fra"@ != "eng"@,
        "fra"@ != "eng+fra"@,
        "deu"@ != "spa"@,
        "deu"@ != "ita"@,
        "deu"@ != "eng"@,
        "deu"@ != "eng+fra"@,
        "spa"@ != "ita"@,
        "spa"@ != "eng"@,
        "spa"@ != "eng+fra"@,
        "ita"@ != "eng"@,
        "ita"@ != "eng+fra"@,
        "eng"@ != "eng+fra"@,
{
    reveal_strlit("fr");
    reveal_strlit("de");
    reveal_strlit("es");
    reveal_strlit("it");
    reveal_strlit("auto");
    reveal_strlit("fr-FR");
    reveal_strlit("de-DE");
    reveal_strlit("es-ES");
    reveal_strlit("it-IT");
    reveal_strlit("en-GB");
    reveal_strlit("auto");
    reveal_strlit("fra");
    reveal_strlit("deu");
    reveal_strlit("spa");
    reveal_strlit("ita");
    reveal_strlit("eng");
    reveal_strlit("eng+fra");
    assert("fr"@[0] != "de"@[0]);
    assert("fr"@[0] != "es"@[0]);
    assert("fr"@[0] != "it"@[0]);
    assert("fr"@.len() != "auto"@.len());
    assert("de"@[0] != "es"@[0]);
    assert("de"@[0] != "it"@[0]);
    assert("de"@.len() != "auto"@.len());
    assert("es"@[0] != "it"@[0]);
    assert("es"@.len() != "auto"@.len());
    assert("it"@.len() != "auto"@.len());
    assert("fr-FR"@[0] != "de-DE"@[0]);
    assert("fr-FR"@[0] != "es-ES"@[0]);
    assert("fr-FR"@[0] != "it-IT"@[0]);
    assert("fr-FR"@[0] != "en-GB"@[0]);
    assert("fr-FR"@.len() != "auto"@.len());
    assert("de-DE"@[0] != "es-ES"@[0]);
    assert("de-DE"@[0] != "it-IT"@[0]);
    assert("de-DE"@[0] != "en-GB"@[0]);
    assert("de-DE"@.len() != "auto"@.len());
    assert("es-ES"@[0] != "it-IT"@[0]);
    assert("es-ES"@[1] != "en-GB"@[1]);
    assert("es-ES"@.len() != "auto"@.len());
    assert("it-IT"@[0] != "en-GB"@[0]);
    assert("it-IT"@.len() != "auto"@.len());
    assert("en-GB"@.len() != "auto"@.len());
    assert("fra"@[0] != "deu"@[0]);
    assert("fra"@[0] != "spa"@[0]);
    assert("fra"@[0] != "ita"@[0]);
    assert("fra"@[0] != "eng"@[0]);
    assert("fra"@.len() != "eng+fra"@.len());
    assert("deu"@[0] != "spa"@[0]);
    assert("deu"@[0] != "ita"@[0]);
    assert("deu"@[0] != "eng"@[0]);
    assert("deu"@.len() != "eng+fra"@.len());
    assert("spa"@[0] != "ita"@[0]);
    assert("spa"@[0] != "eng"@[0]);
    assert("spa"@.len() != "eng+fra"@.len());
    assert("ita"@[0] != "eng"@[0]);
    assert("ita"@.len() != "eng+fra"@.len());
    assert("eng"@.len() != "eng+fra"@.len());
}

/// Every configured source language with a recognition language of its own
/// (French, German, Spanish, Italian, and English as the default) is
/// recognised with its own Tesseract code, and only `auto` reads English
/// and French together: `fr` gives `fra`, `de` `deu`, `es` `spa`, `it`
/// `ita`, any other language `eng`.
pub proof fn law_each_language_is_recognised_as_itself(source: Seq<char>)
    ensures
        (tesseract_code_of(ocr_language(source)) == "eng+fra"@) == (source == "auto"@),
        source == "fr"@ ==> tesseract_code_of(ocr_language(source)) == "fra"@,
        source == "de"@ ==> tesseract_code_of(ocr_language(source)) == "deu"@,
        source == "es"@ ==> tesseract_code_of(ocr_language(source)) == "spa"@,
        source == "it"@ ==> tesseract_code_of(ocr_language(source)) == "ita"@,
        !(source == "fr"@ || source == "de"@ || source == "es"@ || source == "it"@ || source
            == "auto"@) ==> tesseract_code_of(ocr_language(source)) == "eng"@,
{
    lemma_recognition_texts_distinct();
}

/// A recognition language gets the combined `eng+fra` code exactly when it
/// is none of the five with a code of their own, and those five codes are
/// distinct.
pub proof fn law_recognition_codes_are_distinct(a: Seq<char>, b: Seq<char>)
    ensures
        (tesseract_code_of(a) == "eng+fra"@) == !(a == "fr-FR"@ || a == "en-GB"@ || a
            == "de-DE"@ || a == "es-ES"@ || a == "it-IT"@),
        tesseract_code_of(a) == tesseract_code_of(b) && tesseract_code_of(a) != "eng+fra"@ ==> a
            == b,
{
    lemma_recognition_texts_distinct();
}

/// The Tesseract language code of a recognition language.
pub fn tesseract_code(lang: &str) -> (r: &'static str)
    ensures
        r@ == tesseract_code_of(lang@),
{
    if text_eq(lang, "de-DE") {
        "deu"
    } else if text_eq(lang, "en-GB") {
        "eng"
    } else if text_eq(lang, "es-ES") {
        "spa"
    } else if text_eq(lang, "fr-FR") {
        "fra"
    } else if text_eq(lang, "it-IT") {
        "ita"
    } else {
        "eng+fra"
    }
}

/// The single languages of a Tesseract code (`eng+fra` is `eng` and `fra`),
/// each of which needs its data file.
pub fn tesseract_languages(code: &str) -> (r: Vec<String>)
    ensures
        r@.len() == split_on(code@, '+').len(),
        forall|i: int| 0 <= i < r@.len() ==> (#[trigger] r@[i])@ == split_on(code@, '+')[i],
{
    let parts = split_chars(&chars_of(code), '+');
    let mut r: Vec<String> = Vec::new();
    let n = parts.len();
    for i in 0..n
        invariant
            n == parts@.len(),
            views_of(parts@) == split_on(code@, '+'),
            r@.len() == i,
            forall|j: int| 0 <= j < i ==> (#[trigger] r@[j])@ == split_on(code@, '+')[j],
    {
        let s = string_from_chars(&parts[i]);
        assert(s@ == views_of(parts@)[i as int]);
        r.push(s);
    }
    r
}

/// The data file of a Tesseract language.
pub fn traineddata_file(lang: &str) -> (r: String)
    ensures
        r@ == lang@ + ".traineddata"@,
{
    let mut r = String::new();
    push_str(&mut r, lang);
    push_str(&mut r, ".traineddata");
    r
}

/// Where the data file of a language is fetched from: the accurate models
/// first, the fast ones when those cannot be had.
pub fn traineddata_urls(lang: &str) -> (r: (String, String))
    ensures
        r.0@ == "https://github.com/tesseract-ocr/tessdata_best/raw/main/"@ + lang@
            + ".traineddata"@,
        r.1@ == "https://github.com/tesseract-ocr/tessdata_fast/raw/main/"@ + lang@
            + ".traineddata"@,
{
    (
        concat3("https://github.com/tesseract-ocr/tessdata_best/raw/main/", lang, ".traineddata"),
        concat3("https://github.com/tesseract-ocr/tessdata_fast/raw/main/", lang, ".traineddata"),
    )
}

/// The Tesseract data directory: `TESSDATA_PREFIX` when it is set, else a
/// directory under the home directory, which depends on the platform.
pub open spec fn tessdata_dir_path(
    prefix: Option<Seq<char>>,
    home: Seq<char>,
    platform: Platform,
) -> Seq<char> {
    match prefix {
        Some(p) => p,
        None => match platform {
            Platform::MacOs => path_join(home, "Library/Application Support/tesseract-rs/tessdata"@),
            Platform::Linux => path_join(home, ".tesseract-rs/tessdata"@),
        },
    }
}

/// The Tesseract data directory, from `TESSDATA_PREFIX` and the home
/// directory. Without the prefix the home directory must be known.
pub fn tessdata_dir_from(prefix: Option<String>, home: Option<String>, platform: Platform) -> (r:
    String)
    requires
        prefix is Some || home is Some,
    ensures
        r@ == tessdata_dir_path(
            match prefix {
                Some(p) => Some(p@),
                None => None,
            },
            match home {
                Some(h) => h@,
                None => Seq::empty(),
            },
            platform,
        ),
{
    match prefix {
        Some(p) => p,
        None => {
            let h = match home {
                Some(h) => h,
                None => String::new(),
            };
            match platform {
                Platform::MacOs => join_path(
                    h.as_str(),
                    "Library/Application Support/tesseract-rs/tessdata",
                ),
                Platform::Linux => join_path(h.as_str(), ".tesseract-rs/tessdata"),
            }
        },
    }
}

/// Makes sure the data file of language `lang` is in `data_dir`: present
/// already (`is_present`), or fetched into it from the accurate models, or from
/// the fast ones when the first request fails (`fetch` gives `Err` for a
/// failed request, and whether the file was written otherwise). Creating the
/// directory (`create_dir`) comes first. Gives whether the file is there,
/// or the last error met.
pub fn fetch_language_data<
    X: Fn(&str) -> bool,
    C: Fn(&str) -> Result<(), String>,
    F: Fn(&str, &str) -> Result<bool, String>,
>(lang: &str, data_dir: &str, is_present: &X, create_dir: &C, fetch: &F) -> (r: Result<
    bool,
    String,
>)
    requires
        forall|p: &str| call_requires(*is_present, (p,)),
        forall|p: &str| call_requires(*create_dir, (p,)),
        forall|u: &str, p: &str| call_requires(*fetch, (u, p)),
    ensures
        exists|p: &str, present: bool|
            p@ == path_join(data_dir@, lang@ + ".traineddata"@) && call_ensures(
                *is_present,
                (p,),
                present,
            ) && if present {
                r == Ok::<bool, String>(true)
            } else {
                exists|d: &str, c: Result<(), String>|
                    d@ == data_dir@ && call_ensures(*create_dir, (d,), c) && match c {
                        Err(e) => r == Err::<bool, String>(e),
                        Ok(()) => exists|u1: &str, o1: Result<bool, String>|
                            u1@ == "https://github.com/tesseract-ocr/tessdata_best/raw/main/"@
                                + lang@ + ".traineddata"@ && call_ensures(*fetch, (u1, p), o1)
                                && match o1 {
                                Ok(done) => r == Ok::<bool, String>(done),
                                Err(_) => exists|u2: &str, o2: Result<bool, String>|
                                    u2@ == "https://github.com/tesseract-ocr/tessdata_fast/raw/main/"@
                                        + lang@ + ".traineddata"@ && call_ensures(
                                        *fetch,
                                        (u2, p),
                                        o2,
                                    ) && r == o2,
                            },
                    }
            },
{
    let file = traineddata_file(lang);
    let path = join_path(data_dir, file.as_str());
    let p = path.as_str();
    let present = is_present(p);
    assert(call_ensures(*is_present, (p,), present));
    if present {
        return Ok(true);
    }
    let c = create_dir(data_dir);
    assert(call_ensures(*create_dir, (data_dir,), c));
    if let Err(e) = c {
        return Err(e);
    }
    let (best, fast) = traineddata_urls(lang);
    let u1 = best.as_str();
    let o1 = fetch(u1, p);
    assert(call_ensures(*fetch, (u1, p), o1));
    match o1 {
        Ok(done) => Ok(done),
        Err(_) => {
            let u2 = fast.as_str();
            let o2 = fetch(u2, p);
            assert(call_ensures(*fetch, (u2, p), o2));
            o2
        },
    }
}

/// Reads the text of the capture at `screenshot_path` in recognition
/// language `lang`: the data of each of its Tesseract languages must be
/// available (`ensure_data`), else nothing is read; then `recognize` runs
/// Tesseract with the language code.
pub fn tesseract<D: Fn(&str) -> bool, R: Fn(&str, &str) -> String>(
    screenshot_path: &str,
    lang: &str,
    ensure_data: &D,
    recognize: &R,
) -> (r: String)
    requires
        forall|l: &str| call_requires(*ensure_data, (l,)),
        forall|p: &str, c: &str| call_requires(*recognize, (p, c)),
    ensures
        r@.len() == 0 || ((forall|i: int|
            #![trigger split_on(tesseract_code_of(lang@), '+')[i]]
            0 <= i < split_on(tesseract_code_of(lang@), '+').len() ==> exists|l: &str|
                l@ == split_on(tesseract_code_of(lang@), '+')[i] && call_ensures(
                    *ensure_data,
                    (l,),
                    true,
                )) && exists|p: &str, c: &str|
            p@ == screenshot_path@ && c@ == tesseract_code_of(lang@) && call_ensures(
                *recognize,
                (p, c),
                r,
            )),
        (forall|l: &str, ok: bool| call_ensures(*ensure_data, (l,), ok) ==> ok) ==> exists|
            p: &str,
            c: &str,
        |
            p@ == screenshot_path@ && c@ == tesseract_code_of(lang@) && call_ensures(
                *recognize,
                (p, c),
                r,
            ),
{
    let code = tesseract_code(lang);
    let languages = tesseract_languages(code);
    let n = languages.len();
    for i in 0..n
        invariant
            n == languages@.len(),
            n == split_on(code@, '+').len(),
            forall|j: int| 0 <= j < n ==> (#[trigger] languages@[j])@ == split_on(code@, '+')[j],
            forall|l: &str| call_requires(*ensure_data, (l,)),
            forall|j: int|
                #![trigger split_on(code@, '+')[j]]
                0 <= j < i ==> exists|l: &str|
                    l@ == split_on(code@, '+')[j] && call_ensures(*ensure_data, (l,), true),
    {
        let l = languages[i].as_str();
        let ok = ensure_data(l);
        assert(call_ensures(*ensure_data, (l,), ok));
        if !ok {
            return String::new();
        }
    }
    let r = recognize(screenshot_path, code);
    assert(call_ensures(*recognize, (screenshot_path, code), r));
    r
}

// ---------------------------------------------------------------------------
// Captures
// ---------------------------------------------------------------------------

/// The decimal digit of a number below ten.
pub open spec fn digit_char(d: nat) -> char {
    ((d + 48) as u8) as char
}

/// The decimal writing of a number, without leading zeros.
pub open spec fn decimal(n: nat) -> Seq<char>
    decreases n,
{
    if n < 10 {
        seq![digit_char(n)]
    } else {
        decimal(n / 10).push(digit_char(n % 10))
    }
}

/// Appends the decimal writing of `n`.
fn push_decimal(out: &mut String, n: u128)
    ensures
        final(out)@ == old(out)@ + decimal(n as nat),
    decreases n,
{
    if n >= 10 {
        push_decimal(out, n / 10);
    }
    let d = (n % 10) as u8;
    push_char(out, (d + 48) as char);
    proof {
        assert(decimal(n as nat) == if n < 10 {
            seq![digit_char(n as nat)]
        } else {
            decimal((n / 10) as nat).push(digit_char((n % 10) as nat))
        });
    }
    assert(final(out)@ =~= old(out)@ + decimal(n as nat));
}

/// The decimal writing of a number.
pub fn decimal_text(n: u128) -> (r: String)
    ensures
        r@ == decimal(n as nat),
{
    let mut r = String::new();
    push_decimal(&mut r, n);
    assert(r@ =~= decimal(n as nat));
    r
}

/// Where a screen capture taken at `timestamp` (milliseconds) is saved: in
/// shared memory on Linux, in the temporary directory on macOS.
pub open spec fn screenshot_path_of(platform: Platform, temp_dir: Seq<char>, timestamp: nat) -> Seq<
    char,
> {
    let name = "gsp-ui-screenshot-"@ + decimal(timestamp) + ".png"@;
    match platform {
        Platform::Linux => "/dev/shm/"@ + name,
        Platform::MacOs => path_join(temp_dir, name),
    }
}

/// Where a screen capture taken at `timestamp` (milliseconds) is saved.
pub fn screenshot_path(platform: Platform, temp_dir: &str, timestamp: u128) -> (r: String)
    ensures
        r@ == screenshot_path_of(platform, temp_dir@, timestamp as nat),
{
    let digits = decimal_text(timestamp);
    let name = concat3("gsp-ui-screenshot-", digits.as_str(), ".png");
    match platform {
        Platform::Linux => {
            let mut r = String::new();
            push_str(&mut r, "/dev/shm/");
            push_str(&mut r, name.as_str());
            assert(r@ =~= "/dev/shm/"@ + name@);
            r
        },
        Platform::MacOs => join_path(temp_dir, name.as_str()),
    }
}

/// The message when the capture left no file.
pub open spec fn capture_failed_message() -> Seq<char> {
    "La capture d'écran a échoué"@
}

/// Whether the capture left its file: the reading goes on only then.
pub fn capture_taken(file_exists: bool) -> (r: Result<(), String>)
    ensures
        r is Ok <==> file_exists,
        r matches Err(m) ==> m@ == capture_failed_message(),
{
    if file_exists {
        Ok(())
    } else {
        Err("La capture d'écran a échoué".to_owned())
    }
}

/// The message when nothing was recognized.
pub open spec fn nothing_recognized_message() -> Seq<char> {
    "Aucun texte reconnu par OCR"@
}

/// What recognition gave, as text to read: an empty result is an error.
pub fn recognized_text(text: String) -> (r: Result<String, String>)
    ensures
        text@.len() == 0 ==> (r matches Err(m) && m@ == nothing_recognized_message()),
        text@.len() > 0 ==> r == Ok::<String, String>(text),
{
    let v = chars_of(text.as_str());
    if v.len() == 0 {
        Err("Aucun texte reconnu par OCR".to_owned())
    } else {
        Ok(text)
    }
}

} // verus!
