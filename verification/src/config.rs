//! Keyboard shortcuts as the settings screen edits them, their text form,
//! and where settings are kept.

use vstd::prelude::*;
use crate::chars::{
    chars_eq_str, chars_of, join_path, join_sep, lacks, lemma_join_push_suffixed,
    lemma_split_join, lemma_suffixed_append, lemma_suffixed_single, lemma_trim_unchanged,
    path_join, push_str, split_chars, split_on, string_from_chars, suffixed, trim, trim_chars,
    views_of,
};

verus! {

/// A shortcut as modifier flags and a main key.
#[derive(Debug, Clone)]
pub struct ClipboardShortcut {
    pub ctrl: bool,
    pub shift: bool,
    pub alt: bool,
    pub meta: bool,
    pub key: String,
}

impl Default for ClipboardShortcut {
    /// `ctrl+shift+V`, the default shortcut for reading the selection.
    fn default() -> (s: Self)
        ensures
            s.ctrl && s.shift && !s.alt && !s.meta,
            s.key@ == "V"@,
    {
        ClipboardShortcut { ctrl: true, shift: true, alt: false, meta: false, key: "V".to_owned() }
    }
}

/// `ctrl+alt+o`, the default shortcut for reading a screen region.
pub fn default_ocr_shortcut() -> (s: ClipboardShortcut)
    ensures
        s.ctrl && !s.shift && s.alt && !s.meta,
        s.key@ == "o"@,
{
    ClipboardShortcut { ctrl: true, shift: false, alt: true, meta: false, key: "o".to_owned() }
}

/// The names of the modifiers a binding can hold.
pub open spec fn is_modifier_word(p: Seq<char>) -> bool {
    p == "ctrl"@ || p == "shift"@ || p == "alt"@ || p == "super"@
}

/// The four modifier names are different texts.
pub proof fn lemma_modifier_words_distinct()
    ensures
        "ctrl"@ != "shift"@,
        "ctrl"@ != "alt"@,
        "ctrl"@ != "super"@,
        "shift"@ != "alt"@,
        "shift"@ != "super"@,
        "alt"@ != "super"@,
{
    reveal_strlit("ctrl");
    reveal_strlit("shift");
    reveal_strlit("alt");
    reveal_strlit("super");
    assert("ctrl"@.len() == 4 && "shift"@.len() == 5 && "alt"@.len() == 3 && "super"@.len() == 5);
    assert("shift"@[1] != "super"@[1]);
}

/// The pieces of a binding between `+` signs, without surrounding white space.
pub open spec fn binding_parts(b: Seq<char>) -> Seq<Seq<char>> {
    split_on(b, '+').map_values(|p: Seq<char>| trim(p))
}

/// Whether one of the pieces is `w`.
pub open spec fn has_part(ps: Seq<Seq<char>>, w: Seq<char>) -> bool {
    exists|i: int| 0 <= i < ps.len() && ps[i] == w
}

/// The last piece that names no modifier, or the empty text if there is none.
pub open spec fn last_key(ps: Seq<Seq<char>>) -> Seq<char>
    decreases ps.len(),
{
    if ps.len() == 0 {
        seq![]
    } else if !is_modifier_word(ps.last()) {
        ps.last()
    } else {
        last_key(ps.drop_last())
    }
}

/// The text of a shortcut as it is saved: `ctrl+`, `shift+`, `alt+` for the
/// modifiers that are set, in that order, then the key.
pub open spec fn binding_text(ctrl: bool, shift: bool, alt: bool, key: Seq<char>) -> Seq<char> {
    (if ctrl { "ctrl+"@ } else { seq![] }) + (if shift { "shift+"@ } else { seq![] }) + (if alt {
        "alt+"@
    } else {
        seq![]
    }) + key
}

/// The modifier names that are set, in the order ctrl, shift, alt, super.
pub open spec fn modifier_words(ctrl: bool, shift: bool, alt: bool, meta: bool) -> Seq<Seq<char>> {
    (if ctrl { seq!["ctrl"@] } else { seq![] }) + (if shift { seq!["shift"@] } else { seq![] }) + (
    if alt {
        seq!["alt"@]
    } else {
        seq![]
    }) + (if meta { seq!["super"@] } else { seq![] })
}

/// Writes a shortcut in its saved text form, such as `ctrl+shift+V`.
pub fn shortcut_binding_text(shortcut: &ClipboardShortcut) -> (s: String)
    ensures
        s@ == binding_text(shortcut.ctrl, shortcut.shift, shortcut.alt, shortcut.key@),
{
    let mut s = String::new();
    if shortcut.ctrl {
        push_str(&mut s, "ctrl+");
    }
    if shortcut.shift {
        push_str(&mut s, "shift+");
    }
    if shortcut.alt {
        push_str(&mut s, "alt+");
    }
    push_str(&mut s, shortcut.key.as_str());
    assert(s@ =~= binding_text(shortcut.ctrl, shortcut.shift, shortcut.alt, shortcut.key@));
    s
}

/// `sc` is what the binding `b` reads as: each modifier flag is set when
/// its word is among the pieces, and the key is the last other piece.
pub open spec fn shortcut_read_from(sc: ClipboardShortcut, b: Seq<char>) -> bool {
    let ps = binding_parts(b);
    &&& sc.ctrl == has_part(ps, "ctrl"@)
    &&& sc.shift == has_part(ps, "shift"@)
    &&& sc.alt == has_part(ps, "alt"@)
    &&& sc.meta == has_part(ps, "super"@)
    &&& sc.key@ == last_key(ps)
}

/// Reads a binding such as `ctrl+shift+v` into modifier flags and a key.
/// Pieces are taken between `+` signs and trimmed; `ctrl`, `shift`, `alt` and
/// `super` set their flag (`super` sets `meta`), and the last other piece is
/// the key. Every text is accepted.
pub fn parse_binding_to_shortcut(binding: &str) -> (r: Result<ClipboardShortcut, String>)
    ensures
        r matches Ok(sc) && shortcut_read_from(sc, binding@),
{
    let v = chars_of(binding);
    let parts = split_chars(&v, '+');
    let ghost tp = binding_parts(binding@);
    assert(tp.len() == parts@.len());
    let mut ctrl = false;
    let mut shift = false;
    let mut alt = false;
    let mut meta = false;
    let mut key: Vec<char> = Vec::new();
    let n = parts.len();
    for i in 0..n
        invariant
            n == parts@.len(),
            tp == binding_parts(binding@),
            tp.len() == n,
            views_of(parts@) == split_on(binding@, '+'),
            ctrl == has_part(tp.take(i as int), "ctrl"@),
            shift == has_part(tp.take(i as int), "shift"@),
            alt == has_part(tp.take(i as int), "alt"@),
            meta == has_part(tp.take(i as int), "super"@),
            key@ == last_key(tp.take(i as int)),
    {
        let t = trim_chars(&parts[i]);
        proof {
            lemma_modifier_words_distinct();
        }
        let ghost pre = tp.take(i as int);
        let ghost now = tp.take(i + 1);
        assert(tp[i as int] == t@);
        assert(now.drop_last() =~= pre);
        assert(now.last() == t@);
        assert forall|w: Seq<char>| has_part(now, w) == (has_part(pre, w) || t@ == w) by {
            if has_part(now, w) {
                let j = choose|j: int| 0 <= j < now.len() && now[j] == w;
                if j < i {
                    assert(pre[j] == now[j]);
                }
            }
            if has_part(pre, w) {
                let j = choose|j: int| 0 <= j < pre.len() && pre[j] == w;
                assert(now[j] == pre[j]);
            }
            if t@ == w {
                assert(now[i as int] == w);
            }
        }
        if chars_eq_str(&t, "ctrl") {
            ctrl = true;
        } else if chars_eq_str(&t, "shift") {
            shift = true;
        } else if chars_eq_str(&t, "alt") {
            alt = true;
        } else if chars_eq_str(&t, "super") {
            meta = true;
        } else {
            key = t;
        }
    }
    assert(tp.take(n as int) =~= tp);
    Ok(ClipboardShortcut { ctrl, shift, alt, meta, key: string_from_chars(&key) })
}

/// Reading back the pieces `modifier_words(..)` followed by a key gives the
/// flags and the key, provided the key holds no `+`, has no surrounding
/// white space and names no modifier.
pub proof fn lemma_parts_read_back(ctrl: bool, shift: bool, alt: bool, meta: bool, key: Seq<char>)
    requires
        lacks(key, '+'),
        trim(key) == key,
        !is_modifier_word(key),
    ensures
        ({
            let b = join_sep(modifier_words(ctrl, shift, alt, meta).push(key), '+');
            &&& has_part(binding_parts(b), "ctrl"@) == ctrl
            &&& has_part(binding_parts(b), "shift"@) == shift
            &&& has_part(binding_parts(b), "alt"@) == alt
            &&& has_part(binding_parts(b), "super"@) == meta
            &&& last_key(binding_parts(b)) == key
        }),
{
    reveal_strlit("ctrl");
    reveal_strlit("shift");
    reveal_strlit("alt");
    reveal_strlit("super");
    let mods = modifier_words(ctrl, shift, alt, meta);
    let ps = mods.push(key);
    assert forall|i: int| 0 <= i < mods.len() implies is_modifier_word(#[trigger] mods[i])
        && lacks(mods[i], '+') && trim(mods[i]) == mods[i] by {
        lemma_trim_unchanged(mods[i]);
    }
    assert forall|i: int| 0 <= i < ps.len() implies lacks(#[trigger] ps[i], '+') by {
        if i < mods.len() {
            assert(ps[i] == mods[i]);
        }
    }
    lemma_split_join(ps, '+');
    let b = join_sep(ps, '+');
    assert(binding_parts(b) =~= ps) by {
        assert forall|i: int| 0 <= i < ps.len() implies trim(#[trigger] ps[i]) == ps[i] by {
            if i < mods.len() {
                assert(ps[i] == mods[i]);
            }
        }
    }
    assert(ps.drop_last() =~= mods);
    assert(last_key(ps) == key);
    let w_ctrl = "ctrl"@;
    let w_shift = "shift"@;
    let w_alt = "alt"@;
    let w_super = "super"@;
    lemma_modifier_words_distinct();
    // which pieces are present
    assert forall|w: Seq<char>| is_modifier_word(w) implies has_part(ps, w) == (
    (w == w_ctrl && ctrl) || (w == w_shift && shift) || (w == w_alt && alt) || (w == w_super
        && meta)) by {
        if has_part(ps, w) {
            let j = choose|j: int| 0 <= j < ps.len() && ps[j] == w;
            assert(j < mods.len());
            assert(ps[j] == mods[j]);
        }
        if w == w_ctrl && ctrl {
            assert(ps[0] == w_ctrl);
        }
        let i1: int = if ctrl { 1 } else { 0 };
        let i2: int = i1 + if shift { 1int } else { 0 };
        let i3: int = i2 + if alt { 1int } else { 0 };
        if w == w_shift && shift {
            assert(ps[i1] == w_shift);
        }
        if w == w_alt && alt {
            assert(ps[i2] == w_alt);
        }
        if w == w_super && meta {
            assert(ps[i3] == w_super);
        }
    }
    assert(is_modifier_word(w_ctrl) && is_modifier_word(w_shift) && is_modifier_word(w_alt)
        && is_modifier_word(w_super));
    assert(has_part(ps, w_ctrl) == ctrl);
    assert(has_part(ps, w_shift) == shift);
    assert(has_part(ps, w_alt) == alt);
    assert(has_part(ps, w_super) == meta);
}

/// The saved text of a shortcut is `modifier_words` (without `super`)
/// followed by the key, joined with `+`.
proof fn lemma_binding_text_parts(ctrl: bool, shift: bool, alt: bool, key: Seq<char>)
    ensures
        binding_text(ctrl, shift, alt, key) == join_sep(
            modifier_words(ctrl, shift, alt, false).push(key),
            '+',
        ),
{
    reveal_strlit("ctrl+");
    reveal_strlit("shift+");
    reveal_strlit("alt+");
    reveal_strlit("ctrl");
    reveal_strlit("shift");
    reveal_strlit("alt");
    let c: Seq<Seq<char>> = if ctrl { seq!["ctrl"@] } else { seq![] };
    let sh: Seq<Seq<char>> = if shift { seq!["shift"@] } else { seq![] };
    let a: Seq<Seq<char>> = if alt { seq!["alt"@] } else { seq![] };
    let mods = modifier_words(ctrl, shift, alt, false);
    assert(mods =~= c + sh + a);
    lemma_join_push_suffixed(mods, key, '+');
    lemma_suffixed_append(c + sh, a, '+');
    lemma_suffixed_append(c, sh, '+');
    lemma_suffixed_single("ctrl"@, '+');
    lemma_suffixed_single("shift"@, '+');
    lemma_suffixed_single("alt"@, '+');
    assert(suffixed(c, '+') =~= (if ctrl { "ctrl+"@ } else { seq![] }));
    assert(suffixed(sh, '+') =~= (if shift { "shift+"@ } else { seq![] }));
    assert(suffixed(a, '+') =~= (if alt { "alt+"@ } else { seq![] }));
    assert(binding_text(ctrl, shift, alt, key) =~= suffixed(mods, '+') + key);
}

/// Reading back what was saved: the text `shortcut_binding_text` writes for
/// a shortcut reads back, through `parse_binding_to_shortcut`, to the same
/// ctrl, shift and alt flags, no super, and the same key, when the key holds
/// no `+`, has no surrounding white space and names no modifier.
pub proof fn law_saved_binding_reads_back(ctrl: bool, shift: bool, alt: bool, key: Seq<char>)
    requires
        lacks(key, '+'),
        trim(key) == key,
        !is_modifier_word(key),
    ensures
        ({
            let b = binding_text(ctrl, shift, alt, key);
            &&& has_part(binding_parts(b), "ctrl"@) == ctrl
            &&& has_part(binding_parts(b), "shift"@) == shift
            &&& has_part(binding_parts(b), "alt"@) == alt
            &&& !has_part(binding_parts(b), "super"@)
            &&& last_key(binding_parts(b)) == key
        }),
{
    lemma_binding_text_parts(ctrl, shift, alt, key);
    lemma_parts_read_back(ctrl, shift, alt, false, key);
}

/// The pieces that name no modifier, in order.
pub open spec fn key_parts(ps: Seq<Seq<char>>) -> Seq<Seq<char>> {
    ps.filter(|p: Seq<char>| !is_modifier_word(p))
}

/// The key read from pieces is the last of the pieces that name no
/// modifier.
proof fn lemma_last_key_of_key_parts(ps: Seq<Seq<char>>)
    ensures
        last_key(ps) == if key_parts(ps).len() == 0 {
            seq![]
        } else {
            key_parts(ps).last()
        },
    decreases ps.len(),
{
    reveal_with_fuel(Seq::<_>::filter, 1);
    if ps.len() > 0 {
        lemma_last_key_of_key_parts(ps.drop_last());
    }
}

/// The order of the modifiers in a binding does not matter: two bindings
/// with the same modifiers and the same other pieces, in the same order,
/// read as the same shortcut.
pub proof fn law_modifier_order_is_irrelevant(b1: Seq<char>, b2: Seq<char>, sc: ClipboardShortcut)
    requires
        forall|w: Seq<char>|
            is_modifier_word(w) ==> has_part(binding_parts(b1), w) == has_part(
                binding_parts(b2),
                w,
            ),
        key_parts(binding_parts(b1)) == key_parts(binding_parts(b2)),
    ensures
        shortcut_read_from(sc, b1) <==> shortcut_read_from(sc, b2),
{
    lemma_last_key_of_key_parts(binding_parts(b1));
    lemma_last_key_of_key_parts(binding_parts(b2));
    assert(is_modifier_word("ctrl"@) && is_modifier_word("shift"@) && is_modifier_word("alt"@)
        && is_modifier_word("super"@));
}

/// The message when the system has no configuration directory.
pub open spec fn no_config_dir_message() -> Seq<char> {
    "Impossible de trouver le répertoire de configuration"@
}

/// The directory the reader keeps its settings in: `gsp-ui` under the
/// system's configuration directory, which must be known.
pub fn app_config_dir(config_dir: Option<String>) -> (r: Result<String, String>)
    ensures
        match config_dir {
            None => r matches Err(m) && m@ == no_config_dir_message(),
            Some(d) => r matches Ok(p) && p@ == path_join(d@, "gsp-ui"@),
        },
{
    match config_dir {
        None => Err("Impossible de trouver le répertoire de configuration".to_owned()),
        Some(d) => Ok(join_path(d.as_str(), "gsp-ui")),
    }
}

} // verus!
