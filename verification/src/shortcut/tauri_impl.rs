//! Checking a shortcut before it is handed to the global-shortcut service.

use vstd::prelude::*;
use crate::chars::{
    chars_eq_str, chars_of, split_chars, split_on, string_from_chars, to_lowercase, trim,
    trim_chars, unicode_to_lowercase, views_of,
};

verus! {

/// The modifier names the global-shortcut service knows.
pub open spec fn is_shortcut_modifier(p: Seq<char>) -> bool {
    p == "ctrl"@ || p == "shift"@ || p == "alt"@ || p == "meta"@ || p == "super"@
}

/// The pieces of a shortcut between `+` signs, trimmed and in lower case.
pub open spec fn lowered_parts(raw: Seq<char>) -> Seq<Seq<char>> {
    split_on(raw, '+').map_values(|p: Seq<char>| unicode_to_lowercase(trim(p)))
}

/// Some piece names no modifier: the shortcut has a main key.
pub open spec fn has_main_key(raw: Seq<char>) -> bool {
    exists|i: int| 0 <= i < lowered_parts(raw).len() && !is_shortcut_modifier(
        #[trigger] lowered_parts(raw)[i],
    )
}

/// The message for a shortcut made of modifiers only.
pub open spec fn main_key_message() -> Seq<char> {
    "Le raccourci doit inclure une touche principale (lettre, nombre, F-key, etc.) en plus des modificateurs"@
}

/// Accepts a shortcut that is not blank and has a main key besides its
/// modifiers (`ctrl`, `shift`, `alt`, `meta`, `super`, in any case).
pub fn validate_shortcut(raw: &str) -> (r: Result<(), String>)
    ensures
        trim(raw@).len() == 0 ==> (r matches Err(e) && e@ == super::empty_binding_message()),
        trim(raw@).len() > 0 && has_main_key(raw@) ==> r is Ok,
        trim(raw@).len() > 0 && !has_main_key(raw@) ==> (r matches Err(e) && e@
            == main_key_message()),
{
    let v = chars_of(raw);
    let t = trim_chars(&v);
    if t.len() == 0 {
        return Err("Le raccourci ne peut pas être vide".to_owned());
    }
    let parts = split_chars(&v, '+');
    let ghost lp = lowered_parts(raw@);
    let n = parts.len();
    let mut found = false;
    for i in 0..n
        invariant
            n == parts@.len(),
            views_of(parts@) == split_on(raw@, '+'),
            lp == lowered_parts(raw@),
            lp.len() == n,
            found == exists|j: int| 0 <= j < i && !is_shortcut_modifier(#[trigger] lp[j]),
    {
        let tp = trim_chars(&parts[i]);
        let ts = string_from_chars(&tp);
        let low = to_lowercase(ts.as_str());
        let lv = chars_of(low.as_str());
        assert(lv@ == lp[i as int]);
        let is_mod = chars_eq_str(&lv, "ctrl") || chars_eq_str(&lv, "shift") || chars_eq_str(
            &lv,
            "alt",
        ) || chars_eq_str(&lv, "meta") || chars_eq_str(&lv, "super");
        if !is_mod {
            found = true;
        }
    }
    if found {
        Ok(())
    } else {
        Err(
            "Le raccourci doit inclure une touche principale (lettre, nombre, F-key, etc.) en plus des modificateurs".to_owned(),
        )
    }
}

} // verus!
