//! Keyboard shortcuts: their saved settings, validation and the decisions
//! taken when one is read, changed, reset, suspended or resumed.

pub mod handler;
pub mod handy_keys;
pub mod settings;
pub mod tauri_impl;

use vstd::prelude::*;
use crate::chars::{
    chars_of, concat3, join_chars, join_sep, push_str, to_lowercase, trim, trim_chars,
    unicode_to_lowercase, views_of,
};
use crate::config::{
    binding_text, modifier_words, parse_binding_to_shortcut, shortcut_binding_text,
    shortcut_read_from, ClipboardShortcut,
};
use crate::textmap::TextMap;
pub use settings::{binding_is, ShortcutBinding, ShortcutConfig};
use tauri_impl::{has_main_key, main_key_message};

verus! {

/// The answer to a change of shortcut.
#[derive(Debug)]
pub struct BindingResponse {
    pub success: bool,
    pub binding: Option<ShortcutBinding>,
    pub error: Option<String>,
}

/// The message for a shortcut id that has no binding.
pub open spec fn not_found_message(id: Seq<char>) -> Seq<char> {
    "Raccourci '"@ + id + "' non trouvé"@
}

/// The message for an empty shortcut.
pub open spec fn empty_binding_message() -> Seq<char> {
    "Le raccourci ne peut pas être vide"@
}

fn not_found(id: &str) -> (m: String)
    ensures
        m@ == not_found_message(id@),
{
    let mut m = String::new();
    push_str(&mut m, "Raccourci '");
    push_str(&mut m, id);
    push_str(&mut m, "' non trouvé");
    m
}

/// The binding saved under `id`, or the not-found message.
pub fn get_binding(config: &ShortcutConfig, id: &str) -> (r: Result<ShortcutBinding, String>)
    ensures
        config.bindings@.contains_key(id@) ==> r == Ok::<ShortcutBinding, String>(
            config.bindings@[id@],
        ),
        !config.bindings@.contains_key(id@) ==> (r matches Err(e) && e@ == not_found_message(id@)),
{
    match config.bindings.get(id) {
        Some(b) => Ok(b.duplicate()),
        None => Err(not_found(id)),
    }
}

/// Some key of `m` holds the binding `b`.
pub open spec fn holds_binding(m: Map<Seq<char>, ShortcutBinding>, b: ShortcutBinding) -> bool {
    exists|k: Seq<char>| #[trigger] m.contains_key(k) && m[k] == b
}

/// Every saved binding, each once.
pub fn get_all_bindings(config: &ShortcutConfig) -> (r: Vec<ShortcutBinding>)
    ensures
        r@.len() == config.bindings@.len(),
        forall|i: int| 0 <= i < r@.len() ==> holds_binding(config.bindings@, #[trigger] r@[i]),
        forall|k: Seq<char>|
            #[trigger] config.bindings@.contains_key(k) ==> exists|i: int|
                0 <= i < r@.len() && r@[i] == config.bindings@[k],
{
    let es = config.bindings.entries();
    let mut r: Vec<ShortcutBinding> = Vec::new();
    let n = es.len();
    for i in 0..n
        invariant
            n == es@.len(),
            r@.len() == i,
            forall|j: int| 0 <= j < i ==> r@[j] == es@[j].1,
    {
        r.push(es[i].1.duplicate());
    }
    proof {
        crate::textmap::lemma_keys_finite(es@);
        assert forall|i: int| 0 <= i < r@.len() implies holds_binding(
            config.bindings@,
            #[trigger] r@[i],
        ) by {
            crate::textmap::lemma_entries_map_at(es@, i);
            let k = es@[i].0@;
            assert(config.bindings@.contains_key(k) && config.bindings@[k] == r@[i]);
        }
        assert forall|k: Seq<char>| #[trigger] config.bindings@.contains_key(k) implies exists|i: int|
            0 <= i < r@.len() && r@[i] == config.bindings@[k] by {
            let j = choose|j: int| 0 <= j < es@.len() && (#[trigger] es@[j]).0@ == k;
            crate::textmap::lemma_entries_map_at(es@, j);
            assert(r@[j] == config.bindings@[k]);
        }
    }
    r
}

/// The message for a shortcut of the settings window that is not saved.
pub open spec fn missing_shortcut_message(id: Seq<char>) -> Seq<char> {
    "Raccourci "@ + id + " non trouvé"@
}

/// The shortcut saved under `id`, read back into its keys; a missing one
/// is reported.
pub fn saved_shortcut(config: &ShortcutConfig, id: &str) -> (r: Result<ClipboardShortcut, String>)
    ensures
        !config.bindings@.contains_key(id@) ==> (r matches Err(e) && e@
            == missing_shortcut_message(id@)),
        config.bindings@.contains_key(id@) ==> (r matches Ok(s) && shortcut_read_from(
            s,
            config.bindings@[id@].current_binding@,
        )),
{
    match config.bindings.get(id) {
        Some(b) => parse_binding_to_shortcut(b.current_binding.as_str()),
        None => Err(concat3("Raccourci ", id, " non trouvé")),
    }
}

/// Writes a shortcut in the form the global-shortcut service reads: the
/// modifiers that are set (`ctrl`, `shift`, `alt`, then `super` for meta)
/// and the key in lower case, joined with `+`. Always succeeds.
pub fn format_shortcut_binding(ctrl: bool, shift: bool, alt: bool, meta: bool, key: String) -> (r:
    Result<String, String>)
    ensures
        r matches Ok(s) && s@ == join_sep(
            modifier_words(ctrl, shift, alt, meta).push(unicode_to_lowercase(key@)),
            '+',
        ),
{
    let mut parts: Vec<Vec<char>> = Vec::new();
    let ghost c: Seq<Seq<char>> = if ctrl { seq!["ctrl"@] } else { seq![] };
    let ghost sh: Seq<Seq<char>> = if shift { seq!["shift"@] } else { seq![] };
    let ghost a: Seq<Seq<char>> = if alt { seq!["alt"@] } else { seq![] };
    let ghost m: Seq<Seq<char>> = if meta { seq!["super"@] } else { seq![] };
    if ctrl {
        parts.push(chars_of("ctrl"));
    }
    assert(views_of(parts@) =~= c);
    if shift {
        parts.push(chars_of("shift"));
    }
    assert(views_of(parts@) =~= c + sh);
    if alt {
        parts.push(chars_of("alt"));
    }
    assert(views_of(parts@) =~= c + sh + a);
    if meta {
        parts.push(chars_of("super"));
    }
    assert(views_of(parts@) =~= c + sh + a + m);
    let key_lower = to_lowercase(key.as_str());
    parts.push(chars_of(key_lower.as_str()));
    assert(views_of(parts@) =~= modifier_words(ctrl, shift, alt, meta).push(
        unicode_to_lowercase(key@),
    ));
    Ok(join_chars(&parts, '+'))
}

/// First step of changing shortcut `id` to `binding`: a blank binding is
/// refused, then `id` must have a saved binding, which is returned.
pub fn begin_binding_change(config: &ShortcutConfig, id: &str, binding: &str) -> (r: Result<
    ShortcutBinding,
    String,
>)
    ensures
        trim(binding@).len() == 0 ==> (r matches Err(e) && e@ == empty_binding_message()),
        trim(binding@).len() > 0 && config.bindings@.contains_key(id@) ==> r == Ok::<
            ShortcutBinding,
            String,
        >(config.bindings@[id@]),
        trim(binding@).len() > 0 && !config.bindings@.contains_key(id@) ==> (r matches Err(e)
            && e@ == not_found_message(id@)),
{
    let v = chars_of(binding);
    if trim_chars(&v).len() == 0 {
        return Err("Le raccourci ne peut pas être vide".to_owned());
    }
    get_binding(config, id)
}

/// The binding `existing` now bound to `binding`.
pub open spec fn rebound(existing: ShortcutBinding, binding: String) -> ShortcutBinding {
    ShortcutBinding {
        id: existing.id,
        current_binding: binding,
        default_binding: existing.default_binding,
    }
}

/// Last step of changing shortcut `id` from `existing` to `binding`, once
/// the global-shortcut service has answered the registration: a refusal is
/// reported with its message and the settings stay as they were; on success
/// the binding of `id` now holds `binding` and is reported.
pub fn finish_binding_change(
    config: &mut ShortcutConfig,
    id: String,
    existing: ShortcutBinding,
    binding: String,
    registration: Result<(), String>,
) -> (r: BindingResponse)
    ensures
        registration matches Err(e) ==> !r.success && r.binding is None && r.error == Some(e)
            && final(config).bindings@ == old(config).bindings@,
        registration is Ok ==> r.success && r.binding == Some(rebound(existing, binding))
            && r.error is None && final(config).bindings@ == old(config).bindings@.insert(
            id@,
            rebound(existing, binding),
        ),
{
    match registration {
        Err(e) => BindingResponse { success: false, binding: None, error: Some(e) },
        Ok(()) => {
            let updated = ShortcutBinding {
                id: existing.id,
                current_binding: binding,
                default_binding: existing.default_binding,
            };
            config.bindings.insert(id, updated.duplicate());
            BindingResponse { success: true, binding: Some(updated), error: None }
        },
    }
}

/// The default binding of shortcut `id`, to reset it to.
pub fn binding_default(config: &ShortcutConfig, id: &str) -> (r: Result<String, String>)
    ensures
        config.bindings@.contains_key(id@) ==> r == Ok::<String, String>(
            config.bindings@[id@].default_binding,
        ),
        !config.bindings@.contains_key(id@) ==> (r matches Err(e) && e@ == not_found_message(id@)),
{
    match config.bindings.get(id) {
        Some(b) => Ok(b.default_binding.clone()),
        None => Err(not_found(id)),
    }
}

/// The current binding of shortcut `id`, if it has one: what suspending
/// unregisters and resuming registers again.
pub fn current_binding(config: &ShortcutConfig, id: &str) -> (r: Option<String>)
    ensures
        config.bindings@.contains_key(id@) ==> r == Some(config.bindings@[id@].current_binding),
        !config.bindings@.contains_key(id@) ==> r is None,
{
    match config.bindings.get(id) {
        Some(b) => Some(b.current_binding.clone()),
        None => None,
    }
}

/// `r` and the bindings `after` are what changing shortcut `id` of
/// `before` to `binding` gives, `register` answering the registration: a
/// blank binding, an unknown id, then a binding without a main key are
/// refused and change nothing; otherwise the answer of `register` is
/// reported, and on success recorded.
pub open spec fn binding_changed<R: Fn(&str, &str) -> Result<(), String>>(
    before: Map<Seq<char>, ShortcutBinding>,
    after: Map<Seq<char>, ShortcutBinding>,
    id: Seq<char>,
    binding: String,
    register: R,
    r: Result<BindingResponse, String>,
) -> bool {
    if trim(binding@).len() == 0 {
        (r matches Err(e) && e@ == empty_binding_message()) && after == before
    } else if !before.contains_key(id) {
        (r matches Err(e) && e@ == not_found_message(id)) && after == before
    } else if !has_main_key(binding@) {
        (r matches Err(e) && e@ == main_key_message()) && after == before
    } else {
        exists|a: &str, b: &str, o: Result<(), String>|
            a@ == id && b@ == binding@ && call_ensures(register, (a, b), o) && match o {
                Err(e) => r matches Ok(resp) && !resp.success && resp.binding is None
                    && resp.error == Some(e) && after == before,
                Ok(()) => r matches Ok(resp) && resp.success && resp.binding == Some(
                    rebound(before[id], binding),
                ) && resp.error is None && after == before.insert(id, rebound(before[id], binding)),
            }
    }
}

/// When changing shortcut `id` of `before` to `binding` gets past the first
/// checks (a binding that is not blank, a known id), the old binding of
/// `id` is handed to `unregister`.
pub open spec fn old_binding_unregistered<U: Fn(&str) -> Result<(), String>>(
    before: Map<Seq<char>, ShortcutBinding>,
    id: Seq<char>,
    binding: Seq<char>,
    unregister: U,
) -> bool {
    trim(binding).len() > 0 && before.contains_key(id) ==> exists|b: &str, o: Result<(), String>|
        b@ == before[id].current_binding@ && #[trigger] call_ensures(unregister, (b,), o)
}

/// Changes shortcut `id` to `binding`: a blank binding or an unknown id is
/// refused first; then the old binding is unregistered with `unregister`
/// (a failure there does not stop the change), the new one is checked with
/// `tauri_impl::validate_shortcut` (a refusal is returned), and registered
/// with `register` (called as `register(id, binding)`), whose answer
/// `finish_binding_change` reports and records.
pub fn change_binding<
    U: Fn(&str) -> Result<(), String>,
    R: Fn(&str, &str) -> Result<(), String>,
>(
    config: &mut ShortcutConfig,
    id: String,
    binding: String,
    unregister: &U,
    register: &R,
) -> (r: Result<BindingResponse, String>)
    requires
        forall|b: &str| call_requires(*unregister, (b,)),
        forall|i: &str, b: &str| call_requires(*register, (i, b)),
    ensures
        binding_changed(
            old(config).bindings@,
            final(config).bindings@,
            id@,
            binding,
            *register,
            r,
        ),
        old_binding_unregistered(old(config).bindings@, id@, binding@, *unregister),
{
    let existing = match begin_binding_change(config, id.as_str(), binding.as_str()) {
        Ok(b) => b,
        Err(e) => return Err(e),
    };
    let previous = existing.current_binding.as_str();
    let unregistered = unregister(previous);
    assert(call_ensures(*unregister, (previous,), unregistered));
    if let Err(e) = tauri_impl::validate_shortcut(binding.as_str()) {
        return Err(e);
    }
    let a = id.as_str();
    let b = binding.as_str();
    let o = register(a, b);
    assert(call_ensures(*register, (a, b), o));
    Ok(finish_binding_change(config, id, existing, binding, o))
}

/// Resets shortcut `id` to its default binding, as `change_binding` does.
pub fn reset_binding<U: Fn(&str) -> Result<(), String>, R: Fn(&str, &str) -> Result<(), String>>(
    config: &mut ShortcutConfig,
    id: String,
    unregister: &U,
    register: &R,
) -> (r: Result<BindingResponse, String>)
    requires
        forall|b: &str| call_requires(*unregister, (b,)),
        forall|i: &str, b: &str| call_requires(*register, (i, b)),
    ensures
        !old(config).bindings@.contains_key(id@) ==> (r matches Err(e) && e@ == not_found_message(
            id@,
        )) && final(config).bindings@ == old(config).bindings@,
        old(config).bindings@.contains_key(id@) ==> binding_changed(
            old(config).bindings@,
            final(config).bindings@,
            id@,
            old(config).bindings@[id@].default_binding,
            *register,
            r,
        ),
        old(config).bindings@.contains_key(id@) ==> old_binding_unregistered(
            old(config).bindings@,
            id@,
            old(config).bindings@[id@].default_binding@,
            *unregister,
        ),
{
    let default = match binding_default(config, id.as_str()) {
        Ok(d) => d,
        Err(e) => return Err(e),
    };
    change_binding(config, id, default, unregister, register)
}

/// A reset that succeeded leaves the shortcut bound to its default, with
/// its id and its default unchanged.
pub proof fn law_reset_restores_default<R: Fn(&str, &str) -> Result<(), String>>(
    before: Map<Seq<char>, ShortcutBinding>,
    after: Map<Seq<char>, ShortcutBinding>,
    id: Seq<char>,
    register: R,
    r: Result<BindingResponse, String>,
)
    requires
        before.contains_key(id),
        binding_changed(before, after, id, before[id].default_binding, register, r),
        r matches Ok(resp) && resp.success,
    ensures
        after.contains_key(id),
        after[id].current_binding == before[id].default_binding,
        after[id].default_binding == before[id].default_binding,
        after[id].id == before[id].id,
{
}

/// A change that did not succeed (refused, or not registered) leaves the
/// saved shortcuts as they were.
pub proof fn law_failed_change_keeps_settings<R: Fn(&str, &str) -> Result<(), String>>(
    before: Map<Seq<char>, ShortcutBinding>,
    after: Map<Seq<char>, ShortcutBinding>,
    id: Seq<char>,
    binding: String,
    register: R,
    r: Result<BindingResponse, String>,
)
    requires
        binding_changed(before, after, id, binding, register, r),
        !(r matches Ok(resp) && resp.success),
    ensures
        after == before,
{
}

/// Unregisters shortcut `id` for a while, when it has a binding.
pub fn suspend_binding<U: Fn(&str) -> Result<(), String>>(
    config: &ShortcutConfig,
    id: &str,
    unregister: &U,
) -> (r: Result<(), String>)
    requires
        forall|b: &str| call_requires(*unregister, (b,)),
    ensures
        !config.bindings@.contains_key(id@) ==> r is Ok,
        config.bindings@.contains_key(id@) ==> exists|b: &str|
            b@ == config.bindings@[id@].current_binding@ && call_ensures(*unregister, (b,), r),
{
    match current_binding(config, id) {
        Some(b) => {
            let bs = b.as_str();
            let r = unregister(bs);
            assert(call_ensures(*unregister, (bs,), r));
            r
        },
        None => Ok(()),
    }
}

/// Registers shortcut `id` again after a suspension, when it has a binding.
pub fn resume_binding<R: Fn(&str, &str) -> Result<(), String>>(
    config: &ShortcutConfig,
    id: &str,
    register: &R,
) -> (r: Result<(), String>)
    requires
        forall|i: &str, b: &str| call_requires(*register, (i, b)),
    ensures
        !config.bindings@.contains_key(id@) ==> r is Ok,
        config.bindings@.contains_key(id@) ==> exists|b: &str|
            b@ == config.bindings@[id@].current_binding@ && call_ensures(*register, (id, b), r),
{
    match current_binding(config, id) {
        Some(b) => {
            let bs = b.as_str();
            let r = register(id, bs);
            assert(call_ensures(*register, (id, bs), r));
            r
        },
        None => Ok(()),
    }
}

/// The shortcut settings made from shortcuts kept in the older format: the
/// selection shortcut becomes `clipboard` (default `ctrl+shift+v`) and the
/// screen-region one becomes `ocr` (default `ctrl+alt+o`), each bound to
/// its saved text form.
pub fn migrated_shortcut_config(clipboard: &ClipboardShortcut, ocr: &ClipboardShortcut) -> (c:
    ShortcutConfig)
    ensures
        c.bindings@.dom() == set!["clipboard"@, "ocr"@],
        binding_is(
            c.bindings@["clipboard"@],
            "clipboard"@,
            binding_text(clipboard.ctrl, clipboard.shift, clipboard.alt, clipboard.key@),
            "ctrl+shift+v"@,
        ),
        binding_is(
            c.bindings@["ocr"@],
            "ocr"@,
            binding_text(ocr.ctrl, ocr.shift, ocr.alt, ocr.key@),
            "ctrl+alt+o"@,
        ),
{
    let mut bindings = TextMap::new();
    bindings.insert(
        "clipboard".to_owned(),
        ShortcutBinding {
            id: "clipboard".to_owned(),
            current_binding: shortcut_binding_text(clipboard),
            default_binding: "ctrl+shift+v".to_owned(),
        },
    );
    bindings.insert(
        "ocr".to_owned(),
        ShortcutBinding {
            id: "ocr".to_owned(),
            current_binding: shortcut_binding_text(ocr),
            default_binding: "ctrl+alt+o".to_owned(),
        },
    );
    proof {
        reveal_strlit("clipboard");
        reveal_strlit("ocr");
        assert("clipboard"@.len() == 9 && "ocr"@.len() == 3);
    }
    assert(bindings@.dom() =~= set!["clipboard"@, "ocr"@]);
    ShortcutConfig { bindings }
}

} // verus!
