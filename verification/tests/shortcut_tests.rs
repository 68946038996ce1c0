use gsp_ui::config::ClipboardShortcut;
use gsp_ui::shortcut::handler::shortcut_event_name;
use gsp_ui::shortcut::settings::{ShortcutBinding, ShortcutConfig};
use gsp_ui::shortcut::{
    begin_binding_change, binding_default, change_binding, current_binding,
    finish_binding_change, format_shortcut_binding, get_all_bindings, get_binding,
    migrated_shortcut_config, reset_binding, resume_binding, saved_shortcut, suspend_binding,
};
use std::cell::RefCell;
use gsp_ui::shortcut::{handy_keys, tauri_impl};

#[test]
fn default_config_has_the_two_shortcuts() {
    let config = ShortcutConfig::default();
    let clipboard = get_binding(&config, "clipboard").unwrap();
    assert_eq!(clipboard.id, "clipboard");
    assert_eq!(clipboard.current_binding, "ctrl+shift+v");
    assert_eq!(clipboard.default_binding, "ctrl+shift+v");
    let ocr = get_binding(&config, "ocr").unwrap();
    assert_eq!(ocr.current_binding, "ctrl+alt+o");
    assert_eq!(ocr.default_binding, "ctrl+alt+o");
    assert_eq!(get_all_bindings(&config).len(), 2);
}

#[test]
fn unknown_shortcut_is_not_found() {
    let config = ShortcutConfig::default();
    assert_eq!(get_binding(&config, "nope").unwrap_err(), "Raccourci 'nope' non trouvé");
    assert_eq!(binding_default(&config, "nope").unwrap_err(), "Raccourci 'nope' non trouvé");
    assert!(current_binding(&config, "nope").is_none());
    assert_eq!(saved_shortcut(&config, "nope").unwrap_err(), "Raccourci nope non trouvé");
}

#[test]
fn saved_shortcut_reads_the_current_binding() {
    let config = ShortcutConfig::default();
    let s = saved_shortcut(&config, "ocr").unwrap();
    assert!(s.ctrl && !s.shift && s.alt && !s.meta);
    assert_eq!(s.key, "o");
}

#[test]
fn format_shortcut_binding_orders_modifiers_and_lowers_key() {
    let r = format_shortcut_binding(true, true, true, true, "V".to_string()).unwrap();
    assert_eq!(r, "ctrl+shift+alt+super+v");
    let r = format_shortcut_binding(false, false, false, false, "F5".to_string()).unwrap();
    assert_eq!(r, "f5");
}

#[test]
fn change_of_binding_refuses_blank_and_unknown() {
    let config = ShortcutConfig::default();
    assert_eq!(
        begin_binding_change(&config, "clipboard", "   ").unwrap_err(),
        "Le raccourci ne peut pas être vide"
    );
    assert_eq!(
        begin_binding_change(&config, "other", "ctrl+a").unwrap_err(),
        "Raccourci 'other' non trouvé"
    );
    let existing = begin_binding_change(&config, "clipboard", "ctrl+a").unwrap();
    assert_eq!(existing.current_binding, "ctrl+shift+v");
}

#[test]
fn finished_change_updates_only_on_success() {
    let mut config = ShortcutConfig::default();
    let existing = get_binding(&config, "clipboard").unwrap();
    let r = finish_binding_change(
        &mut config,
        "clipboard".to_string(),
        existing,
        "ctrl+b".to_string(),
        Err("déjà utilisé".to_string()),
    );
    assert!(!r.success);
    assert_eq!(r.error.unwrap(), "déjà utilisé");
    assert_eq!(current_binding(&config, "clipboard").unwrap(), "ctrl+shift+v");

    let existing = get_binding(&config, "clipboard").unwrap();
    let r = finish_binding_change(
        &mut config,
        "clipboard".to_string(),
        existing,
        "ctrl+b".to_string(),
        Ok(()),
    );
    assert!(r.success);
    let b = r.binding.unwrap();
    assert_eq!(b.current_binding, "ctrl+b");
    assert_eq!(b.default_binding, "ctrl+shift+v");
    assert_eq!(current_binding(&config, "clipboard").unwrap(), "ctrl+b");
    assert_eq!(binding_default(&config, "clipboard").unwrap(), "ctrl+shift+v");
}

#[test]
fn migrated_config_keeps_old_shortcuts() {
    let clipboard = ClipboardShortcut {
        ctrl: true,
        shift: false,
        alt: false,
        meta: true,
        key: "X".to_string(),
    };
    let ocr = ClipboardShortcut {
        ctrl: false,
        shift: true,
        alt: true,
        meta: false,
        key: "r".to_string(),
    };
    let config = migrated_shortcut_config(&clipboard, &ocr);
    let c = get_binding(&config, "clipboard").unwrap();
    assert_eq!(c.current_binding, "ctrl+X");
    assert_eq!(c.default_binding, "ctrl+shift+v");
    let o = get_binding(&config, "ocr").unwrap();
    assert_eq!(o.current_binding, "shift+alt+r");
    assert_eq!(o.default_binding, "ctrl+alt+o");
}

#[test]
fn binding_duplicate_is_equal() {
    let b = ShortcutBinding {
        id: "x".to_string(),
        current_binding: "a".to_string(),
        default_binding: "b".to_string(),
    };
    let d = b.duplicate();
    assert_eq!(d.id, "x");
    assert_eq!(d.current_binding, "a");
    assert_eq!(d.default_binding, "b");
}

#[test]
fn global_shortcut_validation() {
    assert!(tauri_impl::validate_shortcut("ctrl+shift+v").is_ok());
    assert!(tauri_impl::validate_shortcut("F5").is_ok());
    assert_eq!(
        tauri_impl::validate_shortcut("  ").unwrap_err(),
        "Le raccourci ne peut pas être vide"
    );
    assert_eq!(
        tauri_impl::validate_shortcut("Ctrl + SHIFT").unwrap_err(),
        "Le raccourci doit inclure une touche principale (lettre, nombre, F-key, etc.) en plus des modificateurs"
    );
}

#[test]
fn hotkey_validation() {
    assert!(handy_keys::validate_shortcut("ctrl+shift+v").is_ok());
    assert_eq!(
        handy_keys::validate_shortcut("").unwrap_err(),
        "Le raccourci ne peut pas être vide"
    );
    assert_eq!(
        handy_keys::validate_shortcut("ctrl+nokey+zzz").unwrap_err(),
        "Le raccourci 'ctrl+nokey+zzz' n'est pas valide pour handy-keys. Format accepté: 'ctrl+shift+v', 'alt+a', etc."
    );
}

#[test]
fn hotkey_registry_finds_nothing_when_empty() {
    let registry = handy_keys::HotkeyRegistry::new();
    assert!(registry.binding_of_event(&hotkey_id(0)).is_none());
}

#[test]
fn shortcut_events() {
    assert_eq!(shortcut_event_name("clipboard"), Some("global_shortcut_triggered"));
    assert_eq!(shortcut_event_name("ocr"), Some("global_shortcut_ocr_triggered"));
    assert_eq!(shortcut_event_name("other"), None);
}

fn hotkey_id(n: u32) -> ::handy_keys::HotkeyId {
    serde_json::from_str(&n.to_string()).unwrap()
}

#[test]
fn hotkey_registry_keeps_both_directions() {
    let mut registry = handy_keys::HotkeyRegistry::new();
    registry.record_registration("clipboard".to_string(), "ctrl+shift+v".to_string(), hotkey_id(3));
    registry.record_registration("ocr".to_string(), "ctrl+alt+o".to_string(), hotkey_id(4));
    let (binding, text) = registry.binding_of_event(&hotkey_id(3)).unwrap();
    assert_eq!(binding, "clipboard");
    assert_eq!(text, "ctrl+shift+v");
    let id = registry.take_hotkey("ocr").unwrap();
    assert_eq!(id, hotkey_id(4));
    registry.forget_hotkey(&id);
    assert!(registry.binding_of_event(&hotkey_id(4)).is_none());
    assert!(registry.take_hotkey("ocr").is_none());
    assert_eq!(registry.binding_of_event(&hotkey_id(3)).unwrap().0, "clipboard");
}

#[test]
fn reset_binds_the_default() {
    let mut config = ShortcutConfig::default();
    let existing = get_binding(&config, "ocr").unwrap();
    let _ = finish_binding_change(&mut config, "ocr".to_string(), existing, "alt+x".to_string(), Ok(()));
    let default = binding_default(&config, "ocr").unwrap();
    let existing = get_binding(&config, "ocr").unwrap();
    let r = finish_binding_change(&mut config, "ocr".to_string(), existing, default, Ok(()));
    assert!(r.success);
    let b = get_binding(&config, "ocr").unwrap();
    assert_eq!(b.current_binding, b.default_binding);
    assert_eq!(b.id, "ocr");
}

#[test]
fn registry_changes_only_when_the_manager_agrees() {
    let mut registry = handy_keys::HotkeyRegistry::new();
    let refused = registry.register_with("clipboard".to_string(), "ctrl+v".to_string(), &|_t: &str| {
        Err("Erreur d'enregistrement du raccourci: occupé".to_string())
    });
    assert_eq!(refused.unwrap_err(), "Erreur d'enregistrement du raccourci: occupé");
    assert!(registry.binding_of_event(&hotkey_id(7)).is_none());
    registry
        .register_with("clipboard".to_string(), "ctrl+v".to_string(), &|_t: &str| Ok(hotkey_id(7)))
        .unwrap();
    assert_eq!(registry.binding_of_event(&hotkey_id(7)).unwrap().1, "ctrl+v");
    assert!(registry.unregister_with("other", &|_id| Err("jamais".to_string())).is_ok());
    let kept = registry.unregister_with("clipboard", &|_id| Err("refus".to_string()));
    assert_eq!(kept.unwrap_err(), "refus");
    assert!(registry.binding_of_event(&hotkey_id(7)).is_some());
    assert!(registry.unregister_with("clipboard", &|_id| Ok(())).is_ok());
}

#[test]
fn changing_a_binding_registers_it() {
    let calls = RefCell::new(Vec::new());
    let unregister = |b: &str| -> Result<(), String> {
        calls.borrow_mut().push(format!("-{}", b));
        Err("pas enregistré".to_string())
    };
    let register = |id: &str, b: &str| -> Result<(), String> {
        calls.borrow_mut().push(format!("+{}:{}", id, b));
        Ok(())
    };
    let mut config = ShortcutConfig::default();
    assert_eq!(
        change_binding(&mut config, "clipboard".to_string(), " ".to_string(), &unregister, &register)
            .unwrap_err(),
        "Le raccourci ne peut pas être vide"
    );
    assert_eq!(
        change_binding(&mut config, "clipboard".to_string(), "ctrl+shift".to_string(), &unregister, &register)
            .unwrap_err(),
        "Le raccourci doit inclure une touche principale (lettre, nombre, F-key, etc.) en plus des modificateurs"
    );
    let r = change_binding(&mut config, "clipboard".to_string(), "alt+q".to_string(), &unregister, &register)
        .unwrap();
    assert!(r.success);
    assert_eq!(current_binding(&config, "clipboard").unwrap(), "alt+q");
    assert_eq!(
        calls.borrow().clone(),
        vec!["-ctrl+shift+v".to_string(), "-ctrl+shift+v".to_string(), "+clipboard:alt+q".to_string()]
    );
    let refuse = |_id: &str, _b: &str| -> Result<(), String> { Err("déjà utilisé".to_string()) };
    let r = reset_binding(&mut config, "clipboard".to_string(), &unregister, &refuse).unwrap();
    assert!(!r.success);
    assert_eq!(r.error.unwrap(), "déjà utilisé");
    assert_eq!(current_binding(&config, "clipboard").unwrap(), "alt+q");
    let r = reset_binding(&mut config, "clipboard".to_string(), &unregister, &register).unwrap();
    assert!(r.success);
    assert_eq!(current_binding(&config, "clipboard").unwrap(), "ctrl+shift+v");
    assert_eq!(
        reset_binding(&mut config, "x".to_string(), &unregister, &register).unwrap_err(),
        "Raccourci 'x' non trouvé"
    );
}

#[test]
fn suspending_and_resuming() {
    let config = ShortcutConfig::default();
    let seen = RefCell::new(String::new());
    let unregister = |b: &str| -> Result<(), String> {
        *seen.borrow_mut() = b.to_string();
        Ok(())
    };
    assert!(suspend_binding(&config, "ocr", &unregister).is_ok());
    assert_eq!(seen.borrow().as_str(), "ctrl+alt+o");
    assert!(suspend_binding(&config, "none", &|_b: &str| Err("x".to_string())).is_ok());
    let register = |id: &str, b: &str| -> Result<(), String> { Err(format!("{}={}", id, b)) };
    assert_eq!(resume_binding(&config, "ocr", &register).unwrap_err(), "ocr=ctrl+alt+o");
    assert!(resume_binding(&config, "none", &register).is_ok());
}

#[test]
fn hotkey_registry_keeps_the_latest_registration_of_an_id() {
    let mut registry = handy_keys::HotkeyRegistry::new();
    registry.record_registration("clipboard".to_string(), "ctrl+v".to_string(), hotkey_id(5));
    registry.record_registration("ocr".to_string(), "alt+o".to_string(), hotkey_id(5));
    assert_eq!(registry.binding_of_event(&hotkey_id(5)).unwrap().0, "ocr");
    registry.record_registration("tts".to_string(), "alt+t".to_string(), hotkey_id(6));
    registry.forget_hotkey(&hotkey_id(5));
    assert!(registry.binding_of_event(&hotkey_id(5)).is_none());
    assert_eq!(registry.binding_of_event(&hotkey_id(6)).unwrap().1, "alt+t");
    assert!(registry.unregister_with("tts", &|_id| Ok(())).is_ok());
    assert!(registry.binding_of_event(&hotkey_id(6)).is_none());
}

#[test]
fn hotkey_commands_get_one_reply_until_shutdown() {
    let mut registry = handy_keys::HotkeyRegistry::new();
    let register = |_t: &str| -> Result<::handy_keys::HotkeyId, String> { Ok(hotkey_id(9)) };
    let unregister = |_id: ::handy_keys::HotkeyId| -> Result<(), String> { Ok(()) };
    let reply = registry.handle_command(
        handy_keys::HotkeyCommand::Register {
            binding_id: "ocr".to_string(),
            hotkey_string: "alt+o".to_string(),
        },
        &register,
        &unregister,
    );
    assert_eq!(reply, Some(Ok(())));
    assert_eq!(registry.binding_of_event(&hotkey_id(9)).unwrap().0, "ocr");
    let refuse = |_id: ::handy_keys::HotkeyId| -> Result<(), String> { Err("occupé".to_string()) };
    let reply = registry.handle_command(
        handy_keys::HotkeyCommand::Unregister { binding_id: "ocr".to_string() },
        &register,
        &refuse,
    );
    assert_eq!(reply, Some(Err("occupé".to_string())));
    assert!(registry.binding_of_event(&hotkey_id(9)).is_some());
    assert_eq!(registry.handle_command(handy_keys::HotkeyCommand::Shutdown, &register, &unregister), None);
    assert!(registry.binding_of_event(&hotkey_id(9)).is_some());
}
