//! The saved keyboard shortcuts.

use vstd::prelude::*;
use crate::textmap::TextMap;

verus! {

/// A shortcut of the application: what it does (`id`), the key combination
/// it is bound to now and the one it is bound to by default.
#[derive(Debug)]
pub struct ShortcutBinding {
    pub id: String,
    pub current_binding: String,
    pub default_binding: String,
}

/// `b` has these texts.
pub open spec fn binding_is(b: ShortcutBinding, id: Seq<char>, current: Seq<char>, default: Seq<char>) -> bool {
    b.id@ == id && b.current_binding@ == current && b.default_binding@ == default
}

impl ShortcutBinding {
    /// A copy of the binding.
    pub fn duplicate(&self) -> (r: ShortcutBinding)
        ensures
            r == *self,
    {
        ShortcutBinding {
            id: self.id.clone(),
            current_binding: self.current_binding.clone(),
            default_binding: self.default_binding.clone(),
        }
    }
}

/// The saved shortcuts, by id.
#[derive(Debug)]
pub struct ShortcutConfig {
    pub bindings: TextMap<ShortcutBinding>,
}

impl ShortcutConfig {
    /// The two shortcuts of a first start: `clipboard` on `ctrl+shift+v` and
    /// `ocr` on `ctrl+alt+o`, each bound to its default.
    pub fn default() -> (c: ShortcutConfig)
        ensures
            c.bindings@.dom() == set!["clipboard"@, "ocr"@],
            binding_is(c.bindings@["clipboard"@], "clipboard"@, "ctrl+shift+v"@, "ctrl+shift+v"@),
            binding_is(c.bindings@["ocr"@], "ocr"@, "ctrl+alt+o"@, "ctrl+alt+o"@),
    {
        let mut bindings = TextMap::new();
        bindings.insert(
            "clipboard".to_owned(),
            ShortcutBinding {
                id: "clipboard".to_owned(),
                current_binding: "ctrl+shift+v".to_owned(),
                default_binding: "ctrl+shift+v".to_owned(),
            },
        );
        bindings.insert(
            "ocr".to_owned(),
            ShortcutBinding {
                id: "ocr".to_owned(),
                current_binding: "ctrl+alt+o".to_owned(),
                default_binding: "ctrl+alt+o".to_owned(),
            },
        );
        proof {
            reveal_strlit("clipboard");
            reveal_strlit("ocr");
            assert("clipboard"@.len() == 9 && "ocr"@.len() == 3);
            assert("clipboard"@ != "ocr"@);
        }
        assert(bindings@.dom() =~= set!["clipboard"@, "ocr"@]);
        ShortcutConfig { bindings }
    }
}

} // verus!
