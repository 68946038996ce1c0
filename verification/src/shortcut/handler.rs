//! Which event a triggered shortcut sends to the window.

use vstd::prelude::*;

verus! {

/// The window event for a triggered shortcut: `clipboard` sends
/// `global_shortcut_triggered`, `ocr` sends `global_shortcut_ocr_triggered`,
/// and any other id sends nothing.
pub fn shortcut_event_name(binding_id: &str) -> (r: Option<&'static str>)
    ensures
        binding_id@ == "clipboard"@ ==> (r matches Some(e) && e@ == "global_shortcut_triggered"@),
        binding_id@ == "ocr"@ ==> (r matches Some(e) && e@ == "global_shortcut_ocr_triggered"@),
        binding_id@ != "clipboard"@ && binding_id@ != "ocr"@ ==> r is None,
{
    proof {
        reveal_strlit("clipboard");
        reveal_strlit("ocr");
        assert("clipboard"@.len() == 9 && "ocr"@.len() == 3);
    }
    if crate::chars::text_eq(binding_id, "clipboard") {
        Some("global_shortcut_triggered")
    } else if crate::chars::text_eq(binding_id, "ocr") {
        Some("global_shortcut_ocr_triggered")
    } else {
        None
    }
}

} // verus!
