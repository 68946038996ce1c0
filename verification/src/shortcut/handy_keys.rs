//! Shortcuts through the `handy-keys` hotkey manager: validation, and the
//! bookkeeping between shortcut ids and the hotkey ids the manager hands out.

use vstd::prelude::*;

use crate::chars::{chars_of, push_str, trim, trim_chars};
use crate::textmap::TextMap;

verus! {

/// Hotkey ids handed out by the `handy-keys` manager.
#[verifier::external_type_specification]
#[verifier::external_body]
pub struct ExHotkeyId(handy_keys::HotkeyId);

/// Whether `handy-keys` reads the text as a hotkey.
pub uninterp spec fn hotkey_parses(raw: Seq<char>) -> bool;

/// Calls `<handy_keys::Hotkey as FromStr>::from_str` and reports whether it
/// succeeded. Its source trims the text and refuses an empty one; which
/// other texts it accepts (its modifier and key names) is not restated.
#[verifier::external_body]
fn parses_as_hotkey(raw: &str) -> (ok: bool)
    ensures
        ok == hotkey_parses(raw@),
        trim(raw@).len() == 0 ==> !ok,
{
    raw.parse::<handy_keys::Hotkey>().is_ok()
}

/// Compares two hotkey ids with `<handy_keys::HotkeyId as PartialEq>::eq`.
/// `derive` writes it over the one number an id holds, so it says whether
/// the two are the same id.
#[verifier::external_body]
fn same_hotkey(a: &handy_keys::HotkeyId, b: &handy_keys::HotkeyId) -> (r: bool)
    ensures
        r == (*a == *b),
{
    a == b
}

/// The message for a text `handy-keys` does not read as a hotkey.
pub open spec fn invalid_hotkey_message(raw: Seq<char>) -> Seq<char> {
    "Le raccourci '"@ + raw
        + "' n'est pas valide pour handy-keys. Format accepté: 'ctrl+shift+v', 'alt+a', etc."@
}

/// Accepts a shortcut that is not blank and that `handy-keys` reads as a
/// hotkey.
pub fn validate_shortcut(raw: &str) -> (r: Result<(), String>)
    ensures
        trim(raw@).len() == 0 ==> (r matches Err(e) && e@ == super::empty_binding_message()),
        trim(raw@).len() > 0 && hotkey_parses(raw@) ==> r is Ok,
        trim(raw@).len() > 0 && !hotkey_parses(raw@) ==> (r matches Err(e) && e@
            == invalid_hotkey_message(raw@)),
{
    let v = chars_of(raw);
    if trim_chars(&v).len() == 0 {
        return Err("Le raccourci ne peut pas être vide".to_owned());
    }
    if parses_as_hotkey(raw) {
        Ok(())
    } else {
        let mut m = String::new();
        push_str(&mut m, "Le raccourci '");
        push_str(&mut m, raw);
        push_str(
            &mut m,
            "' n'est pas valide pour handy-keys. Format accepté: 'ctrl+shift+v', 'alt+a', etc.",
        );
        Err(m)
    }
}

/// What the hotkey manager thread keeps: the hotkey id of each registered
/// shortcut id, and, hotkey by hotkey, the shortcut id and hotkey text it
/// was registered for.
#[derive(Debug)]
pub struct HotkeyRegistry {
    pub binding_to_hotkey: TextMap<handy_keys::HotkeyId>,
    pub hotkey_to_binding: Vec<(handy_keys::HotkeyId, (String, String))>,
}

/// What a list of entries says of each hotkey id: of two entries for one
/// id, the later one counts.
pub open spec fn hotkey_map(entries: Seq<(handy_keys::HotkeyId, (String, String))>) -> Map<
    handy_keys::HotkeyId,
    (String, String),
>
    decreases entries.len(),
{
    if entries.len() == 0 {
        Map::empty()
    } else {
        hotkey_map(entries.drop_last()).insert(entries.last().0, entries.last().1)
    }
}

/// Each registered shortcut id is found back from its hotkey.
pub open spec fn registry_consistent(
    b2h: Map<Seq<char>, handy_keys::HotkeyId>,
    h2b: Map<handy_keys::HotkeyId, (String, String)>,
) -> bool {
    forall|b: Seq<char>|
        #[trigger] b2h.contains_key(b) ==> h2b.contains_key(b2h[b]) && h2b[b2h[b]].0@ == b
}

/// Entries past position `i` that are for other ids change nothing of what
/// the list says of `id`.
proof fn lemma_hotkey_map_tail_without(
    entries: Seq<(handy_keys::HotkeyId, (String, String))>,
    i: int,
    id: handy_keys::HotkeyId,
)
    requires
        0 <= i <= entries.len(),
        forall|j: int| i <= j < entries.len() ==> #[trigger] entries[j].0 != id,
    ensures
        hotkey_map(entries).contains_key(id) == hotkey_map(entries.take(i)).contains_key(id),
        hotkey_map(entries).contains_key(id) ==> hotkey_map(entries)[id] == hotkey_map(
            entries.take(i),
        )[id],
    decreases entries.len(),
{
    if i == entries.len() {
        assert(entries.take(i) =~= entries);
    } else {
        let rest = entries.drop_last();
        assert(rest.take(i) =~= entries.take(i));
        assert(entries[entries.len() - 1].0 != id);
        assert forall|j: int| i <= j < rest.len() implies #[trigger] rest[j].0 != id by {
            assert(rest[j] == entries[j]);
        }
        lemma_hotkey_map_tail_without(rest, i, id);
    }
}

/// The entries of `entries` that are not for `id`, in their order.
fn entries_without(entries: Vec<(handy_keys::HotkeyId, (String, String))>, id: &handy_keys::HotkeyId) -> (kept: Vec<(handy_keys::HotkeyId, (String, String))>)
    ensures
        hotkey_map(kept@) == hotkey_map(entries@).remove(*id),
{
    let ghost all = entries@;
    let ghost mut k: int = 0;
    let mut rest = entries;
    let mut kept: Vec<(handy_keys::HotkeyId, (String, String))> = Vec::new();
    while rest.len() > 0
        invariant
            0 <= k <= all.len(),
            rest@ == all.skip(k),
            hotkey_map(kept@) == hotkey_map(all.take(k)).remove(*id),
        decreases rest.len(),
    {
        let e = rest.remove(0);
        proof {
            assert(e == all[k]);
            assert(all.take(k + 1).drop_last() =~= all.take(k));
            assert(rest@ =~= all.skip(k + 1));
        }
        if !same_hotkey(&e.0, id) {
            let ghost before = kept@;
            kept.push(e);
            proof {
                assert(kept@.drop_last() =~= before);
                assert(hotkey_map(kept@) =~= hotkey_map(all.take(k + 1)).remove(*id));
            }
        } else {
            proof {
                assert(hotkey_map(kept@) =~= hotkey_map(all.take(k + 1)).remove(*id));
            }
        }
        proof {
            k = k + 1;
        }
    }
    proof {
        assert(all.take(k) =~= all);
    }
    kept
}

impl HotkeyRegistry {
    /// What the registry says of each hotkey id: the shortcut id and hotkey
    /// text it was registered for.
    pub open spec fn hotkey_bindings(&self) -> Map<handy_keys::HotkeyId, (String, String)> {
        hotkey_map(self.hotkey_to_binding@)
    }

    /// Nothing registered.
    pub fn new() -> (r: HotkeyRegistry)
        ensures
            r.binding_to_hotkey@ == Map::<Seq<char>, handy_keys::HotkeyId>::empty(),
            r.hotkey_bindings() == Map::<handy_keys::HotkeyId, (String, String)>::empty(),
    {
        HotkeyRegistry { binding_to_hotkey: TextMap::new(), hotkey_to_binding: Vec::new() }
    }

    /// Records that shortcut `binding_id` was registered as hotkey `id` for
    /// the text `hotkey_string`.
    pub fn record_registration(
        &mut self,
        binding_id: String,
        hotkey_string: String,
        id: handy_keys::HotkeyId,
    )
        ensures
            final(self).binding_to_hotkey@ == old(self).binding_to_hotkey@.insert(binding_id@, id),
            final(self).hotkey_bindings() == old(self).hotkey_bindings().insert(
                id,
                (binding_id, hotkey_string),
            ),
    {
        self.binding_to_hotkey.insert(binding_id.clone(), id);
        self.forget_hotkey(&id);
        let ghost before = self.hotkey_to_binding@;
        self.hotkey_to_binding.push((id, (binding_id, hotkey_string)));
        proof {
            assert(self.hotkey_to_binding@.drop_last() =~= before);
        }
    }

    /// Takes out the hotkey id of shortcut `binding_id`, if it has one.
    pub fn take_hotkey(&mut self, binding_id: &str) -> (r: Option<handy_keys::HotkeyId>)
        ensures
            r is Some == old(self).binding_to_hotkey@.contains_key(binding_id@),
            r matches Some(h) ==> h == old(self).binding_to_hotkey@[binding_id@],
            final(self).binding_to_hotkey@ == old(self).binding_to_hotkey@.remove(binding_id@),
            final(self).hotkey_to_binding@ == old(self).hotkey_to_binding@,
    {
        self.binding_to_hotkey.remove(binding_id)
    }

    /// Forgets what hotkey `id` was registered for.
    pub fn forget_hotkey(&mut self, id: &handy_keys::HotkeyId)
        ensures
            final(self).binding_to_hotkey@ == old(self).binding_to_hotkey@,
            final(self).hotkey_bindings() == old(self).hotkey_bindings().remove(*id),
    {
        let mut entries: Vec<(handy_keys::HotkeyId, (String, String))> = Vec::new();
        std::mem::swap(&mut entries, &mut self.hotkey_to_binding);
        self.hotkey_to_binding = entries_without(entries, id);
    }

    /// The shortcut id and hotkey text that the hotkey of an event was
    /// registered for, if it was registered.
    pub fn binding_of_event(&self, id: &handy_keys::HotkeyId) -> (r: Option<&(String, String)>)
        ensures
            r is Some == self.hotkey_bindings().contains_key(*id),
            r matches Some(p) ==> *p == self.hotkey_bindings()[*id],
    {
        let entries = &self.hotkey_to_binding;
        let mut i: usize = entries.len();
        while i > 0
            invariant
                entries@ == self.hotkey_to_binding@,
                i <= entries.len(),
                forall|j: int| i <= j < entries.len() ==> #[trigger] entries@[j].0 != *id,
            decreases i,
        {
            i = i - 1;
            let e = &entries[i];
            if same_hotkey(&e.0, id) {
                proof {
                    lemma_hotkey_map_tail_without(entries@, i + 1, *id);
                    assert(entries@.take(i + 1).drop_last() =~= entries@.take(i as int));
                }
                return Some(&e.1);
            }
        }
        proof {
            lemma_hotkey_map_tail_without(entries@, 0, *id);
            assert(entries@.take(0) =~= Seq::<(handy_keys::HotkeyId, (String, String))>::empty());
        }
        None
    }
}

/// `after` and `r` are what registering shortcut `binding_id` for the text
/// `hotkey_string` in `before` gives, `register` reading the text and
/// registering it: its error is returned and changes nothing; on success
/// the new hotkey is recorded both ways.
pub open spec fn registered_with<R: Fn(&str) -> Result<handy_keys::HotkeyId, String>>(
    before: HotkeyRegistry,
    after: HotkeyRegistry,
    binding_id: String,
    hotkey_string: String,
    register: R,
    r: Result<(), String>,
) -> bool {
    exists|t: &str, o: Result<handy_keys::HotkeyId, String>|
        t@ == hotkey_string@ && #[trigger] call_ensures(register, (t,), o) && match o {
            Err(e) => r == Err::<(), String>(e) && after.binding_to_hotkey@
                == before.binding_to_hotkey@ && after.hotkey_to_binding@
                == before.hotkey_to_binding@,
            Ok(id) => r is Ok && after.binding_to_hotkey@ == before.binding_to_hotkey@.insert(
                binding_id@,
                id,
            ) && after.hotkey_bindings() == before.hotkey_bindings().insert(
                id,
                (binding_id, hotkey_string),
            ),
        }
}

/// `after` and `r` are what unregistering shortcut `binding_id` in `before`
/// gives, `unregister` letting go of its hotkey: the shortcut loses its
/// hotkey in any case; a shortcut without one is fine; an error of
/// `unregister` is returned and its hotkey is kept in the other direction;
/// otherwise that hotkey is forgotten.
pub open spec fn unregistered_with<U: Fn(handy_keys::HotkeyId) -> Result<(), String>>(
    before: HotkeyRegistry,
    after: HotkeyRegistry,
    binding_id: Seq<char>,
    unregister: U,
    r: Result<(), String>,
) -> bool {
    &&& after.binding_to_hotkey@ == before.binding_to_hotkey@.remove(binding_id)
    &&& !before.binding_to_hotkey@.contains_key(binding_id) ==> r is Ok
        && after.hotkey_to_binding@ == before.hotkey_to_binding@
    &&& before.binding_to_hotkey@.contains_key(binding_id) ==> ({
        let id = before.binding_to_hotkey@[binding_id];
        exists|o: Result<(), String>|
            #[trigger] call_ensures(unregister, (id,), o) && match o {
                Err(e) => r == Err::<(), String>(e) && after.hotkey_to_binding@
                    == before.hotkey_to_binding@,
                Ok(()) => r is Ok && after.hotkey_bindings() == before.hotkey_bindings().remove(
                    id,
                ),
            }
    })
}

/// A command to the hotkey manager thread, without the channel its reply
/// goes back on.
#[derive(Debug)]
pub enum HotkeyCommand {
    Register { binding_id: String, hotkey_string: String },
    Unregister { binding_id: String },
    Shutdown,
}

/// `after` and `reply` are what carrying out `command` in `before` gives:
/// one reply for a registration or an unregistration, as `registered_with`
/// and `unregistered_with` say; none for a shutdown, which changes nothing.
pub open spec fn command_handled<
    R: Fn(&str) -> Result<handy_keys::HotkeyId, String>,
    U: Fn(handy_keys::HotkeyId) -> Result<(), String>,
>(
    before: HotkeyRegistry,
    after: HotkeyRegistry,
    command: HotkeyCommand,
    register: R,
    unregister: U,
    reply: Option<Result<(), String>>,
) -> bool {
    &&& (reply is None) == (command is Shutdown)
    &&& match command {
        HotkeyCommand::Register { binding_id, hotkey_string } => reply matches Some(r)
            && registered_with(before, after, binding_id, hotkey_string, register, r),
        HotkeyCommand::Unregister { binding_id } => reply matches Some(r) && unregistered_with(
            before,
            after,
            binding_id@,
            unregister,
            r,
        ),
        HotkeyCommand::Shutdown => reply is None && after == before,
    }
}

/// Carrying out commands one after the other, each on the registry the one
/// before left: every registration or unregistration gets exactly one
/// reply, a shutdown none, and a shutdown leaves the registry as it was.
pub proof fn law_one_reply_per_command<
    R: Fn(&str) -> Result<handy_keys::HotkeyId, String>,
    U: Fn(handy_keys::HotkeyId) -> Result<(), String>,
>(
    states: Seq<HotkeyRegistry>,
    commands: Seq<HotkeyCommand>,
    replies: Seq<Option<Result<(), String>>>,
    register: R,
    unregister: U,
)
    requires
        states.len() == commands.len() + 1,
        replies.len() == commands.len(),
        forall|i: int|
            0 <= i < commands.len() ==> command_handled(
                states[i],
                states[i + 1],
                #[trigger] commands[i],
                register,
                unregister,
                replies[i],
            ),
    ensures
        forall|i: int|
            0 <= i < commands.len() ==> ((#[trigger] replies[i]) is Some) == !(commands[i] is Shutdown),
        forall|i: int|
            0 <= i < commands.len() && (#[trigger] commands[i]) is Shutdown ==> states[i + 1] == states[i],
{
    assert forall|i: int| 0 <= i < commands.len() implies ((#[trigger] replies[i]) is Some) == !(
    commands[i] is Shutdown) by {
        assert(command_handled(states[i], states[i + 1], commands[i], register, unregister, replies[i]));
    }
}

impl HotkeyRegistry {
    /// Registers shortcut `binding_id` for the text `hotkey_string` with the
    /// hotkey manager (`register` reads the text and registers it) and, when
    /// that succeeds, records it; a failure leaves the registry as it was.
    pub fn register_with<R: Fn(&str) -> Result<handy_keys::HotkeyId, String>>(
        &mut self,
        binding_id: String,
        hotkey_string: String,
        register: &R,
    ) -> (r: Result<(), String>)
        requires
            forall|t: &str| call_requires(*register, (t,)),
        ensures
            registered_with(*old(self), *final(self), binding_id, hotkey_string, *register, r),
    {
        let t = hotkey_string.as_str();
        let o = register(t);
        assert(call_ensures(*register, (t,), o));
        match o {
            Err(e) => Err(e),
            Ok(id) => {
                self.record_registration(binding_id, hotkey_string, id);
                Ok(())
            },
        }
    }

    /// Unregisters shortcut `binding_id`, if it has a hotkey: its hotkey is
    /// taken out, handed to the manager (`unregister`), and forgotten once
    /// the manager has let it go. A shortcut without a hotkey is fine.
    pub fn unregister_with<U: Fn(handy_keys::HotkeyId) -> Result<(), String>>(
        &mut self,
        binding_id: &str,
        unregister: &U,
    ) -> (r: Result<(), String>)
        requires
            forall|id: handy_keys::HotkeyId| call_requires(*unregister, (id,)),
        ensures
            unregistered_with(*old(self), *final(self), binding_id@, *unregister, r),
    {
        match self.take_hotkey(binding_id) {
            None => Ok(()),
            Some(id) => {
                let o = unregister(id);
                assert(call_ensures(*unregister, (id,), o));
                match o {
                    Err(e) => Err(e),
                    Ok(()) => {
                        self.forget_hotkey(&id);
                        Ok(())
                    },
                }
            },
        }
    }

    /// Carries out one command of the manager thread. A registration or an
    /// unregistration is done as `register_with` and `unregister_with` do
    /// it, and its outcome is the one reply to send back; a shutdown gets no
    /// reply, changes nothing, and ends the thread's loop.
    pub fn handle_command<
        R: Fn(&str) -> Result<handy_keys::HotkeyId, String>,
        U: Fn(handy_keys::HotkeyId) -> Result<(), String>,
    >(&mut self, command: HotkeyCommand, register: &R, unregister: &U) -> (reply: Option<
        Result<(), String>,
    >)
        requires
            forall|t: &str| call_requires(*register, (t,)),
            forall|id: handy_keys::HotkeyId| call_requires(*unregister, (id,)),
        ensures
            command_handled(*old(self), *final(self), command, *register, *unregister, reply),
    {
        match command {
            HotkeyCommand::Register { binding_id, hotkey_string } => Some(
                self.register_with(binding_id, hotkey_string, register),
            ),
            HotkeyCommand::Unregister { binding_id } => Some(
                self.unregister_with(binding_id.as_str(), unregister),
            ),
            HotkeyCommand::Shutdown => None,
        }
    }
}

/// Registering a shortcut under a hotkey that no other registered shortcut
/// has keeps every registered shortcut findable from its hotkey, and the new
/// one is found from its own.
pub proof fn law_registration_keeps_registry_consistent(
    b2h: Map<Seq<char>, handy_keys::HotkeyId>,
    h2b: Map<handy_keys::HotkeyId, (String, String)>,
    binding_id: String,
    hotkey_string: String,
    id: handy_keys::HotkeyId,
)
    requires
        registry_consistent(b2h, h2b),
        forall|b: Seq<char>| #[trigger] b2h.contains_key(b) && b != binding_id@ ==> b2h[b] != id,
    ensures
        registry_consistent(b2h.insert(binding_id@, id), h2b.insert(id, (binding_id, hotkey_string))),
{
}

/// Unregistering a shortcut (taking out its hotkey, then forgetting that
/// hotkey) keeps every other registered shortcut findable from its hotkey,
/// provided registered shortcuts have distinct hotkeys.
pub proof fn law_unregistration_keeps_registry_consistent(
    b2h: Map<Seq<char>, handy_keys::HotkeyId>,
    h2b: Map<handy_keys::HotkeyId, (String, String)>,
    binding_id: Seq<char>,
)
    requires
        registry_consistent(b2h, h2b),
        b2h.contains_key(binding_id),
        forall|b: Seq<char>|
            #[trigger] b2h.contains_key(b) && b != binding_id ==> b2h[b] != b2h[binding_id],
    ensures
        registry_consistent(b2h.remove(binding_id), h2b.remove(b2h[binding_id])),
{
}

} // verus!
