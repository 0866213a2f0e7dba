//! The application state store: an immutable snapshot of the entry list and
//! the ephemeral id-to-code table that one menu render builds and the next
//! render discards. Every operation returns a fresh snapshot; nothing is
//! mutated in place, so a published snapshot can be read from any thread.
use vstd::prelude::*;

verus! {

use std::collections::HashMap;
use crate::digits::all_dec_digits;
use crate::entry::{EntryAction, EntryView, OtpEntry};
use crate::totp::{spec_entry_code, OtpValue};

broadcast use vstd::std_specs::hash::group_hash_axioms;

/// One immutable snapshot: the persisted entries, addressed by position, and
/// the code table of the current menu render, keyed by opaque 64-bit ids.
pub struct AppState {
    pub otp_entries: Vec<OtpEntry>,
    pub otp_codes: HashMap<u64, String>,
}

/// The mathematical content of an entry list.
pub open spec fn entries_view(s: Seq<OtpEntry>) -> Seq<EntryView> {
    s.map_values(|e: OtpEntry| e@)
}

impl AppState {
    /// Every entry can derive a code (its time step is not zero).
    pub open spec fn derivable(&self) -> bool {
        forall|i: int|
            0 <= i < self.otp_entries@.len() ==> (#[trigger] self.otp_entries@[i]).step >= 1
    }
}

impl Default for AppState {
    /// The state a process starts from: no entries, no codes.
    fn default() -> (r: Self)
        ensures
            r.otp_entries@.len() == 0,
            r.otp_codes@ == Map::<u64, String>::empty(),
    {
        Self { otp_entries: Vec::new(), otp_codes: HashMap::new() }
    }
}

/// A field-for-field copy of an entry list.
pub fn clone_entries(entries: &Vec<OtpEntry>) -> (r: Vec<OtpEntry>)
    ensures
        r@ == entries@,
{
    let mut r: Vec<OtpEntry> = Vec::new();
    let n = entries.len();
    let mut i: usize = 0;
    while i < n
        invariant
            n == entries@.len(),
            i <= n,
            r@ == entries@.subrange(0, i as int),
        decreases n - i,
    {
        r.push(entries[i].duplicate());
        assert(entries@.subrange(0, i + 1) == entries@.subrange(0, i as int).push(
            entries@[i as int],
        ));
        i = i + 1;
    }
    assert(entries@.subrange(0, n as int) == entries@);
    r
}

/// The code table of `new` was rebuilt from the entries of `old` for second
/// `now`: same entries, and the id `i` maps to the code of entry `i`.
pub open spec fn codes_rebuilt(old_state: AppState, new_state: AppState, now: u64) -> bool {
    &&& new_state.otp_entries@ == old_state.otp_entries@
    &&& new_state.otp_codes@.dom() =~= Set::new(
        |k: u64| 0 <= k < old_state.otp_entries@.len(),
    )
    &&& forall|i: int|
        0 <= i < old_state.otp_entries@.len() ==> (#[trigger] new_state.otp_codes@[i as u64])@
            == spec_entry_code(old_state.otp_entries@[i]@, now)
}

/// `lines` are the menu lines of `entries` for second `now`.
pub open spec fn menu_lines_for(entries: Seq<OtpEntry>, lines: Seq<String>, now: u64) -> bool {
    &&& lines.len() == entries.len()
    &&& forall|i: int|
        0 <= i < entries.len() ==> (#[trigger] lines[i])@ == entries[i].name@ + ": "@
            + spec_entry_code(entries[i]@, now)
}

/// Both snapshots hold the same entries and the same code table.
pub open spec fn same_state(a: AppState, b: AppState) -> bool {
    a.otp_entries@ == b.otp_entries@ && a.otp_codes@ == b.otp_codes@
}

impl AppState {
    /// A snapshot holding the same entries and codes.
    pub fn duplicate(&self) -> (r: AppState)
        ensures
            same_state(*self, r),
    {
        AppState {
            otp_entries: clone_entries(&self.otp_entries),
            otp_codes: self.otp_codes.clone(),
        }
    }

    /// Record a code under an opaque id supplied by the adapter for one
    /// rendered menu item. A later registration under the same id silently
    /// replaces the earlier one; one render never needs both.
    pub fn add_otp_value(&mut self, id: u64, otp_code: String) -> (r: u64)
        ensures
            r == id,
            final(self).otp_codes@ == old(self).otp_codes@.insert(id, otp_code),
            final(self).otp_entries@ == old(self).otp_entries@,
    {
        self.otp_codes.insert(id, otp_code);
        id
    }

    /// Resolve an id registered during the current render to its code.
    pub fn get_otp_value_by_id(&self, id: u64) -> (r: Option<&String>)
        ensures
            match r {
                Some(code) => self.otp_codes@.contains_key(id) && *code == self.otp_codes@[id],
                None => !self.otp_codes@.contains_key(id),
            },
    {
        self.otp_codes.get(&id)
    }

    /// The name and freshly derived code of the entry at `index`, if any.
    pub fn get_otp_value_at_index(&self, index: usize) -> (r: Option<OtpValue>)
        requires
            index < self.otp_entries@.len() ==> self.otp_entries@[index as int].step >= 1,
        ensures
            match r {
                Some(v) => index < self.otp_entries@.len() && v.name@
                    == self.otp_entries@[index as int].name@ && v.otp@.len()
                    == self.otp_entries@[index as int].digit_count && all_dec_digits(v.otp@)
                    && exists|now: u64| v.otp@ == spec_entry_code(
                    self.otp_entries@[index as int]@,
                    now,
                ),
                None => index >= self.otp_entries@.len(),
            },
    {
        if index < self.otp_entries.len() {
            let entry = &self.otp_entries[index];
            Some(entry.get_otp_value())
        } else {
            None
        }
    }

    /// A snapshot with the same entries and no resolvable codes: the required
    /// first step of every menu rebuild, so ids of the previous render die.
    pub fn menu_reset(&self) -> (r: Self)
        ensures
            r.otp_entries@ == self.otp_entries@,
            r.otp_codes@ == Map::<u64, String>::empty(),
    {
        Self { otp_entries: clone_entries(&self.otp_entries), otp_codes: HashMap::new() }
    }

    /// A snapshot with the entry appended (`Add`) or the entry at the given
    /// position replaced (`Edit`), and the code table cleared. Positions come
    /// from the adapter's own enumeration, so an out-of-range edit is a
    /// caller error, not a recoverable one.
    pub fn save_entry(&self, otp_entry: OtpEntry, entry_action: EntryAction) -> (r: AppState)
        requires
            entry_action matches EntryAction::Edit(i) ==> i < self.otp_entries@.len(),
        ensures
            match entry_action {
                EntryAction::Add => r.otp_entries@ == self.otp_entries@.push(otp_entry),
                EntryAction::Edit(i) => r.otp_entries@ == self.otp_entries@.update(
                    i as int,
                    otp_entry,
                ),
            },
            r.otp_codes@ == Map::<u64, String>::empty(),
    {
        let mut entries = clone_entries(&self.otp_entries);
        match entry_action {
            EntryAction::Add => {
                entries.push(otp_entry);
            },
            EntryAction::Edit(index) => {
                entries.set(index, otp_entry);
            },
        }
        Self { otp_entries: entries, otp_codes: HashMap::new() }
    }

    /// A snapshot with the entry at `index` removed and the code table
    /// cleared. The same position contract as `save_entry` holds.
    pub fn remove_entry_index(&self, index: usize) -> (r: AppState)
        requires
            index < self.otp_entries@.len(),
        ensures
            r.otp_entries@ == self.otp_entries@.remove(index as int),
            r.otp_codes@ == Map::<u64, String>::empty(),
    {
        let mut entries = clone_entries(&self.otp_entries);
        entries.remove(index);
        Self { otp_entries: entries, otp_codes: HashMap::new() }
    }

    /// Rebuild the menu for second `now`: the same entries, a code table that
    /// maps the id `i` to the code of entry `i`, and one display line per
    /// entry. Ids are the render positions, so distinct items never collide.
    pub fn rebuild_menu(&self, now: u64) -> (r: (AppState, Vec<String>))
        requires
            self.derivable(),
        ensures
            codes_rebuilt(*self, r.0, now),
            menu_lines_for(self.otp_entries@, r.1@, now),
    {
        let mut state = self.menu_reset();
        let mut lines: Vec<String> = Vec::new();
        let n = self.otp_entries.len();
        let mut i: usize = 0;
        while i < n
            invariant
                n == self.otp_entries@.len(),
                i <= n,
                self.derivable(),
                state.otp_entries@ == self.otp_entries@,
                state.otp_codes@.dom() =~= Set::new(|k: u64| 0 <= k < i),
                forall|j: int|
                    0 <= j < i ==> (#[trigger] state.otp_codes@[j as u64])@ == spec_entry_code(
                        self.otp_entries@[j]@,
                        now,
                    ),
                lines@.len() == i,
                forall|j: int|
                    0 <= j < i ==> (#[trigger] lines@[j])@ == self.otp_entries@[j].name@ + ": "@
                        + spec_entry_code(self.otp_entries@[j]@, now),
            decreases n - i,
        {
            let entry = &self.otp_entries[i];
            let code = entry.derive_code(now);
            let value = OtpValue { name: entry.name.clone(), otp: code };
            lines.push(value.formatted_menu_display());
            state.add_otp_value(i as u64, value.otp);
            assert(state.otp_codes@.dom() =~= Set::new(|k: u64| 0 <= k < i + 1));
            i = i + 1;
        }
        (state, lines)
    }
}

/// Registering a code and resolving its id round-trips within one render
/// pass, and a reset table resolves nothing: stated over the maps that the
/// contracts of `add_otp_value`, `get_otp_value_by_id` and `menu_reset` use.
pub proof fn lemma_register_resolve(codes: Map<u64, String>, id: u64, code: String)
    ensures
        codes.insert(id, code).contains_key(id),
        codes.insert(id, code)[id] == code,
        !Map::<u64, String>::empty().contains_key(id),
{
}

} // verus!
