//! The UI event protocol: the closed set of events a front end may raise, and
//! the one transition function that turns the current snapshot and an event
//! into the next snapshot plus the action the adapter must perform. Adapters
//! funnel all events through one ordered queue, so transitions serialize.
use vstd::prelude::*;

verus! {

use crate::entry::{default_entry_view, EntryAction, OtpEntry};
use crate::state::{codes_rebuilt, menu_lines_for, same_state, AppState};

/// How the process presents itself: dock-visible or menu-bar-only.
#[derive(Clone, PartialEq, Eq, Structural, Debug)]
pub enum ActivationPolicy {
    Foreground,
    Background,
}

/// Everything a front end may ask of the core.
#[derive(Debug)]
pub enum UiEvent {
    TotpRefresh,
    OpenSetup,
    OpenEntry(EntryAction),
    SaveEntry(OtpEntry, EntryAction),
    RemoveEntry(usize),
    CopyToClipboard(u64),
    Quit,
}

/// What the adapter must do after a transition.
pub enum UiAction {
    /// Show these lines as the menu, binding line `i` to id `i`.
    RenderMenu(Vec<String>),
    /// Open the setup window over the current entries.
    ShowSetup,
    /// Open an entry form over this entry, for this action.
    ShowEntryForm(OtpEntry, EntryAction),
    /// Save the new snapshot's entries to the config file (failures are
    /// logged, never fatal), then raise a refresh.
    PersistEntries,
    /// Hand this text to the system clipboard.
    CopyText(String),
    /// The event referred to nothing current; do nothing.
    Ignore,
    /// Stop the application.
    Exit,
}

/// Apply one event to the current snapshot at second `now`. Positions inside
/// events come from the adapter's own enumeration of the same snapshot, so an
/// out-of-range position is a caller error; a refresh needs every entry to be
/// able to derive (a zero time step cannot).
pub fn handle_event(state: &AppState, event: UiEvent, now: u64) -> (r: (AppState, UiAction))
    requires
        event matches UiEvent::TotpRefresh ==> state.derivable(),
        event matches UiEvent::OpenEntry(EntryAction::Edit(i)) ==> i < state.otp_entries@.len(),
        event matches UiEvent::SaveEntry(_, EntryAction::Edit(i)) ==> i
            < state.otp_entries@.len(),
        event matches UiEvent::RemoveEntry(i) ==> i < state.otp_entries@.len(),
    ensures
        match event {
            UiEvent::TotpRefresh => codes_rebuilt(*state, r.0, now) && (r.1 matches
            UiAction::RenderMenu(lines) && menu_lines_for(state.otp_entries@, lines@, now)),
            UiEvent::OpenSetup => same_state(*state, r.0) && r.1 is ShowSetup,
            UiEvent::OpenEntry(action) => same_state(*state, r.0) && (r.1 matches
            UiAction::ShowEntryForm(e, a) && a == action && (match action {
                EntryAction::Add => e@ == default_entry_view(),
                EntryAction::Edit(i) => e == state.otp_entries@[i as int],
            })),
            UiEvent::SaveEntry(e, action) => r.0.otp_codes@ == Map::<u64, String>::empty() && (
            match action {
                EntryAction::Add => r.0.otp_entries@ == state.otp_entries@.push(e),
                EntryAction::Edit(i) => r.0.otp_entries@ == state.otp_entries@.update(i as int, e),
            }) && r.1 is PersistEntries,
            UiEvent::RemoveEntry(i) => r.0.otp_entries@ == state.otp_entries@.remove(i as int)
                && r.0.otp_codes@ == Map::<u64, String>::empty() && r.1 is PersistEntries,
            UiEvent::CopyToClipboard(id) => same_state(*state, r.0) && (
            if state.otp_codes@.contains_key(id) {
                r.1 matches UiAction::CopyText(code) && code == state.otp_codes@[id]
            } else {
                r.1 is Ignore
            }),
            UiEvent::Quit => same_state(*state, r.0) && r.1 is Exit,
        },
{
    match event {
        UiEvent::TotpRefresh => {
            let (new_state, lines) = state.rebuild_menu(now);
            (new_state, UiAction::RenderMenu(lines))
        },
        UiEvent::OpenSetup => (state.duplicate(), UiAction::ShowSetup),
        UiEvent::OpenEntry(action) => {
            let entry = match action {
                EntryAction::Add => OtpEntry::default(),
                EntryAction::Edit(i) => state.otp_entries[i].duplicate(),
            };
            (state.duplicate(), UiAction::ShowEntryForm(entry, action))
        },
        UiEvent::SaveEntry(entry, action) => {
            let new_state = state.save_entry(entry, action);
            (new_state, UiAction::PersistEntries)
        },
        UiEvent::RemoveEntry(i) => {
            let new_state = state.remove_entry_index(i);
            (new_state, UiAction::PersistEntries)
        },
        UiEvent::CopyToClipboard(id) => {
            let action = match state.get_otp_value_by_id(id) {
                Some(code) => UiAction::CopyText(code.clone()),
                None => UiAction::Ignore,
            };
            (state.duplicate(), action)
        },
        UiEvent::Quit => (state.duplicate(), UiAction::Exit),
    }
}

} // verus!
