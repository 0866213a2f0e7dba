use otptray::{
    AppState, EntryAction, HashFn, OtpEntry, OtpTrayConfig, UiAction, UiEvent,
};
use otptray::events::handle_event;

fn entry(name: &str, secret: &str, step: u64, digit_count: u8) -> OtpEntry {
    OtpEntry {
        name: name.to_string(),
        step,
        secret_hash: secret.to_string(),
        hash_fn: HashFn::Sha1,
        digit_count,
    }
}

fn state_with(entries: Vec<OtpEntry>) -> AppState {
    let base = AppState::default();
    let mut state = base;
    for e in entries {
        state = state.save_entry(e, EntryAction::Add);
    }
    state
}

#[test]
fn default_state_is_empty() {
    let s = AppState::default();
    assert_eq!(s.otp_entries.len(), 0);
    assert!(s.get_otp_value_by_id(0).is_none());
}

#[test]
fn save_entry_appends_and_edits() {
    let s = state_with(vec![entry("a", "MFRGG", 30, 6), entry("b", "MFRGG", 30, 6)]);
    assert_eq!(s.otp_entries.len(), 2);
    assert_eq!(s.otp_entries[0].name, "a");
    assert_eq!(s.otp_entries[1].name, "b");
    let edited = s.save_entry(entry("b2", "NBSWY3DP", 60, 8), EntryAction::Edit(1));
    assert_eq!(edited.otp_entries.len(), 2);
    assert_eq!(edited.otp_entries[0].name, "a");
    assert_eq!(edited.otp_entries[1].name, "b2");
    assert_eq!(edited.otp_entries[1].step, 60);
}

#[test]
fn remove_entry_drops_the_position() {
    let s = state_with(vec![
        entry("a", "MFRGG", 30, 6),
        entry("b", "MFRGG", 30, 6),
        entry("c", "MFRGG", 30, 6),
    ]);
    let s = s.remove_entry_index(1);
    assert_eq!(s.otp_entries.len(), 2);
    assert_eq!(s.otp_entries[0].name, "a");
    assert_eq!(s.otp_entries[1].name, "c");
}

#[test]
fn register_then_resolve_round_trips() {
    let mut s = state_with(vec![entry("a", "MFRGG", 30, 6)]);
    let id = s.add_otp_value(7, "123456".to_string());
    assert_eq!(id, 7);
    assert_eq!(s.get_otp_value_by_id(7).unwrap().as_str(), "123456");
    // A later registration under the same id silently overwrites.
    s.add_otp_value(7, "654321".to_string());
    assert_eq!(s.get_otp_value_by_id(7).unwrap().as_str(), "654321");
    // After a reset the same id resolves to nothing, entries unchanged.
    let reset = s.menu_reset();
    assert!(reset.get_otp_value_by_id(7).is_none());
    assert_eq!(reset.otp_entries.len(), 1);
    assert_eq!(reset.otp_entries[0].name, "a");
}

#[test]
fn menu_reset_empties_any_code_table() {
    let mut s = state_with(vec![entry("a", "MFRGG", 30, 6), entry("b", "MFRGG", 30, 6)]);
    for i in 0..5u64 {
        s.add_otp_value(i, format!("{:06}", i));
    }
    let reset = s.menu_reset();
    for i in 0..5u64 {
        assert!(reset.get_otp_value_by_id(i).is_none());
    }
    assert_eq!(reset.otp_entries.len(), s.otp_entries.len());
}

#[test]
fn rebuild_menu_registers_one_code_per_entry() {
    let s = state_with(vec![
        entry("a", "JBSWY3DPEHPK3PXP", 30, 6),
        entry("b", "MFRGG", 60, 8),
    ]);
    let now = 1234567890;
    let (rebuilt, lines) = s.rebuild_menu(now);
    assert_eq!(lines.len(), 2);
    assert_eq!(lines[0], format!("a: {}", s.otp_entries[0].derive_code(now)));
    assert_eq!(lines[1], format!("b: {}", s.otp_entries[1].derive_code(now)));
    assert_eq!(rebuilt.get_otp_value_by_id(0).unwrap(), &s.otp_entries[0].derive_code(now));
    assert_eq!(rebuilt.get_otp_value_by_id(1).unwrap(), &s.otp_entries[1].derive_code(now));
    assert!(rebuilt.get_otp_value_by_id(2).is_none());
}

#[test]
fn get_otp_value_at_index_contract() {
    let s = state_with(vec![entry("a", "JBSWY3DPEHPK3PXP", 30, 6)]);
    let v = s.get_otp_value_at_index(0).unwrap();
    assert_eq!(v.name, "a");
    assert_eq!(v.otp.len(), 6);
    assert!(s.get_otp_value_at_index(1).is_none());
}

#[test]
fn copy_event_resolves_registered_ids_only() {
    let mut s = state_with(vec![entry("a", "MFRGG", 30, 6)]);
    s.add_otp_value(3, "111222".to_string());
    let (after, action) = handle_event(&s, UiEvent::CopyToClipboard(3), 0);
    match action {
        UiAction::CopyText(code) => assert_eq!(code, "111222"),
        _ => panic!("a registered id must resolve to its code"),
    }
    assert_eq!(after.otp_entries.len(), 1);
    let (_, action) = handle_event(&s, UiEvent::CopyToClipboard(4), 0);
    assert!(matches!(action, UiAction::Ignore));
}

#[test]
fn quit_and_setup_events_leave_state_alone() {
    let s = state_with(vec![entry("a", "MFRGG", 30, 6)]);
    let (after, action) = handle_event(&s, UiEvent::Quit, 0);
    assert!(matches!(action, UiAction::Exit));
    assert_eq!(after.otp_entries.len(), 1);
    let (after, action) = handle_event(&s, UiEvent::OpenSetup, 0);
    assert!(matches!(action, UiAction::ShowSetup));
    assert_eq!(after.otp_entries.len(), 1);
}

#[test]
fn open_entry_offers_defaults_or_the_selected_entry() {
    let s = state_with(vec![entry("a", "MFRGG", 45, 9)]);
    let (_, action) = handle_event(&s, UiEvent::OpenEntry(EntryAction::Add), 0);
    match action {
        UiAction::ShowEntryForm(e, EntryAction::Add) => {
            assert_eq!(e.name, "");
            assert_eq!(e.step, 30);
            assert_eq!(e.digit_count, 6);
        }
        _ => panic!("an add event must open a form over the defaults"),
    }
    let (_, action) = handle_event(&s, UiEvent::OpenEntry(EntryAction::Edit(0)), 0);
    match action {
        UiAction::ShowEntryForm(e, EntryAction::Edit(0)) => {
            assert_eq!(e.name, "a");
            assert_eq!(e.step, 45);
            assert_eq!(e.digit_count, 9);
        }
        _ => panic!("an edit event must open a form over the selected entry"),
    }
}

#[test]
fn end_to_end_first_run() {
    // No config file on a first run: the state starts empty.
    let state = AppState::default();
    assert_eq!(state.otp_entries.len(), 0);

    // The user opens an Add form and submits it.
    let (state, action) = handle_event(&state, UiEvent::OpenEntry(EntryAction::Add), 0);
    assert!(matches!(action, UiAction::ShowEntryForm(_, EntryAction::Add)));
    let submitted = OtpEntry::input_validate(
        "GitHub".to_string(),
        "30".to_string(),
        "JBSWY3DPEHPK3PXP".to_string(),
        "sha1".to_string(),
        "6".to_string(),
    )
    .unwrap();
    let (state, action) = handle_event(
        &state,
        UiEvent::SaveEntry(submitted, EntryAction::Add),
        0,
    );
    assert!(matches!(action, UiAction::PersistEntries));
    assert_eq!(state.otp_entries.len(), 1);
    assert_eq!(state.otp_entries[0].name, "GitHub");

    // Persisting and loading keeps the entry.
    let text = OtpTrayConfig { entries: vec![state.otp_entries[0].duplicate()] }.to_yaml();
    let loaded = OtpTrayConfig::from_yaml(&text).unwrap();
    assert_eq!(loaded.entries.len(), 1);
    assert_eq!(loaded.entries[0].name, "GitHub");

    // The refresh after the save registers exactly one 6-digit code, equal to
    // the entry's code for the current window.
    let now = 59;
    let (state, action) = handle_event(&state, UiEvent::TotpRefresh, now);
    let lines = match action {
        UiAction::RenderMenu(lines) => lines,
        _ => panic!("a refresh must hand back the menu lines"),
    };
    assert_eq!(lines.len(), 1);
    let code = state.get_otp_value_by_id(0).unwrap();
    assert_eq!(code.len(), 6);
    assert!(code.chars().all(|c| c.is_ascii_digit()));
    assert_eq!(code, &state.otp_entries[0].derive_code(now));
    assert_eq!(lines[0], format!("GitHub: {}", code));
    assert!(state.get_otp_value_by_id(1).is_none());
}
