//! Core of a menu-bar one-time-password utility: credential entries and their
//! validation, RFC 6238 style code derivation, the immutable application
//! state with its ephemeral id-to-code table, the UI event protocol, and the
//! textual config format.
pub mod config;
pub mod digits;
pub mod entry;
pub mod events;
pub mod state;
pub mod strutil;
pub mod totp;

pub use config::Error;
pub use config::OtpTrayConfig;
pub use entry::EntryAction;
pub use entry::EntryView;
pub use entry::HashFn;
pub use entry::OtpEntry;
pub use entry::ValidationError;
pub use events::ActivationPolicy;
pub use events::UiAction;
pub use events::UiEvent;
pub use state::AppState;
pub use totp::OtpValue;
