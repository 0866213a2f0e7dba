//! The credential entry model: one persisted OTP source and the validation
//! rules that admit it into the entry list.
use vstd::prelude::*;

verus! {

use vstd::utf8::encode_utf8;
use crate::digits::{is_u64_text, is_u8_text, parse_u64_text, parse_u8_text, text_value};
use crate::strutil::{chars_eq, str_to_chars};

/// The three hash functions an entry may select.
#[derive(Clone, Copy, PartialEq, Eq, Structural, Debug)]
pub enum HashFn {
    Sha1,
    Sha256,
    Sha512,
}

pub const SHA1_TOKEN: [char; 4] = ['s', 'h', 'a', '1'];

pub const SHA256_TOKEN: [char; 6] = ['s', 'h', 'a', '2', '5', '6'];

pub const SHA512_TOKEN: [char; 6] = ['s', 'h', 'a', '5', '1', '2'];

/// The config/form token that selects a hash function, if any.
pub open spec fn spec_hash_fn_of_token(s: Seq<char>) -> Option<HashFn> {
    if s == SHA1_TOKEN@ {
        Some(HashFn::Sha1)
    } else if s == SHA256_TOKEN@ {
        Some(HashFn::Sha256)
    } else if s == SHA512_TOKEN@ {
        Some(HashFn::Sha512)
    } else {
        None
    }
}

/// The token that names a hash function.
pub open spec fn spec_hash_fn_token(h: HashFn) -> Seq<char> {
    match h {
        HashFn::Sha1 => SHA1_TOKEN@,
        HashFn::Sha256 => SHA256_TOKEN@,
        HashFn::Sha512 => SHA512_TOKEN@,
    }
}

/// The three tokens are pairwise distinct, so the two directions invert.
pub proof fn lemma_hash_fn_token_round_trip(h: HashFn)
    ensures
        spec_hash_fn_of_token(spec_hash_fn_token(h)) == Some(h),
{
    assert(SHA1_TOKEN@.len() == 4 && SHA256_TOKEN@.len() == 6 && SHA512_TOKEN@.len() == 6);
    assert(SHA256_TOKEN@[3] == '2' && SHA512_TOKEN@[3] == '5');
    assert(SHA256_TOKEN@ != SHA512_TOKEN@);
}

/// Map a hash-function token to its value.
pub fn hash_fn_of_token(s: &Vec<char>) -> (r: Option<HashFn>)
    ensures
        r == spec_hash_fn_of_token(s@),
{
    if chars_eq(s, &SHA1_TOKEN) {
        Some(HashFn::Sha1)
    } else if chars_eq(s, &SHA256_TOKEN) {
        Some(HashFn::Sha256)
    } else if chars_eq(s, &SHA512_TOKEN) {
        Some(HashFn::Sha512)
    } else {
        None
    }
}

/// The mathematical content of one credential entry.
pub ghost struct EntryView {
    pub name: Seq<char>,
    pub step: u64,
    pub secret_hash: Seq<char>,
    pub hash_fn: HashFn,
    pub digit_count: u8,
}

/// One persisted OTP source. `secret_hash` holds the Base32 text of the
/// shared secret (the historical field name is kept); it is not a hash.
#[derive(Debug)]
pub struct OtpEntry {
    pub name: String,
    pub step: u64,
    pub secret_hash: String,
    pub hash_fn: HashFn,
    pub digit_count: u8,
}

impl View for OtpEntry {
    type V = EntryView;

    open spec fn view(&self) -> EntryView {
        EntryView {
            name: self.name@,
            step: self.step,
            secret_hash: self.secret_hash@,
            hash_fn: self.hash_fn,
            digit_count: self.digit_count,
        }
    }
}

/// What an "Add" form starts from: the common authenticator defaults.
pub open spec fn default_entry_view() -> EntryView {
    EntryView {
        name: Seq::empty(),
        step: 30,
        secret_hash: Seq::empty(),
        hash_fn: HashFn::Sha1,
        digit_count: 6,
    }
}

impl Default for OtpEntry {
    /// The entry an "Add" form starts from: the common authenticator defaults.
    fn default() -> (r: Self)
        ensures
            r@ == default_entry_view(),
    {
        Self {
            name: String::new(),
            secret_hash: String::new(),
            hash_fn: HashFn::Sha1,
            step: 30,
            digit_count: 6,
        }
    }
}

impl OtpEntry {
    /// A field-for-field copy of the entry.
    pub fn duplicate(&self) -> (r: OtpEntry)
        ensures
            r == *self,
    {
        OtpEntry {
            name: self.name.clone(),
            step: self.step,
            secret_hash: self.secret_hash.clone(),
            hash_fn: self.hash_fn,
            digit_count: self.digit_count,
        }
    }
}

/// What a user may do with an entry form.
#[derive(Clone, Copy, PartialEq, Eq, Structural, Debug)]
pub enum EntryAction {
    Add,
    Edit(usize),
}

impl EntryAction {
    /// The title of the form window for this action.
    pub fn window_title(&self) -> (r: &'static str)
        ensures
            *self is Add ==> r@ == "Add Entry"@,
            *self is Edit ==> r@ == "Edit Entry"@,
    {
        match self {
            EntryAction::Add => "Add Entry",
            EntryAction::Edit(_) => "Edit Entry",
        }
    }
}

/// Why a form submission was rejected.
#[derive(Debug)]
pub enum ValidationError {
    Empty { field: &'static str },
    IntegerFormat { field: &'static str },
    Length { field: &'static str, upper_bound: usize, length: usize },
    InvalidSelection { field: &'static str, candidate: String },
}

/// The checks of `input_validate`, with the first failing one (in order:
/// empty name, name length, empty secret, hash-function token, step numeral,
/// digit-count numeral) deciding the outcome.
pub ghost enum ValidationOutcome {
    Accepted(EntryView),
    EmptyName,
    NameTooLong,
    EmptySecret,
    UnknownHashFn,
    BadStep,
    BadDigitCount,
}

pub open spec fn spec_validate(
    name: Seq<char>,
    step: Seq<char>,
    secret_hash: Seq<char>,
    hash_fn: Seq<char>,
    digit_count: Seq<char>,
) -> ValidationOutcome {
    if name.len() == 0 {
        ValidationOutcome::EmptyName
    } else if encode_utf8(name).len() > 255 {
        ValidationOutcome::NameTooLong
    } else if secret_hash.len() == 0 {
        ValidationOutcome::EmptySecret
    } else if spec_hash_fn_of_token(hash_fn) is None {
        ValidationOutcome::UnknownHashFn
    } else if !is_u64_text(step) {
        ValidationOutcome::BadStep
    } else if !is_u8_text(digit_count) {
        ValidationOutcome::BadDigitCount
    } else {
        ValidationOutcome::Accepted(
            EntryView {
                name: name,
                step: text_value(step) as u64,
                secret_hash: secret_hash,
                hash_fn: spec_hash_fn_of_token(hash_fn)->0,
                digit_count: text_value(digit_count) as u8,
            },
        )
    }
}

impl OtpEntry {
    /// Check raw form fields and build the entry they describe. Exactly the
    /// first violated rule is reported; the core state is untouched either way.
    pub fn input_validate(
        name: String,
        step: String,
        secret_hash: String,
        hash_fn: String,
        digit_count: String,
    ) -> (r: Result<Self, ValidationError>)
        ensures
            ({
                let outcome = spec_validate(name@, step@, secret_hash@, hash_fn@, digit_count@);
                match r {
                    Ok(e) => outcome == ValidationOutcome::Accepted(e@),
                    Err(err) => match err {
                        ValidationError::Empty { field } => (field@ == "name"@ && outcome
                            == ValidationOutcome::EmptyName) || (field@ == "secret"@ && outcome
                            == ValidationOutcome::EmptySecret),
                        ValidationError::Length { field, upper_bound, length } => field@
                            == "name"@ && outcome == ValidationOutcome::NameTooLong && upper_bound
                            == 255 && length == encode_utf8(name@).len(),
                        ValidationError::InvalidSelection { field, candidate } => field@
                            == "hash function"@ && outcome == ValidationOutcome::UnknownHashFn
                            && candidate@ == hash_fn@,
                        ValidationError::IntegerFormat { field } => (field@ == "step"@ && outcome
                            == ValidationOutcome::BadStep) || (field@ == "digit count"@ && outcome
                            == ValidationOutcome::BadDigitCount),
                    },
                }
            }),
    {
        if name.as_str().is_empty() {
            return Err(ValidationError::Empty { field: "name" });
        }
        let name_bytes = name.as_str().as_bytes().len();
        if name_bytes > 255 {
            return Err(
                ValidationError::Length { field: "name", upper_bound: 255, length: name_bytes },
            );
        }
        if secret_hash.as_str().is_empty() {
            return Err(ValidationError::Empty { field: "secret" });
        }
        let hash_fn_chars = str_to_chars(hash_fn.as_str());
        let parsed_hash_fn = match hash_fn_of_token(&hash_fn_chars) {
            Some(h) => h,
            None => {
                return Err(
                    ValidationError::InvalidSelection { field: "hash function", candidate: hash_fn },
                );
            },
        };
        let step_chars = str_to_chars(step.as_str());
        let parsed_step = match parse_u64_text(&step_chars) {
            Some(v) => v,
            None => {
                return Err(ValidationError::IntegerFormat { field: "step" });
            },
        };
        let digit_chars = str_to_chars(digit_count.as_str());
        let parsed_digits = match parse_u8_text(&digit_chars) {
            Some(v) => v,
            None => {
                return Err(ValidationError::IntegerFormat { field: "digit count" });
            },
        };
        Ok(
            OtpEntry {
                name,
                step: parsed_step,
                secret_hash,
                hash_fn: parsed_hash_fn,
                digit_count: parsed_digits,
            },
        )
    }
}

} // verus!
