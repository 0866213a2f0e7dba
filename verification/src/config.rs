//! The config persistence format: a small YAML-shaped text, one mapping with
//! the key `entries` over a sequence of entry records. The emitter and the
//! parser are verified against the same grammar, and parsing what was emitted
//! gives back the entry list unchanged. Strings are written double-quoted,
//! with backslash, quote and newline escaped, so any name round-trips.
use vstd::prelude::*;

verus! {

use crate::digits::{
    all_dec_digits,
    dec_str,
    dec_value,
    is_dec_digit,
    is_u64_numeral,
    is_u8_numeral,
    lemma_dec_str_value,
    parse_u64_digits,
    parse_u8_digits,
    push_decimal,
};
use crate::entry::{
    lemma_hash_fn_token_round_trip,
    spec_hash_fn_of_token,
    spec_hash_fn_token,
    EntryView,
    HashFn,
    OtpEntry,
    SHA1_TOKEN,
    SHA256_TOKEN,
    SHA512_TOKEN,
};
use crate::state::{clone_entries, entries_view};
use crate::strutil::{chars_eq, has_prefix, push_char, push_chars, str_to_chars, strip_prefix};

/// Why a config text was rejected or could not be produced.
#[derive(Debug)]
pub enum Error {
    /// The platform offers no user configuration directory.
    NoUserConfigDir,
    /// The config text is not structurally valid.
    YAML,
    /// Reading or writing the file failed; the message says how.
    Io(String),
}

/// The persisted shape: the entry list under one `entries` key.
pub struct OtpTrayConfig {
    pub entries: Vec<OtpEntry>,
}

pub const HEADER: [char; 8] = ['e', 'n', 't', 'r', 'i', 'e', 's', ':'];

pub const EMPTY_HEADER: [char; 11] = [
    'e',
    'n',
    't',
    'r',
    'i',
    'e',
    's',
    ':',
    ' ',
    '[',
    ']',
];

pub const NAME_PREFIX: [char; 8] = ['-', ' ', 'n', 'a', 'm', 'e', ':', ' '];

pub const STEP_PREFIX: [char; 8] = [' ', ' ', 's', 't', 'e', 'p', ':', ' '];

pub const SECRET_PREFIX: [char; 15] = [
    ' ',
    ' ',
    's',
    'e',
    'c',
    'r',
    'e',
    't',
    '_',
    'h',
    'a',
    's',
    'h',
    ':',
    ' ',
];

pub const HASH_PREFIX: [char; 11] = [' ', ' ', 'h', 'a', 's', 'h', '_', 'f', 'n', ':', ' '];

pub const DIGITS_PREFIX: [char; 15] = [
    ' ',
    ' ',
    'd',
    'i',
    'g',
    'i',
    't',
    '_',
    'c',
    'o',
    'u',
    'n',
    't',
    ':',
    ' ',
];

/// How one character is written inside a quoted string.
pub open spec fn esc_char(c: char) -> Seq<char> {
    if c == '\\' {
        seq!['\\', '\\']
    } else if c == '"' {
        seq!['\\', '"']
    } else if c == '\n' {
        seq!['\\', 'n']
    } else {
        seq![c]
    }
}

/// How a whole string is written inside quotes.
pub open spec fn esc_str(s: Seq<char>) -> Seq<char>
    decreases s.len(),
{
    if s.len() == 0 {
        Seq::empty()
    } else {
        esc_char(s.first()) + esc_str(s.drop_first())
    }
}

/// A string as it stands in the config text.
pub open spec fn quoted(s: Seq<char>) -> Seq<char> {
    seq!['"'] + esc_str(s) + seq!['"']
}

pub open spec fn nl() -> Seq<char> {
    seq!['\n']
}

/// The five lines of one entry record.
pub open spec fn spec_entry_lines(e: EntryView) -> Seq<Seq<char>> {
    seq![
        NAME_PREFIX@ + quoted(e.name),
        STEP_PREFIX@ + dec_str(e.step as nat),
        SECRET_PREFIX@ + quoted(e.secret_hash),
        HASH_PREFIX@ + spec_hash_fn_token(e.hash_fn),
        DIGITS_PREFIX@ + dec_str(e.digit_count as nat),
    ]
}

/// The text of one entry record.
pub open spec fn spec_entry_yaml(e: EntryView) -> Seq<char> {
    spec_entry_lines(e)[0] + nl() + spec_entry_lines(e)[1] + nl() + spec_entry_lines(e)[2] + nl()
        + spec_entry_lines(e)[3] + nl() + spec_entry_lines(e)[4] + nl()
}

pub open spec fn spec_entries_yaml(es: Seq<EntryView>) -> Seq<char>
    decreases es.len(),
{
    if es.len() == 0 {
        Seq::empty()
    } else {
        spec_entry_yaml(es.first()) + spec_entries_yaml(es.drop_first())
    }
}

/// The whole config text for an entry list.
pub open spec fn spec_config_yaml(es: Seq<EntryView>) -> Seq<char> {
    if es.len() == 0 {
        EMPTY_HEADER@ + nl()
    } else {
        HEADER@ + nl() + spec_entries_yaml(es)
    }
}

/// No newline stands in a sequence.
pub open spec fn no_nl(s: Seq<char>) -> bool {
    forall|i: int| 0 <= i < s.len() ==> s[i] != '\n'
}

pub proof fn lemma_esc_str_no_nl(s: Seq<char>)
    ensures
        no_nl(esc_str(s)),
    decreases s.len(),
{
    if s.len() > 0 {
        lemma_esc_str_no_nl(s.drop_first());
        let head = esc_char(s.first());
        assert(no_nl(head));
        assert forall|i: int| 0 <= i < esc_str(s).len() implies esc_str(s)[i] != '\n' by {
            if i < head.len() {
                assert(esc_str(s)[i] == head[i]);
            } else {
                assert(esc_str(s)[i] == esc_str(s.drop_first())[i - head.len()]);
            }
        }
    }
}

pub proof fn lemma_quoted_no_nl(s: Seq<char>)
    ensures
        no_nl(quoted(s)),
{
    lemma_esc_str_no_nl(s);
}

pub proof fn lemma_digits_no_nl(s: Seq<char>)
    requires
        all_dec_digits(s),
    ensures
        no_nl(s),
{
    assert forall|i: int| 0 <= i < s.len() implies s[i] != '\n' by {
        assert(is_dec_digit(s[i]));
        assert('\n' as u32 == 10);
    }
}

/// Splitting a text into lines, with `cur` the partial line already read.
/// A final line needs no terminating newline; a trailing newline adds none.
pub open spec fn spec_lines_pre(cur: Seq<char>, s: Seq<char>) -> Seq<Seq<char>>
    decreases s.len(),
{
    if s.len() == 0 {
        if cur.len() == 0 {
            Seq::empty()
        } else {
            seq![cur]
        }
    } else if s.first() == '\n' {
        seq![cur] + spec_lines_pre(Seq::empty(), s.drop_first())
    } else {
        spec_lines_pre(cur.push(s.first()), s.drop_first())
    }
}

/// The lines of a text.
pub open spec fn spec_lines(s: Seq<char>) -> Seq<Seq<char>> {
    spec_lines_pre(Seq::empty(), s)
}

/// A newline-free piece followed by a newline contributes exactly one line.
pub proof fn lemma_lines_pre_line(cur: Seq<char>, x: Seq<char>, rest: Seq<char>)
    requires
        no_nl(x),
    ensures
        spec_lines_pre(cur, x + nl() + rest) == seq![cur + x] + spec_lines(rest),
    decreases x.len(),
{
    let s = x + nl() + rest;
    if x.len() == 0 {
        assert(s =~= nl() + rest);
        assert(s.first() == '\n');
        assert(s.drop_first() =~= rest);
        assert(cur + x =~= cur);
    } else {
        assert(s.first() == x.first());
        assert(s.first() != '\n');
        assert(s.drop_first() =~= x.drop_first() + nl() + rest);
        lemma_lines_pre_line(cur.push(x.first()), x.drop_first(), rest);
        assert(cur.push(x.first()) + x.drop_first() =~= cur + x);
    }
}

/// Escaping works character by character from either end.
pub proof fn lemma_esc_str_snoc(s: Seq<char>, c: char)
    ensures
        esc_str(s.push(c)) == esc_str(s) + esc_char(c),
    decreases s.len(),
{
    if s.len() == 0 {
        assert(s.push(c).first() == c);
        assert(s.push(c).drop_first() =~= Seq::<char>::empty());
        assert(esc_str(s.push(c)) =~= esc_char(c) + esc_str(Seq::<char>::empty()));
        assert(esc_char(c) + Seq::<char>::empty() =~= esc_char(c));
        assert(esc_str(s) + esc_char(c) =~= esc_char(c));
    } else {
        assert(s.push(c).first() == s.first());
        assert(s.push(c).drop_first() =~= s.drop_first().push(c));
        lemma_esc_str_snoc(s.drop_first(), c);
        assert(esc_char(s.first()) + (esc_str(s.drop_first()) + esc_char(c)) =~= (esc_char(
            s.first(),
        ) + esc_str(s.drop_first())) + esc_char(c));
    }
}

/// Append a string in its quoted, escaped form.
fn push_quoted(out: &mut String, s: &String)
    ensures
        final(out)@ == old(out)@ + quoted(s@),
{
    push_char(out, '"');
    let cs = str_to_chars(s.as_str());
    let n = cs.len();
    let mut i: usize = 0;
    while i < n
        invariant
            n == cs@.len(),
            cs@ == s@,
            i <= n,
            out@ == old(out)@ + seq!['"'] + esc_str(s@.subrange(0, i as int)),
        decreases n - i,
    {
        let c = cs[i];
        proof {
            lemma_esc_str_snoc(s@.subrange(0, i as int), c);
            assert(s@.subrange(0, i + 1) == s@.subrange(0, i as int).push(s@[i as int]));
        }
        if c == '\\' {
            push_char(out, '\\');
            push_char(out, '\\');
        } else if c == '"' {
            push_char(out, '\\');
            push_char(out, '"');
        } else if c == '\n' {
            push_char(out, '\\');
            push_char(out, 'n');
        } else {
            push_char(out, c);
        }
        assert(out@ =~= old(out)@ + seq!['"'] + esc_str(s@.subrange(0, i + 1)));
        i = i + 1;
    }
    assert(s@.subrange(0, n as int) == s@);
    push_char(out, '"');
    assert(out@ =~= old(out)@ + quoted(s@));
}

/// Append the token of a hash function.
fn push_hash_token(out: &mut String, h: HashFn)
    ensures
        final(out)@ == old(out)@ + spec_hash_fn_token(h),
{
    match h {
        HashFn::Sha1 => push_chars(out, &SHA1_TOKEN),
        HashFn::Sha256 => push_chars(out, &SHA256_TOKEN),
        HashFn::Sha512 => push_chars(out, &SHA512_TOKEN),
    }
}

/// Append the five lines of one entry record.
fn push_entry_yaml(out: &mut String, e: &OtpEntry)
    ensures
        final(out)@ == old(out)@ + spec_entry_yaml(e@),
{
    push_chars(out, &NAME_PREFIX);
    push_quoted(out, &e.name);
    push_char(out, '\n');
    push_chars(out, &STEP_PREFIX);
    push_decimal(out, e.step);
    push_char(out, '\n');
    push_chars(out, &SECRET_PREFIX);
    push_quoted(out, &e.secret_hash);
    push_char(out, '\n');
    push_chars(out, &HASH_PREFIX);
    push_hash_token(out, e.hash_fn);
    push_char(out, '\n');
    push_chars(out, &DIGITS_PREFIX);
    push_decimal(out, e.digit_count as u64);
    push_char(out, '\n');
    assert(final(out)@ =~= old(out)@ + spec_entry_yaml(e@));
}

/// The record texts grow list by list.
pub proof fn lemma_entries_yaml_snoc(es: Seq<EntryView>, e: EntryView)
    ensures
        spec_entries_yaml(es.push(e)) == spec_entries_yaml(es) + spec_entry_yaml(e),
    decreases es.len(),
{
    if es.len() == 0 {
        assert(es.push(e).first() == e);
        assert(es.push(e).drop_first() =~= Seq::<EntryView>::empty());
        assert(spec_entries_yaml(es.push(e)) =~= spec_entry_yaml(e) + spec_entries_yaml(
            Seq::<EntryView>::empty(),
        ));
        assert(spec_entry_yaml(e) + Seq::<char>::empty() =~= spec_entry_yaml(e));
        assert(spec_entries_yaml(es) + spec_entry_yaml(e) =~= spec_entry_yaml(e));
    } else {
        assert(es.push(e).first() == es.first());
        assert(es.push(e).drop_first() =~= es.drop_first().push(e));
        lemma_entries_yaml_snoc(es.drop_first(), e);
        assert(spec_entry_yaml(es.first()) + (spec_entries_yaml(es.drop_first())
            + spec_entry_yaml(e)) =~= (spec_entry_yaml(es.first()) + spec_entries_yaml(
            es.drop_first(),
        )) + spec_entry_yaml(e));
    }
}

impl OtpTrayConfig {
    /// Write the entry list as the config text. Feeding the result back to
    /// `from_yaml` returns the same entries (see `lemma_config_round_trip`).
    pub fn to_yaml(&self) -> (r: String)
        ensures
            r@ == spec_config_yaml(entries_view(self.entries@)),
    {
        let mut out = String::new();
        if self.entries.len() == 0 {
            push_chars(&mut out, &EMPTY_HEADER);
            push_char(&mut out, '\n');
            assert(out@ =~= spec_config_yaml(entries_view(self.entries@)));
            return out;
        }
        push_chars(&mut out, &HEADER);
        push_char(&mut out, '\n');
        let n = self.entries.len();
        let mut i: usize = 0;
        while i < n
            invariant
                n == self.entries@.len(),
                0 < n,
                i <= n,
                out@ == HEADER@ + nl() + spec_entries_yaml(
                    entries_view(self.entries@.subrange(0, i as int)),
                ),
            decreases n - i,
        {
            push_entry_yaml(&mut out, &self.entries[i]);
            proof {
                let prefix = entries_view(self.entries@.subrange(0, i as int));
                lemma_entries_yaml_snoc(prefix, self.entries@[i as int]@);
                assert(entries_view(self.entries@.subrange(0, i + 1)) =~= prefix.push(
                    self.entries@[i as int]@,
                ));
            }
            i = i + 1;
        }
        assert(self.entries@.subrange(0, n as int) == self.entries@);
        assert(entries_view(self.entries@).len() == n);
        out
    }
}

/// Undo the escaping inside a quoted region. `None` for a lone backslash, an
/// unknown escape, or a bare quote or newline.
pub open spec fn spec_unesc(s: Seq<char>) -> Option<Seq<char>>
    decreases s.len(),
{
    if s.len() == 0 {
        Some(Seq::empty())
    } else if s.first() == '\\' {
        if s.len() < 2 {
            None
        } else {
            let d = if s[1] == '\\' {
                Some('\\')
            } else if s[1] == '"' {
                Some('"')
            } else if s[1] == 'n' {
                Some('\n')
            } else {
                None
            };
            match (d, spec_unesc(s.skip(2))) {
                (Some(c), Some(rest)) => Some(seq![c] + rest),
                _ => None,
            }
        }
    } else if s.first() == '"' || s.first() == '\n' {
        None
    } else {
        match spec_unesc(s.drop_first()) {
            Some(rest) => Some(seq![s.first()] + rest),
            None => None,
        }
    }
}

/// Read a quoted string field back.
pub open spec fn spec_unquote(s: Seq<char>) -> Option<Seq<char>> {
    if s.len() >= 2 && s.first() == '"' && s.last() == '"' {
        spec_unesc(s.subrange(1, s.len() - 1))
    } else {
        None
    }
}

/// Unescaping inverts escaping.
pub proof fn lemma_unesc_esc(s: Seq<char>)
    ensures
        spec_unesc(esc_str(s)) == Some(s),
    decreases s.len(),
{
    if s.len() == 0 {
        assert(spec_unesc(esc_str(s)) =~= Some(Seq::<char>::empty()));
    } else {
        let c = s.first();
        let head = esc_char(c);
        let tail = esc_str(s.drop_first());
        let whole = esc_str(s);
        assert(whole == head + tail);
        lemma_unesc_esc(s.drop_first());
        if c == '\\' || c == '"' || c == '\n' {
            assert(head.len() == 2 && head[0] == '\\');
            assert(whole.first() == '\\');
            assert(whole.len() >= 2 && whole[1] == head[1]);
            assert(whole.skip(2) =~= tail);
            assert(spec_unesc(whole) == Some(seq![c] + s.drop_first()));
        } else {
            assert(head =~= seq![c]);
            assert(whole.first() == c);
            assert(whole.drop_first() =~= tail);
            assert(spec_unesc(whole) == Some(seq![c] + s.drop_first()));
        }
        assert(seq![c] + s.drop_first() =~= s);
    }
}

/// Unquoting inverts quoting.
pub proof fn lemma_unquote_quoted(s: Seq<char>)
    ensures
        spec_unquote(quoted(s)) == Some(s),
{
    let q = quoted(s);
    assert(q.len() == esc_str(s).len() + 2);
    assert(q.first() == '"');
    assert(q.last() == '"');
    assert(q.subrange(1, q.len() - 1) =~= esc_str(s));
    lemma_unesc_esc(s);
}

/// One entry record, read from its five lines; `None` when a prefix or a
/// field does not parse.
pub open spec fn spec_parse_entry(
    l0: Seq<char>,
    l1: Seq<char>,
    l2: Seq<char>,
    l3: Seq<char>,
    l4: Seq<char>,
) -> Option<EntryView> {
    if has_prefix(l0, NAME_PREFIX@) && has_prefix(l1, STEP_PREFIX@) && has_prefix(
        l2,
        SECRET_PREFIX@,
    ) && has_prefix(l3, HASH_PREFIX@) && has_prefix(l4, DIGITS_PREFIX@) {
        let name_q = spec_unquote(l0.skip(NAME_PREFIX@.len() as int));
        let step_t = l1.skip(STEP_PREFIX@.len() as int);
        let secret_q = spec_unquote(l2.skip(SECRET_PREFIX@.len() as int));
        let hash_t = spec_hash_fn_of_token(l3.skip(HASH_PREFIX@.len() as int));
        let digit_t = l4.skip(DIGITS_PREFIX@.len() as int);
        if name_q is Some && is_u64_numeral(step_t) && secret_q is Some && hash_t is Some
            && is_u8_numeral(digit_t) {
            Some(
                EntryView {
                    name: name_q->0,
                    step: dec_value(step_t) as u64,
                    secret_hash: secret_q->0,
                    hash_fn: hash_t->0,
                    digit_count: dec_value(digit_t) as u8,
                },
            )
        } else {
            None
        }
    } else {
        None
    }
}

/// The records of a line list taken five lines at a time; a record that does
/// not parse is dropped rather than failing the file.
pub open spec fn spec_parse_groups(ls: Seq<Seq<char>>) -> Seq<EntryView>
    decreases ls.len(),
{
    if ls.len() < 5 {
        Seq::empty()
    } else {
        let rest = spec_parse_groups(ls.skip(5));
        match spec_parse_entry(ls[0], ls[1], ls[2], ls[3], ls[4]) {
            Some(e) => seq![e] + rest,
            None => rest,
        }
    }
}

/// The entry list of a config text, or `None` for a structurally invalid one:
/// no header line, or a body that is not whole five-line records.
pub open spec fn spec_parse_config(s: Seq<char>) -> Option<Seq<EntryView>> {
    let ls = spec_lines(s);
    if ls.len() == 0 {
        None
    } else if ls[0] == EMPTY_HEADER@ {
        if ls.len() == 1 {
            Some(Seq::empty())
        } else {
            None
        }
    } else if ls[0] == HEADER@ {
        if (ls.len() - 1) % 5 == 0 {
            Some(spec_parse_groups(ls.skip(1)))
        } else {
            None
        }
    } else {
        None
    }
}

/// The views of a vector of line vectors.
pub open spec fn lines_view(ls: Seq<Vec<char>>) -> Seq<Seq<char>> {
    ls.map_values(|l: Vec<char>| l@)
}

/// Split a text into its lines.
fn split_lines(v: &Vec<char>) -> (r: Vec<Vec<char>>)
    ensures
        lines_view(r@) == spec_lines(v@),
{
    let mut acc: Vec<Vec<char>> = Vec::new();
    let mut cur: Vec<char> = Vec::new();
    let n = v.len();
    let mut i: usize = 0;
    assert(v@.skip(0) == v@);
    while i < n
        invariant
            n == v@.len(),
            i <= n,
            spec_lines(v@) == lines_view(acc@) + spec_lines_pre(cur@, v@.skip(i as int)),
        decreases n - i,
    {
        let c = v[i];
        proof {
            assert(v@.skip(i as int).first() == v@[i as int]);
            assert(v@.skip(i as int).drop_first() =~= v@.skip(i + 1));
        }
        if c == '\n' {
            let done = cur;
            cur = Vec::new();
            acc.push(done);
            proof {
                assert(lines_view(acc@) =~= lines_view(acc@.drop_last()) + seq![done@]);
                assert(lines_view(acc@.drop_last()) + (seq![done@] + spec_lines_pre(
                    Seq::<char>::empty(),
                    v@.skip(i + 1),
                )) =~= lines_view(acc@) + spec_lines_pre(Seq::<char>::empty(), v@.skip(i + 1)));
            }
        } else {
            cur.push(c);
        }
        i = i + 1;
    }
    assert(v@.skip(n as int) =~= Seq::<char>::empty());
    if cur.len() > 0 {
        let done = cur;
        acc.push(done);
        proof {
            assert(lines_view(acc@) =~= lines_view(acc@.drop_last()) + seq![done@]);
        }
    }
    assert(lines_view(acc@) =~= spec_lines(v@));
    acc
}

/// Read a quoted string field.
fn parse_quoted(s: &Vec<char>) -> (r: Option<String>)
    ensures
        match r {
            Some(out) => spec_unquote(s@) == Some(out@),
            None => spec_unquote(s@) is None,
        },
{
    let n = s.len();
    if n < 2 {
        return None;
    }
    if s[0] != '"' || s[n - 1] != '"' {
        return None;
    }
    let ghost inner = s@.subrange(1, n - 1);
    let mut out = String::new();
    let mut i: usize = 1;
    while i < n - 1
        invariant
            n == s@.len(),
            2 <= n,
            1 <= i <= n - 1,
            inner == s@.subrange(1, n - 1),
            spec_unesc(inner) == match spec_unesc(s@.subrange(i as int, n - 1)) {
                Some(t) => Some(out@ + t),
                None => None::<Seq<char>>,
            },
        decreases n - 1 - i,
    {
        let c = s[i];
        let ghost rest = s@.subrange(i as int, n - 1);
        proof {
            assert(rest.first() == s@[i as int]);
        }
        if c == '\\' {
            if i + 1 >= n - 1 {
                assert(rest.len() < 2);
                return None;
            }
            let d = s[i + 1];
            proof {
                assert(rest[1] == s@[i + 1]);
                assert(rest.skip(2) =~= s@.subrange(i + 2, n - 1));
            }
            if d == '\\' {
                push_char(&mut out, '\\');
            } else if d == '"' {
                push_char(&mut out, '"');
            } else if d == 'n' {
                push_char(&mut out, '\n');
            } else {
                return None;
            }
            proof {
                assert forall|t: Seq<char>|
                    spec_unesc(s@.subrange(i + 2, n - 1)) == Some(t) implies out@ + t =~= (
                out@.drop_last() + (seq![out@.last()] + t)) by {}
            }
            i = i + 2;
        } else if c == '"' || c == '\n' {
            return None;
        } else {
            push_char(&mut out, c);
            proof {
                assert(rest.drop_first() =~= s@.subrange(i + 1, n - 1));
                assert forall|t: Seq<char>|
                    spec_unesc(s@.subrange(i + 1, n - 1)) == Some(t) implies out@ + t =~= (
                out@.drop_last() + (seq![c] + t)) by {}
            }
            i = i + 1;
        }
    }
    proof {
        assert(s@.subrange(i as int, n - 1) =~= Seq::<char>::empty());
        assert(out@ + Seq::<char>::empty() =~= out@);
    }
    Some(out)
}

/// Read one entry record from its five lines.
fn parse_entry_lines(
    l0: &Vec<char>,
    l1: &Vec<char>,
    l2: &Vec<char>,
    l3: &Vec<char>,
    l4: &Vec<char>,
) -> (r: Option<OtpEntry>)
    ensures
        match r {
            Some(e) => spec_parse_entry(l0@, l1@, l2@, l3@, l4@) == Some(e@),
            None => spec_parse_entry(l0@, l1@, l2@, l3@, l4@) is None,
        },
{
    let name_rest = match strip_prefix(l0, &NAME_PREFIX) {
        Some(rest) => rest,
        None => {
            return None;
        },
    };
    let step_rest = match strip_prefix(l1, &STEP_PREFIX) {
        Some(rest) => rest,
        None => {
            return None;
        },
    };
    let secret_rest = match strip_prefix(l2, &SECRET_PREFIX) {
        Some(rest) => rest,
        None => {
            return None;
        },
    };
    let hash_rest = match strip_prefix(l3, &HASH_PREFIX) {
        Some(rest) => rest,
        None => {
            return None;
        },
    };
    let digits_rest = match strip_prefix(l4, &DIGITS_PREFIX) {
        Some(rest) => rest,
        None => {
            return None;
        },
    };
    let name = match parse_quoted(&name_rest) {
        Some(s) => s,
        None => {
            return None;
        },
    };
    let step = match parse_u64_digits(step_rest.as_slice()) {
        Some(v) => v,
        None => {
            return None;
        },
    };
    let secret_hash = match parse_quoted(&secret_rest) {
        Some(s) => s,
        None => {
            return None;
        },
    };
    let hash_fn = match crate::entry::hash_fn_of_token(&hash_rest) {
        Some(h) => h,
        None => {
            return None;
        },
    };
    let digit_count = match parse_u8_digits(digits_rest.as_slice()) {
        Some(v) => v,
        None => {
            return None;
        },
    };
    Some(OtpEntry { name, step, secret_hash, hash_fn, digit_count })
}

impl OtpTrayConfig {
    /// Read a config text. A file that does not have the header-and-records
    /// shape is structurally invalid; a record whose own fields do not parse
    /// is dropped, and the rest of the file still loads.
    pub fn from_yaml(text: &str) -> (r: Result<OtpTrayConfig, Error>)
        ensures
            match r {
                Ok(cfg) => spec_parse_config(text@) == Some(entries_view(cfg.entries@)),
                Err(e) => spec_parse_config(text@) is None && e is YAML,
            },
    {
        let chars = str_to_chars(text);
        let lines = split_lines(&chars);
        let ghost ls = spec_lines(text@);
        assert(ls == lines_view(lines@));
        if lines.len() == 0 {
            return Err(Error::YAML);
        }
        assert(ls[0] == lines@[0]@);
        if chars_eq(&lines[0], &EMPTY_HEADER) {
            if lines.len() == 1 {
                assert(entries_view(Seq::<OtpEntry>::empty()) =~= Seq::<EntryView>::empty());
                return Ok(OtpTrayConfig { entries: Vec::new() });
            } else {
                return Err(Error::YAML);
            }
        }
        if !chars_eq(&lines[0], &HEADER) {
            return Err(Error::YAML);
        }
        if (lines.len() - 1) % 5 != 0 {
            return Err(Error::YAML);
        }
        let mut entries: Vec<OtpEntry> = Vec::new();
        let n = lines.len();
        let mut i: usize = 1;
        assert(ls.skip(1) =~= lines_view(lines@).skip(1));
        while i < n
            invariant
                n == lines@.len(),
                1 <= i <= n,
                (n - i) % 5 == 0,
                ls == lines_view(lines@),
                spec_parse_groups(ls.skip(1)) == entries_view(entries@) + spec_parse_groups(
                    ls.skip(i as int),
                ),
            decreases n - i,
        {
            assert(ls.skip(i as int).len() == n - i >= 5);
            proof {
                assert(ls.skip(i as int)[0] == lines@[i as int]@);
                assert(ls.skip(i as int)[1] == lines@[i + 1]@);
                assert(ls.skip(i as int)[2] == lines@[i + 2]@);
                assert(ls.skip(i as int)[3] == lines@[i + 3]@);
                assert(ls.skip(i as int)[4] == lines@[i + 4]@);
                assert(ls.skip(i as int).skip(5) =~= ls.skip(i + 5));
            }
            match parse_entry_lines(
                &lines[i],
                &lines[i + 1],
                &lines[i + 2],
                &lines[i + 3],
                &lines[i + 4],
            ) {
                Some(e) => {
                    let ghost old_entries = entries@;
                    entries.push(e);
                    proof {
                        assert(entries_view(entries@) =~= entries_view(old_entries) + seq![e@]);
                        assert(entries_view(old_entries) + (seq![e@] + spec_parse_groups(
                            ls.skip(i + 5),
                        )) =~= (entries_view(old_entries) + seq![e@]) + spec_parse_groups(
                            ls.skip(i + 5),
                        ));
                    }
                },
                None => {
                },
            }
            i = i + 5;
        }
        assert(ls.skip(n as int) =~= Seq::<Seq<char>>::empty());
        assert(entries_view(entries@) + Seq::<EntryView>::empty() =~= entries_view(entries@));
        Ok(OtpTrayConfig { entries })
    }
}

pub proof fn lemma_no_nl_concat(a: Seq<char>, b: Seq<char>)
    requires
        no_nl(a),
        no_nl(b),
    ensures
        no_nl(a + b),
{
    assert forall|i: int| 0 <= i < (a + b).len() implies (a + b)[i] != '\n' by {
        if i < a.len() {
            assert((a + b)[i] == a[i]);
        } else {
            assert((a + b)[i] == b[i - a.len()]);
        }
    }
}

/// None of the five lines of a record holds a newline.
pub proof fn lemma_entry_lines_no_nl(e: EntryView)
    ensures
        forall|i: int|
            0 <= i < spec_entry_lines(e).len() ==> no_nl(#[trigger] spec_entry_lines(e)[i]),
{
    lemma_quoted_no_nl(e.name);
    lemma_quoted_no_nl(e.secret_hash);
    lemma_dec_str_value(e.step as nat);
    lemma_digits_no_nl(dec_str(e.step as nat));
    lemma_dec_str_value(e.digit_count as nat);
    lemma_digits_no_nl(dec_str(e.digit_count as nat));
    assert(no_nl(NAME_PREFIX@));
    assert(no_nl(STEP_PREFIX@));
    assert(no_nl(SECRET_PREFIX@));
    assert(no_nl(HASH_PREFIX@));
    assert(no_nl(DIGITS_PREFIX@));
    assert(no_nl(spec_hash_fn_token(e.hash_fn))) by {
        assert(no_nl(SHA1_TOKEN@));
        assert(no_nl(SHA256_TOKEN@));
        assert(no_nl(SHA512_TOKEN@));
    }
    lemma_no_nl_concat(NAME_PREFIX@, quoted(e.name));
    lemma_no_nl_concat(STEP_PREFIX@, dec_str(e.step as nat));
    lemma_no_nl_concat(SECRET_PREFIX@, quoted(e.secret_hash));
    lemma_no_nl_concat(HASH_PREFIX@, spec_hash_fn_token(e.hash_fn));
    lemma_no_nl_concat(DIGITS_PREFIX@, dec_str(e.digit_count as nat));
}

/// The lines that the records of an entry list occupy.
pub open spec fn spec_lines_of_entries(es: Seq<EntryView>) -> Seq<Seq<char>>
    decreases es.len(),
{
    if es.len() == 0 {
        Seq::empty()
    } else {
        spec_entry_lines(es.first()) + spec_lines_of_entries(es.drop_first())
    }
}

/// One record contributes exactly its five lines to the line split.
pub proof fn lemma_lines_of_entry(e: EntryView, rest: Seq<char>)
    ensures
        spec_lines(spec_entry_yaml(e) + rest) == spec_entry_lines(e) + spec_lines(rest),
{
    let l = spec_entry_lines(e);
    lemma_entry_lines_no_nl(e);
    let r4 = l[4] + nl() + rest;
    let r3 = l[3] + nl() + r4;
    let r2 = l[2] + nl() + r3;
    let r1 = l[1] + nl() + r2;
    let r0 = l[0] + nl() + r1;
    assert(spec_entry_yaml(e) + rest =~= r0);
    lemma_lines_pre_line(Seq::empty(), l[0], r1);
    lemma_lines_pre_line(Seq::empty(), l[1], r2);
    lemma_lines_pre_line(Seq::empty(), l[2], r3);
    lemma_lines_pre_line(Seq::empty(), l[3], r4);
    lemma_lines_pre_line(Seq::empty(), l[4], rest);
    assert(Seq::empty() + l[0] =~= l[0]);
    assert(Seq::empty() + l[1] =~= l[1]);
    assert(Seq::empty() + l[2] =~= l[2]);
    assert(Seq::empty() + l[3] =~= l[3]);
    assert(Seq::empty() + l[4] =~= l[4]);
    assert(seq![l[0]] + (seq![l[1]] + (seq![l[2]] + (seq![l[3]] + (seq![l[4]] + spec_lines(
        rest,
    ))))) =~= l + spec_lines(rest));
}

/// The record texts split into exactly the record lines.
pub proof fn lemma_lines_of_entries(es: Seq<EntryView>)
    ensures
        spec_lines(spec_entries_yaml(es)) == spec_lines_of_entries(es),
    decreases es.len(),
{
    if es.len() == 0 {
        assert(spec_lines(spec_entries_yaml(es)) =~= Seq::<Seq<char>>::empty());
    } else {
        lemma_lines_of_entries(es.drop_first());
        lemma_lines_of_entry(es.first(), spec_entries_yaml(es.drop_first()));
    }
}

pub proof fn lemma_lines_of_entries_len(es: Seq<EntryView>)
    ensures
        spec_lines_of_entries(es).len() == 5 * es.len(),
    decreases es.len(),
{
    if es.len() > 0 {
        lemma_lines_of_entries_len(es.drop_first());
    }
}

/// Parsing the five emitted lines of a record gives the record back.
pub proof fn lemma_entry_round_trip(e: EntryView)
    ensures
        spec_parse_entry(
            spec_entry_lines(e)[0],
            spec_entry_lines(e)[1],
            spec_entry_lines(e)[2],
            spec_entry_lines(e)[3],
            spec_entry_lines(e)[4],
        ) == Some(e),
{
    let l = spec_entry_lines(e);
    assert(l[0].subrange(0, NAME_PREFIX@.len() as int) =~= NAME_PREFIX@);
    assert(l[0].skip(NAME_PREFIX@.len() as int) =~= quoted(e.name));
    assert(l[1].subrange(0, STEP_PREFIX@.len() as int) =~= STEP_PREFIX@);
    assert(l[1].skip(STEP_PREFIX@.len() as int) =~= dec_str(e.step as nat));
    assert(l[2].subrange(0, SECRET_PREFIX@.len() as int) =~= SECRET_PREFIX@);
    assert(l[2].skip(SECRET_PREFIX@.len() as int) =~= quoted(e.secret_hash));
    assert(l[3].subrange(0, HASH_PREFIX@.len() as int) =~= HASH_PREFIX@);
    assert(l[3].skip(HASH_PREFIX@.len() as int) =~= spec_hash_fn_token(e.hash_fn));
    assert(l[4].subrange(0, DIGITS_PREFIX@.len() as int) =~= DIGITS_PREFIX@);
    assert(l[4].skip(DIGITS_PREFIX@.len() as int) =~= dec_str(e.digit_count as nat));
    lemma_unquote_quoted(e.name);
    lemma_unquote_quoted(e.secret_hash);
    lemma_dec_str_value(e.step as nat);
    lemma_dec_str_value(e.digit_count as nat);
    lemma_hash_fn_token_round_trip(e.hash_fn);
}

/// Parsing the emitted record lines gives the entry list back.
pub proof fn lemma_groups_round_trip(es: Seq<EntryView>)
    ensures
        spec_parse_groups(spec_lines_of_entries(es)) == es,
    decreases es.len(),
{
    let ls = spec_lines_of_entries(es);
    if es.len() == 0 {
        assert(ls.len() == 0);
        assert(spec_parse_groups(ls) =~= es);
    } else {
        let head = spec_entry_lines(es.first());
        let tail = spec_lines_of_entries(es.drop_first());
        lemma_lines_of_entries_len(es.drop_first());
        assert(ls.len() == 5 + tail.len());
        assert(ls[0] == head[0] && ls[1] == head[1] && ls[2] == head[2] && ls[3] == head[3] && ls[4]
            == head[4]);
        assert(ls.skip(5) =~= tail);
        lemma_entry_round_trip(es.first());
        lemma_groups_round_trip(es.drop_first());
        assert(seq![es.first()] + es.drop_first() =~= es);
    }
}

/// Loading what was saved yields the same entry list, for every entry list:
/// the parser inverts the emitter.
pub proof fn lemma_config_round_trip(es: Seq<EntryView>)
    ensures
        spec_parse_config(spec_config_yaml(es)) == Some(es),
{
    if es.len() == 0 {
        assert(no_nl(EMPTY_HEADER@));
        lemma_lines_pre_line(Seq::empty(), EMPTY_HEADER@, Seq::empty());
        assert(EMPTY_HEADER@ + nl() + Seq::<char>::empty() =~= spec_config_yaml(es));
        assert(Seq::empty() + EMPTY_HEADER@ =~= EMPTY_HEADER@);
        assert(spec_lines(spec_config_yaml(es)) == seq![EMPTY_HEADER@] + spec_lines(
            Seq::<char>::empty(),
        ));
        assert(spec_lines(Seq::<char>::empty()) =~= Seq::<Seq<char>>::empty());
        assert(spec_lines(spec_config_yaml(es)) =~= seq![EMPTY_HEADER@]);
    } else {
        assert(no_nl(HEADER@));
        lemma_lines_pre_line(Seq::empty(), HEADER@, spec_entries_yaml(es));
        assert(HEADER@ + nl() + spec_entries_yaml(es) =~= spec_config_yaml(es));
        assert(Seq::empty() + HEADER@ =~= HEADER@);
        lemma_lines_of_entries(es);
        let ls = spec_lines(spec_config_yaml(es));
        assert(ls == seq![HEADER@] + spec_lines_of_entries(es));
        lemma_lines_of_entries_len(es);
        assert(ls.len() == 1 + 5 * es.len());
        assert(ls[0] == HEADER@);
        assert(HEADER@.len() == 8 && EMPTY_HEADER@.len() == 11);
        assert(ls[0] != EMPTY_HEADER@);
        assert((ls.len() - 1) % 5 == 0) by {
            assert(ls.len() - 1 == 5 * es.len());
            assert((5 * es.len()) % 5 == 0) by (nonlinear_arith);
        }
        assert(ls.skip(1) =~= spec_lines_of_entries(es));
        lemma_groups_round_trip(es);
    }
}

} // verus!
