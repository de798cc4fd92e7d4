//! The configuration language.
//!
//! A configuration is a run of server blocks, each padded by optional
//! whitespace:
//!
//! ```text
//! server {
//!     servername example.com;
//!     port 8080;
//!     proxy_pass 127.0.0.1:9000;
//! }
//! ```
//!
//! The three fields stand in this order. Keyword and value are separated by
//! at least one whitespace character; the value is a word and is closed by a
//! semicolon that follows it directly. The port is written in decimal digits
//! and fits in sixteen bits.
//!
//! Reading stops without an error at the first text, after optional
//! whitespace, that does not begin with the keyword `server`; the result
//! says how far the reader came, so that a caller can refuse an unread tail.
//! Text that begins with `server` is a block: if it cannot be read as one,
//! the whole configuration is refused.

use crate::chars::{digit, is_digit, CharClass};
use crate::scan::{
    after_literal, all_in, has_literal_at, lemma_run_end, lemma_run_end_unique, run_end, scan,
    string_of, to_chars,
};
use vstd::prelude::*;
use vstd::slice::slice_subrange;

verus! {

/// One virtual host: the name that requests ask for and the upstream that
/// serves it.
#[derive(Clone, Debug, PartialEq, Eq)]
pub struct ServerEntry {
    /// Matched against the host that a request names.
    pub name: String,
    /// Declared port; it opens no listener.
    pub port: u16,
    /// Address that requests for `name` are forwarded to.
    pub upstream: String,
}

/// A [`ServerEntry`] as plain values.
pub struct EntryView {
    pub name: Seq<char>,
    pub port: u16,
    pub upstream: Seq<char>,
}

impl View for ServerEntry {
    type V = EntryView;

    open spec fn view(&self) -> EntryView {
        EntryView { name: self.name@, port: self.port, upstream: self.upstream@ }
    }
}

/// A word: one or more word characters.
pub open spec fn is_word(s: Seq<char>) -> bool {
    s.len() > 0 && all_in(s, CharClass::Word)
}

impl EntryView {
    /// Name and upstream are words.
    pub open spec fn well_formed(self) -> bool {
        is_word(self.name) && is_word(self.upstream)
    }
}

/// Tests whether `s` is a word.
pub fn word(s: &str) -> (b: bool)
    ensures
        b == is_word(s@),
{
    let chars = to_chars(s);
    let end = scan(chars.as_slice(), 0, CharClass::Word);
    proof {
        let whole = chars@.subrange(0, chars@.len() as int);
        assert(whole =~= chars@);
        lemma_run_end(chars@, 0, CharClass::Word);
        if all_in(chars@, CharClass::Word) {
            lemma_run_end_unique(chars@, 0, chars@.len() as int, CharClass::Word);
        }
    }
    chars.len() > 0 && end == chars.len()
}

impl ServerEntry {
    /// Makes the entry with these values, if `name` and `upstream` are
    /// words.
    pub fn new(name: &str, port: u16, upstream: &str) -> (entry: Option<ServerEntry>)
        ensures
            match entry {
                Some(e) => {
                    &&& e@ == EntryView { name: name@, port, upstream: upstream@ }
                    &&& e@.well_formed()
                },
                None => !is_word(name@) || !is_word(upstream@),
            },
    {
        if word(name) && word(upstream) {
            Some(ServerEntry { name: name.to_owned(), port, upstream: upstream.to_owned() })
        } else {
            None
        }
    }
}

/// The views of a sequence of entries, in the same order.
pub open spec fn views_of(entries: Seq<ServerEntry>) -> Seq<EntryView> {
    entries.map_values(|e: ServerEntry| e@)
}

/// The fixed pieces of text of the language.
#[derive(Clone, Copy, Debug, PartialEq, Eq, Structural)]
pub enum Symbol {
    Server,
    OpenBrace,
    ServerName,
    Port,
    ProxyPass,
    Semicolon,
    CloseBrace,
}

impl Symbol {
    /// How the symbol is written.
    pub open spec fn text(self) -> Seq<char> {
        match self {
            Symbol::Server => "server"@,
            Symbol::OpenBrace => "{"@,
            Symbol::ServerName => "servername"@,
            Symbol::Port => "port"@,
            Symbol::ProxyPass => "proxy_pass"@,
            Symbol::Semicolon => ";"@,
            Symbol::CloseBrace => "}"@,
        }
    }

    /// How the symbol is written.
    pub fn as_str(self) -> (s: &'static str)
        ensures
            s@ == self.text(),
    {
        match self {
            Symbol::Server => "server",
            Symbol::OpenBrace => "{",
            Symbol::ServerName => "servername",
            Symbol::Port => "port",
            Symbol::ProxyPass => "proxy_pass",
            Symbol::Semicolon => ";",
            Symbol::CloseBrace => "}",
        }
    }
}

/// What the reader looked for where it gave up.
#[derive(Clone, Copy, Debug, PartialEq, Eq, Structural)]
pub enum Expected {
    /// A keyword or a punctuation mark.
    Symbol(Symbol),
    /// Whitespace between a keyword and its value.
    Separator,
    /// A word.
    Word,
    /// A decimal number from 0 to 65535.
    PortNumber,
}

/// Why a configuration was refused: the position, counted in characters from
/// the start of the text, and what should have stood there.
#[derive(Clone, Copy, Debug, PartialEq, Eq, Structural)]
pub struct ParseError {
    pub position: usize,
    pub expected: Expected,
}

/// A [`ParseError`] with a mathematical position.
pub struct Failure {
    pub position: int,
    pub expected: Expected,
}

impl View for ParseError {
    type V = Failure;

    open spec fn view(&self) -> Failure {
        Failure { position: self.position as int, expected: self.expected }
    }
}

/// The number that a string of decimal digits denotes.
pub open spec fn decimal_value(s: Seq<char>) -> int
    decreases s.len(),
{
    if s.len() == 0 {
        0
    } else {
        decimal_value(s.drop_last()) * 10 + (s.last() as int - '0' as int)
    }
}

/// Whether `s` holds decimal digits only.
pub open spec fn all_digits(s: Seq<char>) -> bool {
    forall|k: int| 0 <= k < s.len() ==> is_digit(#[trigger] s[k])
}

/// The port that `s` denotes: `s` is one or more decimal digits, leading
/// zeros allowed, and their value is at most 65535.
pub open spec fn port_value(s: Seq<char>) -> Option<u16> {
    if s.len() > 0 && all_digits(s) && decimal_value(s) <= 0xffff {
        Some(decimal_value(s) as u16)
    } else {
        None
    }
}

/// The position behind the symbol `sym` that stands at `i`, and behind the
/// whitespace that follows it.
pub open spec fn past(s: Seq<char>, i: int, sym: Symbol) -> int {
    run_end(s, i + sym.text().len(), CharClass::Space)
}

/// A field at position `i`: the keyword `key`, whitespace, a word and a
/// semicolon. Gives the positions where the word starts and where it ends,
/// and the position behind the semicolon and the whitespace after it.
pub open spec fn field_at(s: Seq<char>, i: int, key: Symbol) -> Result<(int, int, int), Failure> {
    let sep = i + key.text().len();
    let start = run_end(s, sep, CharClass::Space);
    let end = run_end(s, start, CharClass::Word);
    if !has_literal_at(s, i, key.text()) {
        Err(Failure { position: i, expected: Expected::Symbol(key) })
    } else if start == sep {
        Err(Failure { position: sep, expected: Expected::Separator })
    } else if end == start {
        Err(Failure { position: start, expected: Expected::Word })
    } else if !has_literal_at(s, end, Symbol::Semicolon.text()) {
        Err(Failure { position: end, expected: Expected::Symbol(Symbol::Semicolon) })
    } else {
        Ok((start, end, past(s, end, Symbol::Semicolon)))
    }
}

/// The three fields of a block, the first of them at position `i`. Gives the
/// entry and the position behind the last field and the whitespace after it.
pub open spec fn fields_at(s: Seq<char>, i: int) -> Result<(EntryView, int), Failure> {
    match field_at(s, i, Symbol::ServerName) {
        Err(e) => Err(e),
        Ok((name_start, name_end, second)) => match field_at(s, second, Symbol::Port) {
            Err(e) => Err(e),
            Ok((port_start, port_end, third)) => match port_value(
                s.subrange(port_start, port_end),
            ) {
                None => Err(Failure { position: port_start, expected: Expected::PortNumber }),
                Some(port) => match field_at(s, third, Symbol::ProxyPass) {
                    Err(e) => Err(e),
                    Ok((up_start, up_end, close)) => Ok(
                        (
                            EntryView {
                                name: s.subrange(name_start, name_end),
                                port,
                                upstream: s.subrange(up_start, up_end),
                            },
                            close,
                        ),
                    ),
                },
            },
        },
    }
}

/// A server block at position `i`: `server`, `{`, the three fields and `}`,
/// with optional whitespace between them. Gives the entry and the position
/// behind the closing brace.
pub open spec fn server_at(s: Seq<char>, i: int) -> Result<(EntryView, int), Failure> {
    let open = past(s, i, Symbol::Server);
    if !has_literal_at(s, i, Symbol::Server.text()) {
        Err(Failure { position: i, expected: Expected::Symbol(Symbol::Server) })
    } else if !has_literal_at(s, open, Symbol::OpenBrace.text()) {
        Err(Failure { position: open, expected: Expected::Symbol(Symbol::OpenBrace) })
    } else {
        match fields_at(s, past(s, open, Symbol::OpenBrace)) {
            Err(e) => Err(e),
            Ok((entry, close)) => if !has_literal_at(s, close, Symbol::CloseBrace.text()) {
                Err(Failure { position: close, expected: Expected::Symbol(Symbol::CloseBrace) })
            } else {
                Ok((entry, close + Symbol::CloseBrace.text().len()))
            },
        }
    }
}

/// Puts `first` in front of the entries of a result.
pub open spec fn prepend(
    first: Seq<EntryView>,
    rest: Result<(Seq<EntryView>, int), Failure>,
) -> Result<(Seq<EntryView>, int), Failure> {
    match rest {
        Ok((entries, stop)) => Ok((first + entries, stop)),
        Err(e) => Err(e),
    }
}

/// The blocks from position `i` on. Gives their entries in the order of the
/// text and the position where reading stopped: behind the last block and
/// the whitespace after it.
pub open spec fn config_from(s: Seq<char>, i: int) -> Result<(Seq<EntryView>, int), Failure>
    decreases s.len() - i,
    via config_from_terminates
{
    let at = run_end(s, i, CharClass::Space);
    if has_literal_at(s, at, Symbol::Server.text()) {
        match server_at(s, at) {
            Err(e) => Err(e),
            Ok((entry, end)) => prepend(seq![entry], config_from(s, end)),
        }
    } else {
        Ok((Seq::empty(), at))
    }
}

#[via_fn]
proof fn config_from_terminates(s: Seq<char>, i: int) {
    let at = run_end(s, i, CharClass::Space);
    if 0 <= i <= s.len() {
        lemma_run_end(s, i, CharClass::Space);
    }
    if server_at(s, at) is Ok {
        lemma_server_at_bounds(s, at);
    }
}

/// What a whole configuration text means.
pub open spec fn config_of(s: Seq<char>) -> Result<(Seq<EntryView>, int), Failure> {
    config_from(s, 0)
}

/// Every symbol is written with at least one character, and none begins with
/// whitespace. The punctuation marks are one character each, and that is no
/// word character.
pub proof fn lemma_symbol_text(sym: Symbol)
    ensures
        sym.text().len() > 0,
        !CharClass::Space.has(sym.text()[0]),
        sym == Symbol::Semicolon || sym == Symbol::OpenBrace || sym == Symbol::CloseBrace
            ==> sym.text().len() == 1 && !CharClass::Word.has(sym.text()[0]),
{
    reveal_strlit("server");
    reveal_strlit("{");
    reveal_strlit("servername");
    reveal_strlit("port");
    reveal_strlit("proxy_pass");
    reveal_strlit(";");
    reveal_strlit("}");
}

/// A field that was read lies within the text, and its value is a word.
pub proof fn lemma_field_at_bounds(s: Seq<char>, i: int, key: Symbol)
    requires
        field_at(s, i, key) is Ok,
    ensures
        0 <= i < field_at(s, i, key)->Ok_0.0 < field_at(s, i, key)->Ok_0.1 < field_at(
            s,
            i,
            key,
        )->Ok_0.2 <= s.len(),
        is_word(s.subrange(field_at(s, i, key)->Ok_0.0, field_at(s, i, key)->Ok_0.1)),
{
    lemma_symbol_text(key);
    lemma_symbol_text(Symbol::Semicolon);
    let sep = i + key.text().len();
    lemma_run_end(s, sep, CharClass::Space);
    let start = run_end(s, sep, CharClass::Space);
    lemma_run_end(s, start, CharClass::Word);
    let end = run_end(s, start, CharClass::Word);
    lemma_run_end(s, end + Symbol::Semicolon.text().len(), CharClass::Space);
}

/// A block that was read is not empty and lies within the text, and its
/// entry is well formed.
pub proof fn lemma_server_at_bounds(s: Seq<char>, i: int)
    requires
        server_at(s, i) is Ok,
    ensures
        0 <= i < server_at(s, i)->Ok_0.1 <= s.len(),
        server_at(s, i)->Ok_0.0.well_formed(),
{
    lemma_symbol_text(Symbol::Server);
    lemma_symbol_text(Symbol::OpenBrace);
    lemma_symbol_text(Symbol::CloseBrace);
    lemma_run_end(s, i + Symbol::Server.text().len(), CharClass::Space);
    let open = past(s, i, Symbol::Server);
    lemma_run_end(s, open + Symbol::OpenBrace.text().len(), CharClass::Space);
    let first = past(s, open, Symbol::OpenBrace);
    lemma_field_at_bounds(s, first, Symbol::ServerName);
    let second = field_at(s, first, Symbol::ServerName)->Ok_0.2;
    lemma_field_at_bounds(s, second, Symbol::Port);
    let third = field_at(s, second, Symbol::Port)->Ok_0.2;
    lemma_field_at_bounds(s, third, Symbol::ProxyPass);
}

/// A string of digits denotes no negative number.
pub proof fn lemma_decimal_value_nonnegative(s: Seq<char>)
    requires
        all_digits(s),
    ensures
        0 <= decimal_value(s),
    decreases s.len(),
{
    if s.len() > 0 {
        assert(is_digit(s[s.len() - 1]));
        assert forall|k: int| 0 <= k < s.drop_last().len() implies is_digit(
            #[trigger] s.drop_last()[k],
        ) by {
            assert(s.drop_last()[k] == s[k]);
        }
        lemma_decimal_value_nonnegative(s.drop_last());
    }
}

/// A string of digits denotes at least what each of its beginnings denotes.
pub proof fn lemma_decimal_value_prefix(s: Seq<char>, k: int)
    requires
        all_digits(s),
        0 <= k <= s.len(),
    ensures
        0 <= decimal_value(s.take(k)) <= decimal_value(s),
    decreases s.len() - k,
{
    assert forall|j: int| 0 <= j < s.take(k).len() implies is_digit(#[trigger] s.take(k)[j]) by {
        assert(s.take(k)[j] == s[j]);
    }
    lemma_decimal_value_nonnegative(s.take(k));
    if k < s.len() {
        lemma_decimal_value_prefix(s, k + 1);
        assert(s.take(k + 1).drop_last() =~= s.take(k));
        assert(is_digit(s[k]));
        assert(s.take(k + 1).last() == s[k]);
    } else {
        assert(s.take(k) =~= s);
    }
}

/// Reads the port that `word` denotes.
pub fn parse_port(word: &[char]) -> (port: Option<u16>)
    ensures
        port == port_value(word@),
{
    if word.len() == 0 {
        return None;
    }
    let mut value: u32 = 0;
    let mut pos: usize = 0;
    while pos < word.len()
        invariant
            pos <= word.len(),
            all_digits(word@.take(pos as int)),
            value == decimal_value(word@.take(pos as int)),
            value <= 0xffff,
        decreases word.len() - pos,
    {
        let c = word[pos];
        if !digit(c) {
            return None;
        }
        let d: u32 = c as u32 - '0' as u32;
        proof {
            let longer = word@.take(pos + 1);
            assert(longer.drop_last() =~= word@.take(pos as int));
            assert(longer.last() == c);
            assert forall|k: int| 0 <= k < longer.len() implies is_digit(#[trigger] longer[k]) by {
                if k < pos {
                    assert(word@.take(pos as int)[k] == longer[k]);
                }
            }
        }
        value = value * 10 + d;
        if value > 0xffff {
            proof {
                if all_digits(word@) {
                    lemma_decimal_value_prefix(word@, pos + 1);
                }
            }
            return None;
        }
        pos = pos + 1;
    }
    assert(word@.take(pos as int) =~= word@);
    Some(value as u16)
}

/// Reads a word at `start` and returns where it ends.
pub fn parse_word(text: &[char], start: usize) -> (r: Result<usize, ParseError>)
    ensures
        match r {
            Ok(end) => {
                &&& start < end <= text.len()
                &&& end == run_end(text@, start as int, CharClass::Word)
                &&& is_word(text@.subrange(start as int, end as int))
            },
            Err(e) => {
                &&& run_end(text@, start as int, CharClass::Word) == start
                &&& e@ == Failure { position: start as int, expected: Expected::Word }
            },
        },
{
    let end = scan(text, start, CharClass::Word);
    if end == start {
        Err(ParseError { position: start, expected: Expected::Word })
    } else {
        proof {
            lemma_run_end(text@, start as int, CharClass::Word);
        }
        Ok(end)
    }
}

/// Reads the field with the keyword `key` at `pos`. Returns where its word
/// starts and ends and where the next token is due.
pub fn parse_field(text: &[char], pos: usize, key: Symbol) -> (r: Result<
    (usize, usize, usize),
    ParseError,
>)
    ensures
        match r {
            Ok((start, end, next)) => {
                &&& field_at(text@, pos as int, key) == Ok::<(int, int, int), Failure>(
                    (start as int, end as int, next as int),
                )
                &&& start < end < next <= text.len()
            },
            Err(e) => field_at(text@, pos as int, key) == Err::<(int, int, int), Failure>(e@),
        },
{
    let sep = match after_literal(text, pos, key.as_str()) {
        Some(sep) => sep,
        None => {
            return Err(ParseError { position: pos, expected: Expected::Symbol(key) });
        },
    };
    let start = scan(text, sep, CharClass::Space);
    if start == sep {
        return Err(ParseError { position: sep, expected: Expected::Separator });
    }
    let end = match parse_word(text, start) {
        Ok(end) => end,
        Err(e) => {
            return Err(e);
        },
    };
    match after_literal(text, end, Symbol::Semicolon.as_str()) {
        Some(behind) => {
            let next = scan(text, behind, CharClass::Space);
            proof {
                lemma_symbol_text(Symbol::Semicolon);
            }
            Ok((start, end, next))
        },
        None => Err(ParseError { position: end, expected: Expected::Symbol(Symbol::Semicolon) }),
    }
}

/// Reads the server block that begins at `start`. Returns its entry and the
/// position behind its closing brace.
pub fn parse_server(text: &[char], start: usize) -> (r: Result<(ServerEntry, usize), ParseError>)
    ensures
        match r {
            Ok((entry, end)) => {
                &&& server_at(text@, start as int) == Ok::<(EntryView, int), Failure>(
                    (entry@, end as int),
                )
                &&& start < end <= text.len()
                &&& entry@.well_formed()
            },
            Err(e) => server_at(text@, start as int) == Err::<(EntryView, int), Failure>(e@),
        },
{
    let behind = match after_literal(text, start, Symbol::Server.as_str()) {
        Some(behind) => behind,
        None => {
            return Err(
                ParseError { position: start, expected: Expected::Symbol(Symbol::Server) },
            );
        },
    };
    let open = scan(text, behind, CharClass::Space);
    let behind = match after_literal(text, open, Symbol::OpenBrace.as_str()) {
        Some(behind) => behind,
        None => {
            return Err(
                ParseError { position: open, expected: Expected::Symbol(Symbol::OpenBrace) },
            );
        },
    };
    let first = scan(text, behind, CharClass::Space);
    let (name_start, name_end, second) = match parse_field(text, first, Symbol::ServerName) {
        Ok(field) => field,
        Err(e) => {
            return Err(e);
        },
    };
    let (port_start, port_end, third) = match parse_field(text, second, Symbol::Port) {
        Ok(field) => field,
        Err(e) => {
            return Err(e);
        },
    };
    let port = match parse_port(slice_subrange(text, port_start, port_end)) {
        Some(port) => port,
        None => {
            return Err(ParseError { position: port_start, expected: Expected::PortNumber });
        },
    };
    let (up_start, up_end, close) = match parse_field(text, third, Symbol::ProxyPass) {
        Ok(field) => field,
        Err(e) => {
            return Err(e);
        },
    };
    let end = match after_literal(text, close, Symbol::CloseBrace.as_str()) {
        Some(end) => end,
        None => {
            return Err(
                ParseError { position: close, expected: Expected::Symbol(Symbol::CloseBrace) },
            );
        },
    };
    let entry = ServerEntry {
        name: string_of(slice_subrange(text, name_start, name_end)),
        port,
        upstream: string_of(slice_subrange(text, up_start, up_end)),
    };
    proof {
        lemma_server_at_bounds(text@, start as int);
    }
    Ok((entry, end))
}

/// Whether every entry of `entries` is well formed.
pub open spec fn all_entries_well_formed(entries: Seq<EntryView>) -> bool {
    forall|k: int| 0 <= k < entries.len() ==> (#[trigger] entries[k]).well_formed()
}

/// Reads the blocks of a text that is held as characters. See
/// [`parse_config`].
pub fn parse_blocks(text: &[char]) -> (r: Result<(Vec<ServerEntry>, usize), ParseError>)
    ensures
        match r {
            Ok((entries, stop)) => {
                &&& config_of(text@) == Ok::<(Seq<EntryView>, int), Failure>(
                    (views_of(entries@), stop as int),
                )
                &&& stop <= text.len()
                &&& all_entries_well_formed(views_of(entries@))
            },
            Err(e) => config_of(text@) == Err::<(Seq<EntryView>, int), Failure>(e@),
        },
{
    let mut entries: Vec<ServerEntry> = Vec::new();
    let mut pos: usize = 0;
    proof {
        match config_from(text@, 0) {
            Ok((rest, _)) => {
                assert(views_of(entries@) + rest =~= rest);
            },
            Err(_) => {},
        }
    }
    loop
        invariant
            pos <= text.len(),
            config_of(text@) == prepend(views_of(entries@), config_from(text@, pos as int)),
            all_entries_well_formed(views_of(entries@)),
        decreases text.len() - pos,
    {
        let at = scan(text, pos, CharClass::Space);
        if after_literal(text, at, Symbol::Server.as_str()).is_none() {
            assert(views_of(entries@) + Seq::<EntryView>::empty() =~= views_of(entries@));
            return Ok((entries, at));
        }
        match parse_server(text, at) {
            Err(e) => {
                return Err(e);
            },
            Ok((entry, end)) => {
                proof {
                    let before = views_of(entries@);
                    assert(views_of(entries@.push(entry)) =~= before.push(entry@));
                    match config_from(text@, end as int) {
                        Ok((rest, _)) => {
                            assert(before + (seq![entry@] + rest) =~= before.push(entry@) + rest);
                        },
                        Err(_) => {},
                    }
                }
                entries.push(entry);
                pos = end;
            },
        }
    }
}

/// Reads a configuration text.
///
/// On success the result holds one entry for each block, in the order of the
/// text, and the number of characters that were read: the blocks and the
/// whitespace around them. Reading ends where something else than a block
/// begins, which is no error. A block that begins and cannot be read through
/// is one: then nothing is returned but the place and the token that was
/// missed there.
pub fn parse_config(input: &str) -> (r: Result<(Vec<ServerEntry>, usize), ParseError>)
    ensures
        match r {
            Ok((entries, stop)) => {
                &&& config_of(input@) == Ok::<(Seq<EntryView>, int), Failure>(
                    (views_of(entries@), stop as int),
                )
                &&& stop <= input@.len()
                &&& all_entries_well_formed(views_of(entries@))
            },
            Err(e) => config_of(input@) == Err::<(Seq<EntryView>, int), Failure>(e@),
        },
{
    let chars = to_chars(input);
    parse_blocks(chars.as_slice())
}

} // verus!
