//! How well-formed configurations are written, and that the reader reads
//! them back.
//!
//! A [`BlockLayout`] says how one server block is spelled: its three values
//! and the whitespace between its tokens. The laws at the end of this file
//! state what the reader makes of a text that is written from such layouts.

use crate::chars::{is_space, lemma_classes_disjoint, CharClass};
use crate::config::{
    config_from, config_of, field_at, is_word, lemma_field_at_bounds,
    lemma_server_at_bounds, lemma_symbol_text, past, port_value, prepend, server_at, EntryView,
    Failure, Symbol,
};
use crate::scan::{all_in, has_literal_at, lemma_run_end, lemma_run_end_unique, run_end};
use vstd::prelude::*;

verus! {

/// How one field is spelled behind its keyword.
pub struct FieldLayout {
    /// The whitespace between the keyword and the value.
    pub sep: Seq<char>,
    /// The value.
    pub word: Seq<char>,
    /// The whitespace behind the semicolon.
    pub after: Seq<char>,
}

impl FieldLayout {
    /// The separator is not empty, the value is a word, and the gaps hold
    /// whitespace only.
    pub open spec fn well_formed(self) -> bool {
        &&& self.sep.len() > 0
        &&& all_in(self.sep, CharClass::Space)
        &&& is_word(self.word)
        &&& all_in(self.after, CharClass::Space)
    }

    /// The field as text, with the keyword `key`.
    pub open spec fn text(self, key: Symbol) -> Seq<char> {
        key.text() + self.sep + self.word + Symbol::Semicolon.text() + self.after
    }
}

/// How one server block is spelled.
pub struct BlockLayout {
    /// The whitespace between `server` and the opening brace.
    pub after_server: Seq<char>,
    /// The whitespace behind the opening brace.
    pub after_open: Seq<char>,
    pub name: FieldLayout,
    pub port: FieldLayout,
    pub upstream: FieldLayout,
    /// The whitespace behind the closing brace.
    pub after_close: Seq<char>,
}

impl BlockLayout {
    /// The fields are well formed, the port is a number that fits, and the
    /// gaps hold whitespace only.
    pub open spec fn well_formed(self) -> bool {
        &&& all_in(self.after_server, CharClass::Space)
        &&& all_in(self.after_open, CharClass::Space)
        &&& self.name.well_formed()
        &&& self.port.well_formed()
        &&& self.upstream.well_formed()
        &&& port_value(self.port.word) is Some
        &&& all_in(self.after_close, CharClass::Space)
    }

    /// From `server` to the first keyword.
    pub open spec fn head(self) -> Seq<char> {
        Symbol::Server.text() + self.after_server + Symbol::OpenBrace.text() + self.after_open
    }

    /// The three fields.
    pub open spec fn body(self) -> Seq<char> {
        self.name.text(Symbol::ServerName) + self.port.text(Symbol::Port) + self.upstream.text(
            Symbol::ProxyPass,
        )
    }

    /// The block from `server` to the closing brace.
    pub open spec fn braced(self) -> Seq<char> {
        self.head() + self.body() + Symbol::CloseBrace.text()
    }

    /// The block and the whitespace behind it.
    pub open spec fn text(self) -> Seq<char> {
        self.braced() + self.after_close
    }

    /// The entry that the block defines.
    pub open spec fn entry(self) -> EntryView {
        EntryView {
            name: self.name.word,
            port: port_value(self.port.word)->0,
            upstream: self.upstream.word,
        }
    }
}

/// Whether every block of `blocks` is well formed.
pub open spec fn all_well_formed(blocks: Seq<BlockLayout>) -> bool {
    forall|k: int| 0 <= k < blocks.len() ==> (#[trigger] blocks[k]).well_formed()
}

/// The blocks as text, one behind the other.
pub open spec fn blocks_text(blocks: Seq<BlockLayout>) -> Seq<char>
    decreases blocks.len(),
{
    if blocks.len() == 0 {
        Seq::empty()
    } else {
        blocks[0].text() + blocks_text(blocks.drop_first())
    }
}

/// The entries that the blocks define, in the same order.
pub open spec fn entries_of(blocks: Seq<BlockLayout>) -> Seq<EntryView> {
    blocks.map_values(|b: BlockLayout| b.entry())
}

/// A text stands at the position behind what precedes it.
pub proof fn lemma_literal_between(a: Seq<char>, lit: Seq<char>, b: Seq<char>)
    ensures
        has_literal_at(a + lit + b, a.len() as int, lit),
{
    assert((a + lit + b).subrange(a.len() as int, (a.len() + lit.len()) as int) =~= lit);
}

/// Where a text stands, each of its parts stands too.
pub proof fn lemma_piece(
    s: Seq<char>,
    i: int,
    whole: Seq<char>,
    a: Seq<char>,
    part: Seq<char>,
    b: Seq<char>,
)
    requires
        has_literal_at(s, i, whole),
        whole =~= a + part + b,
    ensures
        has_literal_at(s, i + a.len(), part),
        part.len() > 0 ==> i + a.len() < s.len() && s[i + a.len()] == part[0],
{
    let at = i + a.len();
    assert forall|k: int| 0 <= k < part.len() implies s.subrange(at, at + part.len())[k]
        == part[k] by {
        assert(s.subrange(i, i + whole.len())[a.len() + k] == whole[a.len() + k]);
    }
    assert(s.subrange(at, at + part.len()) =~= part);
    if part.len() > 0 {
        assert(s.subrange(at, at + part.len())[0] == part[0]);
    }
}

/// A run that stands in the text, and is followed by no further character
/// of its class, is run over in one go.
pub proof fn lemma_run_over(s: Seq<char>, i: int, run: Seq<char>, class: CharClass)
    requires
        has_literal_at(s, i, run),
        all_in(run, class),
        i + run.len() < s.len() ==> !class.has(s[i + run.len()]),
    ensures
        run_end(s, i, class) == i + run.len(),
{
    lemma_run_end_unique(s, i, i + run.len(), class);
}

/// A well-formed field that stands in the text, with no whitespace behind
/// it, is read as written.
pub proof fn lemma_field_over(s: Seq<char>, i: int, f: FieldLayout, key: Symbol)
    requires
        f.well_formed(),
        has_literal_at(s, i, f.text(key)),
        i + f.text(key).len() < s.len() ==> !is_space(s[i + f.text(key).len()]),
    ensures
        field_at(s, i, key) == Ok::<(int, int, int), Failure>(
            (
                i + key.text().len() + f.sep.len(),
                i + key.text().len() + f.sep.len() + f.word.len(),
                i + f.text(key).len(),
            ),
        ),
        s.subrange(
            i + key.text().len() + f.sep.len(),
            i + key.text().len() + f.sep.len() + f.word.len(),
        ) == f.word,
{
    let whole = f.text(key);
    let kw = key.text();
    let semi = Symbol::Semicolon.text();
    let none = Seq::<char>::empty();
    lemma_symbol_text(key);
    lemma_symbol_text(Symbol::Semicolon);
    let sep_at = i + kw.len();
    let word_at = sep_at + f.sep.len();
    let semi_at = word_at + f.word.len();
    let after_at = semi_at + semi.len();
    lemma_piece(s, i, whole, none, kw, f.sep + f.word + semi + f.after);
    lemma_piece(s, i, whole, kw, f.sep, f.word + semi + f.after);
    lemma_piece(s, i, whole, kw + f.sep, f.word, semi + f.after);
    lemma_piece(s, i, whole, kw + f.sep + f.word, semi, f.after);
    lemma_piece(s, i, whole, kw + f.sep + f.word + semi, f.after, none);
    assert(CharClass::Word.has(f.word[0]));
    lemma_classes_disjoint(f.word[0]);
    lemma_run_over(s, sep_at, f.sep, CharClass::Space);
    lemma_run_over(s, word_at, f.word, CharClass::Word);
    lemma_run_over(s, after_at, f.after, CharClass::Space);
}

/// A well-formed block that stands in the text is read as written,
/// whatever follows its closing brace.
pub proof fn lemma_block_over(s: Seq<char>, i: int, b: BlockLayout)
    requires
        b.well_formed(),
        has_literal_at(s, i, b.braced()),
    ensures
        server_at(s, i) == Ok::<(EntryView, int), Failure>((b.entry(), i + b.braced().len())),
{
    let none = Seq::<char>::empty();
    let srv = Symbol::Server.text();
    let open = Symbol::OpenBrace.text();
    let close = Symbol::CloseBrace.text();
    let f1 = b.name.text(Symbol::ServerName);
    let f2 = b.port.text(Symbol::Port);
    let f3 = b.upstream.text(Symbol::ProxyPass);
    lemma_symbol_text(Symbol::Server);
    lemma_symbol_text(Symbol::OpenBrace);
    lemma_symbol_text(Symbol::CloseBrace);
    lemma_symbol_text(Symbol::ServerName);
    lemma_symbol_text(Symbol::Port);
    lemma_symbol_text(Symbol::ProxyPass);
    assert(f1[0] == Symbol::ServerName.text()[0]);
    assert(f2[0] == Symbol::Port.text()[0]);
    assert(f3[0] == Symbol::ProxyPass.text()[0]);

    // The three parts of the block.
    let h = i;
    let d = h + b.head().len();
    let c = d + b.body().len();
    lemma_piece(s, i, b.braced(), none, b.head(), b.body() + close);
    lemma_piece(s, i, b.braced(), b.head(), b.body(), close);
    lemma_piece(s, i, b.braced(), b.head() + b.body(), close, none);

    // The tokens of the head.
    let h1 = h + srv.len();
    let h2 = h1 + b.after_server.len();
    let h3 = h2 + open.len();
    lemma_piece(s, h, b.head(), none, srv, b.after_server + open + b.after_open);
    lemma_piece(s, h, b.head(), srv, b.after_server, open + b.after_open);
    lemma_piece(s, h, b.head(), srv + b.after_server, open, b.after_open);
    lemma_piece(s, h, b.head(), srv + b.after_server + open, b.after_open, none);

    // The fields of the body.
    let d2 = d + f1.len();
    let d3 = d2 + f2.len();
    lemma_piece(s, d, b.body(), none, f1, f2 + f3);
    lemma_piece(s, d, b.body(), f1, f2, f3);
    lemma_piece(s, d, b.body(), f1 + f2, f3, none);

    lemma_run_over(s, h1, b.after_server, CharClass::Space);
    lemma_run_over(s, h3, b.after_open, CharClass::Space);
    lemma_field_over(s, d, b.name, Symbol::ServerName);
    lemma_field_over(s, d2, b.port, Symbol::Port);
    lemma_field_over(s, d3, b.upstream, Symbol::ProxyPass);
}

/// Well-formed blocks that stand in the text behind whitespace are read one
/// after the other; what follows them is read as if reading began there.
pub proof fn lemma_blocks_over(s: Seq<char>, i: int, gap: Seq<char>, blocks: Seq<BlockLayout>)
    requires
        all_in(gap, CharClass::Space),
        all_well_formed(blocks),
        has_literal_at(s, i, gap + blocks_text(blocks)),
        i + gap.len() + blocks_text(blocks).len() < s.len() ==> !is_space(
            s[i + gap.len() + blocks_text(blocks).len()],
        ),
    ensures
        config_from(s, i) == prepend(
            entries_of(blocks),
            config_from(s, i + gap.len() + blocks_text(blocks).len()),
        ),
    decreases blocks.len(),
{
    let none = Seq::<char>::empty();
    let whole = gap + blocks_text(blocks);
    let at = i + gap.len();
    let end = at + blocks_text(blocks).len();
    lemma_piece(s, i, whole, none, gap, blocks_text(blocks));
    if blocks.len() == 0 {
        lemma_run_over(s, i, gap, CharClass::Space);
        assert(run_end(s, end, CharClass::Space) == end);
        match config_from(s, end) {
            Ok((rest, _)) => {
                assert(entries_of(blocks) + rest =~= rest);
            },
            Err(_) => {},
        }
    } else {
        let b = blocks[0];
        let rest = blocks.drop_first();
        assert(b.well_formed());
        assert forall|k: int| 0 <= k < rest.len() implies (#[trigger] rest[k]).well_formed() by {
            assert(rest[k] == blocks[k + 1]);
        }
        lemma_symbol_text(Symbol::Server);
        assert(b.braced()[0] == Symbol::Server.text()[0]);
        let behind = b.after_close + blocks_text(rest);
        lemma_piece(s, i, whole, gap, b.braced(), behind);
        lemma_piece(s, i, whole, gap + b.braced(), behind, none);
        lemma_run_over(s, i, gap, CharClass::Space);
        lemma_block_over(s, at, b);
        let next = at + b.braced().len();
        lemma_blocks_over(s, next, b.after_close, rest);
        assert(entries_of(blocks) =~= seq![b.entry()] + entries_of(rest));
        match config_from(s, end) {
            Ok((more, _)) => {
                assert(seq![b.entry()] + (entries_of(rest) + more) =~= entries_of(blocks) + more);
            },
            Err(_) => {},
        }
    }
}

/// At the end of a text there is nothing left to read.
pub proof fn lemma_nothing_at_end(s: Seq<char>)
    ensures
        config_from(s, s.len() as int) == Ok::<(Seq<EntryView>, int), Failure>(
            (Seq::empty(), s.len() as int),
        ),
{
    lemma_symbol_text(Symbol::Server);
    assert(run_end(s, s.len() as int, CharClass::Space) == s.len());
}

/// A text that is written from well-formed blocks, with optional whitespace
/// before the first, is read through to its end, and gives one entry for
/// each block, in the order of the text, with the values as they are
/// written.
pub proof fn lemma_written_blocks_are_read(lead: Seq<char>, blocks: Seq<BlockLayout>)
    requires
        all_in(lead, CharClass::Space),
        all_well_formed(blocks),
    ensures
        config_of(lead + blocks_text(blocks)) == Ok::<(Seq<EntryView>, int), Failure>(
            (entries_of(blocks), (lead + blocks_text(blocks)).len() as int),
        ),
        entries_of(blocks).len() == blocks.len(),
        forall|k: int|
            0 <= k < blocks.len() ==> {
                &&& (#[trigger] entries_of(blocks)[k]).name == blocks[k].name.word
                &&& port_value(blocks[k].port.word) == Some(entries_of(blocks)[k].port)
                &&& entries_of(blocks)[k].upstream == blocks[k].upstream.word
            },
{
    let s = lead + blocks_text(blocks);
    assert(has_literal_at(s, 0, s)) by {
        assert(s.subrange(0, s.len() as int) =~= s);
    }
    lemma_blocks_over(s, 0, lead, blocks);
    lemma_nothing_at_end(s);
    assert(entries_of(blocks) + Seq::<EntryView>::empty() =~= entries_of(blocks));
    assert forall|k: int| 0 <= k < blocks.len() implies {
        &&& (#[trigger] entries_of(blocks)[k]).name == blocks[k].name.word
        &&& port_value(blocks[k].port.word) == Some(entries_of(blocks)[k].port)
        &&& entries_of(blocks)[k].upstream == blocks[k].upstream.word
    } by {
        assert(blocks[k].well_formed());
        assert(entries_of(blocks)[k] == blocks[k].entry());
    }
}

/// Where text that begins with `server` follows well-formed blocks and
/// cannot be read as a block, the configuration is refused, with the
/// failure of that block.
pub proof fn lemma_broken_block_is_refused(
    lead: Seq<char>,
    blocks: Seq<BlockLayout>,
    tail: Seq<char>,
)
    requires
        all_in(lead, CharClass::Space),
        all_well_formed(blocks),
        has_literal_at(tail, 0, Symbol::Server.text()),
        server_at(lead + blocks_text(blocks) + tail, (lead + blocks_text(blocks)).len() as int)
            is Err,
    ensures
        config_of(lead + blocks_text(blocks) + tail) == Err::<(Seq<EntryView>, int), Failure>(
            server_at(
                lead + blocks_text(blocks) + tail,
                (lead + blocks_text(blocks)).len() as int,
            )->Err_0,
        ),
{
    let none = Seq::<char>::empty();
    let written = lead + blocks_text(blocks);
    let s = written + tail;
    let end = written.len() as int;
    lemma_symbol_text(Symbol::Server);
    lemma_literal_between(none, written, tail);
    assert(none + written + tail =~= s);
    assert(tail.subrange(0, Symbol::Server.text().len() as int)[0] == Symbol::Server.text()[0]);
    assert(s[end] == tail[0]);
    lemma_blocks_over(s, 0, lead, blocks);
    assert(run_end(s, end, CharClass::Space) == end);
    assert(s.subrange(end, end + Symbol::Server.text().len()) =~= tail.subrange(
        0,
        Symbol::Server.text().len() as int,
    ));
}

/// Where other text than a block follows well-formed blocks, reading stops
/// in front of it and gives the entries of the blocks.
pub proof fn lemma_reading_stops_at_other_text(
    lead: Seq<char>,
    blocks: Seq<BlockLayout>,
    tail: Seq<char>,
)
    requires
        all_in(lead, CharClass::Space),
        all_well_formed(blocks),
        tail.len() > 0,
        !is_space(tail[0]),
        !has_literal_at(tail, 0, Symbol::Server.text()),
    ensures
        config_of(lead + blocks_text(blocks) + tail) == Ok::<(Seq<EntryView>, int), Failure>(
            (entries_of(blocks), (lead + blocks_text(blocks)).len() as int),
        ),
{
    let none = Seq::<char>::empty();
    let written = lead + blocks_text(blocks);
    let s = written + tail;
    let end = written.len() as int;
    let srv = Symbol::Server.text();
    lemma_literal_between(none, written, tail);
    assert(none + written + tail =~= s);
    assert(s[end] == tail[0]);
    lemma_blocks_over(s, 0, lead, blocks);
    assert(run_end(s, end, CharClass::Space) == end);
    if has_literal_at(s, end, srv) {
        assert(s.subrange(end, end + srv.len()) =~= tail.subrange(0, srv.len() as int));
    }
    assert(entries_of(blocks) + Seq::<EntryView>::empty() =~= entries_of(blocks));
}

/// A field that was read is a well-formed field as it stands in the text.
pub proof fn lemma_field_written(s: Seq<char>, i: int, key: Symbol) -> (f: FieldLayout)
    requires
        field_at(s, i, key) is Ok,
    ensures
        f.well_formed(),
        f.text(key) == s.subrange(i, field_at(s, i, key)->Ok_0.2),
        f.word == s.subrange(field_at(s, i, key)->Ok_0.0, field_at(s, i, key)->Ok_0.1),
{
    let (start, end, next) = field_at(s, i, key)->Ok_0;
    let semi = Symbol::Semicolon.text();
    let sep = i + key.text().len();
    lemma_field_at_bounds(s, i, key);
    lemma_symbol_text(key);
    lemma_symbol_text(Symbol::Semicolon);
    lemma_run_end(s, sep, CharClass::Space);
    lemma_run_end(s, start, CharClass::Word);
    lemma_run_end(s, end + semi.len(), CharClass::Space);
    let f = FieldLayout {
        sep: s.subrange(sep, start),
        word: s.subrange(start, end),
        after: s.subrange(end + semi.len(), next),
    };
    assert(f.text(key) =~= s.subrange(i, next)) by {
        assert(key.text() == s.subrange(i, sep));
        assert(semi == s.subrange(end, end + semi.len()));
    }
    f
}

/// A block that was read is a well-formed block as it stands in the text,
/// whatever whitespace `after` follows it.
pub proof fn lemma_block_written(s: Seq<char>, i: int, after: Seq<char>) -> (b: BlockLayout)
    requires
        server_at(s, i) is Ok,
        all_in(after, CharClass::Space),
    ensures
        b.well_formed(),
        b.after_close == after,
        b.braced() == s.subrange(i, server_at(s, i)->Ok_0.1),
        b.entry() == server_at(s, i)->Ok_0.0,
{
    let srv = Symbol::Server.text();
    let open = Symbol::OpenBrace.text();
    let close = Symbol::CloseBrace.text();
    lemma_server_at_bounds(s, i);
    lemma_symbol_text(Symbol::Server);
    lemma_symbol_text(Symbol::OpenBrace);
    lemma_symbol_text(Symbol::CloseBrace);
    let h1 = i + srv.len();
    let h2 = past(s, i, Symbol::Server);
    let h3 = h2 + open.len();
    let first = past(s, h2, Symbol::OpenBrace);
    lemma_run_end(s, h1, CharClass::Space);
    lemma_run_end(s, h3, CharClass::Space);
    let second = field_at(s, first, Symbol::ServerName)->Ok_0.2;
    let third = field_at(s, second, Symbol::Port)->Ok_0.2;
    let last = field_at(s, third, Symbol::ProxyPass)->Ok_0.2;
    let end = last + close.len();
    lemma_field_at_bounds(s, first, Symbol::ServerName);
    lemma_field_at_bounds(s, second, Symbol::Port);
    lemma_field_at_bounds(s, third, Symbol::ProxyPass);
    let b = BlockLayout {
        after_server: s.subrange(h1, h2),
        after_open: s.subrange(h3, first),
        name: lemma_field_written(s, first, Symbol::ServerName),
        port: lemma_field_written(s, second, Symbol::Port),
        upstream: lemma_field_written(s, third, Symbol::ProxyPass),
        after_close: after,
    };
    assert(b.head() =~= s.subrange(i, first)) by {
        assert(srv == s.subrange(i, h1));
        assert(open == s.subrange(h2, h3));
    }
    assert(b.body() =~= s.subrange(first, last));
    assert(b.braced() =~= s.subrange(i, end)) by {
        assert(close == s.subrange(last, end));
    }
    b
}

/// What was read is written from well-formed blocks: the text from `i` up
/// to where reading stopped is whitespace followed by blocks that define
/// the entries that were read.
pub proof fn lemma_read_blocks_are_written(s: Seq<char>, i: int) -> (written: (
    Seq<char>,
    Seq<BlockLayout>,
))
    requires
        0 <= i <= s.len(),
        config_from(s, i) is Ok,
    ensures
        all_in(written.0, CharClass::Space),
        all_well_formed(written.1),
        written.0 + blocks_text(written.1) == s.subrange(i, config_from(s, i)->Ok_0.1),
        entries_of(written.1) == config_from(s, i)->Ok_0.0,
        i <= config_from(s, i)->Ok_0.1 <= s.len(),
    decreases s.len() - i,
{
    let at = run_end(s, i, CharClass::Space);
    lemma_run_end(s, i, CharClass::Space);
    let lead = s.subrange(i, at);
    if has_literal_at(s, at, Symbol::Server.text()) {
        let (entry, end) = server_at(s, at)->Ok_0;
        lemma_server_at_bounds(s, at);
        let stop = config_from(s, end)->Ok_0.1;
        let (gap, rest) = lemma_read_blocks_are_written(s, end);
        let b = lemma_block_written(s, at, gap);
        let blocks = seq![b] + rest;
        assert(blocks.drop_first() =~= rest);
        assert(blocks[0] == b);
        assert forall|k: int| 0 <= k < blocks.len() implies (#[trigger] blocks[k]).well_formed() by {
            if k > 0 {
                assert(blocks[k] == rest[k - 1]);
            }
        }
        assert(entries_of(blocks) =~= seq![entry] + entries_of(rest));
        assert(lead + blocks_text(blocks) =~= s.subrange(i, stop)) by {
            let behind = gap + blocks_text(rest);
            assert(blocks_text(blocks) == b.braced() + gap + blocks_text(rest));
            assert(b.braced() + gap + blocks_text(rest) =~= b.braced() + behind);
            assert(s.subrange(at, end) + s.subrange(end, stop) =~= s.subrange(at, stop));
            assert(s.subrange(i, at) + s.subrange(at, stop) =~= s.subrange(i, stop));
        }
        (lead, blocks)
    } else {
        let blocks = Seq::<BlockLayout>::empty();
        assert(lead + blocks_text(blocks) =~= s.subrange(i, at));
        assert(entries_of(blocks) =~= Seq::<EntryView>::empty());
        (lead, blocks)
    }
}

/// Every entry that is read from a text is well formed.
pub proof fn lemma_read_entries_are_well_formed(s: Seq<char>)
    requires
        config_of(s) is Ok,
    ensures
        forall|k: int|
            0 <= k < config_of(s)->Ok_0.0.len() ==> (#[trigger] config_of(s)->Ok_0.0[k]).well_formed(),
{
    let (_, blocks) = lemma_read_blocks_are_written(s, 0);
    assert forall|k: int| 0 <= k < entries_of(blocks).len() implies (#[trigger] entries_of(
        blocks,
    )[k]).well_formed() by {
        assert(blocks[k].well_formed());
        assert(entries_of(blocks)[k] == blocks[k].entry());
    }
}

} // verus!
