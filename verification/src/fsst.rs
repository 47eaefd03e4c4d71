//! Strings compressed against a table of symbols, each string on its own.

use crate::types::{copy_bytes, About, Error, ErrorCode, Failure};
use crate::text::same_bytes;
use vstd::prelude::*;
use vstd::slice::slice_subrange;

verus! {

/// The code that says the byte after it stands for itself.
pub const ESCAPE: u8 = 255;

/// How many symbols a table may hold, which is every code but the escape.
pub const SYMBOLS_MAX: usize = 255;

/// How many bytes the longest symbol has.
pub const SYMBOL_BYTES: usize = 8;

/// Whether some bytes start with a symbol.
pub open spec fn starts_with(bytes: Seq<u8>, symbol: Seq<u8>) -> bool {
    symbol.len() <= bytes.len() && bytes.subrange(0, symbol.len() as int) == symbol
}

/// Which of the first `count` symbols is the longest some bytes start with, the earliest of equals.
pub open spec fn longest_match(symbols: Seq<Seq<u8>>, bytes: Seq<u8>, count: nat) -> Option<int>
    decreases count,
{
    if count == 0 {
        None
    } else {
        let before = longest_match(symbols, bytes, (count - 1) as nat);
        let last = count - 1;
        if starts_with(bytes, symbols[last]) && (before is None || symbols[before->Some_0].len()
            < symbols[last].len()) {
            Some(last)
        } else {
            before
        }
    }
}

/// Some bytes in the code space of a table: the longest symbol at each place, or an escaped byte.
pub open spec fn encoded(symbols: Seq<Seq<u8>>, bytes: Seq<u8>) -> Seq<u8>
    decreases bytes.len(),
{
    if bytes.len() == 0 {
        Seq::empty()
    } else {
        match longest_match(symbols, bytes, symbols.len()) {
            Some(code) => if 0 < symbols[code].len() <= bytes.len() {
                seq![code as u8] + encoded(symbols, bytes.skip(symbols[code].len() as int))
            } else {
                Seq::empty()
            },
            None => seq![255u8, bytes[0]] + encoded(symbols, bytes.skip(1)),
        }
    }
}

/// Why compressed text cannot be read: the first code of it that stands for nothing.
pub open spec fn decoding_failure(table: Seq<Seq<u8>>, codes: Seq<u8>) -> Failure
    decreases codes.len(),
{
    if codes.len() == 0 {
        Failure { code: ErrorCode::Internal, message: ""@, about: About::Nothing }
    } else if codes[0] == 255 {
        if codes.len() < 2 {
            Failure {
                code: ErrorCode::Internal,
                message: "an escape at the end of compressed text"@,
                about: About::Nothing,
            }
        } else {
            decoding_failure(table, codes.skip(2))
        }
    } else if codes[0] >= table.len() {
        Failure {
            code: ErrorCode::Internal,
            message: "a code with no symbol behind it"@,
            about: About::Nothing,
        }
    } else {
        decoding_failure(table, codes.skip(1))
    }
}

/// What codes stand for, and nothing for codes no table this size can have written.
pub open spec fn decoded(symbols: Seq<Seq<u8>>, codes: Seq<u8>) -> Option<Seq<u8>>
    decreases codes.len(),
{
    if codes.len() == 0 {
        Some(Seq::empty())
    } else if codes[0] == 255 {
        if codes.len() < 2 {
            None
        } else {
            match decoded(symbols, codes.skip(2)) {
                Some(rest) => Some(seq![codes[1]] + rest),
                None => None,
            }
        }
    } else if codes[0] < symbols.len() {
        match decoded(symbols, codes.skip(1)) {
            Some(rest) => Some(symbols[codes[0] as int] + rest),
            None => None,
        }
    } else {
        None
    }
}

/// A table's symbols: few enough to leave the escape free, and none of them empty.
pub open spec fn is_table(symbols: Seq<Seq<u8>>) -> bool {
    &&& symbols.len() <= 255
    &&& forall|i: int| 0 <= i < symbols.len() ==> 1 <= (#[trigger] symbols[i]).len() <= 8
}

/// A table with one more symbol, unless it has it, is full, or the symbol is too long for one.
pub open spec fn with_symbol(symbols: Seq<Seq<u8>>, symbol: Seq<u8>) -> Seq<Seq<u8>> {
    if symbols.len() < 255 && 1 <= symbol.len() <= 8 && !symbols.contains(symbol) {
        symbols.push(symbol)
    } else {
        symbols
    }
}

/// A table with the eight byte blocks of some bytes from a place on, as far as half the table goes.
pub open spec fn with_blocks(symbols: Seq<Seq<u8>>, bytes: Seq<u8>, at: int) -> Seq<Seq<u8>>
    decreases bytes.len() - at,
{
    if bytes.len() - at >= 8 && symbols.len() < 128 {
        with_blocks(with_symbol(symbols, bytes.subrange(at, at + 8)), bytes, at + 8)
    } else {
        symbols
    }
}

/// The blocks of the first `count` rows.
pub open spec fn block_symbols(rows: Seq<Seq<u8>>, count: nat) -> Seq<Seq<u8>>
    decreases count,
{
    if count == 0 {
        Seq::empty()
    } else {
        with_blocks(block_symbols(rows, (count - 1) as nat), rows[count - 1], 0)
    }
}

/// A table with each of the first `count` bytes as a symbol.
pub open spec fn with_bytes(symbols: Seq<Seq<u8>>, bytes: Seq<u8>, count: nat) -> Seq<Seq<u8>>
    decreases count,
{
    if count == 0 {
        symbols
    } else {
        with_symbol(with_bytes(symbols, bytes, (count - 1) as nat), seq![bytes[count - 1]])
    }
}

/// A table with each byte of the first `count` rows as a symbol.
pub open spec fn byte_symbols(symbols: Seq<Seq<u8>>, rows: Seq<Seq<u8>>, count: nat) -> Seq<Seq<u8>>
    decreases count,
{
    if count == 0 {
        symbols
    } else {
        with_bytes(
            byte_symbols(symbols, rows, (count - 1) as nat),
            rows[count - 1],
            rows[count - 1].len(),
        )
    }
}

/// The symbols some rows train a table to: their eight byte blocks, as far as half the table goes,
/// and then their bytes, each the first time it comes.
pub open spec fn trained(rows: Seq<Seq<u8>>) -> Seq<Seq<u8>> {
    byte_symbols(block_symbols(rows, rows.len()), rows, rows.len())
}

/// The bytes of some rows.
pub open spec fn row_bytes(rows: Seq<Vec<u8>>) -> Seq<Seq<u8>> {
    Seq::new(rows.len(), |i: int| rows[i]@)
}

proof fn lemma_match(symbols: Seq<Seq<u8>>, bytes: Seq<u8>, count: nat)
    requires
        count <= symbols.len(),
    ensures
        longest_match(symbols, bytes, count) matches Some(code) ==> 0 <= code < count && starts_with(
            bytes,
            symbols[code],
        ),
    decreases count,
{
    if count > 0 {
        lemma_match(symbols, bytes, (count - 1) as nat);
    }
}

/// Decompressing what was compressed gives back the bytes, whatever the table.
pub proof fn law_decoding_undoes_encoding(symbols: Seq<Seq<u8>>, bytes: Seq<u8>)
    requires
        is_table(symbols),
    ensures
        decoded(symbols, encoded(symbols, bytes)) == Some(bytes),
    decreases bytes.len(),
{
    if bytes.len() == 0 {
        assert(bytes =~= Seq::<u8>::empty());
    } else {
        lemma_match(symbols, bytes, symbols.len());
        match longest_match(symbols, bytes, symbols.len()) {
            Some(code) => {
                let symbol = symbols[code];
                let rest = bytes.skip(symbol.len() as int);
                law_decoding_undoes_encoding(symbols, rest);
                let all = encoded(symbols, bytes);
                assert(all.skip(1) =~= encoded(symbols, rest));
                assert(symbol + rest =~= bytes);
            },
            None => {
                let rest = bytes.skip(1);
                law_decoding_undoes_encoding(symbols, rest);
                let all = encoded(symbols, bytes);
                assert(all.skip(2) =~= encoded(symbols, rest));
                assert(seq![bytes[0]] + rest =~= bytes);
            },
        }
    }
}

/// Two strings compress to the same codes exactly when they are the same string, so an equality
/// test on the codes is an equality test on the strings.
pub proof fn law_equal_codes_are_equal_strings(symbols: Seq<Seq<u8>>, left: Seq<u8>, right: Seq<u8>)
    requires
        is_table(symbols),
    ensures
        encoded(symbols, left) == encoded(symbols, right) <==> left == right,
{
    law_decoding_undoes_encoding(symbols, left);
    law_decoding_undoes_encoding(symbols, right);
}

/// The symbols every string of a page is compressed against.
#[derive(Debug)]
pub struct SymbolTable {
    symbols: Vec<Vec<u8>>,
}

impl SymbolTable {
    /// The symbols, by code.
    pub closed spec fn table(&self) -> Seq<Seq<u8>> {
        Seq::new(self.symbols@.len(), |i: int| self.symbols@[i]@)
    }

    /// Few enough symbols to leave the escape free, and none of them empty.
    pub open spec fn wf(&self) -> bool {
        is_table(self.table())
    }

    /// The table of no symbols, against which every byte is escaped.
    pub fn empty() -> (table: SymbolTable)
        ensures
            table.wf(),
            table.table().len() == 0,
    {
        SymbolTable { symbols: Vec::new() }
    }

    /// How many symbols there are.
    pub fn len(&self) -> (len: usize)
        ensures
            len == self.table().len(),
    {
        self.symbols.len()
    }

    /// Whether there are no symbols.
    pub fn is_empty(&self) -> (empty: bool)
        ensures
            empty == (self.table().len() == 0),
    {
        self.symbols.len() == 0
    }

    fn find(&self, symbol: &[u8]) -> (found: bool)
        ensures
            found == self.table().contains(symbol@),
    {
        let mut at: usize = 0;
        while at < self.symbols.len()
            invariant
                at <= self.symbols@.len(),
                forall|i: int| 0 <= i < at ==> #[trigger] self.table()[i] != symbol@,
            decreases self.symbols.len() - at,
        {
            if same_bytes(self.symbols[at].as_slice(), symbol) {
                assert(self.table()[at as int] == symbol@);
                return true;
            }
            assert(self.table()[at as int] != symbol@);
            at += 1;
        }
        false
    }

    /// One more symbol, unless the table has it, is full, or the symbol is too long for one.
    pub fn add_symbol(&mut self, symbol: &[u8]) -> (added: bool)
        requires
            old(self).wf(),
        ensures
            final(self).wf(),
            added == (old(self).table().len() < 255 && 1 <= symbol@.len() <= 8 && !old(
                self,
            ).table().contains(symbol@)),
            added ==> final(self).table() == old(self).table().push(symbol@),
            !added ==> final(self).table() == old(self).table(),
    {
        if self.symbols.len() >= SYMBOLS_MAX || symbol.len() == 0 || symbol.len() > SYMBOL_BYTES
            || self.find(symbol) {
            return false;
        }
        let ghost before = self.table();
        let held = copy_bytes(symbol);
        let ghost grown = self.symbols@.push(held);
        assert(Seq::new(grown.len(), |i: int| grown[i]@) =~= before.push(symbol@));
        self.symbols.push(held);
        assert(self.table() =~= before.push(symbol@));
        true
    }

    /// A table for some rows: the eight byte blocks their rows are made of, as far as half the
    /// table goes, and then the bytes they are made of.
    pub fn train(rows: &Vec<Vec<u8>>) -> (table: SymbolTable)
        ensures
            table.wf(),
            table.table() == trained(row_bytes(rows@)),
            forall|s: int|
                0 <= s < table.table().len() ==> from_rows(#[trigger] table.table()[s], rows@),
            table.table().len() < 255 ==> forall|row: int, at: int|
                0 <= row < rows@.len() && 0 <= at < rows@[row]@.len() ==> table.table().contains(
                    seq![#[trigger] rows@[row]@[at]],
                ),
    {
        let mut table = SymbolTable::empty();
        let ghost all = row_bytes(rows@);
        assert(table.table() =~= block_symbols(all, 0));
        let mut row: usize = 0;
        while row < rows.len()
            invariant
                row <= rows.len(),
                all == row_bytes(rows@),
                table.table() == block_symbols(all, row as nat),
                table.wf(),
                forall|s: int|
                    0 <= s < table.table().len() ==> from_rows(#[trigger] table.table()[s], rows@),
            decreases rows.len() - row,
        {
            let bytes: &[u8] = rows[row].as_slice();
            let mut at: usize = 0;
            while bytes.len() - at >= SYMBOL_BYTES && table.len() < 128
                invariant
                    table.wf(),
                    at <= bytes@.len(),
                    row < rows@.len(),
                    bytes@ == rows@[row as int]@,
                    all == row_bytes(rows@),
                    block_symbols(all, (row + 1) as nat) == with_blocks(
                        table.table(),
                        bytes@,
                        at as int,
                    ),
                    forall|s: int|
                        0 <= s < table.table().len() ==> from_rows(#[trigger] table.table()[s], rows@),
                decreases bytes.len() - at,
            {
                let ghost before = table.table();
                let block = slice_subrange(bytes, at, at + SYMBOL_BYTES);
                let added = table.add_symbol(block);
                proof {
                    lemma_part(bytes@, at as int, at + 8);
                    assert forall|s: int| 0 <= s < table.table().len() implies from_rows(
                        #[trigger] table.table()[s],
                        rows@,
                    ) by {
                        if s < before.len() {
                            assert(table.table()[s] == before[s]);
                        } else {
                            assert(part_of(table.table()[s], rows@[row as int]@));
                            assert(from_rows(table.table()[s], rows@));
                        }
                    }
                }
                at += SYMBOL_BYTES;
            }
            row += 1;
        }
        let ghost blocks = table.table();
        let mut row: usize = 0;
        while row < rows.len()
            invariant
                row <= rows.len(),
                all == row_bytes(rows@),
                table.table() == byte_symbols(blocks, all, row as nat),
                table.wf(),
                forall|s: int|
                    0 <= s < table.table().len() ==> from_rows(#[trigger] table.table()[s], rows@),
                table.table().len() < 255 ==> forall|r: int, at: int|
                    0 <= r < row && 0 <= at < rows@[r]@.len() ==> table.table().contains(
                        seq![#[trigger] rows@[r]@[at]],
                    ),
            decreases rows.len() - row,
        {
            let bytes: &[u8] = rows[row].as_slice();
            let mut at: usize = 0;
            while at < bytes.len()
                invariant
                    table.wf(),
                    at <= bytes@.len(),
                    row < rows@.len(),
                    bytes@ == rows@[row as int]@,
                    all == row_bytes(rows@),
                    table.table() == with_bytes(
                        byte_symbols(blocks, all, row as nat),
                        bytes@,
                        at as nat,
                    ),
                    forall|s: int|
                        0 <= s < table.table().len() ==> from_rows(#[trigger] table.table()[s], rows@),
                    table.table().len() < 255 ==> forall|r: int, at: int|
                        0 <= r < row && 0 <= at < rows@[r]@.len() ==> table.table().contains(
                            seq![#[trigger] rows@[r]@[at]],
                        ),
                    table.table().len() < 255 ==> forall|i: int|
                        0 <= i < at ==> table.table().contains(seq![#[trigger] bytes@[i]]),
                decreases bytes.len() - at,
            {
                let ghost before = table.table();
                let one = slice_subrange(bytes, at, at + 1);
                let added = table.add_symbol(one);
                proof {
                    assert(one@ =~= seq![bytes@[at as int]]);
                    lemma_part(bytes@, at as int, at + 1);
                    assert forall|s: int| 0 <= s < table.table().len() implies from_rows(
                        #[trigger] table.table()[s],
                        rows@,
                    ) by {
                        if s < before.len() {
                            assert(table.table()[s] == before[s]);
                        } else {
                            assert(part_of(table.table()[s], rows@[row as int]@));
                            assert(from_rows(table.table()[s], rows@));
                        }
                    }
                    if table.table().len() < 255 {
                        assert forall|s: Seq<u8>| before.contains(s) implies
                            #[trigger] table.table().contains(s) by {
                            let i = choose|i: int| 0 <= i < before.len() && before[i] == s;
                            assert(table.table()[i] == s);
                        }
                        if added {
                            assert(table.table()[before.len() as int] == one@);
                        }
                    }
                }
                at += 1;
            }
            row += 1;
        }
        table
    }

    /// The code of the longest symbol `bytes` starts with from `at` on, and its length.
    fn longest(&self, bytes: &[u8], at: usize) -> (found: Option<(usize, usize)>)
        requires
            at <= bytes@.len(),
        ensures
            match found {
                Some((code, len)) => longest_match(
                    self.table(),
                    bytes@.skip(at as int),
                    self.table().len(),
                ) == Some(code as int) && code < self.table().len() && len
                    == self.table()[code as int].len(),
                None => longest_match(
                    self.table(),
                    bytes@.skip(at as int),
                    self.table().len(),
                ) is None,
            },
    {
        let mut found: Option<(usize, usize)> = None;
        let mut code: usize = 0;
        let ghost rest = bytes@.skip(at as int);
        while code < self.symbols.len()
            invariant
                at <= bytes@.len(),
                rest == bytes@.skip(at as int),
                code <= self.symbols@.len(),
                self.symbols@.len() == self.table().len(),
                match found {
                    Some((best, len)) => longest_match(self.table(), rest, code as nat) == Some(
                        best as int,
                    ) && best < code && len == self.table()[best as int].len(),
                    None => longest_match(self.table(), rest, code as nat) is None,
                },
            decreases self.symbols.len() - code,
        {
            let symbol: &[u8] = self.symbols[code].as_slice();
            assert(symbol@ == self.table()[code as int]);
            let longer = match found {
                Some((_, len)) => len < symbol.len(),
                None => true,
            };
            if longer && symbol.len() <= bytes.len() - at {
                let head = slice_subrange(bytes, at, at + symbol.len());
                assert(head@ =~= rest.subrange(0, symbol@.len() as int));
                if same_bytes(head, symbol) {
                    found = Some((code, symbol.len()));
                }
            }
            code += 1;
        }
        found
    }

    /// Appends `bytes` to `out` in the code space of this table.
    pub fn compress(&self, bytes: &[u8], out: &mut Vec<u8>)
        requires
            self.wf(),
        ensures
            final(out)@ == old(out)@ + encoded(self.table(), bytes@),
    {
        let ghost before = out@;
        let ghost table = self.table();
        let mut at: usize = 0;
        assert(bytes@.skip(0) =~= bytes@);
        assert(out@ + encoded(table, bytes@) =~= before + encoded(table, bytes@));
        while at < bytes.len()
            invariant
                at <= bytes@.len(),
                table == self.table(),
                is_table(table),
                out@ + encoded(table, bytes@.skip(at as int)) == before + encoded(table, bytes@),
            decreases bytes.len() - at,
        {
            let ghost rest = bytes@.skip(at as int);
            proof {
                lemma_match(table, rest, table.len());
            }
            match self.longest(bytes, at) {
                Some((code, len)) => {
                    proof {
                        assert(rest.skip(len as int) =~= bytes@.skip(at + len));
                        assert(out@.push(code as u8) + encoded(table, bytes@.skip(at + len))
                            =~= out@ + encoded(table, rest));
                    }
                    out.push(code as u8);
                    at += len;
                },
                None => {
                    proof {
                        assert(rest.skip(1) =~= bytes@.skip(at + 1));
                        assert(out@.push(255u8).push(bytes@[at as int]) + encoded(
                            table,
                            bytes@.skip(at + 1),
                        ) =~= out@ + encoded(table, rest));
                    }
                    out.push(ESCAPE);
                    out.push(bytes[at]);
                    at += 1;
                },
            }
        }
        assert(bytes@.skip(at as int) =~= Seq::<u8>::empty());
        assert(out@ + encoded(table, bytes@.skip(at as int)) =~= out@);
    }

    /// Appends what `codes` stand for to `out`.
    pub fn decompress(&self, codes: &[u8], out: &mut Vec<u8>) -> (done: Result<(), Error>)
        ensures
            done is Ok <==> decoded(self.table(), codes@) is Some,
            done is Ok ==> final(out)@ == old(out)@ + decoded(self.table(), codes@)->Some_0,
            done matches Err(error) ==> error@ == decoding_failure(self.table(), codes@),
    {
        let ghost before = out@;
        let ghost table = self.table();
        let mut at: usize = 0;
        assert(codes@.skip(0) =~= codes@);
        while at < codes.len()
            invariant
                at <= codes@.len(),
                table == self.table(),
                decoding_failure(table, codes@) == decoding_failure(table, codes@.skip(at as int)),
                decoded(table, codes@) is Some <==> decoded(table, codes@.skip(at as int)) is Some,
                decoded(table, codes@) matches Some(all) ==> before + all == out@ + decoded(
                    table,
                    codes@.skip(at as int),
                )->Some_0,
            decreases codes.len() - at,
        {
            let ghost rest = codes@.skip(at as int);
            let code: u8 = codes[at];
            if code == ESCAPE {
                if codes.len() - at < 2 {
                    return Err(Error::internal("an escape at the end of compressed text"));
                }
                proof {
                    assert(rest.skip(2) =~= codes@.skip(at + 2));
                    if decoded(table, rest) is Some {
                        assert(out@.push(codes@[at + 1]) + decoded(table, codes@.skip(at + 2))->Some_0
                            =~= out@ + decoded(table, rest)->Some_0);
                    }
                }
                out.push(codes[at + 1]);
                at += 2;
            } else {
                if code as usize >= self.symbols.len() {
                    return Err(Error::internal("a code with no symbol behind it"));
                }
                let symbol: &[u8] = self.symbols[code as usize].as_slice();
                proof {
                    assert(symbol@ == table[code as int]);
                    assert(rest.skip(1) =~= codes@.skip(at + 1));
                    if decoded(table, rest) is Some {
                        assert((out@ + symbol@) + decoded(table, codes@.skip(at + 1))->Some_0
                            =~= out@ + decoded(table, rest)->Some_0);
                    }
                }
                let ghost held = out@;
                out.extend_from_slice(symbol);
                assert(out@ =~= held + symbol@);
                at += 1;
            }
        }
        proof {
            assert(codes@.skip(at as int) =~= Seq::<u8>::empty());
            assert(decoded(table, codes@.skip(at as int)) == Some(Seq::<u8>::empty()));
            assert(out@ + Seq::<u8>::empty() =~= out@);
        }
        Ok(())
    }
}

/// Whether some bytes are a contiguous part of others.
pub open spec fn part_of(part: Seq<u8>, whole: Seq<u8>) -> bool {
    exists|from: int, to: int|
        0 <= from <= to <= whole.len() && #[trigger] whole.subrange(from, to) == part
}

/// Whether some bytes are a contiguous part of one of the rows.
pub open spec fn from_rows(part: Seq<u8>, rows: Seq<Vec<u8>>) -> bool {
    exists|row: int| 0 <= row < rows.len() && part_of(part, #[trigger] rows[row]@)
}

proof fn lemma_part(whole: Seq<u8>, from: int, to: int)
    requires
        0 <= from <= to <= whole.len(),
    ensures
        part_of(whole.subrange(from, to), whole),
{
}

/// The codes of a compressed column and the table they are against.
///
/// Nothing here decompresses. [`Self::encode`] puts a literal into the space the rows are already
/// in, and after that an equality test is a comparison of bytes.
#[derive(Debug, Clone, Copy)]
pub struct Coded<'a> {
    codes: &'a [u8],
    spans: &'a [(u32, u32)],
    table: &'a SymbolTable,
}

impl<'a> Coded<'a> {
    pub closed spec fn codes_held(&self) -> Seq<u8> {
        self.codes@
    }

    pub closed spec fn spans_held(&self) -> Seq<(u32, u32)> {
        self.spans@
    }

    pub closed spec fn table_held(&self) -> SymbolTable {
        *self.table
    }

    pub(crate) fn new(codes: &'a [u8], spans: &'a [(u32, u32)], table: &'a SymbolTable) -> (coded:
        Coded<'a>)
        ensures
            coded.codes_held() == codes@,
            coded.spans_held() == spans@,
            coded.table_held() == *table,
    {
        Coded { codes, spans, table }
    }

    /// The table every row in this vector is compressed against.
    pub fn table(&self) -> (table: &'a SymbolTable)
        ensures
            *table == self.table_held(),
    {
        self.table
    }

    /// The code bytes of one row, still compressed.
    pub fn row(&self, row: usize) -> (codes: Option<&'a [u8]>)
        ensures
            match codes {
                Some(codes) => row < self.spans_held().len() && span_in(
                    self.codes_held(),
                    self.spans_held()[row as int],
                ) == Some(codes@),
                None => row >= self.spans_held().len() || span_in(
                    self.codes_held(),
                    self.spans_held()[row as int],
                ) is None,
            },
    {
        if row >= self.spans.len() {
            return None;
        }
        codes_of(self.codes, self.spans[row])
    }

    /// Some bytes in the code space this vector is in.
    pub fn encode(&self, bytes: &[u8]) -> (codes: Vec<u8>)
        requires
            self.table_held().wf(),
        ensures
            codes@ == encoded(self.table_held().table(), bytes@),
    {
        let mut out: Vec<u8> = Vec::new();
        self.table.compress(bytes, &mut out);
        assert(out@ =~= encoded(self.table.table(), bytes@));
        out
    }
}

/// The codes a span covers, and nothing for a span that is not in them.
pub open spec fn span_in(codes: Seq<u8>, span: (u32, u32)) -> Option<Seq<u8>> {
    if span.0 <= span.1 <= codes.len() {
        Some(codes.subrange(span.0 as int, span.1 as int))
    } else {
        None
    }
}

/// The codes a span covers.
pub(crate) fn codes_of(codes: &[u8], span: (u32, u32)) -> (part: Option<&[u8]>)
    ensures
        match part {
            Some(part) => span_in(codes@, span) == Some(part@),
            None => span_in(codes@, span) is None,
        },
{
    let (from, to) = (span.0 as usize, span.1 as usize);
    if from <= to && to <= codes.len() {
        Some(slice_subrange(codes, from, to))
    } else {
        None
    }
}

/// The symbol that is taken stands at the start of the bytes, none that does is longer, and none before
/// it is as long. None is taken only where none stands there.
pub proof fn law_the_longest_symbol_is_taken(
    symbols: Seq<Seq<u8>>,
    bytes: Seq<u8>,
    count: nat,
    other: int,
)
    requires
        count <= symbols.len(),
        0 <= other < count,
    ensures
        match longest_match(symbols, bytes, count) {
            Some(code) => {
                &&& 0 <= code < count
                &&& symbols[code].len() <= bytes.len()
                &&& forall|i: int|
                    0 <= i < symbols[code].len() ==> #[trigger] bytes[i] == symbols[code][i]
                &&& symbols[other].is_prefix_of(bytes) ==> symbols[other].len()
                    <= symbols[code].len()
                &&& symbols[other].is_prefix_of(bytes) && other < code ==> symbols[other].len()
                    < symbols[code].len()
            },
            None => !symbols[other].is_prefix_of(bytes),
        },
    decreases count,
{
    let before = longest_match(symbols, bytes, (count - 1) as nat);
    let last = symbols[count - 1];
    if other < count - 1 {
        law_the_longest_symbol_is_taken(symbols, bytes, (count - 1) as nat, other);
    } else if count > 1 {
        law_the_longest_symbol_is_taken(symbols, bytes, (count - 1) as nat, 0);
    }
    if last.len() <= bytes.len() {
        let start = bytes.subrange(0, last.len() as int);
        if start == last {
            assert forall|i: int| 0 <= i < last.len() implies #[trigger] bytes[i] == last[i] by {
                assert(start[i] == bytes[i]);
            }
        }
        if last.is_prefix_of(bytes) {
            assert(start =~= last);
        }
    }
}

/// Codes are read from the first on: a code is the symbol it stands for, the escape is the byte behind
/// it, and a code past the table or an escape at the end stands for nothing.
pub proof fn law_a_code_stands_for_its_symbol(symbols: Seq<Seq<u8>>, code: u8, byte: u8, rest: Seq<u8>)
    requires
        is_table(symbols),
    ensures
        decoded(symbols, Seq::empty()) == Some(Seq::<u8>::empty()),
        code < symbols.len() && decoded(symbols, rest) is Some ==> decoded(
            symbols,
            seq![code] + rest,
        ) == Some(symbols[code as int] + decoded(symbols, rest)->Some_0),
        decoded(symbols, rest) is Some ==> decoded(symbols, seq![255u8, byte] + rest) == Some(
            seq![byte] + decoded(symbols, rest)->Some_0,
        ),
        code < 255 && code >= symbols.len() ==> decoded(symbols, seq![code] + rest) is None,
        decoded(symbols, seq![255u8]) is None,
        decoded(symbols, rest) is None ==> decoded(symbols, seq![255u8, byte] + rest) is None,
{
    assert((seq![code] + rest).skip(1) =~= rest);
    assert((seq![255u8, byte] + rest).skip(2) =~= rest);
}

/// Bytes are put into codes from the first on: the code of the longest symbol there, or the escape and
/// the byte where no symbol stands there.
pub proof fn law_bytes_become_the_codes_of_their_symbols(symbols: Seq<Seq<u8>>, bytes: Seq<u8>)
    requires
        is_table(symbols),
        bytes.len() > 0,
    ensures
        encoded(symbols, Seq::empty()).len() == 0,
        match longest_match(symbols, bytes, symbols.len()) {
            Some(code) => encoded(symbols, bytes)[0] == code && encoded(symbols, bytes).skip(1)
                == encoded(symbols, bytes.skip(symbols[code].len() as int)),
            None => encoded(symbols, bytes)[0] == 255 && encoded(symbols, bytes)[1] == bytes[0]
                && encoded(symbols, bytes).skip(2) == encoded(symbols, bytes.skip(1)),
        },
{
    lemma_match(symbols, bytes, symbols.len());
    match longest_match(symbols, bytes, symbols.len()) {
        Some(code) => {
            let rest = bytes.skip(symbols[code].len() as int);
            assert(encoded(symbols, bytes).skip(1) =~= encoded(symbols, rest));
        },
        None => {
            assert(encoded(symbols, bytes).skip(2) =~= encoded(symbols, bytes.skip(1)));
        },
    }
}

/// A span covers the codes from its start up to its end.
pub proof fn law_a_span_is_the_codes_it_covers(codes: Seq<u8>, from: u32, to: u32)
    ensures
        from <= to <= codes.len() ==> span_in(codes, (from, to)) is Some && span_in(
            codes,
            (from, to),
        )->Some_0.len() == to - from && forall|i: int|
            0 <= i < to - from ==> #[trigger] span_in(codes, (from, to))->Some_0[i] == codes[from
                + i],
        from > to || to > codes.len() ==> span_in(codes, (from, to)) is None,
{
}

/// A table grows by symbols it does not have, and keeps the codes of those it has.
pub proof fn law_a_table_keeps_its_codes_as_it_grows(symbols: Seq<Seq<u8>>, symbol: Seq<u8>)
    requires
        symbols.no_duplicates(),
    ensures
        with_symbol(symbols, symbol).no_duplicates(),
        symbols.is_prefix_of(with_symbol(symbols, symbol)),
        with_symbol(symbols, symbol).len() <= symbols.len() + 1,
        1 <= symbol.len() <= 8 && symbols.len() < 255 ==> with_symbol(symbols, symbol).contains(
            symbol,
        ),
        symbols.contains(symbol) || symbol.len() == 0 || symbol.len() > 8 || symbols.len() >= 255
            ==> with_symbol(symbols, symbol) == symbols,
{
    let more = with_symbol(symbols, symbol);
    if more.len() > symbols.len() {
        assert(more[symbols.len() as int] == symbol);
    }
}

proof fn lemma_grown_by_bytes(symbols: Seq<Seq<u8>>, bytes: Seq<u8>, count: nat)
    requires
        symbols.no_duplicates(),
        symbols.len() <= 255,
        count <= bytes.len(),
    ensures
        with_bytes(symbols, bytes, count).no_duplicates(),
        with_bytes(symbols, bytes, count).len() <= 255,
        symbols.is_prefix_of(with_bytes(symbols, bytes, count)),
        with_bytes(symbols, bytes, count).len() < 255 ==> forall|i: int|
            0 <= i < count ==> with_bytes(symbols, bytes, count).contains(
                seq![#[trigger] bytes[i]],
            ),
    decreases count,
{
    if count > 0 {
        lemma_grown_by_bytes(symbols, bytes, (count - 1) as nat);
        let before = with_bytes(symbols, bytes, (count - 1) as nat);
        let after = with_bytes(symbols, bytes, count);
        let last = seq![bytes[count - 1]];
        law_a_table_keeps_its_codes_as_it_grows(before, last);
        if after.len() < 255 {
            assert forall|i: int| 0 <= i < count implies after.contains(
                seq![#[trigger] bytes[i]],
            ) by {
                if i < count - 1 {
                    assert(before.contains(seq![bytes[i]]));
                    let k = choose|k: int| 0 <= k < before.len() && before[k] == seq![bytes[i]];
                    assert(after[k] == before[k]);
                }
            }
        }
    }
}

proof fn lemma_grown_by_rows(symbols: Seq<Seq<u8>>, rows: Seq<Seq<u8>>, count: nat)
    requires
        symbols.no_duplicates(),
        symbols.len() <= 255,
        count <= rows.len(),
    ensures
        byte_symbols(symbols, rows, count).no_duplicates(),
        byte_symbols(symbols, rows, count).len() <= 255,
        symbols.is_prefix_of(byte_symbols(symbols, rows, count)),
        byte_symbols(symbols, rows, count).len() < 255 ==> forall|r: int, i: int|
            0 <= r < count && 0 <= i < rows[r].len() ==> byte_symbols(symbols, rows, count).contains(
                seq![#[trigger] rows[r][i]],
            ),
    decreases count,
{
    if count > 0 {
        lemma_grown_by_rows(symbols, rows, (count - 1) as nat);
        let before = byte_symbols(symbols, rows, (count - 1) as nat);
        let after = byte_symbols(symbols, rows, count);
        lemma_grown_by_bytes(before, rows[count - 1], rows[count - 1].len());
        if after.len() < 255 {
            assert forall|r: int, i: int|
                0 <= r < count && 0 <= i < rows[r].len() implies after.contains(
                seq![#[trigger] rows[r][i]],
            ) by {
                if r < count - 1 {
                    assert(before.contains(seq![rows[r][i]]));
                    let k = choose|k: int| 0 <= k < before.len() && before[k] == seq![rows[r][i]];
                    assert(after[k] == before[k]);
                }
            }
        }
    }
}

proof fn lemma_grown_by_blocks(symbols: Seq<Seq<u8>>, bytes: Seq<u8>, at: int)
    requires
        symbols.no_duplicates(),
        symbols.len() <= 128,
        0 <= at,
    ensures
        with_blocks(symbols, bytes, at).no_duplicates(),
        with_blocks(symbols, bytes, at).len() <= 128,
        symbols.is_prefix_of(with_blocks(symbols, bytes, at)),
        with_blocks(symbols, bytes, at).len() < 128 ==> forall|k: int|
            0 <= k && at + 8 * k + 8 <= bytes.len() ==> with_blocks(symbols, bytes, at).contains(
                #[trigger] bytes.subrange(at + 8 * k, at + 8 * k + 8),
            ),
    decreases bytes.len() - at,
{
    if bytes.len() - at >= 8 && symbols.len() < 128 {
        let block = bytes.subrange(at, at + 8);
        let more = with_symbol(symbols, block);
        law_a_table_keeps_its_codes_as_it_grows(symbols, block);
        lemma_grown_by_blocks(more, bytes, at + 8);
        let all = with_blocks(symbols, bytes, at);
        if all.len() < 128 {
            assert forall|k: int| 0 <= k && at + 8 * k + 8 <= bytes.len() implies all.contains(
                #[trigger] bytes.subrange(at + 8 * k, at + 8 * k + 8),
            ) by {
                if k == 0 {
                    let p = choose|p: int| 0 <= p < more.len() && more[p] == block;
                    assert(all[p] == more[p]);
                } else {
                    assert(at + 8 * k == (at + 8) + 8 * (k - 1));
                    assert(all.contains(
                        bytes.subrange((at + 8) + 8 * (k - 1), (at + 8) + 8 * (k - 1) + 8),
                    ));
                }
            }
        }
    }
}

proof fn lemma_block_symbols(rows: Seq<Seq<u8>>, count: nat)
    requires
        count <= rows.len(),
    ensures
        block_symbols(rows, count).no_duplicates(),
        block_symbols(rows, count).len() <= 128,
        block_symbols(rows, count).len() < 128 ==> forall|r: int, k: int|
            0 <= r < count && 0 <= k && 8 * k + 8 <= rows[r].len() ==> block_symbols(
                rows,
                count,
            ).contains(#[trigger] rows[r].subrange(8 * k, 8 * k + 8)),
    decreases count,
{
    if count > 0 {
        lemma_block_symbols(rows, (count - 1) as nat);
        let before = block_symbols(rows, (count - 1) as nat);
        let after = block_symbols(rows, count);
        lemma_grown_by_blocks(before, rows[count - 1], 0);
        if after.len() < 128 {
            assert forall|r: int, k: int|
                0 <= r < count && 0 <= k && 8 * k + 8 <= rows[r].len() implies after.contains(
                #[trigger] rows[r].subrange(8 * k, 8 * k + 8),
            ) by {
                if r < count - 1 {
                    assert(before.contains(rows[r].subrange(8 * k, 8 * k + 8)));
                    let p = choose|p: int|
                        0 <= p < before.len() && before[p] == rows[r].subrange(8 * k, 8 * k + 8);
                    assert(after[p] == before[p]);
                } else {
                    assert(rows[r].subrange(0 + 8 * k, 0 + 8 * k + 8) == rows[r].subrange(
                        8 * k,
                        8 * k + 8,
                    ));
                }
            }
        }
    }
}

/// A table that is trained on some rows names no symbol twice. As long as half of it is not full it has
/// every block of eight bytes of every row, and as long as it is not full it has every byte.
pub proof fn law_a_trained_table_has_the_blocks_and_the_bytes(rows: Seq<Seq<u8>>, r: int, i: int)
    requires
        0 <= r < rows.len(),
        0 <= i,
    ensures
        trained(rows).no_duplicates(),
        trained(rows).len() <= 255,
        trained(rows).len() < 255 && i < rows[r].len() ==> trained(rows).contains(seq![rows[r][i]]),
        trained(rows).len() < 128 && 8 * i + 8 <= rows[r].len() ==> trained(rows).contains(
            rows[r].subrange(8 * i, 8 * i + 8),
        ),
{
    let blocks = block_symbols(rows, rows.len());
    lemma_block_symbols(rows, rows.len());
    lemma_grown_by_rows(blocks, rows, rows.len());
    if trained(rows).len() < 128 && 8 * i + 8 <= rows[r].len() {
        let block = rows[r].subrange(8 * i, 8 * i + 8);
        assert(blocks.contains(block));
        let p = choose|p: int| 0 <= p < blocks.len() && blocks[p] == block;
        assert(trained(rows)[p] == block);
    }
}

} // verus!
