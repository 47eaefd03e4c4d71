//! What a database is opened with, and sizes written the way a person writes them.

use crate::scan::{
    before_space, decimal, decimal_text, decimal_value, equal_but_case, is_digit, is_letter,
    is_space, law_decimal_reads_back, lemma_digits, lower, lowered, past_space, same_but_case, trim,
    trimmed,
};
use crate::types::{About, Error, ErrorCode, Failure, Subject};
use vstd::prelude::*;
use vstd::string::*;

verus! {

/// A length of time, to the nanosecond.
#[derive(Debug, Clone, Copy, PartialEq, Eq, Structural)]
pub struct Timeout {
    pub secs: u64,
    pub nanos: u32,
}

impl Timeout {
    pub fn from_secs(secs: u64) -> (timeout: Timeout)
        ensures
            timeout == (Timeout { secs, nanos: 0 }),
    {
        Timeout { secs, nanos: 0 }
    }

    pub fn from_millis(millis: u64) -> (timeout: Timeout)
        ensures
            timeout.secs == millis / 1000,
            timeout.nanos == (millis % 1000) * 1_000_000,
    {
        Timeout { secs: millis / 1000, nanos: (millis % 1000) as u32 * 1_000_000 }
    }

    /// The whole milliseconds in it.
    pub fn as_millis(&self) -> (millis: u128)
        ensures
            millis == self.secs * 1000 + self.nanos / 1_000_000,
    {
        self.secs as u128 * 1000 + (self.nanos / 1_000_000) as u128
    }
}

/// The settings a database is opened with.
#[derive(Debug, Clone, Copy, PartialEq, Eq, Structural)]
pub struct Config {
    pub memory_limit: Option<u64>,
    pub threads: usize,
    pub query_timeout: Option<Timeout>,
}

impl Config {
    /// The defaults on a machine that answers so: that memory limit, which is none on a platform
    /// that will not say how much memory it has, a thread per core it can see, and one where it
    /// will not say.
    pub fn new(memory_limit: Option<u64>, cores: Option<usize>) -> (config: Config)
        ensures
            config == (Config {
                memory_limit,
                threads: match cores {
                    Some(cores) => cores,
                    None => 1,
                },
                query_timeout: None,
            }),
    {
        let threads: usize = match cores {
            Some(cores) => cores,
            None => 1,
        };
        Config { memory_limit, threads, query_timeout: None }
    }

    /// How many bytes the engine may use, or `None` for no limit.
    pub fn memory_limit(&self) -> (limit: Option<u64>)
        ensures
            limit == self.memory_limit,
    {
        self.memory_limit
    }

    /// How many threads a query may run on.
    pub fn threads(&self) -> (threads: usize)
        ensures
            threads == self.threads,
    {
        self.threads
    }

    /// How long a query may run, or `None` for no limit.
    pub fn query_timeout(&self) -> (timeout: Option<Timeout>)
        ensures
            timeout == self.query_timeout,
    {
        self.query_timeout
    }

    /// The same settings with this memory limit.
    pub fn with_memory_limit(self, bytes: u64) -> (config: Config)
        ensures
            config == (Config { memory_limit: Some(bytes), ..self }),
    {
        Config {
            memory_limit: Some(bytes),
            threads: self.threads,
            query_timeout: self.query_timeout,
        }
    }

    /// The same settings with no memory limit.
    pub fn with_no_memory_limit(self) -> (config: Config)
        ensures
            config == (Config { memory_limit: None, ..self }),
    {
        Config { memory_limit: None, threads: self.threads, query_timeout: self.query_timeout }
    }

    /// The same settings with this memory limit, written the way a person writes one.
    pub fn with_memory_limit_text(self, text: &str, measured: Option<Measured>) -> (config: Result<
        Config,
        Error,
    >)
        ensures
            match config {
                Ok(config) => config.memory_limit matches Some(bytes) && size_read(text@, measured)
                    == Ok::<u64, Failure>(bytes) && config == (Config {
                    memory_limit: Some(bytes),
                    ..self
                }),
                Err(error) => size_read(text@, measured) == Err::<u64, Failure>(error@),
            },
    {
        match parse_size(text, measured) {
            Ok(bytes) => Ok(self.with_memory_limit(bytes)),
            Err(error) => Err(error),
        }
    }

    /// The same settings with this thread count, which is at least one.
    pub fn with_threads(self, threads: usize) -> (config: Result<Config, Error>)
        ensures
            match config {
                Ok(config) => threads > 0 && config == (Config { threads, ..self }),
                Err(error) => threads == 0 && error@ == (Failure {
                    code: ErrorCode::InvalidInput,
                    message: "threads must be at least 1"@,
                    about: About::Nothing,
                }),
            },
    {
        if threads == 0 {
            return Err(Error::invalid_input("threads must be at least 1"));
        }
        Ok(Config { memory_limit: self.memory_limit, threads, query_timeout: self.query_timeout })
    }

    /// The same settings with this query timeout.
    pub fn with_query_timeout(self, timeout: Timeout) -> (config: Config)
        ensures
            config == (Config { query_timeout: Some(timeout), ..self }),
    {
        Config {
            memory_limit: self.memory_limit,
            threads: self.threads,
            query_timeout: Some(timeout),
        }
    }

    /// The same settings with no query timeout.
    pub fn with_no_query_timeout(self) -> (config: Config)
        ensures
            config == (Config { query_timeout: None, ..self }),
    {
        Config { memory_limit: self.memory_limit, threads: self.threads, query_timeout: None }
    }

    /// Every setting as a name and a value, in a fixed order.
    pub fn settings(&self) -> (settings: Vec<(&'static str, String)>)
        ensures
            settings@.len() == 3,
            settings@[0].0@ == "memory-limit"@,
            settings@[0].1@ == match self.memory_limit {
                Some(bytes) => size_text(bytes as nat),
                None => "unlimited"@,
            },
            settings@[1].0@ == "threads"@,
            settings@[1].1@ == decimal(self.threads as nat),
            settings@[2].0@ == "query-timeout"@,
            settings@[2].1@ == match self.query_timeout {
                Some(timeout) => decimal(
                    (timeout.secs * 1000 + timeout.nanos / 1_000_000) as nat,
                ) + "ms"@,
                None => "none"@,
            },
    {
        let limit = match self.memory_limit {
            Some(bytes) => format_size(bytes),
            None => "unlimited".to_owned(),
        };
        let threads = decimal_text(self.threads as u128);
        let timeout = match self.query_timeout {
            Some(timeout) => {
                let mut text = decimal_text(timeout.as_millis());
                text.append("ms");
                text
            },
            None => "none".to_owned(),
        };
        let mut settings: Vec<(&'static str, String)> = Vec::new();
        settings.push(("memory-limit", limit));
        settings.push(("threads", threads));
        settings.push(("query-timeout", timeout));
        settings
    }
}

/// The largest unit that leaves a whole number of a size, binary before decimal.
pub open spec fn size_unit(bytes: nat) -> Option<(nat, Seq<char>)> {
    if whole(bytes, 1_099_511_627_776) {
        Some((1_099_511_627_776, "TiB"@))
    } else if whole(bytes, 1_000_000_000_000) {
        Some((1_000_000_000_000, "TB"@))
    } else if whole(bytes, 1_073_741_824) {
        Some((1_073_741_824, "GiB"@))
    } else if whole(bytes, 1_000_000_000) {
        Some((1_000_000_000, "GB"@))
    } else if whole(bytes, 1_048_576) {
        Some((1_048_576, "MiB"@))
    } else if whole(bytes, 1_000_000) {
        Some((1_000_000, "MB"@))
    } else if whole(bytes, 1024) {
        Some((1024, "KiB"@))
    } else if whole(bytes, 1000) {
        Some((1000, "KB"@))
    } else {
        None
    }
}

/// Whether a size is a whole number, and not zero, of a unit.
pub open spec fn whole(bytes: nat, scale: nat) -> bool {
    bytes >= scale && bytes % scale == 0
}

/// A size in bytes, written the way a person reads one: in the largest unit that leaves a whole
/// number, and in bytes where none does.
pub open spec fn size_text(bytes: nat) -> Seq<char> {
    match size_unit(bytes) {
        Some((scale, unit)) => decimal(bytes / scale) + unit,
        None => decimal(bytes) + "B"@,
    }
}

fn is_whole(bytes: u64, scale: u64) -> (yes: bool)
    requires
        scale > 0,
    ensures
        yes == whole(bytes as nat, scale as nat),
{
    bytes >= scale && bytes % scale == 0
}

/// A size in bytes, written the way a person reads one.
///
/// A limit set as `1GiB` prints as `1GiB` and one set as `2GB` prints as `2GB`. A size that is not
/// a whole number of any unit prints as bytes, which is exact.
pub fn format_size(bytes: u64) -> (text: String)
    ensures
        text@ == size_text(bytes as nat),
{
    let (scale, unit): (u64, &str) = if is_whole(bytes, 1_099_511_627_776) {
        (1_099_511_627_776, "TiB")
    } else if is_whole(bytes, 1_000_000_000_000) {
        (1_000_000_000_000, "TB")
    } else if is_whole(bytes, 1_073_741_824) {
        (1_073_741_824, "GiB")
    } else if is_whole(bytes, 1_000_000_000) {
        (1_000_000_000, "GB")
    } else if is_whole(bytes, 1_048_576) {
        (1_048_576, "MiB")
    } else if is_whole(bytes, 1_000_000) {
        (1_000_000, "MB")
    } else if is_whole(bytes, 1024) {
        (1024, "KiB")
    } else if is_whole(bytes, 1000) {
        (1000, "KB")
    } else {
        (1, "B")
    };
    let mut text = decimal_text((bytes / scale) as u128);
    text.append(unit);
    text
}

/// What a printed size stands for is the size: the number in front of the unit times the unit.
pub proof fn law_a_printed_size_is_exact(bytes: nat)
    ensures
        match size_unit(bytes) {
            Some((scale, unit)) => (bytes / scale) * scale == bytes && size_text(bytes) == decimal(
                bytes / scale,
            ) + unit && unit_scale(unit) == Some(scale),
            None => size_text(bytes) == decimal(bytes) + "B"@ && unit_scale("B"@) == Some(1nat),
        },
{
    lemma_units();
    if let Some((scale, unit)) = size_unit(bytes) {
        vstd::arithmetic::div_mod::lemma_fundamental_div_mod(bytes as int, scale as int);
        assert((bytes / scale) * scale == bytes) by (nonlinear_arith)
            requires
                bytes == scale * (bytes / scale) + bytes % scale,
                bytes % scale == 0,
                scale > 0,
        ;
    }
}

/// Whether a text is white space alone.
pub open spec fn all_space(text: Seq<char>) -> bool {
    forall|i: int| 0 <= i < text.len() ==> is_space(#[trigger] text[i])
}

proof fn lemma_past_space(text: Seq<char>, from: int, stop: int, to: int)
    requires
        0 <= from <= stop < to <= text.len(),
        forall|i: int| from <= i < stop ==> is_space(#[trigger] text[i]),
        !is_space(text[stop]),
    ensures
        past_space(text, from, to) == stop,
    decreases stop - from,
{
    if from < stop {
        lemma_past_space(text, from + 1, stop, to);
    }
}

proof fn lemma_before_space(text: Seq<char>, from: int, stop: int, to: int)
    requires
        0 <= from < stop <= to <= text.len(),
        forall|i: int| stop <= i < to ==> is_space(#[trigger] text[i]),
        !is_space(text[stop - 1]),
    ensures
        before_space(text, from, to) == stop,
    decreases to - stop,
{
    if stop < to {
        lemma_before_space(text, from, stop, to - 1);
    }
}

/// White space round a text that starts and ends in something else comes off.
proof fn lemma_trimmed(before: Seq<char>, inner: Seq<char>, after: Seq<char>)
    requires
        all_space(before),
        all_space(after),
        inner.len() > 0,
        !is_space(inner[0]),
        !is_space(inner.last()),
    ensures
        trimmed(before + inner + after) == inner,
{
    let text = before + inner + after;
    let from = before.len() as int;
    let stop = from + inner.len();
    assert forall|i: int| 0 <= i < from implies is_space(#[trigger] text[i]) by {
        assert(text[i] == before[i]);
    }
    assert forall|i: int| stop <= i < text.len() implies is_space(#[trigger] text[i]) by {
        assert(text[i] == after[i - stop]);
    }
    assert(text[from] == inner[0]);
    assert(text[stop - 1] == inner.last());
    lemma_past_space(text, 0, from, text.len() as int);
    lemma_before_space(text, from, stop, text.len() as int);
    assert(text.subrange(from, stop) =~= inner);
}

/// A number followed by white space and letters ends where they start.
proof fn lemma_number_ends(text: Seq<char>, digits: int, to: int)
    requires
        0 < digits <= to <= text.len(),
        !is_letter(text[digits - 1]),
        !is_space(text[digits - 1]),
        forall|i: int| digits <= i < to ==> is_letter(#[trigger] text[i]) || is_space(text[i]),
    ensures
        number_end(text, to) == digits,
    decreases to,
{
    if digits < to {
        lemma_number_ends(text, digits, to - 1);
    }
}

/// The number and the unit of a size come apart where its last letters begin, and white space beside
/// either is no part of it. A number may hold a sign, a point or an exponent, as long as it does not end
/// in a letter.
pub proof fn law_a_size_is_a_number_and_a_unit(
    before: Seq<char>,
    digits: Seq<char>,
    between: Seq<char>,
    unit: Seq<char>,
    after: Seq<char>,
)
    requires
        all_space(before),
        all_space(between),
        all_space(after),
        digits.len() > 0,
        !is_space(digits[0]),
        !is_space(digits.last()),
        !is_letter(digits.last()),
        unit.len() > 0,
        forall|i: int| 0 <= i < unit.len() ==> is_letter(#[trigger] unit[i]),
    ensures
        number_part(before + digits + between + unit + after) == digits,
        unit_part(before + digits + between + unit + after) == unit,
{
    let none = Seq::<char>::empty();
    let inner = digits + between + unit;
    let end = digits.len() as int;
    assert(is_letter(unit[0]) && is_letter(unit.last()));
    assert(inner[0] == digits[0]);
    assert(inner.last() == unit.last());
    assert(before + digits + between + unit + after =~= before + inner + after);
    lemma_trimmed(before, inner, after);
    assert forall|i: int| end <= i < inner.len() implies is_letter(#[trigger] inner[i]) || is_space(
        inner[i],
    ) by {
        if i < end + between.len() {
            assert(inner[i] == between[i - end]);
        } else {
            assert(inner[i] == unit[i - end - between.len()]);
        }
    }
    assert(inner[end - 1] == digits.last());
    lemma_number_ends(inner, end, inner.len() as int);
    assert(inner.subrange(0, end) =~= none + digits + none);
    assert(inner.subrange(end, inner.len() as int) =~= between + unit + none);
    lemma_trimmed(none, digits, none);
    lemma_trimmed(between, unit, none);
}

/// The number and the unit of a text of digits and letters come apart where the digits end, and
/// white space beside either is no part of it.
proof fn lemma_parts(
    before: Seq<char>,
    digits: Seq<char>,
    between: Seq<char>,
    unit: Seq<char>,
    after: Seq<char>,
)
    requires
        all_space(before),
        all_space(between),
        all_space(after),
        digits.len() > 0,
        unit.len() > 0,
        forall|i: int| 0 <= i < digits.len() ==> is_digit(#[trigger] digits[i]),
        forall|i: int| 0 <= i < unit.len() ==> is_letter(#[trigger] unit[i]),
    ensures
        number_part(before + digits + between + unit + after) == digits,
        unit_part(before + digits + between + unit + after) == unit,
{
    assert(is_digit(digits[0]) && is_digit(digits.last()));
    law_a_size_is_a_number_and_a_unit(before, digits, between, unit, after);
}

/// A size without a unit is a number of bytes.
pub proof fn law_a_size_without_a_unit_is_in_bytes(
    before: Seq<char>,
    digits: Seq<char>,
    after: Seq<char>,
)
    requires
        all_space(before),
        all_space(after),
        digits.len() > 0,
        !is_space(digits[0]),
        !is_space(digits.last()),
        !is_letter(digits.last()),
    ensures
        number_part(before + digits + after) == digits,
        unit_part(before + digits + after).len() == 0,
        unit_scale(unit_part(before + digits + after)) == Some(1nat),
{
    let none = Seq::<char>::empty();
    let end = digits.len() as int;
    lemma_trimmed(before, digits, after);
    lemma_number_ends(digits, end, end);
    assert(digits.subrange(0, end) =~= none + digits + none);
    lemma_trimmed(none, digits, none);
    assert(digits.subrange(end, end) =~= none);
    assert(trimmed(none).len() == 0);
    reveal_strlit("");
    assert(lowered(trimmed(none)) =~= lowered(""@));
}

/// The number a size is printed with.
pub open spec fn size_number(bytes: nat) -> nat {
    match size_unit(bytes) {
        Some((scale, _)) => bytes / scale,
        None => bytes,
    }
}

/// The unit a size is printed in.
pub open spec fn printed_unit(bytes: nat) -> Seq<char> {
    match size_unit(bytes) {
        Some((_, unit)) => unit,
        None => "B"@,
    }
}

/// A printed size reads back as the bytes it was printed from, whatever the case of its unit and
/// whatever white space stands before it, after it and between its number and its unit: the number
/// and the unit are read as they were printed, and the one times the other is the size.
pub proof fn law_a_printed_size_reads_back_however_it_is_spaced(
    bytes: nat,
    before: Seq<char>,
    between: Seq<char>,
    unit: Seq<char>,
    after: Seq<char>,
)
    requires
        all_space(before),
        all_space(between),
        all_space(after),
        same_but_case(unit, printed_unit(bytes)),
    ensures
        ({
            let text = before + decimal(size_number(bytes)) + between + unit + after;
            unit_scale(unit_part(text)) matches Some(scale) && decimal_value(number_part(text))
                * scale == bytes
        }),
{
    law_a_printed_size_is_exact(bytes);
    lemma_units();
    reveal_strlit("B");
    reveal_strlit("KB");
    reveal_strlit("MB");
    reveal_strlit("GB");
    reveal_strlit("TB");
    reveal_strlit("KiB");
    reveal_strlit("MiB");
    reveal_strlit("GiB");
    reveal_strlit("TiB");
    let printed = printed_unit(bytes);
    assert(lowered(unit).len() == lowered(printed).len());
    assert forall|i: int| 0 <= i < unit.len() implies is_letter(#[trigger] unit[i]) by {
        assert(lowered(unit)[i] == lowered(printed)[i]);
        assert(is_letter(printed[i]));
        assert('a' <= lower(printed[i]) <= 'z');
        assert(lower(unit[i]) == lower(printed[i]));
    }
    lemma_digits(size_number(bytes));
    lemma_parts(before, decimal(size_number(bytes)), between, unit, after);
    law_decimal_reads_back(size_number(bytes));
    assert(unit_scale(unit) == unit_scale(printed));
    match size_unit(bytes) {
        Some((scale, _)) => {
            assert(unit_scale(printed) == Some(scale));
            assert(size_number(bytes) * scale == bytes);
        },
        None => {
            assert(unit_scale(printed) == Some(1nat));
            assert(bytes * 1 == bytes);
        },
    }
}

/// A printed size reads back as the bytes it was printed from.
pub proof fn law_a_printed_size_reads_back(bytes: nat)
    ensures
        unit_scale(unit_part(size_text(bytes))) matches Some(scale) && decimal_value(
            number_part(size_text(bytes)),
        ) * scale == bytes,
{
    let none = Seq::<char>::empty();
    law_a_printed_size_reads_back_however_it_is_spaced(
        bytes,
        none,
        none,
        printed_unit(bytes),
        none,
    );
    assert(size_text(bytes) =~= none + decimal(size_number(bytes)) + none + printed_unit(bytes)
        + none);
}

proof fn lemma_units()
    ensures
        unit_scale("B"@) == Some(1nat),
        unit_scale("KB"@) == Some(1000nat),
        unit_scale("MB"@) == Some(1_000_000nat),
        unit_scale("GB"@) == Some(1_000_000_000nat),
        unit_scale("TB"@) == Some(1_000_000_000_000nat),
        unit_scale("KiB"@) == Some(1024nat),
        unit_scale("MiB"@) == Some(1_048_576nat),
        unit_scale("GiB"@) == Some(1_073_741_824nat),
        unit_scale("TiB"@) == Some(1_099_511_627_776nat),
{
    reveal_strlit("");
    reveal_strlit("B");
    reveal_strlit("KB");
    reveal_strlit("MB");
    reveal_strlit("GB");
    reveal_strlit("TB");
    reveal_strlit("KIB");
    reveal_strlit("MIB");
    reveal_strlit("GIB");
    reveal_strlit("TIB");
    reveal_strlit("KiB");
    reveal_strlit("MiB");
    reveal_strlit("GiB");
    reveal_strlit("TiB");
    assert(lowered("KiB"@) =~= lowered("KIB"@));
    assert(lowered("MiB"@) =~= lowered("MIB"@));
    assert(lowered("GiB"@) =~= lowered("GIB"@));
    assert(lowered("TiB"@) =~= lowered("TIB"@));
    assert(lowered("B"@).len() == 1 && lowered(""@).len() == 0);
    assert(lowered("KB"@).len() == 2 && lowered("MB"@).len() == 2 && lowered("GB"@).len() == 2
        && lowered("TB"@).len() == 2);
    assert(lowered("KIB"@).len() == 3 && lowered("MIB"@).len() == 3 && lowered("GIB"@).len() == 3
        && lowered("TIB"@).len() == 3);
    assert(lowered("KB"@)[0] == 'k' && lowered("MB"@)[0] == 'm' && lowered("GB"@)[0] == 'g'
        && lowered("TB"@)[0] == 't');
    assert(lowered("KIB"@)[0] == 'k' && lowered("MIB"@)[0] == 'm' && lowered("GIB"@)[0] == 'g'
        && lowered("TIB"@)[0] == 't');
}

/// What a number times its unit comes to, as a size.
#[derive(Debug, Clone, Copy, PartialEq, Eq, Structural)]
pub enum Measured {
    /// A whole number of bytes, any fraction dropped.
    Bytes(u64),
    /// Below zero, or not a finite number.
    NotASize,
    /// At or past two to the sixty fourth.
    TooLarge,
}

/// How many bytes a unit is, and nothing for a unit that is not one. Case does not matter.
pub open spec fn unit_scale(unit: Seq<char>) -> Option<nat> {
    if same_but_case(unit, ""@) || same_but_case(unit, "B"@) {
        Some(1)
    } else if same_but_case(unit, "KB"@) {
        Some(1000)
    } else if same_but_case(unit, "MB"@) {
        Some(1_000_000)
    } else if same_but_case(unit, "GB"@) {
        Some(1_000_000_000)
    } else if same_but_case(unit, "TB"@) {
        Some(1_000_000_000_000)
    } else if same_but_case(unit, "KIB"@) {
        Some(1024)
    } else if same_but_case(unit, "MIB"@) {
        Some(1_048_576)
    } else if same_but_case(unit, "GIB"@) {
        Some(1_073_741_824)
    } else if same_but_case(unit, "TIB"@) {
        Some(1_099_511_627_776)
    } else {
        None
    }
}

/// Where the number of a written size ends: before the letters and white space it ends in.
pub open spec fn number_end(text: Seq<char>, to: int) -> int
    decreases to,
{
    if 0 < to && (is_letter(text[to - 1]) || is_space(text[to - 1])) {
        number_end(text, to - 1)
    } else {
        to
    }
}

/// The number of a written size, as it is written.
pub open spec fn number_part(text: Seq<char>) -> Seq<char> {
    let inner = trimmed(text);
    trimmed(inner.subrange(0, number_end(inner, inner.len() as int)))
}

/// The unit of a written size, as it is written.
pub open spec fn unit_part(text: Seq<char>) -> Seq<char> {
    let inner = trimmed(text);
    trimmed(inner.subrange(number_end(inner, inner.len() as int), inner.len() as int))
}

/// What a written size comes to, given what its number times its unit comes to, which is nothing
/// where the number part is not a number.
pub open spec fn size_read(text: Seq<char>, measured: Option<Measured>) -> Result<u64, Failure> {
    match measured {
        None => Err(
            Failure {
                code: ErrorCode::Parser,
                message: "Memory must have a number (e.g. 1GB)"@,
                about: About::Nothing,
            },
        ),
        Some(measured) => if unit_scale(unit_part(text)) is None {
            Err(
                Failure {
                    code: ErrorCode::Parser,
                    message: "Unknown unit for memory: '"@ + lowered(unit_part(text))
                        + "' (expected: KB, MB, GB, TB for 1000^i units or KiB, MiB, GiB, TiB for 1024^i units)"@,
                    about: About::Nothing,
                },
            )
        } else {
            match measured {
                Measured::Bytes(bytes) => Ok(bytes),
                Measured::NotASize => Err(
                    Failure {
                        code: ErrorCode::Parser,
                        message: "\""@ + trimmed(text) + "\" is not a size"@,
                        about: About::Nothing,
                    },
                ),
                Measured::TooLarge => Err(
                    Failure {
                        code: ErrorCode::Parser,
                        message: "\""@ + trimmed(text) + "\" is larger than a 64 bit size"@,
                        about: About::Nothing,
                    },
                ),
            }
        },
    }
}

/// The number and the unit of a written size, as they are written.
pub fn size_parts(text: &str) -> (parts: (&str, &str))
    ensures
        parts.0@ == number_part(text@),
        parts.1@ == unit_part(text@),
{
    let inner = trim(text);
    let len: usize = inner.unicode_len();
    let mut to: usize = len;
    while to > 0 && unit_char(inner.get_char(to - 1))
        invariant
            to <= len,
            len == inner@.len(),
            number_end(inner@, len as int) == number_end(inner@, to as int),
        decreases to,
    {
        to -= 1;
    }
    (trim(inner.substring_char(0, to)), trim(inner.substring_char(to, len)))
}

fn unit_char(c: char) -> (yes: bool)
    ensures
        yes == (is_letter(c) || is_space(c)),
{
    ('a' <= c && c <= 'z') || ('A' <= c && c <= 'Z') || crate::scan::space(c)
}

/// How many bytes a unit is.
pub fn size_scale(unit: &str) -> (scale: Option<u64>)
    ensures
        match scale {
            Some(scale) => unit_scale(unit@) == Some(scale as nat),
            None => unit_scale(unit@) is None,
        },
{
    if equal_but_case(unit, "") || equal_but_case(unit, "B") {
        Some(1)
    } else if equal_but_case(unit, "KB") {
        Some(1000)
    } else if equal_but_case(unit, "MB") {
        Some(1_000_000)
    } else if equal_but_case(unit, "GB") {
        Some(1_000_000_000)
    } else if equal_but_case(unit, "TB") {
        Some(1_000_000_000_000)
    } else if equal_but_case(unit, "KIB") {
        Some(1024)
    } else if equal_but_case(unit, "MIB") {
        Some(1_048_576)
    } else if equal_but_case(unit, "GIB") {
        Some(1_073_741_824)
    } else if equal_but_case(unit, "TIB") {
        Some(1_099_511_627_776)
    } else {
        None
    }
}

/// A size written the way a person writes one, in bytes.
///
/// `KB`, `MB`, `GB` and `TB` are powers of a thousand, and `KiB`, `MiB`, `GiB` and `TiB` are powers
/// of 1024. A number with no unit is bytes. Case does not matter and a space before the unit is
/// allowed. The number may have a fraction, so what it comes to times the unit is measured by
/// whoever holds the number, out of [`size_parts`] and [`size_scale`].
pub fn parse_size(text: &str, measured: Option<Measured>) -> (bytes: Result<u64, Error>)
    ensures
        match bytes {
            Ok(bytes) => size_read(text@, measured) == Ok::<u64, Failure>(bytes),
            Err(error) => size_read(text@, measured) == Err::<u64, Failure>(error@),
        },
{
    let measured: Measured = match measured {
        Some(measured) => measured,
        None => return Err(Error::parser("Memory must have a number (e.g. 1GB)")),
    };
    let (_, unit) = size_parts(text);
    if size_scale(unit).is_none() {
        let mut message = "Unknown unit for memory: '".to_owned();
        append_lowered(&mut message, unit);
        message.append(
            "' (expected: KB, MB, GB, TB for 1000^i units or KiB, MiB, GiB, TiB for 1024^i units)",
        );
        return Err(Error { code: ErrorCode::Parser, message, about: Subject::Nothing });
    }
    match measured {
        Measured::Bytes(bytes) => Ok(bytes),
        Measured::NotASize => Err(
            Error {
                code: ErrorCode::Parser,
                message: quoted(text, "\" is not a size"),
                about: Subject::Nothing,
            },
        ),
        Measured::TooLarge => Err(
            Error {
                code: ErrorCode::Parser,
                message: quoted(text, "\" is larger than a 64 bit size"),
                about: Subject::Nothing,
            },
        ),
    }
}

fn quoted(text: &str, rest: &str) -> (message: String)
    ensures
        message@ == "\""@ + trimmed(text@) + rest@,
{
    let mut message = "\"".to_owned();
    message.append(trim(text));
    message.append(rest);
    message
}

fn append_lowered(message: &mut String, text: &str)
    ensures
        final(message)@ == old(message)@ + lowered(text@),
{
    let low = crate::scan::lower_text(text);
    message.append(low.as_str());
}

/// How many bytes of pages a database keeps between queries, which is half of its memory limit, and
/// every page without one.
pub fn page_budget(limit: Option<u64>) -> (pages: usize)
    ensures
        match limit {
            None => pages == usize::MAX,
            Some(limit) => pages == if limit / 2 <= usize::MAX {
                (limit / 2) as int
            } else {
                usize::MAX as int
            },
        },
{
    match limit {
        None => usize::MAX,
        Some(limit) => {
            let half: u64 = limit / 2;
            if half <= usize::MAX as u64 {
                half as usize
            } else {
                usize::MAX
            }
        },
    }
}

/// The units are the bytes, the powers of a thousand and the powers of 1024, in letters of either case,
/// and no unit at all is bytes. Nothing else is a unit.
pub proof fn law_a_unit_is_a_power_of_a_thousand_or_of_1024(unit: Seq<char>)
    ensures
        unit.len() == 0 ==> unit_scale(unit) == Some(1nat),
        lowered(unit) == seq!['b'] ==> unit_scale(unit) == Some(1nat),
        lowered(unit) == seq!['k', 'b'] ==> unit_scale(unit) == Some(1000nat),
        lowered(unit) == seq!['m', 'b'] ==> unit_scale(unit) == Some((1000 * 1000) as nat),
        lowered(unit) == seq!['g', 'b'] ==> unit_scale(unit) == Some((1000 * 1000 * 1000) as nat),
        lowered(unit) == seq!['t', 'b'] ==> unit_scale(unit) == Some(
            (1000 * 1000 * 1000 * 1000) as nat,
        ),
        lowered(unit) == seq!['k', 'i', 'b'] ==> unit_scale(unit) == Some(1024nat),
        lowered(unit) == seq!['m', 'i', 'b'] ==> unit_scale(unit) == Some((1024 * 1024) as nat),
        lowered(unit) == seq!['g', 'i', 'b'] ==> unit_scale(unit) == Some(
            (1024 * 1024 * 1024) as nat,
        ),
        lowered(unit) == seq!['t', 'i', 'b'] ==> unit_scale(unit) == Some(
            (1024 * 1024 * 1024 * 1024) as nat,
        ),
        unit_scale(unit) is Some ==> unit.len() <= 3,
        unit_scale(unit) is Some && unit.len() == 1 ==> lowered(unit) == seq!['b'],
        unit_scale(unit) is Some && unit.len() == 2 ==> lowered(unit)[1] == 'b' && (lowered(unit)[0]
            == 'k' || lowered(unit)[0] == 'm' || lowered(unit)[0] == 'g' || lowered(unit)[0] == 't'),
        unit_scale(unit) is Some && unit.len() == 3 ==> lowered(unit)[2] == 'b' && lowered(unit)[1]
            == 'i' && (lowered(unit)[0] == 'k' || lowered(unit)[0] == 'm' || lowered(unit)[0] == 'g'
            || lowered(unit)[0] == 't'),
{
    reveal_strlit("");
    reveal_strlit("B");
    reveal_strlit("KB");
    reveal_strlit("MB");
    reveal_strlit("GB");
    reveal_strlit("TB");
    reveal_strlit("KIB");
    reveal_strlit("MIB");
    reveal_strlit("GIB");
    reveal_strlit("TIB");
    assert(lowered(""@).len() == 0);
    if unit.len() == 0 {
        assert(lowered(unit) =~= lowered(""@));
    }
    assert(lowered(unit).len() == unit.len());
    assert(lowered("B"@) =~= seq!['b']);
    assert(lowered("KB"@) =~= seq!['k', 'b']);
    assert(lowered("MB"@) =~= seq!['m', 'b']);
    assert(lowered("GB"@) =~= seq!['g', 'b']);
    assert(lowered("TB"@) =~= seq!['t', 'b']);
    assert(lowered("KIB"@) =~= seq!['k', 'i', 'b']);
    assert(lowered("MIB"@) =~= seq!['m', 'i', 'b']);
    assert(lowered("GIB"@) =~= seq!['g', 'i', 'b']);
    assert(lowered("TIB"@) =~= seq!['t', 'i', 'b']);
    assert(lowered("KB"@)[0] == 'k' && lowered("MB"@)[0] == 'm' && lowered("GB"@)[0] == 'g'
        && lowered("TB"@)[0] == 't');
    assert(lowered("KIB"@)[0] == 'k' && lowered("MIB"@)[0] == 'm' && lowered("GIB"@)[0] == 'g'
        && lowered("TIB"@)[0] == 't');
}

/// A size is printed in a unit it is a whole number of, and every larger unit leaves a part of it over.
pub proof fn law_a_size_is_printed_in_its_largest_unit(bytes: nat, larger: nat)
    requires
        bytes > 0,
        larger == 1000 || larger == 1024 || larger == 1000 * 1000 || larger == 1024 * 1024 || larger
            == 1000 * 1000 * 1000 || larger == 1024 * 1024 * 1024 || larger == 1000 * 1000 * 1000
            * 1000 || larger == 1024 * 1024 * 1024 * 1024,
    ensures
        match size_unit(bytes) {
            Some((scale, _)) => bytes % scale == 0 && (larger > scale ==> bytes % larger != 0),
            None => bytes % larger != 0,
        },
{
    if bytes < larger {
        vstd::arithmetic::div_mod::lemma_small_mod(bytes, larger);
    }
}

/// A written size is a number of bytes exactly where its number measures as one and its unit is a
/// unit, and what it measures is what it is. Everything else is refused as something that does not
/// parse.
pub proof fn law_a_size_is_what_it_measures(text: Seq<char>, measured: Option<Measured>, bytes: u64)
    ensures
        size_read(text, measured) == Ok::<u64, Failure>(bytes) <==> measured == Some(
            Measured::Bytes(bytes),
        ) && unit_scale(unit_part(text)) is Some,
        size_read(text, measured) is Err ==> size_read(text, measured)->Err_0.code is Parser,
{
}

/// A timeout of whole seconds or of milliseconds is as many milliseconds as it was made with.
pub proof fn law_a_timeout_is_what_it_was_made_with(
    secs: u64,
    millis: u64,
    seconds: Timeout,
    timeout: Timeout,
    first: u128,
    second: u128,
)
    requires
        call_ensures(Timeout::from_secs, (secs,), seconds),
        call_ensures(Timeout::from_millis, (millis,), timeout),
        call_ensures(Timeout::as_millis, (&seconds,), first),
        call_ensures(Timeout::as_millis, (&timeout,), second),
    ensures
        first == secs * 1000,
        second == millis,
{
}

/// What a configuration is told is what it says, and telling it one thing changes nothing else.
pub proof fn law_a_configuration_says_what_it_was_told(
    config: Config,
    bytes: u64,
    timeout: Timeout,
    limited: Config,
    unlimited: Config,
    timed: Config,
    untimed: Config,
)
    requires
        call_ensures(Config::with_memory_limit, (config, bytes), limited),
        call_ensures(Config::with_no_memory_limit, (config,), unlimited),
        call_ensures(Config::with_query_timeout, (config, timeout), timed),
        call_ensures(Config::with_no_query_timeout, (config,), untimed),
    ensures
        limited.memory_limit == Some(bytes),
        unlimited.memory_limit is None,
        timed.query_timeout == Some(timeout),
        untimed.query_timeout is None,
        limited.threads == config.threads && unlimited.threads == config.threads && timed.threads
            == config.threads && untimed.threads == config.threads,
        limited.query_timeout == config.query_timeout && unlimited.query_timeout
            == config.query_timeout,
        timed.memory_limit == config.memory_limit && untimed.memory_limit == config.memory_limit,
{
}

/// A configuration runs on one thread at least: as many as it is told, and none is refused.
pub proof fn law_a_configuration_has_a_thread(
    config: Config,
    threads: usize,
    told: Result<Config, Error>,
    limit: Option<u64>,
    alone: Config,
    cores: usize,
    many: Config,
)
    requires
        call_ensures(Config::with_threads, (config, threads), told),
        call_ensures(Config::new, (limit, None::<usize>), alone),
        call_ensures(Config::new, (limit, Some(cores)), many),
    ensures
        told is Ok <==> threads >= 1,
        told is Ok ==> told->Ok_0.threads == threads && told->Ok_0.memory_limit
            == config.memory_limit && told->Ok_0.query_timeout == config.query_timeout,
        told is Err ==> told->Err_0@.code is InvalidInput,
        alone.threads == 1 && alone.memory_limit == limit && alone.query_timeout is None,
        many.threads == cores && many.memory_limit == limit,
{
}

/// Pages take half of the memory there is, and all they want where there is no limit.
pub proof fn law_pages_take_half_of_the_memory(limit: u64, half: usize, all: usize)
    requires
        call_ensures(page_budget, (Some(limit),), half),
        call_ensures(page_budget, (None::<u64>,), all),
    ensures
        half <= limit - half,
        limit <= usize::MAX ==> limit - half - half <= 1,
        all == usize::MAX,
{
}

} // verus!
