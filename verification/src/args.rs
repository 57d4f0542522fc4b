//! The command line: from the program's arguments to the settings of a run.
use vstd::prelude::*;

use crate::tarql::{OxiTarql, TarqlView};
use crate::text::{chars_of, string_from_chars};

verus! {

/// Why the arguments were refused; each variant that points at an argument holds its
/// index in the argument list.
pub enum ArgError {
    /// The argument is not an option that the program knows.
    UnknownOption(usize),
    /// The option at this index lacks the values it takes.
    MissingValue(usize),
    /// The number given to the option at this index is not a string of decimal digits.
    InvalidNumber(usize),
    /// The number given to the option at this index lies outside its range.
    OutOfRange(usize),
    /// No query file was given.
    MissingQuery,
    /// Gzip output was asked for without an output file.
    GzipWithoutOutput,
}

/// The smallest and largest deduplication windows, and the window that `--dedup` alone sets.
pub const DEDUP_MIN: u32 = 1000;
pub const DEDUP_MAX: u32 = 5000000;
pub const DEDUP_DEFAULT: u32 = 1000;

/// The smallest and largest row limits of a test run, and the limit that `--test` alone sets.
pub const TEST_MIN: u32 = 1;
pub const TEST_MAX: u32 = 49;
pub const TEST_DEFAULT: u32 = 5;

/// The settings before any argument is read.
pub open spec fn default_settings() -> TarqlView {
    TarqlView {
        delimiter: ","@,
        tab: false,
        test: 0,
        headers: true,
        escape_char: "\\"@,
        quote_char: "\""@,
        normalize: false,
        gzip: false,
        ntriples: false,
        quads: false,
        dedup: 0,
        named_graph: ""@,
        input: "STDIN"@,
        output: "STDOUT"@,
        query: ""@,
        split: Seq::empty(),
        bind_empty_strings: false,
    }
}

/// The settings read so far, and whether a query and an output file were named.
pub ghost struct ArgsSoFar {
    pub cfg: TarqlView,
    pub query_given: bool,
    pub output_given: bool,
}

pub open spec fn is_digit(c: char) -> bool {
    '0' <= c && c <= '9'
}

/// A non-empty string of decimal digits.
pub open spec fn all_digits(s: Seq<char>) -> bool {
    s.len() > 0 && forall|k: int| 0 <= k < s.len() ==> is_digit(#[trigger] s[k])
}

/// The number that a string of decimal digits writes.
pub open spec fn decimal_value(s: Seq<char>) -> int
    decreases s.len(),
{
    if s.len() == 0 {
        0
    } else {
        decimal_value(s.drop_last()) * 10 + (s.last() as int - '0' as int)
    }
}

/// Whether `a` starts with `p`.
pub open spec fn has_prefix(a: Seq<char>, p: Seq<char>) -> bool {
    a.len() >= p.len() && a.take(p.len() as int) == p
}

/// The number after `p` in `a`, when it is in `lo..=hi`; else the error for argument `i`.
#[verifier::opaque]
pub open spec fn bounded_number(a: Seq<char>, p: Seq<char>, lo: u32, hi: u32, i: int) -> Result<u32, ArgError> {
    let digits = a.skip(p.len() as int);
    if !all_digits(digits) {
        Err(ArgError::InvalidNumber(i as usize))
    } else if lo <= decimal_value(digits) <= hi {
        Ok(decimal_value(digits) as u32)
    } else {
        Err(ArgError::OutOfRange(i as usize))
    }
}

/// The options that take one value.
pub enum ValueOption {
    Query,
    Input,
    Output,
    Delimiter,
    EscapeChar,
    QuoteChar,
}

/// What kind of option an argument is.
pub enum OptionKind {
    Tab,
    NoHeaderRow,
    Normalize,
    NTriples,
    Gzip,
    BindEmptyStrings,
    Dedup,
    Test,
    DedupWindow,
    TestRows,
    Split,
    Value(ValueOption),
    Unknown,
}

/// The kind of option that the argument `a` is.
#[verifier::opaque]
pub open spec fn option_kind(a: Seq<char>) -> OptionKind {
    if a == "-t"@ || a == "--tab"@ {
        OptionKind::Tab
    } else if a == "-H"@ || a == "--no-header-row"@ {
        OptionKind::NoHeaderRow
    } else if a == "-n"@ || a == "--normalize"@ {
        OptionKind::Normalize
    } else if a == "--ntriples"@ {
        OptionKind::NTriples
    } else if a == "-g"@ || a == "--gzip"@ {
        OptionKind::Gzip
    } else if a == "--bind-empty-strings"@ {
        OptionKind::BindEmptyStrings
    } else if a == "--dedup"@ {
        OptionKind::Dedup
    } else if a == "--test"@ {
        OptionKind::Test
    } else if has_prefix(a, "--dedup="@) {
        OptionKind::DedupWindow
    } else if has_prefix(a, "--test="@) {
        OptionKind::TestRows
    } else if a == "--split"@ {
        OptionKind::Split
    } else if a == "-q"@ || a == "--query"@ {
        OptionKind::Value(ValueOption::Query)
    } else if a == "-i"@ || a == "--input"@ {
        OptionKind::Value(ValueOption::Input)
    } else if a == "-o"@ || a == "--output"@ {
        OptionKind::Value(ValueOption::Output)
    } else if a == "-d"@ || a == "--delimiter"@ {
        OptionKind::Value(ValueOption::Delimiter)
    } else if a == "-p"@ || a == "--escape_char"@ {
        OptionKind::Value(ValueOption::EscapeChar)
    } else if a == "--quote_char"@ {
        OptionKind::Value(ValueOption::QuoteChar)
    } else {
        OptionKind::Unknown
    }
}

proof fn lemma_option_kind_query()
    ensures
        option_kind("-q"@) == OptionKind::Value(ValueOption::Query),
        option_kind("--query"@) == OptionKind::Value(ValueOption::Query),
{
    reveal(option_kind);
    reveal_strlit("--bind-empty-strings");
    reveal_strlit("--dedup");
    reveal_strlit("--dedup=");
    reveal_strlit("--delimiter");
    reveal_strlit("--escape_char");
    reveal_strlit("--gzip");
    reveal_strlit("--input");
    reveal_strlit("--no-header-row");
    reveal_strlit("--normalize");
    reveal_strlit("--ntriples");
    reveal_strlit("--output");
    reveal_strlit("--query");
    reveal_strlit("--quote_char");
    reveal_strlit("--split");
    reveal_strlit("--tab");
    reveal_strlit("--test");
    reveal_strlit("--test=");
    reveal_strlit("-H");
    reveal_strlit("-d");
    reveal_strlit("-g");
    reveal_strlit("-i");
    reveal_strlit("-n");
    reveal_strlit("-o");
    reveal_strlit("-p");
    reveal_strlit("-q");
    reveal_strlit("-t");
    assert("-q"@[1] != "-H"@[1]);
    assert("-q"@[1] != "-d"@[1]);
    assert("-q"@[1] != "-g"@[1]);
    assert("-q"@[1] != "-i"@[1]);
    assert("-q"@[1] != "-n"@[1]);
    assert("-q"@[1] != "-o"@[1]);
    assert("-q"@[1] != "-p"@[1]);
    assert("-q"@[1] != "-t"@[1]);
    assert("--query"@[2] != "--dedup"@[2]);
    assert("--query"@[2] != "--input"@[2]);
    assert("--query"@[2] != "--split"@[2]);
    assert("--query"@[2] != "--test="@[2]);
    assert("--query"@.take(7)[2] != "--test="@[2]);
}

proof fn lemma_option_kind_input()
    ensures
        option_kind("-i"@) == OptionKind::Value(ValueOption::Input),
        option_kind("--input"@) == OptionKind::Value(ValueOption::Input),
{
    reveal(option_kind);
    reveal_strlit("--bind-empty-strings");
    reveal_strlit("--dedup");
    reveal_strlit("--dedup=");
    reveal_strlit("--delimiter");
    reveal_strlit("--escape_char");
    reveal_strlit("--gzip");
    reveal_strlit("--input");
    reveal_strlit("--no-header-row");
    reveal_strlit("--normalize");
    reveal_strlit("--ntriples");
    reveal_strlit("--output");
    reveal_strlit("--query");
    reveal_strlit("--quote_char");
    reveal_strlit("--split");
    reveal_strlit("--tab");
    reveal_strlit("--test");
    reveal_strlit("--test=");
    reveal_strlit("-H");
    reveal_strlit("-d");
    reveal_strlit("-g");
    reveal_strlit("-i");
    reveal_strlit("-n");
    reveal_strlit("-o");
    reveal_strlit("-p");
    reveal_strlit("-q");
    reveal_strlit("-t");
    assert("-i"@[1] != "-H"@[1]);
    assert("-i"@[1] != "-d"@[1]);
    assert("-i"@[1] != "-g"@[1]);
    assert("-i"@[1] != "-n"@[1]);
    assert("-i"@[1] != "-o"@[1]);
    assert("-i"@[1] != "-p"@[1]);
    assert("-i"@[1] != "-q"@[1]);
    assert("-i"@[1] != "-t"@[1]);
    assert("--input"@[2] != "--dedup"@[2]);
    assert("--input"@[2] != "--query"@[2]);
    assert("--input"@[2] != "--split"@[2]);
    assert("--input"@[2] != "--test="@[2]);
    assert("--input"@.take(7)[2] != "--test="@[2]);
}

proof fn lemma_option_kind_output()
    ensures
        option_kind("-o"@) == OptionKind::Value(ValueOption::Output),
        option_kind("--output"@) == OptionKind::Value(ValueOption::Output),
{
    reveal(option_kind);
    reveal_strlit("--bind-empty-strings");
    reveal_strlit("--dedup");
    reveal_strlit("--dedup=");
    reveal_strlit("--delimiter");
    reveal_strlit("--escape_char");
    reveal_strlit("--gzip");
    reveal_strlit("--input");
    reveal_strlit("--no-header-row");
    reveal_strlit("--normalize");
    reveal_strlit("--ntriples");
    reveal_strlit("--output");
    reveal_strlit("--query");
    reveal_strlit("--quote_char");
    reveal_strlit("--split");
    reveal_strlit("--tab");
    reveal_strlit("--test");
    reveal_strlit("--test=");
    reveal_strlit("-H");
    reveal_strlit("-d");
    reveal_strlit("-g");
    reveal_strlit("-i");
    reveal_strlit("-n");
    reveal_strlit("-o");
    reveal_strlit("-p");
    reveal_strlit("-q");
    reveal_strlit("-t");
    assert("-o"@[1] != "-H"@[1]);
    assert("-o"@[1] != "-d"@[1]);
    assert("-o"@[1] != "-g"@[1]);
    assert("-o"@[1] != "-i"@[1]);
    assert("-o"@[1] != "-n"@[1]);
    assert("-o"@[1] != "-p"@[1]);
    assert("-o"@[1] != "-q"@[1]);
    assert("-o"@[1] != "-t"@[1]);
    assert("--output"@[2] != "--dedup="@[2]);
    assert("--output"@.take(8)[2] != "--dedup="@[2]);
    assert("--output"@.take(7)[2] != "--test="@[2]);
}

proof fn lemma_option_kind_delimiter()
    ensures
        option_kind("-d"@) == OptionKind::Value(ValueOption::Delimiter),
        option_kind("--delimiter"@) == OptionKind::Value(ValueOption::Delimiter),
{
    reveal(option_kind);
    reveal_strlit("--bind-empty-strings");
    reveal_strlit("--dedup");
    reveal_strlit("--dedup=");
    reveal_strlit("--delimiter");
    reveal_strlit("--escape_char");
    reveal_strlit("--gzip");
    reveal_strlit("--input");
    reveal_strlit("--no-header-row");
    reveal_strlit("--normalize");
    reveal_strlit("--ntriples");
    reveal_strlit("--output");
    reveal_strlit("--query");
    reveal_strlit("--quote_char");
    reveal_strlit("--split");
    reveal_strlit("--tab");
    reveal_strlit("--test");
    reveal_strlit("--test=");
    reveal_strlit("-H");
    reveal_strlit("-d");
    reveal_strlit("-g");
    reveal_strlit("-i");
    reveal_strlit("-n");
    reveal_strlit("-o");
    reveal_strlit("-p");
    reveal_strlit("-q");
    reveal_strlit("-t");
    assert("-d"@[1] != "-H"@[1]);
    assert("-d"@[1] != "-g"@[1]);
    assert("-d"@[1] != "-i"@[1]);
    assert("-d"@[1] != "-n"@[1]);
    assert("-d"@[1] != "-o"@[1]);
    assert("-d"@[1] != "-p"@[1]);
    assert("-d"@[1] != "-q"@[1]);
    assert("-d"@[1] != "-t"@[1]);
    assert("--delimiter"@.take(8)[4] != "--dedup="@[4]);
    assert("--delimiter"@[2] != "--normalize"@[2]);
    assert("--delimiter"@.take(7)[2] != "--test="@[2]);
}

proof fn lemma_option_kind_escape_char()
    ensures
        option_kind("-p"@) == OptionKind::Value(ValueOption::EscapeChar),
        option_kind("--escape_char"@) == OptionKind::Value(ValueOption::EscapeChar),
{
    reveal(option_kind);
    reveal_strlit("--bind-empty-strings");
    reveal_strlit("--dedup");
    reveal_strlit("--dedup=");
    reveal_strlit("--delimiter");
    reveal_strlit("--escape_char");
    reveal_strlit("--gzip");
    reveal_strlit("--input");
    reveal_strlit("--no-header-row");
    reveal_strlit("--normalize");
    reveal_strlit("--ntriples");
    reveal_strlit("--output");
    reveal_strlit("--query");
    reveal_strlit("--quote_char");
    reveal_strlit("--split");
    reveal_strlit("--tab");
    reveal_strlit("--test");
    reveal_strlit("--test=");
    reveal_strlit("-H");
    reveal_strlit("-d");
    reveal_strlit("-g");
    reveal_strlit("-i");
    reveal_strlit("-n");
    reveal_strlit("-o");
    reveal_strlit("-p");
    reveal_strlit("-q");
    reveal_strlit("-t");
    assert("-p"@[1] != "-H"@[1]);
    assert("-p"@[1] != "-d"@[1]);
    assert("-p"@[1] != "-g"@[1]);
    assert("-p"@[1] != "-i"@[1]);
    assert("-p"@[1] != "-n"@[1]);
    assert("-p"@[1] != "-o"@[1]);
    assert("-p"@[1] != "-q"@[1]);
    assert("-p"@[1] != "-t"@[1]);
    assert("--escape_char"@.take(8)[2] != "--dedup="@[2]);
    assert("--escape_char"@.take(7)[2] != "--test="@[2]);
}

proof fn lemma_option_kind_tab()
    ensures
        option_kind("-t"@) == OptionKind::Tab,
        option_kind("--tab"@) == OptionKind::Tab,
{
    reveal(option_kind);
    reveal_strlit("--bind-empty-strings");
    reveal_strlit("--dedup");
    reveal_strlit("--dedup=");
    reveal_strlit("--delimiter");
    reveal_strlit("--escape_char");
    reveal_strlit("--gzip");
    reveal_strlit("--input");
    reveal_strlit("--no-header-row");
    reveal_strlit("--normalize");
    reveal_strlit("--ntriples");
    reveal_strlit("--output");
    reveal_strlit("--query");
    reveal_strlit("--quote_char");
    reveal_strlit("--split");
    reveal_strlit("--tab");
    reveal_strlit("--test");
    reveal_strlit("--test=");
    reveal_strlit("-H");
    reveal_strlit("-d");
    reveal_strlit("-g");
    reveal_strlit("-i");
    reveal_strlit("-n");
    reveal_strlit("-o");
    reveal_strlit("-p");
    reveal_strlit("-q");
    reveal_strlit("-t");
    assert("-t"@[1] != "-H"@[1]);
    assert("-t"@[1] != "-d"@[1]);
    assert("-t"@[1] != "-g"@[1]);
    assert("-t"@[1] != "-i"@[1]);
    assert("-t"@[1] != "-n"@[1]);
    assert("-t"@[1] != "-o"@[1]);
    assert("-t"@[1] != "-p"@[1]);
    assert("-t"@[1] != "-q"@[1]);
}

proof fn lemma_option_kind_no_header_row()
    ensures
        option_kind("-H"@) == OptionKind::NoHeaderRow,
        option_kind("--no-header-row"@) == OptionKind::NoHeaderRow,
{
    reveal(option_kind);
    reveal_strlit("--bind-empty-strings");
    reveal_strlit("--dedup");
    reveal_strlit("--dedup=");
    reveal_strlit("--delimiter");
    reveal_strlit("--escape_char");
    reveal_strlit("--gzip");
    reveal_strlit("--input");
    reveal_strlit("--no-header-row");
    reveal_strlit("--normalize");
    reveal_strlit("--ntriples");
    reveal_strlit("--output");
    reveal_strlit("--query");
    reveal_strlit("--quote_char");
    reveal_strlit("--split");
    reveal_strlit("--tab");
    reveal_strlit("--test");
    reveal_strlit("--test=");
    reveal_strlit("-H");
    reveal_strlit("-d");
    reveal_strlit("-g");
    reveal_strlit("-i");
    reveal_strlit("-n");
    reveal_strlit("-o");
    reveal_strlit("-p");
    reveal_strlit("-q");
    reveal_strlit("-t");
    assert("-H"@[1] != "-d"@[1]);
    assert("-H"@[1] != "-g"@[1]);
    assert("-H"@[1] != "-i"@[1]);
    assert("-H"@[1] != "-n"@[1]);
    assert("-H"@[1] != "-o"@[1]);
    assert("-H"@[1] != "-p"@[1]);
    assert("-H"@[1] != "-q"@[1]);
    assert("-H"@[1] != "-t"@[1]);
    assert("--no-header-row"@.take(8)[2] != "--dedup="@[2]);
    assert("--no-header-row"@.take(7)[2] != "--test="@[2]);
}

proof fn lemma_option_kind_normalize()
    ensures
        option_kind("-n"@) == OptionKind::Normalize,
        option_kind("--normalize"@) == OptionKind::Normalize,
{
    reveal(option_kind);
    reveal_strlit("--bind-empty-strings");
    reveal_strlit("--dedup");
    reveal_strlit("--dedup=");
    reveal_strlit("--delimiter");
    reveal_strlit("--escape_char");
    reveal_strlit("--gzip");
    reveal_strlit("--input");
    reveal_strlit("--no-header-row");
    reveal_strlit("--normalize");
    reveal_strlit("--ntriples");
    reveal_strlit("--output");
    reveal_strlit("--query");
    reveal_strlit("--quote_char");
    reveal_strlit("--split");
    reveal_strlit("--tab");
    reveal_strlit("--test");
    reveal_strlit("--test=");
    reveal_strlit("-H");
    reveal_strlit("-d");
    reveal_strlit("-g");
    reveal_strlit("-i");
    reveal_strlit("-n");
    reveal_strlit("-o");
    reveal_strlit("-p");
    reveal_strlit("-q");
    reveal_strlit("-t");
    assert("-n"@[1] != "-H"@[1]);
    assert("-n"@[1] != "-d"@[1]);
    assert("-n"@[1] != "-g"@[1]);
    assert("-n"@[1] != "-i"@[1]);
    assert("-n"@[1] != "-o"@[1]);
    assert("-n"@[1] != "-p"@[1]);
    assert("-n"@[1] != "-q"@[1]);
    assert("-n"@[1] != "-t"@[1]);
    assert("--normalize"@.take(8)[2] != "--dedup="@[2]);
    assert("--normalize"@[2] != "--delimiter"@[2]);
    assert("--normalize"@.take(7)[2] != "--test="@[2]);
}

proof fn lemma_option_kind_gzip()
    ensures
        option_kind("-g"@) == OptionKind::Gzip,
        option_kind("--gzip"@) == OptionKind::Gzip,
{
    reveal(option_kind);
    reveal_strlit("--bind-empty-strings");
    reveal_strlit("--dedup");
    reveal_strlit("--dedup=");
    reveal_strlit("--delimiter");
    reveal_strlit("--escape_char");
    reveal_strlit("--gzip");
    reveal_strlit("--input");
    reveal_strlit("--no-header-row");
    reveal_strlit("--normalize");
    reveal_strlit("--ntriples");
    reveal_strlit("--output");
    reveal_strlit("--query");
    reveal_strlit("--quote_char");
    reveal_strlit("--split");
    reveal_strlit("--tab");
    reveal_strlit("--test");
    reveal_strlit("--test=");
    reveal_strlit("-H");
    reveal_strlit("-d");
    reveal_strlit("-g");
    reveal_strlit("-i");
    reveal_strlit("-n");
    reveal_strlit("-o");
    reveal_strlit("-p");
    reveal_strlit("-q");
    reveal_strlit("-t");
    assert("-g"@[1] != "-H"@[1]);
    assert("-g"@[1] != "-d"@[1]);
    assert("-g"@[1] != "-i"@[1]);
    assert("-g"@[1] != "-n"@[1]);
    assert("-g"@[1] != "-o"@[1]);
    assert("-g"@[1] != "-p"@[1]);
    assert("-g"@[1] != "-q"@[1]);
    assert("-g"@[1] != "-t"@[1]);
    assert("--gzip"@[2] != "--test"@[2]);
}

/// Each documented short option is the same option as its long form: `-q`, `-i`, `-o`,
/// `-d`, `-p` take the query, input, output, delimiter and escape character, and `-t`,
/// `-H`, `-n`, `-g` are `--tab`, `--no-header-row`, `--normalize`, `--gzip`.
pub proof fn lemma_short_options_are_long_options()
    ensures
        option_kind("-q"@) == option_kind("--query"@),
        option_kind("--query"@) == OptionKind::Value(ValueOption::Query),
        option_kind("-i"@) == option_kind("--input"@),
        option_kind("--input"@) == OptionKind::Value(ValueOption::Input),
        option_kind("-o"@) == option_kind("--output"@),
        option_kind("--output"@) == OptionKind::Value(ValueOption::Output),
        option_kind("-d"@) == option_kind("--delimiter"@),
        option_kind("--delimiter"@) == OptionKind::Value(ValueOption::Delimiter),
        option_kind("-p"@) == option_kind("--escape_char"@),
        option_kind("--escape_char"@) == OptionKind::Value(ValueOption::EscapeChar),
        option_kind("-t"@) == option_kind("--tab"@),
        option_kind("--tab"@) == OptionKind::Tab,
        option_kind("-H"@) == option_kind("--no-header-row"@),
        option_kind("--no-header-row"@) == OptionKind::NoHeaderRow,
        option_kind("-n"@) == option_kind("--normalize"@),
        option_kind("--normalize"@) == OptionKind::Normalize,
        option_kind("-g"@) == option_kind("--gzip"@),
        option_kind("--gzip"@) == OptionKind::Gzip,
{
    lemma_option_kind_query();
    lemma_option_kind_input();
    lemma_option_kind_output();
    lemma_option_kind_delimiter();
    lemma_option_kind_escape_char();
    lemma_option_kind_tab();
    lemma_option_kind_no_header_row();
    lemma_option_kind_normalize();
    lemma_option_kind_gzip();
}

/// Whether the option kind is a flag, which takes no value.
pub open spec fn is_flag(k: OptionKind) -> bool {
    ||| k is Tab
    ||| k is NoHeaderRow
    ||| k is Normalize
    ||| k is NTriples
    ||| k is Gzip
    ||| k is BindEmptyStrings
    ||| k is Dedup
    ||| k is Test
}

/// The settings after the flag `k`.
pub open spec fn flag_setting(k: OptionKind, c: TarqlView) -> TarqlView {
    match k {
        OptionKind::Tab => TarqlView { tab: true, ..c },
        OptionKind::NoHeaderRow => TarqlView { headers: false, ..c },
        OptionKind::Normalize => TarqlView { normalize: true, ..c },
        OptionKind::NTriples => TarqlView { ntriples: true, ..c },
        OptionKind::Gzip => TarqlView { gzip: true, ..c },
        OptionKind::BindEmptyStrings => TarqlView { bind_empty_strings: true, ..c },
        OptionKind::Dedup => TarqlView { dedup: DEDUP_DEFAULT, ..c },
        OptionKind::Test => TarqlView { test: TEST_DEFAULT, ..c },
        _ => c,
    }
}

/// `st` with the settings replaced by `cfg`.
pub open spec fn with_cfg(st: ArgsSoFar, cfg: TarqlView) -> ArgsSoFar {
    ArgsSoFar { cfg, ..st }
}

/// `st` after the option `o` with the value `v`.
pub open spec fn value_option(o: ValueOption, v: Seq<char>, st: ArgsSoFar) -> ArgsSoFar {
    let c = st.cfg;
    match o {
        ValueOption::Query => ArgsSoFar { cfg: TarqlView { query: v, ..c }, query_given: true, ..st },
        ValueOption::Input => with_cfg(st, TarqlView { input: v, ..c }),
        ValueOption::Output => ArgsSoFar {
            cfg: TarqlView { output: v, ..c },
            output_given: true,
            ..st
        },
        ValueOption::Delimiter => with_cfg(st, TarqlView { delimiter: v, ..c }),
        ValueOption::EscapeChar => with_cfg(st, TarqlView { escape_char: v, ..c }),
        ValueOption::QuoteChar => with_cfg(st, TarqlView { quote_char: v, ..c }),
    }
}

/// What reading the argument at index `i` does to `st`: the settings after it and the
/// index of the next argument to read, or the error.
pub open spec fn next_state(args: Seq<Seq<char>>, i: int, st: ArgsSoFar) -> Result<(ArgsSoFar, int), ArgError> {
    let a = args[i];
    let c = st.cfg;
    let k = option_kind(a);
    if is_flag(k) {
        Ok((with_cfg(st, flag_setting(k, c)), i + 1))
    } else {
        match k {
            OptionKind::DedupWindow => match bounded_number(a, "--dedup="@, DEDUP_MIN, DEDUP_MAX, i) {
                Ok(v) => Ok((with_cfg(st, TarqlView { dedup: v, ..c }), i + 1)),
                Err(e) => Err(e),
            },
            OptionKind::TestRows => match bounded_number(a, "--test="@, TEST_MIN, TEST_MAX, i) {
                Ok(v) => Ok((with_cfg(st, TarqlView { test: v, ..c }), i + 1)),
                Err(e) => Err(e),
            },
            OptionKind::Split => if i + 3 < args.len() {
                Ok(
                    (
                        with_cfg(
                            st,
                            TarqlView {
                                split: c.split.push((args[i + 1], args[i + 2], args[i + 3])),
                                ..c
                            },
                        ),
                        i + 4,
                    ),
                )
            } else {
                Err(ArgError::MissingValue(i as usize))
            },
            OptionKind::Value(o) => if i + 1 < args.len() {
                Ok((value_option(o, args[i + 1], st), i + 2))
            } else {
                Err(ArgError::MissingValue(i as usize))
            },
            _ => Err(ArgError::UnknownOption(i as usize)),
        }
    }
}

/// The settings once every argument from index `i` on is read into `st`: a query must
/// have been named, and an output file too when gzip output is asked for.
pub open spec fn parse_from(args: Seq<Seq<char>>, i: int, st: ArgsSoFar) -> Result<TarqlView, ArgError>
    decreases args.len() - i,
{
    if i >= args.len() || i < 0 {
        if !st.query_given {
            Err(ArgError::MissingQuery)
        } else if st.cfg.gzip && !st.output_given {
            Err(ArgError::GzipWithoutOutput)
        } else {
            Ok(st.cfg)
        }
    } else {
        match next_state(args, i, st) {
            Ok((next, j)) => parse_from(args, j, next),
            Err(e) => Err(e),
        }
    }
}

/// The settings that the arguments give; the first argument is the program's name.
pub open spec fn parsed_args(args: Seq<Seq<char>>) -> Result<TarqlView, ArgError> {
    parse_from(
        args,
        1,
        ArgsSoFar { cfg: default_settings(), query_given: false, output_given: false },
    )
}

/// The settings keep their documented ranges: no deduplication or a window of
/// `DEDUP_MIN..=DEDUP_MAX` triples, and no row limit or a limit of `TEST_MIN..=TEST_MAX` rows.
pub open spec fn settings_in_range(c: TarqlView) -> bool {
    &&& c.dedup == 0 || DEDUP_MIN <= c.dedup <= DEDUP_MAX
    &&& c.test == 0 || TEST_MIN <= c.test <= TEST_MAX
}

proof fn lemma_bounded_number_in_range(a: Seq<char>, p: Seq<char>, lo: u32, hi: u32, i: int)
    ensures
        bounded_number(a, p, lo, hi, i) matches Ok(v) ==> lo <= v <= hi,
{
    reveal(bounded_number);
}

proof fn lemma_parse_from_in_range(args: Seq<Seq<char>>, i: int, st: ArgsSoFar)
    requires
        settings_in_range(st.cfg),
    ensures
        parse_from(args, i, st) matches Ok(c) ==> settings_in_range(c),
    decreases args.len() - i,
{
    if 0 <= i < args.len() {
        let a = args[i];
        lemma_bounded_number_in_range(a, "--dedup="@, DEDUP_MIN, DEDUP_MAX, i);
        lemma_bounded_number_in_range(a, "--test="@, TEST_MIN, TEST_MAX, i);
        if let Ok((next, j)) = next_state(args, i, st) {
            lemma_parse_from_in_range(args, j, next);
        }
    }
}

/// Whatever the arguments, accepted settings keep the documented ranges of the
/// deduplication window and the row limit.
pub proof fn lemma_parsed_args_in_range(args: Seq<Seq<char>>)
    ensures
        parsed_args(args) matches Ok(c) ==> settings_in_range(c),
{
    lemma_parse_from_in_range(
        args,
        1,
        ArgsSoFar { cfg: default_settings(), query_given: false, output_given: false },
    );
}

proof fn lemma_parse_from_keeps_input(args: Seq<Seq<char>>, i: int, st: ArgsSoFar)
    requires
        i >= 1,
        forall|k: int| 1 <= k < args.len() ==> option_kind(#[trigger] args[k]) != OptionKind::Value(
            ValueOption::Input,
        ),
    ensures
        parse_from(args, i, st) matches Ok(c) ==> c.input == st.cfg.input,
    decreases args.len() - i,
{
    if 0 <= i < args.len() {
        if let Ok((next, j)) = next_state(args, i, st) {
            assert(option_kind(args[i]) != OptionKind::Value(ValueOption::Input));
            assert(next.cfg.input == st.cfg.input);
            lemma_parse_from_keeps_input(args, j, next);
        }
    }
}

/// Without an `-i` or `--input` option the input is `STDIN`: the records are read from
/// standard input.
pub proof fn lemma_input_defaults_to_stdin(args: Seq<Seq<char>>)
    requires
        forall|k: int| 1 <= k < args.len() ==> option_kind(#[trigger] args[k]) != OptionKind::Value(
            ValueOption::Input,
        ),
    ensures
        parsed_args(args) matches Ok(c) ==> c.input == "STDIN"@,
{
    lemma_parse_from_keeps_input(
        args,
        1,
        ArgsSoFar { cfg: default_settings(), query_given: false, output_given: false },
    );
}

/// Whether `a` is the text `lit`.
fn text_is(a: &String, lit: &str) -> (r: bool)
    ensures
        r == (a@ == lit@),
{
    a.eq(&String::from_str(lit))
}

/// Whether `a` starts with `p`.
fn starts_with(a: &Vec<char>, p: &Vec<char>) -> (r: bool)
    ensures
        r == has_prefix(a@, p@),
{
    if a.len() < p.len() {
        return false;
    }
    let n = p.len();
    for k in 0..n
        invariant
            n == p@.len(),
            n <= a@.len(),
            forall|j: int| 0 <= j < k ==> a@[j] == p@[j],
    {
        if a[k] != p[k] {
            assert(a@.take(n as int)[k as int] != p@[k as int]);
            return false;
        }
    }
    assert(a@.take(n as int) =~= p@);
    true
}

proof fn lemma_decimal_monotone(s: Seq<char>, k: int)
    requires
        0 <= k < s.len(),
        forall|j: int| 0 <= j < s.len() ==> is_digit(#[trigger] s[j]),
    ensures
        decimal_value(s.take(k + 1)) >= decimal_value(s.take(k)) >= 0,
    decreases k,
{
    assert(s.take(k + 1).drop_last() =~= s.take(k));
    if k > 0 {
        lemma_decimal_monotone(s, k - 1);
    } else {
        assert(s.take(0).len() == 0);
    }
}

/// The number after `p` in `a` for argument `i` (see `bounded_number`).
fn bounded_number_exec(a: &Vec<char>, p: &Vec<char>, lo: u32, hi: u32, i: usize) -> (r: Result<u32, ArgError>)
    requires
        has_prefix(a@, p@),
        hi <= DEDUP_MAX,
    ensures
        r == bounded_number(a@, p@, lo, hi, i as int),
{
    reveal(bounded_number);
    let ghost digits = a@.skip(p@.len() as int);
    let start = p.len();
    let n = a.len();
    if start == n {
        assert(digits.len() == 0);
        return Err(ArgError::InvalidNumber(i));
    }
    let mut acc: u64 = 0;
    let mut over = false;
    let mut k = start;
    assert(digits.take(0).len() == 0);
    while k < n
        invariant
            start == p@.len(),
            n == a@.len(),
            start < n,
            start <= k <= n,
            hi <= DEDUP_MAX,
            digits == a@.skip(start as int),
            forall|j: int| 0 <= j < k - start ==> is_digit(#[trigger] digits[j]),
            !over ==> acc == decimal_value(digits.take(k - start)) && acc <= hi,
            over ==> decimal_value(digits.take(k - start)) > hi,
        decreases n - k,
    {
        let c = a[k];
        assert(c == digits[k - start]);
        if !('0' <= c && c <= '9') {
            assert(!all_digits(digits));
            proof {
                reveal(bounded_number);
            }
            return Err(ArgError::InvalidNumber(i));
        }
        let ghost j = k - start;
        assert(digits.take(j + 1).drop_last() =~= digits.take(j));
        assert(digits.take(j + 1).last() == c);
        if !over {
            acc = acc * 10 + (c as u64 - '0' as u64);
            if acc > hi as u64 {
                over = true;
            }
        } else {
            proof {
                assert forall|m: int| 0 <= m < j + 1 implies is_digit(#[trigger] digits.take(j + 1)[m]) by {
                    assert(digits.take(j + 1)[m] == digits[m]);
                }
                lemma_decimal_monotone(digits.take(j + 1), j);
                assert(digits.take(j + 1).take(j) =~= digits.take(j));
                assert(digits.take(j + 1).take(j + 1) =~= digits.take(j + 1));
            }
        }
        k = k + 1;
    }
    assert(digits.take(n - start) =~= digits);
    assert(all_digits(digits));
    if over || acc < lo as u64 {
        Err(ArgError::OutOfRange(i))
    } else {
        Ok(acc as u32)
    }
}

/// The settings before any argument is read.
fn default_config() -> (r: OxiTarql)
    ensures
        r@ == default_settings(),
{
    let r = OxiTarql {
        delimiter: String::from_str(","),
        tab: false,
        test: 0,
        headers: true,
        escape_char: String::from_str("\\"),
        quote_char: String::from_str("\""),
        normalize: false,
        gzip: false,
        ntriples: false,
        quads: false,
        dedup: 0,
        named_graph: String::new(),
        input: String::from_str("STDIN"),
        output: String::from_str("STDOUT"),
        query: String::new(),
        split: Vec::new(),
        bind_empty_strings: false,
    };
    assert(r.split.deep_view() =~= Seq::<(Seq<char>, Seq<char>, Seq<char>)>::empty());
    assert(r.named_graph@ =~= ""@) by {
        reveal_strlit("");
    }
    assert(r.query@ =~= ""@) by {
        reveal_strlit("");
    }
    r
}

/// The kind of option that `a` is (see `option_kind`).
fn classify(a: &String) -> (k: OptionKind)
    ensures
        k == option_kind(a@),
        k is DedupWindow ==> has_prefix(a@, "--dedup="@),
        k is TestRows ==> has_prefix(a@, "--test="@),
{
    reveal(option_kind);
    if text_is(a, "-t") || text_is(a, "--tab") {
        OptionKind::Tab
    } else if text_is(a, "-H") || text_is(a, "--no-header-row") {
        OptionKind::NoHeaderRow
    } else if text_is(a, "-n") || text_is(a, "--normalize") {
        OptionKind::Normalize
    } else if text_is(a, "--ntriples") {
        OptionKind::NTriples
    } else if text_is(a, "-g") || text_is(a, "--gzip") {
        OptionKind::Gzip
    } else if text_is(a, "--bind-empty-strings") {
        OptionKind::BindEmptyStrings
    } else if text_is(a, "--dedup") {
        OptionKind::Dedup
    } else if text_is(a, "--test") {
        OptionKind::Test
    } else if starts_with(&chars_of(a.as_str()), &chars_of("--dedup=")) {
        OptionKind::DedupWindow
    } else if starts_with(&chars_of(a.as_str()), &chars_of("--test=")) {
        OptionKind::TestRows
    } else if text_is(a, "--split") {
        OptionKind::Split
    } else if text_is(a, "-q") || text_is(a, "--query") {
        OptionKind::Value(ValueOption::Query)
    } else if text_is(a, "-i") || text_is(a, "--input") {
        OptionKind::Value(ValueOption::Input)
    } else if text_is(a, "-o") || text_is(a, "--output") {
        OptionKind::Value(ValueOption::Output)
    } else if text_is(a, "-d") || text_is(a, "--delimiter") {
        OptionKind::Value(ValueOption::Delimiter)
    } else if text_is(a, "-p") || text_is(a, "--escape_char") {
        OptionKind::Value(ValueOption::EscapeChar)
    } else if text_is(a, "--quote_char") {
        OptionKind::Value(ValueOption::QuoteChar)
    } else {
        OptionKind::Unknown
    }
}

/// Whether `k` is a flag (see `is_flag`).
fn is_flag_exec(k: &OptionKind) -> (r: bool)
    ensures
        r == is_flag(*k),
{
    match k {
        OptionKind::Tab | OptionKind::NoHeaderRow | OptionKind::Normalize | OptionKind::NTriples
        | OptionKind::Gzip | OptionKind::BindEmptyStrings | OptionKind::Dedup | OptionKind::Test => true,
        _ => false,
    }
}

/// Applies the flag `k` to the settings (see `flag_setting`).
fn set_flag(cfg: &mut OxiTarql, k: &OptionKind)
    requires
        is_flag(*k),
    ensures
        final(cfg)@ == flag_setting(*k, old(cfg)@),
{
    match k {
        OptionKind::Tab => {
            cfg.tab = true;
        },
        OptionKind::NoHeaderRow => {
            cfg.headers = false;
        },
        OptionKind::Normalize => {
            cfg.normalize = true;
        },
        OptionKind::NTriples => {
            cfg.ntriples = true;
        },
        OptionKind::Gzip => {
            cfg.gzip = true;
        },
        OptionKind::BindEmptyStrings => {
            cfg.bind_empty_strings = true;
        },
        OptionKind::Dedup => {
            cfg.dedup = DEDUP_DEFAULT;
        },
        _ => {
            cfg.test = TEST_DEFAULT;
        },
    }
}

/// Reads the argument at index `i` into the settings (see `next_state`).
#[verifier::rlimit(40)]
fn read_argument(
    args: &Vec<String>,
    i: usize,
    cfg: &mut OxiTarql,
    query_given: &mut bool,
    output_given: &mut bool,
) -> (r: Result<usize, ArgError>)
    requires
        i < args@.len(),
    ensures
        match next_state(
            args.deep_view(),
            i as int,
            ArgsSoFar { cfg: old(cfg)@, query_given: *old(query_given), output_given: *old(output_given) },
        ) {
            Ok((st, j)) => r == Ok::<usize, ArgError>(j as usize) && st == ArgsSoFar {
                cfg: final(cfg)@,
                query_given: *final(query_given),
                output_given: *final(output_given),
            },
            Err(e) => r == Err::<usize, ArgError>(e),
        },
{
    let ghost av = args.deep_view();
    let n = args.len();
    let a = &args[i];
    assert(av[i as int] == a@);
    let k = classify(a);
    if is_flag_exec(&k) {
        set_flag(cfg, &k);
        return Ok(i + 1);
    }
    match k {
        OptionKind::DedupWindow => {
            match bounded_number_exec(
                &chars_of(a.as_str()),
                &chars_of("--dedup="),
                DEDUP_MIN,
                DEDUP_MAX,
                i,
            ) {
                Ok(v) => {
                    cfg.dedup = v;
                    Ok(i + 1)
                },
                Err(e) => Err(e),
            }
        },
        OptionKind::TestRows => {
            match bounded_number_exec(&chars_of(a.as_str()), &chars_of("--test="), TEST_MIN, TEST_MAX, i) {
                Ok(v) => {
                    cfg.test = v;
                    Ok(i + 1)
                },
                Err(e) => Err(e),
            }
        },
        OptionKind::Split => {
            if 3 < n - i {
                let ghost before = cfg.split.deep_view();
                cfg.split.push((args[i + 1].clone(), args[i + 2].clone(), args[i + 3].clone()));
                assert(cfg.split.deep_view() =~= before.push((av[i + 1], av[i + 2], av[i + 3])));
                Ok(i + 4)
            } else {
                Err(ArgError::MissingValue(i))
            }
        },
        OptionKind::Value(o) => {
            if i + 1 < n {
                let v = args[i + 1].clone();
                assert(v@ == av[i + 1]);
                match o {
                    ValueOption::Query => {
                        cfg.query = v;
                        *query_given = true;
                    },
                    ValueOption::Input => {
                        cfg.input = v;
                    },
                    ValueOption::Output => {
                        cfg.output = v;
                        *output_given = true;
                    },
                    ValueOption::Delimiter => {
                        cfg.delimiter = v;
                    },
                    ValueOption::EscapeChar => {
                        cfg.escape_char = v;
                    },
                    ValueOption::QuoteChar => {
                        cfg.quote_char = v;
                    },
                }
                Ok(i + 2)
            } else {
                Err(ArgError::MissingValue(i))
            }
        },
        _ => Err(ArgError::UnknownOption(i)),
    }
}

/// Reads the program's arguments into the settings of a run (see `parsed_args`).
pub fn configure_transform(args: Vec<String>) -> (r: Result<OxiTarql, ArgError>)
    ensures
        match r {
            Ok(c) => parsed_args(args.deep_view()) == Ok::<TarqlView, ArgError>(c@),
            Err(e) => parsed_args(args.deep_view()) == Err::<TarqlView, ArgError>(e),
        },
{
    let ghost av = args.deep_view();
    let mut cfg = default_config();
    let mut query_given = false;
    let mut output_given = false;
    let n = args.len();
    let mut i: usize = 1;
    while i < n
        invariant
            n == args@.len(),
            av == args.deep_view(),
            1 <= i,
            parsed_args(av) == parse_from(
                av,
                i as int,
                ArgsSoFar { cfg: cfg@, query_given, output_given },
            ),
        decreases n - i,
    {
        let ghost st = ArgsSoFar { cfg: cfg@, query_given, output_given };
        match read_argument(&args, i, &mut cfg, &mut query_given, &mut output_given) {
            Ok(j) => {
                i = j;
            },
            Err(e) => {
                return Err(e);
            },
        }
    }
    if !query_given {
        Err(ArgError::MissingQuery)
    } else if cfg.gzip && !output_given {
        Err(ArgError::GzipWithoutOutput)
    } else {
        Ok(cfg)
    }
}

} // verus!
