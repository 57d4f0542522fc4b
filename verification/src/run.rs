//! The decisions of a conversion run: where input and output go, how the CSV reader is
//! set up, what the columns are called, which bindings a row gives the query, and when
//! the deduplication buffer is flushed and the run stops.
use vstd::prelude::*;
use vstd::hash_set::StringHashSet;
use vstd::string::StrSliceExecFns;

use crate::tarql::{Binding, OxiTarql, RowView, TarqlView};
use crate::text::{clean_column, cleaned_column, string_from_chars, trim, unicode_uppercase, without_quotes};

verus! {

/// Where the RDF output is written.
pub enum OutputTarget {
    Stdout,
    GzipFile(String),
    File(String),
}

/// Where the CSV input is read from.
pub enum InputSource {
    Stdin,
    File(String),
}

/// The settings handed to the CSV reader.
pub struct CsvFormat {
    pub has_headers: bool,
    pub delimiter: u8,
    pub quote: u8,
    pub escape: u8,
}

/// The low eight bits of a character's code, which a `char as u8` cast keeps.
pub open spec fn low_byte(c: char) -> u8 {
    (c as u32 % 256) as u8
}

/// The low byte of the first character of `s`.
fn first_byte(s: &String) -> (r: u8)
    requires
        s@.len() > 0,
    ensures
        r == low_byte(s@[0]),
{
    let c = s.as_str().get_char(0);
    (c as u32 % 256) as u8
}

/// The names given to the columns of a file without a header row: `a` to `z`, then
/// `A` to `Z`.
pub const ALPHABET: &'static str = "abcdefghijklmnopqrstuvwxyzABCDEFGHIJKLMNOPQRSTUVWXYZ";

/// The CSV reader's settings for a run: whether there is a header row, the delimiter (a
/// tab, or the low byte of the delimiter's first character), and the low bytes of the
/// first characters of the quote and escape settings.
pub open spec fn csv_settings(c: TarqlView) -> (bool, u8, u8, u8) {
    (
        c.headers,
        if c.tab {
            9u8
        } else {
            low_byte(c.delimiter[0])
        },
        low_byte(c.quote_char[0]),
        low_byte(c.escape_char[0]),
    )
}

/// `--tab` reads the input as the delimiter `"\t"` does, whatever the delimiter setting.
pub proof fn lemma_tab_is_tab_delimiter(a: TarqlView, b: TarqlView)
    requires
        a.tab,
        !b.tab,
        b.delimiter == "\t"@,
        a.headers == b.headers,
        a.quote_char == b.quote_char,
        a.escape_char == b.escape_char,
    ensures
        csv_settings(a) == csv_settings(b),
{
    reveal_strlit("\t");
    assert(b.delimiter[0] == '\t');
    assert(('\t' as u32) % 256 == 9);
}

/// Whether the run stops after row `row` (counted from 0): a row limit is set and this
/// row reaches it.
pub open spec fn stops_after(test: u32, row: int) -> bool {
    test != 0 && row + 1 == test
}

/// The number of records a run reads from `m` records when it has read `row` of them and
/// not stopped: it goes on until the input ends or `stops_after` holds.
pub open spec fn records_read(test: u32, row: int, m: int) -> int
    decreases m - row,
{
    if row >= m {
        row
    } else if stops_after(test, row) {
        row + 1
    } else {
        records_read(test, row + 1, m)
    }
}

proof fn lemma_records_read_from(test: u32, row: int, m: int)
    requires
        0 <= row <= m,
        test == 0 || row < test,
    ensures
        records_read(test, row, m) == if test == 0 {
            m
        } else if test <= m {
            test as int
        } else {
            m
        },
    decreases m - row,
{
    if row < m && !stops_after(test, row) {
        lemma_records_read_from(test, row + 1, m);
    }
}

/// A run over `m` records reads all of them without a row limit, and the first
/// `min(test, m)` with the limit `test`.
pub proof fn lemma_row_limit(test: u32, m: int)
    requires
        m >= 0,
    ensures
        records_read(test, 0, m) == if test == 0 {
            m
        } else if test <= m {
            test as int
        } else {
            m
        },
{
    lemma_records_read_from(test, 0, m);
}

/// The one-letter column names, in order.
pub open spec fn letter_columns() -> Seq<Seq<char>> {
    ALPHABET@.map_values(|c: char| seq![c])
}

/// Without a header row there are 52 column names: `a` first, `z` the 26th, `A` the
/// 27th and `Z` the last.
pub proof fn lemma_letter_columns()
    ensures
        letter_columns().len() == 52,
        letter_columns()[0] == seq!['a'],
        letter_columns()[25] == seq!['z'],
        letter_columns()[26] == seq!['A'],
        letter_columns()[51] == seq!['Z'],
{
    reveal_strlit("abcdefghijklmnopqrstuvwxyzABCDEFGHIJKLMNOPQRSTUVWXYZ");
}

/// The column names: the cleaned header cells, or the one-letter names when the file
/// has no header row.
pub open spec fn column_names_of(headers: bool, normalize: bool, header_cells: Seq<Seq<char>>) -> Seq<
    Seq<char>,
> {
    if headers {
        header_cells.map_values(|f: Seq<char>| cleaned_column(f, normalize))
    } else {
        letter_columns()
    }
}

/// The bindings of a row that the query receives: those whose variable the query mentions,
/// and, unless empty values are bound, whose value is not empty.
pub open spec fn query_bindings(vars: Set<Seq<char>>, row: RowView, bind_empty: bool) -> RowView {
    row.filter(|b: (Seq<char>, Seq<char>)| vars.contains(b.0) && (bind_empty || b.1.len() > 0))
}

/// No wanted binding is lost: every binding of the row whose variable the query mentions
/// and whose value is not empty (or any value, when empty values are bound) is handed to
/// the query, wherever it stands in the row.
pub proof fn lemma_query_bindings_keep_wanted(vars: Set<Seq<char>>, row: RowView, bind_empty: bool, k: int)
    requires
        0 <= k < row.len(),
        vars.contains(row[k].0),
        bind_empty || row[k].1.len() > 0,
    ensures
        query_bindings(vars, row, bind_empty).contains(row[k]),
{
    let pred = |b: (Seq<char>, Seq<char>)| vars.contains(b.0) && (bind_empty || b.1.len() > 0);
    row.lemma_filter_contains(pred, k);
}

/// Each part of a row is handed on independently: the bindings of two rows joined are the
/// bindings of the first followed by those of the second.
pub proof fn lemma_query_bindings_of_joined_rows(
    vars: Set<Seq<char>>,
    first: RowView,
    second: RowView,
    bind_empty: bool,
)
    ensures
        query_bindings(vars, first + second, bind_empty) == query_bindings(vars, first, bind_empty)
            + query_bindings(vars, second, bind_empty),
{
    let pred = |b: (Seq<char>, Seq<char>)| vars.contains(b.0) && (bind_empty || b.1.len() > 0);
    Seq::filter_distributes_over_add(first, second, pred);
}

/// A single binding is handed on exactly when the query mentions its variable and its
/// value is not empty or empty values are bound; with the law on joined rows this fixes
/// the bindings of every row, in order.
pub proof fn lemma_query_bindings_of_one_binding(vars: Set<Seq<char>>, b: (Seq<char>, Seq<char>), bind_empty: bool)
    ensures
        vars.contains(b.0) && (bind_empty || b.1.len() > 0) ==> query_bindings(vars, seq![b], bind_empty)
            == seq![b],
        !(vars.contains(b.0) && (bind_empty || b.1.len() > 0)) ==> query_bindings(vars, seq![b], bind_empty).len() == 0,
{
    reveal_with_fuel(Seq::<_>::filter, 2);
    assert(seq![b].drop_last() =~= Seq::<(Seq<char>, Seq<char>)>::empty());
    assert(seq![b].last() == b);
    assert(Seq::<(Seq<char>, Seq<char>)>::empty().push(b) =~= seq![b]);
}

/// The CSV reader is told that the input has a header row exactly when the run says so.
pub proof fn lemma_reader_header_setting(c: TarqlView)
    ensures
        csv_settings(c).0 == c.headers,
        !c.headers ==> !csv_settings(c).0,
{
}

/// With a header row, there is one column name per header cell: the cell trimmed and
/// without double quotes, in its own letter case unless names are normalized, upper-cased
/// when they are. Without one, the names are the letters.
pub proof fn lemma_column_names_from_cells(headers: bool, normalize: bool, cells: Seq<Seq<char>>)
    ensures
        headers ==> column_names_of(headers, normalize, cells).len() == cells.len(),
        headers && !normalize ==> forall|k: int|
            0 <= k < cells.len() ==> #[trigger] column_names_of(headers, normalize, cells)[k]
                == without_quotes(trim(cells[k])),
        headers && normalize ==> forall|k: int|
            0 <= k < cells.len() ==> #[trigger] column_names_of(headers, normalize, cells)[k]
                == without_quotes(unicode_uppercase(trim(cells[k]))),
        !headers ==> column_names_of(headers, normalize, cells) == letter_columns(),
{
}

/// A binding handed to the query names a variable that the query mentions, and holds
/// text unless empty values are bound.
pub proof fn lemma_query_bindings_mentioned(vars: Set<Seq<char>>, row: RowView, bind_empty: bool, k: int)
    requires
        0 <= k < query_bindings(vars, row, bind_empty).len(),
    ensures
        vars.contains(query_bindings(vars, row, bind_empty)[k].0),
        bind_empty || query_bindings(vars, row, bind_empty)[k].1.len() > 0,
{
    broadcast use vstd::seq_lib::group_filter_ensures;

    let pred = |b: (Seq<char>, Seq<char>)| vars.contains(b.0) && (bind_empty || b.1.len() > 0);
    assert(pred(row.filter(pred)[k]));
}

/// The name of the variable that holds the row number.
pub const ROWNUM: &'static str = "ROWNUM";

/// The row number that a row hands the query: its number when the query mentions
/// `ROWNUM`, else none.
pub open spec fn row_number_binding(vars: Set<Seq<char>>, row_number: u32) -> Option<u32> {
    if vars.contains("ROWNUM"@) {
        Some(row_number)
    } else {
        None::<u32>
    }
}

/// What a row hands the query: its bindings, and the row number when the query
/// mentions `ROWNUM`.
pub struct RowSubstitution {
    pub bindings: Vec<Binding>,
    pub row_number: Option<u32>,
}

/// What follows the processing of a row.
pub struct RowOutcome {
    pub flush: bool,
    pub next_row: u32,
    pub stop: bool,
}

impl OxiTarql {
    /// Where the output goes: standard output for the name `STDOUT`, else the named file,
    /// compressed with gzip when asked.
    pub fn output_target(&self) -> (r: OutputTarget)
        ensures
            self.output@ == "STDOUT"@ ==> r is Stdout,
            self.output@ != "STDOUT"@ && self.gzip ==> (r matches OutputTarget::GzipFile(p) && p@
                == self.output@),
            self.output@ != "STDOUT"@ && !self.gzip ==> (r matches OutputTarget::File(p) && p@
                == self.output@),
    {
        if self.output.eq(&String::from_str("STDOUT")) {
            OutputTarget::Stdout
        } else if self.gzip {
            OutputTarget::GzipFile(self.output.clone())
        } else {
            OutputTarget::File(self.output.clone())
        }
    }

    /// Where the input comes from: standard input for the name `STDIN`, else the named file.
    pub fn input_source(&self) -> (r: InputSource)
        ensures
            self.input@ == "STDIN"@ ==> r is Stdin,
            self.input@ != "STDIN"@ ==> (r matches InputSource::File(p) && p@ == self.input@),
    {
        if self.input.eq(&String::from_str("STDIN")) {
            InputSource::Stdin
        } else {
            InputSource::File(self.input.clone())
        }
    }

    /// The CSV reader's settings: a tab or the first character of the delimiter, and the
    /// first characters of the quote and escape settings, each cut to its low byte.
    pub fn csv_format(&self) -> (r: CsvFormat)
        requires
            self.tab || self.delimiter@.len() > 0,
            self.quote_char@.len() > 0,
            self.escape_char@.len() > 0,
        ensures
            (r.has_headers, r.delimiter, r.quote, r.escape) == csv_settings(self@),
    {
        let delimiter = if self.tab {
            9u8
        } else {
            first_byte(&self.delimiter)
        };
        CsvFormat {
            has_headers: self.headers,
            delimiter,
            quote: first_byte(&self.quote_char),
            escape: first_byte(&self.escape_char),
        }
    }

    /// The column names (see `column_names_of`). `header_cells` is the header row; it is
    /// not read when the file has none.
    pub fn column_names(&self, header_cells: &Vec<String>) -> (r: Vec<String>)
        ensures
            r.deep_view() == column_names_of(self.headers, self.normalize, header_cells.deep_view()),
    {
        let mut names: Vec<String> = Vec::new();
        if self.headers {
            let n = header_cells.len();
            for k in 0..n
                invariant
                    n == header_cells@.len(),
                    names@.len() == k,
                    forall|j: int|
                        0 <= j < k ==> (#[trigger] names@[j])@ == cleaned_column(
                            header_cells@[j]@,
                            self.normalize,
                        ),
            {
                names.push(clean_column(header_cells[k].as_str(), &self.normalize));
            }
            assert(names.deep_view() =~= column_names_of(
                self.headers,
                self.normalize,
                header_cells.deep_view(),
            ));
        } else {
            let letters = ALPHABET;
            proof {
                reveal_strlit("abcdefghijklmnopqrstuvwxyzABCDEFGHIJKLMNOPQRSTUVWXYZ");
            }
            let n = letters.unicode_len();
            for k in 0..n
                invariant
                    n == letters@.len(),
                    letters@ == ALPHABET@,
                    names@.len() == k,
                    forall|j: int| 0 <= j < k ==> (#[trigger] names@[j])@ == seq![letters@[j]],
            {
                let mut one: Vec<char> = Vec::new();
                one.push(letters.get_char(k));
                names.push(string_from_chars(&one));
                assert(names@[k as int]@ =~= seq![letters@[k as int]]);
            }
            assert(names.deep_view() =~= letter_columns());
        }
        names
    }

    /// What one row hands the query (see `query_bindings`), with the row number when the
    /// query mentions `ROWNUM`.
    pub fn row_substitution(
        &self,
        query_vars: &StringHashSet,
        row: &Vec<Binding>,
        row_number: u32,
    ) -> (r: RowSubstitution)
        ensures
            r.bindings.deep_view() == query_bindings(
                query_vars@,
                row.deep_view(),
                self.bind_empty_strings,
            ),
            r.row_number == row_number_binding(query_vars@, row_number),
    {
        let mut bindings: Vec<Binding> = Vec::new();
        let n = row.len();
        let ghost rv = row.deep_view();
        let ghost pred = |b: (Seq<char>, Seq<char>)|
            query_vars@.contains(b.0) && (self.bind_empty_strings || b.1.len() > 0);
        for k in 0..n
            invariant
                n == row@.len(),
                rv == row.deep_view(),
                pred == (|b: (Seq<char>, Seq<char>)|
                    query_vars@.contains(b.0) && (self.bind_empty_strings || b.1.len() > 0)),
                bindings.deep_view() == rv.take(k as int).filter(pred),
        {
            proof {
                reveal_with_fuel(Seq::<_>::filter, 1);
            }
            assert(rv.take(k + 1).drop_last() =~= rv.take(k as int));
            let b = &row[k];
            assert(rv.take(k + 1).last() == (b.0@, b.1@));
            let wanted = query_vars.contains(b.0.as_str());
            let has_text = b.1.as_str().unicode_len() > 0;
            if wanted && (self.bind_empty_strings || has_text) {
                let ghost before = bindings.deep_view();
                bindings.push((b.0.clone(), b.1.clone()));
                assert(bindings.deep_view() =~= before.push((b.0@, b.1@)));
            }
        }
        assert(rv.take(n as int) =~= rv);
        let rownum = String::from_str(ROWNUM);
        let row_number = if query_vars.contains(rownum.as_str()) {
            Some(row_number)
        } else {
            None
        };
        RowSubstitution { bindings, row_number }
    }

    /// Whether triples are collected for deduplication rather than written at once.
    pub fn deduplicating(&self) -> (r: bool)
        ensures
            r == (self.dedup > 0),
    {
        self.dedup > 0
    }

    /// What follows row `row` (counted from 0) once `stored` distinct triples are held:
    /// a flush when deduplicating and the buffer has reached the window, the next row
    /// number, and a stop when a row limit is set and has been reached.
    pub fn after_row(&self, row: u32, stored: usize) -> (r: RowOutcome)
        requires
            row < u32::MAX,
        ensures
            r.flush == (self.dedup > 0 && stored >= self.dedup),
            r.next_row == row + 1,
            r.stop == stops_after(self.test, row as int),
    {
        let next_row = row + 1;
        RowOutcome {
            flush: self.dedup > 0 && stored >= self.dedup as usize,
            next_row,
            stop: self.test != 0 && next_row == self.test,
        }
    }

    /// Whether the buffer is flushed once the input is exhausted.
    pub fn final_flush(&self, stored: usize) -> (r: bool)
        ensures
            r == (self.dedup > 0 && stored > 0),
    {
        self.dedup > 0 && stored > 0
    }
}

} // verus!
