//! The converter's settings and the row bindings it builds from a CSV record,
//! including the expansion of split columns.
use vstd::prelude::*;

use crate::split::{split_by, split_pieces};

verus! {

/// One variable binding: a variable name and the text bound to it.
pub type Binding = (String, String);

/// The settings of one conversion run.
pub struct OxiTarql {
    pub delimiter: String,
    pub tab: bool,
    pub test: u32,
    pub headers: bool,
    pub escape_char: String,
    pub quote_char: String,
    pub normalize: bool,
    pub gzip: bool,
    pub ntriples: bool,
    pub quads: bool,
    pub dedup: u32,
    pub named_graph: String,
    pub input: String,
    pub output: String,
    pub query: String,
    pub split: Vec<(String, String, String)>,
    pub bind_empty_strings: bool,
}

/// The settings as mathematical values.
pub ghost struct TarqlView {
    pub delimiter: Seq<char>,
    pub tab: bool,
    pub test: u32,
    pub headers: bool,
    pub escape_char: Seq<char>,
    pub quote_char: Seq<char>,
    pub normalize: bool,
    pub gzip: bool,
    pub ntriples: bool,
    pub quads: bool,
    pub dedup: u32,
    pub named_graph: Seq<char>,
    pub input: Seq<char>,
    pub output: Seq<char>,
    pub query: Seq<char>,
    pub split: Seq<(Seq<char>, Seq<char>, Seq<char>)>,
    pub bind_empty_strings: bool,
}

impl View for OxiTarql {
    type V = TarqlView;

    open spec fn view(&self) -> TarqlView {
        TarqlView {
            delimiter: self.delimiter@,
            tab: self.tab,
            test: self.test,
            headers: self.headers,
            escape_char: self.escape_char@,
            quote_char: self.quote_char@,
            normalize: self.normalize,
            gzip: self.gzip,
            ntriples: self.ntriples,
            quads: self.quads,
            dedup: self.dedup,
            named_graph: self.named_graph@,
            input: self.input@,
            output: self.output@,
            query: self.query@,
            split: self.split.deep_view(),
            bind_empty_strings: self.bind_empty_strings,
        }
    }
}

impl Default for OxiTarql {
    fn default() -> (r: OxiTarql)
        ensures
            r.delimiter@.len() == 0,
            !r.tab,
            r.test == 0,
            !r.headers,
            r.escape_char@.len() == 0,
            r.quote_char@.len() == 0,
            !r.normalize,
            !r.gzip,
            !r.ntriples,
            !r.quads,
            r.dedup == 0,
            r.named_graph@.len() == 0,
            r.input@.len() == 0,
            r.output@.len() == 0,
            r.query@.len() == 0,
            r.split@.len() == 0,
            !r.bind_empty_strings,
    {
        OxiTarql {
            delimiter: String::new(),
            tab: false,
            test: 0,
            headers: false,
            escape_char: String::new(),
            quote_char: String::new(),
            normalize: false,
            gzip: false,
            ntriples: false,
            quads: false,
            dedup: 0,
            named_graph: String::new(),
            input: String::new(),
            output: String::new(),
            query: String::new(),
            split: Vec::new(),
            bind_empty_strings: false,
        }
    }
}

/// The index of the first element of `xs` equal to `x`, if any.
pub open spec fn first_position(xs: Seq<Seq<char>>, x: Seq<char>) -> Option<int>
    decreases xs.len(),
{
    if xs.len() == 0 {
        None
    } else if xs[0] == x {
        Some(0)
    } else {
        match first_position(xs.drop_first(), x) {
            Some(i) => Some(i + 1),
            None => None,
        }
    }
}

/// `first_position` gives the least index holding `x`, or nothing when no index does.
pub proof fn lemma_first_position(xs: Seq<Seq<char>>, x: Seq<char>)
    ensures
        match first_position(xs, x) {
            Some(i) => 0 <= i < xs.len() && xs[i] == x && forall|j: int|
                0 <= j < i ==> xs[j] != x,
            None => forall|j: int| 0 <= j < xs.len() ==> xs[j] != x,
        },
    decreases xs.len(),
{
    if xs.len() > 0 && xs[0] != x {
        lemma_first_position(xs.drop_first(), x);
        match first_position(xs.drop_first(), x) {
            Some(i) => {
                assert forall|j: int| 0 <= j < i + 1 implies xs[j] != x by {
                    if j > 0 {
                        assert(xs[j] == xs.drop_first()[j - 1]);
                    }
                }
            },
            None => {
                assert forall|j: int| 0 <= j < xs.len() implies xs[j] != x by {
                    if j > 0 {
                        assert(xs[j] == xs.drop_first()[j - 1]);
                    }
                }
            },
        }
    }
}

proof fn lemma_first_position_unique(xs: Seq<Seq<char>>, x: Seq<char>, i: int)
    requires
        0 <= i < xs.len(),
        xs[i] == x,
        forall|j: int| 0 <= j < i ==> xs[j] != x,
    ensures
        first_position(xs, x) == Some(i),
{
    lemma_first_position(xs, x);
    match first_position(xs, x) {
        Some(k) => {
            if k < i {
            } else if k > i {
            }
        },
        None => {
            assert(xs[i] != x);
        },
    }
}

/// Where `name` first stands among `names`.
pub fn position_of(names: &Vec<String>, name: &String) -> (r: Option<usize>)
    ensures
        match r {
            Some(i) => first_position(names.deep_view(), name@) == Some(i as int),
            None => first_position(names.deep_view(), name@) is None,
        },
{
    let n = names.len();
    for i in 0..n
        invariant
            n == names@.len(),
            forall|j: int| 0 <= j < i ==> names.deep_view()[j] != name@,
    {
        if names[i].eq(name) {
            proof {
                lemma_first_position_unique(names.deep_view(), name@, i as int);
            }
            return Some(i);
        }
    }
    proof {
        lemma_first_position(names.deep_view(), name@);
        if first_position(names.deep_view(), name@) is Some {
            let i = first_position(names.deep_view(), name@)->0;
            assert(names.deep_view()[i] == name@);
        }
    }
    None
}

/// The bindings of one row, as pairs of variable name and text.
pub type RowView = Seq<(Seq<char>, Seq<char>)>;

/// Column names paired with the record's cells, as far as both reach.
pub open spec fn zip_row(headers: Seq<Seq<char>>, record: Seq<Seq<char>>) -> RowView {
    Seq::new(
        if headers.len() <= record.len() {
            headers.len()
        } else {
            record.len()
        },
        |i: int| (headers[i], record[i]),
    )
}

/// Each row replaced by one copy per piece of its `idx`-th value split at `delim`,
/// the copy extended by a binding of `name` to that piece.
pub open spec fn expand_rows(rows: Seq<RowView>, idx: int, name: Seq<char>, delim: Seq<char>) -> Seq<
    RowView,
>
    decreases rows.len(),
{
    if rows.len() == 0 {
        Seq::<RowView>::empty()
    } else {
        expand_rows(rows.drop_last(), idx, name, delim) + split_pieces(
            rows.last()[idx].1,
            delim,
        ).map_values(|p: Seq<char>| rows.last().push((name, p)))
    }
}

/// The rows after applying the split settings in order; a setting whose original column
/// is not among `headers` changes nothing.
pub open spec fn apply_splits(
    rows: Seq<RowView>,
    headers: Seq<Seq<char>>,
    splits: Seq<(Seq<char>, Seq<char>, Seq<char>)>,
) -> Seq<RowView>
    decreases splits.len(),
{
    if splits.len() == 0 {
        rows
    } else {
        let prev = apply_splits(rows, headers, splits.drop_last());
        let sp = splits.last();
        match first_position(headers, sp.0) {
            Some(idx) => expand_rows(prev, idx, sp.1, sp.2),
            None => prev,
        }
    }
}

/// The rows of bindings that one CSV record gives.
pub open spec fn split_rows(
    headers: Seq<Seq<char>>,
    record: Seq<Seq<char>>,
    splits: Seq<(Seq<char>, Seq<char>, Seq<char>)>,
) -> Seq<RowView> {
    apply_splits(seq![zip_row(headers, record)], headers, splits)
}

/// Every split setting whose original column is found names a column that the record has.
pub open spec fn splits_in_range(
    headers: Seq<Seq<char>>,
    record: Seq<Seq<char>>,
    splits: Seq<(Seq<char>, Seq<char>, Seq<char>)>,
) -> bool {
    forall|k: int|
        0 <= k < splits.len() ==> match first_position(headers, (#[trigger] splits[k]).0) {
            Some(i) => i < record.len(),
            None => true,
        }
}

/// Every row starts with `prefix`.
pub open spec fn all_start_with(rows: Seq<RowView>, prefix: RowView) -> bool {
    forall|r: int|
        0 <= r < rows.len() ==> (#[trigger] rows[r]).len() >= prefix.len() && rows[r].subrange(
            0,
            prefix.len() as int,
        ) == prefix
}

proof fn lemma_expand_rows_keep_prefix(
    rows: Seq<RowView>,
    idx: int,
    name: Seq<char>,
    delim: Seq<char>,
    prefix: RowView,
)
    requires
        all_start_with(rows, prefix),
    ensures
        all_start_with(expand_rows(rows, idx, name, delim), prefix),
    decreases rows.len(),
{
    if rows.len() > 0 {
        let front = rows.drop_last();
        lemma_expand_rows_keep_prefix(front, idx, name, delim, prefix);
        let last = rows.last();
        assert(rows[rows.len() - 1] == last);
        let tail = split_pieces(last[idx].1, delim).map_values(|p: Seq<char>| last.push((name, p)));
        let all = expand_rows(rows, idx, name, delim);
        let pre = expand_rows(front, idx, name, delim);
        assert forall|r: int| 0 <= r < all.len() implies (#[trigger] all[r]).len() >= prefix.len()
            && all[r].subrange(0, prefix.len() as int) == prefix by {
            if r < pre.len() {
                assert(all[r] == pre[r]);
            } else {
                let row = tail[r - pre.len()];
                assert(all[r] == row);
                assert(row.subrange(0, prefix.len() as int) =~= last.subrange(
                    0,
                    prefix.len() as int,
                ));
            }
        }
    }
}

/// Every row that splitting gives starts with the record's own bindings.
pub proof fn lemma_split_rows_start_with_record(
    headers: Seq<Seq<char>>,
    record: Seq<Seq<char>>,
    splits: Seq<(Seq<char>, Seq<char>, Seq<char>)>,
)
    ensures
        all_start_with(split_rows(headers, record, splits), zip_row(headers, record)),
    decreases splits.len(),
{
    let z = zip_row(headers, record);
    if splits.len() == 0 {
        assert(seq![z][0].subrange(0, z.len() as int) =~= z);
    } else {
        lemma_split_rows_start_with_record(headers, record, splits.drop_last());
        let prev = apply_splits(seq![z], headers, splits.drop_last());
        let sp = splits.last();
        if let Some(idx) = first_position(headers, sp.0) {
            lemma_expand_rows_keep_prefix(prev, idx, sp.1, sp.2, z);
        }
    }
}

/// A copy of a row of bindings.
fn clone_row(row: &Vec<Binding>) -> (r: Vec<Binding>)
    ensures
        r.deep_view() == row.deep_view(),
{
    let mut r: Vec<Binding> = Vec::new();
    let n = row.len();
    for k in 0..n
        invariant
            n == row@.len(),
            r@.len() == k,
            forall|j: int| 0 <= j < k ==> (#[trigger] r@[j]).0@ == row@[j].0@ && r@[j].1@ == row@[j].1@,
    {
        r.push((row[k].0.clone(), row[k].1.clone()));
    }
    assert(r.deep_view() =~= row.deep_view());
    r
}

/// Whether a split setting's original column is among `headers`.
pub open spec fn column_found(headers: Seq<Seq<char>>, sp: (Seq<char>, Seq<char>, Seq<char>)) -> bool {
    first_position(headers, sp.0) is Some
}

/// The variable names of a row's bindings, in order.
pub open spec fn row_names(row: RowView) -> Seq<Seq<char>> {
    row.map_values(|b: (Seq<char>, Seq<char>)| b.0)
}

/// The names that the split settings add to each row: the split name of each setting whose
/// original column is found, in order.
pub open spec fn added_names(
    headers: Seq<Seq<char>>,
    splits: Seq<(Seq<char>, Seq<char>, Seq<char>)>,
) -> Seq<Seq<char>>
    decreases splits.len(),
{
    if splits.len() == 0 {
        Seq::<Seq<char>>::empty()
    } else {
        let prev = added_names(headers, splits.drop_last());
        if first_position(headers, splits.last().0) is Some {
            prev.push(splits.last().1)
        } else {
            prev
        }
    }
}

/// Every row binds exactly `names`, in order.
pub open spec fn all_named(rows: Seq<RowView>, names: Seq<Seq<char>>) -> bool {
    forall|r: int| 0 <= r < rows.len() ==> row_names(#[trigger] rows[r]) == names
}

proof fn lemma_expand_rows_names(
    rows: Seq<RowView>,
    idx: int,
    name: Seq<char>,
    delim: Seq<char>,
    names: Seq<Seq<char>>,
)
    requires
        all_named(rows, names),
    ensures
        all_named(expand_rows(rows, idx, name, delim), names.push(name)),
    decreases rows.len(),
{
    if rows.len() > 0 {
        let front = rows.drop_last();
        assert forall|r: int| 0 <= r < front.len() implies row_names(#[trigger] front[r]) == names by {
            assert(front[r] == rows[r]);
        }
        lemma_expand_rows_names(front, idx, name, delim, names);
        let last = rows.last();
        assert(rows[rows.len() - 1] == last);
        let tail = split_pieces(last[idx].1, delim).map_values(|p: Seq<char>| last.push((name, p)));
        let all = expand_rows(rows, idx, name, delim);
        let pre = expand_rows(front, idx, name, delim);
        assert forall|r: int| 0 <= r < all.len() implies row_names(#[trigger] all[r]) == names.push(
            name,
        ) by {
            if r < pre.len() {
                assert(all[r] == pre[r]);
            } else {
                let row = tail[r - pre.len()];
                assert(all[r] == row);
                assert(row_names(row) =~= row_names(last).push(name));
            }
        }
    }
}

proof fn lemma_apply_splits_names(
    rows: Seq<RowView>,
    headers: Seq<Seq<char>>,
    splits: Seq<(Seq<char>, Seq<char>, Seq<char>)>,
    names: Seq<Seq<char>>,
)
    requires
        all_named(rows, names),
    ensures
        all_named(apply_splits(rows, headers, splits), names + added_names(headers, splits)),
    decreases splits.len(),
{
    if splits.len() == 0 {
        assert(names + added_names(headers, splits) =~= names);
    } else {
        let front = splits.drop_last();
        lemma_apply_splits_names(rows, headers, front, names);
        let sp = splits.last();
        match first_position(headers, sp.0) {
            Some(idx) => {
                lemma_expand_rows_names(
                    apply_splits(rows, headers, front),
                    idx,
                    sp.1,
                    sp.2,
                    names + added_names(headers, front),
                );
                assert((names + added_names(headers, front)).push(sp.1) =~= names + added_names(
                    headers,
                    splits,
                ));
            },
            None => {},
        }
    }
}

/// Every row that a record gives binds the zipped columns' names followed by the split
/// name of each setting whose column is found, in the settings' order; so its length is
/// the zipped length plus the number of such settings.
pub proof fn lemma_split_rows_names(
    headers: Seq<Seq<char>>,
    record: Seq<Seq<char>>,
    splits: Seq<(Seq<char>, Seq<char>, Seq<char>)>,
)
    ensures
        all_named(
            split_rows(headers, record, splits),
            row_names(zip_row(headers, record)) + added_names(headers, splits),
        ),
{
    let first = zip_row(headers, record);
    assert(all_named(seq![first], row_names(first))) by {
        assert forall|r: int| 0 <= r < 1 implies row_names(#[trigger] seq![first][r]) == row_names(
            first,
        ) by {
            assert(seq![first][r] == first);
        }
    }
    lemma_apply_splits_names(seq![first], headers, splits, row_names(first));
}

/// Split settings whose original column is not among the headers change nothing: dropping
/// them gives the same rows.
pub proof fn lemma_absent_splits_dropped(
    rows: Seq<RowView>,
    headers: Seq<Seq<char>>,
    splits: Seq<(Seq<char>, Seq<char>, Seq<char>)>,
)
    ensures
        apply_splits(rows, headers, splits) == apply_splits(
            rows,
            headers,
            splits.filter(|sp: (Seq<char>, Seq<char>, Seq<char>)| column_found(headers, sp)),
        ),
    decreases splits.len(),
{
    reveal_with_fuel(Seq::<_>::filter, 1);
    let pred = |sp: (Seq<char>, Seq<char>, Seq<char>)| column_found(headers, sp);
    if splits.len() > 0 {
        lemma_absent_splits_dropped(rows, headers, splits.drop_last());
        let kept = splits.drop_last().filter(pred);
        if pred(splits.last()) {
            let all = splits.filter(pred);
            assert(all == kept.push(splits.last()));
            assert(all.drop_last() =~= kept);
            assert(all.last() == splits.last());
        } else {
            assert(splits.filter(pred) == kept);
        }
    }
}

/// A split setting whose original column is not among the headers is skipped: the record
/// gives the same rows with the setting or without it, and the setting asks nothing of the
/// record's length.
pub proof fn lemma_split_rows_skip_absent_columns(
    headers: Seq<Seq<char>>,
    record: Seq<Seq<char>>,
    splits: Seq<(Seq<char>, Seq<char>, Seq<char>)>,
)
    ensures
        split_rows(headers, record, splits) == split_rows(
            headers,
            record,
            splits.filter(|sp: (Seq<char>, Seq<char>, Seq<char>)| column_found(headers, sp)),
        ),
        splits_in_range(headers, record, splits) <==> splits_in_range(
            headers,
            record,
            splits.filter(|sp: (Seq<char>, Seq<char>, Seq<char>)| column_found(headers, sp)),
        ),
{
    let pred = |sp: (Seq<char>, Seq<char>, Seq<char>)| column_found(headers, sp);
    let kept = splits.filter(pred);
    lemma_absent_splits_dropped(seq![zip_row(headers, record)], headers, splits);
    if splits_in_range(headers, record, splits) {
        assert forall|k: int| 0 <= k < kept.len() implies match first_position(
            headers,
            (#[trigger] kept[k]).0,
        ) {
            Some(i) => i < record.len(),
            None => true,
        } by {
            splits.lemma_filter_pred(pred, k);
            splits.lemma_filter_contains_rev(pred, kept[k]);
            let j = choose|j: int| 0 <= j < splits.len() && splits[j] == kept[k];
            assert(splits[j] == kept[k]);
        }
    }
    if splits_in_range(headers, record, kept) {
        assert forall|k: int| 0 <= k < splits.len() implies match first_position(
            headers,
            (#[trigger] splits[k]).0,
        ) {
            Some(i) => i < record.len(),
            None => true,
        } by {
            if pred(splits[k]) {
                splits.lemma_filter_contains(pred, k);
                let j = choose|j: int| 0 <= j < kept.len() && kept[j] == splits[k];
                assert(kept[j] == splits[k]);
            }
        }
    }
}

/// The product, over the split settings whose original column is found, of the number of
/// pieces of that column's value in the record.
pub open spec fn split_count(
    headers: Seq<Seq<char>>,
    record: Seq<Seq<char>>,
    splits: Seq<(Seq<char>, Seq<char>, Seq<char>)>,
) -> nat
    decreases splits.len(),
{
    if splits.len() == 0 {
        1
    } else {
        let prev = split_count(headers, record, splits.drop_last());
        let sp = splits.last();
        match first_position(headers, sp.0) {
            Some(i) => prev * split_pieces(record[i], sp.2).len(),
            None => prev,
        }
    }
}

proof fn lemma_expand_rows_len(
    rows: Seq<RowView>,
    idx: int,
    name: Seq<char>,
    delim: Seq<char>,
    value: Seq<char>,
)
    requires
        forall|r: int| 0 <= r < rows.len() ==> #[trigger] rows[r].len() > idx >= 0 && rows[r][idx].1
            == value,
    ensures
        expand_rows(rows, idx, name, delim).len() == rows.len() * split_pieces(value, delim).len(),
    decreases rows.len(),
{
    if rows.len() > 0 {
        let front = rows.drop_last();
        assert forall|r: int| 0 <= r < front.len() implies #[trigger] front[r].len() > idx >= 0
            && front[r][idx].1 == value by {
            assert(front[r] == rows[r]);
        }
        lemma_expand_rows_len(front, idx, name, delim, value);
        assert(rows.last() == rows[rows.len() - 1]);
        let c = split_pieces(value, delim).len();
        let n = rows.len();
        assert((n - 1) * c + c == n * c) by (nonlinear_arith);
    }
}

/// The number of rows that a record gives is the product, over the split settings whose
/// column is found, of the number of pieces that column's value splits into.
pub proof fn lemma_split_rows_count(
    headers: Seq<Seq<char>>,
    record: Seq<Seq<char>>,
    splits: Seq<(Seq<char>, Seq<char>, Seq<char>)>,
)
    requires
        splits_in_range(headers, record, splits),
    ensures
        split_rows(headers, record, splits).len() == split_count(headers, record, splits),
    decreases splits.len(),
{
    if splits.len() > 0 {
        let front = splits.drop_last();
        assert forall|k: int| 0 <= k < front.len() implies match first_position(
            headers,
            (#[trigger] front[k]).0,
        ) {
            Some(i) => i < record.len(),
            None => true,
        } by {
            assert(front[k] == splits[k]);
        }
        lemma_split_rows_count(headers, record, front);
        let sp = splits.last();
        assert(sp == splits[splits.len() - 1]);
        let z = zip_row(headers, record);
        let prev = apply_splits(seq![z], headers, front);
        if let Some(idx) = first_position(headers, sp.0) {
            lemma_first_position(headers, sp.0);
            lemma_split_rows_start_with_record(headers, record, front);
            assert forall|r: int| 0 <= r < prev.len() implies #[trigger] prev[r].len() > idx >= 0
                && prev[r][idx].1 == record[idx] by {
                assert(prev[r].subrange(0, z.len() as int)[idx] == z[idx]);
            }
            lemma_expand_rows_len(prev, idx, sp.1, sp.2, record[idx]);
        }
    }
}

impl OxiTarql {
    /// Whether every split setting whose original column is among `headers` names a column
    /// that `record` has (see `splits_in_range`), which `apply_split` needs.
    pub fn splits_fit(&self, record: &Vec<String>, headers: &Vec<String>) -> (r: bool)
        ensures
            r == splits_in_range(headers.deep_view(), record.deep_view(), self.split.deep_view()),
    {
        let ghost sv = self.split.deep_view();
        let n = self.split.len();
        for k in 0..n
            invariant
                n == self.split@.len(),
                sv == self.split.deep_view(),
                forall|j: int|
                    0 <= j < k ==> match first_position(headers.deep_view(), (#[trigger] sv[j]).0) {
                        Some(i) => i < record@.len(),
                        None => true,
                    },
        {
            assert(sv[k as int].0 == self.split@[k as int].0@);
            match position_of(headers, &self.split[k].0) {
                Some(i) => {
                    if i >= record.len() {
                        assert(!splits_in_range(headers.deep_view(), record.deep_view(), sv));
                        return false;
                    }
                },
                None => {},
            }
        }
        true
    }

    /// The rows of variable bindings for one CSV record: the column names paired with the
    /// record's cells, then, for each split setting in turn whose original column is found,
    /// every row copied once per piece of that column's value, with the split name bound
    /// to the piece.
    pub fn apply_split(&self, record: &Vec<String>, headers: &Vec<String>) -> (r: Vec<Vec<Binding>>)
        requires
            splits_in_range(headers.deep_view(), record.deep_view(), self.split.deep_view()),
        ensures
            r.deep_view() == split_rows(headers.deep_view(), record.deep_view(), self.split.deep_view()),
    {
        let ghost hv = headers.deep_view();
        let ghost rv = record.deep_view();
        let ghost sv = self.split.deep_view();
        let ghost z = zip_row(hv, rv);
        let zl = if headers.len() <= record.len() {
            headers.len()
        } else {
            record.len()
        };
        let mut first_row: Vec<Binding> = Vec::new();
        for i in 0..zl
            invariant
                zl <= headers@.len(),
                zl <= record@.len(),
                zl == z.len(),
                z == zip_row(hv, rv),
                hv == headers.deep_view(),
                rv == record.deep_view(),
                first_row@.len() == i,
                forall|j: int| 0 <= j < i ==> (#[trigger] first_row@[j]).0@ == hv[j] && first_row@[j].1@ == rv[j],
        {
            first_row.push((headers[i].clone(), record[i].clone()));
        }
        assert(first_row.deep_view() =~= z);
        let mut bindings: Vec<Vec<Binding>> = Vec::new();
        bindings.push(first_row);
        assert(bindings.deep_view() =~= seq![z]);
        assert(seq![z][0].subrange(0, z.len() as int) =~= z);
        assert(sv.take(0) =~= Seq::<(Seq<char>, Seq<char>, Seq<char>)>::empty());
        let ns = self.split.len();
        for k in 0..ns
            invariant
                ns == self.split@.len(),
                sv == self.split.deep_view(),
                hv == headers.deep_view(),
                rv == record.deep_view(),
                z == zip_row(hv, rv),
                zl == z.len(),
                splits_in_range(hv, rv, sv),
                bindings.deep_view() == apply_splits(seq![z], hv, sv.take(k as int)),
                all_start_with(bindings.deep_view(), z),
        {
            let ghost prev = bindings.deep_view();
            assert(sv.take(k + 1).drop_last() =~= sv.take(k as int));
            assert(sv.take(k + 1).last() == sv[k as int]);
            let sp = &self.split[k];
            assert(sv[k as int] == (sp.0@, sp.1@, sp.2@));
            match position_of(headers, &sp.0) {
                Some(idx) => {
                    proof {
                        lemma_first_position(hv, sp.0@);
                        assert(idx < zl);
                    }
                    let mut next_vals: Vec<Vec<Binding>> = Vec::new();
                    let nb = bindings.len();
                    for b in 0..nb
                        invariant
                            nb == bindings@.len(),
                            prev == bindings.deep_view(),
                            all_start_with(prev, z),
                            idx < zl == z.len(),
                            next_vals.deep_view() == expand_rows(prev.take(b as int), idx as int, sp.1@, sp.2@),
                    {
                        let row = &bindings[b];
                        assert(prev[b as int] == row.deep_view());
                        assert(prev[b as int].len() >= z.len());
                        let pieces = split_by(row[idx].1.as_str(), sp.2.as_str());
                        let np = pieces.len();
                        let ghost before = next_vals.deep_view();
                        let ghost rowv = row.deep_view();
                        for p in 0..np
                            invariant
                                np == pieces@.len(),
                                rowv == row.deep_view(),
                                next_vals.deep_view() == before + pieces.deep_view().take(p as int).map_values(
                                    |q: Seq<char>| rowv.push((sp.1@, q)),
                                ),
                        {
                            let mut modified = clone_row(row);
                            modified.push((sp.1.clone(), pieces[p].clone()));
                            assert(modified.deep_view() =~= rowv.push((sp.1@, pieces.deep_view()[p as int])));
                            let ghost nv = next_vals.deep_view();
                            next_vals.push(modified);
                            assert(next_vals.deep_view() =~= nv.push(rowv.push((sp.1@, pieces.deep_view()[p as int]))));
                            assert(pieces.deep_view().take(p + 1).map_values(|q: Seq<char>| rowv.push((sp.1@, q)))
                                =~= pieces.deep_view().take(p as int).map_values(|q: Seq<char>| rowv.push((sp.1@, q))).push(
                                rowv.push((sp.1@, pieces.deep_view()[p as int]))));
                        }
                        proof {
                            assert(pieces.deep_view().take(np as int) =~= pieces.deep_view());
                            assert(prev.take(b + 1).drop_last() =~= prev.take(b as int));
                            assert(prev.take(b + 1).last() == rowv);
                            assert(rowv[idx as int].1 == row@[idx as int].1@);
                        }
                    }
                    proof {
                        assert(prev.take(nb as int) =~= prev);
                        lemma_expand_rows_keep_prefix(prev, idx as int, sp.1@, sp.2@, z);
                    }
                    bindings = next_vals;
                },
                None => {},
            }
        }
        assert(sv.take(ns as int) =~= sv);
        bindings
    }
}

} // verus!
