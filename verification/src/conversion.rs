//! One step of a conversion run per CSV record: expand the record into rows of bindings,
//! evaluate the query for each row, keep or write the triples, and decide on flushing and
//! stopping.
use vstd::prelude::*;
use vstd::hash_set::StringHashSet;
use vstd::seq_lib::seq_to_set_distributes_over_add;

use crate::dedup::DedupBuffer;
use crate::run::{query_bindings, row_number_binding, stops_after, RowSubstitution};
use crate::evaluation::{EvaluatedRow, Evaluator};
use crate::evaluation::names_accepted;
use crate::run::ROWNUM;
use crate::sparql::{construct_triples, render, rendered, RowFailure};
use crate::tarql::{split_rows, splits_in_range, OxiTarql, RowView};

verus! {

/// `buf` followed by each of `xs` that is not already there, in order.
pub open spec fn fresh_append(buf: Seq<Seq<char>>, xs: Seq<Seq<char>>) -> Seq<Seq<char>>
    decreases xs.len(),
{
    if xs.len() == 0 {
        buf
    } else {
        let b = fresh_append(buf, xs.drop_last());
        if b.contains(xs.last()) {
            b
        } else {
            b.push(xs.last())
        }
    }
}

/// `fresh_append` keeps every element of both sequences and nothing else, and adds no
/// duplicate: with deduplication, the triples written or held are exactly the distinct
/// triples produced, each once.
pub proof fn lemma_fresh_append(buf: Seq<Seq<char>>, xs: Seq<Seq<char>>)
    requires
        buf.no_duplicates(),
    ensures
        fresh_append(buf, xs).no_duplicates(),
        fresh_append(buf, xs).to_set() == buf.to_set() + xs.to_set(),
    decreases xs.len(),
{
    if xs.len() > 0 {
        let front = xs.drop_last();
        lemma_fresh_append(buf, front);
        let b = fresh_append(buf, front);
        let x = xs.last();
        assert(xs =~= front.push(x));
        assert forall|y: Seq<char>| fresh_append(buf, xs).contains(y) <==> (buf.contains(y) || xs.contains(y)) by {
            assert(b.to_set().contains(y) <==> b.contains(y));
            if xs.contains(y) {
                let k = choose|k: int| 0 <= k < xs.len() && xs[k] == y;
                if k < front.len() {
                    assert(front[k] == y);
                    assert(front.to_set().contains(y));
                }
            }
            if front.contains(y) {
                let k = choose|k: int| 0 <= k < front.len() && front[k] == y;
                assert(xs[k] == y);
            }
            if !b.contains(x) {
                if b.push(x).contains(y) {
                    let k = choose|k: int| 0 <= k < b.push(x).len() && b.push(x)[k] == y;
                    if k < b.len() {
                        assert(b[k] == y);
                    }
                }
                if b.contains(y) {
                    let k = choose|k: int| 0 <= k < b.len() && b[k] == y;
                    assert(b.push(x)[k] == y);
                }
                if y == x {
                    assert(b.push(x)[b.len() as int] == y);
                }
            }
        }
        assert(fresh_append(buf, xs).to_set() =~= buf.to_set() + xs.to_set());
        if !b.contains(x) {
            assert forall|i: int, j: int|
                0 <= i < j < b.push(x).len() implies b.push(x)[i] != b.push(x)[j] by {
                if j == b.len() {
                    assert(b.contains(b[i]));
                }
            }
        }
    }
}

/// The state carried from one record to the next: the index of the next row, the
/// deduplication window, whose items are the triples' texts, each its own key, the query's
/// prefix declarations, and whether any triple has been written yet.
pub struct RunState {
    pub row: u32,
    pub buffer: DedupBuffer<String>,
    pub prefixes: Vec<(String, String)>,
    pub started: bool,
}

impl RunState {
    /// The window is well formed and holds each triple under its own text.
    pub open spec fn wf(&self) -> bool {
        &&& self.buffer.wf()
        &&& self.buffer.items().map_values(|s: String| s@) == self.buffer.keys()
    }

    /// The texts of the triples held in the window.
    pub open spec fn held(&self) -> Seq<Seq<char>> {
        self.buffer.keys()
    }

    /// The prefixes that the next Turtle text declares: the query's until a triple has been
    /// written, none afterwards, so that they are declared once, at the top.
    pub open spec fn declared(&self) -> Seq<(Seq<char>, Seq<char>)> {
        if self.started {
            Seq::<(Seq<char>, Seq<char>)>::empty()
        } else {
            self.prefixes.deep_view()
        }
    }

    /// The state before the first record, with the query's prefix declarations.
    pub fn new(prefixes: Vec<(String, String)>) -> (r: RunState)
        ensures
            r.wf(),
            r.row == 0,
            r.held() == Seq::<Seq<char>>::empty(),
            r.prefixes == prefixes,
            !r.started,
    {
        let r = RunState { row: 0, buffer: DedupBuffer::new(), prefixes, started: false };
        assert(r.buffer.items().map_values(|s: String| s@) =~= r.buffer.keys());
        r
    }
}

/// The triples of the evaluated rows, row after row, each row's in its order.
pub open spec fn all_triples(rows: Seq<EvaluatedRow>) -> Seq<Seq<char>>
    decreases rows.len(),
{
    if rows.len() == 0 {
        Seq::<Seq<char>>::empty()
    } else {
        all_triples(rows.drop_last()) + rows.last().evaluated_triples()
    }
}

/// What a record writes, given the triples held in the window and those it produced:
/// all it produced without deduplication; with it, the window merged with the new
/// triples once that reaches `dedup` triples, else nothing.
pub open spec fn step_written(dedup: int, held: Seq<Seq<char>>, produced: Seq<Seq<char>>) -> Seq<
    Seq<char>,
> {
    if dedup == 0 {
        produced
    } else if fresh_append(held, produced).len() >= dedup {
        fresh_append(held, produced)
    } else {
        Seq::<Seq<char>>::empty()
    }
}

/// What the window holds after a record (see `step_written`).
pub open spec fn step_held(dedup: int, held: Seq<Seq<char>>, produced: Seq<Seq<char>>) -> Seq<
    Seq<char>,
> {
    if dedup == 0 {
        held
    } else if fresh_append(held, produced).len() >= dedup {
        Seq::<Seq<char>>::empty()
    } else {
        fresh_append(held, produced)
    }
}

/// What a whole run writes, as the triples' texts, when the records give the triples
/// `records` in turn and the window starts with `held`: what `window_step` writes for each
/// record, then what `finish_run` writes of the window.
pub open spec fn run_written(dedup: int, held: Seq<Seq<char>>, records: Seq<Seq<Seq<char>>>) -> Seq<
    Seq<char>,
>
    decreases records.len(),
{
    if records.len() == 0 {
        if dedup > 0 {
            held
        } else {
            Seq::<Seq<char>>::empty()
        }
    } else {
        step_written(dedup, held, records[0]) + run_written(
            dedup,
            step_held(dedup, held, records[0]),
            records.drop_first(),
        )
    }
}

/// Without deduplication a run writes every triple produced, in order.
proof fn lemma_run_without_dedup(held: Seq<Seq<char>>, records: Seq<Seq<Seq<char>>>)
    ensures
        run_written(0, held, records) == records.flatten(),
    decreases records.len(),
{
    if records.len() > 0 {
        lemma_run_without_dedup(held, records.drop_first());
    } else {
        assert(run_written(0, held, records) =~= records.flatten());
    }
}

/// With deduplication a run writes, as a set, the triples held at the start and those
/// produced.
proof fn lemma_run_with_dedup(dedup: int, held: Seq<Seq<char>>, records: Seq<Seq<Seq<char>>>)
    requires
        dedup > 0,
        held.no_duplicates(),
    ensures
        run_written(dedup, held, records).to_set() == held.to_set() + records.flatten().to_set(),
    decreases records.len(),
{
    if records.len() == 0 {
        assert(records.flatten().to_set() =~= Set::<Seq<char>>::empty());
        assert(held.to_set() + records.flatten().to_set() =~= held.to_set());
    } else {
        let p = records[0];
        let rest = records.drop_first();
        let merged = fresh_append(held, p);
        lemma_fresh_append(held, p);
        seq_to_set_distributes_over_add(p, rest.flatten());
        if merged.len() >= dedup {
            let empty = Seq::<Seq<char>>::empty();
            lemma_run_with_dedup(dedup, empty, rest);
            seq_to_set_distributes_over_add(merged, run_written(dedup, empty, rest));
            assert(empty.to_set() =~= Set::<Seq<char>>::empty());
        } else {
            lemma_run_with_dedup(dedup, merged, rest);
            seq_to_set_distributes_over_add(Seq::<Seq<char>>::empty(), run_written(dedup, merged, rest));
            assert(Seq::<Seq<char>>::empty() + run_written(dedup, merged, rest) =~= run_written(
                dedup,
                merged,
                rest,
            ));
        }
        assert(run_written(dedup, held, records).to_set() =~= held.to_set() + records.flatten().to_set());
    }
}

/// Deduplication changes which repeats are written, never which triples: a run with a
/// window writes exactly the set of triples that the same run writes without one.
pub proof fn lemma_dedup_writes_same_triples(dedup: int, records: Seq<Seq<Seq<char>>>)
    requires
        dedup > 0,
    ensures
        run_written(dedup, Seq::<Seq<char>>::empty(), records).to_set() == run_written(
            0,
            Seq::<Seq<char>>::empty(),
            records,
        ).to_set(),
{
    let empty = Seq::<Seq<char>>::empty();
    lemma_run_with_dedup(dedup, empty, records);
    lemma_run_without_dedup(empty, records);
    assert(empty.to_set() =~= Set::<Seq<char>>::empty());
    assert(empty.to_set() + records.flatten().to_set() =~= records.flatten().to_set());
}

/// Appending two sequences in turn is appending their concatenation.
proof fn lemma_fresh_append_concat(buf: Seq<Seq<char>>, xs: Seq<Seq<char>>, ys: Seq<Seq<char>>)
    ensures
        fresh_append(buf, xs + ys) == fresh_append(fresh_append(buf, xs), ys),
    decreases ys.len(),
{
    if ys.len() == 0 {
        assert(xs + ys =~= xs);
    } else {
        lemma_fresh_append_concat(buf, xs, ys.drop_last());
        assert((xs + ys).drop_last() =~= xs + ys.drop_last());
        assert((xs + ys).last() == ys.last());
    }
}

/// Appending never shortens what is held.
proof fn lemma_fresh_append_grows(buf: Seq<Seq<char>>, xs: Seq<Seq<char>>)
    ensures
        fresh_append(buf, xs).len() >= buf.len(),
    decreases xs.len(),
{
    if xs.len() > 0 {
        lemma_fresh_append_grows(buf, xs.drop_last());
    }
}

/// While the window never fills, a run writes nothing until its end, and then the window:
/// what was held followed by each new triple once, in the order first produced.
proof fn lemma_run_below_window(dedup: int, held: Seq<Seq<char>>, records: Seq<Seq<Seq<char>>>)
    requires
        dedup > 0,
        fresh_append(held, records.flatten()).len() < dedup,
    ensures
        run_written(dedup, held, records) == fresh_append(held, records.flatten()),
    decreases records.len(),
{
    if records.len() == 0 {
        assert(records.flatten() =~= Seq::<Seq<char>>::empty());
    } else {
        let p = records[0];
        let rest = records.drop_first();
        let merged = fresh_append(held, p);
        assert(records.flatten() == p + rest.flatten());
        lemma_fresh_append_concat(held, p, rest.flatten());
        lemma_fresh_append_grows(merged, rest.flatten());
        lemma_run_below_window(dedup, merged, rest);
        assert(Seq::<Seq<char>>::empty() + run_written(dedup, merged, rest) =~= run_written(
            dedup,
            merged,
            rest,
        ));
    }
}

/// With deduplication, a run that produces fewer distinct triples than the window holds
/// writes each of them exactly once, in the order they were first produced, at its end.
pub proof fn lemma_small_run_writes_each_triple_once(dedup: int, records: Seq<Seq<Seq<char>>>)
    requires
        dedup > 0,
        fresh_append(Seq::<Seq<char>>::empty(), records.flatten()).len() < dedup,
    ensures
        run_written(dedup, Seq::<Seq<char>>::empty(), records) == fresh_append(
            Seq::<Seq<char>>::empty(),
            records.flatten(),
        ),
        run_written(dedup, Seq::<Seq<char>>::empty(), records).no_duplicates(),
        run_written(dedup, Seq::<Seq<char>>::empty(), records).to_set() == records.flatten().to_set(),
{
    let empty = Seq::<Seq<char>>::empty();
    lemma_run_below_window(dedup, empty, records);
    lemma_fresh_append(empty, records.flatten());
    assert(empty.to_set() =~= Set::<Seq<char>>::empty());
    assert(empty.to_set() + records.flatten().to_set() =~= records.flatten().to_set());
}

/// What the window step gives: the triples written now, their text, and whether the run
/// stops.
pub struct WindowOutcome {
    pub written: Vec<String>,
    pub text: String,
    pub stop: bool,
}

/// What one record gives: its rows, each with the substitution handed to the query and
/// the triples constructed, all those triples in order, the triples written now, their
/// text, and whether the run stops.
pub struct RecordOutcome {
    pub rows: Vec<EvaluatedRow>,
    pub produced: Vec<String>,
    pub written: Vec<String>,
    pub text: String,
    pub stop: bool,
}

/// All the triples of the rows, in order.
fn gather_triples(rows: &Vec<EvaluatedRow>) -> (r: Vec<String>)
    ensures
        r.deep_view() == all_triples(rows@),
{
    let mut produced: Vec<String> = Vec::new();
    let n = rows.len();
    for k in 0..n
        invariant
            n == rows@.len(),
            produced.deep_view() == all_triples(rows@.take(k as int)),
    {
        assert(rows@.take(k + 1).drop_last() =~= rows@.take(k as int));
        let ghost before = produced.deep_view();
        let triples = rows[k].triples();
        let m = triples.len();
        for j in 0..m
            invariant
                m == triples@.len(),
                produced.deep_view() == before + triples.deep_view().take(j as int),
        {
            let ghost mid = produced.deep_view();
            produced.push(triples[j].clone());
            assert(produced.deep_view() =~= mid.push(triples@[j as int]@));
            assert(before + triples.deep_view().take(j + 1) =~= (before + triples.deep_view().take(
                j as int,
            )).push(triples@[j as int]@));
        }
        assert(triples.deep_view().take(m as int) =~= triples.deep_view());
    }
    assert(rows@.take(n as int) =~= rows@);
    produced
}

/// The rows of a record were evaluated as the record asks: one per row of bindings that
/// the record gives, each handed that row's bindings of the query's variables and the row
/// number when the query mentions it, and each evaluated as `query` by `evaluator`.
pub open spec fn record_rows_evaluated(
    rows: Seq<EvaluatedRow>,
    bindings: Seq<RowView>,
    row_number: Option<u32>,
    query: spargebra::Query,
    evaluator: Evaluator,
) -> bool {
    &&& rows.len() == bindings.len()
    &&& forall|k: int|
        0 <= k < rows.len() ==> {
            &&& (#[trigger] rows[k]).evaluated_substitution().bindings.deep_view() == bindings[k]
            &&& rows[k].evaluated_substitution().row_number == row_number
            &&& rows[k].evaluated_query() == query
            &&& rows[k].evaluated_with() == evaluator
        }
}

/// The bindings that each row of a record hands the query.
pub open spec fn record_bindings(
    vars: Set<Seq<char>>,
    rows: Seq<RowView>,
    bind_empty: bool,
) -> Seq<RowView> {
    rows.map_values(|row: RowView| query_bindings(vars, row, bind_empty))
}

/// Why a record could not be processed: one of its rows could not be evaluated, or the
/// text to write for it could not be rendered (with the rows evaluated so far).
pub enum RecordError {
    Row(RowFailure),
    Render(Vec<EvaluatedRow>),
}

impl OxiTarql {
    /// What each row of a record hands the query (`apply_split`, then
    /// `row_substitution` with the record's row number), in order.
    pub fn record_substitutions(
        &self,
        query_vars: &StringHashSet,
        headers: &Vec<String>,
        record: &Vec<String>,
        row_number: u32,
    ) -> (r: Vec<RowSubstitution>)
        requires
            splits_in_range(headers.deep_view(), record.deep_view(), self.split.deep_view()),
        ensures
            r@.len() == split_rows(
                headers.deep_view(),
                record.deep_view(),
                self.split.deep_view(),
            ).len(),
            forall|k: int|
                0 <= k < r@.len() ==> {
                    &&& (#[trigger] r@[k]).bindings.deep_view() == query_bindings(
                        query_vars@,
                        split_rows(headers.deep_view(), record.deep_view(), self.split.deep_view())[k],
                        self.bind_empty_strings,
                    )
                    &&& r@[k].row_number == row_number_binding(query_vars@, row_number)
                },
    {
        let rows = self.apply_split(record, headers);
        let ghost rv = split_rows(headers.deep_view(), record.deep_view(), self.split.deep_view());
        let mut subs: Vec<RowSubstitution> = Vec::new();
        let n = rows.len();
        for k in 0..n
            invariant
                n == rows@.len(),
                rows.deep_view() == rv,
                subs@.len() == k,
                forall|j: int|
                    0 <= j < k ==> {
                        &&& (#[trigger] subs@[j]).bindings.deep_view() == query_bindings(
                            query_vars@,
                            rv[j],
                            self.bind_empty_strings,
                        )
                        &&& subs@[j].row_number == row_number_binding(query_vars@, row_number)
                    },
        {
            assert(rows@[k as int].deep_view() == rv[k as int]);
            subs.push(self.row_substitution(query_vars, &rows[k], row_number));
        }
        subs
    }

    /// The window step after a record has produced its triples: without deduplication all
    /// of them are written; with it, those not yet in the window join it, and the window
    /// is written and emptied once it holds at least `dedup` triples. The row index
    /// advances by one, and the run stops when the row limit is reached. Fails exactly
    /// when the text of what is written cannot be rendered.
    pub fn window_step(&self, state: &mut RunState, produced: &Vec<String>) -> (r: Result<
        WindowOutcome,
        String,
    >)
        requires
            old(state).wf(),
            old(state).row < u32::MAX,
        ensures
            r is Err <==> rendered(
                self.ntriples,
                old(state).declared(),
                step_written(self.dedup as int, old(state).held(), produced.deep_view()),
            ) is None,
            r matches Ok(o) ==> {
                &&& final(state).wf()
                &&& final(state).row == old(state).row + 1
                &&& final(state).held() == step_held(
                    self.dedup as int,
                    old(state).held(),
                    produced.deep_view(),
                )
                &&& o.written.deep_view() == step_written(
                    self.dedup as int,
                    old(state).held(),
                    produced.deep_view(),
                )
                &&& rendered(self.ntriples, old(state).declared(), o.written.deep_view()) == Some(
                    o.text@,
                )
                &&& o.stop == stops_after(self.test, old(state).row as int)
                &&& final(state).prefixes == old(state).prefixes
                &&& final(state).started == (old(state).started || o.written@.len() > 0)
            },
            r is Err ==> {
                &&& final(state).wf()
                &&& final(state).row == old(state).row
                &&& final(state).prefixes == old(state).prefixes
                &&& final(state).started == old(state).started
                &&& final(state).held() == if self.dedup > 0 {
                    fresh_append(old(state).held(), produced.deep_view())
                } else {
                    old(state).held()
                }
            },
    {
        let ghost held0 = state.held();
        let none: Vec<(String, String)> = Vec::new();
        let ghost pv = produced.deep_view();
        let mut written: Vec<String> = Vec::new();
        let text;
        let stop;
        if self.deduplicating() {
            let np = produced.len();
            for j in 0..np
                invariant
                    np == produced@.len(),
                    pv == produced.deep_view(),
                    state.wf(),
                    state.row == old(state).row,
                    state.prefixes == old(state).prefixes,
                    state.started == old(state).started,
                    held0 == old(state).held(),
                    state.held() == fresh_append(held0, pv.take(j as int)),
            {
                assert(pv.take(j + 1).drop_last() =~= pv.take(j as int));
                state.buffer.insert(produced[j].clone(), produced[j].clone());
                assert(state.buffer.items().map_values(|s: String| s@) =~= state.buffer.keys());
            }
            assert(pv.take(np as int) =~= pv);
            let outcome = self.after_row(state.row, state.buffer.len());
            if outcome.flush {
                let items = state.buffer.as_vec();
                assert(items.deep_view() =~= state.held());
                let declared = if state.started {
                    &none
                } else {
                    &state.prefixes
                };
                assert(declared.deep_view() =~= old(state).declared());
                text = render(self.ntriples, declared, items)?;
                written = state.buffer.drain();
                assert(written.deep_view() =~= fresh_append(held0, pv));
                assert(state.buffer.items().map_values(|s: String| s@) =~= state.buffer.keys());
            } else {
                assert(written.deep_view() =~= Seq::<Seq<char>>::empty());
                text = render(self.ntriples, &none, &written)?;
                assert(rendered(self.ntriples, old(state).declared(), written.deep_view()) == Some(
                    text@,
                ));
            }
            state.row = outcome.next_row;
            stop = outcome.stop;
        } else {
            let np = produced.len();
            for j in 0..np
                invariant
                    np == produced@.len(),
                    pv == produced.deep_view(),
                    written.deep_view() == pv.take(j as int),
            {
                let ghost before = written.deep_view();
                written.push(produced[j].clone());
                assert(written.deep_view() =~= before.push(produced@[j as int]@));
                assert(written.deep_view() =~= pv.take(j + 1));
            }
            assert(pv.take(np as int) =~= pv);
            let declared = if state.started {
                &none
            } else {
                &state.prefixes
            };
            assert(declared.deep_view() =~= old(state).declared());
            text = render(self.ntriples, declared, &written)?;
            let outcome = self.after_row(state.row, state.buffer.len());
            state.row = outcome.next_row;
            stop = outcome.stop;
        }
        state.started = state.started || written.len() > 0;
        Ok(WindowOutcome { written, text, stop })
    }

    /// Processes one CSV record: hands each of its rows to the query
    /// (`record_substitutions`, `construct_triples`), gathers the triples in row order, and
    /// takes the window step with them (`window_step`).
    pub fn process_record(
        &self,
        state: &mut RunState,
        evaluator: &Evaluator,
        query: &spargebra::Query,
        query_vars: &StringHashSet,
        headers: &Vec<String>,
        record: &Vec<String>,
    ) -> (r: Result<RecordOutcome, RecordError>)
        requires
            old(state).wf(),
            old(state).row < u32::MAX,
            splits_in_range(headers.deep_view(), record.deep_view(), self.split.deep_view()),
        ensures
            r matches Ok(o) ==> {
                let bindings = record_bindings(
                    query_vars@,
                    split_rows(headers.deep_view(), record.deep_view(), self.split.deep_view()),
                    self.bind_empty_strings,
                );
                let produced = all_triples(o.rows@);
                &&& record_rows_evaluated(
                    o.rows@,
                    bindings,
                    row_number_binding(query_vars@, old(state).row),
                    *query,
                    *evaluator,
                )
                &&& o.produced.deep_view() == produced
                &&& final(state).wf()
                &&& final(state).row == old(state).row + 1
                &&& final(state).held() == step_held(self.dedup as int, old(state).held(), produced)
                &&& o.written.deep_view() == step_written(
                    self.dedup as int,
                    old(state).held(),
                    produced,
                )
                &&& rendered(self.ntriples, old(state).declared(), o.written.deep_view()) == Some(
                    o.text@,
                )
                &&& o.stop == stops_after(self.test, old(state).row as int)
                &&& final(state).prefixes == old(state).prefixes
                &&& final(state).started == (old(state).started || o.written@.len() > 0)
            },
            r matches Err(RecordError::Row(f)) ==> {
                let bindings = record_bindings(
                    query_vars@,
                    split_rows(headers.deep_view(), record.deep_view(), self.split.deep_view()),
                    self.bind_empty_strings,
                );
                let row_number = row_number_binding(query_vars@, old(state).row);
                &&& *final(state) == *old(state)
                &&& f matches RowFailure::RefusedName { row, message } ==> row < bindings.len()
                    && !names_accepted(bindings[row as int], row_number, ROWNUM@)
                &&& f matches RowFailure::Evaluation { row, failure } ==> {
                    &&& row < bindings.len()
                    &&& names_accepted(bindings[row as int], row_number, ROWNUM@)
                    &&& failure.failed_substitution().bindings.deep_view() == bindings[row as int]
                    &&& failure.failed_substitution().row_number == row_number
                    &&& failure.failed_query() == *query
                    &&& failure.failed_with() == *evaluator
                }
            },
            r matches Err(RecordError::Render(rows)) ==> {
                let bindings = record_bindings(
                    query_vars@,
                    split_rows(headers.deep_view(), record.deep_view(), self.split.deep_view()),
                    self.bind_empty_strings,
                );
                let produced = all_triples(rows@);
                &&& record_rows_evaluated(
                    rows@,
                    bindings,
                    row_number_binding(query_vars@, old(state).row),
                    *query,
                    *evaluator,
                )
                &&& rendered(
                    self.ntriples,
                    old(state).declared(),
                    step_written(self.dedup as int, old(state).held(), produced),
                ) is None
                &&& final(state).wf()
                &&& final(state).row == old(state).row
                &&& final(state).prefixes == old(state).prefixes
                &&& final(state).started == old(state).started
                &&& final(state).held() == if self.dedup > 0 {
                    fresh_append(old(state).held(), produced)
                } else {
                    old(state).held()
                }
            },
    {
        let substitutions = self.record_substitutions(query_vars, headers, record, state.row);
        let ghost subs = substitutions@;
        let rows = match construct_triples(evaluator, query, substitutions) {
            Ok(rows) => rows,
            Err(f) => {
                return Err(RecordError::Row(f));
            },
        };
        let produced = gather_triples(&rows);
        match self.window_step(state, &produced) {
            Ok(step) => Ok(
                RecordOutcome { rows, produced, written: step.written, text: step.text, stop: step.stop },
            ),
            Err(_) => Err(RecordError::Render(rows)),
        }
    }

    /// The text written once the input is exhausted: the window's triples when
    /// deduplicating and the window is not empty, else nothing; the window is emptied.
    pub fn finish_run(&self, state: &mut RunState) -> (r: Result<String, String>)
        requires
            old(state).wf(),
        ensures
            r is Ok <==> (!(self.dedup > 0 && old(state).held().len() > 0) || rendered(
                self.ntriples,
                old(state).declared(),
                old(state).held(),
            ) is Some),
            r matches Ok(t) ==> {
                &&& final(state).wf()
                &&& self.dedup > 0 && old(state).held().len() > 0 ==> (rendered(
                    self.ntriples,
                    old(state).declared(),
                    old(state).held(),
                ) == Some(t@) && final(state).held() == Seq::<Seq<char>>::empty()
                    && final(state).started)
                &&& !(self.dedup > 0 && old(state).held().len() > 0) ==> t@ == Seq::<char>::empty()
                    && final(state).held() == old(state).held() && final(state).started
                    == old(state).started
                &&& final(state).prefixes == old(state).prefixes
            },
            r is Err ==> *final(state) == *old(state),
            old(state).held().no_duplicates(),
    {
        proof {
            state.buffer.lemma_keys_distinct();
        }
        if self.final_flush(state.buffer.len()) {
            let none: Vec<(String, String)> = Vec::new();
            let items = state.buffer.as_vec();
            assert(items.deep_view() =~= state.held());
            let declared = if state.started {
                &none
            } else {
                &state.prefixes
            };
            assert(declared.deep_view() =~= old(state).declared());
            let text = render(self.ntriples, declared, items)?;
            let ghost held0 = state.held();
            let written = state.buffer.drain();
            assert(state.buffer.items().map_values(|s: String| s@) =~= state.buffer.keys());
            assert(written.deep_view() =~= held0);
            state.started = true;
            Ok(text)
        } else {
            Ok(String::new())
        }
    }
}

} // verus!
