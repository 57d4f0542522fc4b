//! Parsing the CONSTRUCT query with `spargebra`, building the `spareval` evaluator with the
//! custom functions, evaluating the query once per row, and rendering triples as N-Triples
//! or, with `oxrdfio`, as Turtle.
use vstd::prelude::*;

use crate::functions::{EXPAND_PREFIXED_NAME_IRI, EXPAND_PREFIX_IRI};
use crate::query_text::{
    declares, extract_prefixes, lemma_prefix_map_last_declaration, prefix_map, regex_captures,
    regex_compiles, PREFIX_PATTERN,
};
use crate::run::{RowSubstitution, ROWNUM};

use crate::evaluation::{
    accepts_iri, accepts_variable, build_evaluator, evaluate, names_accepted, substitution_terms, EvaluatedRow,
    EvaluationFailure, Evaluator,
};

verus! {

/// A parsed SPARQL query.
#[verifier::external_type_specification]
#[verifier::external_body]
pub struct ExQuery(spargebra::Query);

/// A SPARQL evaluator, with the custom functions registered on it.
#[verifier::external_type_specification]
#[verifier::external_body]
pub struct ExQueryEvaluator(spareval::QueryEvaluator);

/// Whether `spargebra::SparqlParser`, with `prefix` bound to `namespace`, accepts the
/// query text.
pub uninterp spec fn parses_as_query(prefix: Seq<char>, namespace: Seq<char>, text: Seq<char>) -> bool;

/// Parses a SPARQL query with `spargebra::SparqlParser::parse_query`, `prefix` bound to
/// `namespace` by `with_prefix`. Succeeds exactly when the parser accepts the text (an
/// invalid namespace IRI makes it fail); the error is the parser's message.
#[verifier::external_body]
pub fn parse_query(prefix: &str, namespace: &str, query_text: &str) -> (r: Result<
    spargebra::Query,
    String,
>)
    ensures
        r is Ok <==> parses_as_query(prefix@, namespace@, query_text@),
{
    spargebra::SparqlParser::new()
        .with_prefix(prefix, namespace)
        .map_err(|e| e.to_string())?
        .parse_query(query_text)
        .map_err(|e| e.to_string())
}

/// The evaluator for a query text: `tarql:expandPrefix` and `tarql:expandPrefixedName`,
/// registered under their own IRIs, answer from the text's prefix declarations. Fails
/// exactly when the prefix pattern does not compile or a function's IRI is refused.
pub fn tarql_evaluator(query_text: &str) -> (r: Result<Evaluator, String>)
    ensures
        r is Ok <==> (regex_compiles(PREFIX_PATTERN@) && accepts_iri(EXPAND_PREFIX_IRI@)
            && accepts_iri(EXPAND_PREFIXED_NAME_IRI@)),
        r matches Ok(e) ==> {
            &&& e.expand_prefix_iri() == EXPAND_PREFIX_IRI@
            &&& e.expand_prefixed_name_iri() == EXPAND_PREFIXED_NAME_IRI@
            &&& e.prefixes() == prefix_map(regex_captures(PREFIX_PATTERN@, query_text@))
        },
{
    let prefixes = match extract_prefixes(query_text) {
        Some(m) => m,
        None => {
            return Err(String::from_str("the prefix pattern does not compile"));
        },
    };
    let for_prefix = match extract_prefixes(query_text) {
        Some(m) => m,
        None => {
            return Err(String::from_str("the prefix pattern does not compile"));
        },
    };
    let for_prefixed_name = match extract_prefixes(query_text) {
        Some(m) => m,
        None => {
            return Err(String::from_str("the prefix pattern does not compile"));
        },
    };
    build_evaluator(EXPAND_PREFIX_IRI, EXPAND_PREFIXED_NAME_IRI, prefixes, for_prefix, for_prefixed_name)
}

/// The custom functions answer from the query's own declarations: when the prefix
/// pattern's match `k` in the query text declares `name` and no later match does, an
/// evaluator made for that text maps `name` to the IRI of match `k`.
pub proof fn lemma_evaluator_answers_declared_prefix(
    query_text: Seq<char>,
    e: Evaluator,
    name: Seq<char>,
    k: int,
)
    requires
        e.prefixes() == prefix_map(regex_captures(PREFIX_PATTERN@, query_text)),
        0 <= k < regex_captures(PREFIX_PATTERN@, query_text).len(),
        declares(regex_captures(PREFIX_PATTERN@, query_text)[k], name),
        forall|j: int|
            k < j < regex_captures(PREFIX_PATTERN@, query_text).len() ==> !declares(
                #[trigger] regex_captures(PREFIX_PATTERN@, query_text)[j],
                name,
            ),
    ensures
        e.prefixes().contains_key(name),
        e.prefixes()[name] == regex_captures(PREFIX_PATTERN@, query_text)[k][2]->0,
{
    lemma_prefix_map_last_declaration(regex_captures(PREFIX_PATTERN@, query_text), name, k);
}

/// Why the rows of a record could not all be evaluated: a name of row `row` was refused as
/// a variable, or the evaluation of row `row` failed.
pub enum RowFailure {
    RefusedName { row: usize, message: String },
    Evaluation { row: usize, failure: EvaluationFailure },
}

/// Evaluates the query once per substitution, in order (`substitution_terms`, then
/// `evaluate`): row `k` of the result is the evaluation of `query` by `evaluator` with
/// substitution `k`. Stops at the first row whose names are refused or whose evaluation
/// fails, and says which.
pub fn construct_triples(
    evaluator: &Evaluator,
    query: &spargebra::Query,
    substitutions: Vec<RowSubstitution>,
) -> (r: Result<Vec<EvaluatedRow>, RowFailure>)
    ensures
        r matches Ok(rows) ==> rows_evaluated(rows@, substitutions@, *query, *evaluator),
        r is Ok ==> forall|k: int|
            0 <= k < substitutions@.len() ==> names_accepted(
                (#[trigger] substitutions@[k]).bindings.deep_view(),
                substitutions@[k].row_number,
                ROWNUM@,
            ),
        r matches Err(RowFailure::RefusedName { row, message }) ==> row < substitutions@.len()
            && !names_accepted(
                substitutions@[row as int].bindings.deep_view(),
                substitutions@[row as int].row_number,
                ROWNUM@,
            ),
        r matches Err(RowFailure::Evaluation { row, failure }) ==> {
            &&& row < substitutions@.len()
            &&& names_accepted(
                substitutions@[row as int].bindings.deep_view(),
                substitutions@[row as int].row_number,
                ROWNUM@,
            )
            &&& failure.failed_substitution() == substitutions@[row as int]
            &&& failure.failed_query() == *query
            &&& failure.failed_with() == *evaluator
        },
{
    let mut rows: Vec<EvaluatedRow> = Vec::new();
    let ghost subs = substitutions@;
    let n = substitutions.len();
    let mut rest = substitutions;
    while rest.len() > 0
        invariant
            n == subs.len(),
            subs == substitutions@,
            rest@.len() + rows@.len() == n,
            rest@ == subs.subrange(rows@.len() as int, n as int),
            rows_evaluated(rows@, subs.take(rows@.len() as int), *query, *evaluator),
            forall|k: int|
                0 <= k < rows@.len() ==> names_accepted(
                    (#[trigger] subs[k]).bindings.deep_view(),
                    subs[k].row_number,
                    ROWNUM@,
                ),
        decreases rest@.len(),
    {
        let k = rows.len();
        let substitution = rest.remove(0);
        let rownum = String::from_str(ROWNUM);
        assert(substitution == subs[k as int]);
        let ghost sub = substitution;
        let ghost bv = substitution.bindings.deep_view();
        assert forall|j: int| 0 <= j < bv.len() implies bv[j].0 == substitution.bindings@[j].0@ by {}
        let terms = match substitution_terms(substitution, &rownum) {
            Ok(t) => t,
            Err(message) => {
                proof {
                    if forall|j: int| 0 <= j < bv.len() ==> accepts_variable((#[trigger] bv[j]).0) {
                        assert forall|j: int| 0 <= j < sub.bindings@.len() implies accepts_variable(
                            (#[trigger] sub.bindings@[j]).0@,
                        ) by {
                            assert(bv[j].0 == sub.bindings@[j].0@);
                        }
                    }
                }
                return Err(RowFailure::RefusedName { row: k, message });
            },
        };
        let row = match evaluate(evaluator, query, terms) {
            Ok(row) => row,
            Err(failure) => {
                return Err(RowFailure::Evaluation { row: k, failure });
            },
        };
        let ghost before = rows@;
        rows.push(row);
        assert(subs.take(rows@.len() as int) =~= subs.take(k as int).push(subs[k as int]));
        assert(rows@ =~= before.push(row));
        assert(rest@ =~= subs.subrange(rows@.len() as int, n as int));
    }
    assert(subs.take(n as int) =~= subs);
    Ok(rows)
}

/// Each row is the evaluation of `query` by `evaluator` with the substitution at the same
/// place, and there is one row per substitution.
pub open spec fn rows_evaluated(
    rows: Seq<EvaluatedRow>,
    substitutions: Seq<RowSubstitution>,
    query: spargebra::Query,
    evaluator: Evaluator,
) -> bool {
    &&& rows.len() == substitutions.len()
    &&& forall|k: int|
        0 <= k < rows.len() ==> {
            &&& (#[trigger] rows[k]).evaluated_substitution() == substitutions[k]
            &&& rows[k].evaluated_query() == query
            &&& rows[k].evaluated_with() == evaluator
        }
}

/// Whether `oxrdfio::RdfParser` reads the text as N-Triples.
pub uninterp spec fn parses_as_ntriples(text: Seq<char>) -> bool;

/// Whether `oxrdfio::RdfSerializer::with_prefix` accepts each of the declarations, name and
/// IRI, in turn.
pub uninterp spec fn accepts_prefixes(prefixes: Seq<(Seq<char>, Seq<char>)>) -> bool;

/// The Turtle text that `oxrdfio::RdfSerializer`, given the prefix declarations, writes for
/// the triples of an N-Triples text, in their order.
pub uninterp spec fn turtle_of(prefixes: Seq<(Seq<char>, Seq<char>)>, text: Seq<char>) -> Seq<char>;

/// Reads N-Triples text with `oxrdfio::RdfParser` and writes its triples as Turtle with
/// `oxrdfio::RdfSerializer`, declaring the given prefixes (`with_prefix`). Succeeds exactly
/// when the serializer accepts the declarations and the text parses, with the named Turtle
/// text.
#[verifier::external_body]
fn ntriples_to_turtle(prefixes: &Vec<(String, String)>, text: &str) -> (r: Result<String, String>)
    ensures
        r is Ok <==> (accepts_prefixes(prefixes.deep_view()) && parses_as_ntriples(text@)),
        r matches Ok(t) ==> t@ == turtle_of(prefixes.deep_view(), text@),
{
    let serializer = prefixes.iter().try_fold(oxrdfio::RdfSerializer::from_format(oxrdfio::RdfFormat::Turtle),
        |s, (name, iri)| s.with_prefix(name, iri)).map_err(|e| e.to_string())?;
    let mut serializer = serializer.for_writer(Vec::new());
    oxrdfio::RdfParser::from_format(oxrdfio::RdfFormat::NTriples).for_slice(text.as_bytes()).try_for_each(
        |q| serializer.serialize_quad(&q.map_err(|e| e.to_string())?).map_err(|e| e.to_string()),
    )?;
    String::from_utf8(serializer.finish().map_err(|e| e.to_string())?).map_err(|e| e.to_string())
}

/// The N-Triples text of the given triples: each triple's terms followed by ` .` and a
/// line break.
pub open spec fn ntriples_text(triples: Seq<Seq<char>>) -> Seq<char>
    decreases triples.len(),
{
    if triples.len() == 0 {
        Seq::<char>::empty()
    } else {
        ntriples_text(triples.drop_last()) + triples.last() + " .\n"@
    }
}

/// The text written for the given triples: N-Triples, or else Turtle declaring the given
/// prefixes; nothing for no triples. `None` when the serializer refuses the prefixes or the
/// N-Triples text does not parse.
pub open spec fn rendered(
    ntriples: bool,
    prefixes: Seq<(Seq<char>, Seq<char>)>,
    triples: Seq<Seq<char>>,
) -> Option<Seq<char>> {
    if ntriples {
        Some(ntriples_text(triples))
    } else if triples.len() == 0 {
        Some(Seq::<char>::empty())
    } else if accepts_prefixes(prefixes) && parses_as_ntriples(ntriples_text(triples)) {
        Some(turtle_of(prefixes, ntriples_text(triples)))
    } else {
        None
    }
}

/// Renders triples (see `rendered`); the error comes when the Turtle serializer refuses the
/// prefixes or the N-Triples text does not parse.
pub fn render(ntriples: bool, prefixes: &Vec<(String, String)>, triples: &Vec<String>) -> (r: Result<
    String,
    String,
>)
    ensures
        match rendered(ntriples, prefixes.deep_view(), triples.deep_view()) {
            Some(t) => r matches Ok(s) && s@ == t,
            None => r is Err,
        },
{
    let mut text = String::new();
    let n = triples.len();
    let dot = " .\n";
    for k in 0..n
        invariant
            n == triples@.len(),
            dot@ == " .\n"@,
            text@ == ntriples_text(triples.deep_view().take(k as int)),
    {
        assert(triples.deep_view().take(k + 1).drop_last() =~= triples.deep_view().take(k as int));
        text.append(triples[k].as_str());
        text.append(dot);
    }
    assert(triples.deep_view().take(n as int) =~= triples.deep_view());
    if ntriples {
        Ok(text)
    } else if n == 0 {
        Ok(String::new())
    } else {
        ntriples_to_turtle(prefixes, text.as_str())
    }
}

} // verus!
