//! Handing a row's substitution to `spareval`: its terms are made from the substitution
//! only here, and an evaluated row, made only here, pairs the substitution with the
//! triples that its evaluation gave.
use vstd::prelude::*;

use oxigraph::model::{Dataset, Literal, Variable};
use spareval::QueryResults;

use vstd::hash_map::StringHashMap;

use crate::functions::{call_expand_prefix, call_expand_prefixed_name, TermValue};
use crate::query_text::string_map_view;
use crate::run::RowSubstitution;

verus! {

/// A SPARQL variable.
#[verifier::external_type_specification]
#[verifier::external_body]
pub struct ExVariable(oxigraph::model::Variable);

/// A row's substitution together with the `spareval` terms made from it. Only
/// `substitution_terms` makes one, so the terms always belong to the substitution.
pub struct SubstitutionTerms {
    substitution: RowSubstitution,
    terms: Vec<(Variable, oxigraph::model::Term)>,
}

impl SubstitutionTerms {
    /// The substitution that the terms were made from.
    pub closed spec fn substitution(&self) -> RowSubstitution {
        self.substitution
    }
}

/// Whether `oxrdf::Variable::new` accepts the text as a variable name.
pub uninterp spec fn accepts_variable(name: Seq<char>) -> bool;

/// Whether every name of the bindings is accepted as a variable name, `rownum` among them
/// when there is a row number.
pub open spec fn names_accepted(
    bindings: Seq<(Seq<char>, Seq<char>)>,
    row_number: Option<u32>,
    rownum: Seq<char>,
) -> bool {
    &&& forall|j: int| 0 <= j < bindings.len() ==> accepts_variable((#[trigger] bindings[j]).0)
    &&& row_number is Some ==> accepts_variable(rownum)
}

/// Makes the terms of a substitution: each binding's name as an `oxrdf::Variable`
/// (`Variable::new`) with its value as a plain literal (`Literal::new_simple_literal`), then,
/// when there is a row number, `rownum` with the number as an `xsd:integer` literal
/// (`Literal::from`). Fails, with its message, exactly when `Variable::new` refuses a name.
#[verifier::external_body]
pub(crate) fn substitution_terms(substitution: RowSubstitution, rownum: &String) -> (r: Result<
    SubstitutionTerms,
    String,
>)
    ensures
        r is Ok <==> ((forall|j: int|
            0 <= j < substitution.bindings@.len() ==> accepts_variable(
                (#[trigger] substitution.bindings@[j]).0@,
            )) && (substitution.row_number is Some ==> accepts_variable(rownum@))),
        r matches Ok(t) ==> t.substitution() == substitution,
{
    let terms = substitution.bindings.iter().map(|(n, v)| (n, Literal::new_simple_literal(v)))
        .chain(substitution.row_number.map(|n| (rownum, Literal::from(n))))
        .map(|(n, l)| Variable::new(n).map(|x| (x, l.into())))
        .collect::<Result<Vec<_>, _>>();
    match terms {
        Ok(terms) => Ok(SubstitutionTerms { substitution, terms }),
        Err(e) => Err(e.to_string()),
    }
}

/// An RDF term.
#[verifier::external_type_specification]
#[verifier::external_body]
pub struct ExRdfTerm(oxigraph::model::Term);

/// The library's view of an RDF term: an IRI for a named node, the lexical value for a
/// literal, nothing more for any other term.
#[verifier::external_body]
fn to_library_term(t: &oxigraph::model::Term) -> TermValue {
    match t {
        oxigraph::model::Term::NamedNode(n) => TermValue::NamedNode(n.as_str().to_string()),
        oxigraph::model::Term::Literal(l) => TermValue::Literal(l.value().to_string()),
        _ => TermValue::Other,
    }
}

/// Whether `oxrdf::NamedNode::new` accepts the text as an IRI.
pub uninterp spec fn accepts_iri(iri: Seq<char>) -> bool;

/// The RDF term for a library term: a named node (`oxrdf::NamedNode::new`, nothing for an
/// IRI that it refuses) or a plain literal (`oxrdf::Literal::from`); nothing for any other
/// term.
#[verifier::external_body]
fn to_rdf_term(t: TermValue) -> (r: Option<oxigraph::model::Term>)
    ensures
        t matches TermValue::NamedNode(iri) ==> (r is Some <==> accepts_iri(iri@)),
        t is Literal ==> r is Some,
        t is Other ==> r is None,
{
    match t {
        TermValue::NamedNode(iri) => oxigraph::model::NamedNode::new(iri).ok().map(|n| n.into()),
        TermValue::Literal(value) => Some(oxigraph::model::Literal::from(value).into()),
        TermValue::Other => None,
    }
}

/// The library's view of the arguments of a function call.
fn library_terms(args: &[oxigraph::model::Term]) -> Vec<TermValue> {
    let mut terms: Vec<TermValue> = Vec::new();
    let n = args.len();
    for k in 0..n
        invariant
            n == args@.len(),
    {
        terms.push(to_library_term(&args[k]));
    }
    terms
}

/// `tarql:expandPrefix` as the evaluator calls it (see `call_expand_prefix`).
fn expand_prefix_function(prefixes: &StringHashMap<String>, args: &[oxigraph::model::Term]) -> Option<
    oxigraph::model::Term,
> {
    match call_expand_prefix(prefixes, &library_terms(args)) {
        Some(t) => to_rdf_term(t),
        None => None,
    }
}

/// `tarql:expandPrefixedName` as the evaluator calls it (see `call_expand_prefixed_name`).
fn expand_prefixed_name_function(
    prefixes: &StringHashMap<String>,
    args: &[oxigraph::model::Term],
) -> Option<oxigraph::model::Term> {
    match call_expand_prefixed_name(prefixes, &library_terms(args)) {
        Some(t) => to_rdf_term(t),
        None => None,
    }
}

/// A query evaluator whose only custom functions are this library's `tarql:` functions,
/// which never panic. It records the IRI of each function and the prefix map that both
/// answer from; only `build_evaluator` makes one.
pub struct Evaluator {
    inner: spareval::QueryEvaluator,
    expand_prefix_iri: String,
    expand_prefixed_name_iri: String,
    prefixes: StringHashMap<String>,
}

impl Evaluator {
    /// The IRI under which `tarql:expandPrefix` is registered.
    pub closed spec fn expand_prefix_iri(&self) -> Seq<char> {
        self.expand_prefix_iri@
    }

    /// The IRI under which `tarql:expandPrefixedName` is registered.
    pub closed spec fn expand_prefixed_name_iri(&self) -> Seq<char> {
        self.expand_prefixed_name_iri@
    }

    /// The prefix map that both functions answer from, each IRI taken by its characters.
    pub closed spec fn prefixes(&self) -> Map<Seq<char>, Seq<char>> {
        string_map_view(self.prefixes@)
    }
}

/// Creates a `spareval::QueryEvaluator` with the two custom functions registered
/// (`with_custom_function`): under `expand_prefix_iri` one that answers through
/// `expand_prefix_function` from `for_prefix`, under `expand_prefixed_name_iri` one that
/// answers through `expand_prefixed_name_function` from `for_prefixed_name`; the two maps
/// must hold what `prefixes` holds, which the evaluator records with both IRIs. Fails
/// exactly when `oxrdf::NamedNode::new` refuses an IRI.
#[verifier::external_body]
pub(crate) fn build_evaluator(
    expand_prefix_iri: &str,
    expand_prefixed_name_iri: &str,
    prefixes: StringHashMap<String>,
    for_prefix: StringHashMap<String>,
    for_prefixed_name: StringHashMap<String>,
) -> (r: Result<Evaluator, String>)
    requires
        string_map_view(for_prefix@) == string_map_view(prefixes@),
        string_map_view(for_prefixed_name@) == string_map_view(prefixes@),
    ensures
        r is Ok <==> (accepts_iri(expand_prefix_iri@) && accepts_iri(expand_prefixed_name_iri@)),
        r matches Ok(e) ==> e.expand_prefix_iri() == expand_prefix_iri@ && e.expand_prefixed_name_iri()
            == expand_prefixed_name_iri@ && e.prefixes() == string_map_view(prefixes@),
{
    let first = oxigraph::model::NamedNode::new(expand_prefix_iri).map_err(|e| e.to_string())?;
    let second = oxigraph::model::NamedNode::new(expand_prefixed_name_iri).map_err(|e| e.to_string())?;
    let inner = spareval::QueryEvaluator::new()
        .with_custom_function(first, move |args| expand_prefix_function(&for_prefix, args))
        .with_custom_function(second, move |args| expand_prefixed_name_function(&for_prefixed_name, args));
    let (expand_prefix_iri, expand_prefixed_name_iri) = (expand_prefix_iri.to_string(), expand_prefixed_name_iri.to_string());
    Ok(Evaluator { inner, expand_prefix_iri, expand_prefixed_name_iri, prefixes })
}

/// A row's substitution and the triples that the query constructed with it, with a
/// record of the query and the evaluator used. Only `evaluate` makes one, so the triples
/// are always those of that evaluation.
pub struct EvaluatedRow {
    substitution: RowSubstitution,
    triples: Vec<String>,
    query: Ghost<spargebra::Query>,
    evaluator: Ghost<Evaluator>,
}

impl EvaluatedRow {
    /// The substitution that the query was evaluated with.
    pub closed spec fn evaluated_substitution(&self) -> RowSubstitution {
        self.substitution
    }

    /// The triples that the evaluation constructed, as their N-Triples terms.
    pub closed spec fn evaluated_triples(&self) -> Seq<Seq<char>> {
        self.triples.deep_view()
    }

    /// The query that was evaluated.
    pub closed spec fn evaluated_query(&self) -> spargebra::Query {
        self.query@
    }

    /// The evaluator that evaluated it.
    pub closed spec fn evaluated_with(&self) -> Evaluator {
        self.evaluator@
    }

    /// The substitution that the query was evaluated with.
    pub fn substitution(&self) -> (r: &RowSubstitution)
        ensures
            *r == self.evaluated_substitution(),
    {
        &self.substitution
    }

    /// The triples that the evaluation constructed.
    pub fn triples(&self) -> (r: &Vec<String>)
        ensures
            r.deep_view() == self.evaluated_triples(),
    {
        &self.triples
    }
}

/// An evaluation that failed, with the message and a record of what was evaluated. Only
/// `evaluate` makes one.
pub struct EvaluationFailure {
    message: String,
    substitution: Ghost<RowSubstitution>,
    query: Ghost<spargebra::Query>,
    evaluator: Ghost<Evaluator>,
}

impl EvaluationFailure {
    /// The substitution that the failed evaluation was made with.
    pub closed spec fn failed_substitution(&self) -> RowSubstitution {
        self.substitution@
    }

    /// The query whose evaluation failed.
    pub closed spec fn failed_query(&self) -> spargebra::Query {
        self.query@
    }

    /// The evaluator that failed.
    pub closed spec fn failed_with(&self) -> Evaluator {
        self.evaluator@
    }

    /// The evaluator's message.
    pub fn message(&self) -> &String {
        &self.message
    }
}

/// Evaluates `query` with the evaluator's `spareval::QueryEvaluator`
/// (`execute_with_substituted_variables`) against an empty dataset, with the given terms
/// substituted, and gives each constructed triple as its N-Triples terms (the `Display` of
/// `oxrdf::Triple`); a query that constructs no graph gives none. The row, or the failure
/// when the evaluation fails, records the substitution that the terms were made from, the
/// query and the evaluator. Nothing is stated of the triples: blank nodes are fresh on
/// every evaluation.
#[verifier::external_body]
#[allow(deprecated)]
pub(crate) fn evaluate(
    evaluator: &Evaluator,
    query: &spargebra::Query,
    terms: SubstitutionTerms,
) -> (r: Result<EvaluatedRow, EvaluationFailure>)
    ensures
        r matches Ok(row) ==> row.evaluated_substitution() == terms.substitution()
            && row.evaluated_query() == *query && row.evaluated_with() == *evaluator,
        r matches Err(f) ==> f.failed_substitution() == terms.substitution() && f.failed_query()
            == *query && f.failed_with() == *evaluator,
{
    let triples = match evaluator.inner.execute_with_substituted_variables(&Dataset::new(), query, terms.terms) {
        Ok(QueryResults::Graph(ts)) => ts.map(|t| t.map(|t| t.to_string())).collect(),
        r => r.map(|_| Vec::new()),
    };
    let (query, evaluator) = (Ghost(*query), Ghost(*evaluator));
    match triples {
        Ok(triples) => Ok(EvaluatedRow { substitution: terms.substitution, triples, query, evaluator }),
        Err(e) => Err(EvaluationFailure { message: e.to_string(), substitution: Ghost(terms.substitution), query, evaluator }),
    }
}

} // verus!
