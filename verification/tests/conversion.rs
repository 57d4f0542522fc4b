use oxi_gen::conversion::{RecordError, RunState};
use oxi_gen::functions::{TARQL_NAMESPACE, TARQL_PREFIX};
use oxi_gen::query_text::{extract_prefix_list, extract_prefixes, extract_variables};
use oxi_gen::functions::{call_expand_prefix, call_expand_prefixed_name, TermValue};
use oxi_gen::sparql::{parse_query, render, tarql_evaluator};
use oxi_gen::tarql::OxiTarql;

fn ok<T, E>(r: Result<T, E>) -> T {
    match r {
        Ok(t) => t,
        Err(_) => panic!("the record could not be processed"),
    }
}

fn strings(v: &[&str]) -> Vec<String> {
    v.iter().map(|s| s.to_string()).collect()
}

const QUERY: &str = "PREFIX ex:<http://ex.org/>\nCONSTRUCT { ex:s ex:name ?name . ex:s ex:row ?ROWNUM . ex:k ex:p ex:o } WHERE {}";

#[test]
fn prefix_declared_without_space_is_found() {
    let q = "PREFIX ex:<http://example.org/>\nCONSTRUCT { ?s ?p ?o } WHERE { ?s ?p ?o }";
    let m = extract_prefixes(q).unwrap();
    assert_eq!(m.get("ex"), Some(&"http://example.org/".to_string()));
}

#[test]
fn parse_query_accepts_and_refuses() {
    assert!(parse_query(TARQL_PREFIX, TARQL_NAMESPACE, QUERY).is_ok());
    assert!(parse_query(TARQL_PREFIX, TARQL_NAMESPACE, "CONSTRUCT {").is_err());
}

#[test]
fn process_record_writes_each_row_at_once_without_dedup() {
    let tarql = OxiTarql { ntriples: true, ..Default::default() };
    let query = parse_query(TARQL_PREFIX, TARQL_NAMESPACE, QUERY).unwrap();
    let vars = extract_variables(QUERY).unwrap();
    let evaluator = tarql_evaluator(QUERY).unwrap();
    let mut state = RunState::new(Vec::new());
    let headers = strings(&["name"]);
    let o = ok(tarql.process_record(&mut state, &evaluator, &query, &vars, &headers, &strings(&["Alice"])));
    assert_eq!(o.produced.len(), 3);
    assert_eq!(o.rows.len(), 1);
    assert_eq!(o.rows[0].substitution().bindings, vec![("name".to_string(), "Alice".to_string())]);
    assert_eq!(o.rows[0].substitution().row_number, Some(0));
    assert_eq!(*o.rows[0].triples(), o.produced);
    assert_eq!(o.written, o.produced);
    assert!(o.text.contains("<http://ex.org/s> <http://ex.org/name> \"Alice\" .\n"));
    assert!(o.text.contains("<http://ex.org/k> <http://ex.org/p> <http://ex.org/o> .\n"));
    assert!(o.text.contains("<http://ex.org/row> \"0\"^^"));
    assert_eq!(o.text.lines().count(), 3);
    assert!(!o.stop);
    assert_eq!(state.row, 1);
    assert_eq!(tarql.finish_run(&mut state).unwrap(), "");
}

#[test]
fn process_record_deduplicates_within_window() {
    let tarql = OxiTarql { ntriples: true, dedup: 1000, test: 2, ..Default::default() };
    let query = parse_query(TARQL_PREFIX, TARQL_NAMESPACE, QUERY).unwrap();
    let vars = extract_variables(QUERY).unwrap();
    let evaluator = tarql_evaluator(QUERY).unwrap();
    let mut state = RunState::new(Vec::new());
    let headers = strings(&["name"]);
    let first = ok(tarql.process_record(&mut state, &evaluator, &query, &vars, &headers, &strings(&["Alice"])));
    assert!(first.written.is_empty());
    assert_eq!(first.text, "");
    assert!(!first.stop);
    let second = ok(tarql.process_record(&mut state, &evaluator, &query, &vars, &headers, &strings(&["Alice"])));
    assert!(second.stop);
    assert_eq!(state.buffer.len(), 4);
    let rest = tarql.finish_run(&mut state).unwrap();
    assert_eq!(rest.lines().count(), 4);
    assert_eq!(rest.matches("<http://ex.org/k>").count(), 1);
    assert_eq!(state.buffer.len(), 0);
}

#[test]
fn process_record_flushes_full_window() {
    let tarql = OxiTarql { ntriples: true, dedup: 2, ..Default::default() };
    let query = parse_query(TARQL_PREFIX, TARQL_NAMESPACE, QUERY).unwrap();
    let vars = extract_variables(QUERY).unwrap();
    let evaluator = tarql_evaluator(QUERY).unwrap();
    let mut state = RunState::new(Vec::new());
    let o = ok(tarql.process_record(&mut state, &evaluator, &query, &vars, &strings(&["name"]), &strings(&["Bob"])));
    assert_eq!(o.written.len(), 3);
    assert_eq!(state.buffer.len(), 0);
}

#[test]
fn test_flush_store() {
    let tarql = OxiTarql { ntriples: true, dedup: 1000, ..Default::default() };
    let mut state = RunState::new(Vec::new());
    let t1 = "<http://example.org/s1> <http://example.org/p> <http://example.org/o1>".to_string();
    let t2 = "<http://example.org/s2> <http://example.org/p> <http://example.org/o2>".to_string();
    state.buffer.insert(t1.clone(), t1);
    state.buffer.insert(t2.clone(), t2);
    let result = tarql.finish_run(&mut state);
    assert!(result.is_ok());
    assert_eq!(result.unwrap().lines().count(), 2);
    assert_eq!(state.buffer.len(), 0); // Store should be cleared
}

#[test]
fn render_turtle_and_ntriples() {
    let lines = strings(&["<http://ex.org/s> <http://ex.org/p> \"x\""]);
    assert_eq!(render(true, &Vec::new(), &lines).unwrap(), "<http://ex.org/s> <http://ex.org/p> \"x\" .\n");
    let turtle = render(false, &Vec::new(), &lines).unwrap();
    assert!(turtle.contains("<http://ex.org/s> <http://ex.org/p> \"x\""));
    assert_eq!(render(false, &Vec::new(), &Vec::new()).unwrap(), "");
    assert!(render(false, &Vec::new(), &strings(&["not a triple"])).is_err());
}

const ONE_TRIPLE: &str = "CONSTRUCT { <http://e.org/s> <http://e.org/p> <http://e.org/o> } WHERE {}";

#[test]
fn one_triple_from_three_rows_is_written_once_with_dedup() {
    let tarql = OxiTarql { ntriples: true, dedup: 1000, ..Default::default() };
    let query = parse_query(TARQL_PREFIX, TARQL_NAMESPACE, ONE_TRIPLE).unwrap();
    let vars = extract_variables(ONE_TRIPLE).unwrap();
    let evaluator = tarql_evaluator(ONE_TRIPLE).unwrap();
    let mut state = RunState::new(Vec::new());
    let headers = strings(&["x"]);
    let mut out = String::new();
    for cell in ["1", "2", "3"] {
        let o = ok(tarql.process_record(&mut state, &evaluator, &query, &vars, &headers, &strings(&[cell])));
        assert_eq!(o.produced.len(), 1);
        assert!(o.rows[0].substitution().bindings.is_empty());
        out.push_str(&o.text);
    }
    out.push_str(&tarql.finish_run(&mut state).unwrap());
    assert_eq!(out, "<http://e.org/s> <http://e.org/p> <http://e.org/o> .\n");
}

#[test]
fn split_rows_each_reach_the_query() {
    let q = "PREFIX ex:<http://ex.org/>\nCONSTRUCT { ex:s ex:tag ?tag } WHERE {}";
    let tarql = OxiTarql {
        ntriples: true,
        split: vec![("tags".to_string(), "tag".to_string(), ";".to_string())],
        ..Default::default()
    };
    let query = parse_query(TARQL_PREFIX, TARQL_NAMESPACE, q).unwrap();
    let vars = extract_variables(q).unwrap();
    let evaluator = tarql_evaluator(q).unwrap();
    let mut state = RunState::new(Vec::new());
    let o = ok(tarql.process_record(&mut state, &evaluator, &query, &vars, &strings(&["tags"]), &strings(&["a;b"])));
    assert_eq!(o.rows.len(), 2);
    assert_eq!(o.rows[0].substitution().bindings, vec![("tag".to_string(), "a".to_string())]);
    assert_eq!(o.rows[1].substitution().bindings, vec![("tag".to_string(), "b".to_string())]);
    assert_eq!(o.rows[0].substitution().row_number, None);
    assert_eq!(
        o.text,
        "<http://ex.org/s> <http://ex.org/tag> \"a\" .\n<http://ex.org/s> <http://ex.org/tag> \"b\" .\n"
    );
}

#[test]
fn custom_functions_expand_through_the_evaluator() {
    let q = "PREFIX ex: <http://ex.org/>\nPREFIX tarql: <https://semanticarts.com/tarql/>\n\
             CONSTRUCT { ?s ex:ns ?ns ; ex:label ?name } WHERE { BIND(tarql:expandPrefixedName(\"ex:thing\") AS ?s) \
             BIND(tarql:expandPrefix(\"ex\") AS ?ns) }";
    let unknown = "PREFIX ex: <http://ex.org/>\nPREFIX tarql: <https://semanticarts.com/tarql/>\n\
             CONSTRUCT { ?s ex:label ?name } WHERE { BIND(tarql:expandPrefixedName(\"zz:thing\") AS ?s) }";
    let tarql = OxiTarql { ntriples: true, ..Default::default() };
    let headers = strings(&["name"]);
    let mut texts = Vec::new();
    for text in [q, unknown] {
        let query = parse_query(TARQL_PREFIX, TARQL_NAMESPACE, text).unwrap();
        let vars = extract_variables(text).unwrap();
        let evaluator = tarql_evaluator(text).unwrap();
        let mut state = RunState::new(Vec::new());
        let o = ok(tarql.process_record(&mut state, &evaluator, &query, &vars, &headers, &strings(&["Ann"])));
        texts.push(o.text);
    }
    assert!(texts[0].contains("<http://ex.org/thing> <http://ex.org/ns> \"http://ex.org/\" .\n"));
    assert!(texts[0].contains("<http://ex.org/thing> <http://ex.org/label> \"Ann\" .\n"));
    assert_eq!(texts[0].lines().count(), 2);
    assert_eq!(texts[1], "");
}

#[test]
fn custom_function_calls_refuse_missing_or_non_literal_arguments() {
    let prefixes = extract_prefixes("PREFIX ex: <http://ex.org/> SELECT * {}").unwrap();
    assert!(call_expand_prefix(&prefixes, &Vec::new()).is_none());
    assert!(call_expand_prefix(&prefixes, &vec![TermValue::NamedNode("ex".to_string())]).is_none());
    assert!(call_expand_prefixed_name(&prefixes, &vec![TermValue::Other]).is_none());
    match call_expand_prefixed_name(&prefixes, &vec![TermValue::Literal("ex:a".to_string())]) {
        Some(TermValue::NamedNode(iri)) => assert_eq!(iri, "http://ex.org/a"),
        _ => panic!("expected a named node"),
    }
}

#[test]
fn finish_run_succeeds_on_empty_window_and_twice() {
    let tarql = OxiTarql { ntriples: true, dedup: 1000, ..Default::default() };
    let mut state = RunState::new(Vec::new());
    let t1 = "<http://example.org/s1> <http://example.org/p> <http://example.org/o1>".to_string();
    state.buffer.insert(t1.clone(), t1);
    assert_eq!(
        tarql.finish_run(&mut state).unwrap(),
        "<http://example.org/s1> <http://example.org/p> <http://example.org/o1> .\n"
    );
    assert_eq!(tarql.finish_run(&mut state).unwrap(), "");
    assert_eq!(state.buffer.len(), 0);
}


#[test]
fn turtle_declares_the_query_prefixes_once_at_the_top() {
    let q = "PREFIX ex: <http://ex.org/>\nprefix foaf:<http://xmlns.com/foaf/0.1/>\n\
             CONSTRUCT { ex:s foaf:name ?name } WHERE {}";
    let prefixes = extract_prefix_list(q).unwrap();
    assert_eq!(
        prefixes,
        vec![
            ("ex".to_string(), "http://ex.org/".to_string()),
            ("foaf".to_string(), "http://xmlns.com/foaf/0.1/".to_string())
        ]
    );
    let tarql = OxiTarql { ntriples: false, ..Default::default() };
    let query = parse_query(TARQL_PREFIX, TARQL_NAMESPACE, q).unwrap();
    let vars = extract_variables(q).unwrap();
    let evaluator = tarql_evaluator(q).unwrap();
    let mut state = RunState::new(prefixes);
    let headers = strings(&["name"]);
    let first = ok(tarql.process_record(&mut state, &evaluator, &query, &vars, &headers, &strings(&["Alice"])));
    assert_eq!(first.text.matches("@prefix").count(), 2);
    assert!(first.text.contains("@prefix ex: <http://ex.org/> ."));
    assert!(first.text.contains("ex:s foaf:name \"Alice\""));
    assert!(state.started);
    let second = ok(tarql.process_record(&mut state, &evaluator, &query, &vars, &headers, &strings(&["Bob"])));
    assert!(!second.text.contains("@prefix"));
    assert!(second.text.contains("<http://ex.org/s> <http://xmlns.com/foaf/0.1/name> \"Bob\""));
}

#[test]
fn dedup_writes_the_same_set_of_triples_as_no_dedup() {
    let q = "PREFIX ex:<http://ex.org/>\nCONSTRUCT { ex:s ex:name ?name . ex:k ex:p ex:o } WHERE {}";
    let query = parse_query(TARQL_PREFIX, TARQL_NAMESPACE, q).unwrap();
    let vars = extract_variables(q).unwrap();
    let evaluator = tarql_evaluator(q).unwrap();
    let headers = strings(&["name"]);
    let mut outputs = Vec::new();
    for dedup in [0u32, 3] {
        let tarql = OxiTarql { ntriples: true, dedup, ..Default::default() };
        let mut state = RunState::new(Vec::new());
        let mut out = String::new();
        for cell in ["a", "b", "a", "c"] {
            let o = ok(tarql.process_record(&mut state, &evaluator, &query, &vars, &headers, &strings(&[cell])));
            out.push_str(&o.text);
        }
        out.push_str(&tarql.finish_run(&mut state).unwrap());
        outputs.push(out);
    }
    let set = |t: &String| t.lines().map(|l| l.to_string()).collect::<std::collections::BTreeSet<_>>();
    assert_eq!(outputs[0].lines().count(), 8);
    assert_eq!(set(&outputs[0]), set(&outputs[1]));
    assert_eq!(set(&outputs[0]).len(), 4);
    assert!(outputs[1].lines().count() < 8);
}


#[test]
fn refused_prefix_iri_fails_the_render_and_keeps_the_state() {
    let q = "PREFIX ex:<http://ex.org/>\nCONSTRUCT { ex:s ex:name ?name } WHERE {}";
    let query = parse_query(TARQL_PREFIX, TARQL_NAMESPACE, q).unwrap();
    let vars = extract_variables(q).unwrap();
    let evaluator = tarql_evaluator(q).unwrap();
    let bad = vec![("ex".to_string(), "not an iri".to_string())];
    let headers = strings(&["name"]);

    let tarql = OxiTarql { ntriples: false, ..Default::default() };
    let mut state = RunState::new(bad.clone());
    match tarql.process_record(&mut state, &evaluator, &query, &vars, &headers, &strings(&["Ann"])) {
        Err(RecordError::Render(rows)) => assert_eq!(rows.len(), 1),
        _ => panic!("expected a rendering failure"),
    }
    assert_eq!(state.row, 0);
    assert!(!state.started);

    let windowed = OxiTarql { ntriples: false, dedup: 1000, ..Default::default() };
    let mut state = RunState::new(bad);
    let o = ok(windowed.process_record(&mut state, &evaluator, &query, &vars, &headers, &strings(&["Ann"])));
    assert_eq!(o.text, "");
    assert!(windowed.finish_run(&mut state).is_err());
    assert_eq!(state.buffer.len(), 1);
    assert!(!state.started);
}
