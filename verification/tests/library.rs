use oxi_gen::args::{configure_transform, ArgError};
use oxi_gen::dedup::DedupBuffer;
use oxi_gen::functions::{expand_prefix, expand_prefixed_name, TermValue};
use oxi_gen::query_text::{extract_prefixes, extract_variables};
use oxi_gen::run::{InputSource, OutputTarget};
use oxi_gen::split::split_by;
use oxi_gen::tarql::OxiTarql;
use oxi_gen::text::clean_column;
use oxi_gen::{StringHashMap, StringHashSet};

fn strings(v: &[&str]) -> Vec<String> {
    v.iter().map(|s| s.to_string()).collect()
}

fn args(v: &[&str]) -> Vec<String> {
    let mut all = vec!["oxi_gen".to_string()];
    all.extend(strings(v));
    all
}

#[test]
fn split_by_separates_at_each_delimiter() {
    assert_eq!(split_by("rust,python,go", ","), strings(&["rust", "python", "go"]));
    assert_eq!(split_by("a,,b,", ","), strings(&["a", "", "b", ""]));
    assert_eq!(split_by("", ","), strings(&[""]));
    assert_eq!(split_by("a--b---c", "--"), strings(&["a", "b", "-c"]));
    assert_eq!(split_by("no delimiter", ";"), strings(&["no delimiter"]));
}

#[test]
fn split_by_empty_delimiter_cuts_between_characters() {
    assert_eq!(split_by("abc", ""), strings(&["", "a", "b", "c", ""]));
    assert_eq!(split_by("", ""), strings(&["", ""]));
}

#[test]
fn split_by_matches_std_split() {
    for (s, d) in [("x y  z", " "), ("é;ü;;ß", ";"), ("aaaa", "aa"), ("ab", "abc")] {
        let expected: Vec<String> = s.split(d).map(|p| p.to_string()).collect();
        assert_eq!(split_by(s, d), expected);
    }
}

#[test]
fn split_then_join_gives_the_value_back() {
    for (s, d) in [("red,blue", ","), ("S;M;;L", ";"), ("abc", ""), ("a--b---c", "--")] {
        assert_eq!(split_by(s, d).join(d), s);
    }
}

#[test]
fn clean_column_trims_unicode_whitespace_and_uppercases_unicode() {
    assert_eq!(clean_column("\u{3000}\tname\u{A0}\n", &false), "name");
    assert_eq!(clean_column("straße", &true), "STRASSE");
    assert_eq!(clean_column("\" a\"", &false), " a");
    assert_eq!(clean_column("   ", &true), "");
}

#[test]
fn cleaned_columns_hold_no_quote() {
    for f in ["\"a\"b\"", "  \"\"  ", "x\"y"] {
        assert!(!clean_column(f, &true).contains('"'));
        assert!(!clean_column(f, &false).contains('"'));
    }
}

#[test]
fn later_prefix_declaration_replaces_earlier() {
    let q = "PREFIX ex: <http://a.example/> PREFIX ex: <http://b.example/> SELECT * {}";
    let m = extract_prefixes(q).unwrap();
    assert_eq!(m.len(), 1);
    assert_eq!(m.get("ex"), Some(&"http://b.example/".to_string()));
}

#[test]
fn prefix_needs_word_boundary_and_angle_brackets() {
    let q = "XPREFIX a: <http://a/> PREFIX b: http://b/ prefix c:\t<http://c/>";
    let m = extract_prefixes(q).unwrap();
    assert!(!m.contains_key("a"));
    assert!(!m.contains_key("b"));
    assert_eq!(m.get("c"), Some(&"http://c/".to_string()));
}

#[test]
fn variable_at_end_of_text_is_not_found() {
    let vars = extract_variables("?first ?last").unwrap();
    assert!(vars.contains("first"));
    assert!(!vars.contains("last"));
    let vars = extract_variables("?1bad ?_ok.").unwrap();
    assert!(!vars.contains("1bad"));
    assert!(vars.contains("_ok"));
}

#[test]
fn expanded_name_is_prefix_iri_then_local_part() {
    let mut prefixes = StringHashMap::new();
    prefixes.insert("ex".to_string(), "http://ex.org/".to_string());
    let by_prefix = match expand_prefix(&prefixes, &TermValue::Literal("ex".to_string())) {
        Some(TermValue::Literal(iri)) => iri,
        _ => panic!("expected a literal"),
    };
    match expand_prefixed_name(&prefixes, &TermValue::Literal("ex:a:b".to_string())) {
        Some(TermValue::NamedNode(iri)) => assert_eq!(iri, format!("{}a:b", by_prefix)),
        _ => panic!("expected a named node"),
    }
    match expand_prefixed_name(&prefixes, &TermValue::Literal(":x".to_string())) {
        None => {}
        _ => panic!("the empty prefix is not declared"),
    }
}

#[test]
fn split_rows_count_is_product_and_rows_keep_record() {
    let tarql = OxiTarql {
        split: vec![
            ("a".to_string(), "a1".to_string(), ",".to_string()),
            ("b".to_string(), "b1".to_string(), ";".to_string()),
            ("a".to_string(), "a2".to_string(), ",".to_string()),
            ("zz".to_string(), "z1".to_string(), ",".to_string()),
        ],
        ..Default::default()
    };
    let headers = strings(&["a", "b", "c"]);
    let record = strings(&["1,2,3", "x;y", "keep"]);
    let rows = tarql.apply_split(&record, &headers);
    assert_eq!(rows.len(), 3 * 2 * 3);
    for row in rows.iter() {
        assert_eq!(row.len(), 6);
        assert_eq!(row[0], ("a".to_string(), "1,2,3".to_string()));
        assert_eq!(row[1], ("b".to_string(), "x;y".to_string()));
        assert_eq!(row[2], ("c".to_string(), "keep".to_string()));
    }
    for row in rows.iter() {
        let names: Vec<&str> = row.iter().map(|b| b.0.as_str()).collect();
        assert_eq!(names, vec!["a", "b", "c", "a1", "b1", "a2"]);
    }
    assert_eq!(rows[0][3].1, "1");
    assert_eq!(rows[0][4].1, "x");
    assert_eq!(rows[0][5].1, "1");
    assert_eq!(rows[17][5].1, "3");
}

#[test]
fn apply_split_pairs_only_as_far_as_both_reach() {
    let tarql = OxiTarql::default();
    let rows = tarql.apply_split(&strings(&["v1", "v2", "v3"]), &strings(&["h1", "h2"]));
    assert_eq!(rows, vec![vec![
        ("h1".to_string(), "v1".to_string()),
        ("h2".to_string(), "v2".to_string()),
    ]]);
}

#[test]
fn configure_transform_reads_documented_options() {
    let c = configure_transform(args(&[
        "-q", "query.rq", "-i", "in.csv", "--output", "out.nt.gz", "-g", "--ntriples", "-H", "-n",
        "--dedup=2000", "--test=7", "--split", "d", "d_s", ";", "--split", "e", "e_s", " ",
        "-d", ";", "-p", "^", "--quote_char", "'", "--bind-empty-strings",
    ]))
    .ok()
    .unwrap();
    assert_eq!(c.query, "query.rq");
    assert_eq!(c.input, "in.csv");
    assert_eq!(c.output, "out.nt.gz");
    assert!(c.gzip && c.ntriples && !c.headers && c.normalize && c.bind_empty_strings);
    assert_eq!(c.dedup, 2000);
    assert_eq!(c.test, 7);
    assert_eq!(c.split.len(), 2);
    assert_eq!(c.split[1], ("e".to_string(), "e_s".to_string(), " ".to_string()));
    assert_eq!(c.delimiter, ";");
    assert_eq!(c.escape_char, "^");
    assert_eq!(c.quote_char, "'");
    assert!(!c.tab);
}

#[test]
fn configure_transform_defaults() {
    let c = configure_transform(args(&["--query", "q.rq", "--dedup", "--test", "-t"]))
        .ok()
        .unwrap();
    assert_eq!(c.input, "STDIN");
    assert_eq!(c.output, "STDOUT");
    assert_eq!(c.delimiter, ",");
    assert_eq!(c.escape_char, "\\");
    assert_eq!(c.quote_char, "\"");
    assert!(c.headers && c.tab && !c.gzip && !c.ntriples && !c.normalize);
    assert_eq!(c.dedup, 1000);
    assert_eq!(c.test, 5);
    let c = configure_transform(args(&["-q", "q.rq"])).ok().unwrap();
    assert_eq!(c.dedup, 0);
    assert_eq!(c.test, 0);
}

#[test]
fn configure_transform_errors() {
    assert!(matches!(configure_transform(args(&[])), Err(ArgError::MissingQuery)));
    assert!(matches!(
        configure_transform(args(&["-q", "q", "--bogus"])),
        Err(ArgError::UnknownOption(3))
    ));
    assert!(matches!(configure_transform(args(&["-q"])), Err(ArgError::MissingValue(1))));
    assert!(matches!(
        configure_transform(args(&["-q", "q", "--split", "a", "b"])),
        Err(ArgError::MissingValue(3))
    ));
    assert!(matches!(
        configure_transform(args(&["-q", "q", "--dedup=999"])),
        Err(ArgError::OutOfRange(3))
    ));
    assert!(matches!(
        configure_transform(args(&["-q", "q", "--dedup=5000001"])),
        Err(ArgError::OutOfRange(3))
    ));
    assert!(matches!(
        configure_transform(args(&["-q", "q", "--dedup=99999999999999999999999"])),
        Err(ArgError::OutOfRange(3))
    ));
    assert!(matches!(
        configure_transform(args(&["-q", "q", "--test=50"])),
        Err(ArgError::OutOfRange(3))
    ));
    assert!(matches!(
        configure_transform(args(&["-q", "q", "--test=0"])),
        Err(ArgError::OutOfRange(3))
    ));
    assert!(matches!(
        configure_transform(args(&["-q", "q", "--test=4x"])),
        Err(ArgError::InvalidNumber(3))
    ));
    assert!(matches!(
        configure_transform(args(&["-q", "q", "--dedup="])),
        Err(ArgError::InvalidNumber(3))
    ));
    assert!(matches!(
        configure_transform(args(&["-q", "q", "--gzip"])),
        Err(ArgError::GzipWithoutOutput)
    ));
    let c = configure_transform(args(&["-q", "q", "--dedup=5000000", "--test=49"])).ok().unwrap();
    assert_eq!((c.dedup, c.test), (5000000, 49));
}

#[test]
fn column_names_cleaned_or_lettered() {
    let mut tarql = OxiTarql { headers: true, normalize: true, ..Default::default() };
    assert_eq!(
        tarql.column_names(&strings(&[" a ", "\"b\""])),
        strings(&["A", "B"])
    );
    tarql.headers = false;
    let names = tarql.column_names(&strings(&["ignored"]));
    assert_eq!(names.len(), 52);
    assert_eq!(names[0], "a");
    assert_eq!(names[25], "z");
    assert_eq!(names[26], "A");
    assert_eq!(names[51], "Z");
}

#[test]
fn csv_format_takes_low_byte_of_first_character() {
    let tarql = OxiTarql {
        delimiter: ";x".to_string(),
        quote_char: "'".to_string(),
        escape_char: "\u{15C}".to_string(),
        headers: true,
        ..Default::default()
    };
    let f = tarql.csv_format();
    assert_eq!((f.has_headers, f.delimiter, f.quote, f.escape), (true, b';', b'\'', 0x5C));
    let tab = OxiTarql { tab: true, quote_char: "\"".to_string(), escape_char: "\\".to_string(), ..Default::default() };
    assert_eq!(tab.csv_format().delimiter, b'\t');
}

#[test]
fn row_substitution_keeps_mentioned_nonempty_values() {
    let mut vars = StringHashSet::new();
    vars.insert("a".to_string());
    vars.insert("b".to_string());
    let row = vec![
        ("a".to_string(), "1".to_string()),
        ("b".to_string(), "".to_string()),
        ("c".to_string(), "3".to_string()),
    ];
    let tarql = OxiTarql::default();
    let s = tarql.row_substitution(&vars, &row, 4);
    assert_eq!(s.bindings, vec![("a".to_string(), "1".to_string())]);
    assert_eq!(s.row_number, None);
    vars.insert("ROWNUM".to_string());
    let tarql = OxiTarql { bind_empty_strings: true, ..Default::default() };
    let s = tarql.row_substitution(&vars, &row, 4);
    assert_eq!(s.bindings.len(), 2);
    assert_eq!(s.row_number, Some(4));
}

#[test]
fn run_stops_after_row_limit_and_flushes_at_window() {
    let tarql = OxiTarql { test: 3, dedup: 1000, ..Default::default() };
    let mut row = 0;
    let mut stops = 0;
    loop {
        let o = tarql.after_row(row, 10);
        assert!(!o.flush);
        row = o.next_row;
        if o.stop {
            stops += 1;
            break;
        }
    }
    assert_eq!((row, stops), (3, 1));
    assert!(tarql.after_row(0, 1000).flush);
    assert!(tarql.final_flush(1));
    assert!(!tarql.final_flush(0));
    let plain = OxiTarql::default();
    assert!(!plain.deduplicating());
    assert!(!plain.after_row(0, 5000).flush);
    assert!(!plain.after_row(0, 0).stop);
}

#[test]
fn output_and_input_targets() {
    let t = OxiTarql { output: "STDOUT".to_string(), input: "STDIN".to_string(), ..Default::default() };
    assert!(matches!(t.output_target(), OutputTarget::Stdout));
    assert!(matches!(t.input_source(), InputSource::Stdin));
    let t = OxiTarql { output: "o.gz".to_string(), gzip: true, input: "i.csv".to_string(), ..Default::default() };
    assert!(matches!(t.output_target(), OutputTarget::GzipFile(ref p) if p == "o.gz"));
    assert!(matches!(t.input_source(), InputSource::File(ref p) if p == "i.csv"));
    let t = OxiTarql { output: "o.nt".to_string(), ..Default::default() };
    assert!(matches!(t.output_target(), OutputTarget::File(ref p) if p == "o.nt"));
}

#[test]
fn dedup_buffer_keeps_first_item_per_key() {
    let mut b: DedupBuffer<u32> = DedupBuffer::new();
    assert!(b.insert("x".to_string(), 1));
    assert!(b.insert("y".to_string(), 2));
    assert!(!b.insert("x".to_string(), 3));
    assert_eq!(b.len(), 2);
    assert_eq!(b.drain(), vec![1, 2]);
    assert_eq!(b.len(), 0);
    assert!(b.insert("x".to_string(), 4));
    assert_eq!(b.drain(), vec![4]);
}

#[test]
fn splits_fit_requires_found_columns_in_record() {
    let tarql = OxiTarql {
        split: vec![
            ("b".to_string(), "b1".to_string(), ",".to_string()),
            ("missing".to_string(), "m".to_string(), ",".to_string()),
        ],
        ..Default::default()
    };
    let headers = strings(&["a", "b"]);
    assert!(tarql.splits_fit(&strings(&["1", "2"]), &headers));
    assert!(!tarql.splits_fit(&strings(&["1"]), &headers));
}

#[test]
fn tab_reads_like_tab_delimiter() {
    let a = OxiTarql { tab: true, delimiter: ",".to_string(), quote_char: "\"".to_string(), escape_char: "\\".to_string(), ..Default::default() };
    let b = OxiTarql { tab: false, delimiter: "\t".to_string(), quote_char: "\"".to_string(), escape_char: "\\".to_string(), ..Default::default() };
    let (fa, fb) = (a.csv_format(), b.csv_format());
    assert_eq!((fa.has_headers, fa.delimiter, fa.quote, fa.escape), (fb.has_headers, fb.delimiter, fb.quote, fb.escape));
}

#[test]
fn split_settings_on_absent_columns_can_be_dropped() {
    let with_absent = OxiTarql {
        split: vec![
            ("x".to_string(), "x1".to_string(), ",".to_string()),
            ("a".to_string(), "a1".to_string(), ",".to_string()),
            ("y".to_string(), "y1".to_string(), ";".to_string()),
        ],
        ..Default::default()
    };
    let without = OxiTarql {
        split: vec![("a".to_string(), "a1".to_string(), ",".to_string())],
        ..Default::default()
    };
    let headers = strings(&["a", "b"]);
    let record = strings(&["1,2", "z"]);
    assert_eq!(with_absent.apply_split(&record, &headers), without.apply_split(&record, &headers));
}
