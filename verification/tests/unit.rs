use oxi_gen::functions::{expand_prefix, expand_prefixed_name, TermValue};
use oxi_gen::query_text::{extract_prefixes, extract_variables};
use oxi_gen::tarql::OxiTarql;
use oxi_gen::text::clean_column;
use oxi_gen::StringHashMap;

#[test]
fn test_clean_column_no_normalize() {
    assert_eq!(clean_column("  column_name  ", &false), "column_name");
    assert_eq!(clean_column("\"quoted\"", &false), "quoted");
    assert_eq!(clean_column("  \"spaces\"  ", &false), "spaces");
    assert_eq!(clean_column("MixedCase", &false), "MixedCase");
}

#[test]
fn test_clean_column_normalize() {
    assert_eq!(clean_column("  column_name  ", &true), "COLUMN_NAME");
    assert_eq!(clean_column("\"quoted\"", &true), "QUOTED");
    assert_eq!(clean_column("MixedCase", &true), "MIXEDCASE");
    assert_eq!(clean_column("lower", &true), "LOWER");
}

#[test]
fn test_extract_prefixes_basic() {
    let query = r#"
            PREFIX rdf: <http://www.w3.org/1999/02/22-rdf-syntax-ns#>
            PREFIX rdfs: <http://www.w3.org/2000/01/rdf-schema#>
            SELECT * WHERE { ?s ?p ?o }
        "#;
    let prefixes = extract_prefixes(query).unwrap();
    assert_eq!(prefixes.len(), 2);
    assert_eq!(
        prefixes.get("rdf"),
        Some(&"http://www.w3.org/1999/02/22-rdf-syntax-ns#".to_string())
    );
    assert_eq!(
        prefixes.get("rdfs"),
        Some(&"http://www.w3.org/2000/01/rdf-schema#".to_string())
    );
}

#[test]
fn test_extract_prefixes_case_insensitive() {
    let query = r#"
            prefix rdf: <http://www.w3.org/1999/02/22-rdf-syntax-ns#>
            PREFIX foaf: <http://xmlns.com/foaf/0.1/>
            PrEfIx dc: <http://purl.org/dc/elements/1.1/>
        "#;
    let prefixes = extract_prefixes(query).unwrap();
    assert_eq!(prefixes.len(), 3);
    assert!(prefixes.contains_key("rdf"));
    assert!(prefixes.contains_key("foaf"));
    assert!(prefixes.contains_key("dc"));
}

#[test]
fn test_extract_prefixes_empty() {
    let query = "SELECT * WHERE { ?s ?p ?o }";
    let prefixes = extract_prefixes(query).unwrap();
    assert_eq!(prefixes.len(), 0);
}

#[test]
fn test_extract_variables_basic() {
    let query = "SELECT ?name ?age WHERE { ?person foaf:name ?name . ?person foaf:age ?age }";
    let vars = extract_variables(query).unwrap();
    assert!(vars.contains("name"));
    assert!(vars.contains("age"));
    assert!(vars.contains("person"));
}

#[test]
fn test_extract_variables_underscores() {
    let query = "SELECT ?first_name ?last_name WHERE { ?s ?p ?o }";
    let vars = extract_variables(query).unwrap();
    assert!(vars.contains("first_name"));
    assert!(vars.contains("last_name"));
    assert!(vars.contains("s"));
}

#[test]
fn test_extract_variables_with_numbers() {
    let query = "SELECT ?var1 ?var2 ?var123 WHERE { ?s ?p ?o }";
    let vars = extract_variables(query).unwrap();
    assert!(vars.contains("var1"));
    assert!(vars.contains("var2"));
    assert!(vars.contains("var123"));
}

#[test]
fn test_extract_variables_empty() {
    let query = "SELECT * WHERE { <http://example.org/s> <http://example.org/p> <http://example.org/o> }";
    let vars = extract_variables(query).unwrap();
    // Should be empty or nearly empty since no variables are used
    assert!(!vars.contains("SELECT"));
    assert!(!vars.contains("WHERE"));
}

fn two_prefixes() -> StringHashMap<String> {
    let mut prefixes = StringHashMap::new();
    prefixes.insert(
        "rdf".to_string(),
        "http://www.w3.org/1999/02/22-rdf-syntax-ns#".to_string(),
    );
    prefixes.insert("foaf".to_string(), "http://xmlns.com/foaf/0.1/".to_string());
    prefixes
}

#[test]
fn test_expand_prefix_valid() {
    let prefixes = two_prefixes();
    let prefix_term = TermValue::Literal("rdf".to_string());
    let result = expand_prefix(&prefixes, &prefix_term);
    assert!(result.is_some());
    if let Some(TermValue::Literal(lit)) = result {
        assert_eq!(lit, "http://www.w3.org/1999/02/22-rdf-syntax-ns#");
    } else {
        panic!("Expected literal term");
    }
}

#[test]
fn test_expand_prefix_unknown_prefix() {
    let prefixes = StringHashMap::new();
    let prefix_term = TermValue::Literal("unknown".to_string());
    let result = expand_prefix(&prefixes, &prefix_term);
    assert!(result.is_none());
}

#[test]
fn test_expand_prefixed_name_valid() {
    let prefixes = two_prefixes();
    let qname = TermValue::Literal("foaf:name".to_string());
    let result = expand_prefixed_name(&prefixes, &qname);
    assert!(result.is_some());
    if let Some(TermValue::NamedNode(node)) = result {
        assert_eq!(node, "http://xmlns.com/foaf/0.1/name");
    } else {
        panic!("Expected named node term");
    }
}

#[test]
fn test_expand_prefixed_name_rdf_type() {
    let mut prefixes = StringHashMap::new();
    prefixes.insert(
        "rdf".to_string(),
        "http://www.w3.org/1999/02/22-rdf-syntax-ns#".to_string(),
    );
    let qname = TermValue::Literal("rdf:type".to_string());
    let result = expand_prefixed_name(&prefixes, &qname);
    assert!(result.is_some());
    if let Some(TermValue::NamedNode(node)) = result {
        assert_eq!(node, "http://www.w3.org/1999/02/22-rdf-syntax-ns#type");
    } else {
        panic!("Expected named node term");
    }
}

#[test]
fn test_expand_prefixed_name_no_prefix() {
    let prefixes = StringHashMap::new();
    let qname = TermValue::Literal("foaf:name".to_string());
    let result = expand_prefixed_name(&prefixes, &qname);
    assert!(result.is_none());
}

#[test]
fn test_expand_prefixed_name_no_colon() {
    let mut prefixes = StringHashMap::new();
    prefixes.insert(
        "rdf".to_string(),
        "http://www.w3.org/1999/02/22-rdf-syntax-ns#".to_string(),
    );
    let qname = TermValue::Literal("nocolon".to_string());
    let result = expand_prefixed_name(&prefixes, &qname);
    assert!(result.is_none());
}

fn strings(v: &[&str]) -> Vec<String> {
    v.iter().map(|s| s.to_string()).collect()
}

fn split_setting(original: &str, split: &str, delimiter: &str) -> (String, String, String) {
    (original.to_string(), split.to_string(), delimiter.to_string())
}

#[test]
fn test_apply_split_no_split() {
    let tarql = OxiTarql {
        split: vec![],
        ..Default::default()
    };
    let headers = strings(&["col1", "col2"]);
    let record = strings(&["value1", "value2"]);

    let result = tarql.apply_split(&record, &headers);
    assert_eq!(result.len(), 1);
    assert_eq!(result[0].len(), 2);
    assert_eq!(result[0][0], ("col1".to_string(), "value1".to_string()));
    assert_eq!(result[0][1], ("col2".to_string(), "value2".to_string()));
}

#[test]
fn test_apply_split_single_split() {
    let tarql = OxiTarql {
        split: vec![split_setting("tags", "tag", ",")],
        ..Default::default()
    };
    let headers = strings(&["name", "tags"]);
    let record = strings(&["Alice", "rust,python,go"]);

    let result = tarql.apply_split(&record, &headers);
    assert_eq!(result.len(), 3); // 3 tags split

    // Check first row
    assert_eq!(result[0][0], ("name".to_string(), "Alice".to_string()));
    assert_eq!(result[0][1], ("tags".to_string(), "rust,python,go".to_string()));
    assert_eq!(result[0][2], ("tag".to_string(), "rust".to_string()));

    // Check second row
    assert_eq!(result[1][0], ("name".to_string(), "Alice".to_string()));
    assert_eq!(result[1][2], ("tag".to_string(), "python".to_string()));

    // Check third row
    assert_eq!(result[2][2], ("tag".to_string(), "go".to_string()));
}

#[test]
fn test_apply_split_multiple_splits() {
    let tarql = OxiTarql {
        split: vec![
            split_setting("colors", "color", ","),
            split_setting("sizes", "size", ";"),
        ],
        ..Default::default()
    };
    let headers = strings(&["name", "colors", "sizes"]);
    let record = strings(&["Product", "red,blue", "S;M"]);

    let result = tarql.apply_split(&record, &headers);
    // 2 colors × 2 sizes = 4 combinations
    assert_eq!(result.len(), 4);

    // Verify all have the color and size fields
    for row in result.iter() {
        assert!(row.iter().any(|(k, _)| k == "color"));
        assert!(row.iter().any(|(k, _)| k == "size"));
    }
}

#[test]
fn test_apply_split_nonexistent_column() {
    let tarql = OxiTarql {
        split: vec![split_setting("nonexistent", "split_val", ",")],
        ..Default::default()
    };
    let headers = strings(&["col1", "col2"]);
    let record = strings(&["value1", "value2"]);

    let result = tarql.apply_split(&record, &headers);
    // Should return original row since column doesn't exist
    assert_eq!(result.len(), 1);
    assert_eq!(result[0].len(), 2);
}
