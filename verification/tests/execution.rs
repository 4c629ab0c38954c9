//! Query execution: matching, capture normalization, the compilation cache,
//! and tolerance of per-language pattern failures.
use antenna::AntennaError;
use antenna::configuration::AntennaQuery;
use antenna::process::index::{FileInput, Indexer, QueryDiscovery};
use antenna::process::{QueryCache, execute_antenna_query};

const TODO_PATTERN: &str = "((line_comment) @todo (#match? @todo \"TODO\"))";

fn rust_input(path: &str, content: &str) -> FileInput {
    FileInput {
        path: path.to_string(),
        content: Ok(content.as_bytes().to_vec()),
    }
}

fn listing(name: &str, paths: &[&str]) -> QueryDiscovery {
    QueryDiscovery {
        query_name: name.to_string(),
        pattern_error: None,
        paths: paths.iter().map(|p| p.to_string()).collect(),
        walk_errors: Vec::new(),
    }
}

fn query(name: &str, glob: &str, pattern: &str) -> AntennaQuery {
    AntennaQuery {
        name: name.to_string(),
        glob: glob.to_string(),
        query: pattern.to_string(),
        output: None,
    }
}

fn todo_indexer() -> Indexer {
    let discoveries = vec![listing("todo-comments", &["a.rs", "b.rs", "c.rs"])];
    let inputs = vec![
        rust_input("a.rs", "// TODO: tidy this\nfn a() {}\n"),
        rust_input("b.rs", "fn b() {}\n// TODO later\n"),
        rust_input("c.rs", "fn c() {}\n"),
    ];
    let (indexer, errors) = Indexer::default().index(&discoveries, &inputs);
    assert!(errors.is_empty());
    indexer
}

#[test]
fn todo_comments_occurrences() {
    // Three files, two with one match each and one with zero: three
    // occurrence lines, two with count 1 and one with count 0.
    let indexer = todo_indexer();
    let q = query("todo-comments", "*.rs", TODO_PATTERN);
    let mut cache = QueryCache::new();
    let (results, errors) = execute_antenna_query(&q, &indexer, &mut cache);
    assert!(errors.is_empty());
    let counts = antenna::out::occurrence_counts(&results);
    assert_eq!(counts.len(), 3);
    let ones = counts.iter().filter(|(_, n)| *n == 1).count();
    let zeros = counts.iter().filter(|(_, n)| *n == 0).count();
    assert_eq!(ones, 2);
    assert_eq!(zeros, 1);
}

#[test]
fn capture_text_and_positions() {
    let indexer = todo_indexer();
    let q = query("todo-comments", "*.rs", TODO_PATTERN);
    let mut cache = QueryCache::new();
    let (results, errors) = execute_antenna_query(&q, &indexer, &mut cache);
    assert!(errors.is_empty());
    let a = results.iter().find(|r| r.path == "a.rs").unwrap();
    assert_eq!(a.name, "todo-comments");
    assert_eq!(a.matches.len(), 1);
    assert_eq!(a.matches[0].captures.len(), 1);
    let c = &a.matches[0].captures[0];
    assert_eq!(c.name, "todo");
    assert_eq!(c.text, "// TODO: tidy this");
    assert_eq!(c.start_line, 0);
    assert_eq!(c.start_column, 0);
    assert_eq!(c.end_line, 0);
    assert_eq!(c.end_column, 18);
}

#[test]
fn pattern_compiled_once_per_language() {
    // Three files of one language under one pattern: one cache entry, even
    // across a second execution.
    let indexer = todo_indexer();
    let q = query("todo-comments", "*.rs", TODO_PATTERN);
    let mut cache = QueryCache::new();
    let (_, errors) = execute_antenna_query(&q, &indexer, &mut cache);
    assert!(errors.is_empty());
    assert_eq!(cache.entries.len(), 1);
    let (_, errors_again) = execute_antenna_query(&q, &indexer, &mut cache);
    assert!(errors_again.is_empty());
    assert_eq!(cache.entries.len(), 1);
}

#[test]
fn execution_is_idempotent() {
    // The same query against the same unmodified file set, twice: identical
    // match counts and identical capture text and positions.
    let indexer = todo_indexer();
    let q = query("todo-comments", "*.rs", TODO_PATTERN);
    let mut cache = QueryCache::new();
    let (first, _) = execute_antenna_query(&q, &indexer, &mut cache);
    let (second, _) = execute_antenna_query(&q, &indexer, &mut cache);
    assert_eq!(first, second);
}

#[test]
fn zero_matching_files_is_success() {
    // A query whose glob matched no files: the run succeeds with an empty
    // result set, and no error is raised for "zero matches".
    let discoveries = vec![listing("empty", &[])];
    let (indexer, index_errors) = Indexer::default().index(&discoveries, &Vec::new());
    assert!(index_errors.is_empty());
    let q = query("empty", "nothing/*.rs", TODO_PATTERN);
    let mut cache = QueryCache::new();
    let (results, errors) = execute_antenna_query(&q, &indexer, &mut cache);
    assert!(results.is_empty());
    assert!(errors.is_empty());
}

#[test]
fn invalid_pattern_names_query_and_language() {
    // One query with a syntactically invalid pattern, one valid: the invalid
    // one collects an error referencing its name and language, and the valid
    // one still executes and produces output.
    let discoveries = vec![
        listing("broken", &["a.rs"]),
        listing("todo-comments", &["a.rs"]),
    ];
    let inputs = vec![rust_input("a.rs", "// TODO: tidy this\nfn a() {}\n")];
    let (indexer, index_errors) = Indexer::default().index(&discoveries, &inputs);
    assert!(index_errors.is_empty());

    let bad = query("broken", "*.rs", "(((");
    let good = query("todo-comments", "*.rs", TODO_PATTERN);
    let mut cache = QueryCache::new();

    let (bad_results, bad_errors) = execute_antenna_query(&bad, &indexer, &mut cache);
    assert_eq!(bad_errors.len(), 1);
    match &bad_errors[0] {
        AntennaError::Query { query_name, language, .. } => {
            assert_eq!(query_name, "broken");
            assert_eq!(*language, antenna::RecognizedLanguage::Rust);
        },
        other => panic!("expected a query error, got {:?}", other),
    }
    assert_eq!(bad_results.len(), 1);
    assert!(bad_results[0].matches.is_empty());

    let (good_results, good_errors) = execute_antenna_query(&good, &indexer, &mut cache);
    assert!(good_errors.is_empty());
    assert_eq!(good_results.len(), 1);
    assert_eq!(good_results[0].matches.len(), 1);
}

#[test]
fn captures_are_never_anonymous() {
    // A pattern mixing a named capture with plain (uncaptured) nodes: every
    // normalized capture bears a name the pattern declares.
    let discoveries = vec![listing("fns", &["a.rs"])];
    let inputs = vec![rust_input("a.rs", "fn first() {}\nfn second() {}\n")];
    let (indexer, index_errors) = Indexer::default().index(&discoveries, &inputs);
    assert!(index_errors.is_empty());
    let q = query(
        "fns",
        "*.rs",
        "(function_item name: (identifier) @fn_name body: (block))",
    );
    let mut cache = QueryCache::new();
    let (results, errors) = execute_antenna_query(&q, &indexer, &mut cache);
    assert!(errors.is_empty());
    assert_eq!(results.len(), 1);
    assert_eq!(results[0].matches.len(), 2);
    for m in &results[0].matches {
        for c in &m.captures {
            assert_eq!(c.name, "fn_name");
        }
    }
    let texts: Vec<&str> = results[0]
        .matches
        .iter()
        .flat_map(|m| m.captures.iter().map(|c| c.text.as_str()))
        .collect();
    assert_eq!(texts, vec!["first", "second"]);
}

#[test]
fn queries_span_multiple_languages() {
    // One query over two languages: the pattern compiles once per language,
    // and a language that rejects it does not block the other.
    let discoveries = vec![listing("mixed", &["a.rs", "b.py"])];
    let inputs = vec![
        rust_input("a.rs", "// TODO: tidy this\nfn a() {}\n"),
        rust_input("b.py", "# plain\nx = 1\n"),
    ];
    let (indexer, index_errors) = Indexer::default().index(&discoveries, &inputs);
    assert!(index_errors.is_empty());
    let q = query("mixed", "*", TODO_PATTERN);
    let mut cache = QueryCache::new();
    let (results, errors) = execute_antenna_query(&q, &indexer, &mut cache);
    // Python's grammar has no line_comment node, so its compilation fails.
    assert_eq!(cache.entries.len(), 2);
    assert_eq!(results.len(), 2);
    assert_eq!(errors.len(), 1);
    match &errors[0] {
        AntennaError::Query { query_name, language, .. } => {
            assert_eq!(query_name, "mixed");
            assert_eq!(*language, antenna::RecognizedLanguage::Python);
        },
        other => panic!("expected a query error, got {:?}", other),
    }
    let rust_result = results.iter().find(|r| r.path == "a.rs").unwrap();
    assert_eq!(rust_result.matches.len(), 1);
}

#[test]
fn uppercase_extension_is_recognized_in_indexing() {
    let discoveries = vec![listing("up", &["A.RS"])];
    let inputs = vec![rust_input("A.RS", "// TODO: shout\nfn a() {}\n")];
    let (indexer, errors) = Indexer::default().index(&discoveries, &inputs);
    assert!(errors.is_empty());
    let f = indexer.get_file_by_path("A.RS").unwrap();
    assert_eq!(f.recognized_language, antenna::RecognizedLanguage::Rust);
    let q = query("up", "*.RS", TODO_PATTERN);
    let mut cache = QueryCache::new();
    let (results, query_errors) = execute_antenna_query(&q, &indexer, &mut cache);
    assert!(query_errors.is_empty());
    assert_eq!(results.len(), 1);
    assert_eq!(results[0].matches.len(), 1);
}

#[test]
fn two_matches_in_one_file_count_separately() {
    let discoveries = vec![listing("todos", &["two.rs"])];
    let inputs = vec![rust_input(
        "two.rs",
        "// TODO: first\nfn a() {}\n// TODO: second\nfn b() {}\n",
    )];
    let (indexer, errors) = Indexer::default().index(&discoveries, &inputs);
    assert!(errors.is_empty());
    let q = query("todos", "*.rs", TODO_PATTERN);
    let mut cache = QueryCache::new();
    let (results, query_errors) = execute_antenna_query(&q, &indexer, &mut cache);
    assert!(query_errors.is_empty());
    assert_eq!(results.len(), 1);
    assert_eq!(results[0].matches.len(), 2);
    let rows = antenna::csv::CsvRow::rows_for_queries(&results);
    assert_eq!(rows.len(), 2);
    assert_eq!(rows[0].match_idx, 0);
    assert_eq!(rows[1].match_idx, 1);
    assert_eq!(rows[0].text, "// TODO: first");
    assert_eq!(rows[1].text, "// TODO: second");
}
