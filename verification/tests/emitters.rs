//! The output projections: CSV rows, the JSON-bound result set, and the
//! agreement of their content.
use antenna::configuration::AntennaQuery;
use antenna::csv::CsvRow;
use antenna::out;
use antenna::process::index::{FileInput, Indexer, QueryDiscovery};
use antenna::process::{QueryCache, execute_antenna_query};

const TODO_QUERY: &str = "((line_comment) @todo (#match? @todo \"TODO\"))";

fn source_file(path: &str, content: &str) -> FileInput {
    FileInput {
        path: path.to_string(),
        content: Ok(content.as_bytes().to_vec()),
    }
}

fn discovery(name: &str, paths: &[&str]) -> QueryDiscovery {
    QueryDiscovery {
        query_name: name.to_string(),
        pattern_error: None,
        paths: paths.iter().map(|p| p.to_string()).collect(),
        walk_errors: Vec::new(),
    }
}

fn todo_results() -> Vec<out::Query> {
    let discoveries = vec![discovery("todo-comments", &["a.rs", "b.rs", "c.rs"])];
    let inputs = vec![
        source_file("a.rs", "// TODO: tidy this\nfn a() {}\n"),
        source_file("b.rs", "fn b() {}\n// TODO later\n"),
        source_file("c.rs", "fn c() {}\n"),
    ];
    let (indexer, index_errors) = Indexer::default().index(&discoveries, &inputs);
    assert!(index_errors.is_empty());
    let q = AntennaQuery {
        name: "todo-comments".to_string(),
        glob: "*.rs".to_string(),
        query: TODO_QUERY.to_string(),
        output: None,
    };
    let mut cache = QueryCache::new();
    let (results, errors) = execute_antenna_query(&q, &indexer, &mut cache);
    assert!(errors.is_empty());
    results
}

#[test]
fn csv_has_one_row_per_match_capture() {
    // Two actual matches across three files: exactly two data rows, each with
    // match index 0 and the query's name.
    let results = todo_results();
    let rows = CsvRow::rows_for_queries(&results);
    assert_eq!(rows.len(), 2);
    for row in &rows {
        assert_eq!(row.match_idx, 0);
        assert_eq!(row.query, "todo-comments");
        assert_eq!(row.capture, "todo");
    }
    let texts: Vec<&str> = rows.iter().map(|r| r.text.as_str()).collect();
    assert!(texts.contains(&"// TODO: tidy this"));
    assert!(texts.contains(&"// TODO later"));
}

#[test]
fn csv_match_idx_counts_within_one_file() {
    let results = todo_results();
    let doubled = vec![out::Query {
        name: "todo-comments".to_string(),
        path: "a.rs".to_string(),
        matches: results
            .iter()
            .flat_map(|r| r.matches.iter().map(|m| out::Match {
                captures: m.captures.iter().map(|c| out::Capture {
                    text: c.text.clone(),
                    name: c.name.clone(),
                    start_column: c.start_column,
                    start_line: c.start_line,
                    end_column: c.end_column,
                    end_line: c.end_line,
                }).collect(),
            }))
            .collect(),
    }];
    let rows = CsvRow::rows_for_queries(&doubled);
    assert_eq!(rows.len(), 2);
    assert_eq!(rows[0].match_idx, 0);
    assert_eq!(rows[1].match_idx, 1);
}

#[test]
fn from_out_captures_projects_one_match() {
    let captures = vec![
        out::Capture {
            text: "alpha".to_string(),
            name: "first".to_string(),
            start_column: 2,
            start_line: 3,
            end_column: 7,
            end_line: 3,
        },
        out::Capture {
            text: "beta".to_string(),
            name: "second".to_string(),
            start_column: 0,
            start_line: 4,
            end_column: 4,
            end_line: 4,
        },
    ];
    let rows = out::csv::Capture::from_out_captures("q", "dir/f.rs", 5, &captures);
    assert_eq!(rows.len(), 2);
    assert_eq!(rows[0].index, 5);
    assert_eq!(rows[0].query, "q");
    assert_eq!(rows[0].path, "dir/f.rs");
    assert_eq!(rows[0].capture, "first");
    assert_eq!(rows[0].text, "alpha");
    assert_eq!(rows[0].start_column, 2);
    assert_eq!(rows[0].start_line, 3);
    assert_eq!(rows[0].end_column, 7);
    assert_eq!(rows[0].end_line, 3);
    assert_eq!(rows[1].capture, "second");
    assert_eq!(rows[1].index, 5);
}

#[test]
fn json_keeps_everything_without_toggle() {
    let results = todo_results();
    let bound = out::json_queries(&results, false);
    assert_eq!(bound, results);
}

#[test]
fn json_drops_zero_match_files_with_toggle() {
    let results = todo_results();
    let bound = out::json_queries(&results, true);
    assert_eq!(bound.len(), 2);
    assert!(bound.iter().all(|q| !q.matches.is_empty()));
    assert!(bound.iter().any(|q| q.path == "a.rs"));
    assert!(bound.iter().any(|q| q.path == "b.rs"));
}

#[test]
fn csv_and_json_carry_the_same_content() {
    // The same result set through both emitters: the same multiset of
    // (path, capture name, text, positions) tuples.
    let results = todo_results();
    let rows = CsvRow::rows_for_queries(&results);
    let bound = out::json_queries(&results, true);

    let mut from_csv: Vec<(String, String, String, usize, usize, usize, usize)> = rows
        .iter()
        .map(|r| (
            r.path.clone(),
            r.capture.clone(),
            r.text.clone(),
            r.start_column,
            r.start_line,
            r.end_column,
            r.end_line,
        ))
        .collect();
    let mut from_json: Vec<(String, String, String, usize, usize, usize, usize)> = bound
        .iter()
        .flat_map(|q| q.matches.iter().flat_map(move |m| {
            let path = q.path.clone();
            m.captures.iter().map(move |c| (
                path.clone(),
                c.name.clone(),
                c.text.clone(),
                c.start_column,
                c.start_line,
                c.end_column,
                c.end_line,
            ))
        }))
        .collect();
    from_csv.sort();
    from_json.sort();
    assert_eq!(from_csv, from_json);
}

#[test]
fn occurrence_counts_follow_result_order() {
    let results = todo_results();
    let counts = out::occurrence_counts(&results);
    assert_eq!(counts.len(), results.len());
    for (i, (path, n)) in counts.iter().enumerate() {
        assert_eq!(*path, results[i].path);
        assert_eq!(*n, results[i].matches.len());
    }
}
