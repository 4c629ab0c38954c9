//! The file indexer: deduplication, per-query association, and the collected
//! per-item errors.
use antenna::AntennaError;
use antenna::process::index::{FileInput, Indexer, QueryDiscovery};

fn read_input(path: &str, content: &str) -> FileInput {
    FileInput {
        path: path.to_string(),
        content: Ok(content.as_bytes().to_vec()),
    }
}

fn walked(name: &str, paths: &[&str]) -> QueryDiscovery {
    QueryDiscovery {
        query_name: name.to_string(),
        pattern_error: None,
        paths: paths.iter().map(|p| p.to_string()).collect(),
        walk_errors: Vec::new(),
    }
}

#[test]
fn overlapping_globs_share_one_parsed_file() {
    // Two queries both name b.rs: it is stored once, and both reference it.
    let discoveries = vec![
        walked("first", &["a.rs", "b.rs"]),
        walked("second", &["b.rs", "c.rs"]),
    ];
    let inputs = vec![
        read_input("a.rs", "fn a() {}\n"),
        read_input("b.rs", "fn b() {}\n"),
        read_input("c.rs", "fn c() {}\n"),
    ];
    let (indexer, errors) = Indexer::default().index(&discoveries, &inputs);
    assert!(errors.is_empty());
    assert_eq!(indexer.files().len(), 3);

    let first: Vec<_> = indexer.get_files_by_query_name("first").unwrap();
    let second: Vec<_> = indexer.get_files_by_query_name("second").unwrap();
    assert_eq!(first.len(), 2);
    assert_eq!(second.len(), 2);

    let b_first = first.iter().find(|f| f.path == "b.rs").unwrap();
    let b_second = second.iter().find(|f| f.path == "b.rs").unwrap();
    // The same arena entry, equal under the defined identity.
    assert!(std::ptr::eq(*b_first, *b_second));
    assert_eq!(*b_first, *b_second);
}

#[test]
fn duplicate_candidates_are_indexed_once() {
    let discoveries = vec![walked("q", &["a.rs"])];
    let inputs = vec![
        read_input("a.rs", "fn a() {}\n"),
        read_input("a.rs", "fn a() {}\n"),
    ];
    let (indexer, errors) = Indexer::default().index(&discoveries, &inputs);
    assert!(errors.is_empty());
    assert_eq!(indexer.files().len(), 1);
}

#[test]
fn unsupported_extension_collects_one_error() {
    // One unsupported file among valid ones: the others are indexed, and
    // exactly one error references the unsupported path.
    let discoveries = vec![walked("q", &["a.rs", "b.xyz", "c.rs"])];
    let inputs = vec![
        read_input("a.rs", "fn a() {}\n"),
        read_input("b.xyz", "whatever\n"),
        read_input("c.rs", "fn c() {}\n"),
    ];
    let (indexer, errors) = Indexer::default().index(&discoveries, &inputs);
    assert_eq!(indexer.files().len(), 2);
    assert_eq!(errors.len(), 1);
    match &errors[0] {
        AntennaError::Unsupported { path } => assert_eq!(path, "b.xyz"),
        other => panic!("expected an unsupported-file error, got {:?}", other),
    }
}

#[test]
fn missing_extension_collects_one_error() {
    let discoveries = vec![walked("q", &["justname"])];
    let inputs = vec![read_input("justname", "fn a() {}\n")];
    let (indexer, errors) = Indexer::default().index(&discoveries, &inputs);
    assert_eq!(indexer.files().len(), 0);
    assert_eq!(errors.len(), 1);
    assert!(matches!(&errors[0], AntennaError::Unsupported { path } if path == "justname"));
}

#[test]
fn unreadable_file_collects_io_error() {
    let discoveries = vec![walked("q", &["a.rs"])];
    let inputs = vec![FileInput {
        path: "a.rs".to_string(),
        content: Err("permission denied".to_string()),
    }];
    let (indexer, errors) = Indexer::default().index(&discoveries, &inputs);
    assert_eq!(indexer.files().len(), 0);
    assert_eq!(errors.len(), 1);
    match &errors[0] {
        AntennaError::Io { path, message } => {
            assert_eq!(path, "a.rs");
            assert_eq!(message, "permission denied");
        },
        other => panic!("expected an io error, got {:?}", other),
    }
}

#[test]
fn invalid_utf8_collects_decode_error() {
    let discoveries = vec![walked("q", &["a.rs"])];
    let inputs = vec![FileInput {
        path: "a.rs".to_string(),
        content: Ok(vec![0xff, 0xfe, 0x00]),
    }];
    let (indexer, errors) = Indexer::default().index(&discoveries, &inputs);
    assert_eq!(indexer.files().len(), 0);
    assert_eq!(errors.len(), 1);
    assert!(matches!(&errors[0], AntennaError::FromUtf8 { path } if path == "a.rs"));
}

#[test]
fn malformed_glob_collects_pattern_error() {
    let discoveries = vec![QueryDiscovery {
        query_name: "broken".to_string(),
        pattern_error: Some("unclosed bracket".to_string()),
        paths: Vec::new(),
        walk_errors: Vec::new(),
    }];
    let (indexer, errors) = Indexer::default().index(&discoveries, &Vec::new());
    assert_eq!(indexer.files().len(), 0);
    assert_eq!(errors.len(), 1);
    match &errors[0] {
        AntennaError::Pattern { query_name, message } => {
            assert_eq!(query_name, "broken");
            assert_eq!(message, "unclosed bracket");
        },
        other => panic!("expected a pattern error, got {:?}", other),
    }
}

#[test]
fn walk_failures_collect_glob_errors() {
    let discoveries = vec![QueryDiscovery {
        query_name: "q".to_string(),
        pattern_error: None,
        paths: vec!["a.rs".to_string()],
        walk_errors: vec!["denied: secret/".to_string()],
    }];
    let inputs = vec![read_input("a.rs", "fn a() {}\n")];
    let (indexer, errors) = Indexer::default().index(&discoveries, &inputs);
    assert_eq!(indexer.files().len(), 1);
    assert_eq!(errors.len(), 1);
    assert!(matches!(&errors[0], AntennaError::Glob { query_name, .. } if query_name == "q"));
}

#[test]
fn indexed_file_equality_excludes_nothing_it_should_not() {
    let discoveries = vec![walked("q", &["x/a.rs", "y/a.rs"])];
    let inputs = vec![
        read_input("x/a.rs", "fn a() {}\n"),
        read_input("y/a.rs", "fn a() {}\n"),
    ];
    let (indexer, errors) = Indexer::default().index(&discoveries, &inputs);
    assert!(errors.is_empty());
    // Same content under two paths: two distinct indexed files.
    assert_eq!(indexer.files().len(), 2);
    let a = indexer.get_file_by_path("x/a.rs").unwrap();
    let b = indexer.get_file_by_path("y/a.rs").unwrap();
    assert_ne!(a, b);
    assert_eq!(a, a);
}

#[test]
fn file_lookup_by_path_and_name_fields() {
    let discoveries = vec![walked("q", &["src/lib.py"])];
    let inputs = vec![read_input("src/lib.py", "x = 1\n")];
    let (indexer, errors) = Indexer::default().index(&discoveries, &inputs);
    assert!(errors.is_empty());
    let f = indexer.get_file_by_path("src/lib.py").unwrap();
    assert_eq!(f.name, "lib.py");
    assert_eq!(f.extension, "py");
    assert_eq!(
        f.recognized_language,
        antenna::RecognizedLanguage::Python
    );
    assert_eq!(f.content, "x = 1\n".as_bytes().to_vec());
    assert!(indexer.get_file_by_path("src/other.py").is_none());
    assert!(indexer.get_files_by_query_name("unknown").is_none());
}

#[test]
fn repeated_path_keeps_first_reading() {
    // Each path is read and parsed exactly once: a candidate whose path is
    // already indexed is left alone, whatever its bytes.
    let discoveries = vec![walked("q", &["a.rs"])];
    let inputs = vec![
        read_input("a.rs", "fn first() {}\n"),
        read_input("a.rs", "fn second() {}\n"),
    ];
    let (indexer, errors) = Indexer::default().index(&discoveries, &inputs);
    assert!(errors.is_empty());
    assert_eq!(indexer.files().len(), 1);
    let f = indexer.get_file_by_path("a.rs").unwrap();
    assert_eq!(f.content, "fn first() {}\n".as_bytes().to_vec());
}

#[test]
fn indexing_extends_prior_index() {
    // Indexing only adds: files and per-query associations of the consumed
    // indexer are all still present after another round.
    let (first, errors_one) = Indexer::default().index(
        &vec![walked("alpha", &["a.rs"])],
        &vec![read_input("a.rs", "fn a() {}\n")],
    );
    assert!(errors_one.is_empty());
    let (second, errors_two) = first.index(
        &vec![walked("beta", &["b.rs"])],
        &vec![read_input("b.rs", "fn b() {}\n")],
    );
    assert!(errors_two.is_empty());
    assert_eq!(second.files().len(), 2);
    let alpha: Vec<_> = second.get_files_by_query_name("alpha").unwrap();
    assert_eq!(alpha.len(), 1);
    assert_eq!(alpha[0].path, "a.rs");
    let beta: Vec<_> = second.get_files_by_query_name("beta").unwrap();
    assert_eq!(beta.len(), 1);
    assert_eq!(beta[0].path, "b.rs");
    assert!(second.get_file_by_path("a.rs").is_some());
}
