//! The language registry and path splitting.
use antenna::RecognizedLanguage;
use antenna::paths::{path_extension, path_file_name};

#[test]
fn extension_maps_to_language() {
    assert_eq!(
        RecognizedLanguage::from_language_extension("rs"),
        Some(RecognizedLanguage::Rust)
    );
    assert_eq!(
        RecognizedLanguage::from_language_extension("py"),
        Some(RecognizedLanguage::Python)
    );
    assert_eq!(
        RecognizedLanguage::from_language_extension("jsx"),
        Some(RecognizedLanguage::JavaScript)
    );
    assert_eq!(
        RecognizedLanguage::from_language_extension("cxx"),
        Some(RecognizedLanguage::Cpp)
    );
    assert_eq!(
        RecognizedLanguage::from_language_extension("yml"),
        Some(RecognizedLanguage::Yaml)
    );
}

#[test]
fn extension_lookup_is_case_insensitive() {
    assert_eq!(
        RecognizedLanguage::from_language_extension("RS"),
        Some(RecognizedLanguage::Rust)
    );
    assert_eq!(
        RecognizedLanguage::from_language_extension("Py"),
        Some(RecognizedLanguage::Python)
    );
    assert_eq!(
        RecognizedLanguage::from_language_extension("SWIFT"),
        Some(RecognizedLanguage::Swift)
    );
}

#[test]
fn unknown_extension_maps_to_none() {
    assert_eq!(RecognizedLanguage::from_language_extension("xyz"), None);
    assert_eq!(RecognizedLanguage::from_language_extension(""), None);
}

#[test]
fn file_name_follows_last_separator() {
    assert_eq!(path_file_name("a/b/c.rs"), "c.rs");
    assert_eq!(path_file_name("c.rs"), "c.rs");
    assert_eq!(path_file_name("a/b/"), "");
}

#[test]
fn extension_follows_last_dot_of_name() {
    assert_eq!(path_extension("a/b/c.rs"), Some("rs".to_string()));
    assert_eq!(path_extension("archive.tar.gz"), Some("gz".to_string()));
    assert_eq!(path_extension("a/.gitignore"), None);
    assert_eq!(path_extension("noext"), None);
    assert_eq!(path_extension("dir.d/file"), None);
}

#[test]
fn grammar_handles_are_distinct_per_language() {
    let rust = RecognizedLanguage::Rust.as_tree_sitter_language();
    let python = RecognizedLanguage::Python.as_tree_sitter_language();
    assert_ne!(rust, python);
}

#[test]
fn lookup_agrees_with_its_lowercased_form() {
    for ext in ["Rs", "rS", "RS", "rs", "SWIFT", "Yml", "XYZ"] {
        assert_eq!(
            RecognizedLanguage::from_language_extension(ext),
            RecognizedLanguage::from_language_extension(&ext.to_lowercase()),
        );
    }
}
