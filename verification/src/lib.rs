//! A configuration-driven structural code search engine: named queries pair a
//! file glob with a tree-sitter pattern; matching files are parsed once,
//! patterns are compiled once per language, and matches are flattened into
//! serializable capture records.
use vstd::prelude::*;

pub mod args;
pub mod configuration;
pub mod csv;
pub mod engine;
pub mod laws;
pub mod paths;
pub mod process;
pub mod out;

verus! {

/// Wrapper type of a [`Result`] where the [`Err`] variant is an [`AntennaError`].
pub type AntennaResult<T> = Result<T, AntennaError>;

/// An [`Err`] returned by an `antenna` function. Every variant carries plain
/// data naming what failed, so a caller can tell the query, path or language
/// concerned.
#[derive(Debug, PartialEq, Eq)]
pub enum AntennaError {
    /// A query's pattern did not compile for one language.
    Query { query_name: String, language: RecognizedLanguage, message: String },
    /// A query's glob expression was malformed.
    Pattern { query_name: String, message: String },
    /// One path of a query's glob walk could not be visited.
    Glob { query_name: String, message: String },
    /// A file could not be read.
    Io { path: String, message: String },
    /// A file has no extension, or one that maps to no [`RecognizedLanguage`].
    Unsupported { path: String },
    /// The parser produced no tree for a file: its grammar was rejected, or
    /// parsing was abandoned.
    Parse { path: String, message: String },
    /// Bytes that should have been text were not valid UTF-8.
    FromUtf8 { path: String },
    /// The configuration file could not be understood.
    Yaml { message: String },
    /// Any other failure, described in prose.
    Antenna { message: String },
    /// A non-empty batch of collected failures.
    Collection { errors: Vec<AntennaError> },
}

/// The mathematical content of an [`AntennaError`] that is not itself a
/// collection: the same variants over character sequences.
#[verifier::ext_equal]
pub ghost enum ErrorView {
    Query { query_name: Seq<char>, language: RecognizedLanguage, message: Seq<char> },
    Pattern { query_name: Seq<char>, message: Seq<char> },
    Glob { query_name: Seq<char>, message: Seq<char> },
    Io { path: Seq<char>, message: Seq<char> },
    Unsupported { path: Seq<char> },
    Parse { path: Seq<char>, message: Seq<char> },
    FromUtf8 { path: Seq<char> },
    Yaml { message: Seq<char> },
    Antenna { message: Seq<char> },
}

/// The view of one collected error. Batch operations of this crate collect
/// flat errors only, so a nested collection has no view of its own here.
pub open spec fn flat_error_view(e: AntennaError) -> ErrorView {
    match e {
        AntennaError::Query { query_name, language, message } => ErrorView::Query {
            query_name: query_name@,
            language,
            message: message@,
        },
        AntennaError::Pattern { query_name, message } => ErrorView::Pattern {
            query_name: query_name@,
            message: message@,
        },
        AntennaError::Glob { query_name, message } => ErrorView::Glob {
            query_name: query_name@,
            message: message@,
        },
        AntennaError::Io { path, message } => ErrorView::Io { path: path@, message: message@ },
        AntennaError::Unsupported { path } => ErrorView::Unsupported { path: path@ },
        AntennaError::Parse { path, message } => ErrorView::Parse {
            path: path@,
            message: message@,
        },
        AntennaError::FromUtf8 { path } => ErrorView::FromUtf8 { path: path@ },
        AntennaError::Yaml { message } => ErrorView::Yaml { message: message@ },
        AntennaError::Antenna { message } => ErrorView::Antenna { message: message@ },
        AntennaError::Collection { .. } => ErrorView::Antenna { message: Seq::empty() },
    }
}

/// The views of a list of collected errors.
pub open spec fn views_of_errors(es: Seq<AntennaError>) -> Seq<ErrorView> {
    es.map_values(|e: AntennaError| flat_error_view(e))
}

/// Equality of two byte vectors, decided element by element.
pub fn bytes_eq(a: &Vec<u8>, b: &Vec<u8>) -> (r: bool)
    ensures
        r == (a@ == b@),
{
    if a.len() != b.len() {
        return false;
    }
    let mut i: usize = 0;
    while i < a.len()
        invariant
            i <= a.len(),
            a@.len() == b@.len(),
            forall|j: int| 0 <= j < i as int ==> a@[j] == b@[j],
        decreases a.len() - i,
    {
        if a[i] != b[i] {
            return false;
        }
        i = i + 1;
    }
    proof {
        assert(a@ =~= b@);
    }
    true
}

/// An exact copy of a byte vector.
pub fn bytes_clone(v: &Vec<u8>) -> (r: Vec<u8>)
    ensures
        r@ == v@,
{
    let mut r: Vec<u8> = Vec::new();
    let mut i: usize = 0;
    while i < v.len()
        invariant
            i <= v.len(),
            r@.len() == i as int,
            forall|j: int| 0 <= j < i as int ==> r@[j] == v@[j],
        decreases v.len() - i,
    {
        r.push(v[i]);
        i = i + 1;
    }
    proof {
        assert(r@ =~= v@);
    }
    r
}

/// An enumerator holding variants that are languages _recognized_ by `antenna`.
/// Each variant carries a compiled-in grammar, so the set is closed at build
/// time; a language joins it only once a grammar crate compatible with the
/// linked tree-sitter generation exists (TOML, whose published grammar
/// predates that generation, is therefore absent).
#[derive(Debug, PartialEq, Eq, Structural, Hash, Clone, Copy)]
pub enum RecognizedLanguage {
    Rust,
    Python,
    TypeScript,
    Tsx,
    JavaScript,
    Go,
    Cpp,
    Java,
    C,
    Ruby,
    Html,
    Css,
    Swift,
    CSharp,
    Json,
    Yaml,
}

/// The language that a lower-case file extension maps to, if any.
pub open spec fn spec_language_of_extension(ext: Seq<char>) -> Option<RecognizedLanguage> {
    if ext == "rs"@ {
        Some(RecognizedLanguage::Rust)
    } else if ext == "py"@ {
        Some(RecognizedLanguage::Python)
    } else if ext == "ts"@ {
        Some(RecognizedLanguage::TypeScript)
    } else if ext == "tsx"@ {
        Some(RecognizedLanguage::Tsx)
    } else if ext == "js"@ || ext == "jsx"@ {
        Some(RecognizedLanguage::JavaScript)
    } else if ext == "go"@ {
        Some(RecognizedLanguage::Go)
    } else if ext == "cpp"@ || ext == "cxx"@ {
        Some(RecognizedLanguage::Cpp)
    } else if ext == "java"@ {
        Some(RecognizedLanguage::Java)
    } else if ext == "c"@ {
        Some(RecognizedLanguage::C)
    } else if ext == "rb"@ {
        Some(RecognizedLanguage::Ruby)
    } else if ext == "html"@ {
        Some(RecognizedLanguage::Html)
    } else if ext == "css"@ {
        Some(RecognizedLanguage::Css)
    } else if ext == "swift"@ {
        Some(RecognizedLanguage::Swift)
    } else if ext == "cs"@ {
        Some(RecognizedLanguage::CSharp)
    } else if ext == "json"@ {
        Some(RecognizedLanguage::Json)
    } else if ext == "yaml"@ || ext == "yml"@ {
        Some(RecognizedLanguage::Yaml)
    } else {
        None
    }
}

/// Equality of two string slices, decided character by character.
pub fn str_eq(a: &str, b: &str) -> (r: bool)
    ensures
        r == (a@ == b@),
{
    let owned_a: String = a.to_owned();
    let owned_b: String = b.to_owned();
    owned_a == owned_b
}

impl RecognizedLanguage {
    /// Converts the [`RecognizedLanguage`] to a Tree Sitter [`Language`]: the
    /// compiled-in grammar handle that the parser and the query compiler share.
    pub fn as_tree_sitter_language(&self) -> tree_sitter::Language {
        match self {
            RecognizedLanguage::Rust => crate::engine::language_rust(),
            RecognizedLanguage::Python => crate::engine::language_python(),
            RecognizedLanguage::TypeScript => crate::engine::language_typescript(),
            RecognizedLanguage::Tsx => crate::engine::language_tsx(),
            RecognizedLanguage::JavaScript => crate::engine::language_javascript(),
            RecognizedLanguage::Go => crate::engine::language_go(),
            RecognizedLanguage::Cpp => crate::engine::language_cpp(),
            RecognizedLanguage::Java => crate::engine::language_java(),
            RecognizedLanguage::C => crate::engine::language_c(),
            RecognizedLanguage::Ruby => crate::engine::language_ruby(),
            RecognizedLanguage::Html => crate::engine::language_html(),
            RecognizedLanguage::Css => crate::engine::language_css(),
            RecognizedLanguage::Swift => crate::engine::language_swift(),
            RecognizedLanguage::CSharp => crate::engine::language_c_sharp(),
            RecognizedLanguage::Json => crate::engine::language_json(),
            RecognizedLanguage::Yaml => crate::engine::language_yaml(),
        }
    }

    /// Attempts to construct a [`RecognizedLanguage`] from a language's file extension.
    /// If the extension is not mappable to a _[`RecognizedLanguage`]_, this function
    /// will return [`None`]. The lookup is case-insensitive: the extension is
    /// lowercased first, so on an ASCII extension the result is the spec table
    /// at its character-wise lower-case form — `"rs"` and `"RS"` both give
    /// the same language.
    pub fn from_language_extension(extension: &str) -> (r: Option<Self>)
        ensures
            r == spec_language_of_extension(crate::engine::lower_of(extension@)),
            vstd::utf8::is_ascii_chars(extension@) ==> r == spec_language_of_extension(
                crate::engine::ascii_lower(extension@),
            ),
    {
        let lowered: String = crate::engine::to_lowercase_str(extension);
        let l: &str = lowered.as_str();
        if str_eq(l, "rs") {
            Some(RecognizedLanguage::Rust)
        } else if str_eq(l, "py") {
            Some(RecognizedLanguage::Python)
        } else if str_eq(l, "ts") {
            Some(RecognizedLanguage::TypeScript)
        } else if str_eq(l, "tsx") {
            Some(RecognizedLanguage::Tsx)
        } else if str_eq(l, "js") || str_eq(l, "jsx") {
            Some(RecognizedLanguage::JavaScript)
        } else if str_eq(l, "go") {
            Some(RecognizedLanguage::Go)
        } else if str_eq(l, "cpp") || str_eq(l, "cxx") {
            Some(RecognizedLanguage::Cpp)
        } else if str_eq(l, "java") {
            Some(RecognizedLanguage::Java)
        } else if str_eq(l, "c") {
            Some(RecognizedLanguage::C)
        } else if str_eq(l, "rb") {
            Some(RecognizedLanguage::Ruby)
        } else if str_eq(l, "html") {
            Some(RecognizedLanguage::Html)
        } else if str_eq(l, "css") {
            Some(RecognizedLanguage::Css)
        } else if str_eq(l, "swift") {
            Some(RecognizedLanguage::Swift)
        } else if str_eq(l, "cs") {
            Some(RecognizedLanguage::CSharp)
        } else if str_eq(l, "json") {
            Some(RecognizedLanguage::Json)
        } else if str_eq(l, "yaml") || str_eq(l, "yml") {
            Some(RecognizedLanguage::Yaml)
        } else {
            None
        }
    }
}

} // verus!
