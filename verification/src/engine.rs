//! Trusted boundary to the outside engines: the tree-sitter parser and
//! pattern matcher, the compiled-in grammars, and the few string helpers of
//! std that vstd leaves unspecified. Everything behind `external_body` here is
//! believed, not proved; each item's doc comment names the outside function it
//! relies on. Results that would take pages to state are given names
//! (`uninterp` spec functions): tree-sitter's parsing, compilation and
//! matching are deterministic functions of the language, the pattern and the
//! source bytes, so those names are sound, and the verified logic of the crate
//! is stated and proved over them.
use vstd::prelude::*;

verus! {

#[verifier::external_type_specification]
#[verifier::external_body]
pub struct ExLanguage(tree_sitter::Language);

#[verifier::external_type_specification]
#[verifier::external_body]
pub struct ExTree(tree_sitter::Tree);

/// A pattern compiled against one language's grammar, held opaquely. Verus
/// refuses a declaration of the engine's own compiled-query type here (the
/// crate defines an item of that name), so the value sits in a private field
/// and is spoken of only through [`query_lang`], [`query_pattern`] and the
/// wrappers below.
#[verifier::external_body]
pub struct CompiledPattern {
    inner: tree_sitter::Query,
}

/// One capture of one raw match, as the matcher reports it: the capture's
/// index within the pattern's capture list, and the byte and point range of
/// the captured node.
#[derive(Debug, PartialEq, Eq, Structural, Clone, Copy)]
pub struct RawCapture {
    pub capture_index: usize,
    pub start_byte: usize,
    pub end_byte: usize,
    pub start_row: usize,
    pub start_column: usize,
    pub end_row: usize,
    pub end_column: usize,
}

/// The element-wise views of a vector of raw matches.
pub open spec fn raw_views(r: Vec<Vec<RawCapture>>) -> Seq<Seq<RawCapture>> {
    r@.map_values(|v: Vec<RawCapture>| v@)
}

/// The lower-case form of one ASCII character: an upper-case letter shifts
/// into the lower-case range, and any other character stays itself.
pub open spec fn ascii_lower_char(c: char) -> char {
    if 'A' <= c && c <= 'Z' {
        ((c as u32) + 32) as char
    } else {
        c
    }
}

/// The character-wise lower-case form of an ASCII character sequence.
pub open spec fn ascii_lower(s: Seq<char>) -> Seq<char> {
    s.map_values(|c: char| ascii_lower_char(c))
}

/// The lower-case form that `str::to_lowercase` produces: a function of the
/// characters alone. On ASCII input it is [`ascii_lower`]; elsewhere it is
/// left unspecified here.
pub uninterp spec fn lower_of(s: Seq<char>) -> Seq<char>;

/// The language a tree was parsed under.
pub uninterp spec fn tree_lang(t: tree_sitter::Tree) -> crate::RecognizedLanguage;

/// The bytes a tree was parsed from.
pub uninterp spec fn tree_source(t: tree_sitter::Tree) -> Seq<u8>;

/// Why parsing `content` under `lang` fails, if it does: `None` when a tree
/// comes back, `Some` with the failure's description otherwise.
pub uninterp spec fn parse_failure(lang: crate::RecognizedLanguage, content: Seq<u8>) -> Option<Seq<char>>;

/// The language a compiled query was compiled for.
pub uninterp spec fn query_lang(q: CompiledPattern) -> crate::RecognizedLanguage;

/// The pattern string a compiled query was compiled from.
pub uninterp spec fn query_pattern(q: CompiledPattern) -> Seq<char>;

/// Why compiling `pattern` for `lang` fails, if it does: `None` when the
/// pattern compiles, `Some` with the error's description otherwise.
pub uninterp spec fn compile_failure(lang: crate::RecognizedLanguage, pattern: Seq<char>) -> Option<Seq<char>>;

/// The capture names a compiled pattern declares, in capture-index order.
pub uninterp spec fn capture_names_of(lang: crate::RecognizedLanguage, pattern: Seq<char>) -> Seq<Seq<char>>;

/// The raw matches that running `pattern` over the parse of `content` under
/// `lang` yields, in the engine's traversal order: one capture list per match.
pub uninterp spec fn ts_matches(lang: crate::RecognizedLanguage, pattern: Seq<char>, content: Seq<u8>) -> Seq<Seq<RawCapture>>;

/// Relies on str::to_lowercase: the result depends on the characters alone
/// (the Unicode lowercase mapping, no locale), an empty string stays empty,
/// and on ASCII input the mapping is the familiar character-wise ASCII one —
/// `A` to `Z` shift into the lower-case range, every other ASCII character
/// stays itself.
#[verifier::external_body]
pub(crate) fn to_lowercase_str(s: &str) -> (r: String)
    ensures
        r@ == lower_of(s@),
        s@.len() == 0 ==> r@.len() == 0,
        vstd::utf8::is_ascii_chars(s@) ==> r@ == ascii_lower(s@),
{
    s.to_lowercase()
}

/// Relies on String::from_utf8: it succeeds exactly on valid UTF-8 input and
/// returns the decoded characters, as vstd's UTF-8 specification states them.
#[verifier::external_body]
pub(crate) fn utf8_to_string(bytes: Vec<u8>) -> (r: Option<String>)
    ensures
        r is Some <==> vstd::utf8::valid_utf8(bytes@),
        r matches Some(s) ==> s@ == vstd::utf8::decode_utf8(bytes@),
{
    String::from_utf8(bytes).ok()
}

/// Relies on tree_sitter_rust::LANGUAGE: the compiled-in grammar for Rust.
#[verifier::external_body]
pub(crate) fn language_rust() -> tree_sitter::Language {
    tree_sitter::Language::from(tree_sitter_rust::LANGUAGE)
}

/// Relies on tree_sitter_python::LANGUAGE: the compiled-in grammar for Python.
#[verifier::external_body]
pub(crate) fn language_python() -> tree_sitter::Language {
    tree_sitter::Language::from(tree_sitter_python::LANGUAGE)
}

/// Relies on tree_sitter_typescript::LANGUAGE_TYPESCRIPT: the compiled-in
/// grammar for TypeScript.
#[verifier::external_body]
pub(crate) fn language_typescript() -> tree_sitter::Language {
    tree_sitter::Language::from(tree_sitter_typescript::LANGUAGE_TYPESCRIPT)
}

/// Relies on tree_sitter_typescript::LANGUAGE_TSX: the compiled-in grammar
/// for the TSX dialect.
#[verifier::external_body]
pub(crate) fn language_tsx() -> tree_sitter::Language {
    tree_sitter::Language::from(tree_sitter_typescript::LANGUAGE_TSX)
}

/// Relies on tree_sitter_javascript::LANGUAGE: the compiled-in grammar for
/// JavaScript.
#[verifier::external_body]
pub(crate) fn language_javascript() -> tree_sitter::Language {
    tree_sitter::Language::from(tree_sitter_javascript::LANGUAGE)
}

/// Relies on tree_sitter_go::LANGUAGE: the compiled-in grammar for Go.
#[verifier::external_body]
pub(crate) fn language_go() -> tree_sitter::Language {
    tree_sitter::Language::from(tree_sitter_go::LANGUAGE)
}

/// Relies on tree_sitter_cpp::LANGUAGE: the compiled-in grammar for C++.
#[verifier::external_body]
pub(crate) fn language_cpp() -> tree_sitter::Language {
    tree_sitter::Language::from(tree_sitter_cpp::LANGUAGE)
}

/// Relies on tree_sitter_java::LANGUAGE: the compiled-in grammar for Java.
#[verifier::external_body]
pub(crate) fn language_java() -> tree_sitter::Language {
    tree_sitter::Language::from(tree_sitter_java::LANGUAGE)
}

/// Relies on tree_sitter_c::LANGUAGE: the compiled-in grammar for C.
#[verifier::external_body]
pub(crate) fn language_c() -> tree_sitter::Language {
    tree_sitter::Language::from(tree_sitter_c::LANGUAGE)
}

/// Relies on tree_sitter_ruby::LANGUAGE: the compiled-in grammar for Ruby.
#[verifier::external_body]
pub(crate) fn language_ruby() -> tree_sitter::Language {
    tree_sitter::Language::from(tree_sitter_ruby::LANGUAGE)
}

/// Relies on tree_sitter_html::LANGUAGE: the compiled-in grammar for HTML.
#[verifier::external_body]
pub(crate) fn language_html() -> tree_sitter::Language {
    tree_sitter::Language::from(tree_sitter_html::LANGUAGE)
}

/// Relies on tree_sitter_css::LANGUAGE: the compiled-in grammar for CSS.
#[verifier::external_body]
pub(crate) fn language_css() -> tree_sitter::Language {
    tree_sitter::Language::from(tree_sitter_css::LANGUAGE)
}

/// Relies on tree_sitter_swift::LANGUAGE: the compiled-in grammar for Swift.
#[verifier::external_body]
pub(crate) fn language_swift() -> tree_sitter::Language {
    tree_sitter::Language::from(tree_sitter_swift::LANGUAGE)
}

/// Relies on tree_sitter_c_sharp::LANGUAGE: the compiled-in grammar for C#.
#[verifier::external_body]
pub(crate) fn language_c_sharp() -> tree_sitter::Language {
    tree_sitter::Language::from(tree_sitter_c_sharp::LANGUAGE)
}

/// Relies on tree_sitter_json::LANGUAGE: the compiled-in grammar for JSON.
#[verifier::external_body]
pub(crate) fn language_json() -> tree_sitter::Language {
    tree_sitter::Language::from(tree_sitter_json::LANGUAGE)
}

/// Relies on tree_sitter_yaml::LANGUAGE: the compiled-in grammar for YAML.
#[verifier::external_body]
pub(crate) fn language_yaml() -> tree_sitter::Language {
    tree_sitter::Language::from(tree_sitter_yaml::LANGUAGE)
}

/// Relies on tree_sitter::Parser: `new`, then `set_language` with `lang`'s
/// grammar, then `parse` over the whole of `content`. A returned tree is the
/// parse of exactly these bytes under exactly this language, and whether one
/// comes back — tree-sitter parses deterministically, with no timeout or
/// cancellation configured here — depends on the language and the bytes alone.
#[verifier::external_body]
pub(crate) fn parse_source(lang: crate::RecognizedLanguage, content: &Vec<u8>) -> (r: Result<tree_sitter::Tree, String>)
    ensures
        r is Ok <==> parse_failure(lang, content@) is None,
        r matches Ok(t) ==> tree_lang(t) == lang && tree_source(t) == content@,
        r matches Err(m) ==> parse_failure(lang, content@) == Some(m@),
{
    let mut parser = tree_sitter::Parser::new();
    if let Err(e) = parser.set_language(&lang.as_tree_sitter_language()) {
        return Err(e.to_string());
    }
    match parser.parse(content.as_slice(), None) {
        Some(tree) => Ok(tree),
        None => Err("the parser returned no tree".to_string()),
    }
}

/// Relies on tree_sitter::Query::new: compiles `pattern` against `lang`'s
/// grammar. Compilation is a pure function of the grammar and the pattern
/// string, so success, the compiled query and the error's description depend
/// on the language and the pattern alone.
#[verifier::external_body]
pub(crate) fn compile_pattern(lang: crate::RecognizedLanguage, pattern: &str) -> (r: Result<CompiledPattern, String>)
    ensures
        r is Ok <==> compile_failure(lang, pattern@) is None,
        r matches Ok(q) ==> query_lang(q) == lang && query_pattern(q) == pattern@,
        r matches Err(m) ==> compile_failure(lang, pattern@) == Some(m@),
{
    match tree_sitter::Query::new(&lang.as_tree_sitter_language(), pattern) {
        Ok(q) => Ok(CompiledPattern { inner: q }),
        Err(e) => Err(e.to_string()),
    }
}

/// Relies on tree_sitter::Query::capture_names: the capture names a compiled
/// query declares, in capture-index order, a function of the language and
/// pattern the query was compiled from.
#[verifier::external_body]
pub(crate) fn query_capture_names(q: &CompiledPattern) -> (r: Vec<String>)
    ensures
        r.deep_view() == capture_names_of(query_lang(*q), query_pattern(*q)),
{
    q.inner.capture_names().iter().map(|n| n.to_string()).collect()
}

/// Relies on tree_sitter::QueryCursor: `new`, `matches` over the tree's root
/// node with `content` as the text provider, and the capture index and node
/// range of each reported capture. For a query and a tree of one language,
/// with the tree parsed from exactly `content`, the matcher walks the tree
/// deterministically, so the reported matches are a function of the language,
/// the pattern and the bytes alone.
#[verifier::external_body]
pub(crate) fn run_compiled(q: &CompiledPattern, tree: &tree_sitter::Tree, content: &Vec<u8>) -> (r: Vec<Vec<RawCapture>>)
    ensures
        (query_lang(*q) == tree_lang(*tree) && tree_source(*tree) == content@) ==> raw_views(r)
            == ts_matches(query_lang(*q), query_pattern(*q), content@),
{
    let mut cursor = tree_sitter::QueryCursor::new();
    let mut it = cursor.matches(&q.inner, tree.root_node(), content.as_slice());
    let mut out = Vec::new();
    while let Some(m) = tree_sitter::StreamingIterator::next(&mut it) {
        out.push(m.captures().iter().map(|c| {
            let rg = c.node.range();
            RawCapture {
                capture_index: c.index as usize,
                start_byte: rg.start_byte, end_byte: rg.end_byte,
                start_row: rg.start_point.row, start_column: rg.start_point.column,
                end_row: rg.end_point.row, end_column: rg.end_point.column,
            }
        }).collect());
    }
    out
}

} // verus!
