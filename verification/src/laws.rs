//! The crate-level guarantees, stated and proved once over the specs that the
//! public functions' contracts use: deduplicated indexing, one compilation
//! per (language, pattern) pair, tolerance of partial failures, the filtering
//! of anonymous captures, the agreement of the CSV and JSON projections, and
//! the idempotence of execution.
use vstd::prelude::*;

verus! {

use crate::ErrorView;
use crate::csv;
use crate::engine;
use crate::out;
use crate::process;
use crate::process::index::FileInputView;
use crate::process::index::IndexedFileView;
use crate::process::index::Indexer;
use crate::process::index::file_outcome;
use crate::process::index::has_path;
use crate::process::index::spec_index_files;
use crate::process::spec_execute;
use crate::process::spec_execute_file;

/// A physically identical file is stored once: two arena slots with equal
/// identity are the same slot, whichever query triggered their discovery.
pub proof fn lemma_file_indexed_once(x: Indexer, k1: int, k2: int)
    requires
        x.wf(),
        0 <= k1 < x.files@.len(),
        0 <= k2 < x.files@.len(),
        x.files@[k1]@ == x.files@[k2]@,
    ensures
        k1 == k2,
{
    if k1 < k2 {
        assert(x.files@[k1]@ != x.files@[k2]@);
    } else if k2 < k1 {
        assert(x.files@[k2]@ != x.files@[k1]@);
    }
}

/// Two queries whose listings both name a file of one identity reference the
/// same arena entry: overlapping globs share one parsed file.
pub proof fn lemma_dedup_across_queries(x: Indexer, q1: int, q2: int, j1: int, j2: int)
    requires
        x.wf(),
        0 <= q1 < x.queries@.len(),
        0 <= q2 < x.queries@.len(),
        0 <= j1 < x.queries@[q1].file_ids@.len(),
        0 <= j2 < x.queries@[q2].file_ids@.len(),
        x.files@[x.queries@[q1].file_ids@[j1] as int]@ == x.files@[x.queries@[q2].file_ids@[j2] as int]@,
    ensures
        x.queries@[q1].file_ids@[j1] == x.queries@[q2].file_ids@[j2],
{
    assert(x.queries@[q1].wf(x.files@.len() as int));
    assert(x.queries@[q2].wf(x.files@.len() as int));
    assert(x.queries@[q1].file_ids@[j1] < x.files@.len());
    assert(x.queries@[q2].file_ids@[j2] < x.files@.len());
    lemma_file_indexed_once(
        x,
        x.queries@[q1].file_ids@[j1] as int,
        x.queries@[q2].file_ids@[j2] as int,
    );
}

/// Each path is stored at most once: two arena slots whose files share a
/// path are the same slot, so a path's lookup is unambiguous.
pub proof fn lemma_path_stored_once(x: Indexer, k1: int, k2: int)
    requires
        x.wf(),
        0 <= k1 < x.files@.len(),
        0 <= k2 < x.files@.len(),
        x.files@[k1].path@ == x.files@[k2].path@,
    ensures
        k1 == k2,
{
    if k1 < k2 {
        assert(x.files@[k1].path@ != x.files@[k2].path@);
    } else if k2 < k1 {
        assert(x.files@[k2].path@ != x.files@[k1].path@);
    }
}

/// `ascii_lower` is idempotent: lowering an already lowered ASCII sequence
/// changes nothing, and the result stays ASCII.
pub proof fn lemma_ascii_lower_idempotent(s: Seq<char>)
    requires
        vstd::utf8::is_ascii_chars(s),
    ensures
        vstd::utf8::is_ascii_chars(engine::ascii_lower(s)),
        engine::ascii_lower(engine::ascii_lower(s)) == engine::ascii_lower(s),
{
    assert forall|i: int|
        0 <= i < engine::ascii_lower(s).len() implies '\0' <= #[trigger] engine::ascii_lower(
        s,
    )[i] <= '\u{7f}' by {
        assert(engine::ascii_lower(s)[i] == engine::ascii_lower_char(s[i]));
    }
    assert forall|i: int|
        0 <= i < engine::ascii_lower(engine::ascii_lower(s)).len() implies (
    #[trigger] engine::ascii_lower(engine::ascii_lower(s))[i]) == engine::ascii_lower(s)[i] by {
        assert(engine::ascii_lower(s)[i] == engine::ascii_lower_char(s[i]));
        assert(engine::ascii_lower(engine::ascii_lower(s))[i] == engine::ascii_lower_char(
            engine::ascii_lower_char(s[i]),
        ));
    }
    assert(engine::ascii_lower(engine::ascii_lower(s)) =~= engine::ascii_lower(s));
}

/// The extension lookup is case-insensitive: for an ASCII extension, the
/// lookup of the extension and the lookup of its lower-case form agree —
/// paired with `from_language_extension`'s contract, `"RS"`, `"Rs"` and
/// `"rs"` all resolve to the same language.
pub proof fn lemma_extension_lookup_case_insensitive(ext: Seq<char>)
    requires
        vstd::utf8::is_ascii_chars(ext),
    ensures
        vstd::utf8::is_ascii_chars(engine::ascii_lower(ext)),
        crate::spec_language_of_extension(engine::ascii_lower(engine::ascii_lower(ext)))
            == crate::spec_language_of_extension(engine::ascii_lower(ext)),
{
    lemma_ascii_lower_idempotent(ext);
}

/// One (language, pattern) pair is compiled exactly once: two cache entries
/// with equal keys are the same entry, however many files and queries share
/// that language and pattern.
pub proof fn lemma_pattern_compiled_once(c: process::QueryCache, i: int, j: int)
    requires
        c.wf(),
        0 <= i < c.entries@.len(),
        0 <= j < c.entries@.len(),
        c.entries@[i].language == c.entries@[j].language,
        c.entries@[i].pattern@ == c.entries@[j].pattern@,
    ensures
        i == j,
{
}

/// An input that indexing must accept in full: readable, of a recognized
/// extension, valid UTF-8, and parsed without failure.
pub open spec fn indexable(inp: FileInputView) -> bool {
    &&& inp.content is Ok
    &&& match crate::paths::spec_extension(inp.path) {
        Some(e) => match crate::spec_language_of_extension(engine::lower_of(e)) {
            Some(lang) => {
                &&& vstd::utf8::valid_utf8(inp.content->Ok_0)
                &&& engine::parse_failure(lang, inp.content->Ok_0) is None
            },
            None => false,
        },
        None => false,
    }
}

/// An input that is readable but carries no recognized extension.
pub open spec fn unsupported_input(inp: FileInputView) -> bool {
    &&& inp.content is Ok
    &&& match crate::paths::spec_extension(inp.path) {
        Some(e) => crate::spec_language_of_extension(engine::lower_of(e)) is None,
        None => true,
    }
}

/// Every file indexed from scratch carries the path of one of the inputs.
proof fn lemma_indexed_paths(inputs: Seq<FileInputView>, t: int)
    requires
        0 <= t < spec_index_files(Seq::empty(), inputs).0.len(),
    ensures
        exists|i: int|
            0 <= i < inputs.len() && (#[trigger] inputs[i]).path == spec_index_files(
                Seq::empty(),
                inputs,
            ).0[t].path,
    decreases inputs.len(),
{
    if inputs.len() > 0 {
        let prev = spec_index_files(Seq::empty(), inputs.drop_last());
        match file_outcome(prev.0, inputs.last()) {
            Ok(Some(fv)) => {
                if t < prev.0.len() {
                    lemma_indexed_paths(inputs.drop_last(), t);
                    let i = choose|i: int|
                        0 <= i < inputs.drop_last().len() && (#[trigger] inputs.drop_last()[i]).path
                            == prev.0[t].path;
                    assert(inputs[i].path == spec_index_files(Seq::empty(), inputs).0[t].path);
                } else {
                    assert(fv.path == inputs[inputs.len() - 1].path);
                    assert(inputs[inputs.len() - 1].path == spec_index_files(
                        Seq::empty(),
                        inputs,
                    ).0[t].path);
                }
            },
            _ => {
                lemma_indexed_paths(inputs.drop_last(), t);
                let i = choose|i: int|
                    0 <= i < inputs.drop_last().len() && (#[trigger] inputs.drop_last()[i]).path
                        == prev.0[t].path;
                assert(inputs[i].path == spec_index_files(Seq::empty(), inputs).0[t].path);
            },
        }
    }
}

/// Indexing a set of pairwise-distinct, fully indexable inputs from scratch
/// stores one file per input and collects no error.
proof fn lemma_all_indexable(inputs: Seq<FileInputView>)
    requires
        forall|a: int, b: int|
            0 <= a < b < inputs.len() ==> (#[trigger] inputs[a]).path != (
            #[trigger] inputs[b]).path,
        forall|i: int| 0 <= i < inputs.len() ==> indexable(#[trigger] inputs[i]),
    ensures
        spec_index_files(Seq::empty(), inputs).0.len() == inputs.len(),
        spec_index_files(Seq::empty(), inputs).1 == Seq::<ErrorView>::empty(),
    decreases inputs.len(),
{
    if inputs.len() > 0 {
        lemma_all_indexable(inputs.drop_last());
        let prev = spec_index_files(Seq::empty(), inputs.drop_last());
        let last = inputs.last();
        let ext = crate::paths::spec_extension(last.path)->0;
        let lang = crate::spec_language_of_extension(engine::lower_of(ext))->0;
        let fv = IndexedFileView {
            recognized_language: lang,
            extension: ext,
            content: last.content->Ok_0,
            path: last.path,
            name: crate::paths::spec_file_name(last.path),
        };
        assert(!has_path(prev.0, last.path)) by {
            if has_path(prev.0, last.path) {
                let t = choose|t: int| 0 <= t < prev.0.len() && (#[trigger] prev.0[t]).path == last.path;
                lemma_indexed_paths(inputs.drop_last(), t);
                let i = choose|i: int|
                    0 <= i < inputs.drop_last().len() && (#[trigger] inputs.drop_last()[i]).path
                        == prev.0[t].path;
                assert(inputs[i].path == inputs[inputs.len() - 1].path);
            }
        }
        assert(file_outcome(prev.0, last) == Ok::<Option<IndexedFileView>, ErrorView>(Some(fv)));
        assert(spec_index_files(Seq::empty(), inputs).1 =~= Seq::<ErrorView>::empty());
    } else {
        assert(spec_index_files(Seq::empty(), inputs).1 =~= Seq::<ErrorView>::empty());
    }
}

/// Partial-failure tolerance: given inputs with pairwise-distinct paths of
/// which one is readable but unsupported and the rest are fully indexable,
/// indexing from scratch stores every other file and collects exactly one
/// error, referencing the unsupported file's path.
pub proof fn lemma_partial_failure_tolerance(inputs: Seq<FileInputView>, k: int)
    requires
        0 <= k < inputs.len(),
        forall|a: int, b: int|
            0 <= a < b < inputs.len() ==> (#[trigger] inputs[a]).path != (
            #[trigger] inputs[b]).path,
        unsupported_input(inputs[k]),
        forall|i: int| 0 <= i < inputs.len() && i != k ==> indexable(#[trigger] inputs[i]),
    ensures
        spec_index_files(Seq::empty(), inputs).0.len() == inputs.len() - 1,
        spec_index_files(Seq::empty(), inputs).1 == seq![
            ErrorView::Unsupported { path: inputs[k].path },
        ],
    decreases inputs.len(),
{
    let prev = spec_index_files(Seq::empty(), inputs.drop_last());
    let last = inputs.last();
    if k == inputs.len() - 1 {
        lemma_all_indexable(inputs.drop_last());
        assert(!has_path(prev.0, last.path)) by {
            if has_path(prev.0, last.path) {
                let t = choose|t: int| 0 <= t < prev.0.len() && (#[trigger] prev.0[t]).path == last.path;
                lemma_indexed_paths(inputs.drop_last(), t);
                let i = choose|i: int|
                    0 <= i < inputs.drop_last().len() && (#[trigger] inputs.drop_last()[i]).path
                        == prev.0[t].path;
                assert(inputs[i].path == inputs[inputs.len() - 1].path);
            }
        }
        assert(file_outcome(prev.0, last) == Err::<Option<IndexedFileView>, ErrorView>(
            ErrorView::Unsupported { path: last.path },
        ));
        assert(spec_index_files(Seq::empty(), inputs).1 =~= seq![
            ErrorView::Unsupported { path: inputs[k].path },
        ]);
    } else {
        lemma_partial_failure_tolerance(inputs.drop_last(), k);
        let ext = crate::paths::spec_extension(last.path)->0;
        let lang = crate::spec_language_of_extension(engine::lower_of(ext))->0;
        let fv = IndexedFileView {
            recognized_language: lang,
            extension: ext,
            content: last.content->Ok_0,
            path: last.path,
            name: crate::paths::spec_file_name(last.path),
        };
        assert(!has_path(prev.0, last.path)) by {
            if has_path(prev.0, last.path) {
                let t = choose|t: int| 0 <= t < prev.0.len() && (#[trigger] prev.0[t]).path == last.path;
                lemma_indexed_paths(inputs.drop_last(), t);
                let i = choose|i: int|
                    0 <= i < inputs.drop_last().len() && (#[trigger] inputs.drop_last()[i]).path
                        == prev.0[t].path;
                assert(inputs[i].path == inputs[inputs.len() - 1].path);
            }
        }
        assert(file_outcome(prev.0, last) == Ok::<Option<IndexedFileView>, ErrorView>(Some(fv)));
        assert(spec_index_files(Seq::empty(), inputs).1 == prev.1);
    }
}

/// Per-match half of the capture-filtering law.
proof fn lemma_match_captures_named(
    path: Seq<char>,
    names: Seq<Seq<char>>,
    content: Seq<u8>,
    rcs: Seq<engine::RawCapture>,
)
    ensures
        forall|ci: int|
            0 <= ci < process::spec_match(path, names, content, rcs).0.len() ==> names.contains(
                (#[trigger] process::spec_match(path, names, content, rcs).0[ci]).name,
            ),
    decreases rcs.len(),
{
    if rcs.len() > 0 {
        lemma_match_captures_named(path, names, content, rcs.drop_last());
        let prev = process::spec_match(path, names, content, rcs.drop_last());
        match process::spec_capture(path, names, content, rcs.last()) {
            Some(Ok(cv)) => {
                let rc = rcs.last();
                assert(cv.name == names[rc.capture_index as int]);
                assert(names.contains(cv.name));
                assert forall|ci: int|
                    0 <= ci < process::spec_match(path, names, content, rcs).0.len() implies names.contains(
                    (#[trigger] process::spec_match(path, names, content, rcs).0[ci]).name,
                ) by {
                    if ci < prev.0.len() {
                        assert(process::spec_match(path, names, content, rcs).0[ci] == prev.0[ci]);
                    }
                }
            },
            _ => {},
        }
    }
}

/// Per-file half of the capture-filtering law.
proof fn lemma_file_captures_named(
    path: Seq<char>,
    names: Seq<Seq<char>>,
    content: Seq<u8>,
    raw: Seq<Seq<engine::RawCapture>>,
)
    ensures
        forall|mi: int, ci: int|
            0 <= mi < process::spec_file_matches(path, names, content, raw).0.len() && 0 <= ci
                < process::spec_file_matches(path, names, content, raw).0[mi].len()
                ==> names.contains(
                #[trigger] process::spec_file_matches(path, names, content, raw).0[mi][ci].name,
            ),
    decreases raw.len(),
{
    if raw.len() > 0 {
        lemma_file_captures_named(path, names, content, raw.drop_last());
        lemma_match_captures_named(path, names, content, raw.last());
        let prev = process::spec_file_matches(path, names, content, raw.drop_last());
        let m = process::spec_match(path, names, content, raw.last());
        assert forall|mi: int, ci: int|
            0 <= mi < process::spec_file_matches(path, names, content, raw).0.len() && 0 <= ci
                < process::spec_file_matches(path, names, content, raw).0[mi].len() implies names.contains(
            #[trigger] process::spec_file_matches(path, names, content, raw).0[mi][ci].name,
        ) by {
            if mi < prev.0.len() {
                assert(process::spec_file_matches(path, names, content, raw).0[mi] == prev.0[mi]);
            } else {
                assert(process::spec_file_matches(path, names, content, raw).0[mi] == m.0);
            }
        }
    }
}

/// Capture filtering: a normalized capture of one file's execution always
/// bears a name the compiled pattern declares; anonymous captures never
/// appear, whatever the pattern and the file.
pub proof fn lemma_captures_named(
    qname: Seq<char>,
    pattern: Seq<char>,
    f: IndexedFileView,
    mi: int,
    ci: int,
)
    requires
        0 <= mi < spec_execute_file(qname, pattern, f).0.matches.len(),
        0 <= ci < spec_execute_file(qname, pattern, f).0.matches[mi].len(),
    ensures
        engine::capture_names_of(f.recognized_language, pattern).contains(
            spec_execute_file(qname, pattern, f).0.matches[mi][ci].name,
        ),
{
    match engine::compile_failure(f.recognized_language, pattern) {
        Some(m) => {},
        None => {
            let names = engine::capture_names_of(f.recognized_language, pattern);
            let raw = engine::ts_matches(f.recognized_language, pattern, f.content);
            lemma_file_captures_named(f.path, names, f.content, raw);
        },
    }
}

/// An execution's result holds one per-file entry, in file order, each the
/// per-file execution of that file.
pub proof fn lemma_execute_per_file(
    qname: Seq<char>,
    pattern: Seq<char>,
    files: Seq<IndexedFileView>,
    fi: int,
)
    requires
        0 <= fi < files.len(),
    ensures
        spec_execute(qname, pattern, files).0.len() == files.len(),
        spec_execute(qname, pattern, files).0[fi] == spec_execute_file(
            qname,
            pattern,
            files[fi],
        ).0,
    decreases files.len(),
{
    if files.len() > 1 {
        let prev_fi: int = if fi < files.len() - 1 {
            fi
        } else {
            0
        };
        lemma_execute_per_file(qname, pattern, files.drop_last(), prev_fi);
    } else {
        assert(spec_execute(qname, pattern, files.drop_last()).0.len() == 0);
    }
}

/// Capture filtering over a whole execution: every capture of every match of
/// every per-file result bears a name that the pattern declares for that
/// file's language.
pub proof fn lemma_no_anonymous_captures(
    qname: Seq<char>,
    pattern: Seq<char>,
    files: Seq<IndexedFileView>,
    fi: int,
    mi: int,
    ci: int,
)
    requires
        0 <= fi < files.len(),
        0 <= mi < spec_execute(qname, pattern, files).0[fi].matches.len(),
        0 <= ci < spec_execute(qname, pattern, files).0[fi].matches[mi].len(),
    ensures
        engine::capture_names_of(files[fi].recognized_language, pattern).contains(
            spec_execute(qname, pattern, files).0[fi].matches[mi][ci].name,
        ),
{
    lemma_execute_per_file(qname, pattern, files, fi);
    lemma_captures_named(qname, pattern, files[fi], mi, ci);
}

/// A pattern that fails to compile for one file's language is contained:
/// that file contributes an empty result (beside one error naming the query
/// and the language, per [`spec_execute_file`]), and every file's entry —
/// the failing one's siblings included — is still exactly the spec execution
/// of that file alone. The executor borrows the indexer immutably and its
/// result never depends on the shared compilation cache's state, so sibling
/// queries of a failing query run over an intact index.
pub proof fn lemma_failed_pattern_is_contained(
    qname: Seq<char>,
    pattern: Seq<char>,
    files: Seq<IndexedFileView>,
    fi: int,
)
    requires
        0 <= fi < files.len(),
        engine::compile_failure(files[fi].recognized_language, pattern) is Some,
    ensures
        spec_execute(qname, pattern, files).0[fi].matches.len() == 0,
        forall|fj: int|
            0 <= fj < files.len() ==> #[trigger] spec_execute(qname, pattern, files).0[fj]
                == spec_execute_file(qname, pattern, files[fj]).0,
{
    assert forall|fj: int|
        0 <= fj < files.len() implies #[trigger] spec_execute(qname, pattern, files).0[fj]
        == spec_execute_file(qname, pattern, files[fj]).0 by {
        lemma_execute_per_file(qname, pattern, files, fj);
    }
}

/// One capture's serialization-independent content: where it was found, what
/// it captured, and the covered text with its positions.
#[verifier::ext_equal]
pub ghost struct CaptureTuple {
    pub path: Seq<char>,
    pub capture: Seq<char>,
    pub text: Seq<char>,
    pub start_column: int,
    pub start_line: int,
    pub end_column: int,
    pub end_line: int,
}

/// The tuple a CSV row carries.
pub open spec fn tuple_of_row(r: csv::CsvRowView) -> CaptureTuple {
    CaptureTuple {
        path: r.path,
        capture: r.capture,
        text: r.text,
        start_column: r.start_column,
        start_line: r.start_line,
        end_column: r.end_column,
        end_line: r.end_line,
    }
}

/// The tuple a normalized capture carries.
pub open spec fn tuple_of_capture(path: Seq<char>, c: out::CaptureView) -> CaptureTuple {
    CaptureTuple {
        path: path,
        capture: c.name,
        text: c.text,
        start_column: c.start_column,
        start_line: c.start_line,
        end_column: c.end_column,
        end_line: c.end_line,
    }
}

/// The tuples of a row list, in order.
pub open spec fn tuples_of_rows(rows: Seq<csv::CsvRowView>) -> Seq<CaptureTuple> {
    rows.map_values(|r: csv::CsvRowView| tuple_of_row(r))
}

/// The tuples of one match's captures, in order.
pub open spec fn tuples_of_captures(path: Seq<char>, cs: Seq<out::CaptureView>) -> Seq<
    CaptureTuple,
> {
    cs.map_values(|c: out::CaptureView| tuple_of_capture(path, c))
}

/// The tuples of one file's matches, in order.
pub open spec fn tuples_of_matches(path: Seq<char>, ms: Seq<Seq<out::CaptureView>>) -> Seq<
    CaptureTuple,
>
    decreases ms.len(),
{
    if ms.len() == 0 {
        Seq::empty()
    } else {
        tuples_of_matches(path, ms.drop_last()) + tuples_of_captures(path, ms.last())
    }
}

/// The tuples of a whole result set, in order.
pub open spec fn tuples_of_queries(qs: Seq<out::QueryView>) -> Seq<CaptureTuple>
    decreases qs.len(),
{
    if qs.len() == 0 {
        Seq::empty()
    } else {
        tuples_of_queries(qs.drop_last()) + tuples_of_matches(qs.last().path, qs.last().matches)
    }
}

/// `tuples_of_rows` distributes over concatenation.
proof fn lemma_tuples_of_rows_concat(a: Seq<csv::CsvRowView>, b: Seq<csv::CsvRowView>)
    ensures
        tuples_of_rows(a + b) == tuples_of_rows(a) + tuples_of_rows(b),
{
    assert(tuples_of_rows(a + b) =~= tuples_of_rows(a) + tuples_of_rows(b));
}

/// The rows of one match carry exactly its captures' tuples.
proof fn lemma_match_rows_tuples(
    name: Seq<char>,
    path: Seq<char>,
    mi: int,
    cs: Seq<out::CaptureView>,
)
    ensures
        tuples_of_rows(csv::spec_rows_of_match(name, path, mi, cs)) == tuples_of_captures(
            path,
            cs,
        ),
{
    assert(tuples_of_rows(csv::spec_rows_of_match(name, path, mi, cs)) =~= tuples_of_captures(
        path,
        cs,
    ));
}

/// The rows of one file's matches carry exactly its tuples.
proof fn lemma_matches_rows_tuples(name: Seq<char>, path: Seq<char>, ms: Seq<Seq<out::CaptureView>>)
    ensures
        tuples_of_rows(csv::spec_rows_of_matches(name, path, ms)) == tuples_of_matches(path, ms),
    decreases ms.len(),
{
    if ms.len() > 0 {
        lemma_matches_rows_tuples(name, path, ms.drop_last());
        lemma_match_rows_tuples(name, path, ms.len() - 1, ms.last());
        lemma_tuples_of_rows_concat(
            csv::spec_rows_of_matches(name, path, ms.drop_last()),
            csv::spec_rows_of_match(name, path, ms.len() - 1, ms.last()),
        );
    } else {
        assert(tuples_of_rows(csv::spec_rows_of_matches(name, path, ms)) =~= tuples_of_matches(
            path,
            ms,
        ));
    }
}

/// The CSV rows of a result set carry exactly its tuples, in the same order.
pub proof fn lemma_csv_rows_tuples(qs: Seq<out::QueryView>)
    ensures
        tuples_of_rows(csv::spec_rows_of_queries(qs)) == tuples_of_queries(qs),
    decreases qs.len(),
{
    if qs.len() > 0 {
        lemma_csv_rows_tuples(qs.drop_last());
        lemma_matches_rows_tuples(qs.last().name, qs.last().path, qs.last().matches);
        lemma_tuples_of_rows_concat(
            csv::spec_rows_of_queries(qs.drop_last()),
            csv::spec_rows_of_query(qs.last()),
        );
    } else {
        assert(tuples_of_rows(csv::spec_rows_of_queries(qs)) =~= tuples_of_queries(qs));
    }
}

/// Dropping zero-match files changes no tuple: what the JSON emitter
/// serializes carries exactly the result set's tuples.
pub proof fn lemma_json_tuples(qs: Seq<out::QueryView>, require_matches: bool)
    ensures
        tuples_of_queries(out::spec_json_queries(qs, require_matches)) == tuples_of_queries(qs),
    decreases qs.len(),
{
    if require_matches && qs.len() > 0 {
        lemma_json_tuples(qs.drop_last(), true);
        let prev = out::spec_json_queries(qs.drop_last(), true);
        if qs.last().matches.len() == 0 {
            assert(tuples_of_matches(qs.last().path, qs.last().matches) =~= Seq::<
                CaptureTuple,
            >::empty());
            assert(tuples_of_queries(qs) =~= tuples_of_queries(qs.drop_last()));
        } else {
            assert(prev.push(qs.last()).drop_last() =~= prev);
            assert(prev.push(qs.last()).last() == qs.last());
        }
    }
}

/// Round-trip: the CSV and JSON emitters, given the same result set, carry
/// the same multiset of (path, capture name, text, position) tuples — the
/// serialization format differs, the content does not.
pub proof fn lemma_csv_json_round_trip(qs: Seq<out::QueryView>, require_matches: bool)
    ensures
        tuples_of_rows(csv::spec_rows_of_queries(qs)).to_multiset() == tuples_of_queries(
            out::spec_json_queries(qs, require_matches),
        ).to_multiset(),
{
    lemma_csv_rows_tuples(qs);
    lemma_json_tuples(qs, require_matches);
}

/// Idempotence: two executions of one query against one unmodified file set
/// yield identical results and identical collected errors — execution is a
/// function of the query and the files alone.
pub proof fn lemma_execute_idempotent(
    qname: Seq<char>,
    pattern: Seq<char>,
    files: Seq<IndexedFileView>,
    r1: (Seq<out::QueryView>, Seq<ErrorView>),
    r2: (Seq<out::QueryView>, Seq<ErrorView>),
)
    requires
        r1 == spec_execute(qname, pattern, files),
        r2 == spec_execute(qname, pattern, files),
    ensures
        r1 == r2,
{
}

} // verus!
