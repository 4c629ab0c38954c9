//! Query processing: the file indexer, the per-(language, pattern) compiler
//! cache, and the query executor that turns raw engine matches into the
//! normalized result shape.
use vstd::prelude::*;

pub mod index;

verus! {

use crate::AntennaError;
use crate::engine;
use crate::out;
use crate::process::index::Indexer;
use crate::process::index::IndexedFile;
use crate::process::index::IndexedFileView;
use crate::process::index::find_query;

/// One compilation the cache performed: the (language, pattern) key and what
/// came of it — the compiled matcher, or the compiler's error description.
pub struct CacheEntry {
    pub language: crate::RecognizedLanguage,
    pub pattern: String,
    pub outcome: Result<engine::CompiledPattern, String>,
}

impl CacheEntry {
    /// The outcome is exactly what compiling this entry's key yields.
    pub open spec fn wf(self) -> bool {
        match self.outcome {
            Ok(q) => engine::query_lang(q) == self.language && engine::query_pattern(q)
                == self.pattern@ && engine::compile_failure(self.language, self.pattern@) is None,
            Err(m) => engine::compile_failure(self.language, self.pattern@) == Some(m@),
        }
    }

    /// Whether this entry's key is (`language`, `pattern`).
    pub open spec fn has_key(self, language: crate::RecognizedLanguage, pattern: Seq<char>) -> bool {
        self.language == language && self.pattern@ == pattern
    }
}

/// The first cache index whose key is (`language`, `pattern`), or -1.
pub open spec fn find_entry(
    entries: Seq<CacheEntry>,
    language: crate::RecognizedLanguage,
    pattern: Seq<char>,
) -> int
    decreases entries.len(),
{
    if entries.len() == 0 {
        -1
    } else if entries.first().has_key(language, pattern) {
        0
    } else {
        let rest = find_entry(entries.drop_first(), language, pattern);
        if rest == -1 {
            -1
        } else {
            rest + 1
        }
    }
}

/// `find_entry` returns the first match.
proof fn lemma_find_entry_at(
    entries: Seq<CacheEntry>,
    language: crate::RecognizedLanguage,
    pattern: Seq<char>,
    t: int,
)
    requires
        0 <= t < entries.len(),
        entries[t].has_key(language, pattern),
        forall|s: int| 0 <= s < t ==> !(#[trigger] entries[s]).has_key(language, pattern),
    ensures
        find_entry(entries, language, pattern) == t,
    decreases t,
{
    if t > 0 {
        lemma_find_entry_at(entries.drop_first(), language, pattern, t - 1);
    }
}

/// `find_entry` returns -1 exactly when no entry matches.
proof fn lemma_find_entry_none(
    entries: Seq<CacheEntry>,
    language: crate::RecognizedLanguage,
    pattern: Seq<char>,
)
    requires
        forall|s: int|
            0 <= s < entries.len() ==> !(#[trigger] entries[s]).has_key(language, pattern),
    ensures
        find_entry(entries, language, pattern) == -1,
    decreases entries.len(),
{
    if entries.len() > 0 {
        lemma_find_entry_none(entries.drop_first(), language, pattern);
    }
}

/// The per-run compilation cache: one entry per (language, pattern) pair ever
/// compiled, so the same pair is never handed to the compiler twice.
pub struct QueryCache {
    pub entries: Vec<CacheEntry>,
}

impl QueryCache {
    /// Every entry's outcome belongs to its key, and no two entries share a key.
    pub open spec fn wf(self) -> bool {
        &&& forall|i: int| 0 <= i < self.entries@.len() ==> (#[trigger] self.entries@[i]).wf()
        &&& forall|i: int, j: int|
            0 <= i < j < self.entries@.len() ==> !((#[trigger] self.entries@[i]).language == (
            #[trigger] self.entries@[j]).language && self.entries@[i].pattern@
                == self.entries@[j].pattern@)
    }

    /// An empty cache.
    pub fn new() -> (r: Self)
        ensures
            r.wf(),
            r.entries@.len() == 0,
    {
        QueryCache { entries: Vec::new() }
    }

    /// The cache slot holding the compilation of `pattern` for `language`.
    /// When the key is already cached the cache is left untouched, so each
    /// (language, pattern) pair is compiled exactly once across a run.
    pub fn compile_for(&mut self, language: crate::RecognizedLanguage, pattern: &str) -> (idx:
        usize)
        requires
            old(self).wf(),
        ensures
            final(self).wf(),
            idx < final(self).entries@.len(),
            final(self).entries@[idx as int].has_key(language, pattern@),
            find_entry(old(self).entries@, language, pattern@) >= 0 ==> *final(self) == *old(self)
                && idx as int == find_entry(old(self).entries@, language, pattern@),
            find_entry(old(self).entries@, language, pattern@) == -1 ==> (idx as int == old(
                self,
            ).entries@.len() && final(self).entries@.len() == old(self).entries@.len() + 1
                && final(self).entries@.drop_last() == old(self).entries@),
    {
        let mut t: usize = 0;
        while t < self.entries.len()
            invariant
                *self == *old(self),
                self.wf(),
                t <= self.entries@.len(),
                forall|s: int|
                    0 <= s < t as int ==> !(#[trigger] self.entries@[s]).has_key(
                        language,
                        pattern@,
                    ),
            decreases self.entries@.len() - t,
        {
            let e = &self.entries[t];
            if e.language == language && crate::str_eq(e.pattern.as_str(), pattern) {
                proof {
                    lemma_find_entry_at(self.entries@, language, pattern@, t as int);
                }
                return t;
            }
            t = t + 1;
        }
        proof {
            lemma_find_entry_none(self.entries@, language, pattern@);
        }
        let outcome = engine::compile_pattern(language, pattern);
        let entry = CacheEntry { language, pattern: pattern.to_owned(), outcome };
        let idx = self.entries.len();
        proof {
            assert(self.entries@.push(entry).drop_last() =~= self.entries@);
            assert forall|i: int, j: int|
                0 <= i < j < self.entries@.push(entry).len() implies !((
            #[trigger] self.entries@.push(entry)[i]).language == (
            #[trigger] self.entries@.push(entry)[j]).language && self.entries@.push(
                entry,
            )[i].pattern@ == self.entries@.push(entry)[j].pattern@) by {
                if j == self.entries@.len() as int {
                    assert(!self.entries@[i].has_key(language, pattern@));
                }
            }
        }
        self.entries.push(entry);
        idx
    }
}

/// What one raw capture contributes to a normalized match: nothing when the
/// pattern declares no name for its capture index (anonymous captures are
/// filtered out); the decode error when its byte range cannot be read as
/// UTF-8 text of the file; else the normalized capture.
pub open spec fn spec_capture(
    path: Seq<char>,
    names: Seq<Seq<char>>,
    content: Seq<u8>,
    rc: engine::RawCapture,
) -> Option<Result<out::CaptureView, crate::ErrorView>> {
    if rc.capture_index >= names.len() {
        None
    } else if !(rc.start_byte <= rc.end_byte && rc.end_byte <= content.len()) {
        Some(Err(crate::ErrorView::FromUtf8 { path }))
    } else if !vstd::utf8::valid_utf8(
        content.subrange(rc.start_byte as int, rc.end_byte as int),
    ) {
        Some(Err(crate::ErrorView::FromUtf8 { path }))
    } else {
        Some(
            Ok(
                out::CaptureView {
                    text: vstd::utf8::decode_utf8(
                        content.subrange(rc.start_byte as int, rc.end_byte as int),
                    ),
                    name: names[rc.capture_index as int],
                    start_column: rc.start_column as int,
                    start_line: rc.start_row as int,
                    end_column: rc.end_column as int,
                    end_line: rc.end_row as int,
                },
            ),
        )
    }
}

/// Fold of [`spec_capture`] over one raw match: the kept captures and the
/// per-capture errors, each in the engine's order.
pub open spec fn spec_match(
    path: Seq<char>,
    names: Seq<Seq<char>>,
    content: Seq<u8>,
    rcs: Seq<engine::RawCapture>,
) -> (Seq<out::CaptureView>, Seq<crate::ErrorView>)
    decreases rcs.len(),
{
    if rcs.len() == 0 {
        (Seq::empty(), Seq::empty())
    } else {
        let prev = spec_match(path, names, content, rcs.drop_last());
        match spec_capture(path, names, content, rcs.last()) {
            None => prev,
            Some(Ok(cv)) => (prev.0.push(cv), prev.1),
            Some(Err(ev)) => (prev.0, prev.1.push(ev)),
        }
    }
}

/// Fold of [`spec_match`] over the raw matches of one file.
pub open spec fn spec_file_matches(
    path: Seq<char>,
    names: Seq<Seq<char>>,
    content: Seq<u8>,
    raw: Seq<Seq<engine::RawCapture>>,
) -> (Seq<Seq<out::CaptureView>>, Seq<crate::ErrorView>)
    decreases raw.len(),
{
    if raw.len() == 0 {
        (Seq::empty(), Seq::empty())
    } else {
        let prev = spec_file_matches(path, names, content, raw.drop_last());
        let m = spec_match(path, names, content, raw.last());
        (prev.0.push(m.0), prev.1 + m.1)
    }
}

/// The result and errors of one query over one file: a file whose language
/// cannot compile the pattern contributes an empty result and one error
/// naming the query and the language; otherwise the engine's matches,
/// normalized per [`spec_file_matches`].
pub open spec fn spec_execute_file(
    qname: Seq<char>,
    pattern: Seq<char>,
    f: IndexedFileView,
) -> (out::QueryView, Seq<crate::ErrorView>) {
    match engine::compile_failure(f.recognized_language, pattern) {
        Some(m) => (
            out::QueryView { name: qname, path: f.path, matches: Seq::empty() },
            seq![
                crate::ErrorView::Query {
                    query_name: qname,
                    language: f.recognized_language,
                    message: m,
                },
            ],
        ),
        None => {
            let names = engine::capture_names_of(f.recognized_language, pattern);
            let raw = engine::ts_matches(f.recognized_language, pattern, f.content);
            let fm = spec_file_matches(f.path, names, f.content, raw);
            (out::QueryView { name: qname, path: f.path, matches: fm.0 }, fm.1)
        },
    }
}

/// Fold of [`spec_execute_file`] over a file sequence: one per-file result
/// each, and the collected errors, in file order.
pub open spec fn spec_execute(qname: Seq<char>, pattern: Seq<char>, files: Seq<IndexedFileView>) -> (
    Seq<out::QueryView>,
    Seq<crate::ErrorView>,
)
    decreases files.len(),
{
    if files.len() == 0 {
        (Seq::empty(), Seq::empty())
    } else {
        let prev = spec_execute(qname, pattern, files.drop_last());
        let one = spec_execute_file(qname, pattern, files.last());
        (prev.0.push(one.0), prev.1 + one.1)
    }
}

/// The identity views of the files the indexer associates with `name`: those
/// of the first query recorded under that name, or none.
pub open spec fn spec_files_for(indexer: Indexer, name: Seq<char>) -> Seq<IndexedFileView> {
    let t = find_query(indexer.queries@, name);
    if t == -1 {
        Seq::empty()
    } else {
        indexer.queries@[t].file_ids@.map_values(|id: usize| indexer.files@[id as int]@)
    }
}

/// The bytes of `v` from `start` (inclusive) to `end` (exclusive).
fn copy_range(v: &Vec<u8>, start: usize, end: usize) -> (r: Vec<u8>)
    requires
        start <= end <= v@.len(),
    ensures
        r@ == v@.subrange(start as int, end as int),
{
    let mut r: Vec<u8> = Vec::new();
    let mut i: usize = start;
    while i < end
        invariant
            start <= i <= end <= v@.len(),
            r@.len() == i - start,
            forall|j: int| 0 <= j < r@.len() ==> r@[j] == v@[start as int + j],
        decreases end - i,
    {
        r.push(v[i]);
        i = i + 1;
    }
    proof {
        assert(r@ =~= v@.subrange(start as int, end as int));
    }
    r
}

/// Runs one compiled pattern over one indexed file and normalizes the raw
/// matches: anonymous captures are dropped, and a capture whose bytes cannot
/// be decoded costs one error, never the surrounding match.
fn execute_on_file(
    query_name: &str,
    pattern: &str,
    f: &IndexedFile,
    q: &engine::CompiledPattern,
) -> (r: (out::Query, Vec<AntennaError>))
    requires
        f.wf(),
        engine::query_lang(*q) == f.recognized_language,
        engine::query_pattern(*q) == pattern@,
        engine::compile_failure(f.recognized_language, pattern@) is None,
    ensures
        r.0@ == spec_execute_file(query_name@, pattern@, f@).0,
        crate::views_of_errors(r.1@) == spec_execute_file(query_name@, pattern@, f@).1,
        forall|t: int| 0 <= t < r.1@.len() ==> !((#[trigger] r.1@[t]) is Collection),
{
    let names = engine::query_capture_names(q);
    let raw = engine::run_compiled(q, &f.tree, &f.content);
    let ghost namesd = names.deep_view();
    let ghost rawv = engine::raw_views(raw);
    proof {
        assert(rawv == engine::ts_matches(f.recognized_language, pattern@, f.content@));
        assert(namesd == engine::capture_names_of(f.recognized_language, pattern@));
    }
    let mut matches: Vec<out::Match> = Vec::new();
    let mut errors: Vec<AntennaError> = Vec::new();
    let mut mi: usize = 0;
    proof {
        assert(rawv.take(0) =~= Seq::<Seq<engine::RawCapture>>::empty());
        assert(matches@.map_values(|m: out::Match| m@) =~= spec_file_matches(
            f.path@,
            namesd,
            f.content@,
            rawv.take(0),
        ).0);
        assert(crate::views_of_errors(errors@) =~= spec_file_matches(
            f.path@,
            namesd,
            f.content@,
            rawv.take(0),
        ).1);
    }
    while mi < raw.len()
        invariant
            mi <= raw@.len(),
            f.wf(),
            rawv == engine::raw_views(raw),
            rawv.len() == raw@.len(),
            namesd == names.deep_view(),
            namesd.len() == names@.len(),
            matches@.map_values(|m: out::Match| m@) == spec_file_matches(
                f.path@,
                namesd,
                f.content@,
                rawv.take(mi as int),
            ).0,
            crate::views_of_errors(errors@) == spec_file_matches(
                f.path@,
                namesd,
                f.content@,
                rawv.take(mi as int),
            ).1,
            forall|t: int| 0 <= t < errors@.len() ==> !((#[trigger] errors@[t]) is Collection),
        decreases raw@.len() - mi,
    {
        let ghost pre = spec_file_matches(f.path@, namesd, f.content@, rawv.take(mi as int));
        let cs = &raw[mi];
        proof {
            assert(rawv[mi as int] == raw@[mi as int]@);
            assert(rawv.take(mi as int + 1).drop_last() =~= rawv.take(mi as int));
            assert(rawv.take(mi as int + 1).last() == rawv[mi as int]);
        }
        let mut captures: Vec<out::Capture> = Vec::new();
        let mut ci: usize = 0;
        proof {
            assert(cs@.take(0) =~= Seq::<engine::RawCapture>::empty());
            assert(captures@.map_values(|c: out::Capture| c@) =~= spec_match(
                f.path@,
                namesd,
                f.content@,
                cs@.take(0),
            ).0);
            assert(crate::views_of_errors(errors@) =~= pre.1 + spec_match(
                f.path@,
                namesd,
                f.content@,
                cs@.take(0),
            ).1);
        }
        while ci < cs.len()
            invariant
                ci <= cs@.len(),
                pre == spec_file_matches(f.path@, namesd, f.content@, rawv.take(mi as int)),
                captures@.map_values(|c: out::Capture| c@) == spec_match(
                    f.path@,
                    namesd,
                    f.content@,
                    cs@.take(ci as int),
                ).0,
                crate::views_of_errors(errors@) == pre.1 + spec_match(
                    f.path@,
                    namesd,
                    f.content@,
                    cs@.take(ci as int),
                ).1,
                forall|t: int| 0 <= t < errors@.len() ==> !((#[trigger] errors@[t]) is Collection),
                namesd == names.deep_view(),
                namesd.len() == names@.len(),
            decreases cs@.len() - ci,
        {
            let rc = cs[ci];
            proof {
                assert(cs@.take(ci as int + 1).drop_last() =~= cs@.take(ci as int));
                assert(cs@.take(ci as int + 1).last() == cs@[ci as int]);
            }
            let ghost stepped = spec_capture(f.path@, namesd, f.content@, cs@[ci as int]);
            if rc.capture_index < names.len() {
                if rc.start_byte <= rc.end_byte && rc.end_byte <= f.content.len() {
                    let bytes = copy_range(&f.content, rc.start_byte, rc.end_byte);
                    match engine::utf8_to_string(bytes) {
                        Some(text) => {
                            let c = out::Capture {
                                text,
                                name: names[rc.capture_index].clone(),
                                start_column: rc.start_column,
                                start_line: rc.start_row,
                                end_column: rc.end_column,
                                end_line: rc.end_row,
                            };
                            proof {
                                assert(namesd[rc.capture_index as int]
                                    == names@[rc.capture_index as int]@);
                                assert(stepped matches Some(Ok(cv)) && c@ == cv);
                                assert(captures@.push(c).map_values(|x: out::Capture| x@)
                                    =~= captures@.map_values(|x: out::Capture| x@).push(c@));
                            }
                            captures.push(c);
                        },
                        None => {
                            let e = AntennaError::FromUtf8 { path: f.path.clone() };
                            proof {
                                assert(crate::views_of_errors(errors@.push(e))
                                    =~= crate::views_of_errors(errors@).push(
                                    crate::flat_error_view(e),
                                ));
                                assert(pre.1 + spec_match(
                                    f.path@,
                                    namesd,
                                    f.content@,
                                    cs@.take(ci as int),
                                ).1.push(crate::flat_error_view(e)) =~= (pre.1 + spec_match(
                                    f.path@,
                                    namesd,
                                    f.content@,
                                    cs@.take(ci as int),
                                ).1).push(crate::flat_error_view(e)));
                            }
                            errors.push(e);
                        },
                    }
                } else {
                    let e = AntennaError::FromUtf8 { path: f.path.clone() };
                    proof {
                        assert(crate::views_of_errors(errors@.push(e)) =~= crate::views_of_errors(
                            errors@,
                        ).push(crate::flat_error_view(e)));
                        assert(pre.1 + spec_match(
                            f.path@,
                            namesd,
                            f.content@,
                            cs@.take(ci as int),
                        ).1.push(crate::flat_error_view(e)) =~= (pre.1 + spec_match(
                            f.path@,
                            namesd,
                            f.content@,
                            cs@.take(ci as int),
                        ).1).push(crate::flat_error_view(e)));
                    }
                    errors.push(e);
                }
            }
            ci = ci + 1;
        }
        proof {
            assert(cs@.take(cs@.len() as int) =~= cs@);
        }
        let m = out::Match { captures };
        proof {
            assert(m@ == spec_match(f.path@, namesd, f.content@, rawv[mi as int]).0);
            assert(matches@.push(m).map_values(|x: out::Match| x@) =~= matches@.map_values(
                |x: out::Match| x@,
            ).push(m@));
        }
        matches.push(m);
        mi = mi + 1;
    }
    proof {
        assert(rawv.take(raw@.len() as int) =~= rawv);
    }
    let oq = out::Query { name: query_name.to_owned(), path: f.path.clone(), matches };
    proof {
        assert(oq@ =~= spec_execute_file(query_name@, pattern@, f@).0);
    }
    (oq, errors)
}

/// Executes one named query over its indexed files, compiling the pattern at
/// most once per language through the shared cache. Per-item failures are
/// collected, never thrown: a language that rejects the pattern costs one
/// error naming the query and the language, and the file contributes an empty
/// result; a capture that cannot be decoded costs one error and never the
/// surrounding match. A query name the indexer does not know yields the empty
/// result set.
pub fn execute_antenna_query(
    antenna_query: &crate::configuration::AntennaQuery,
    indexer: &Indexer,
    cache: &mut QueryCache,
) -> (r: (Vec<out::Query>, Vec<AntennaError>))
    requires
        indexer.wf(),
        old(cache).wf(),
    ensures
        final(cache).wf(),
        out::views_of_queries(r.0@) == spec_execute(
            antenna_query.name@,
            antenna_query.query@,
            spec_files_for(*indexer, antenna_query.name@),
        ).0,
        crate::views_of_errors(r.1@) == spec_execute(
            antenna_query.name@,
            antenna_query.query@,
            spec_files_for(*indexer, antenna_query.name@),
        ).1,
        forall|t: int| 0 <= t < r.1@.len() ==> !((#[trigger] r.1@[t]) is Collection),
{
    let ghost fv = spec_files_for(*indexer, antenna_query.name@);
    let files_opt = indexer.get_files_by_query_name(antenna_query.name.as_str());
    let mut results: Vec<out::Query> = Vec::new();
    let mut errors: Vec<AntennaError> = Vec::new();
    match files_opt {
        None => {
            proof {
                assert(fv =~= Seq::<IndexedFileView>::empty());
                assert(out::views_of_queries(results@) =~= spec_execute(
                    antenna_query.name@,
                    antenna_query.query@,
                    fv,
                ).0);
                assert(crate::views_of_errors(errors@) =~= spec_execute(
                    antenna_query.name@,
                    antenna_query.query@,
                    fv,
                ).1);
            }
            (results, errors)
        },
        Some(files) => {
            let ghost t = find_query(indexer.queries@, antenna_query.name@);
            let ghost ids = indexer.queries@[t].file_ids@;
            proof {
                assert(fv.len() == ids.len());
                assert forall|j: int| 0 <= j < fv.len() implies fv[j] == (*files@[j])@ by {
                    assert(fv[j] == indexer.files@[ids[j] as int]@);
                }
                assert(fv.take(0) =~= Seq::<IndexedFileView>::empty());
                assert(out::views_of_queries(results@) =~= spec_execute(
                    antenna_query.name@,
                    antenna_query.query@,
                    fv.take(0),
                ).0);
                assert(crate::views_of_errors(errors@) =~= spec_execute(
                    antenna_query.name@,
                    antenna_query.query@,
                    fv.take(0),
                ).1);
            }
            let mut i: usize = 0;
            while i < files.len()
                invariant
                    i <= files@.len(),
                    indexer.wf(),
                    cache.wf(),
                    fv == spec_files_for(*indexer, antenna_query.name@),
                    fv.len() == files@.len(),
                    0 <= t < indexer.queries@.len(),
                    ids == indexer.queries@[t].file_ids@,
                    ids.len() == files@.len(),
                    forall|j: int|
                        0 <= j < files@.len() ==> *(#[trigger] files@[j])
                            == indexer.files@[ids[j] as int],
                    forall|j: int| 0 <= j < fv.len() ==> fv[j] == (*files@[j])@,
                    out::views_of_queries(results@) == spec_execute(
                        antenna_query.name@,
                        antenna_query.query@,
                        fv.take(i as int),
                    ).0,
                    crate::views_of_errors(errors@) == spec_execute(
                        antenna_query.name@,
                        antenna_query.query@,
                        fv.take(i as int),
                    ).1,
                    forall|s: int|
                        0 <= s < errors@.len() ==> !((#[trigger] errors@[s]) is Collection),
                decreases files@.len() - i,
            {
                let ghost pre = spec_execute(antenna_query.name@, antenna_query.query@, fv.take(i as int));
                proof {
                    assert(fv.take(i as int + 1).drop_last() =~= fv.take(i as int));
                    assert(fv.take(i as int + 1).last() == fv[i as int]);
                    assert(ids[i as int] < indexer.files@.len());
                    assert(indexer.files@[ids[i as int] as int].wf());
                }
                let f: &IndexedFile = files[i];
                let idx = cache.compile_for(f.recognized_language, antenna_query.query.as_str());
                let entry = &cache.entries[idx];
                proof {
                    assert(entry.wf());
                    assert(entry.has_key(f.recognized_language, antenna_query.query@));
                }
                match &entry.outcome {
                    Err(m) => {
                        let e = AntennaError::Query {
                            query_name: antenna_query.name.clone(),
                            language: f.recognized_language,
                            message: m.clone(),
                        };
                        let oq = out::Query {
                            name: antenna_query.name.clone(),
                            path: f.path.clone(),
                            matches: Vec::new(),
                        };
                        proof {
                            let one = spec_execute_file(
                                antenna_query.name@,
                                antenna_query.query@,
                                fv[i as int],
                            );
                            assert(oq@ =~= one.0);
                            assert(one.1 =~= seq![crate::flat_error_view(e)]);
                            assert(out::views_of_queries(results@.push(oq))
                                =~= out::views_of_queries(results@).push(oq@));
                            assert(crate::views_of_errors(errors@.push(e))
                                =~= crate::views_of_errors(errors@).push(crate::flat_error_view(e)));
                            assert(pre.1.push(crate::flat_error_view(e)) =~= pre.1 + one.1);
                        }
                        results.push(oq);
                        errors.push(e);
                    },
                    Ok(q) => {
                        let (oq, mut errs) = execute_on_file(
                            antenna_query.name.as_str(),
                            antenna_query.query.as_str(),
                            f,
                            q,
                        );
                        proof {
                            let one = spec_execute_file(
                                antenna_query.name@,
                                antenna_query.query@,
                                fv[i as int],
                            );
                            assert(oq@ == one.0);
                            assert(out::views_of_queries(results@.push(oq))
                                =~= out::views_of_queries(results@).push(oq@));
                            assert(crate::views_of_errors(errors@ + errs@)
                                =~= crate::views_of_errors(errors@) + crate::views_of_errors(
                                errs@,
                            ));
                        }
                        results.push(oq);
                        errors.append(&mut errs);
                    },
                }
                i = i + 1;
            }
            proof {
                assert(fv.take(files@.len() as int) =~= fv);
            }
            (results, errors)
        },
    }
}

} // verus!
