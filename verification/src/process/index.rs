//! The file indexer: takes the outcome of each query's glob walk and each
//! candidate file's bytes, reads and parses each path exactly once, collects
//! one typed error per item that cannot be indexed, and records, per query,
//! which indexed files its glob listing names. Indexed files live in one
//! arena that holds at most one file per path; per-query associations are
//! indices into it, so a file discovered under two overlapping globs is
//! stored and parsed once and shared.
use vstd::prelude::*;

verus! {

use crate::AntennaError;

/// What the caller hands the indexer for one candidate path: the path and
/// either the file's bytes or the reading failure's description.
#[derive(Debug)]
pub struct FileInput {
    pub path: String,
    pub content: Result<Vec<u8>, String>,
}

/// The mathematical content of a [`FileInput`].
#[verifier::ext_equal]
pub ghost struct FileInputView {
    pub path: Seq<char>,
    pub content: Result<Seq<u8>, Seq<char>>,
}

impl View for FileInput {
    type V = FileInputView;

    open spec fn view(&self) -> FileInputView {
        FileInputView {
            path: self.path@,
            content: match self.content {
                Ok(b) => Ok(b@),
                Err(m) => Err(m@),
            },
        }
    }
}

/// What one query's glob walk produced: the query's name, the description of
/// a malformed glob expression if the walk could not start, the paths that
/// matched, and the description of each path the walk could not visit.
#[derive(Debug)]
pub struct QueryDiscovery {
    pub query_name: String,
    pub pattern_error: Option<String>,
    pub paths: Vec<String>,
    pub walk_errors: Vec<String>,
}

/// The mathematical content of a [`QueryDiscovery`].
#[verifier::ext_equal]
pub ghost struct QueryDiscoveryView {
    pub query_name: Seq<char>,
    pub pattern_error: Option<Seq<char>>,
    pub paths: Seq<Seq<char>>,
    pub walk_errors: Seq<Seq<char>>,
}

impl View for QueryDiscovery {
    type V = QueryDiscoveryView;

    open spec fn view(&self) -> QueryDiscoveryView {
        QueryDiscoveryView {
            query_name: self.query_name@,
            pattern_error: match self.pattern_error {
                Some(m) => Some(m@),
                None => None,
            },
            paths: self.paths.deep_view(),
            walk_errors: self.walk_errors.deep_view(),
        }
    }
}

/// Represents a file that has been indexed via an [`Indexer`]: read once,
/// recognized by its extension, and parsed once into a syntax tree. The tree
/// is derived from the content and the language; identity and equality leave
/// it out.
#[derive(Debug)]
pub struct IndexedFile {
    pub recognized_language: crate::RecognizedLanguage,
    pub extension: String,
    pub content: Vec<u8>,
    pub path: String,
    pub name: String,
    pub tree: tree_sitter::Tree,
}

/// The identity of an [`IndexedFile`]: every field but the derived tree.
#[verifier::ext_equal]
pub ghost struct IndexedFileView {
    pub recognized_language: crate::RecognizedLanguage,
    pub extension: Seq<char>,
    pub content: Seq<u8>,
    pub path: Seq<char>,
    pub name: Seq<char>,
}

impl View for IndexedFile {
    type V = IndexedFileView;

    open spec fn view(&self) -> IndexedFileView {
        IndexedFileView {
            recognized_language: self.recognized_language,
            extension: self.extension@,
            content: self.content@,
            path: self.path@,
            name: self.name@,
        }
    }
}

impl IndexedFile {
    /// The stored tree is the parse of exactly this content under exactly
    /// this language.
    pub open spec fn wf(self) -> bool {
        &&& crate::engine::tree_lang(self.tree) == self.recognized_language
        &&& crate::engine::tree_source(self.tree) == self.content@
    }
}

impl PartialEq for IndexedFile {
    /// Two indexed files are equal iff language, extension, content, path and
    /// name are equal; the parsed tree is derived and excluded.
    fn eq(&self, other: &Self) -> (r: bool) {
        let fields_eq = self.recognized_language == other.recognized_language
            && crate::str_eq(self.extension.as_str(), other.extension.as_str())
            && crate::bytes_eq(&self.content, &other.content)
            && crate::str_eq(self.path.as_str(), other.path.as_str())
            && crate::str_eq(self.name.as_str(), other.name.as_str());
        proof {
            if fields_eq {
                assert(self@ =~= other@);
            }
        }
        fields_eq
    }
}

impl vstd::std_specs::cmp::PartialEqSpecImpl for IndexedFile {
    open spec fn obeys_eq_spec() -> bool {
        true
    }

    open spec fn eq_spec(&self, other: &Self) -> bool {
        self@ == other@
    }
}

impl Eq for IndexedFile {}

/// The identity views of a file arena, in arena order.
pub open spec fn views_of_files(files: Seq<IndexedFile>) -> Seq<IndexedFileView> {
    files.map_values(|f: IndexedFile| f@)
}

/// One query's association: the query's name and the arena indices of the
/// files its glob listing names.
#[derive(Debug)]
pub struct QueryFiles {
    pub name: String,
    pub file_ids: Vec<usize>,
}

impl QueryFiles {
    /// Every recorded index points into the arena.
    pub open spec fn wf(self, n_files: int) -> bool {
        forall|j: int| 0 <= j < self.file_ids@.len() ==> (#[trigger] self.file_ids@[j]) < n_files
    }
}

/// The indices as mathematical integers.
pub open spec fn ids_of(v: Seq<usize>) -> Seq<int> {
    v.map_values(|u: usize| u as int)
}

/// The index over one run's files: the arena of indexed files and, per query,
/// the arena indices of the files its glob listing names.
#[derive(Debug)]
pub struct Indexer {
    pub files: Vec<IndexedFile>,
    pub queries: Vec<QueryFiles>,
}

impl Indexer {
    /// Every stored file is well formed, no two stored files share their
    /// path — each path is read and parsed exactly once, so two slots never
    /// share an identity either — and every per-query index points into the
    /// arena.
    pub open spec fn wf(self) -> bool {
        &&& forall|k: int| 0 <= k < self.files@.len() ==> (#[trigger] self.files@[k]).wf()
        &&& forall|k1: int, k2: int|
            0 <= k1 < k2 < self.files@.len() ==> (#[trigger] self.files@[k1]).path@ != (
            #[trigger] self.files@[k2]).path@
        &&& forall|i: int|
            0 <= i < self.queries@.len() ==> (#[trigger] self.queries@[i]).wf(
                self.files@.len() as int,
            )
    }
}

impl Default for Indexer {
    /// An empty index.
    fn default() -> (r: Self)
        ensures
            r.wf(),
            r.files@.len() == 0,
            r.queries@.len() == 0,
    {
        Indexer { files: Vec::new(), queries: Vec::new() }
    }
}

/// Whether the arena already holds a file stored under `path`.
pub open spec fn has_path(existing: Seq<IndexedFileView>, path: Seq<char>) -> bool {
    exists|k: int| 0 <= k < existing.len() && (#[trigger] existing[k]).path == path
}

/// What processing one candidate file does to the index: nothing, when the
/// path is already indexed — each path is read and parsed exactly once, so a
/// path named by several overlapping globs collapses to its first reading;
/// one new indexed file; or one collected error.
pub open spec fn file_outcome(existing: Seq<IndexedFileView>, inp: FileInputView) -> Result<
    Option<IndexedFileView>,
    crate::ErrorView,
> {
    if has_path(existing, inp.path) {
        Ok(None)
    } else {
        match inp.content {
            Err(m) => Err(crate::ErrorView::Io { path: inp.path, message: m }),
            Ok(bytes) => match crate::paths::spec_extension(inp.path) {
                None => Err(crate::ErrorView::Unsupported { path: inp.path }),
                Some(ext) => match crate::spec_language_of_extension(
                    crate::engine::lower_of(ext),
                ) {
                    None => Err(crate::ErrorView::Unsupported { path: inp.path }),
                    Some(lang) => {
                        if !vstd::utf8::valid_utf8(bytes) {
                            Err(crate::ErrorView::FromUtf8 { path: inp.path })
                        } else {
                            match crate::engine::parse_failure(lang, bytes) {
                                Some(m) => Err(
                                    crate::ErrorView::Parse { path: inp.path, message: m },
                                ),
                                None => Ok(
                                    Some(
                                        IndexedFileView {
                                            recognized_language: lang,
                                            extension: ext,
                                            content: bytes,
                                            path: inp.path,
                                            name: crate::paths::spec_file_name(inp.path),
                                        },
                                    ),
                                ),
                            }
                        }
                    },
                },
            },
        }
    }
}

/// Left fold of [`file_outcome`] over the candidate files: the arena views
/// after indexing, and the collected per-file errors, in input order.
pub open spec fn spec_index_files(existing: Seq<IndexedFileView>, inputs: Seq<FileInputView>) -> (
    Seq<IndexedFileView>,
    Seq<crate::ErrorView>,
)
    decreases inputs.len(),
{
    if inputs.len() == 0 {
        (existing, Seq::empty())
    } else {
        let prev = spec_index_files(existing, inputs.drop_last());
        match file_outcome(prev.0, inputs.last()) {
            Ok(None) => prev,
            Ok(Some(fv)) => (prev.0.push(fv), prev.1),
            Err(ev) => (prev.0, prev.1.push(ev)),
        }
    }
}

/// The errors one query's discovery collects: one for a malformed glob
/// expression, else one per path its walk could not visit.
pub open spec fn discovery_errors_one(d: QueryDiscoveryView) -> Seq<crate::ErrorView> {
    match d.pattern_error {
        Some(m) => seq![crate::ErrorView::Pattern { query_name: d.query_name, message: m }],
        None => d.walk_errors.map_values(
            |w: Seq<char>| crate::ErrorView::Glob { query_name: d.query_name, message: w },
        ),
    }
}

/// The discovery errors of all queries, in query order.
pub open spec fn discovery_errors(ds: Seq<QueryDiscoveryView>) -> Seq<crate::ErrorView>
    decreases ds.len(),
{
    if ds.len() == 0 {
        Seq::empty()
    } else {
        discovery_errors(ds.drop_last()) + discovery_errors_one(ds.last())
    }
}

/// The arena indices of the files whose path `paths` names, ascending.
pub open spec fn matching_ids(files: Seq<IndexedFileView>, paths: Seq<Seq<char>>) -> Seq<int>
    decreases files.len(),
{
    if files.len() == 0 {
        Seq::empty()
    } else {
        let prev = matching_ids(files.drop_last(), paths);
        if paths.contains(files.last().path) {
            prev.push(files.len() - 1)
        } else {
            prev
        }
    }
}

/// Whether the arena already holds a file stored under `path`.
fn contains_path(files: &Vec<IndexedFile>, path: &str) -> (r: bool)
    ensures
        r == has_path(views_of_files(files@), path@),
{
    let mut k: usize = 0;
    while k < files.len()
        invariant
            k <= files.len(),
            forall|j: int| 0 <= j < k as int ==> (#[trigger] files@[j]).path@ != path@,
        decreases files.len() - k,
    {
        if crate::str_eq(files[k].path.as_str(), path) {
            proof {
                assert(views_of_files(files@)[k as int].path == path@);
            }
            return true;
        }
        k = k + 1;
    }
    proof {
        assert forall|j: int| 0 <= j < views_of_files(files@).len() implies (
        #[trigger] views_of_files(files@)[j]).path != path@ by {
            assert(views_of_files(files@)[j] == files@[j]@);
        }
    }
    false
}

/// The errors one query's discovery collected, per [`discovery_errors_one`].
fn one_discovery_errors(d: &QueryDiscovery) -> (r: Vec<AntennaError>)
    ensures
        crate::views_of_errors(r@) == discovery_errors_one(d@),
        forall|t: int| 0 <= t < r@.len() ==> !((#[trigger] r@[t]) is Collection),
{
    let mut r: Vec<AntennaError> = Vec::new();
    match &d.pattern_error {
        Some(m) => {
            r.push(AntennaError::Pattern {
                query_name: d.query_name.clone(),
                message: m.clone(),
            });
            proof {
                assert(crate::views_of_errors(r@) =~= discovery_errors_one(d@));
            }
        },
        None => {
            let ghost target = discovery_errors_one(d@);
            let mut j: usize = 0;
            proof {
                assert(crate::views_of_errors(r@) =~= target.take(0));
            }
            while j < d.walk_errors.len()
                invariant
                    j <= d.walk_errors.len(),
                    d.pattern_error is None,
                    target == discovery_errors_one(d@),
                    target.len() == d.walk_errors@.len(),
                    crate::views_of_errors(r@) == target.take(j as int),
                    forall|t: int| 0 <= t < r@.len() ==> !((#[trigger] r@[t]) is Collection),
                decreases d.walk_errors.len() - j,
            {
                let e = AntennaError::Glob {
                    query_name: d.query_name.clone(),
                    message: d.walk_errors[j].clone(),
                };
                proof {
                    assert(d@.walk_errors[j as int] == d.walk_errors@[j as int]@);
                    assert(target[j as int] == crate::flat_error_view(e));
                    let pre = crate::views_of_errors(r@);
                    assert(pre.len() == r@.len());
                    assert(pre.len() == j as int);
                    let post = crate::views_of_errors(r@.push(e));
                    assert forall|t: int| 0 <= t <= j as int implies post[t] == target.take(
                        j as int + 1,
                    )[t] by {
                        if t < j as int {
                            assert(r@.push(e)[t] == r@[t]);
                            assert(pre[t] == target.take(j as int)[t]);
                        } else {
                            assert(r@.push(e)[t] == e);
                        }
                    }
                    assert(crate::views_of_errors(r@.push(e)) =~= target.take(j as int + 1));
                }
                r.push(e);
                j = j + 1;
            }
            proof {
                assert(target.take(d.walk_errors@.len() as int) =~= target);
            }
        },
    }
    r
}

/// Indexes one candidate file into the arena, per [`file_outcome`]: an equal
/// file is left alone, a new one is parsed and stored, and a failure is
/// returned as one typed error.
fn index_one_input(files: &mut Vec<IndexedFile>, inp: &FileInput) -> (r: Option<AntennaError>)
    ensures
        file_outcome(views_of_files(old(files)@), inp@) == Ok::<
            Option<IndexedFileView>,
            crate::ErrorView,
        >(None) ==> final(files)@ == old(files)@ && r is None,
        file_outcome(views_of_files(old(files)@), inp@) matches Ok(Some(fv)) ==> (views_of_files(
            final(files)@,
        ) == views_of_files(old(files)@).push(fv) && final(files)@.len() == old(files)@.len() + 1
            && final(files)@.drop_last() == old(files)@ && final(files)@.last().wf() && r is None
            && !has_path(views_of_files(old(files)@), fv.path)),
        file_outcome(views_of_files(old(files)@), inp@) matches Err(ev) ==> (final(files)@ == old(
            files,
        )@ && (r matches Some(e) && crate::flat_error_view(e) == ev && !(e is Collection))),
{
    let ghost v0 = views_of_files(files@);
    if contains_path(files, inp.path.as_str()) {
        return None;
    }
    match &inp.content {
        Err(m) => Some(AntennaError::Io { path: inp.path.clone(), message: m.clone() }),
        Ok(bytes) => {
            match crate::paths::path_extension(inp.path.as_str()) {
                None => Some(AntennaError::Unsupported { path: inp.path.clone() }),
                Some(ext) => {
                    match crate::RecognizedLanguage::from_language_extension(ext.as_str()) {
                        None => Some(AntennaError::Unsupported { path: inp.path.clone() }),
                        Some(lang) => {
                            let name = crate::paths::path_file_name(inp.path.as_str());
                            let ghost fv = IndexedFileView {
                                recognized_language: lang,
                                extension: ext@,
                                content: bytes@,
                                path: inp.path@,
                                name: name@,
                            };
                            match crate::engine::utf8_to_string(crate::bytes_clone(bytes)) {
                                    None => Some(
                                        AntennaError::FromUtf8 { path: inp.path.clone() },
                                    ),
                                    Some(_) => {
                                        match crate::engine::parse_source(lang, bytes) {
                                            Err(m) => Some(
                                                AntennaError::Parse {
                                                    path: inp.path.clone(),
                                                    message: m,
                                                },
                                            ),
                                            Ok(tree) => {
                                                let stored = IndexedFile {
                                                    recognized_language: lang,
                                                    extension: ext,
                                                    content: crate::bytes_clone(bytes),
                                                    path: inp.path.clone(),
                                                    name,
                                                    tree,
                                                };
                                                proof {
                                                    assert(stored@ =~= fv);
                                                    assert(views_of_files(files@.push(stored))
                                                        =~= views_of_files(files@).push(fv));
                                                    assert(files@.push(stored).drop_last()
                                                        =~= files@);
                                                }
                                                files.push(stored);
                                                None
                                            },
                                        }
                                    },
                            }
                        },
                    }
                },
            }
        },
    }
}

/// The arena indices of the files one query's listing names, ascending, per
/// [`matching_ids`]; a query whose glob expression failed names no files.
fn associate_one_query(files: &Vec<IndexedFile>, d: &QueryDiscovery) -> (r: QueryFiles)
    ensures
        r.name@ == d.query_name@,
        ids_of(r.file_ids@) == (if d@.pattern_error is None {
            matching_ids(views_of_files(files@), d@.paths)
        } else {
            Seq::<int>::empty()
        }),
        r.wf(files@.len() as int),
{
    let name = d.query_name.clone();
    if d.pattern_error.is_some() {
        let r = QueryFiles { name, file_ids: Vec::new() };
        proof {
            assert(ids_of(r.file_ids@) =~= Seq::<int>::empty());
        }
        return r;
    }
    let ghost fviews = views_of_files(files@);
    let mut file_ids: Vec<usize> = Vec::new();
    let mut k: usize = 0;
    proof {
        assert(fviews.take(0) =~= Seq::<IndexedFileView>::empty());
        assert(ids_of(file_ids@) =~= matching_ids(fviews.take(0), d@.paths));
    }
    while k < files.len()
        invariant
            k <= files.len(),
            fviews == views_of_files(files@),
            ids_of(file_ids@) == matching_ids(fviews.take(k as int), d@.paths),
            forall|j: int| 0 <= j < file_ids@.len() ==> (#[trigger] file_ids@[j]) < k,
        decreases files.len() - k,
    {
        proof {
            assert(fviews.take(k as int + 1).drop_last() =~= fviews.take(k as int));
            assert(fviews.take(k as int + 1).last() == fviews[k as int]);
            assert(fviews[k as int] == files@[k as int]@);
        }
        if contains_string(&d.paths, files[k].path.as_str()) {
            proof {
                assert(ids_of(file_ids@.push(k)) =~= ids_of(file_ids@).push(k as int));
            }
            file_ids.push(k);
        }
        k = k + 1;
    }
    proof {
        assert(fviews.take(files@.len() as int) =~= fviews);
    }
    QueryFiles { name, file_ids }
}

impl Indexer {
    /// Consumes the [`Indexer`], indexing every candidate file and recording,
    /// per query, which indexed files its glob listing names. Indexing only
    /// adds, never removes: the consumed indexer's files and per-query
    /// associations are all still present in the result, with the new
    /// associations appended after them, one per discovery, over the final
    /// arena. Each path is read and parsed exactly once — a candidate whose
    /// path is already indexed is left alone. Per-item failures are
    /// collected, never thrown: the returned list holds one typed error per
    /// malformed glob expression, per path a walk could not visit, and per
    /// new file that could not be read, recognized, decoded or parsed, in
    /// that phase order.
    pub fn index(self, discoveries: &Vec<QueryDiscovery>, inputs: &Vec<FileInput>) -> (r: (
        Indexer,
        Vec<AntennaError>,
    ))
        requires
            self.wf(),
        ensures
            r.0.wf(),
            views_of_files(r.0.files@) == spec_index_files(
                views_of_files(self.files@),
                inputs@.map_values(|x: FileInput| x@),
            ).0,
            r.0.files@.len() >= self.files@.len(),
            r.0.files@.take(self.files@.len() as int) == self.files@,
            crate::views_of_errors(r.1@) == discovery_errors(
                discoveries@.map_values(|d: QueryDiscovery| d@),
            ) + spec_index_files(
                views_of_files(self.files@),
                inputs@.map_values(|x: FileInput| x@),
            ).1,
            forall|t: int| 0 <= t < r.1@.len() ==> !((#[trigger] r.1@[t]) is Collection),
            r.0.queries@.len() == self.queries@.len() + discoveries@.len(),
            forall|i: int|
                0 <= i < self.queries@.len() ==> (#[trigger] r.0.queries@[i]) == self.queries@[i],
            forall|i: int|
                0 <= i < discoveries@.len() ==> (#[trigger] r.0.queries@[self.queries@.len()
                    + i]).name@ == discoveries@[i].query_name@,
            forall|i: int|
                0 <= i < discoveries@.len() ==> ids_of((#[trigger] r.0.queries@[self.queries@.len()
                    + i]).file_ids@) == (if discoveries@[i]@.pattern_error is None {
                    matching_ids(views_of_files(r.0.files@), discoveries@[i]@.paths)
                } else {
                    Seq::<int>::empty()
                }),
    {
        let ghost files_init = self.files@;
        let ghost q0 = self.queries@;
        let ghost files0 = views_of_files(self.files@);
        let ghost iv = inputs@.map_values(|x: FileInput| x@);
        let ghost dv = discoveries@.map_values(|d: QueryDiscovery| d@);

        let mut files = self.files;
        let mut queries = self.queries;
        let mut errors: Vec<AntennaError> = Vec::new();

        // Discovery-phase errors, in query order.
        let mut i: usize = 0;
        proof {
            assert(dv.take(0) =~= Seq::<QueryDiscoveryView>::empty());
            assert(crate::views_of_errors(errors@) =~= discovery_errors(dv.take(0)));
        }
        while i < discoveries.len()
            invariant
                i <= discoveries.len(),
                dv == discoveries@.map_values(|d: QueryDiscovery| d@),
                dv.len() == discoveries@.len(),
                crate::views_of_errors(errors@) == discovery_errors(dv.take(i as int)),
                forall|t: int| 0 <= t < errors@.len() ==> !((#[trigger] errors@[t]) is Collection),
            decreases discoveries.len() - i,
        {
            let mut batch = one_discovery_errors(&discoveries[i]);
            proof {
                assert(dv[i as int] == discoveries@[i as int]@);
                assert(dv.take(i as int + 1).drop_last() =~= dv.take(i as int));
                assert(dv.take(i as int + 1).last() == dv[i as int]);
                assert(crate::views_of_errors(errors@ + batch@) =~= crate::views_of_errors(errors@)
                    + crate::views_of_errors(batch@));
            }
            errors.append(&mut batch);
            i = i + 1;
        }
        proof {
            assert(dv.take(discoveries@.len() as int) =~= dv);
        }
        let ghost derr = discovery_errors(dv);

        // Per-file indexing, in input order; the arena is only ever extended,
        // never reordered or shrunk.
        let mut j: usize = 0;
        proof {
            assert(iv.take(0) =~= Seq::<FileInputView>::empty());
            assert(files@.take(files_init.len() as int) =~= files_init);
        }
        while j < inputs.len()
            invariant
                j <= inputs.len(),
                iv == inputs@.map_values(|x: FileInput| x@),
                iv.len() == inputs@.len(),
                files0 == views_of_files(files_init),
                derr == discovery_errors(discoveries@.map_values(|d: QueryDiscovery| d@)),
                views_of_files(files@) == spec_index_files(files0, iv.take(j as int)).0,
                files@.len() >= files_init.len(),
                files@.take(files_init.len() as int) == files_init,
                crate::views_of_errors(errors@) == derr + spec_index_files(
                    files0,
                    iv.take(j as int),
                ).1,
                forall|t: int| 0 <= t < errors@.len() ==> !((#[trigger] errors@[t]) is Collection),
                forall|k: int| 0 <= k < files@.len() ==> (#[trigger] files@[k]).wf(),
                forall|k1: int, k2: int|
                    0 <= k1 < k2 < files@.len() ==> (#[trigger] files@[k1]).path@ != (
                    #[trigger] files@[k2]).path@,
            decreases inputs.len() - j,
        {
            let ghost pre = spec_index_files(files0, iv.take(j as int));
            proof {
                assert(iv[j as int] == inputs@[j as int]@);
                assert(iv.take(j as int + 1).drop_last() =~= iv.take(j as int));
                assert(iv.take(j as int + 1).last() == iv[j as int]);
            }
            let outcome = index_one_input(&mut files, &inputs[j]);
            match outcome {
                None => (),
                Some(e) => {
                    proof {
                        assert(crate::views_of_errors(errors@.push(e)) =~= crate::views_of_errors(
                            errors@,
                        ).push(crate::flat_error_view(e)));
                        assert(derr + pre.1.push(crate::flat_error_view(e)) =~= (derr + pre.1).push(
                            crate::flat_error_view(e),
                        ));
                    }
                    errors.push(e);
                },
            }
            proof {
                assert forall|k: int| 0 <= k < files@.len() implies (
                #[trigger] files@[k]).wf() by {
                    match file_outcome(pre.0, iv[j as int]) {
                        Ok(Some(fv)) => {
                            if k < files@.len() - 1 {
                                assert(files@[k] == files@.drop_last()[k]);
                            } else {
                                assert(files@[k] == files@.last());
                            }
                        },
                        _ => {},
                    }
                }
                match file_outcome(pre.0, iv[j as int]) {
                    Ok(Some(fv)) => {
                        assert forall|k1: int, k2: int|
                            0 <= k1 < k2 < files@.len() implies (#[trigger] files@[k1]).path@ != (
                        #[trigger] files@[k2]).path@ by {
                            assert(views_of_files(files@)[k1] == files@[k1]@);
                            assert(views_of_files(files@)[k2] == files@[k2]@);
                            if k2 == files@.len() - 1 {
                                assert(views_of_files(files@) == pre.0.push(fv));
                                assert(files@[k1] == files@.drop_last()[k1]);
                                assert(views_of_files(files@)[k1] == pre.0[k1]);
                                assert(!has_path(pre.0, fv.path));
                                assert(pre.0[k1].path != fv.path);
                            } else {
                                assert(files@[k1] == files@.drop_last()[k1]);
                                assert(files@[k2] == files@.drop_last()[k2]);
                            }
                        }
                        assert(files@.take(files_init.len() as int) =~= files@.drop_last().take(
                            files_init.len() as int,
                        ));
                    },
                    _ => {},
                }
            }
            j = j + 1;
        }
        proof {
            assert(iv.take(inputs@.len() as int) =~= iv);
        }

        // Per-query associations over the final arena, appended after the
        // associations the consumed indexer already recorded; those stay as
        // they are, and stay valid, since the arena only grew.
        let mut q: usize = 0;
        proof {
            assert(queries@.take(q0.len() as int) =~= q0);
        }
        while q < discoveries.len()
            invariant
                q <= discoveries.len(),
                queries@.len() == q0.len() + q as int,
                queries@.take(q0.len() as int) == q0,
                forall|t: int|
                    0 <= t < q as int ==> (#[trigger] queries@[q0.len() + t]).name@
                        == discoveries@[t].query_name@,
                forall|t: int|
                    0 <= t < q as int ==> ids_of((#[trigger] queries@[q0.len() + t]).file_ids@)
                        == (if discoveries@[t]@.pattern_error is None {
                        matching_ids(views_of_files(files@), discoveries@[t]@.paths)
                    } else {
                        Seq::<int>::empty()
                    }),
                forall|t: int|
                    0 <= t < q as int ==> (#[trigger] queries@[q0.len() + t]).wf(
                        files@.len() as int,
                    ),
            decreases discoveries.len() - q,
        {
            let qf = associate_one_query(&files, &discoveries[q]);
            proof {
                assert(queries@.push(qf).take(q0.len() as int) =~= queries@.take(q0.len() as int));
            }
            queries.push(qf);
            q = q + 1;
        }

        proof {
            assert forall|t: int| 0 <= t < q0.len() implies (#[trigger] queries@[t]) == q0[t] by {
                assert(queries@.take(q0.len() as int)[t] == queries@[t]);
            }
            assert forall|t: int|
                0 <= t < queries@.len() implies (#[trigger] queries@[t]).wf(
                files@.len() as int,
            ) by {
                if t < q0.len() {
                    assert(queries@[t] == q0[t]);
                    assert(q0[t].wf(files_init.len() as int));
                    assert forall|jj: int|
                        0 <= jj < q0[t].file_ids@.len() implies (#[trigger] q0[t].file_ids@[jj])
                            < files@.len() by {
                        assert(q0[t].file_ids@[jj] < files_init.len());
                    }
                } else {
                    let off = t - q0.len();
                    assert(queries@[q0.len() + off].wf(files@.len() as int));
                }
            }
        }
        let constructed = Indexer { files, queries };
        (constructed, errors)
    }
}

/// The first index whose query name is `name`, or -1 when none is.
pub open spec fn find_query(qs: Seq<QueryFiles>, name: Seq<char>) -> int
    decreases qs.len(),
{
    if qs.len() == 0 {
        -1
    } else if qs.first().name@ == name {
        0
    } else {
        let rest = find_query(qs.drop_first(), name);
        if rest == -1 {
            -1
        } else {
            rest + 1
        }
    }
}

/// `find_query` returns the first match.
pub proof fn lemma_find_query_at(qs: Seq<QueryFiles>, name: Seq<char>, t: int)
    requires
        0 <= t < qs.len(),
        qs[t].name@ == name,
        forall|s: int| 0 <= s < t ==> (#[trigger] qs[s]).name@ != name,
    ensures
        find_query(qs, name) == t,
    decreases t,
{
    if t > 0 {
        lemma_find_query_at(qs.drop_first(), name, t - 1);
    }
}

/// `find_query` returns -1 exactly when no entry matches.
pub proof fn lemma_find_query_none(qs: Seq<QueryFiles>, name: Seq<char>)
    requires
        forall|s: int| 0 <= s < qs.len() ==> (#[trigger] qs[s]).name@ != name,
    ensures
        find_query(qs, name) == -1,
    decreases qs.len(),
{
    if qs.len() > 0 {
        lemma_find_query_none(qs.drop_first(), name);
    }
}

/// The first index whose file path is `path`, or -1 when none is.
pub open spec fn find_by_path(files: Seq<IndexedFile>, path: Seq<char>) -> int
    decreases files.len(),
{
    if files.len() == 0 {
        -1
    } else if files.first().path@ == path {
        0
    } else {
        let rest = find_by_path(files.drop_first(), path);
        if rest == -1 {
            -1
        } else {
            rest + 1
        }
    }
}

impl Indexer {
    /// Retrieves the [`IndexedFile`]s associated with `query_name`: those of
    /// the first query recorded under that name, in arena order, or [`None`]
    /// when no query of that name was indexed.
    pub fn get_files_by_query_name(&self, query_name: &str) -> (r: Option<Vec<&IndexedFile>>)
        requires
            self.wf(),
        ensures
            r is None <==> find_query(self.queries@, query_name@) == -1,
            r matches Some(v) ==> ({
                let t = find_query(self.queries@, query_name@);
                &&& 0 <= t < self.queries@.len()
                &&& v@.len() == self.queries@[t].file_ids@.len()
                &&& forall|j: int|
                    0 <= j < v@.len() ==> *(#[trigger] v@[j]) == self.files@[self.queries@[t].file_ids@[j] as int]
            }),
    {
        let mut t: usize = 0;
        while t < self.queries.len()
            invariant
                self.wf(),
                t <= self.queries@.len(),
                forall|s: int| 0 <= s < t as int ==> (#[trigger] self.queries@[s]).name@ != query_name@,
            decreases self.queries@.len() - t,
        {
            if crate::str_eq(self.queries[t].name.as_str(), query_name) {
                proof {
                    lemma_find_query_at(self.queries@, query_name@, t as int);
                }
                let ids = &self.queries[t].file_ids;
                let mut v: Vec<&IndexedFile> = Vec::new();
                let mut j: usize = 0;
                while j < ids.len()
                    invariant
                        j <= ids@.len(),
                        self.wf(),
                        0 <= t < self.queries@.len(),
                        ids == &self.queries@[t as int].file_ids,
                        v@.len() == j as int,
                        forall|s: int|
                            0 <= s < j as int ==> *(#[trigger] v@[s]) == self.files@[ids@[s] as int],
                    decreases ids@.len() - j,
                {
                    let id = ids[j];
                    proof {
                        assert(self.queries@[t as int].wf(self.files@.len() as int));
                        assert(ids@[j as int] < self.files@.len());
                    }
                    v.push(&self.files[id]);
                    j = j + 1;
                }
                return Some(v);
            }
            t = t + 1;
        }
        proof {
            lemma_find_query_none(self.queries@, query_name@);
        }
        None
    }

    /// Retrieves the [`IndexedFile`] stored under `path`, if any. Paths are
    /// unique in a well-formed index, so a returned file is the one file
    /// stored under that path; `None` comes back exactly when no stored file
    /// carries it.
    pub fn get_file_by_path(&self, path: &str) -> (r: Option<&IndexedFile>)
        requires
            self.wf(),
        ensures
            r is None <==> find_by_path(self.files@, path@) == -1,
            r is None ==> forall|k: int|
                0 <= k < self.files@.len() ==> (#[trigger] self.files@[k]).path@ != path@,
            r matches Some(f) ==> ({
                let t = find_by_path(self.files@, path@);
                &&& 0 <= t < self.files@.len()
                &&& *f == self.files@[t]
                &&& f.path@ == path@
                &&& forall|k: int|
                    0 <= k < self.files@.len() && (#[trigger] self.files@[k]).path@ == path@
                        ==> self.files@[k] == *f
            }),
    {
        let mut t: usize = 0;
        while t < self.files.len()
            invariant
                self.wf(),
                t <= self.files@.len(),
                forall|s: int| 0 <= s < t as int ==> (#[trigger] self.files@[s]).path@ != path@,
            decreases self.files@.len() - t,
        {
            if crate::str_eq(self.files[t].path.as_str(), path) {
                proof {
                    lemma_find_by_path_at(self.files@, path@, t as int);
                    let ti = t as int;
                    assert forall|k: int|
                        0 <= k < self.files@.len() && (#[trigger] self.files@[k]).path@ == path@
                            implies self.files@[k] == self.files@[ti] by {
                        if k < ti {
                            assert(self.files@[k].path@ != self.files@[ti].path@);
                        } else if ti < k {
                            assert(self.files@[ti].path@ != self.files@[k].path@);
                        }
                    }
                }
                return Some(&self.files[t]);
            }
            t = t + 1;
        }
        proof {
            lemma_find_by_path_none(self.files@, path@);
        }
        None
    }

    /// All indexed files, in arena order.
    pub fn files(&self) -> (r: &Vec<IndexedFile>)
        ensures
            *r == self.files,
    {
        &self.files
    }
}

/// `find_by_path` returns the first match.
pub proof fn lemma_find_by_path_at(files: Seq<IndexedFile>, path: Seq<char>, t: int)
    requires
        0 <= t < files.len(),
        files[t].path@ == path,
        forall|s: int| 0 <= s < t ==> (#[trigger] files[s]).path@ != path,
    ensures
        find_by_path(files, path) == t,
    decreases t,
{
    if t > 0 {
        lemma_find_by_path_at(files.drop_first(), path, t - 1);
    }
}

/// `find_by_path` returns -1 exactly when no file matches.
pub proof fn lemma_find_by_path_none(files: Seq<IndexedFile>, path: Seq<char>)
    requires
        forall|s: int| 0 <= s < files.len() ==> (#[trigger] files[s]).path@ != path,
    ensures
        find_by_path(files, path) == -1,
    decreases files.len(),
{
    if files.len() > 0 {
        lemma_find_by_path_none(files.drop_first(), path);
    }
}

/// Whether `v` holds a string equal to `s`.
fn contains_string(v: &Vec<String>, s: &str) -> (r: bool)
    ensures
        r == v.deep_view().contains(s@),
{
    let mut k: usize = 0;
    while k < v.len()
        invariant
            k <= v.len(),
            forall|j: int| 0 <= j < k as int ==> v.deep_view()[j] != s@,
        decreases v.len() - k,
    {
        if crate::str_eq(v[k].as_str(), s) {
            proof {
                assert(v.deep_view()[k as int] == s@);
            }
            return true;
        }
        k = k + 1;
    }
    proof {
        assert(!v.deep_view().contains(s@));
    }
    false
}

} // verus!
