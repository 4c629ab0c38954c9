//! The normalized result shape a query execution produces: per file, an
//! ordered list of matches, each an ordered list of named captures with their
//! covered text and zero-based positions.
use vstd::prelude::*;

pub mod csv;

verus! {

/// The mathematical content of a [`Capture`]: its text and name as character
/// sequences, and its zero-based positions.
#[verifier::ext_equal]
pub ghost struct CaptureView {
    pub text: Seq<char>,
    pub name: Seq<char>,
    pub start_column: int,
    pub start_line: int,
    pub end_column: int,
    pub end_line: int,
}

/// The mathematical content of a [`Query`]: its name, the file's path, and the
/// captures of each match.
#[verifier::ext_equal]
pub ghost struct QueryView {
    pub name: Seq<char>,
    pub path: Seq<char>,
    pub matches: Seq<Seq<CaptureView>>,
}

/// One named sub-node bound by a pattern match: the capture's name, the text
/// its byte range covers, and its zero-based start and end positions.
#[derive(Debug, PartialEq, Eq)]
pub struct Capture {
    pub text: String,
    pub name: String,
    pub start_column: usize,
    pub start_line: usize,
    pub end_column: usize,
    pub end_line: usize,
}

/// One match of a query's pattern: its captures, in the engine's order.
#[derive(Debug, PartialEq, Eq)]
pub struct Match {
    pub captures: Vec<Capture>,
}

/// The results of one query over one file.
#[derive(Debug, PartialEq, Eq)]
pub struct Query {
    pub name: String,
    pub path: String,
    pub matches: Vec<Match>,
}

impl View for Capture {
    type V = CaptureView;

    open spec fn view(&self) -> CaptureView {
        CaptureView {
            text: self.text@,
            name: self.name@,
            start_column: self.start_column as int,
            start_line: self.start_line as int,
            end_column: self.end_column as int,
            end_line: self.end_line as int,
        }
    }
}

impl View for Match {
    type V = Seq<CaptureView>;

    open spec fn view(&self) -> Seq<CaptureView> {
        self.captures@.map_values(|c: Capture| c@)
    }
}

impl View for Query {
    type V = QueryView;

    open spec fn view(&self) -> QueryView {
        QueryView {
            name: self.name@,
            path: self.path@,
            matches: self.matches@.map_values(|m: Match| m@),
        }
    }
}

/// The views of a whole result set, one element per file.
pub open spec fn views_of_queries(qs: Seq<Query>) -> Seq<QueryView> {
    qs.map_values(|q: Query| q@)
}

/// What the JSON emitter serializes: the whole result set, or, when zero-match
/// files are not wanted, only the per-file results with at least one match,
/// their order kept.
pub open spec fn spec_json_queries(qs: Seq<QueryView>, require_matches: bool) -> Seq<QueryView>
    decreases qs.len(),
{
    if !require_matches {
        qs
    } else if qs.len() == 0 {
        qs
    } else {
        let prev = spec_json_queries(qs.drop_last(), true);
        if qs.last().matches.len() == 0 {
            prev
        } else {
            prev.push(qs.last())
        }
    }
}

/// The result set bound for JSON serialization, per [`spec_json_queries`]:
/// an optional "require matches" toggle filters out files with zero matches.
pub fn json_queries(queries: &Vec<Query>, require_matches: bool) -> (r: Vec<Query>)
    ensures
        views_of_queries(r@) == spec_json_queries(views_of_queries(queries@), require_matches),
{
    let ghost qv = views_of_queries(queries@);
    let mut r: Vec<Query> = Vec::new();
    let mut i: usize = 0;
    proof {
        assert(qv.take(0) =~= Seq::<QueryView>::empty());
        assert(views_of_queries(r@) =~= spec_json_queries(qv.take(0), require_matches));
    }
    while i < queries.len()
        invariant
            i <= queries@.len(),
            qv == views_of_queries(queries@),
            qv.len() == queries@.len(),
            views_of_queries(r@) == spec_json_queries(qv.take(i as int), require_matches),
        decreases queries@.len() - i,
    {
        let q = &queries[i];
        proof {
            assert(qv[i as int] == queries@[i as int]@);
            assert(qv.take(i as int + 1).drop_last() =~= qv.take(i as int));
            assert(qv.take(i as int + 1).last() == qv[i as int]);
        }
        if !require_matches || q.matches.len() > 0 {
            let copy = q.duplicate();
            proof {
                assert(views_of_queries(r@.push(copy)) =~= views_of_queries(r@).push(q@));
                if !require_matches {
                    assert(views_of_queries(r@).push(q@) =~= qv.take(i as int + 1));
                }
            }
            r.push(copy);
        }
        i = i + 1;
    }
    proof {
        assert(qv.take(queries@.len() as int) =~= qv);
    }
    r
}

/// One occurrence line per file: the file's path and its number of matches.
pub fn occurrence_counts(queries: &Vec<Query>) -> (r: Vec<(String, usize)>)
    ensures
        r@.len() == queries@.len(),
        forall|i: int|
            0 <= i < queries@.len() ==> (#[trigger] r@[i]).0@ == queries@[i]@.path && r@[i].1
                == queries@[i]@.matches.len(),
{
    let mut r: Vec<(String, usize)> = Vec::new();
    let mut i: usize = 0;
    while i < queries.len()
        invariant
            i <= queries@.len(),
            r@.len() == i as int,
            forall|j: int|
                0 <= j < i as int ==> (#[trigger] r@[j]).0@ == queries@[j]@.path && r@[j].1
                    == queries@[j]@.matches.len(),
        decreases queries@.len() - i,
    {
        let q = &queries[i];
        r.push((q.path.clone(), q.matches.len()));
        i = i + 1;
    }
    r
}

impl Capture {
    /// An exact copy of the capture.
    pub fn duplicate(&self) -> (r: Capture)
        ensures
            r@ == self@,
    {
        Capture {
            text: self.text.clone(),
            name: self.name.clone(),
            start_column: self.start_column,
            start_line: self.start_line,
            end_column: self.end_column,
            end_line: self.end_line,
        }
    }
}

impl Match {
    /// An exact copy of the match.
    pub fn duplicate(&self) -> (r: Match)
        ensures
            r@ == self@,
    {
        let mut captures: Vec<Capture> = Vec::new();
        let mut i: usize = 0;
        while i < self.captures.len()
            invariant
                i <= self.captures.len(),
                captures@.len() == i as int,
                forall|j: int| 0 <= j < i as int ==> captures@[j]@ == self.captures@[j]@,
            decreases self.captures.len() - i,
        {
            captures.push(self.captures[i].duplicate());
            i = i + 1;
        }
        let r = Match { captures };
        proof {
            assert(r@ =~= self@);
        }
        r
    }
}

impl Query {
    /// An exact copy of the per-file result.
    pub fn duplicate(&self) -> (r: Query)
        ensures
            r@ == self@,
    {
        let mut matches: Vec<Match> = Vec::new();
        let mut i: usize = 0;
        while i < self.matches.len()
            invariant
                i <= self.matches.len(),
                matches@.len() == i as int,
                forall|j: int| 0 <= j < i as int ==> matches@[j]@ == self.matches@[j]@,
            decreases self.matches.len() - i,
        {
            matches.push(self.matches[i].duplicate());
            i = i + 1;
        }
        let r = Query { name: self.name.clone(), path: self.path.clone(), matches };
        proof {
            assert(r@.matches =~= self@.matches);
            assert(r@ =~= self@);
        }
        r
    }
}

} // verus!
