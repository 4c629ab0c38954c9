//! The CSV projection of a result set: every capture of every match of every
//! file flattens into one row, with a match index unique within its file so
//! rows can be regrouped by (file, match index).
use vstd::prelude::*;

verus! {

use crate::out;

/// The mathematical content of a [`CsvRow`].
#[verifier::ext_equal]
pub ghost struct CsvRowView {
    pub match_idx: int,
    pub query: Seq<char>,
    pub path: Seq<char>,
    pub capture: Seq<char>,
    pub text: Seq<char>,
    pub start_column: int,
    pub start_line: int,
    pub end_column: int,
    pub end_line: int,
}

/// One flattened capture: the index of its match within the file, the query's
/// name, the file's path, the capture's name and text, and the four position
/// fields.
#[derive(Debug, PartialEq, Eq)]
pub struct CsvRow {
    pub match_idx: usize,
    pub query: String,
    pub path: String,
    pub capture: String,
    pub text: String,
    pub start_column: usize,
    pub start_line: usize,
    pub end_column: usize,
    pub end_line: usize,
}

impl View for CsvRow {
    type V = CsvRowView;

    open spec fn view(&self) -> CsvRowView {
        CsvRowView {
            match_idx: self.match_idx as int,
            query: self.query@,
            path: self.path@,
            capture: self.capture@,
            text: self.text@,
            start_column: self.start_column as int,
            start_line: self.start_line as int,
            end_column: self.end_column as int,
            end_line: self.end_line as int,
        }
    }
}

/// The views of a list of rows.
pub open spec fn views_of_rows(rows: Seq<CsvRow>) -> Seq<CsvRowView> {
    rows.map_values(|r: CsvRow| r@)
}

/// The row one capture of one match flattens to.
pub open spec fn spec_row(
    name: Seq<char>,
    path: Seq<char>,
    match_idx: int,
    c: out::CaptureView,
) -> CsvRowView {
    CsvRowView {
        match_idx: match_idx,
        query: name,
        path: path,
        capture: c.name,
        text: c.text,
        start_column: c.start_column,
        start_line: c.start_line,
        end_column: c.end_column,
        end_line: c.end_line,
    }
}

/// The rows of one match, in capture order.
pub open spec fn spec_rows_of_match(
    name: Seq<char>,
    path: Seq<char>,
    match_idx: int,
    cs: Seq<out::CaptureView>,
) -> Seq<CsvRowView> {
    cs.map_values(|c: out::CaptureView| spec_row(name, path, match_idx, c))
}

/// The rows of one file's matches, each row carrying its match's index.
pub open spec fn spec_rows_of_matches(
    name: Seq<char>,
    path: Seq<char>,
    ms: Seq<Seq<out::CaptureView>>,
) -> Seq<CsvRowView>
    decreases ms.len(),
{
    if ms.len() == 0 {
        Seq::empty()
    } else {
        spec_rows_of_matches(name, path, ms.drop_last()) + spec_rows_of_match(
            name,
            path,
            ms.len() - 1,
            ms.last(),
        )
    }
}

/// The rows of one per-file result.
pub open spec fn spec_rows_of_query(q: out::QueryView) -> Seq<CsvRowView> {
    spec_rows_of_matches(q.name, q.path, q.matches)
}

/// The rows of a whole result set, in file order.
pub open spec fn spec_rows_of_queries(qs: Seq<out::QueryView>) -> Seq<CsvRowView>
    decreases qs.len(),
{
    if qs.len() == 0 {
        Seq::empty()
    } else {
        spec_rows_of_queries(qs.drop_last()) + spec_rows_of_query(qs.last())
    }
}

impl CsvRow {
    /// Flattens a whole result set into rows, per [`spec_rows_of_queries`]:
    /// one row per capture, carrying its match's index within its file.
    pub fn rows_for_queries(queries: &Vec<out::Query>) -> (r: Vec<CsvRow>)
        ensures
            views_of_rows(r@) == spec_rows_of_queries(out::views_of_queries(queries@)),
    {
        let ghost qv = out::views_of_queries(queries@);
        let mut rows: Vec<CsvRow> = Vec::new();
        let mut i: usize = 0;
        proof {
            assert(qv.take(0) =~= Seq::<out::QueryView>::empty());
            assert(views_of_rows(rows@) =~= spec_rows_of_queries(qv.take(0)));
        }
        while i < queries.len()
            invariant
                i <= queries@.len(),
                qv == out::views_of_queries(queries@),
                qv.len() == queries@.len(),
                views_of_rows(rows@) == spec_rows_of_queries(qv.take(i as int)),
            decreases queries@.len() - i,
        {
            let q = &queries[i];
            let ghost prev = spec_rows_of_queries(qv.take(i as int));
            proof {
                assert(qv[i as int] == queries@[i as int]@);
                assert(qv.take(i as int + 1).drop_last() =~= qv.take(i as int));
                assert(qv.take(i as int + 1).last() == qv[i as int]);
            }
            let mut mi: usize = 0;
            proof {
                assert(qv[i as int].matches.take(0) =~= Seq::<Seq<out::CaptureView>>::empty());
                assert(views_of_rows(rows@) =~= prev + spec_rows_of_matches(
                    qv[i as int].name,
                    qv[i as int].path,
                    qv[i as int].matches.take(0),
                ));
            }
            while mi < q.matches.len()
                invariant
                    mi <= q.matches@.len(),
                    prev == spec_rows_of_queries(qv.take(i as int)),
                    0 <= (i as int) < queries@.len(),
                    q == &queries@[i as int],
                    qv == out::views_of_queries(queries@),
                    qv.len() == queries@.len(),
                    qv[i as int] == queries@[i as int]@,
                    qv[i as int].matches.len() == q.matches@.len(),
                    views_of_rows(rows@) == prev + spec_rows_of_matches(
                        qv[i as int].name,
                        qv[i as int].path,
                        qv[i as int].matches.take(mi as int),
                    ),
                decreases q.matches@.len() - mi,
            {
                let m = &q.matches[mi];
                let ghost mprev = spec_rows_of_matches(
                    qv[i as int].name,
                    qv[i as int].path,
                    qv[i as int].matches.take(mi as int),
                );
                proof {
                    assert(qv[i as int].matches[mi as int] == q.matches@[mi as int]@);
                    assert(qv[i as int].matches.take(mi as int + 1).drop_last() =~= qv[i as int].matches.take(mi as int));
                    assert(qv[i as int].matches.take(mi as int + 1).last() == qv[i as int].matches[mi as int]);
                }
                let ghost mrows = spec_rows_of_match(
                    qv[i as int].name,
                    qv[i as int].path,
                    mi as int,
                    qv[i as int].matches[mi as int],
                );
                let mut ci: usize = 0;
                proof {
                    assert(mrows.take(0) =~= Seq::<CsvRowView>::empty());
                    assert(views_of_rows(rows@) =~= prev + mprev + mrows.take(0));
                }
                while ci < m.captures.len()
                    invariant
                        ci <= m.captures@.len(),
                        0 <= (i as int) < queries@.len(),
                        0 <= (mi as int) < queries@[i as int].matches@.len(),
                        q == &queries@[i as int],
                        m == &queries@[i as int].matches@[mi as int],
                        qv == out::views_of_queries(queries@),
                        qv[i as int] == queries@[i as int]@,
                        qv[i as int].matches[mi as int] == m@,
                        m@.len() == m.captures@.len(),
                        mrows == spec_rows_of_match(
                            qv[i as int].name,
                            qv[i as int].path,
                            mi as int,
                            qv[i as int].matches[mi as int],
                        ),
                        mrows.len() == m.captures@.len(),
                        views_of_rows(rows@) == prev + mprev + mrows.take(ci as int),
                    decreases m.captures@.len() - ci,
                {
                    let c = &m.captures[ci];
                    let row = CsvRow {
                        match_idx: mi,
                        query: q.name.clone(),
                        path: q.path.clone(),
                        capture: c.name.clone(),
                        text: c.text.clone(),
                        start_column: c.start_column,
                        start_line: c.start_line,
                        end_column: c.end_column,
                        end_line: c.end_line,
                    };
                    proof {
                        assert(m@[ci as int] == m.captures@[ci as int]@);
                        assert(mrows[ci as int] == spec_row(
                            qv[i as int].name,
                            qv[i as int].path,
                            mi as int,
                            m@[ci as int],
                        ));
                        assert(row@ == mrows[ci as int]);
                        assert(views_of_rows(rows@.push(row)) =~= views_of_rows(rows@).push(row@));
                        assert(mrows.take(ci as int + 1) =~= mrows.take(ci as int).push(
                            mrows[ci as int],
                        ));
                        assert(prev + mprev + mrows.take(ci as int + 1) =~= (prev + mprev
                            + mrows.take(ci as int)).push(mrows[ci as int]));
                    }
                    rows.push(row);
                    ci = ci + 1;
                }
                proof {
                    assert(mrows.take(m.captures@.len() as int) =~= mrows);
                    assert(prev + mprev + mrows =~= prev + (mprev + mrows));
                }
                mi = mi + 1;
            }
            proof {
                assert(qv[i as int].matches.take(q.matches@.len() as int) =~= qv[i as int].matches);
            }
            i = i + 1;
        }
        proof {
            assert(qv.take(queries@.len() as int) =~= qv);
        }
        rows
    }
}

} // verus!
