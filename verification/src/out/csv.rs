//! The flattened, per-capture projection of a match, ready for CSV emission.
use vstd::prelude::*;

verus! {

/// The mathematical content of a flattened [`Capture`] row.
#[verifier::ext_equal]
pub ghost struct CsvCaptureView {
    pub index: int,
    pub query: Seq<char>,
    pub path: Seq<char>,
    pub capture: Seq<char>,
    pub text: Seq<char>,
    pub start_column: int,
    pub start_line: int,
    pub end_column: int,
    pub end_line: int,
}

/// A flattened view of one capture: the index of its match within the file,
/// the query's name, the file's path, the capture's name and text, and the
/// four position fields.
#[derive(Debug, PartialEq, Eq)]
pub struct Capture {
    pub index: usize,
    pub query: String,
    pub path: String,
    pub capture: String,
    pub text: String,
    pub start_column: usize,
    pub start_line: usize,
    pub end_column: usize,
    pub end_line: usize,
}

impl View for Capture {
    type V = CsvCaptureView;

    open spec fn view(&self) -> CsvCaptureView {
        CsvCaptureView {
            index: self.index as int,
            query: self.query@,
            path: self.path@,
            capture: self.capture@,
            text: self.text@,
            start_column: self.start_column as int,
            start_line: self.start_line as int,
            end_column: self.end_column as int,
            end_line: self.end_line as int,
        }
    }
}

/// The row that one capture of one match projects to.
pub open spec fn spec_csv_capture(
    query: Seq<char>,
    path: Seq<char>,
    match_index: int,
    c: crate::out::CaptureView,
) -> CsvCaptureView {
    CsvCaptureView {
        index: match_index,
        query: query,
        path: path,
        capture: c.name,
        text: c.text,
        start_column: c.start_column,
        start_line: c.start_line,
        end_column: c.end_column,
        end_line: c.end_line,
    }
}

impl Capture {
    /// Flattens the captures of one match into rows. Every row carries the
    /// query's name, the file's path and the match's index within its file,
    /// so rows can be regrouped by (file, match index).
    pub fn from_out_captures(
        query: &str,
        path: &str,
        match_index: usize,
        out_captures: &Vec<crate::out::Capture>,
    ) -> (r: Vec<Capture>)
        ensures
            r@.len() == out_captures@.len(),
            forall|i: int|
                0 <= i < r@.len() ==> r@[i]@ == spec_csv_capture(
                    query@,
                    path@,
                    match_index as int,
                    out_captures@[i]@,
                ),
    {
        let mut r: Vec<Capture> = Vec::new();
        let mut i: usize = 0;
        while i < out_captures.len()
            invariant
                i <= out_captures.len(),
                r@.len() == i as int,
                forall|j: int|
                    0 <= j < i as int ==> r@[j]@ == spec_csv_capture(
                        query@,
                        path@,
                        match_index as int,
                        out_captures@[j]@,
                    ),
            decreases out_captures.len() - i,
        {
            let c = &out_captures[i];
            r.push(Capture {
                index: match_index,
                query: query.to_owned(),
                path: path.to_owned(),
                capture: c.name.clone(),
                text: c.text.clone(),
                start_column: c.start_column,
                start_line: c.start_line,
                end_column: c.end_column,
                end_line: c.end_line,
            });
            i = i + 1;
        }
        r
    }
}

} // verus!
