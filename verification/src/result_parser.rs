//! The response decoder: typed, validated views over one decoded engine
//! response.
//!
//! The engine answers every command with a positionally structured JSON
//! envelope. A success looks like
//! `[[status, start_time, elapsed_time], [[[.., count], [[name, type], ..], row, ..]]]`
//! and an error like `[[status, start_time, elapsed_time, detail, ..]]`:
//! the two share the header prefix and diverge afterwards. `ResultParser`
//! wraps one decoded [`Value`] tree and exposes accessors for the status,
//! the timings, the matched-row count and the payload; [`Rows`] is a second
//! view over the payload of a successful response.
//!
//! Every accessor is total: where the expected nested shape is absent, it
//! answers with `None` instead of failing, so a caller can branch on
//! `status` first and then read the payload without risking a panic.

use crate::value::Value;
use vstd::prelude::*;

verus! {

/// The elements of the response envelope, when the root is an array.
pub open spec fn root_elems_of(root: Value) -> Option<Seq<Value>> {
    if root is Array {
        Some(root->Array_0@)
    } else {
        None
    }
}

/// The header: element 0 of the envelope.
pub open spec fn header_of(root: Value) -> Option<Value> {
    match root_elems_of(root) {
        Some(elems) => if elems.len() > 0 {
            Some(elems[0])
        } else {
            None
        },
        None => None,
    }
}

/// Element `i` of the header, when the header is an array long enough.
pub open spec fn header_field_of(root: Value, i: int) -> Option<Value> {
    match header_of(root) {
        Some(h) => if h is Array && 0 <= i < h->Array_0@.len() {
            Some(h->Array_0@[i])
        } else {
            None
        },
        None => None,
    }
}

/// The status code: header element 0, when it is an integer.
pub open spec fn status_of(root: Value) -> Option<i64> {
    match header_field_of(root, 0) {
        Some(v) => if v is Integer {
            Some(v->Integer_0)
        } else {
            None
        },
        None => None,
    }
}

/// The engine's start timestamp: header element 1, when it is a float
/// (given as its IEEE 754 bit pattern).
pub open spec fn start_time_of(root: Value) -> Option<u64> {
    match header_field_of(root, 1) {
        Some(v) => if v is Float {
            Some(v->Float_0)
        } else {
            None
        },
        None => None,
    }
}

/// The processing time in seconds: header element 2, when it is a float
/// (given as its IEEE 754 bit pattern).
pub open spec fn elapsed_time_of(root: Value) -> Option<u64> {
    match header_field_of(root, 2) {
        Some(v) => if v is Float {
            Some(v->Float_0)
        } else {
            None
        },
        None => None,
    }
}

/// The Result Set of a success response: element 0 of the result body at
/// envelope position 1.
pub open spec fn result_set_of(root: Value) -> Option<Value> {
    match root_elems_of(root) {
        Some(elems) => if elems.len() > 1 && elems[1] is Array && elems[1]->Array_0@.len() > 0 {
            Some(elems[1]->Array_0@[0])
        } else {
            None
        },
        None => None,
    }
}

/// The Count Wrapper: element 0 of the Result Set, when it is an array.
/// Only its last element is meaningful; leading elements are engine-defined
/// and ignored.
pub open spec fn count_wrapper_of(root: Value) -> Option<Seq<Value>> {
    match result_set_of(root) {
        Some(rs) => if rs is Array && rs->Array_0@.len() > 0 && rs->Array_0@[0] is Array {
            Some(rs->Array_0@[0]->Array_0@)
        } else {
            None
        },
        None => None,
    }
}

/// The matched-row count: the last element of the Count Wrapper, when it is
/// an integer.
pub open spec fn matched_count_of(root: Value) -> Option<i64> {
    match count_wrapper_of(root) {
        Some(cw) => if cw.len() > 0 && cw.last() is Integer {
            Some(cw.last()->Integer_0)
        } else {
            None
        },
        None => None,
    }
}

/// What `matched_columns` answers: the matched-row count on a success
/// response, absent on an error response or when the status is unreadable.
pub open spec fn matched_columns_of(root: Value) -> Option<i64> {
    if status_of(root) == Some(0i64) {
        matched_count_of(root)
    } else {
        None
    }
}

/// What `result` answers: the Result Set on a success response, the error
/// detail at header position 3 on an error response, absent where the
/// selected shape is missing or the status is unreadable.
pub open spec fn result_of(root: Value) -> Option<Value> {
    match status_of(root) {
        Some(s) => if s == 0 {
            result_set_of(root)
        } else {
            header_field_of(root, 3)
        },
        None => None,
    }
}

/// A decoder over one decoded engine response.
///
/// The decoder holds the decoded tree unchanged; every accessor is a read
/// view over it, so reading a field twice yields the same result.
#[derive(Debug)]
pub struct ResultParser {
    pub result: Value,
}

impl ResultParser {
    /// Wraps one decoded response tree.
    pub fn new(result: Value) -> (r: ResultParser)
        ensures
            r.result == result,
    {
        ResultParser { result }
    }

    /// The whole decoded response, as it was handed in.
    pub fn get_raw_object(&self) -> (r: &Value)
        ensures
            *r == self.result,
    {
        &self.result
    }

    /// The header of the response; absent when the root is not an array or
    /// is empty.
    pub fn get_header(&self) -> (r: Option<&Value>)
        ensures
            r is Some <==> header_of(self.result) is Some,
            r is Some ==> *r->Some_0 == header_of(self.result)->Some_0,
    {
        self.result.at(0)
    }

    /// The status code of the response. `Some(0)` means success; any other
    /// code is an error. Absent when the header shape is malformed.
    pub fn status(&self) -> (r: Option<i64>)
        ensures
            r == status_of(self.result),
    {
        match self.get_header() {
            Some(h) => match h.at(0) {
                Some(v) => v.into_i64(),
                None => None,
            },
            None => None,
        }
    }

    /// The engine's start timestamp as an IEEE 754 bit pattern. Absent when
    /// the header shape is malformed or the field is not a float.
    pub fn start_time(&self) -> (r: Option<u64>)
        ensures
            r == start_time_of(self.result),
    {
        match self.get_header() {
            Some(h) => match h.at(1) {
                Some(v) => v.into_f64_bits(),
                None => None,
            },
            None => None,
        }
    }

    /// The engine's processing time in seconds as an IEEE 754 bit pattern.
    /// Absent when the header shape is malformed or the field is not a float.
    pub fn elapsed_time(&self) -> (r: Option<u64>)
        ensures
            r == elapsed_time_of(self.result),
    {
        match self.get_header() {
            Some(h) => match h.at(2) {
                Some(v) => v.into_f64_bits(),
                None => None,
            },
            None => None,
        }
    }

    /// The last element of the Count Wrapper, regardless of status.
    fn matched_columns_num(&self) -> (r: Option<i64>)
        ensures
            r == matched_count_of(self.result),
    {
        let body = self.result.at(1);
        let rs = match body {
            Some(b) => b.at(0),
            None => None,
        };
        let cw = match rs {
            Some(v) => v.at(0),
            None => None,
        };
        match cw {
            Some(w) => match w.into_vec() {
                Some(elems) => if elems.len() > 0 {
                    elems[elems.len() - 1].into_i64()
                } else {
                    None
                },
                None => None,
            },
            None => None,
        }
    }

    /// The number of matched rows reported by a success response: the last
    /// element of the Count Wrapper. Absent on an error response — the
    /// concept does not apply there — and when the nested shape is missing.
    /// The count may exceed the number of data rows actually present.
    pub fn matched_columns(&self) -> (r: Option<i64>)
        ensures
            r == matched_columns_of(self.result),
    {
        match self.status() {
            Some(s) => if s == 0 {
                self.matched_columns_num()
            } else {
                None
            },
            None => None,
        }
    }

    /// The payload of the response, as a one-element sequence.
    ///
    /// On a success response the element is the Result Set; on an error
    /// response it is the error detail at header position 3. Callers branch
    /// on `status` first and interpret the element accordingly. Absent when
    /// the status is unreadable or the selected shape is missing.
    pub fn result(&self) -> (r: Option<Vec<&Value>>)
        ensures
            r is Some <==> result_of(self.result) is Some,
            r is Some ==> r->Some_0@.len() == 1 && *r->Some_0@[0] == result_of(self.result)->Some_0,
    {
        match self.status() {
            Some(s) => {
                let payload = if s == 0 {
                    match self.result.at(1) {
                        Some(b) => b.at(0),
                        None => None,
                    }
                } else {
                    match self.result.at(0) {
                        Some(h) => h.at(3),
                        None => None,
                    }
                };
                match payload {
                    Some(p) => Some(vec![p]),
                    None => None,
                }
            },
            None => None,
        }
    }

    /// Hands the payload to a [`Rows`] view. Meaningful after a successful
    /// status check; on an error response the view wraps the error detail,
    /// which does not have the column shape.
    pub fn into_row(&self) -> (r: Rows<'_>)
        ensures
            r.data is Some <==> result_of(self.result) is Some,
            r.data is Some ==> r.data->Some_0@.len() == 1 && *r.data->Some_0@[0] == result_of(
                self.result,
            )->Some_0,
    {
        Rows::new(self.result())
    }
}

/// A view over the matched-data portion of a response: the sequence
/// `[Count Wrapper, Column Header Row, data row, ..]`, usually produced by
/// [`ResultParser::into_row`].
#[derive(Debug)]
pub struct Rows<'a> {
    pub data: Option<Vec<&'a Value>>,
}

impl<'a> Rows<'a> {
    /// The contents of the wrapped Result Set: absent when no data is
    /// wrapped, the wrapped sequence is empty, or its last element is not an
    /// array.
    pub open spec fn spec_columns(self) -> Option<Seq<Value>> {
        match self.data {
            Some(v) => if v@.len() > 0 && (*v@.last()) is Array {
                Some((*v@.last())->Array_0@)
            } else {
                None
            },
            None => None,
        }
    }

    /// Wraps the payload sequence produced by [`ResultParser::result`].
    pub fn new(data: Option<Vec<&'a Value>>) -> (r: Rows<'a>)
        ensures
            r.data == data,
    {
        Rows { data }
    }

    /// The elements of the last wrapped value: for a success payload, the
    /// full sequence `[Count Wrapper, Column Header Row, data row, ..]`.
    /// The Count Wrapper and the Column Header Row are not skipped here;
    /// [`Rows::column_header_row`] and [`Rows::data_rows`] name those parts.
    pub fn columns(&self) -> (r: Option<&'a Vec<Value>>)
        ensures
            r is Some <==> self.spec_columns() is Some,
            r is Some ==> r->Some_0@ == self.spec_columns()->Some_0,
    {
        match &self.data {
            Some(v) => {
                if v.len() > 0 {
                    let lastv: &Value = v[v.len() - 1];
                    lastv.into_vec()
                } else {
                    None
                }
            },
            None => None,
        }
    }

    /// The Column Header Row: element 1 of the Result Set, the sequence of
    /// `[name, type]` pairs describing the output columns.
    pub fn column_header_row(&self) -> (r: Option<&'a Value>)
        ensures
            r is Some <==> (self.spec_columns() is Some && self.spec_columns()->Some_0.len() > 1),
            r is Some ==> *r->Some_0 == self.spec_columns()->Some_0[1],
    {
        match self.columns() {
            Some(cols) => if cols.len() > 1 {
                Some(&cols[1])
            } else {
                None
            },
            None => None,
        }
    }

    /// The data rows: the elements of the Result Set after the Count
    /// Wrapper and the Column Header Row. Empty — not absent — when the
    /// Result Set holds those two elements and nothing more.
    pub fn data_rows(&self) -> (r: Option<Vec<&'a Value>>)
        ensures
            r is Some <==> self.spec_columns() is Some,
            r is Some ==> {
                let cols = self.spec_columns()->Some_0;
                let skip = if cols.len() >= 2 {
                    2int
                } else {
                    cols.len() as int
                };
                &&& r->Some_0@.len() == cols.len() - skip
                &&& forall|i: int|
                    0 <= i < r->Some_0@.len() ==> *r->Some_0@[i] == cols[i + skip]
            },
    {
        match self.columns() {
            Some(cols) => {
                let start: usize = if cols.len() >= 2 {
                    2
                } else {
                    cols.len()
                };
                let mut out: Vec<&'a Value> = Vec::new();
                let mut i: usize = start;
                while i < cols.len()
                    invariant
                        start <= i <= cols.len(),
                        out@.len() == i - start,
                        forall|j: int| 0 <= j < out@.len() ==> *out@[j] == cols@[j + start],
                    decreases cols.len() - i,
                {
                    out.push(&cols[i]);
                    i += 1;
                }
                Some(out)
            },
            None => None,
        }
    }
}

/// On a success response the payload is the Result Set: whenever the status
/// reads zero, `result` selects the Result Set at envelope position 1, and
/// so — where that set is present — answers exactly one element, equal to
/// it.
pub proof fn lemma_success_result_is_result_set(root: Value)
    requires
        status_of(root) == Some(0i64),
    ensures
        result_of(root) == result_set_of(root),
{
}

/// On a well-formed error response — any readable non-zero status — the
/// matched-row count is unconditionally absent.
pub proof fn lemma_error_has_no_matched_columns(root: Value)
    requires
        status_of(root) is Some,
        status_of(root) != Some(0i64),
    ensures
        matched_columns_of(root) is None,
{
}

/// The matched-row count is the last element of the Count Wrapper — not its
/// first — however many engine-defined leading elements the wrapper holds.
pub proof fn lemma_matched_count_is_last_of_wrapper(root: Value)
    requires
        count_wrapper_of(root) is Some,
        count_wrapper_of(root)->Some_0.len() > 0,
        count_wrapper_of(root)->Some_0.last() is Integer,
    ensures
        matched_count_of(root) == Some(count_wrapper_of(root)->Some_0.last()->Integer_0),
{
}

} // verus!
