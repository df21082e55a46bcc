//! The header line of a log: which column holds which field.

use vstd::prelude::*;
use crate::data::{header_of, LogField};

verus! {

/// `needle` occurs in `haystack` as a run of consecutive characters.
pub open spec fn occurs_in(needle: Seq<char>, haystack: Seq<char>) -> bool {
    exists|i: int|
        0 <= i && i + needle.len() <= haystack.len() && #[trigger] haystack.subrange(
            i,
            i + needle.len(),
        ) == needle
}

/// Calls `str::contains` with a string pattern. Trusted: the answer is
/// whether the pattern occurs in the text as a run of consecutive
/// characters.
#[verifier::external_body]
fn text_contains(haystack: &str, needle: &str) -> (r: bool)
    ensures
        r == occurs_in(needle@, haystack@),
{
    haystack.contains(needle)
}

/// The field that a column header stands for: the first field, in the order
/// of their declaration, whose header text occurs in it.
pub open spec fn field_in(header: Seq<char>) -> Option<LogField> {
    if occurs_in(header_of(LogField::MAFV), header) {
        Some(LogField::MAFV)
    } else if occurs_in(header_of(LogField::MASS), header) {
        Some(LogField::MASS)
    } else if occurs_in(header_of(LogField::STFT), header) {
        Some(LogField::STFT)
    } else if occurs_in(header_of(LogField::LTFT), header) {
        Some(LogField::LTFT)
    } else {
        None
    }
}

/// The texts of a header line.
pub open spec fn texts(headers: Seq<String>) -> Seq<Seq<char>> {
    Seq::new(headers.len(), |i: int| headers[i]@)
}

/// The column of `field`: the position of the last header that stands for
/// it, if there is one.
pub open spec fn column_of(headers: Seq<Seq<char>>, field: LogField) -> Option<int>
    decreases headers.len(),
{
    if headers.len() == 0 {
        None
    } else if field_in(headers.last()) == Some(field) {
        Some(headers.len() - 1)
    } else {
        column_of(headers.drop_last(), field)
    }
}

/// The column of every field.
#[derive(Clone, Copy, Debug, PartialEq, Eq, Structural)]
pub struct Columns {
    pub mafv: usize,
    pub mass: usize,
    pub stft: usize,
    pub ltft: usize,
}

impl Columns {
    /// The column of `field`.
    pub open spec fn spec_position(self, field: LogField) -> usize {
        match field {
            LogField::MAFV => self.mafv,
            LogField::MASS => self.mass,
            LogField::STFT => self.stft,
            LogField::LTFT => self.ltft,
        }
    }

    /// The column of `field`.
    pub fn position(&self, field: LogField) -> (r: usize)
        ensures
            r == self.spec_position(field),
    {
        match field {
            LogField::MAFV => self.mafv,
            LogField::MASS => self.mass,
            LogField::STFT => self.stft,
            LogField::LTFT => self.ltft,
        }
    }
}

/// `field` alone if the header line has no column for it, nothing otherwise.
pub open spec fn if_missing(headers: Seq<Seq<char>>, field: LogField) -> Seq<LogField> {
    if column_of(headers, field) is None {
        seq![field]
    } else {
        Seq::empty()
    }
}

/// The fields for which the header line has no column, in the order of their
/// declaration.
pub open spec fn missing_fields(headers: Seq<Seq<char>>) -> Seq<LogField> {
    if_missing(headers, LogField::MAFV) + if_missing(headers, LogField::MASS) + if_missing(
        headers,
        LogField::STFT,
    ) + if_missing(headers, LogField::LTFT)
}

/// The field that `header` stands for, if any.
pub fn field_in_header(header: &str) -> (r: Option<LogField>)
    ensures
        r == field_in(header@),
{
    if text_contains(header, LogField::MAFV.to_header()) {
        Some(LogField::MAFV)
    } else if text_contains(header, LogField::MASS.to_header()) {
        Some(LogField::MASS)
    } else if text_contains(header, LogField::STFT.to_header()) {
        Some(LogField::STFT)
    } else if text_contains(header, LogField::LTFT.to_header()) {
        Some(LogField::LTFT)
    } else {
        None
    }
}

/// Finds the column of every field in a header line. Where several headers
/// stand for one field, the last one counts; when a field has no column, the
/// fields without one are returned instead.
pub fn locate(headers: &Vec<String>) -> (r: Result<Columns, Vec<LogField>>)
    ensures
        match r {
            Ok(columns) => forall|field: LogField|
                column_of(texts(headers@), field) == Some(
                    #[trigger] columns.spec_position(field) as int,
                ),
            Err(missing) => missing@.len() > 0 && missing@ == missing_fields(texts(headers@)),
        },
{
    let ghost all = texts(headers@);
    let mut mafv: Option<usize> = None;
    let mut mass: Option<usize> = None;
    let mut stft: Option<usize> = None;
    let mut ltft: Option<usize> = None;
    let mut i: usize = 0;
    while i < headers.len()
        invariant
            i <= headers.len(),
            all == texts(headers@),
            found(mafv) == column_of(all.take(i as int), LogField::MAFV),
            found(mass) == column_of(all.take(i as int), LogField::MASS),
            found(stft) == column_of(all.take(i as int), LogField::STFT),
            found(ltft) == column_of(all.take(i as int), LogField::LTFT),
        decreases headers.len() - i,
    {
        proof {
            let next = all.take(i + 1);
            assert(next.drop_last() =~= all.take(i as int));
            assert(next.last() == headers@[i as int]@);
        }
        match field_in_header(headers[i].as_str()) {
            Some(LogField::MAFV) => {
                mafv = Some(i);
            },
            Some(LogField::MASS) => {
                mass = Some(i);
            },
            Some(LogField::STFT) => {
                stft = Some(i);
            },
            Some(LogField::LTFT) => {
                ltft = Some(i);
            },
            None => {},
        }
        i += 1;
    }
    proof {
        assert(all.take(headers.len() as int) =~= all);
    }
    let mut missing: Vec<LogField> = Vec::new();
    if mafv.is_none() {
        missing.push(LogField::MAFV);
    }
    assert(missing@ =~= if_missing(all, LogField::MAFV));
    if mass.is_none() {
        missing.push(LogField::MASS);
    }
    assert(missing@ =~= if_missing(all, LogField::MAFV) + if_missing(all, LogField::MASS));
    if stft.is_none() {
        missing.push(LogField::STFT);
    }
    assert(missing@ =~= if_missing(all, LogField::MAFV) + if_missing(all, LogField::MASS)
        + if_missing(all, LogField::STFT));
    if ltft.is_none() {
        missing.push(LogField::LTFT);
    }
    assert(missing@ =~= missing_fields(all));
    match (mafv, mass, stft, ltft) {
        (Some(mafv), Some(mass), Some(stft), Some(ltft)) => {
            let columns = Columns { mafv, mass, stft, ltft };
            assert forall|field: LogField|
                column_of(all, field) == Some(
                    #[trigger] columns.spec_position(field) as int,
                ) by {}
            Ok(columns)
        },
        _ => Err(missing),
    }
}

/// A position that was found, as a mathematical integer.
spec fn found(position: Option<usize>) -> Option<int> {
    match position {
        Some(p) => Some(p as int),
        None => None,
    }
}

} // verus!
