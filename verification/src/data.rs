//! The columns of a measurement log, and the removal of repeated samples
//! before a fit.

use vstd::prelude::*;
use std::collections::HashSet;
use crate::bits::F32;
use crate::headers::Columns;

verus! {

broadcast use vstd::std_specs::hash::group_hash_axioms;

/// The columns that a log is read for.
#[derive(Debug, Clone, Copy, Eq, Hash, PartialEq, Structural)]
pub enum LogField {
    MAFV,
    MASS,
    STFT,
    LTFT,
}

/// The header text of a column.
pub open spec fn header_of(field: LogField) -> Seq<char> {
    match field {
        LogField::MAFV => "MAF Voltage"@,
        LogField::MASS => "Mass Airflow"@,
        LogField::STFT => "Short Term FT"@,
        LogField::LTFT => "Long Term FT"@,
    }
}

/// The column that a header text names, if any.
pub open spec fn field_of(header: Seq<char>) -> Option<LogField> {
    if header == "MAF Voltage"@ {
        Some(LogField::MAFV)
    } else if header == "Mass Airflow"@ {
        Some(LogField::MASS)
    } else if header == "Short Term FT"@ {
        Some(LogField::STFT)
    } else if header == "Long Term FT"@ {
        Some(LogField::LTFT)
    } else {
        None
    }
}

/// Whether two texts are the same.
fn same_text(a: &str, b: &str) -> (r: bool)
    ensures
        r == (a@ == b@),
{
    a.to_owned() == b.to_owned()
}

impl LogField {
    /// The header text of the column.
    pub fn to_header(&self) -> (r: &'static str)
        ensures
            r@ == header_of(*self),
    {
        match self {
            LogField::MAFV => "MAF Voltage",
            LogField::MASS => "Mass Airflow",
            LogField::STFT => "Short Term FT",
            LogField::LTFT => "Long Term FT",
        }
    }

    /// The column whose header text is `header`; `None` if there is none.
    pub fn from_header(header: &str) -> (r: Option<LogField>)
        ensures
            r == field_of(header@),
    {
        if same_text(header, "MAF Voltage") {
            Some(LogField::MAFV)
        } else if same_text(header, "Mass Airflow") {
            Some(LogField::MASS)
        } else if same_text(header, "Short Term FT") {
            Some(LogField::STFT)
        } else if same_text(header, "Long Term FT") {
            Some(LogField::LTFT)
        } else {
            None
        }
    }

    /// All columns, in the order of their declaration.
    pub fn variants() -> (r: &'static [LogField])
        ensures
            r@ == seq![LogField::MAFV, LogField::MASS, LogField::STFT, LogField::LTFT],
    {
        &[LogField::MAFV, LogField::MASS, LogField::STFT, LogField::LTFT]
    }
}

/// A column is found again by its header text.
pub proof fn lemma_header_round_trip(field: LogField)
    ensures
        field_of(header_of(field)) == Some(field),
{
    reveal_strlit("MAF Voltage");
    reveal_strlit("Mass Airflow");
    reveal_strlit("Short Term FT");
    reveal_strlit("Long Term FT");
    assert("MAF Voltage"@.len() == 11);
    assert("Mass Airflow"@.len() == 12);
    assert("Short Term FT"@.len() == 13);
    assert("Long Term FT"@.len() == 12);
    assert("Mass Airflow"@[0] == 'M');
    assert("Long Term FT"@[0] == 'L');
}

/// Whether a line of `width` columns has the column of every field.
pub open spec fn row_reaches(columns: Columns, width: int) -> bool {
    columns.mafv < width && columns.mass < width && columns.stft < width && columns.ltft < width
}

/// What the column of `field` takes from a cell: its value, unless the cell
/// is no number, or the field is `MAFV` and the value was seen before.
pub open spec fn taken_from(cell: Option<F32>, field: LogField, seen: Set<u32>) -> Seq<F32> {
    match cell {
        Some(value) => if field == LogField::MAFV && seen.contains(value.0) {
            Seq::empty()
        } else {
            seq![value]
        },
        None => Seq::empty(),
    }
}

/// What is noted of the cell of `MAFV`: its value, if it is a number.
pub open spec fn noted_from(cell: Option<F32>) -> Set<u32> {
    match cell {
        Some(value) => set![value.0],
        None => Set::empty(),
    }
}

/// The values read from a log, one column per field.
pub struct LogData {
    mafv: Vec<F32>,
    mass: Vec<F32>,
    stft: Vec<F32>,
    ltft: Vec<F32>,
}

impl LogData {
    /// The values of one column, in the order read.
    pub closed spec fn column(self, field: LogField) -> Seq<F32> {
        match field {
            LogField::MAFV => self.mafv@,
            LogField::MASS => self.mass@,
            LogField::STFT => self.stft@,
            LogField::LTFT => self.ltft@,
        }
    }

    /// Appends `value` to the column of `field`. A value of the column
    /// `MAFV` is appended only the first time it is seen, and `seen` takes
    /// note of it; the other columns take every value.
    pub fn push(&mut self, field: LogField, value: F32, seen: &mut HashSet<u32>)
        ensures
            forall|other: LogField|
                other != field ==> final(self).column(other) == old(self).column(other),
            field == LogField::MAFV && old(seen)@.contains(value.0) ==> {
                &&& final(self).column(field) == old(self).column(field)
                &&& final(seen)@ == old(seen)@
            },
            field == LogField::MAFV && !old(seen)@.contains(value.0) ==> {
                &&& final(self).column(field) == old(self).column(field).push(value)
                &&& final(seen)@ == old(seen)@.insert(value.0)
            },
            field != LogField::MAFV ==> {
                &&& final(self).column(field) == old(self).column(field).push(value)
                &&& final(seen)@ == old(seen)@
            },
    {
        match field {
            LogField::MAFV => {
                if !seen.contains(&value.0) {
                    seen.insert(value.0);
                    self.mafv.push(value);
                }
            },
            LogField::MASS => {
                self.mass.push(value);
            },
            LogField::STFT => {
                self.stft.push(value);
            },
            LogField::LTFT => {
                self.ltft.push(value);
            },
        }
    }

    /// Takes the values of one line of the log. `cells` holds the line's
    /// columns in order, `None` where a column is no number. The value of
    /// each field is pushed as by [`LogData::push`], in the order of the
    /// fields' declaration; a field whose cell is no number gets nothing.
    /// When the line is too short to have the column of every field, nothing
    /// is taken and `false` is returned.
    pub fn push_row(
        &mut self,
        columns: &Columns,
        cells: &Vec<Option<F32>>,
        seen: &mut HashSet<u32>,
    ) -> (taken: bool)
        ensures
            taken == row_reaches(*columns, cells@.len() as int),
            !taken ==> final(seen)@ == old(seen)@ && forall|field: LogField|
                final(self).column(field) == old(self).column(field),
            taken ==> forall|field: LogField|
                #[trigger] final(self).column(field) == old(self).column(field) + taken_from(
                    cells@[columns.spec_position(field) as int],
                    field,
                    old(seen)@,
                ),
            taken ==> final(seen)@ == old(seen)@ + noted_from(
                cells@[columns.spec_position(LogField::MAFV) as int],
            ),
    {
        let n = cells.len();
        if columns.mafv >= n || columns.mass >= n || columns.stft >= n || columns.ltft >= n {
            return false;
        }
        let ghost start = *self;
        let ghost noted = seen@;
        if let Some(value) = cells[columns.mafv] {
            self.push(LogField::MAFV, value, seen);
        }
        if let Some(value) = cells[columns.mass] {
            self.push(LogField::MASS, value, seen);
        }
        if let Some(value) = cells[columns.stft] {
            self.push(LogField::STFT, value, seen);
        }
        if let Some(value) = cells[columns.ltft] {
            self.push(LogField::LTFT, value, seen);
        }
        proof {
            assert forall|field: LogField|
                #[trigger] self.column(field) == start.column(field) + taken_from(
                    cells@[columns.spec_position(field) as int],
                    field,
                    noted,
                ) by {
                let cell = cells@[columns.spec_position(field) as int];
                assert(self.column(field) =~= start.column(field) + taken_from(
                    cell,
                    field,
                    noted,
                ));
            }
            assert(seen@ =~= noted + noted_from(cells@[columns.mafv as int]));
        }
        true
    }

    /// The column of `field`. Every field has one.
    pub fn get(&self, field: &LogField) -> (r: Option<&Vec<F32>>)
        ensures
            r is Some,
            r.unwrap()@ == self.column(*field),
    {
        match field {
            LogField::MAFV => Some(&self.mafv),
            LogField::MASS => Some(&self.mass),
            LogField::STFT => Some(&self.stft),
            LogField::LTFT => Some(&self.ltft),
        }
    }
}

impl Default for LogData {
    /// A log with every column empty.
    fn default() -> (r: LogData)
        ensures
            forall|field: LogField| r.column(field) == Seq::<F32>::empty(),
    {
        LogData { mafv: Vec::new(), mass: Vec::new(), stft: Vec::new(), ltft: Vec::new() }
    }
}

/// The samples that two columns pair up to: as many as the shorter column
/// has.
pub open spec fn paired(xs: Seq<F32>, ys: Seq<F32>) -> Seq<(F32, F32)> {
    Seq::new(
        if xs.len() <= ys.len() {
            xs.len()
        } else {
            ys.len()
        },
        |i: int| (xs[i], ys[i]),
    )
}

/// The samples without the repeats: each sample stays where it first
/// occurs.
pub open spec fn first_occurrences(pairs: Seq<(F32, F32)>) -> Seq<(F32, F32)>
    decreases pairs.len(),
{
    if pairs.len() == 0 {
        Seq::empty()
    } else if pairs.drop_last().contains(pairs.last()) {
        first_occurrences(pairs.drop_last())
    } else {
        first_occurrences(pairs.drop_last()).push(pairs.last())
    }
}

/// No sample occurs twice.
pub open spec fn distinct(pairs: Seq<(F32, F32)>) -> bool {
    forall|i: int, j: int| 0 <= i < j < pairs.len() ==> pairs[i] != pairs[j]
}

/// One integer for each sample, different samples having different ones.
pub open spec fn pair_key(pair: (F32, F32)) -> u64 {
    (pair.0.0 * 0x1_0000_0000 + pair.1.0) as u64
}

/// What is left has the samples that there were, each once.
pub proof fn lemma_first_occurrences(pairs: Seq<(F32, F32)>)
    ensures
        distinct(first_occurrences(pairs)),
        forall|p: (F32, F32)| first_occurrences(pairs).contains(p) <==> pairs.contains(p),
        first_occurrences(pairs).len() <= pairs.len(),
    decreases pairs.len(),
{
    let kept = first_occurrences(pairs);
    if pairs.len() > 0 {
        let head = pairs.drop_last();
        let last = pairs.last();
        let kept_head = first_occurrences(head);
        lemma_first_occurrences(head);
        assert forall|p: (F32, F32)| kept.contains(p) <==> pairs.contains(p) by {
            if pairs.contains(p) {
                let i = choose|i: int| 0 <= i < pairs.len() && pairs[i] == p;
                if i < head.len() {
                    assert(head[i] == p);
                    assert(head.contains(p));
                    assert(kept_head.contains(p));
                    let j = choose|j: int| 0 <= j < kept_head.len() && kept_head[j] == p;
                    assert(kept[j] == p);
                } else {
                    assert(p == last);
                    if head.contains(last) {
                        assert(kept_head.contains(p));
                    } else {
                        assert(kept[kept.len() - 1] == p);
                    }
                }
            }
            if kept.contains(p) {
                let j = choose|j: int| 0 <= j < kept.len() && kept[j] == p;
                if j < kept_head.len() {
                    assert(kept_head[j] == p);
                    assert(kept_head.contains(p));
                    assert(head.contains(p));
                    let i = choose|i: int| 0 <= i < head.len() && head[i] == p;
                    assert(pairs[i] == p);
                } else {
                    assert(p == last);
                    assert(pairs[pairs.len() - 1] == p);
                }
            }
        }
        if !head.contains(last) {
            assert forall|i: int, j: int| 0 <= i < j < kept.len() implies kept[i] != kept[j] by {
                if j == kept_head.len() {
                    assert(kept_head[i] == kept[i]);
                    assert(kept_head.contains(kept[i]));
                }
            }
        }
    } else {
        assert forall|p: (F32, F32)| kept.contains(p) <==> pairs.contains(p) by {}
    }
}

/// Pairs the two columns and drops every sample that occurred before.
pub fn deduplicate(xs: &Vec<F32>, ys: &Vec<F32>) -> (r: (Vec<F32>, Vec<F32>))
    ensures
        r.0@.len() == r.1@.len(),
        paired(r.0@, r.1@) == first_occurrences(paired(xs@, ys@)),
{
    let n = if xs.len() <= ys.len() { xs.len() } else { ys.len() };
    let ghost pairs = paired(xs@, ys@);
    let mut seen: HashSet<u64> = HashSet::new();
    let mut out_x: Vec<F32> = Vec::new();
    let mut out_y: Vec<F32> = Vec::new();
    let mut i: usize = 0;
    while i < n
        invariant
            i <= n,
            n == pairs.len(),
            n <= xs.len(),
            n <= ys.len(),
            pairs == paired(xs@, ys@),
            out_x.len() == out_y.len(),
            paired(out_x@, out_y@) == first_occurrences(pairs.take(i as int)),
            forall|key: u64|
                seen@.contains(key) <==> exists|j: int|
                    0 <= j < i && pair_key(#[trigger] pairs[j]) == key,
        decreases n - i,
    {
        let x = xs[i];
        let y = ys[i];
        let key: u64 = (x.0 as u64) * 0x1_0000_0000 + (y.0 as u64);
        let ghost prefix = pairs.take(i as int);
        let ghost next = pairs.take(i + 1);
        proof {
            assert(next.drop_last() =~= prefix);
            assert(next.last() == (x, y));
            assert(key == pair_key((x, y)));
            if prefix.contains((x, y)) {
                let j = choose|j: int| 0 <= j < prefix.len() && prefix[j] == (x, y);
                assert(pairs[j] == (x, y));
                assert(seen@.contains(key));
            }
            if seen@.contains(key) {
                let j = choose|j: int| 0 <= j < i && pair_key(#[trigger] pairs[j]) == key;
                assert(pairs[j].0.0 == x.0 && pairs[j].1.0 == y.0);
                assert(prefix[j] == (x, y));
            }
        }
        let ghost before = seen@;
        if !seen.contains(&key) {
            seen.insert(key);
            let ghost old_x = out_x@;
            let ghost old_y = out_y@;
            out_x.push(x);
            out_y.push(y);
            proof {
                assert(paired(out_x@, out_y@) =~= paired(old_x, old_y).push((x, y)));
            }
        }
        proof {
            assert forall|k: u64| seen@.contains(k) <==> exists|j: int|
                0 <= j < i + 1 && pair_key(#[trigger] pairs[j]) == k by {
                if seen@.contains(k) {
                    if before.contains(k) {
                        let j = choose|j: int| 0 <= j < i && pair_key(#[trigger] pairs[j]) == k;
                        assert(0 <= j < i + 1 && pair_key(pairs[j]) == k);
                    } else {
                        assert(k == key);
                        assert(pair_key(pairs[i as int]) == k);
                    }
                }
                if exists|j: int| 0 <= j < i + 1 && pair_key(#[trigger] pairs[j]) == k {
                    let j = choose|j: int| 0 <= j < i + 1 && pair_key(#[trigger] pairs[j]) == k;
                    if j < i {
                        assert(before.contains(k));
                    } else {
                        assert(k == key);
                    }
                }
            }
        }
        i += 1;
    }
    proof {
        assert(pairs.take(n as int) =~= pairs);
    }
    (out_x, out_y)
}

} // verus!
