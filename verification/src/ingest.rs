//! Assembling a valid record series from raw input rows.
//!
//! Input rows arrive in file order, possibly unsorted, possibly with repeated
//! dates, and possibly without a date at all. A row with no date cannot take
//! part in the date-keyed merge and is dropped outright; of several rows for
//! one date, the last one in file order wins.

use vstd::prelude::*;

use crate::date::Date;
use crate::series::ConditionRecord;
use crate::series::has_date;
use crate::series::insert_record;
use crate::series::record_at;
use crate::series::valid_series;

verus! {

/// One raw input row: the three positional fields, each possibly missing or
/// unparseable (and then `None`).
#[derive(Debug)]
pub struct InputRow {
    pub date: Option<Date>,
    pub level: Option<i32>,
    pub comment: Option<String>,
}

impl InputRow {
    /// An equal copy of this row.
    pub fn duplicate(&self) -> (r: InputRow)
        ensures
            r == *self,
    {
        InputRow {
            date: self.date,
            level: self.level,
            comment: match &self.comment {
                Some(c) => Some(c.clone()),
                None => None,
            },
        }
    }
}

/// The record a dated row stands for.
pub open spec fn row_record(row: InputRow) -> ConditionRecord {
    ConditionRecord { date: row.date->0, level: row.level, comment: row.comment }
}

/// Whether some row carries date `d`.
pub open spec fn row_with_date(rows: Seq<InputRow>, d: Date) -> bool {
    exists|j: int| 0 <= j < rows.len() && (#[trigger] rows[j]).date == Some(d)
}

/// Whether row `j` is dated and no row after it (before `upto`) repeats its
/// date: the row whose values survive among the first `upto` rows.
pub open spec fn row_wins_upto(rows: Seq<InputRow>, j: int, upto: int) -> bool {
    &&& 0 <= j < upto <= rows.len()
    &&& rows[j].date is Some
    &&& forall|k: int| j < k < upto ==> (#[trigger] rows[k]).date != rows[j].date
}

/// Whether row `j` is the one whose values survive for its date.
pub open spec fn row_wins(rows: Seq<InputRow>, j: int) -> bool {
    row_wins_upto(rows, j, rows.len() as int)
}

/// Every date that occurs at all has a winning row: its last occurrence.
pub proof fn lemma_winning_row_exists(rows: Seq<InputRow>, d: Date)
    requires
        row_with_date(rows, d),
    ensures
        exists|j: int| #[trigger] row_wins(rows, j) && rows[j].date == Some(d),
    decreases rows.len(),
{
    let n = rows.len() as int;
    if rows[n - 1].date == Some(d) {
        assert(row_wins(rows, n - 1));
    } else {
        let w = choose|j: int| 0 <= j < n && (#[trigger] rows[j]).date == Some(d);
        assert(rows.drop_last()[w].date == Some(d));
        lemma_winning_row_exists(rows.drop_last(), d);
        let j = choose|j: int| #[trigger] row_wins(rows.drop_last(), j) && rows.drop_last()[j].date
            == Some(d);
        assert(row_wins(rows, j)) by {
            assert forall|k: int| j < k < n implies (#[trigger] rows[k]).date != rows[j].date by {
                if k < n - 1 {
                    assert(rows.drop_last()[k] == rows[k]);
                }
            }
        }
    }
}

/// Builds a valid series out of raw rows: rows with no date are dropped, and
/// on a repeated date the last row wins.
pub fn series_from_rows(rows: &Vec<InputRow>) -> (r: Vec<ConditionRecord>)
    requires
        forall|j: int|
            0 <= j < rows@.len() && (#[trigger] rows@[j]).date is Some ==> rows@[j].date->0.valid(),
    ensures
        valid_series(r@),
        forall|d: Date| #[trigger] has_date(r@, d) <==> row_with_date(rows@, d),
        forall|j: int|
            #[trigger] row_wins(rows@, j) ==> has_date(r@, rows@[j].date->0) && record_at(
                r@,
                rows@[j].date->0,
            ) == row_record(rows@[j]),
{
    let mut r: Vec<ConditionRecord> = Vec::new();
    let mut i: usize = 0;
    while i < rows.len()
        invariant
            i <= rows.len(),
            forall|j: int|
                0 <= j < rows@.len() && (#[trigger] rows@[j]).date is Some
                    ==> rows@[j].date->0.valid(),
            valid_series(r@),
            forall|d: Date| #[trigger] has_date(r@, d) <==> row_with_date(rows@.take(i as int), d),
            forall|j: int|
                #[trigger] row_wins_upto(rows@, j, i as int) ==> has_date(r@, rows@[j].date->0)
                    && record_at(r@, rows@[j].date->0) == row_record(rows@[j]),
        decreases rows.len() - i,
    {
        let ghost pre = r@;
        let ghost n = i as int;
        let row = rows[i].duplicate();
        match row.date {
            Some(d) => {
                let rec = ConditionRecord { date: d, level: row.level, comment: row.comment };
                assert(rec == row_record(rows@[n]));
                insert_record(&mut r, rec);
                proof {
                    assert(row_wins_upto(rows@, n, n + 1));
                    assert forall|j: int| #[trigger] row_wins_upto(rows@, j, n + 1) implies
                        has_date(r@, rows@[j].date->0) && record_at(r@, rows@[j].date->0)
                        == row_record(rows@[j]) by {
                        if j < n {
                            assert(row_wins_upto(rows@, j, n));
                            assert(rows@[j].date != rows@[n].date);
                            assert(rows@[j].date->0 != d);
                        }
                    }
                    assert forall|dd: Date| #[trigger] has_date(r@, dd) implies row_with_date(
                        rows@.take(n + 1),
                        dd,
                    ) by {
                        if dd == d {
                            assert(rows@.take(n + 1)[n].date == Some(dd));
                        } else {
                            assert(has_date(pre, dd));
                            let j = choose|j: int|
                                0 <= j < rows@.take(n).len() && (#[trigger] rows@.take(n)[j]).date
                                    == Some(dd);
                            assert(rows@.take(n + 1)[j].date == Some(dd));
                        }
                    }
                    assert forall|dd: Date| row_with_date(rows@.take(n + 1), dd) implies
                        #[trigger] has_date(r@, dd) by {
                        let j = choose|j: int|
                            0 <= j < rows@.take(n + 1).len() && (#[trigger] rows@.take(n + 1)[j]).date
                                == Some(dd);
                        if j < n {
                            assert(rows@.take(n)[j].date == Some(dd));
                            assert(has_date(pre, dd));
                        } else {
                            assert(dd == d);
                        }
                    }
                }
            },
            None => {
                proof {
                    assert forall|j: int| #[trigger] row_wins_upto(rows@, j, n + 1) implies
                        row_wins_upto(rows@, j, n) by {
                        assert(rows@[j].date is Some);
                        assert(j != n);
                    }
                    assert forall|dd: Date| #[trigger] has_date(r@, dd) implies row_with_date(
                        rows@.take(n + 1),
                        dd,
                    ) by {
                        let j = choose|j: int|
                            0 <= j < rows@.take(n).len() && (#[trigger] rows@.take(n)[j]).date
                                == Some(dd);
                        assert(rows@.take(n + 1)[j].date == Some(dd));
                    }
                    assert forall|dd: Date| row_with_date(rows@.take(n + 1), dd) implies
                        #[trigger] has_date(r@, dd) by {
                        let j = choose|j: int|
                            0 <= j < rows@.take(n + 1).len() && (#[trigger] rows@.take(n + 1)[j]).date
                                == Some(dd);
                        assert(j != n);
                        assert(rows@.take(n)[j].date == Some(dd));
                    }
                }
            },
        }
        i += 1;
    }
    proof {
        assert(rows@.take(rows@.len() as int) =~= rows@);
    }
    r
}

} // verus!
