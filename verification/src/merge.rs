//! Merging two record series into one canonical series.
//!
//! The merged series holds exactly the union of the two inputs' dates; on a
//! date both inputs hold, the incoming record wins, regardless of the two
//! records' values.

use vstd::prelude::*;

use crate::date::Date;
use crate::series::ConditionRecord;
use crate::series::duplicate_series;
use crate::series::has_date;
use crate::series::insert_record;
use crate::series::lemma_record_at;
use crate::series::record_at;
use crate::series::valid_series;

verus! {

/// Merges `existing` and `incoming` into one deduplicated, date-sorted
/// series. Where both inputs hold a record for the same date, the result
/// holds the `incoming` one; every other record carries over unchanged.
pub fn merge(existing: &Vec<ConditionRecord>, incoming: &Vec<ConditionRecord>) -> (r: Vec<
    ConditionRecord,
>)
    requires
        valid_series(existing@),
        valid_series(incoming@),
    ensures
        valid_series(r@),
        forall|d: Date|
            #[trigger] has_date(r@, d) <==> has_date(existing@, d) || has_date(incoming@, d),
        forall|d: Date|
            has_date(incoming@, d) ==> #[trigger] record_at(r@, d) == record_at(incoming@, d),
        forall|d: Date|
            has_date(existing@, d) && !has_date(incoming@, d) ==> #[trigger] record_at(r@, d)
                == record_at(existing@, d),
{
    let mut r = duplicate_series(existing);
    let mut i: usize = 0;
    while i < incoming.len()
        invariant
            i <= incoming.len(),
            valid_series(existing@),
            valid_series(incoming@),
            valid_series(r@),
            forall|d: Date|
                #[trigger] has_date(r@, d) <==> has_date(existing@, d) || has_date(
                    incoming@.take(i as int),
                    d,
                ),
            forall|d: Date|
                has_date(incoming@.take(i as int), d) ==> #[trigger] record_at(r@, d) == record_at(
                    incoming@,
                    d,
                ),
            forall|d: Date|
                has_date(existing@, d) && !has_date(incoming@.take(i as int), d)
                    ==> #[trigger] record_at(r@, d) == record_at(existing@, d),
        decreases incoming.len() - i,
    {
        let ghost pre = r@;
        let ghost n = i as int;
        let rec = incoming[i].duplicate();
        proof {
            lemma_record_at(incoming@, rec.date, n);
        }
        insert_record(&mut r, rec);
        proof {
            assert forall|d: Date| #[trigger] has_date(incoming@.take(n + 1), d) implies has_date(
                incoming@.take(n),
                d,
            ) || d == rec.date by {
                let j = choose|j: int|
                    0 <= j < incoming@.take(n + 1).len() && (#[trigger] incoming@.take(n + 1)[j]).date
                        == d;
                if j < n {
                    assert(incoming@.take(n)[j].date == d);
                }
            }
            assert forall|d: Date| has_date(incoming@.take(n), d) implies #[trigger] has_date(
                incoming@.take(n + 1),
                d,
            ) by {
                let j = choose|j: int|
                    0 <= j < incoming@.take(n).len() && (#[trigger] incoming@.take(n)[j]).date == d;
                assert(incoming@.take(n + 1)[j].date == d);
            }
            assert(incoming@.take(n + 1)[n].date == rec.date);
        }
        i += 1;
    }
    proof {
        assert(incoming@.take(incoming@.len() as int) =~= incoming@);
    }
    r
}

} // verus!
