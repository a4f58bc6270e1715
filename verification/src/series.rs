//! Daily condition records and date-sorted record series.
//!
//! A series holds at most one record per date, in ascending date order; that
//! invariant is [`valid_series`]. [`record_at`] names the record a series
//! holds for a date, and is what the merge and calendar contracts speak of.

use vstd::prelude::*;

use crate::date::Date;
use crate::date::lemma_key_injective;

verus! {

/// One day's entry: an optional ordinal wellbeing score and an optional
/// free-text comment, keyed by the date.
#[derive(Debug)]
pub struct ConditionRecord {
    pub date: Date,
    pub level: Option<i32>,
    pub comment: Option<String>,
}

impl ConditionRecord {
    /// An equal copy of this record.
    pub fn duplicate(&self) -> (r: ConditionRecord)
        ensures
            r == *self,
    {
        ConditionRecord {
            date: self.date,
            level: self.level,
            comment: match &self.comment {
                Some(c) => Some(c.clone()),
                None => None,
            },
        }
    }
}

/// Strictly ascending date order (which also rules out duplicate dates).
pub open spec fn sorted_by_date(s: Seq<ConditionRecord>) -> bool {
    forall|i: int, j: int|
        #![trigger s[i], s[j]]
        0 <= i < j < s.len() ==> s[i].date.key() < s[j].date.key()
}

pub open spec fn all_dates_valid(s: Seq<ConditionRecord>) -> bool {
    forall|i: int| 0 <= i < s.len() ==> (#[trigger] s[i]).date.valid()
}

/// The record-series invariant: valid dates, ascending, at most one per date.
pub open spec fn valid_series(s: Seq<ConditionRecord>) -> bool {
    sorted_by_date(s) && all_dates_valid(s)
}

/// Whether the series holds a record for date `d`.
pub open spec fn has_date(s: Seq<ConditionRecord>, d: Date) -> bool {
    exists|i: int| 0 <= i < s.len() && (#[trigger] s[i]).date == d
}

/// The record the series holds for date `d` (meaningful when `has_date`).
pub open spec fn record_at(s: Seq<ConditionRecord>, d: Date) -> ConditionRecord {
    s[choose|i: int| 0 <= i < s.len() && s[i].date == d]
}

/// In a valid series, any index whose record carries date `d` witnesses
/// `record_at(s, d)`.
pub proof fn lemma_record_at(s: Seq<ConditionRecord>, d: Date, i: int)
    requires
        valid_series(s),
        0 <= i < s.len(),
        s[i].date == d,
    ensures
        has_date(s, d),
        record_at(s, d) == s[i],
{
    let j = choose|j: int| 0 <= j < s.len() && s[j].date == d;
    if i != j {
        assert(s[i].date.key() == s[j].date.key());
        assert(false);
    }
}

/// An equal copy of a whole series.
pub fn duplicate_series(s: &Vec<ConditionRecord>) -> (r: Vec<ConditionRecord>)
    ensures
        r@ == s@,
{
    let mut r: Vec<ConditionRecord> = Vec::new();
    let mut i: usize = 0;
    while i < s.len()
        invariant
            i <= s.len(),
            r@ == s@.take(i as int),
        decreases s.len() - i,
    {
        r.push(s[i].duplicate());
        proof {
            assert(r@ =~= s@.take(i + 1));
        }
        i += 1;
    }
    proof {
        assert(r@ =~= s@);
    }
    r
}

/// The record a series holds for date `d`, if any, as a fresh copy.
pub fn lookup(s: &Vec<ConditionRecord>, d: Date) -> (r: Option<ConditionRecord>)
    requires
        valid_series(s@),
        d.valid(),
    ensures
        match r {
            Some(rec) => has_date(s@, d) && rec == record_at(s@, d),
            None => !has_date(s@, d),
        },
{
    let mut i: usize = 0;
    while i < s.len()
        invariant
            i <= s.len(),
            valid_series(s@),
            d.valid(),
            forall|j: int| 0 <= j < i ==> (#[trigger] s@[j]).date != d,
        decreases s.len() - i,
    {
        if s[i].date == d {
            proof {
                lemma_record_at(s@, d, i as int);
            }
            return Some(s[i].duplicate());
        }
        i += 1;
    }
    None
}

/// Puts `rec` into the series at its date's position, replacing any record
/// already there, and keeps the series invariant.
#[verifier::rlimit(60)]
pub fn insert_record(s: &mut Vec<ConditionRecord>, rec: ConditionRecord)
    requires
        valid_series(old(s)@),
        rec.date.valid(),
    ensures
        valid_series(final(s)@),
        has_date(final(s)@, rec.date),
        record_at(final(s)@, rec.date) == rec,
        forall|d: Date|
            d != rec.date ==> (#[trigger] has_date(final(s)@, d) <==> has_date(old(s)@, d)),
        forall|d: Date|
            d != rec.date && has_date(old(s)@, d) ==> #[trigger] record_at(final(s)@, d)
                == record_at(old(s)@, d),
{
    let ghost s0 = s@;
    let k: u32 = rec.date.key_u32();
    let mut p: usize = 0;
    while p < s.len() && s[p].date.key_u32() < k
        invariant
            p <= s.len(),
            valid_series(s@),
            s@ == s0,
            rec.date.valid(),
            k == rec.date.key(),
            forall|j: int| 0 <= j < p ==> (#[trigger] s@[j]).date.key() < k,
        decreases s.len() - p,
    {
        p += 1;
    }
    if p < s.len() && s[p].date.key_u32() == k {
        proof {
            lemma_key_injective(s0[p as int].date, rec.date);
        }
        s.set(p, rec);
        proof {
            lemma_record_at(s@, rec.date, p as int);
            assert forall|d: Date| d != rec.date implies (#[trigger] has_date(s@, d)
                <==> has_date(s0, d)) by {
                if has_date(s@, d) {
                    let i = choose|i: int| 0 <= i < s@.len() && s@[i].date == d;
                    assert(s0[i].date == d);
                }
                if has_date(s0, d) {
                    let i = choose|i: int| 0 <= i < s0.len() && s0[i].date == d;
                    assert(i != p);
                    assert(s@[i].date == d);
                }
            }
            assert forall|d: Date| d != rec.date && has_date(s0, d) implies #[trigger] record_at(
                s@,
                d,
            ) == record_at(s0, d) by {
                let i = choose|i: int| 0 <= i < s0.len() && s0[i].date == d;
                assert(i != p);
                lemma_record_at(s0, d, i);
                lemma_record_at(s@, d, i);
            }
        }
    } else {
        assert(p < s.len() ==> s0[p as int].date.key() > k);
        s.insert(p, rec);
        proof {
            assert forall|i: int, j: int|
                #![trigger s@[i], s@[j]]
                0 <= i < j < s@.len() implies s@[i].date.key() < s@[j].date.key() by {
                if j < p {
                    assert(s@[i] == s0[i] && s@[j] == s0[j]);
                } else if i > p {
                    assert(s@[i] == s0[i - 1] && s@[j] == s0[j - 1]);
                } else if i == p && j > p {
                    assert(s@[j] == s0[j - 1] && s0[j - 1].date.key() >= s0[p as int].date.key());
                } else if j == p && i < p {
                    assert(s@[i] == s0[i]);
                } else if i < p && j > p {
                    assert(s@[i] == s0[i] && s@[j] == s0[j - 1]);
                }
            }
            assert(all_dates_valid(s@)) by {
                assert forall|i: int| 0 <= i < s@.len() implies (#[trigger] s@[i]).date.valid() by {
                    if i < p {
                        assert(s@[i] == s0[i]);
                    } else if i > p {
                        assert(s@[i] == s0[i - 1]);
                    }
                }
            }
            lemma_record_at(s@, rec.date, p as int);
            assert forall|d: Date| d != rec.date implies (#[trigger] has_date(s@, d)
                <==> has_date(s0, d)) by {
                if has_date(s@, d) {
                    let i = choose|i: int| 0 <= i < s@.len() && s@[i].date == d;
                    if i < p {
                        assert(s0[i].date == d);
                    } else {
                        assert(i != p);
                        assert(s0[i - 1].date == d);
                    }
                }
                if has_date(s0, d) {
                    let i = choose|i: int| 0 <= i < s0.len() && s0[i].date == d;
                    if i < p {
                        assert(s@[i].date == d);
                    } else {
                        assert(s@[i + 1].date == d);
                    }
                }
            }
            assert forall|d: Date| d != rec.date && has_date(s0, d) implies #[trigger] record_at(
                s@,
                d,
            ) == record_at(s0, d) by {
                let i = choose|i: int| 0 <= i < s0.len() && s0[i].date == d;
                lemma_record_at(s0, d, i);
                if i < p {
                    assert(s@[i].date == d);
                    lemma_record_at(s@, d, i);
                } else {
                    assert(s@[i + 1].date == d);
                    lemma_record_at(s@, d, i + 1);
                }
            }
        }
    }
}

} // verus!
