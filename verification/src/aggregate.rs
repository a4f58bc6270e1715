//! Per-year and per-month aggregation: for each of the six wellbeing levels,
//! how many calendar entries record that level, over the whole year and
//! within each month. Every level/month combination is present, zero where
//! nothing occurred; entries with no recorded level count nowhere.

use vstd::prelude::*;

use crate::calendar::CalendarDay;
use crate::text::level_glyph;
use crate::text::level_glyph_string;

verus! {

/// One row of the aggregation table: a wellbeing level with its trend glyph,
/// the year's count, and the twelve month counts (January first).
#[derive(Debug)]
pub struct LevelRow {
    pub level: u8,
    pub glyph: String,
    pub annual: u32,
    pub monthly: Vec<u32>,
}

/// Number of calendar entries recording level `l`.
pub open spec fn counts_level(cal: Seq<CalendarDay>, l: int) -> int
    decreases cal.len(),
{
    if cal.len() == 0 {
        0
    } else {
        counts_level(cal.drop_last(), l) + if cal.last().level == Some(l as i32) {
            1int
        } else {
            0int
        }
    }
}

/// Number of calendar entries of month `m` recording level `l`.
pub open spec fn counts_level_month(cal: Seq<CalendarDay>, l: int, m: int) -> int
    decreases cal.len(),
{
    if cal.len() == 0 {
        0
    } else {
        counts_level_month(cal.drop_last(), l, m) + if cal.last().level == Some(l as i32)
            && cal.last().date.month == m {
            1int
        } else {
            0int
        }
    }
}

/// Number of calendar entries recording any level on the six-step scale.
pub open spec fn counts_recorded(cal: Seq<CalendarDay>) -> int
    decreases cal.len(),
{
    if cal.len() == 0 {
        0
    } else {
        counts_recorded(cal.drop_last()) + if on_scale(cal.last().level) {
            1int
        } else {
            0int
        }
    }
}

/// Number of such entries within month `m`.
pub open spec fn counts_recorded_month(cal: Seq<CalendarDay>, m: int) -> int
    decreases cal.len(),
{
    if cal.len() == 0 {
        0
    } else {
        counts_recorded_month(cal.drop_last(), m) + if on_scale(cal.last().level)
            && cal.last().date.month == m {
            1int
        } else {
            0int
        }
    }
}

/// A recorded level on the report's scale.
pub open spec fn on_scale(level: Option<i32>) -> bool {
    level matches Some(v) && 0 <= v <= 5
}

/// Number of calendar entries with any recorded level.
pub open spec fn counts_with_level(cal: Seq<CalendarDay>) -> int
    decreases cal.len(),
{
    if cal.len() == 0 {
        0
    } else {
        counts_with_level(cal.drop_last()) + if cal.last().level is Some {
            1int
        } else {
            0int
        }
    }
}

/// The finished table: six rows in fixed descending level order (5 down to
/// 0), each with its glyph, the annual count, and one count per month —
/// every cell present and a number, zero where the combination never occurs.
pub open spec fn aggregation_wf(agg: Seq<LevelRow>, cal: Seq<CalendarDay>) -> bool {
    &&& agg.len() == 6
    &&& forall|r: int| 0 <= r < 6 ==> (#[trigger] agg[r]).level == 5 - r
    &&& forall|r: int| 0 <= r < 6 ==> (#[trigger] agg[r]).glyph@ == level_glyph(5 - r)
    &&& forall|r: int| 0 <= r < 6 ==> (#[trigger] agg[r]).annual == counts_level(cal, 5 - r)
    &&& forall|r: int| 0 <= r < 6 ==> (#[trigger] agg[r]).monthly@.len() == 12
    &&& forall|r: int, m0: int|
        0 <= r < 6 && 0 <= m0 < 12 ==> #[trigger] agg[r].monthly@[m0] == counts_level_month(
            cal,
            5 - r,
            m0 + 1,
        )
}

/// Counts the calendar entries recording level `l`.
fn count_level(cal: &Vec<CalendarDay>, l: u8) -> (c: u32)
    requires
        cal@.len() <= u32::MAX,
    ensures
        c == counts_level(cal@, l as int),
{
    let mut c: u32 = 0;
    let mut i: usize = 0;
    while i < cal.len()
        invariant
            i <= cal@.len() <= u32::MAX,
            c <= i,
            c == counts_level(cal@.take(i as int), l as int),
        decreases cal@.len() - i,
    {
        let hit = match cal[i].level {
            Some(v) => v == l as i32,
            None => false,
        };
        if hit {
            c += 1;
        }
        proof {
            assert(cal@.take(i + 1).drop_last() =~= cal@.take(i as int));
            assert(cal@.take(i + 1).last() == cal@[i as int]);
        }
        i += 1;
    }
    proof {
        assert(cal@.take(cal@.len() as int) =~= cal@);
    }
    c
}

/// Counts the calendar entries of month `m` recording level `l`.
fn count_level_month(cal: &Vec<CalendarDay>, l: u8, m: u8) -> (c: u32)
    requires
        cal@.len() <= u32::MAX,
    ensures
        c == counts_level_month(cal@, l as int, m as int),
{
    let mut c: u32 = 0;
    let mut i: usize = 0;
    while i < cal.len()
        invariant
            i <= cal@.len() <= u32::MAX,
            c <= i,
            c == counts_level_month(cal@.take(i as int), l as int, m as int),
        decreases cal@.len() - i,
    {
        let hit = match cal[i].level {
            Some(v) => v == l as i32 && cal[i].date.month == m,
            None => false,
        };
        if hit {
            c += 1;
        }
        proof {
            assert(cal@.take(i + 1).drop_last() =~= cal@.take(i as int));
            assert(cal@.take(i + 1).last() == cal@[i as int]);
        }
        i += 1;
    }
    proof {
        assert(cal@.take(cal@.len() as int) =~= cal@);
    }
    c
}

/// Builds the aggregation table of a year calendar: six fixed rows, level 5
/// down to level 0, each with the annual count and the twelve month counts.
pub fn aggregate(cal: &Vec<CalendarDay>) -> (agg: Vec<LevelRow>)
    requires
        cal@.len() <= u32::MAX,
    ensures
        aggregation_wf(agg@, cal@),
{
    let mut agg: Vec<LevelRow> = Vec::new();
    let mut r: u8 = 0;
    while r < 6
        invariant
            cal@.len() <= u32::MAX,
            r <= 6,
            agg@.len() == r,
            forall|k: int| 0 <= k < r ==> (#[trigger] agg@[k]).level == 5 - k,
            forall|k: int| 0 <= k < r ==> (#[trigger] agg@[k]).glyph@ == level_glyph(5 - k),
            forall|k: int| 0 <= k < r ==> (#[trigger] agg@[k]).annual == counts_level(cal@, 5 - k),
            forall|k: int| 0 <= k < r ==> (#[trigger] agg@[k]).monthly@.len() == 12,
            forall|k: int, m0: int|
                0 <= k < r && 0 <= m0 < 12 ==> #[trigger] agg@[k].monthly@[m0]
                    == counts_level_month(cal@, 5 - k, m0 + 1),
        decreases 6 - r,
    {
        let level: u8 = 5 - r;
        let mut monthly: Vec<u32> = Vec::new();
        let mut m: u8 = 1;
        while m <= 12
            invariant
                cal@.len() <= u32::MAX,
                1 <= m <= 13,
                monthly@.len() == m - 1,
                forall|m0: int|
                    0 <= m0 < m - 1 ==> #[trigger] monthly@[m0] == counts_level_month(
                        cal@,
                        level as int,
                        m0 + 1,
                    ),
            decreases 13 - m,
        {
            monthly.push(count_level_month(cal, level, m));
            m += 1;
        }
        agg.push(
            LevelRow {
                level,
                glyph: level_glyph_string(level),
                annual: count_level(cal, level),
                monthly,
            },
        );
        r += 1;
    }
    agg
}

/// Aggregation closure: in the finished table, the six annual counts add up
/// to the number of calendar entries recording an on-scale level, and each
/// month's six counts add up to that month's number of such entries.
pub proof fn lemma_aggregation_closure(agg: Seq<LevelRow>, cal: Seq<CalendarDay>)
    requires
        aggregation_wf(agg, cal),
    ensures
        agg[0].annual + agg[1].annual + agg[2].annual + agg[3].annual + agg[4].annual
            + agg[5].annual == counts_recorded(cal),
        forall|m0: int|
            0 <= m0 < 12 ==> #[trigger] agg[0].monthly[m0] + agg[1].monthly[m0] + agg[2].monthly[m0]
                + agg[3].monthly[m0] + agg[4].monthly[m0] + agg[5].monthly[m0]
                == counts_recorded_month(cal, m0 + 1),
{
    lemma_levels_partition(cal);
    assert forall|m0: int| 0 <= m0 < 12 implies #[trigger] agg[0].monthly[m0] + agg[1].monthly[m0]
        + agg[2].monthly[m0] + agg[3].monthly[m0] + agg[4].monthly[m0] + agg[5].monthly[m0]
        == counts_recorded_month(cal, m0 + 1) by {
        lemma_levels_partition_month(cal, m0 + 1);
    }
}

/// Aggregation closure over all recorded days: where every recorded level
/// lies on the six-step scale — the data model's invariant — the six annual
/// counts add up to the number of calendar entries with any recorded level.
/// (An off-scale level, say 9, is counted by no row, so such inputs stay
/// outside this law's premise.)
pub proof fn lemma_closure_counts_all_recorded(agg: Seq<LevelRow>, cal: Seq<CalendarDay>)
    requires
        aggregation_wf(agg, cal),
        forall|i: int|
            0 <= i < cal.len() ==> ((#[trigger] cal[i]).level matches Some(v) ==> 0 <= v <= 5),
    ensures
        agg[0].annual + agg[1].annual + agg[2].annual + agg[3].annual + agg[4].annual
            + agg[5].annual == counts_with_level(cal),
{
    lemma_aggregation_closure(agg, cal);
    lemma_recorded_eq_with_level(cal);
}

/// Under the level-range invariant, the on-scale count is the recorded
/// count.
proof fn lemma_recorded_eq_with_level(cal: Seq<CalendarDay>)
    requires
        forall|i: int|
            0 <= i < cal.len() ==> ((#[trigger] cal[i]).level matches Some(v) ==> 0 <= v <= 5),
    ensures
        counts_recorded(cal) == counts_with_level(cal),
    decreases cal.len(),
{
    if cal.len() > 0 {
        assert(cal[cal.len() - 1].level matches Some(v) ==> 0 <= v <= 5);
        assert forall|i: int|
            0 <= i < cal.drop_last().len() implies ((#[trigger] cal.drop_last()[i]).level
            matches Some(v) ==> 0 <= v <= 5) by {
            assert(cal.drop_last()[i] == cal[i]);
        }
        lemma_recorded_eq_with_level(cal.drop_last());
    }
}

/// The six per-level counts partition the on-scale entries.
pub proof fn lemma_levels_partition(cal: Seq<CalendarDay>)
    ensures
        counts_level(cal, 0) + counts_level(cal, 1) + counts_level(cal, 2) + counts_level(cal, 3)
            + counts_level(cal, 4) + counts_level(cal, 5) == counts_recorded(cal),
    decreases cal.len(),
{
    if cal.len() > 0 {
        lemma_levels_partition(cal.drop_last());
    }
}

/// The six per-level counts of month `m` partition its on-scale entries.
pub proof fn lemma_levels_partition_month(cal: Seq<CalendarDay>, m: int)
    ensures
        counts_level_month(cal, 0, m) + counts_level_month(cal, 1, m) + counts_level_month(
            cal,
            2,
            m,
        ) + counts_level_month(cal, 3, m) + counts_level_month(cal, 4, m) + counts_level_month(
            cal,
            5,
            m,
        ) == counts_recorded_month(cal, m),
    decreases cal.len(),
{
    if cal.len() > 0 {
        lemma_levels_partition_month(cal.drop_last(), m);
    }
}

} // verus!
