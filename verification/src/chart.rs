use vstd::prelude::*;
use crate::db::{score_views, Score, ScoreView};
use crate::query::{ascending, chronological, sort_by_time};
use crate::time::Day;
use crate::value::ScoreValue;
use indexmap::IndexMap;
use std::hash::RandomState;

verus! {

/// The insertion-ordered map of `indexmap`. The library keeps the scores of
/// each day in one.
#[verifier::external_type_specification]
#[verifier::external_body]
#[verifier::reject_recursive_types(K)]
#[verifier::reject_recursive_types(V)]
#[verifier::reject_recursive_types(S)]
pub struct ExOrderedMap<K, V, S>(indexmap::IndexMap<K, V, S>);

/// What a map of days holds: its entries in the order of their insertion,
/// each a day number with the values of that day as mantissa and scale.
pub uninterp spec fn day_entries(map: IndexMap<i32, Vec<ScoreValue>, RandomState>) -> Seq<
    (int, Seq<(int, nat)>),
>;

/// The values of a list, each as mantissa and scale.
pub open spec fn value_views(list: Seq<ScoreValue>) -> Seq<(int, nat)> {
    Seq::new(list.len(), |i: int| list[i]@)
}

/// `IndexMap::new`: a map without entries.
#[verifier::external_body]
fn new_day_map() -> (map: IndexMap<i32, Vec<ScoreValue>, RandomState>)
    ensures
        day_entries(map) == Seq::<(int, Seq<(int, nat)>)>::empty(),
{
    IndexMap::new()
}

/// `IndexMap::get_index_of`: the position of the entry for `day`, if the
/// map has one.
#[verifier::external_body]
fn day_position(map: &IndexMap<i32, Vec<ScoreValue>, RandomState>, day: i32) -> (r: Option<usize>)
    ensures
        match r {
            Some(at) => at < day_entries(*map).len() && day_entries(*map)[at as int].0 == day,
            None => forall|i: int|
                0 <= i < day_entries(*map).len() ==> (#[trigger] day_entries(*map)[i]).0 != day,
        },
{
    map.get_index_of(&day)
}

/// Indexing an `IndexMap` by position, and `Vec::push` on the value found:
/// the entry at `at` gets one more value at its end, and nothing else
/// changes. Indexing panics past the last entry, which `requires` excludes.
#[verifier::external_body]
fn push_to_day(map: &mut IndexMap<i32, Vec<ScoreValue>, RandomState>, at: usize, value: ScoreValue)
    requires
        at < day_entries(*old(map)).len(),
    ensures
        day_entries(*final(map)) == day_entries(*old(map)).update(
            at as int,
            (day_entries(*old(map))[at as int].0, day_entries(*old(map))[at as int].1.push(value@)),
        ),
{
    map[at].push(value);
}

/// `IndexMap::insert`: a day that the map does not have yet becomes its
/// last entry, and the entries before it stay as they are.
#[verifier::external_body]
fn insert_day(map: &mut IndexMap<i32, Vec<ScoreValue>, RandomState>, day: i32, values: Vec<ScoreValue>)
    requires
        forall|i: int|
            0 <= i < day_entries(*old(map)).len() ==> (#[trigger] day_entries(*old(map))[i]).0
                != day,
    ensures
        day_entries(*final(map)) == day_entries(*old(map)).push((day as int, value_views(values@))),
{
    map.insert(day, values);
}

/// The scores of one day, in chronological order.
#[derive(Debug)]
pub struct DayBucket {
    pub day: Day,
    pub values: Vec<ScoreValue>,
}

impl View for DayBucket {
    type V = (int, Seq<(int, nat)>);

    open spec fn view(&self) -> (int, Seq<(int, nat)>) {
        (self.day.number as int, value_views(self.values@))
    }
}

/// The buckets of a list, each as day number and values.
pub open spec fn bucket_views(list: Seq<DayBucket>) -> Seq<(int, Seq<(int, nat)>)> {
    Seq::new(list.len(), |i: int| list[i]@)
}

/// `IndexMap::into_iter`: the entries of the map in the order of their
/// insertion, each as a bucket.
#[verifier::external_body]
fn list_days(map: IndexMap<i32, Vec<ScoreValue>, RandomState>) -> (buckets: Vec<DayBucket>)
    ensures
        bucket_views(buckets@) == day_entries(map),
{
    map.into_iter().map(|(day, values)| DayBucket { day: Day { number: day }, values }).collect()
}

/// Whether some entry is for `day`.
pub open spec fn has_day(entries: Seq<(int, Seq<(int, nat)>)>, day: int) -> bool {
    exists|i: int| 0 <= i < entries.len() && (#[trigger] entries[i]).0 == day
}

/// Whether no two entries are for the same day.
pub open spec fn days_differ(entries: Seq<(int, Seq<(int, nat)>)>) -> bool {
    forall|i: int, j: int|
        0 <= i < j < entries.len() ==> (#[trigger] entries[i]).0 != (#[trigger] entries[j]).0
}

/// The entries with one more value for `day`: at the end of the entry for
/// that day where there is one, else in a new entry behind the others.
pub open spec fn with_value(entries: Seq<(int, Seq<(int, nat)>)>, day: int, value: (int, nat)) -> Seq<
    (int, Seq<(int, nat)>),
> {
    if has_day(entries, day) {
        let at = choose|i: int| 0 <= i < entries.len() && (#[trigger] entries[i]).0 == day;
        entries.update(at, (day, entries[at].1.push(value)))
    } else {
        entries.push((day, seq![value]))
    }
}

/// The values of the scores by day: one entry for each day on which a score
/// of the list was logged, in the order in which the days first occur, each
/// with the values of that day in the order of the list.
pub open spec fn grouped(scores: Seq<ScoreView>) -> Seq<(int, Seq<(int, nat)>)>
    decreases scores.len(),
{
    if scores.len() == 0 {
        Seq::empty()
    } else {
        with_value(
            grouped(scores.drop_last()),
            scores.last().create_date.day as int,
            scores.last().score,
        )
    }
}

/// The number of values in all the entries together.
pub open spec fn value_count(entries: Seq<(int, Seq<(int, nat)>)>) -> nat
    decreases entries.len(),
{
    if entries.len() == 0 {
        0
    } else {
        value_count(entries.drop_last()) + entries.last().1.len()
    }
}

/// Groups the values of the scores by the day on which they were logged.
/// The scores are first put in chronological order, so the buckets come
/// out by ascending day and each holds its values by ascending time.
pub fn daily_buckets(scores: &mut Vec<Score>) -> (buckets: Vec<DayBucket>)
    ensures
        score_views(final(scores)@) == chronological(score_views(old(scores)@)),
        bucket_views(buckets@) == grouped(score_views(final(scores)@)),
{
    sort_by_time(scores);
    let ghost all = score_views(scores@);
    let mut map = new_day_map();
    let mut i: usize = 0;
    proof {
        assert(all.take(0) =~= Seq::empty());
    }
    while i < scores.len()
        invariant
            i <= scores.len(),
            all == score_views(scores@),
            day_entries(map) == grouped(all.take(i as int)),
            days_differ(day_entries(map)),
        decreases scores.len() - i,
    {
        let day = scores[i].create_date.date().number;
        let value = scores[i].score;
        let ghost before = day_entries(map);
        proof {
            assert(all.take(i + 1).drop_last() =~= all.take(i as int));
            assert(all.take(i + 1).last() == scores@[i as int]@);
        }
        match day_position(&map, day) {
            Some(at) => {
                push_to_day(&mut map, at, value);
                proof {
                    assert(before[at as int].0 == day);
                    assert(has_day(before, day as int));
                }
            },
            None => {
                let mut values: Vec<ScoreValue> = Vec::new();
                values.push(value);
                assert(value_views(values@) =~= seq![value@]);
                insert_day(&mut map, day, values);
                proof {
                    assert(!has_day(before, day as int));
                }
            },
        }
        i += 1;
    }
    proof {
        assert(all.take(scores.len() as int) =~= all);
    }
    list_days(map)
}

/// Adding a value keeps the days apart and adds one value.
pub proof fn with_value_is_sound(entries: Seq<(int, Seq<(int, nat)>)>, day: int, value: (int, nat))
    requires
        days_differ(entries),
    ensures
        days_differ(with_value(entries, day, value)),
        has_day(with_value(entries, day, value), day),
        forall|other: int|
            has_day(entries, other) ==> has_day(with_value(entries, day, value), other),
        forall|other: int|
            has_day(with_value(entries, day, value), other) ==> other == day || has_day(
                entries,
                other,
            ),
        value_count(with_value(entries, day, value)) == value_count(entries) + 1,
{
    let out = with_value(entries, day, value);
    if has_day(entries, day) {
        let at = choose|i: int| 0 <= i < entries.len() && (#[trigger] entries[i]).0 == day;
        assert(out[at].0 == day);
        assert forall|other: int| has_day(entries, other) implies has_day(out, other) by {
            let k = choose|k: int| 0 <= k < entries.len() && (#[trigger] entries[k]).0 == other;
            assert(out[k].0 == other);
        }
        assert forall|other: int| has_day(out, other) implies other == day || has_day(
            entries,
            other,
        ) by {
            let k = choose|k: int| 0 <= k < out.len() && (#[trigger] out[k]).0 == other;
            assert(entries[k].0 == other);
        }
        value_count_of_update(entries, at, value);
    } else {
        assert(out[entries.len() as int].0 == day);
        assert forall|other: int| has_day(entries, other) implies has_day(out, other) by {
            let k = choose|k: int| 0 <= k < entries.len() && (#[trigger] entries[k]).0 == other;
            assert(out[k].0 == other);
        }
        assert forall|other: int| has_day(out, other) implies other == day || has_day(
            entries,
            other,
        ) by {
            let k = choose|k: int| 0 <= k < out.len() && (#[trigger] out[k]).0 == other;
            if k < entries.len() {
                assert(entries[k].0 == other);
            }
        }
        assert(out.drop_last() =~= entries);
    }
}

/// One more value in one entry is one more value in all.
proof fn value_count_of_update(entries: Seq<(int, Seq<(int, nat)>)>, at: int, value: (int, nat))
    requires
        0 <= at < entries.len(),
    ensures
        value_count(entries.update(at, (entries[at].0, entries[at].1.push(value))))
            == value_count(entries) + 1,
    decreases entries.len(),
{
    let out = entries.update(at, (entries[at].0, entries[at].1.push(value)));
    if at == entries.len() - 1 {
        assert(out.drop_last() =~= entries.drop_last());
    } else {
        value_count_of_update(entries.drop_last(), at, value);
        assert(out.drop_last() =~= entries.drop_last().update(
            at,
            (entries[at].0, entries[at].1.push(value)),
        ));
    }
}

/// The days of the buckets are the days of the scores: no day occurs
/// twice, no bucket is empty, every day of a score has a bucket, and the
/// buckets hold as many values as there are scores.
pub proof fn grouped_is_sound(scores: Seq<ScoreView>)
    ensures
        days_differ(grouped(scores)),
        forall|i: int| 0 <= i < grouped(scores).len() ==> (#[trigger] grouped(scores)[i]).1.len() > 0,
        forall|k: int|
            0 <= k < scores.len() ==> has_day(
                grouped(scores),
                (#[trigger] scores[k]).create_date.day as int,
            ),
        forall|i: int|
            0 <= i < grouped(scores).len() ==> exists|k: int|
                0 <= k < scores.len() && (#[trigger] scores[k]).create_date.day == (
                #[trigger] grouped(scores)[i]).0,
        value_count(grouped(scores)) == scores.len(),
    decreases scores.len(),
{
    if scores.len() > 0 {
        let front = scores.drop_last();
        let last = scores.last();
        let day = last.create_date.day as int;
        let before = grouped(front);
        let out = grouped(scores);
        grouped_is_sound(front);
        with_value_is_sound(before, day, last.score);
        assert forall|k: int| 0 <= k < scores.len() implies has_day(
            out,
            (#[trigger] scores[k]).create_date.day as int,
        ) by {
            if k < front.len() {
                assert(front[k] == scores[k]);
                assert(has_day(before, front[k].create_date.day as int));
            }
        }
        assert forall|i: int| 0 <= i < out.len() implies (#[trigger] out[i]).1.len() > 0 by {
            if i < before.len() {
                assert(before[i].1.len() > 0);
            }
        }
        assert forall|i: int| 0 <= i < out.len() implies exists|k: int|
            0 <= k < scores.len() && (#[trigger] scores[k]).create_date.day == (
            #[trigger] out[i]).0 by {
            if out[i].0 == day {
                assert(scores[scores.len() - 1].create_date.day == out[i].0);
            } else {
                assert(has_day(out, out[i].0));
                assert(has_day(before, out[i].0));
                let j = choose|j: int| 0 <= j < before.len() && (#[trigger] before[j]).0 == out[i].0;
                let k = choose|k: int|
                    0 <= k < front.len() && (#[trigger] front[k]).create_date.day == (
                    #[trigger] before[j]).0;
                assert(scores[k] == front[k]);
            }
        }
    }
}

/// Scores in chronological order give buckets by ascending day.
pub proof fn grouped_days_ascend(scores: Seq<ScoreView>)
    requires
        ascending(scores),
    ensures
        forall|i: int, j: int|
            0 <= i < j < grouped(scores).len() ==> (#[trigger] grouped(scores)[i]).0 < (
            #[trigger] grouped(scores)[j]).0,
    decreases scores.len(),
{
    if scores.len() > 0 {
        let front = scores.drop_last();
        let last = scores.last();
        let day = last.create_date.day as int;
        let before = grouped(front);
        let out = grouped(scores);
        assert forall|i: int, j: int| 0 <= i <= j < front.len() implies (#[trigger] front[i])
            .create_date.at_or_before((#[trigger] front[j]).create_date) by {
            assert(front[i] == scores[i] && front[j] == scores[j]);
        }
        grouped_days_ascend(front);
        grouped_is_sound(front);
        if !has_day(before, day) {
            assert forall|i: int, j: int| 0 <= i < j < out.len() implies (#[trigger] out[i]).0 < (
            #[trigger] out[j]).0 by {
                if j == before.len() {
                    let k = choose|k: int|
                        0 <= k < front.len() && (#[trigger] front[k]).create_date.day == (
                        #[trigger] before[i]).0;
                    assert(scores[k].create_date.at_or_before(
                        scores[scores.len() - 1].create_date,
                    ));
                    assert(has_day(before, before[i].0));
                }
            }
        }
    }
}

} // verus!
