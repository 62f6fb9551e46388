use vstd::prelude::*;
use crate::db::{
    score_row_views, score_views, tag_row_views, Score, ScoreRow, ScoreRowView, ScoreView,
    StoredView, TagRow, TagRowView,
};
use crate::error::AppError;
use crate::filter::{constraint_views, meets_all, Filter, FilterView};
use crate::names::names;
use crate::time::Day;
use crate::value::{decimal_text, parsed_decimal, reads_back, ScoreValue};

verus! {

/// The names of the tags stored for the score `score_id`, in their stored
/// order, repeats included.
pub open spec fn tags_of(table: Seq<TagRowView>, score_id: int) -> Seq<Seq<char>> {
    table.filter(|tag: TagRowView| tag.score_id == score_id).map_values(
        |tag: TagRowView| tag.name,
    )
}

/// A stored score with its tags attached.
pub open spec fn joined_one(row: ScoreRowView, table: Seq<TagRowView>) -> StoredView {
    StoredView {
        id: row.id,
        score: row.score,
        create_date: row.create_date,
        tags: tags_of(table, row.id as int),
    }
}

/// The stored scores, each with its tags attached.
pub open spec fn joined(rows: Seq<ScoreRowView>, table: Seq<TagRowView>) -> Seq<StoredView> {
    Seq::new(rows.len(), |i: int| joined_one(rows[i], table))
}

/// The rows that storing `tags` for the score `score_id` adds to the tags:
/// one for each tag, in the order given.
pub open spec fn tag_rows_for(score_id: int, tags: Seq<Seq<char>>) -> Seq<TagRowView> {
    Seq::new(tags.len(), |i: int| TagRowView { score_id, name: tags[i] })
}

/// The stored scores that a filter admits, in their stored order.
pub open spec fn admitted(rows: Seq<StoredView>, filter: FilterView) -> Seq<StoredView> {
    rows.filter(|row: StoredView| filter.admits(row.create_date, row.tags))
}

/// Whether the text of every stored score of a list is a decimal.
pub open spec fn decodable(rows: Seq<StoredView>) -> bool {
    forall|i: int| 0 <= i < rows.len() ==> parsed_decimal(#[trigger] rows[i].score) is Some
}

/// A stored score with its value read from the text.
pub open spec fn decoded_one(row: StoredView) -> ScoreView {
    ScoreView {
        id: row.id,
        score: parsed_decimal(row.score).unwrap(),
        create_date: row.create_date,
        tags: row.tags,
    }
}

/// The scores of a list of stored scores, in the same order.
pub open spec fn decoded(rows: Seq<StoredView>) -> Seq<ScoreView> {
    Seq::new(rows.len(), |i: int| decoded_one(rows[i]))
}

/// A chronological list with one more score put in its place: behind every
/// score that is not later than it.
pub open spec fn placed(list: Seq<ScoreView>, item: ScoreView) -> Seq<ScoreView>
    decreases list.len(),
{
    if list.len() == 0 {
        seq![item]
    } else if list.last().create_date.at_or_before(item.create_date) {
        list.push(item)
    } else {
        placed(list.drop_last(), item).push(list.last())
    }
}

/// The scores of a list in chronological order. Scores with the same
/// timestamp keep the order they had.
pub open spec fn chronological(list: Seq<ScoreView>) -> Seq<ScoreView>
    decreases list.len(),
{
    if list.len() == 0 {
        list
    } else {
        placed(chronological(list.drop_last()), list.last())
    }
}

/// Whether no score of a list is later than one behind it.
pub open spec fn ascending(list: Seq<ScoreView>) -> bool {
    forall|i: int, j: int|
        0 <= i <= j < list.len() ==> (#[trigger] list[i]).create_date.at_or_before(
            (#[trigger] list[j]).create_date,
        )
}

/// What a query returns: the admitted scores, decoded, in chronological
/// order.
pub open spec fn selection(rows: Seq<StoredView>, filter: FilterView) -> Seq<ScoreView> {
    chronological(decoded(admitted(rows, filter)))
}

/// Putting a score at position `at` is placing it, when every score from
/// `at` on is later and the one before `at`, if any, is not.
proof fn placed_is_insert(list: Seq<ScoreView>, item: ScoreView, at: int)
    requires
        0 <= at <= list.len(),
        forall|k: int|
            at <= k < list.len() ==> !(#[trigger] list[k]).create_date.at_or_before(
                item.create_date,
            ),
        at > 0 ==> list[at - 1].create_date.at_or_before(item.create_date),
    ensures
        placed(list, item) == list.insert(at, item),
    decreases list.len() - at,
{
    if list.len() == 0 {
        assert(list.insert(at, item) =~= seq![item]);
    } else if at == list.len() {
        assert(list.insert(at, item) =~= list.push(item));
    } else {
        placed_is_insert(list.drop_last(), item, at);
        assert(list.drop_last().insert(at, item).push(list.last()) =~= list.insert(at, item));
    }
}

/// Puts a score in its place in a chronological list.
fn place(list: &mut Vec<Score>, item: Score)
    ensures
        score_views(final(list)@) == placed(score_views(old(list)@), item@),
{
    let ghost before = score_views(list@);
    let mut at: usize = list.len();
    while at > 0 && !list[at - 1].create_date.is_at_or_before(&item.create_date)
        invariant
            at <= list.len(),
            before == score_views(list@),
            forall|k: int|
                at <= k < list.len() ==> !(#[trigger] before[k]).create_date.at_or_before(
                    item.create_date,
                ),
        decreases at,
    {
        at -= 1;
    }
    proof {
        if at > 0 {
            assert(before[at - 1].create_date == list@[at - 1].create_date);
        }
        placed_is_insert(before, item@, at as int);
    }
    list.insert(at, item);
    assert(score_views(list@) =~= before.insert(at as int, item@));
}

/// The admitted scores of a list with one more stored score at its end.
proof fn admitted_push(rows: Seq<StoredView>, row: StoredView, filter: FilterView)
    ensures
        admitted(rows.push(row), filter) == if filter.admits(row.create_date, row.tags) {
            admitted(rows, filter).push(row)
        } else {
            admitted(rows, filter)
        },
{
    reveal(Seq::filter);
    assert(rows.push(row).drop_last() =~= rows);
}

/// The tags of one more stored tag row.
proof fn tags_of_push(table: Seq<TagRowView>, tag: TagRowView, score_id: int)
    ensures
        tags_of(table.push(tag), score_id) == if tag.score_id == score_id {
            tags_of(table, score_id).push(tag.name)
        } else {
            tags_of(table, score_id)
        },
{
    reveal(Seq::filter);
    assert(table.push(tag).drop_last() =~= table);
    let pred = |tag: TagRowView| tag.score_id == score_id;
    if tag.score_id == score_id {
        assert(table.push(tag).filter(pred) == table.filter(pred).push(tag));
        assert(tags_of(table.push(tag), score_id) =~= tags_of(table, score_id).push(tag.name));
    }
}

/// Picks the names of the tags stored for one score, in their stored order.
pub fn names_for(table: &Vec<TagRow>, score_id: usize) -> (found: Vec<String>)
    ensures
        names(found@) == tags_of(tag_row_views(table@), score_id as int),
{
    let ghost all = tag_row_views(table@);
    let mut found: Vec<String> = Vec::new();
    let mut i: usize = 0;
    proof {
        reveal(Seq::filter);
        assert(all.take(0) =~= Seq::empty());
        assert(names(found@) =~= tags_of(all.take(0), score_id as int));
    }
    while i < table.len()
        invariant
            i <= table.len(),
            all == tag_row_views(table@),
            names(found@) == tags_of(all.take(i as int), score_id as int),
        decreases table.len() - i,
    {
        proof {
            assert(all.take(i + 1) =~= all.take(i as int).push(table@[i as int]@));
            tags_of_push(all.take(i as int), table@[i as int]@, score_id as int);
        }
        let tag = &table[i];
        if tag.score_id >= 0 && tag.score_id as u64 == score_id as u64 {
            let ghost before = names(found@);
            found.push(tag.name.clone());
            assert(names(found@) =~= before.push(tag.name@));
        }
        i += 1;
    }
    assert(all.take(table.len() as int) =~= all);
    found
}

/// Runs a query on what the store holds: attaches to each stored score the
/// tags stored for it, keeps the scores that the filter admits, reads their
/// values and puts them in chronological order.
///
/// A filter that contradicts itself is a configuration error, whatever is
/// stored. Otherwise an admitted score whose text is no decimal is a
/// decoding error, and nothing is returned; scores that the filter leaves
/// out are not read.
pub fn select(rows: Vec<ScoreRow>, table: &Vec<TagRow>, filter: &Filter) -> (r: Result<
    Vec<Score>,
    AppError,
>)
    ensures
        r matches Err(AppError::Configuration(_)) <==> !filter@.is_consistent(),
        r matches Err(AppError::Decoding(_)) <==> filter@.is_consistent() && !decodable(
            admitted(joined(score_row_views(rows@), tag_row_views(table@)), filter@),
        ),
        !(r matches Err(AppError::Storage(_))),
        r matches Ok(list) ==> score_views(list@) == selection(
            joined(score_row_views(rows@), tag_row_views(table@)),
            filter@,
        ),
        r matches Ok(list) ==> ascending(score_views(list@)),
{
    let constraints = match filter.compile() {
        Ok(constraints) => constraints,
        Err(e) => {
            return Err(e);
        },
    };
    let ghost all = joined(score_row_views(rows@), tag_row_views(table@));
    let mut list: Vec<Score> = Vec::new();
    proof {
        reveal(Seq::filter);
        assert(all.take(0) =~= Seq::empty());
        assert(score_views(list@) =~= selection(all.take(0), filter@));
    }
    for row in it: rows
        invariant
            all == joined(score_row_views(it.seq()), tag_row_views(table@)),
            constraint_views(constraints@) == filter@.constraints(),
            decodable(admitted(all.take(it.index() as int), filter@)),
            score_views(list@) == selection(all.take(it.index() as int), filter@),
    {
        let ghost i = it.index() as int;
        let ghost seen = all.take(i);
        let tags = names_for(table, row.id);
        let ghost stored = joined_one(row@, tag_row_views(table@));
        proof {
            assert(all[i] == stored);
            assert(all.take(i + 1) =~= seen.push(stored));
            admitted_push(seen, stored, filter@);
            filter@.constraints_mean_admits(row.create_date, names(tags@));
        }
        if meets_all(&constraints, &row.create_date, &tags) {
            match ScoreValue::from_text(row.score.as_str()) {
                Ok(value) => {
                    let score = Score {
                        id: row.id,
                        score: value,
                        create_date: row.create_date,
                        tags,
                    };
                    assert(score@ == decoded_one(stored));
                    assert(decoded(admitted(seen, filter@).push(stored)) =~= decoded(
                        admitted(seen, filter@),
                    ).push(score@));
                    assert(decoded(admitted(seen, filter@).push(stored)).drop_last() =~= decoded(
                        admitted(seen, filter@),
                    ));
                    place(&mut list, score);
                },
                Err(e) => {
                    proof {
                        let kept = admitted(all, filter@);
                        let pred = |row: StoredView| filter@.admits(row.create_date, row.tags);
                        all.lemma_filter_contains(pred, i);
                        assert(kept.contains(stored));
                        let k = choose|k: int| 0 <= k < kept.len() && kept[k] == stored;
                        assert(parsed_decimal(kept[k].score) is None);
                    }
                    return Err(e);
                },
            }
        }
    }
    proof {
        assert(all.take(all.len() as int) =~= all);
        chronological_is_ascending(decoded(admitted(all, filter@)));
    }
    Ok(list)
}

/// Placing a score in an ascending list leaves it ascending.
pub proof fn placed_is_ascending(list: Seq<ScoreView>, item: ScoreView)
    requires
        ascending(list),
    ensures
        ascending(placed(list, item)),
        placed(list, item).len() == list.len() + 1,
    decreases list.len(),
{
    if list.len() == 0 {
    } else if list.last().create_date.at_or_before(item.create_date) {
        let out = list.push(item);
        assert forall|i: int, j: int| 0 <= i <= j < out.len() implies (#[trigger] out[i])
            .create_date.at_or_before((#[trigger] out[j]).create_date) by {
            if j == list.len() && i < list.len() {
                assert(list[i].create_date.at_or_before(list.last().create_date));
                list[i].create_date.order_is_transitive(list.last().create_date, item.create_date);
            }
        }
    } else {
        let front = list.drop_last();
        placed_is_ascending(front, item);
        placed_holds_the_same(front, item);
        let inner = placed(front, item);
        let out = inner.push(list.last());
        item.create_date.order_is_total(list.last().create_date);
        assert forall|i: int, j: int| 0 <= i <= j < out.len() implies (#[trigger] out[i])
            .create_date.at_or_before((#[trigger] out[j]).create_date) by {
            if j == inner.len() && i < inner.len() {
                assert(inner.to_multiset().count(inner[i]) > 0) by {
                    inner.to_multiset_ensures();
                    assert(inner.contains(inner[i]));
                }
                if inner[i] == item {
                } else {
                    assert(front.to_multiset().count(inner[i]) > 0);
                    front.to_multiset_ensures();
                    assert(front.contains(inner[i]));
                    let k = choose|k: int| 0 <= k < front.len() && front[k] == inner[i];
                    assert(list[k].create_date.at_or_before(list.last().create_date));
                }
            }
        }
    }
}

/// Placing a score adds that score and changes nothing else.
pub proof fn placed_holds_the_same(list: Seq<ScoreView>, item: ScoreView)
    ensures
        placed(list, item).to_multiset() == list.to_multiset().insert(item),
    decreases list.len(),
{
    broadcast use vstd::seq_lib::group_to_multiset_ensures;

    if list.len() == 0 {
        assert(placed(list, item) =~= list.push(item));
    } else if list.last().create_date.at_or_before(item.create_date) {
    } else {
        placed_holds_the_same(list.drop_last(), item);
        assert(list.drop_last().push(list.last()) =~= list);
        assert(placed(list, item).to_multiset() =~= list.to_multiset().insert(item));
    }
}

/// The chronological order of a list is ascending.
pub proof fn chronological_is_ascending(list: Seq<ScoreView>)
    ensures
        ascending(chronological(list)),
        chronological(list).len() == list.len(),
    decreases list.len(),
{
    if list.len() > 0 {
        chronological_is_ascending(list.drop_last());
        placed_is_ascending(chronological(list.drop_last()), list.last());
    }
}

/// The chronological order of a list holds the scores of the list, each as
/// often as the list does.
pub proof fn chronological_holds_the_same(list: Seq<ScoreView>)
    ensures
        chronological(list).to_multiset() == list.to_multiset(),
    decreases list.len(),
{
    broadcast use vstd::seq_lib::group_to_multiset_ensures;

    if list.len() > 0 {
        chronological_holds_the_same(list.drop_last());
        placed_holds_the_same(chronological(list.drop_last()), list.last());
        assert(list.drop_last().push(list.last()) =~= list);
    }
}

/// Every score of a selection is one that the filter admits.
pub proof fn selection_is_admitted(rows: Seq<StoredView>, filter: FilterView)
    ensures
        forall|k: int|
            0 <= k < selection(rows, filter).len() ==> filter.admits(
                (#[trigger] selection(rows, filter)[k]).create_date,
                selection(rows, filter)[k].tags,
            ),
{
    broadcast use vstd::seq_lib::group_to_multiset_ensures;

    let kept = admitted(rows, filter);
    let list = decoded(kept);
    let out = selection(rows, filter);
    let pred = |row: StoredView| filter.admits(row.create_date, row.tags);
    chronological_holds_the_same(list);
    assert forall|k: int| 0 <= k < out.len() implies filter.admits(
        (#[trigger] out[k]).create_date,
        out[k].tags,
    ) by {
        assert(out.contains(out[k]));
        assert(out.to_multiset().count(out[k]) > 0);
        assert(list.contains(out[k]));
        let j = choose|j: int| 0 <= j < list.len() && list[j] == out[k];
        rows.lemma_filter_pred(pred, j);
        assert(list[j] == decoded_one(kept[j]));
    }
}

/// Whether a score is the decoding of a stored score that the filter admits.
pub open spec fn is_admitted_score(
    rows: Seq<StoredView>,
    filter: FilterView,
    score: ScoreView,
) -> bool {
    exists|i: int|
        0 <= i < rows.len() && filter.admits(rows[i].create_date, rows[i].tags) && score
            == #[trigger] decoded_one(rows[i])
}

/// A selection holds the admitted scores and no others: every stored score
/// that the filter admits is in it, decoded, every score in it is the
/// decoding of a stored score that the filter admits, and each is in it as
/// often as it is admitted.
pub proof fn selection_is_exact(rows: Seq<StoredView>, filter: FilterView)
    ensures
        forall|i: int|
            0 <= i < rows.len() && filter.admits(rows[i].create_date, rows[i].tags)
                ==> selection(rows, filter).contains(#[trigger] decoded_one(rows[i])),
        forall|k: int|
            0 <= k < selection(rows, filter).len() ==> is_admitted_score(
                rows,
                filter,
                #[trigger] selection(rows, filter)[k],
            ),
        selection(rows, filter).len() == admitted(rows, filter).len(),
        selection(rows, filter).to_multiset() == decoded(admitted(rows, filter)).to_multiset(),
{
    broadcast use vstd::seq_lib::group_to_multiset_ensures;

    let kept = admitted(rows, filter);
    let list = decoded(kept);
    let out = selection(rows, filter);
    let pred = |row: StoredView| filter.admits(row.create_date, row.tags);
    chronological_holds_the_same(list);
    chronological_is_ascending(list);
    assert forall|i: int|
        0 <= i < rows.len() && filter.admits(
            rows[i].create_date,
            rows[i].tags,
        ) implies out.contains(#[trigger] decoded_one(rows[i])) by {
        rows.lemma_filter_contains(pred, i);
        let j = choose|j: int| 0 <= j < kept.len() && kept[j] == rows[i];
        assert(list[j] == decoded_one(rows[i]));
        assert(list.contains(decoded_one(rows[i])));
        assert(out.to_multiset().count(decoded_one(rows[i])) > 0);
    }
    assert forall|k: int| 0 <= k < out.len() implies is_admitted_score(
        rows,
        filter,
        #[trigger] out[k],
    ) by {
        assert(out.contains(out[k]));
        assert(out.to_multiset().count(out[k]) > 0);
        assert(list.contains(out[k]));
        let j = choose|j: int| 0 <= j < list.len() && list[j] == out[k];
        rows.lemma_filter_pred(pred, j);
        assert(kept.contains(kept[j]));
        rows.lemma_filter_contains_rev(pred, kept[j]);
        let i = choose|i: int| 0 <= i < rows.len() && rows[i] == kept[j];
        assert(out[k] == decoded_one(rows[i]));
    }
}

/// Every query answers in chronological order.
pub proof fn selection_is_ascending(rows: Seq<StoredView>, filter: FilterView)
    ensures
        ascending(selection(rows, filter)),
{
    chronological_is_ascending(decoded(admitted(rows, filter)));
}

/// A score for which no tag is stored carries no tag, and the other way
/// round.
pub proof fn untagged_means_no_rows(table: Seq<TagRowView>, score_id: int)
    ensures
        tags_of(table, score_id).len() == 0 <==> forall|k: int|
            0 <= k < table.len() ==> (#[trigger] table[k]).score_id != score_id,
    decreases table.len(),
{
    if table.len() == 0 {
        reveal(Seq::filter);
    } else {
        untagged_means_no_rows(table.drop_last(), score_id);
        assert(table.drop_last().push(table.last()) =~= table);
        tags_of_push(table.drop_last(), table.last(), score_id);
        if tags_of(table, score_id).len() == 0 {
            assert forall|k: int| 0 <= k < table.len() implies (#[trigger] table[k]).score_id
                != score_id by {
                if k < table.len() - 1 {
                    assert(table.drop_last()[k] == table[k]);
                }
            }
        } else if table.last().score_id != score_id {
            let k = choose|k: int|
                0 <= k < table.drop_last().len() && (#[trigger] table.drop_last()[k]).score_id
                    == score_id;
            assert(table[k].score_id == score_id);
        }
    }
}

/// A score that was stored without tags is in the answer to the query that
/// asks for nothing and in the answer to the query for untagged scores, and
/// in no answer to a query that asks for tags.
pub proof fn untagged_score_is_visible(
    rows: Seq<ScoreRowView>,
    table: Seq<TagRowView>,
    i: int,
    filter: FilterView,
)
    requires
        0 <= i < rows.len(),
        forall|k: int| 0 <= k < table.len() ==> (#[trigger] table[k]).score_id != rows[i].id,
    ensures
        selection(joined(rows, table), FilterView::unfiltered()).contains(
            decoded_one(joined_one(rows[i], table)),
        ),
        selection(joined(rows, table), FilterView::untagged()).contains(
            decoded_one(joined_one(rows[i], table)),
        ),
        filter.include_tags.len() > 0 ==> !selection(joined(rows, table), filter).contains(
            decoded_one(joined_one(rows[i], table)),
        ),
{
    let stored = joined(rows, table);
    let score = decoded_one(joined_one(rows[i], table));
    untagged_means_no_rows(table, rows[i].id as int);
    assert(stored[i] == joined_one(rows[i], table));
    selection_is_exact(stored, FilterView::unfiltered());
    selection_is_exact(stored, FilterView::untagged());
    selection_is_exact(stored, filter);
    assert(FilterView::unfiltered().admits(stored[i].create_date, stored[i].tags));
    assert(FilterView::untagged().admits(stored[i].create_date, stored[i].tags));
    if filter.include_tags.len() > 0 && selection(stored, filter).contains(score) {
        let out = selection(stored, filter);
        let k = choose|k: int| 0 <= k < out.len() && out[k] == score;
        assert(is_admitted_score(stored, filter, out[k]));
        let j = choose|j: int|
            0 <= j < stored.len() && filter.admits(stored[j].create_date, stored[j].tags) && out[k]
                == decoded_one(stored[j]);
        assert(stored[j].tags == stored[i].tags);
        assert(false);
    }
}

/// A lower date bound keeps exactly the scores of that day and later: a
/// stored score is in the answer if and only if it was created on the day
/// or after it.
pub proof fn start_bound_is_inclusive(rows: Seq<StoredView>, day: Day)
    ensures
        forall|i: int|
            0 <= i < rows.len() ==> (rows[i].create_date.day >= day.number <==> selection(
                rows,
                FilterView::since(day),
            ).contains(#[trigger] decoded_one(rows[i]))),
        forall|k: int|
            0 <= k < selection(rows, FilterView::since(day)).len() ==> (#[trigger] selection(
                rows,
                FilterView::since(day),
            )[k]).create_date.day >= day.number,
{
    let filter = FilterView::since(day);
    let out = selection(rows, filter);
    selection_is_exact(rows, filter);
    selection_is_admitted(rows, filter);
    assert forall|i: int| 0 <= i < rows.len() && out.contains(
        #[trigger] decoded_one(rows[i]),
    ) implies rows[i].create_date.day >= day.number by {
        let k = choose|k: int| 0 <= k < out.len() && out[k] == decoded_one(rows[i]);
        assert(out[k].create_date.day >= day.number);
    }
}

/// An upper date bound keeps exactly the scores before that day: a stored
/// score is in the answer if and only if it was created before the day.
pub proof fn end_bound_is_exclusive(rows: Seq<StoredView>, day: Day)
    ensures
        forall|i: int|
            0 <= i < rows.len() ==> (rows[i].create_date.day < day.number <==> selection(
                rows,
                FilterView::until(day),
            ).contains(#[trigger] decoded_one(rows[i]))),
        forall|k: int|
            0 <= k < selection(rows, FilterView::until(day)).len() ==> (#[trigger] selection(
                rows,
                FilterView::until(day),
            )[k]).create_date.day < day.number,
{
    let filter = FilterView::until(day);
    let out = selection(rows, filter);
    selection_is_exact(rows, filter);
    selection_is_admitted(rows, filter);
    assert forall|i: int| 0 <= i < rows.len() && out.contains(
        #[trigger] decoded_one(rows[i]),
    ) implies rows[i].create_date.day < day.number by {
        let k = choose|k: int| 0 <= k < out.len() && out[k] == decoded_one(rows[i]);
        assert(out[k].create_date.day < day.number);
    }
}

/// Tags that are stored for a score are attached to it, all of them and
/// nothing else: after one row for each tag of `tags` has been added for
/// the score `score_id`, the score carries what it carried before followed
/// by `tags`, in the order given and with every repeat, and every other
/// score carries what it carried before.
pub proof fn stored_tags_are_attached(table: Seq<TagRowView>, score_id: int, tags: Seq<Seq<char>>)
    ensures
        tags_of(table + tag_rows_for(score_id, tags), score_id) == tags_of(table, score_id) + tags,
        tags_of(table, score_id).len() == 0 ==> tags_of(
            table + tag_rows_for(score_id, tags),
            score_id,
        ) == tags,
        forall|other: int|
            other != score_id ==> #[trigger] tags_of(
                table + tag_rows_for(score_id, tags),
                other,
            ) == tags_of(table, other),
    decreases tags.len(),
{
    let added = tag_rows_for(score_id, tags);
    if tags.len() == 0 {
        assert(table + added =~= table);
        assert(tags_of(table, score_id) + tags =~= tags_of(table, score_id));
    } else {
        let front = tags.drop_last();
        let last = TagRowView { score_id, name: tags.last() };
        stored_tags_are_attached(table, score_id, front);
        assert(table + added =~= (table + tag_rows_for(score_id, front)).push(last));
        tags_of_push(table + tag_rows_for(score_id, front), last, score_id);
        assert((tags_of(table, score_id) + front).push(tags.last()) =~= tags_of(table, score_id)
            + tags);
        assert forall|other: int| other != score_id implies #[trigger] tags_of(
            table + added,
            other,
        ) == tags_of(table, other) by {
            tags_of_push(table + tag_rows_for(score_id, front), last, other);
        }
    }
    if tags_of(table, score_id).len() == 0 {
        assert(tags_of(table, score_id) + tags =~= tags);
    }
}

/// Puts the scores of a list in chronological order. Scores with the same
/// timestamp keep the order they had.
pub fn sort_by_time(scores: &mut Vec<Score>)
    ensures
        score_views(final(scores)@) == chronological(score_views(old(scores)@)),
        ascending(score_views(final(scores)@)),
{
    let mut taken: Vec<Score> = Vec::new();
    core::mem::swap(scores, &mut taken);
    let ghost all = score_views(taken@);
    proof {
        assert(all.take(0) =~= Seq::empty());
        assert(score_views(scores@) =~= chronological(all.take(0)));
    }
    for score in it: taken
        invariant
            all == score_views(it.seq()),
            score_views(scores@) == chronological(all.take(it.index() as int)),
    {
        proof {
            let i = it.index() as int;
            assert(all.take(i + 1).drop_last() =~= all.take(i));
            assert(all.take(i + 1).last() == score@);
        }
        place(scores, score);
    }
    proof {
        assert(all.take(all.len() as int) =~= all);
        chronological_is_ascending(all);
    }
}

/// What is stored for a score reads back as that score: a stored score
/// whose text is the one that the library binds for `value` is decodable,
/// and its decoded value is `value`, digit for digit.
pub proof fn stored_score_reads_back(value: (int, nat), row: StoredView)
    requires
        reads_back(value),
        row.score == decimal_text(value.0, value.1),
    ensures
        parsed_decimal(row.score) is Some,
        decoded_one(row).score == value,
{
}

} // verus!
