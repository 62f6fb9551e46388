use rusted_feelings::chart::daily_buckets;
use rusted_feelings::db::{Score, ScoreRow, TagRow};
use rusted_feelings::error::AppError;
use rusted_feelings::filter::{meets_all, Constraint, Filter};
use rusted_feelings::names::{copy_of, has_name, have_common_name};
use rusted_feelings::query::{names_for, select, sort_by_time};
use rusted_feelings::time::{Day, Timestamp};
use rusted_feelings::value::{ScoreValue, MANTISSA_LIMIT, SCALE_LIMIT};

fn words(items: &[&str]) -> Vec<String> {
    items.iter().map(|s| s.to_string()).collect()
}

fn moment(day: i32, second: u32) -> Timestamp {
    Timestamp { day, second, nano: 0 }
}

fn row(id: usize, score: &str, day: i32, second: u32) -> ScoreRow {
    ScoreRow { id, score: score.to_string(), create_date: moment(day, second) }
}

fn tag(score_id: i64, name: &str) -> TagRow {
    TagRow { score_id, name: name.to_string() }
}

fn no_filter() -> Filter {
    Filter { start: None, end: None, include_tags: Vec::new(), untagged_only: false }
}

fn ids(scores: &Vec<Score>) -> Vec<usize> {
    scores.iter().map(|s| s.id).collect()
}

fn three_days() -> Vec<ScoreRow> {
    vec![row(1, "3", 30, 0), row(2, "1", 10, 0), row(3, "2", 20, 0)]
}

#[test]
fn value_is_made_within_the_limits_only() {
    assert_eq!(0xFFFF_FFFF_FFFF_FFFF_FFFF_FFFF, MANTISSA_LIMIT);
    assert_eq!(28, SCALE_LIMIT);
    assert!(ScoreValue::new(MANTISSA_LIMIT, 28).is_some());
    assert!(ScoreValue::new(-MANTISSA_LIMIT, 0).is_some());
    assert!(ScoreValue::new(MANTISSA_LIMIT + 1, 0).is_none());
    assert!(ScoreValue::new(-MANTISSA_LIMIT - 1, 0).is_none());
    assert!(ScoreValue::new(1, 29).is_none());
    assert!(ScoreValue::new(i128::MAX, u32::MAX).is_none());
    let value = ScoreValue::new(-790, 2).unwrap();
    assert_eq!(-790, value.mantissa());
    assert_eq!(2, value.scale());
}

#[test]
fn value_equality_tells_scales_apart() {
    assert_eq!(ScoreValue::new(79, 1).unwrap(), ScoreValue::new(79, 1).unwrap());
    assert_ne!(ScoreValue::new(79, 1).unwrap(), ScoreValue::new(790, 2).unwrap());
}

#[test]
fn value_prints_its_canonical_text() {
    assert_eq!("7.90", ScoreValue::new(790, 2).unwrap().to_text());
    assert_eq!("7.9", ScoreValue::new(79, 1).unwrap().to_text());
    assert_eq!("4", ScoreValue::new(4, 0).unwrap().to_text());
    assert_eq!("-3.5", ScoreValue::new(-35, 1).unwrap().to_text());
    assert_eq!("0.001", ScoreValue::new(1, 3).unwrap().to_text());
    assert_eq!("0.00", ScoreValue::new(0, 2).unwrap().to_text());
    assert_eq!(
        "79228162514264337593543950335",
        ScoreValue::new(MANTISSA_LIMIT, 0).unwrap().to_text()
    );
    assert_eq!(
        "-7.9228162514264337593543950335",
        ScoreValue::new(-MANTISSA_LIMIT, 28).unwrap().to_text()
    );
}

#[test]
fn value_is_read_from_text() {
    assert_eq!(ScoreValue::new(790, 2).unwrap(), ScoreValue::from_text("7.90").unwrap());
    assert_eq!(ScoreValue::new(4, 0).unwrap(), ScoreValue::from_text("4").unwrap());
    assert_eq!(ScoreValue::new(-35, 1).unwrap(), ScoreValue::from_text("-3.5").unwrap());
    assert_eq!(ScoreValue::new(1, 28).unwrap(),
        ScoreValue::from_text("0.0000000000000000000000000001").unwrap());
    assert!(matches!(ScoreValue::from_text("seven"), Err(AppError::Decoding(_))));
    assert!(matches!(ScoreValue::from_text(""), Err(AppError::Decoding(_))));
    assert!(matches!(ScoreValue::from_text("1.2.3"), Err(AppError::Decoding(_))));
    assert!(matches!(
        ScoreValue::from_text("79228162514264337593543950336"),
        Err(AppError::Decoding(_))
    ));
}

#[test]
fn value_gives_its_text_for_storing() {
    assert_eq!("7.90", ScoreValue::new(790, 2).unwrap().to_stored_text().unwrap());
    assert_eq!(
        "0.0000000000000000000000000001",
        ScoreValue::new(1, 28).unwrap().to_stored_text().unwrap()
    );
    assert_eq!(
        "-79228162514264337593543950335",
        ScoreValue::new(-MANTISSA_LIMIT, 0).unwrap().to_stored_text().unwrap()
    );
}

#[test]
fn value_text_reads_back_as_the_value() {
    let values = vec![(790, 2), (0, 0), (0, 5), (-1, 28), (MANTISSA_LIMIT, 14), (-120, 2)];
    for (mantissa, scale) in values {
        let value = ScoreValue::new(mantissa, scale).unwrap();
        assert_eq!(value, ScoreValue::from_text(&value.to_text()).unwrap());
    }
}

#[test]
fn timestamps_are_ordered_by_day_second_and_nanosecond() {
    let a = Timestamp { day: 10, second: 500, nano: 7 };
    assert!(a.is_at_or_before(&a));
    assert!(a.is_at_or_before(&Timestamp { day: 11, second: 0, nano: 0 }));
    assert!(!Timestamp { day: 11, second: 0, nano: 0 }.is_at_or_before(&a));
    assert!(a.is_at_or_before(&Timestamp { day: 10, second: 501, nano: 0 }));
    assert!(!Timestamp { day: 10, second: 501, nano: 0 }.is_at_or_before(&a));
    assert!(a.is_at_or_before(&Timestamp { day: 10, second: 500, nano: 8 }));
    assert!(!Timestamp { day: 10, second: 500, nano: 8 }.is_at_or_before(&a));
    assert!(Timestamp { day: -5, second: 86_399, nano: 0 }.is_at_or_before(&a));
    assert_eq!(Day { number: 10 }, a.date());
}

#[test]
fn names_are_found_as_written() {
    let list = words(&["calm", "Focused", ""]);
    assert!(has_name(&list, &"calm".to_string()));
    assert!(has_name(&list, &"".to_string()));
    assert!(!has_name(&list, &"focused".to_string()));
    assert!(!has_name(&list, &"calm ".to_string()));
    assert!(!has_name(&Vec::new(), &"calm".to_string()));

    assert!(have_common_name(&words(&["a", "b"]), &words(&["c", "b"])));
    assert!(!have_common_name(&words(&["a", "b"]), &words(&["c", "d"])));
    assert!(!have_common_name(&Vec::new(), &words(&["c"])));
    assert!(!have_common_name(&words(&["c"]), &Vec::new()));

    assert_eq!(words(&["x", "y", "x"]), copy_of(&words(&["x", "y", "x"])));
    assert!(copy_of(&Vec::new()).is_empty());
}

#[test]
fn filter_is_checked() {
    let mut filter = no_filter();
    assert!(filter.is_consistent());
    assert!(filter.validate().is_ok());
    filter.untagged_only = true;
    assert!(filter.is_consistent());
    assert!(filter.validate().is_ok());
    filter.include_tags = words(&["calm"]);
    assert!(!filter.is_consistent());
    assert!(matches!(filter.validate(), Err(AppError::Configuration(_))));
    assert!(matches!(filter.compile(), Err(AppError::Configuration(_))));
    filter.untagged_only = false;
    assert!(filter.is_consistent());
    assert!(filter.validate().is_ok());
}

#[test]
fn filter_composes_its_constraints_in_order() {
    assert!(no_filter().compile().unwrap().is_empty());

    let filter = Filter {
        start: Some(Day { number: 5 }),
        end: Some(Day { number: 9 }),
        include_tags: words(&["calm", "busy"]),
        untagged_only: false,
    };
    let constraints = filter.compile().unwrap();
    assert_eq!(3, constraints.len());
    assert!(matches!(&constraints[0], Constraint::NotBefore(Day { number: 5 })));
    assert!(matches!(&constraints[1], Constraint::Before(Day { number: 9 })));
    assert!(matches!(&constraints[2], Constraint::AnyOf(list) if *list == words(&["calm", "busy"])));

    let filter = Filter {
        start: None,
        end: Some(Day { number: 9 }),
        include_tags: Vec::new(),
        untagged_only: true,
    };
    let constraints = filter.compile().unwrap();
    assert_eq!(2, constraints.len());
    assert!(matches!(&constraints[0], Constraint::Before(Day { number: 9 })));
    assert!(matches!(&constraints[1], Constraint::Untagged));
}

#[test]
fn constraints_are_tested_one_by_one_and_together() {
    let at = moment(7, 100);
    let tags = words(&["calm", "tired"]);
    assert!(Constraint::NotBefore(Day { number: 7 }).holds_for(&at, &tags));
    assert!(!Constraint::NotBefore(Day { number: 8 }).holds_for(&at, &tags));
    assert!(Constraint::Before(Day { number: 8 }).holds_for(&at, &tags));
    assert!(!Constraint::Before(Day { number: 7 }).holds_for(&at, &tags));
    assert!(Constraint::AnyOf(words(&["busy", "tired"])).holds_for(&at, &tags));
    assert!(!Constraint::AnyOf(words(&["busy"])).holds_for(&at, &tags));
    assert!(!Constraint::AnyOf(Vec::new()).holds_for(&at, &tags));
    assert!(!Constraint::Untagged.holds_for(&at, &tags));
    assert!(Constraint::Untagged.holds_for(&at, &Vec::new()));

    assert!(meets_all(&Vec::new(), &at, &tags));
    let both = vec![Constraint::NotBefore(Day { number: 7 }), Constraint::Before(Day { number: 8 })];
    assert!(meets_all(&both, &at, &tags));
    let failing = vec![Constraint::NotBefore(Day { number: 7 }), Constraint::Untagged];
    assert!(!meets_all(&failing, &at, &tags));
}

#[test]
fn tags_are_picked_for_their_score_only() {
    let table = vec![
        tag(1, "calm"),
        tag(2, "busy"),
        tag(1, "focused"),
        tag(-1, "lost"),
        tag(1, "calm"),
        tag(3, "calm"),
    ];
    assert_eq!(words(&["calm", "focused", "calm"]), names_for(&table, 1));
    assert_eq!(words(&["busy"]), names_for(&table, 2));
    assert!(names_for(&table, 4).is_empty());
    assert!(names_for(&Vec::new(), 1).is_empty());
}

#[test]
fn select_orders_by_time() {
    let scores = select(three_days(), &Vec::new(), &no_filter()).unwrap();
    assert_eq!(vec![2, 3, 1], ids(&scores));
    let values: Vec<ScoreValue> = scores.iter().map(|s| s.score).collect();
    let expected: Vec<ScoreValue> =
        vec![1, 2, 3].into_iter().map(|m| ScoreValue::new(m, 0).unwrap()).collect();
    assert_eq!(expected, values);
}

#[test]
fn select_keeps_stored_order_at_equal_times() {
    let rows = vec![
        row(1, "1", 10, 5),
        row(2, "2", 9, 0),
        row(3, "3", 10, 5),
        row(4, "4", 10, 4),
        row(5, "5", 10, 5),
    ];
    let scores = select(rows, &Vec::new(), &no_filter()).unwrap();
    assert_eq!(vec![2, 4, 1, 3, 5], ids(&scores));
}

#[test]
fn select_of_nothing_is_empty() {
    assert!(select(Vec::new(), &Vec::new(), &no_filter()).unwrap().is_empty());
    let mut filter = no_filter();
    filter.start = Some(Day { number: 31 });
    assert!(select(three_days(), &Vec::new(), &filter).unwrap().is_empty());
}

#[test]
fn select_lower_bound_is_inclusive() {
    let mut filter = no_filter();
    filter.start = Some(Day { number: 20 });
    let scores = select(three_days(), &Vec::new(), &filter).unwrap();
    assert_eq!(vec![3, 1], ids(&scores));
}

#[test]
fn select_upper_bound_is_exclusive() {
    let mut filter = no_filter();
    filter.end = Some(Day { number: 20 });
    let scores = select(three_days(), &Vec::new(), &filter).unwrap();
    assert_eq!(vec![2], ids(&scores));
    filter.start = Some(Day { number: 10 });
    filter.end = Some(Day { number: 30 });
    let scores = select(three_days(), &Vec::new(), &filter).unwrap();
    assert_eq!(vec![2, 3], ids(&scores));
}

#[test]
fn select_bound_ignores_the_time_of_day() {
    let rows = vec![row(1, "1", 20, 86_399), row(2, "2", 20, 0), row(3, "3", 19, 86_399)];
    let mut filter = no_filter();
    filter.start = Some(Day { number: 20 });
    assert_eq!(vec![2, 1], ids(&select(rows, &Vec::new(), &filter).unwrap()));
}

#[test]
fn select_attaches_every_tag() {
    let table = vec![tag(2, "calm"), tag(1, "busy"), tag(2, "calm"), tag(2, "focused")];
    let scores = select(three_days(), &table, &no_filter()).unwrap();
    assert_eq!(vec![2, 3, 1], ids(&scores));
    assert_eq!(words(&["calm", "calm", "focused"]), scores[0].tags);
    assert!(scores[1].tags.is_empty());
    assert_eq!(words(&["busy"]), scores[2].tags);
}

#[test]
fn select_matches_any_of_the_tags() {
    let table = vec![tag(1, "calm"), tag(2, "busy"), tag(2, "calm"), tag(3, "tired")];
    let mut filter = no_filter();
    filter.include_tags = words(&["calm"]);
    assert_eq!(vec![2, 1], ids(&select(three_days(), &table, &filter).unwrap()));
    filter.include_tags = words(&["tired", "busy"]);
    assert_eq!(vec![2, 3], ids(&select(three_days(), &table, &filter).unwrap()));
    filter.include_tags = words(&["Calm"]);
    assert!(select(three_days(), &table, &filter).unwrap().is_empty());
    filter.include_tags = words(&["calm"]);
    filter.start = Some(Day { number: 11 });
    assert_eq!(vec![1], ids(&select(three_days(), &table, &filter).unwrap()));
}

#[test]
fn select_shows_untagged_scores_where_they_belong() {
    let table = vec![tag(1, "calm"), tag(3, "busy")];
    let scores = select(three_days(), &table, &no_filter()).unwrap();
    assert_eq!(vec![2, 3, 1], ids(&scores));
    let mut filter = no_filter();
    filter.untagged_only = true;
    let scores = select(three_days(), &table, &filter).unwrap();
    assert_eq!(vec![2], ids(&scores));
    assert!(scores[0].tags.is_empty());
    let mut filter = no_filter();
    filter.include_tags = words(&["calm", "busy", ""]);
    assert_eq!(vec![3, 1], ids(&select(three_days(), &table, &filter).unwrap()));
}

#[test]
fn select_refuses_a_conflicting_filter() {
    let mut filter = no_filter();
    filter.include_tags = words(&["calm"]);
    filter.untagged_only = true;
    let r = select(three_days(), &Vec::new(), &filter);
    assert!(matches!(r, Err(AppError::Configuration(_))));
    let r = select(vec![row(1, "seven", 1, 0)], &Vec::new(), &filter);
    assert!(matches!(r, Err(AppError::Configuration(_))));
    let r = select(Vec::new(), &Vec::new(), &filter);
    assert!(matches!(r, Err(AppError::Configuration(_))));
}

#[test]
fn select_fails_on_an_admitted_text_that_is_no_decimal() {
    let rows = vec![row(1, "1", 10, 0), row(2, "seven", 20, 0), row(3, "3", 30, 0)];
    let r = select(rows, &Vec::new(), &no_filter());
    assert!(matches!(r, Err(AppError::Decoding(_))));

    let rows = vec![row(1, "1", 10, 0), row(2, "seven", 20, 0), row(3, "3", 30, 0)];
    let mut filter = no_filter();
    filter.start = Some(Day { number: 21 });
    assert_eq!(vec![3], ids(&select(rows, &Vec::new(), &filter).unwrap()));
}

#[test]
fn select_reads_the_values_exactly() {
    let rows = vec![row(1, "7.90", 10, 0), row(2, "-0.5", 11, 0), row(3, "4", 12, 0)];
    let scores = select(rows, &Vec::new(), &no_filter()).unwrap();
    assert_eq!(ScoreValue::new(790, 2).unwrap(), scores[0].score);
    assert_eq!(ScoreValue::new(-5, 1).unwrap(), scores[1].score);
    assert_eq!(ScoreValue::new(4, 0).unwrap(), scores[2].score);
    assert_eq!(moment(10, 0), scores[0].create_date);
}

fn score(id: usize, mantissa: i128, day: i32, second: u32, tags: &[&str]) -> Score {
    Score {
        id,
        score: ScoreValue::new(mantissa, 1).unwrap(),
        create_date: moment(day, second),
        tags: words(tags),
    }
}

#[test]
fn sort_by_time_orders_and_keeps_ties() {
    let mut scores = vec![
        score(1, 10, 5, 30, &["a"]),
        score(2, 20, 4, 0, &[]),
        score(3, 30, 5, 30, &["b", "c"]),
        score(4, 40, 5, 29, &[]),
    ];
    sort_by_time(&mut scores);
    assert_eq!(vec![2, 4, 1, 3], ids(&scores));
    assert_eq!(words(&["b", "c"]), scores[3].tags);
    let mut none: Vec<Score> = Vec::new();
    sort_by_time(&mut none);
    assert!(none.is_empty());
}

#[test]
fn daily_buckets_group_by_day() {
    let mut scores = vec![
        score(1, 30, 12, 100, &[]),
        score(2, 10, 10, 500, &[]),
        score(3, 20, 12, 50, &[]),
        score(4, 40, 11, 0, &[]),
        score(5, 50, 10, 400, &[]),
        score(6, 60, 12, 100, &[]),
    ];
    let buckets = daily_buckets(&mut scores);
    assert_eq!(vec![5, 2, 4, 3, 1, 6], ids(&scores));
    assert_eq!(3, buckets.len());
    let value = |mantissa: i128| ScoreValue::new(mantissa, 1).unwrap();
    assert_eq!(Day { number: 10 }, buckets[0].day);
    assert_eq!(vec![value(50), value(10)], buckets[0].values);
    assert_eq!(Day { number: 11 }, buckets[1].day);
    assert_eq!(vec![value(40)], buckets[1].values);
    assert_eq!(Day { number: 12 }, buckets[2].day);
    assert_eq!(vec![value(20), value(30), value(60)], buckets[2].values);
}

#[test]
fn daily_buckets_of_nothing_are_none() {
    let mut scores: Vec<Score> = Vec::new();
    assert!(daily_buckets(&mut scores).is_empty());
    let mut one = vec![score(1, 30, -3, 0, &[])];
    let buckets = daily_buckets(&mut one);
    assert_eq!(1, buckets.len());
    assert_eq!(Day { number: -3 }, buckets[0].day);
    assert_eq!(1, buckets[0].values.len());
}
