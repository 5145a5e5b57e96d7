use ancymon::errors::{AncymonError, ConfigError};
use ancymon::triggers::cron::{
    earliest, second_of, sleep_millis, CronTrigger, MAX_NOW, MAX_NOW_MILLIS,
};
use ancymon::triggers::Trigger;
use ancymon::values::Value;

fn binding(pattern: &str, emit: &str) -> Trigger {
    Trigger {
        source: "cron".to_string(),
        emit: emit.to_string(),
        arguments: Value::String(pattern.to_string()),
    }
}

fn source(bindings: Vec<Trigger>) -> CronTrigger {
    let mut source = CronTrigger::default();
    source.init(&Value::Table(vec![]), bindings).unwrap();
    source
}

#[test]
fn the_earliest_time_wins_alone_where_nothing_ties() {
    assert_eq!(
        earliest(&vec![Some(30), Some(10), Some(20)]),
        Some((10, vec![1]))
    );
}

#[test]
fn all_schedules_that_tie_for_the_earliest_time_fire_together() {
    assert_eq!(
        earliest(&vec![Some(60), Some(90), Some(60), Some(61), Some(60)]),
        Some((60, vec![0, 2, 4]))
    );
    assert_eq!(earliest(&vec![Some(7), Some(7)]), Some((7, vec![0, 1])));
}

#[test]
fn schedules_without_a_next_occurrence_are_passed_over() {
    assert_eq!(
        earliest(&vec![None, Some(5), None, Some(5), Some(9)]),
        Some((5, vec![1, 3]))
    );
    assert_eq!(earliest(&vec![None, None]), None);
    assert_eq!(earliest(&vec![]), None);
}

#[test]
fn the_earliest_time_may_be_negative_or_extreme() {
    assert_eq!(
        earliest(&vec![Some(i64::MAX), Some(i64::MIN), Some(0)]),
        Some((i64::MIN, vec![1]))
    );
}

#[test]
fn the_sleep_is_the_time_left_until_the_deadline() {
    assert_eq!(sleep_millis(60, 0), 60_000);
    assert_eq!(sleep_millis(60, 59_250), 750);
    assert_eq!(sleep_millis(1_700_000_000, 1_699_999_999_999), 1);
}

#[test]
fn a_deadline_that_has_come_or_passed_asks_for_no_sleep() {
    assert_eq!(sleep_millis(60, 60_000), 0);
    assert_eq!(sleep_millis(60, 60_001), 0);
    assert_eq!(sleep_millis(0, i64::MAX), 0);
    assert_eq!(sleep_millis(i64::MIN, i64::MAX), 0);
}

#[test]
fn a_sleep_too_long_to_be_told_is_the_longest_one() {
    assert_eq!(sleep_millis(i64::MAX, 0), u64::MAX);
    assert_eq!(sleep_millis(i64::MAX, i64::MIN), u64::MAX);
}

#[test]
fn no_bindings_are_rejected() {
    let mut source = CronTrigger::default();
    match source.init(&Value::Table(vec![]), vec![]) {
        Err(AncymonError::ConfigError(ConfigError::MissingValue(text))) => {
            assert_eq!(text, "No cron triggers specified")
        }
        other => panic!("unexpected: {other:?}"),
    }
}

#[test]
fn arguments_that_are_no_string_are_rejected() {
    let mut source = CronTrigger::default();
    let mut wrong = binding("* * * * * *", "b");
    wrong.arguments = Value::Integer(5);
    let result = source.init(
        &Value::Table(vec![]),
        vec![binding("* * * * * *", "a"), wrong],
    );
    match result {
        Err(AncymonError::ConfigError(ConfigError::InvalidValueType(text))) => {
            assert_eq!(text, "Cron arguments: expected string")
        }
        other => panic!("unexpected: {other:?}"),
    }
}

#[test]
fn a_pattern_that_does_not_parse_is_rejected() {
    let mut source = CronTrigger::default();
    let result = source.init(
        &Value::Table(vec![]),
        vec![binding("* * * * * *", "a"), binding("every day", "b")],
    );
    match result {
        Err(AncymonError::ConfigError(ConfigError::InvalidValue(text))) => {
            assert_eq!(text, "Cron arguments: invalid schedule pattern")
        }
        other => panic!("unexpected: {other:?}"),
    }
}

#[test]
fn a_failed_init_leaves_the_source_as_it_was() {
    let mut source = source(vec![binding("0 * * * * *", "minute")]);
    assert!(source
        .init(&Value::Table(vec![]), vec![binding("nonsense", "x")])
        .is_err());
    let wake = source.wake_at(0).unwrap();
    assert_eq!(wake.deadline, 60);
    assert_eq!(wake.events[0].name, "minute");
}

#[test]
fn the_next_occurrence_is_strictly_after_now() {
    let source = source(vec![binding("0 * * * * *", "minute")]);
    assert_eq!(source.upcoming(0), vec![Some(60)]);
    assert_eq!(source.upcoming(59), vec![Some(60)]);
    assert_eq!(source.upcoming(60), vec![Some(120)]);
    assert_eq!(source.upcoming(-1), vec![Some(0)]);
}

#[test]
fn a_schedule_that_never_occurs_again_has_no_next_occurrence() {
    let source = source(vec![binding("0 0 0 1 1 * 2000", "once")]);
    assert_eq!(source.upcoming(946_684_799), vec![Some(946_684_800)]);
    assert_eq!(source.upcoming(946_684_800), vec![None]);
    assert_eq!(source.upcoming(MAX_NOW), vec![None]);
    assert!(source.wake_at(MAX_NOW_MILLIS).is_none());
}

#[test]
fn the_wake_cycle_fires_the_earliest_schedule() {
    let source = source(vec![
        binding("0 * * * * *", "minute"),
        binding("0 */1 * * * *", "also_minute"),
        binding("30 * * * * *", "half"),
    ]);
    let wake = source.wake_at(250).unwrap();
    assert_eq!(wake.deadline, 30);
    assert_eq!(wake.sleep_millis, 29_750);
    assert_eq!(wake.indices, vec![2]);
    assert_eq!(wake.events.len(), 1);
    assert_eq!(wake.events[0].name, "half");
    assert_eq!(*wake.events[0].value.as_ref().unwrap(), Value::Integer(30));
}

#[test]
fn schedules_with_equal_next_occurrences_fire_in_the_same_wake_cycle() {
    let source = source(vec![
        binding("0 * * * * *", "minute"),
        binding("30 * * * * *", "half"),
        binding("0 */1 * * * *", "also_minute"),
    ]);
    let wake = source.wake_at(30_000).unwrap();
    assert_eq!(wake.deadline, 60);
    assert_eq!(wake.sleep_millis, 30_000);
    assert_eq!(wake.indices, vec![0, 2]);
    let names: Vec<&str> = wake.events.iter().map(|e| e.name.as_str()).collect();
    assert_eq!(names, vec!["minute", "also_minute"]);
    for event in &wake.events {
        assert_eq!(*event.value.as_ref().unwrap(), Value::Integer(60));
    }
}

#[test]
fn the_present_has_a_wake_cycle() {
    let source = source(vec![binding("* * * * * *", "second")]);
    let wake = source.next().unwrap();
    assert_eq!(wake.indices, vec![0]);
    assert_eq!(wake.events[0].name, "second");
    assert!(wake.sleep_millis <= 1_000);
    assert_eq!(*wake.events[0].value.as_ref().unwrap(), Value::Integer(wake.deadline));
}

#[test]
fn a_time_lies_in_the_second_that_began_before_it() {
    assert_eq!(second_of(0), 0);
    assert_eq!(second_of(999), 0);
    assert_eq!(second_of(1_000), 1);
    assert_eq!(second_of(59_250), 59);
    assert_eq!(second_of(-1), -1);
    assert_eq!(second_of(-1_000), -1);
    assert_eq!(second_of(-1_001), -2);
    assert_eq!(second_of(i64::MAX), 9_223_372_036_854_775);
    assert_eq!(second_of(i64::MIN), -9_223_372_036_854_776);
}

#[test]
fn a_time_before_the_epoch_has_a_wake_cycle() {
    let source = source(vec![binding("0 * * * * *", "minute")]);
    let wake = source.wake_at(-500).unwrap();
    assert_eq!(wake.deadline, 0);
    assert_eq!(wake.sleep_millis, 500);
    assert_eq!(wake.indices, vec![0]);
}

#[test]
fn a_plan_is_made_for_any_time() {
    let source = source(vec![binding("0 * * * * *", "minute")]);
    let wake = source.wake_for(30_000).unwrap();
    assert_eq!(wake.deadline, 60);
    assert_eq!(wake.sleep_millis, 30_000);
    assert_eq!(wake.indices, vec![0]);
    assert_eq!(wake.events[0].name, "minute");
    let before = source.wake_for(i64::MIN);
    assert!(before.is_none() || before.unwrap().deadline >= 0);
}

#[test]
fn there_is_no_plan_for_a_time_after_the_year_9999() {
    let source = source(vec![binding("* * * * * *", "second")]);
    assert!(source.wake_for(MAX_NOW_MILLIS).is_none());
    assert!(source.wake_for(MAX_NOW_MILLIS + 1).is_none());
    assert!(source.wake_for(i64::MAX).is_none());
    assert!(source.wake_for(4_102_444_799_000).is_some());
}

#[test]
fn the_deadline_lies_strictly_after_now() {
    let source = source(vec![binding("* * * * * *", "second")]);
    for now_millis in [0, 1, 999, 1_000, 1_700_000_000_000, 1_700_000_000_999] {
        let wake = source.wake_at(now_millis).unwrap();
        assert_eq!(wake.deadline, now_millis / 1000 + 1);
        assert!(wake.sleep_millis > 0 && wake.sleep_millis <= 1_000);
    }
    for time in source.upcoming(1_700_000_000) {
        assert!(time.unwrap() > 1_700_000_000);
    }
}
