use chrono::DateTime;
use chrono::Duration;
use chrono::Local;
use rpomo::pomodoro::Pomodoro;
use rpomo::pomodoro::BREAK_DURATION;
use rpomo::pomodoro::LONG_BREAK_COUNT;
use rpomo::pomodoro::LONG_BREAK_DURATION;
use rpomo::pomodoro::WORK_DURATION;

#[test]
fn it_returns_on_exceeding_work_time() {
    let mut p = Pomodoro::new();
    let utc: DateTime<Local> = Local::now();
    p.working = true;
    p.start_date_time = (utc - Duration::minutes(WORK_DURATION as i64 + 1)).to_rfc3339();
    assert_eq!(p.is_exceeding_work_timer(), true);
}

#[test]
fn it_returns_false_if_not_working() {
    let mut p = Pomodoro::new();
    let utc: DateTime<Local> = Local::now();
    p.working = false;
    p.start_date_time = (utc - Duration::minutes(WORK_DURATION as i64 + 1)).to_rfc3339();
    assert_eq!(p.is_exceeding_work_timer(), false);
}

#[test]
fn it_returns_on_exceeding_break_time() {
    let mut p = Pomodoro::new();
    let utc: DateTime<Local> = Local::now();
    p.on_break = true;
    p.break_date_time = (utc - Duration::minutes(BREAK_DURATION as i64 + 1)).to_rfc3339();
    assert_eq!(p.is_exceeding_break_timer(), true);
}

#[test]
fn it_returns_false_if_not_break_is_active() {
    let mut p = Pomodoro::new();
    let utc: DateTime<Local> = Local::now();
    p.on_break = false;
    p.break_date_time = (utc - Duration::minutes(BREAK_DURATION as i64 + 1)).to_rfc3339();
    assert_eq!(p.is_exceeding_break_timer(), false);
}

#[test]
fn it_returns_on_exceeding_long_break_time() {
    let mut p = Pomodoro::new();
    let utc: DateTime<Local> = Local::now();
    p.on_break = false;
    p.on_long_break = true;
    p.break_count = LONG_BREAK_COUNT;
    p.break_date_time = (utc - Duration::minutes(BREAK_DURATION as i64 + 1)).to_rfc3339();
    assert_eq!(p.is_exceeding_break_timer(), false);
    p.break_date_time = (utc - Duration::minutes(LONG_BREAK_DURATION as i64 + 1)).to_rfc3339();
    assert_eq!(p.is_exceeding_break_timer(), true);
}

#[test]
fn it_can_handle_empty_break_date_time() {
    let mut p = Pomodoro::new();
    p.break_date_time = "".to_owned();
    assert_eq!(p.is_exceeding_break_timer(), false);
}

#[test]
fn it_can_handle_empty_work_date_time() {
    let mut p = Pomodoro::new();
    p.start_date_time = "".to_owned();
    assert_eq!(p.is_exceeding_work_timer(), false);
}

#[test]
fn it_returns_state() {
    let mut p = Pomodoro::new();
    p.start_work();
    assert_eq!(p.is_working(), true);
    assert_eq!(p.is_on_break(), false);
    p.start_break();
    assert_eq!(p.is_working(), false);
    assert_eq!(p.is_on_break(), true);
}

#[test]
fn it_triggers_stop() {
    let mut p = Pomodoro::new();
    p.stop();
    assert_eq!(p.working, false);
    assert_eq!(p.on_break, false);
    assert_eq!(p.on_long_break, false);
    assert_eq!(p.work_count, 0);
    assert_eq!(p.break_count, 0);
    assert!(p.start_date_time.is_empty());
    assert!(p.break_date_time.is_empty());
}

#[test]
fn it_triggers_start() {
    let mut p = Pomodoro::new();
    p.start_work();
    assert_eq!(p.working, true);
    assert_eq!(p.on_break, false);
    assert_eq!(p.work_count, 1);
    assert_eq!(p.on_long_break, false);
    assert!(!p.start_date_time.is_empty());
}

#[test]
fn it_triggers_a_long_break() {
    let mut p = Pomodoro::new();
    p.start_work();
    p.start_break();
    p.start_break();
    p.start_break();
    p.start_break();
    assert_eq!(p.break_count, 4);
    assert_eq!(p.on_long_break, true);
    assert_eq!(p.on_break, false);
    p.start_break();
    assert_eq!(p.break_count, 5);
    assert_eq!(p.on_long_break, false);
    assert_eq!(p.on_break, true);
}

#[test]
fn it_increases_work_count() {
    let mut p = Pomodoro::new();
    p.start_work();
    assert_eq!(p.work_count, 1);
    p.start_work();
    assert_eq!(p.work_count, 2);
}

#[test]
fn it_triggers_a_break() {
    let mut p = Pomodoro::new();
    p.start_work();
    p.start_break();
    assert_eq!(p.working, false);
    assert_eq!(p.on_break, true);
    assert_eq!(p.break_count, 1);
    assert_eq!(p.on_long_break, false);
    assert!(!p.break_date_time.is_empty());
}

#[test]
fn it_returns_a_status_string() {
    let mut p = Pomodoro::new();
    assert_eq!(p.status(), "Idle");
    p.start_work();
    assert_eq!(p.status(), "Work (#1): 0m/25m");
    p.start_break();
    assert_eq!(p.status(), "Break (#1): 0m/5m");
    p.start_work();
    assert_eq!(p.status(), "Work (#2): 0m/25m");
    p.start_break();
    assert_eq!(p.status(), "Break (#2): 0m/5m");
    p.start_break();
    assert_eq!(p.status(), "Break (#3): 0m/5m");
    p.start_break();
    assert_eq!(p.status(), "Long Break (#4): 0m/15m");
    p.start_break();
    assert_eq!(p.status(), "Break (#5): 0m/5m");
}

#[test]
fn break_sequence_counts_and_flags() {
    let mut p = Pomodoro::new();
    p.start_work();
    for expected in 1u8..4u8 {
        p.start_break();
        assert_eq!(p.break_count, expected);
        assert_eq!(p.on_break, true);
        assert_eq!(p.on_long_break, false);
        assert_eq!(p.working, false);
    }
    p.start_break();
    assert_eq!(p.break_count, 4);
    assert_eq!(p.on_break, false);
    assert_eq!(p.on_long_break, true);
    p.start_break();
    assert_eq!(p.break_count, 5);
    assert_eq!(p.on_break, true);
    assert_eq!(p.on_long_break, false);
}

#[test]
fn at_most_one_phase_flag_after_any_operation() {
    let mut p = Pomodoro::new();
    let mut flags = p.working as u8 + p.on_break as u8 + p.on_long_break as u8;
    assert!(flags <= 1);
    p.start_work();
    flags = p.working as u8 + p.on_break as u8 + p.on_long_break as u8;
    assert_eq!(flags, 1);
    p.start_break();
    flags = p.working as u8 + p.on_break as u8 + p.on_long_break as u8;
    assert_eq!(flags, 1);
    p.stop();
    flags = p.working as u8 + p.on_break as u8 + p.on_long_break as u8;
    assert_eq!(flags, 0);
}

#[test]
fn stop_resets_after_long_break() {
    let mut p = Pomodoro::new();
    p.start_work();
    p.start_break();
    p.start_break();
    p.start_break();
    p.start_break();
    p.stop();
    assert_eq!(p.working, false);
    assert_eq!(p.on_break, false);
    assert_eq!(p.on_long_break, false);
    assert_eq!(p.work_count, 0);
    assert_eq!(p.break_count, 0);
    assert!(p.start_date_time.is_empty());
    assert!(p.break_date_time.is_empty());
}

#[test]
fn long_threshold_applies_once_break_count_reaches_four() {
    let mut p = Pomodoro::new();
    let utc: DateTime<Local> = Local::now();
    p.on_break = true;
    p.break_count = 5;
    p.break_date_time = (utc - Duration::minutes(BREAK_DURATION as i64 + 1)).to_rfc3339();
    assert_eq!(p.is_exceeding_break_timer(), false);
    p.break_date_time = (utc - Duration::minutes(LONG_BREAK_DURATION as i64 + 1)).to_rfc3339();
    assert_eq!(p.is_exceeding_break_timer(), true);
}

#[test]
fn status_with_empty_timestamp_shows_zero_minutes() {
    let mut p = Pomodoro::new();
    p.working = true;
    p.work_count = 1;
    p.start_date_time = "".to_owned();
    assert_eq!(p.status(), "Work (#1): 0m/25m");
}

#[test]
fn status_with_future_timestamp_shows_zero_minutes() {
    let mut p = Pomodoro::new();
    let utc: DateTime<Local> = Local::now();
    p.working = true;
    p.work_count = 2;
    p.start_date_time = (utc + Duration::minutes(90)).to_rfc3339();
    assert_eq!(p.status(), "Work (#2): 0m/25m");
}

#[test]
fn render_status_formats_each_phase() {
    let mut p = Pomodoro::new();
    assert_eq!(p.render_status(7), "Idle");
    p.working = true;
    p.work_count = 3;
    assert_eq!(p.render_status(12), "Work (#3): 12m/25m");
    p.working = false;
    p.on_break = true;
    p.break_count = 2;
    assert_eq!(p.render_status(4), "Break (#2): 4m/5m");
    p.on_break = false;
    p.on_long_break = true;
    p.break_count = 4;
    assert_eq!(p.render_status(15), "Long Break (#4): 15m/15m");
    p.working = true;
    assert_eq!(p.render_status(0), "???");
}

#[test]
fn exceedance_decisions_on_known_elapsed_readings() {
    let mut p = Pomodoro::new();
    p.working = true;
    assert_eq!(p.exceeds_work_timer_at(Some(WORK_DURATION as i64)), true);
    assert_eq!(p.exceeds_work_timer_at(Some(WORK_DURATION as i64 - 1)), false);
    assert_eq!(p.exceeds_work_timer_at(None), false);
    p.working = false;
    assert_eq!(p.exceeds_work_timer_at(Some(1000)), false);
    p.on_break = true;
    p.break_count = 1;
    assert_eq!(p.exceeds_break_timer_at(Some(BREAK_DURATION as i64)), true);
    assert_eq!(p.exceeds_break_timer_at(Some(BREAK_DURATION as i64 - 1)), false);
    p.break_count = LONG_BREAK_COUNT;
    assert_eq!(p.exceeds_break_timer_at(Some(BREAK_DURATION as i64)), false);
    assert_eq!(p.exceeds_break_timer_at(Some(LONG_BREAK_DURATION as i64)), true);
    assert_eq!(p.exceeds_break_timer_at(None), false);
}
