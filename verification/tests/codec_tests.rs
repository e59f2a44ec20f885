use rpomo::pomodoro::Pomodoro;

#[test]
fn fresh_state_encodes_to_the_expected_text() {
    let p = Pomodoro::new();
    assert_eq!(
        p.encode(),
        "{\"start_date_time\":\"\",\"break_date_time\":\"\",\"work_count\":0,\"break_count\":0,\"working\":false,\"on_break\":false,\"on_long_break\":false}"
    );
}

#[test]
fn encoded_state_round_trips_field_for_field() {
    let mut p = Pomodoro::new();
    p.start_work();
    p.start_break();
    p.start_break();
    let text = p.encode();
    let q = Pomodoro::parse(&text).unwrap();
    assert_eq!(q.start_date_time, p.start_date_time);
    assert_eq!(q.break_date_time, p.break_date_time);
    assert_eq!(q.work_count, p.work_count);
    assert_eq!(q.break_count, p.break_count);
    assert_eq!(q.working, p.working);
    assert_eq!(q.on_break, p.on_break);
    assert_eq!(q.on_long_break, p.on_long_break);
}

#[test]
fn fresh_state_round_trips() {
    let p = Pomodoro::new();
    let q = Pomodoro::parse(&p.encode()).unwrap();
    assert_eq!(q.work_count, 0);
    assert_eq!(q.break_count, 0);
    assert!(q.start_date_time.is_empty());
    assert!(q.break_date_time.is_empty());
    assert!(!q.working);
    assert!(!q.on_break);
    assert!(!q.on_long_break);
}

#[test]
fn explicit_text_parses_to_the_expected_fields() {
    let text = "{\"start_date_time\":\"2024-05-01T08:00:00+00:00\",\"break_date_time\":\"\",\"work_count\":12,\"break_count\":255,\"working\":true,\"on_break\":false,\"on_long_break\":false}";
    let q = Pomodoro::parse(text).unwrap();
    assert_eq!(q.start_date_time, "2024-05-01T08:00:00+00:00");
    assert_eq!(q.break_date_time, "");
    assert_eq!(q.work_count, 12);
    assert_eq!(q.break_count, 255);
    assert!(q.working);
    assert!(!q.on_break);
    assert!(!q.on_long_break);
}

#[test]
fn accepted_state_remains_stable_across_rewrites() {
    let text = "{\"start_date_time\":\"2024-05-01T08:00:00+00:00\",\"break_date_time\":\"2024-05-01T08:30:00+00:00\",\"work_count\":07,\"break_count\":3,\"working\":false,\"on_break\":true,\"on_long_break\":false}";
    let p = Pomodoro::parse(text).unwrap();
    assert_eq!(p.work_count, 7);
    let rewritten = p.encode();
    let q = Pomodoro::parse(&rewritten).unwrap();
    assert_eq!(q.start_date_time, p.start_date_time);
    assert_eq!(q.break_date_time, p.break_date_time);
    assert_eq!(q.work_count, p.work_count);
    assert_eq!(q.break_count, p.break_count);
    assert_eq!(q.working, p.working);
    assert_eq!(q.on_break, p.on_break);
    assert_eq!(q.on_long_break, p.on_long_break);
    assert_eq!(q.encode(), rewritten);
}

#[test]
fn malformed_text_is_rejected() {
    assert!(Pomodoro::parse("").is_none());
    assert!(Pomodoro::parse("{}").is_none());
    assert!(Pomodoro::parse("not a state").is_none());
    let missing_tail = "{\"start_date_time\":\"\",\"break_date_time\":\"\",\"work_count\":0,\"break_count\":0,\"working\":false,\"on_break\":false,\"on_long_break\":false";
    assert!(Pomodoro::parse(missing_tail).is_none());
    let trailing = "{\"start_date_time\":\"\",\"break_date_time\":\"\",\"work_count\":0,\"break_count\":0,\"working\":false,\"on_break\":false,\"on_long_break\":false} ";
    assert!(Pomodoro::parse(trailing).is_none());
}

#[test]
fn counter_out_of_range_is_rejected() {
    let too_big = "{\"start_date_time\":\"\",\"break_date_time\":\"\",\"work_count\":300,\"break_count\":0,\"working\":false,\"on_break\":false,\"on_long_break\":false}";
    assert!(Pomodoro::parse(too_big).is_none());
    let too_long = "{\"start_date_time\":\"\",\"break_date_time\":\"\",\"work_count\":0001,\"break_count\":0,\"working\":false,\"on_break\":false,\"on_long_break\":false}";
    assert!(Pomodoro::parse(too_long).is_none());
    let empty_count = "{\"start_date_time\":\"\",\"break_date_time\":\"\",\"work_count\":,\"break_count\":0,\"working\":false,\"on_break\":false,\"on_long_break\":false}";
    assert!(Pomodoro::parse(empty_count).is_none());
}
