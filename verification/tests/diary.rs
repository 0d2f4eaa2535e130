use imag::diary::{
    create_id_from_clispec, get_diary_timed_config, parse_timed_string, parse_u32,
    timed_from_config_value, ClockTime, DiaryConfigError, EntryTimeError, Timed,
};
use imag::toml_access::ValueShape;

fn now() -> ClockTime {
    ClockTime { hour: 14, minute: 37, second: 12, nanosecond: 500 }
}

#[test]
fn timed_strings() {
    assert_eq!(parse_timed_string("h", "d"), Ok(Timed::Hourly));
    assert_eq!(parse_timed_string("hourly", "d"), Ok(Timed::Hourly));
    assert_eq!(parse_timed_string("m", "d"), Ok(Timed::Minutely));
    assert_eq!(parse_timed_string("minutely", "d"), Ok(Timed::Minutely));
    assert_eq!(
        parse_timed_string("daily", "work"),
        Err(DiaryConfigError::Invalid(
            "Cannot parse config: 'diary.diaries.work.timed = daily'".to_string()
        ))
    );
}

#[test]
fn timed_from_values() {
    assert_eq!(timed_from_config_value(&None, "d"), Ok(None));
    assert_eq!(
        timed_from_config_value(&Some(ValueShape::String("m".to_string())), "d"),
        Ok(Some(Timed::Minutely))
    );
    assert_eq!(
        timed_from_config_value(&Some(ValueShape::Boolean(true)), "work"),
        Err(DiaryConfigError::Invalid(
            "Type error at 'diary.diaryies.work.timed': should be either 'h'/'hourly' or 'm'/'minutely'"
                .to_string()
        ))
    );
}

#[test]
fn timed_from_configuration() {
    let cfg = "[diary.diaries.work]\ntimed = \"hourly\"\n".parse::<toml::Value>().unwrap();
    assert_eq!(get_diary_timed_config(Some(&cfg), "work"), Ok(Some(Timed::Hourly)));
    assert_eq!(get_diary_timed_config(Some(&cfg), "home"), Ok(None));
    assert_eq!(get_diary_timed_config(None, "work"), Ok(None));
    let cfg = "diary = 1\n".parse::<toml::Value>().unwrap();
    assert_eq!(get_diary_timed_config(Some(&cfg), "work"), Err(DiaryConfigError::Read));
}

#[test]
fn minutes_are_read_like_from_str() {
    assert_eq!(parse_u32("42"), Some(42));
    assert_eq!(parse_u32("+7"), Some(7));
    assert_eq!(parse_u32("4294967295"), Some(4294967295));
    assert_eq!(parse_u32("4294967296"), None);
    assert_eq!(parse_u32(""), None);
    assert_eq!(parse_u32("+"), None);
    assert_eq!(parse_u32("-1"), None);
    assert_eq!(parse_u32("1a"), None);
}

#[test]
fn hourly_entries_start_at_the_full_hour() {
    assert_eq!(
        create_id_from_clispec(Timed::Hourly, now(), Some("12")),
        Ok(ClockTime { hour: 14, minute: 0, second: 0, nanosecond: 500 })
    );
}

#[test]
fn minutely_entries_take_the_given_minute() {
    assert_eq!(
        create_id_from_clispec(Timed::Minutely, now(), Some("5")),
        Ok(ClockTime { hour: 14, minute: 5, second: 0, nanosecond: 500 })
    );
    assert_eq!(
        create_id_from_clispec(Timed::Minutely, now(), None),
        Ok(ClockTime { hour: 14, minute: 37, second: 0, nanosecond: 500 })
    );
    assert_eq!(
        create_id_from_clispec(Timed::Minutely, now(), Some("five")),
        Ok(ClockTime { hour: 14, minute: 37, second: 0, nanosecond: 500 })
    );
    assert_eq!(
        create_id_from_clispec(Timed::Minutely, now(), Some("60")),
        Err(EntryTimeError::InvalidMinute(60))
    );
}
