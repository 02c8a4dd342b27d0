use aster::instant::{
    add_seconds, civil_from_days, days_from_civil, days_in_month, instant_parts,
    validate_instant, InvalidInstant,
};

#[test]
fn adding_a_minute_moves_the_minute_field() {
    assert_eq!(
        add_seconds("2026-08-05T12:00:00Z", 60),
        Ok("2026-08-05T12:01:00Z".to_owned())
    );
}

#[test]
fn adding_seconds_crosses_leap_days_and_years() {
    assert_eq!(
        add_seconds("2024-02-28T23:59:59Z", 1),
        Ok("2024-02-29T00:00:00Z".to_owned())
    );
    assert_eq!(
        add_seconds("2023-02-28T23:59:59Z", 1),
        Ok("2023-03-01T00:00:00Z".to_owned())
    );
    assert_eq!(
        add_seconds("2025-12-31T23:59:59Z", 1),
        Ok("2026-01-01T00:00:00Z".to_owned())
    );
    assert_eq!(
        add_seconds("1970-01-01T00:00:00Z", 86_400 * 365),
        Ok("1971-01-01T00:00:00Z".to_owned())
    );
}

#[test]
fn negative_seconds_move_backwards() {
    assert_eq!(
        add_seconds("2026-01-01T00:00:00Z", -1),
        Ok("2025-12-31T23:59:59Z".to_owned())
    );
    assert_eq!(
        add_seconds("2024-03-01T00:00:00Z", -86_400),
        Ok("2024-02-29T00:00:00Z".to_owned())
    );
}

#[test]
fn adding_zero_gives_the_same_instant() {
    for text in ["0001-01-01T00:00:00Z", "2024-02-29T23:59:59Z", "9999-12-31T23:59:59Z"] {
        assert_eq!(add_seconds(text, 0), Ok(text.to_owned()));
    }
}

#[test]
fn results_outside_four_digit_years_are_rejected() {
    assert_eq!(add_seconds("9999-12-31T23:59:59Z", 1), Err(InvalidInstant));
    assert_eq!(add_seconds("0001-01-01T00:00:00Z", -1), Err(InvalidInstant));
    assert_eq!(add_seconds("2026-01-01T00:00:00Z", i64::MAX), Err(InvalidInstant));
    assert_eq!(add_seconds("2026-01-01T00:00:00Z", i64::MIN), Err(InvalidInstant));
}

#[test]
fn malformed_instants_are_rejected() {
    for text in [
        "2026-13-01T00:00:00Z",
        "2026-00-01T00:00:00Z",
        "2023-02-29T00:00:00Z",
        "2026-04-31T00:00:00Z",
        "2026-01-00T00:00:00Z",
        "2026-01-01T24:00:00Z",
        "2026-01-01T00:60:00Z",
        "2026-01-01T00:00:60Z",
        "0000-01-01T00:00:00Z",
        "2026-01-01 00:00:00Z",
        "2026-01-01T00:00:00",
        "2026-01-01T00:00:00+00:00",
        "+026-01-01T00:00:00Z",
        "2026-1a-01T00:00:00Z",
        "",
    ] {
        assert_eq!(validate_instant(text), Err(InvalidInstant), "{text}");
        assert_eq!(add_seconds(text, 1), Err(InvalidInstant), "{text}");
    }
}

#[test]
fn instant_parts_reads_each_field() {
    assert_eq!(instant_parts("2026-08-05T12:34:56Z"), Ok((2026, 8, 5, 12, 34, 56)));
    assert_eq!(validate_instant("2000-02-29T00:00:00Z"), Ok(()));
}

#[test]
fn month_lengths_follow_the_gregorian_rules() {
    assert_eq!(days_in_month(2024, 2), Some(29));
    assert_eq!(days_in_month(2023, 2), Some(28));
    assert_eq!(days_in_month(1900, 2), Some(28));
    assert_eq!(days_in_month(2000, 2), Some(29));
    assert_eq!(days_in_month(-4, 2), Some(29));
    assert_eq!(days_in_month(2023, 4), Some(30));
    assert_eq!(days_in_month(2023, 12), Some(31));
    assert_eq!(days_in_month(2023, 13), None);
    assert_eq!(days_in_month(2023, 0), None);
}

#[test]
fn civil_dates_and_day_numbers_round_trip() {
    assert_eq!(days_from_civil(1970, 1, 1), 0);
    assert_eq!(days_from_civil(2000, 3, 1), 11_017);
    assert_eq!(days_from_civil(2024, 1, 1), 19_723);
    assert_eq!(civil_from_days(0), (1970, 1, 1));
    assert_eq!(civil_from_days(-1), (1969, 12, 31));
    assert_eq!(civil_from_days(19_723), (2024, 1, 1));
    for days in [-719_162_i64, -1, 0, 59, 10_957, 2_932_896] {
        let (year, month, day) = civil_from_days(days);
        assert_eq!(days_from_civil(year, month as u32, day as u32), days);
    }
}

#[test]
fn invalid_instant_message_is_stable() {
    assert_eq!(InvalidInstant.message(), "invalid normalized instant");
}
