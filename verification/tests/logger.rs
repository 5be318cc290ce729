use deepcopy::logger::{
    civil_from_days, format_seconds, format_time, FileLogger, Level, UnixTime,
};

#[test]
fn epoch_and_known_dates() {
    assert_eq!(civil_from_days(0), (1970, 1, 1));
    assert_eq!(civil_from_days(19_723), (2024, 1, 1)); // leap year boundary
    assert_eq!(civil_from_days(20_608), (2026, 6, 4));
}

#[test]
fn leap_days_and_dates_before_the_epoch() {
    assert_eq!(civil_from_days(-1), (1969, 12, 31));
    assert_eq!(civil_from_days(11_016), (2000, 2, 29));
    assert_eq!(civil_from_days(11_017), (2000, 3, 1));
    assert_eq!(civil_from_days(-25_509), (1900, 2, 28));
    assert_eq!(civil_from_days(-25_508), (1900, 3, 1));
    assert_eq!(civil_from_days(-719_468), (0, 3, 1));
    assert_eq!(civil_from_days(-719_469), (0, 2, 29));
    assert_eq!(civil_from_days(-719_528), (0, 1, 1));
    assert_eq!(civil_from_days(-719_529), (-1, 12, 31));
    assert_eq!(civil_from_days(2_932_896), (9999, 12, 31));
}

#[test]
fn every_day_of_four_centuries_follows_the_last() {
    let leap = |y: i64| y % 4 == 0 && (y % 100 != 0 || y % 400 == 0);
    let (mut y, mut m, mut d) = (1970, 1, 1);
    for z in 0..146_097 {
        assert_eq!(civil_from_days(z), (y, m, d));
        let last = match m {
            2 => 28 + leap(y) as u32,
            4 | 6 | 9 | 11 => 30,
            _ => 31,
        };
        d += 1;
        if d > last {
            d = 1;
            m += 1;
        }
        if m > 12 {
            m = 1;
            y += 1;
        }
    }
    assert_eq!((y, m, d), (2370, 1, 1));
}

#[test]
fn timestamps_are_padded() {
    let t = UnixTime { secs: 1_704_067_200 + 3 * 3600 + 4 * 60 + 5, millis: 7 };
    assert_eq!(format_time(Some(t)), "2024-01-01 03:04:05.007");
    assert_eq!(format_seconds(Some(t)), "2024-01-01 03:04:05");
    assert_eq!(format_time(Some(UnixTime { secs: 0, millis: 999 })), "1970-01-01 00:00:00.999");
}

#[test]
fn times_before_the_epoch_read_as_the_epoch() {
    assert_eq!(format_time(None), "1970-01-01 00:00:00.000");
    assert_eq!(format_seconds(None), "1970-01-01 00:00:00");
}

#[test]
fn cutting_at_the_dot_leaves_the_seconds() {
    for secs in [0, 59, 86_399, 951_782_400, 4_102_444_799] {
        let t = Some(UnixTime { secs, millis: 123 });
        assert_eq!(format_time(t).split('.').next(), Some(format_seconds(t).as_str()));
    }
}

#[test]
fn later_instants_have_later_timestamps() {
    let end = 253_402_300_799; // 9999-12-31 23:59:59
    let mut instants = Vec::new();
    for secs in [0, 59, 60, 3_599, 86_399, 86_400, 951_782_400, 4_102_444_799, end] {
        for millis in [0, 9, 10, 999] {
            instants.push(UnixTime { secs, millis });
        }
    }
    let texts: Vec<String> = instants.iter().map(|t| format_time(Some(*t))).collect();
    assert!(texts.windows(2).all(|w| w[0] < w[1]));
    assert!(texts.iter().all(|t| t.len() == 23));
    assert_eq!(texts.last().unwrap(), "9999-12-31 23:59:59.999");
    assert!(format_time(None) <= texts[0]);
}

#[test]
fn log_lines_have_columns() {
    let logger = FileLogger::new(false);
    let now = Some(UnixTime { secs: 0, millis: 0 });
    assert_eq!(
        logger.log(now, Level::Warn, "careful").unwrap(),
        "[1970-01-01 00:00:00.000] [WARN  ] | careful"
    );
    assert_eq!(
        logger.log(now, Level::Error, "").unwrap(),
        "[1970-01-01 00:00:00.000] [ERROR ] | "
    );
    assert_eq!(logger.log(now, Level::Debug, "noise"), None);
}

#[test]
fn debug_records_are_kept_only_when_asked_for() {
    let quiet = FileLogger::new(false);
    assert!(quiet.enabled(Level::Error) && quiet.enabled(Level::Warn) && quiet.enabled(Level::Info));
    assert!(!quiet.enabled(Level::Debug) && !quiet.enabled(Level::Trace));
    let chatty = FileLogger::new(true);
    assert!(chatty.enabled(Level::Debug));
    assert!(!chatty.enabled(Level::Trace));
}
