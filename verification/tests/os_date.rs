use assay::os_date::{civil_from_secs, format_date, os_date, DateOutput, DateParts};

fn parts(year: i32, month: i32, day: i32, hour: i32, min: i32, sec: i32) -> DateParts {
    DateParts { year, month, day, hour, min, sec }
}

fn text(format: Option<&str>, epoch: i64, offset: i64) -> String {
    match os_date(format, epoch, offset) {
        DateOutput::Text(t) => t,
        other => panic!("expected text, got {other:?}"),
    }
}

#[test]
fn the_epoch_is_the_first_second_of_1970() {
    assert_eq!(civil_from_secs(0), parts(1970, 1, 1, 0, 0, 0));
    assert_eq!(civil_from_secs(86399), parts(1970, 1, 1, 23, 59, 59));
}

#[test]
fn leap_days_are_counted() {
    assert_eq!(civil_from_secs(951782400), parts(2000, 2, 29, 0, 0, 0));
    assert_eq!(civil_from_secs(951868800), parts(2000, 3, 1, 0, 0, 0));
    assert_eq!(civil_from_secs(4107542400), parts(2100, 3, 1, 0, 0, 0));
}

#[test]
fn a_known_instant_reads_as_its_date() {
    assert_eq!(civil_from_secs(1700000000), parts(2023, 11, 14, 22, 13, 20));
}

#[test]
fn iso_format_ignores_the_offset() {
    assert_eq!(
        text(Some("!%Y-%m-%dT%H:%M:%SZ"), 1700000000, 3600),
        "2023-11-14T22:13:20Z"
    );
    assert_eq!(text(Some("%H:%M"), 1700000000, 3600), "23:13");
    assert_eq!(text(Some("%H:%M"), 1700000000, -5 * 3600), "17:13");
}

#[test]
fn the_default_format_is_c() {
    assert_eq!(text(None, 0, 0), "1970-01-01 00:00:00");
    assert_eq!(text(Some("%c!"), 1700000000, 0), "2023-11-14 22:13:20!");
}

#[test]
fn star_t_gives_the_fields() {
    assert_eq!(
        os_date(Some("*t"), 1700000000, 0),
        DateOutput::Fields(parts(2023, 11, 14, 22, 13, 20))
    );
    assert_eq!(
        os_date(Some("!*t"), 1700000000, 7200),
        DateOutput::Fields(parts(2023, 11, 14, 22, 13, 20))
    );
}

#[test]
fn text_without_patterns_is_kept() {
    assert_eq!(format_date("no fields", &parts(2024, 1, 2, 3, 4, 5)), "no fields");
    assert_eq!(format_date("%Y%Y", &parts(2024, 1, 2, 3, 4, 5)), "20242024");
}

#[test]
fn before_1970_the_fields_go_negative() {
    assert_eq!(text(Some("%S"), -1, 0), "-1");
    assert_eq!(civil_from_secs(-1), parts(1970, 1, 1, 0, 0, -1));
}

#[test]
fn dates_put_back_together_give_the_seconds() {
    for secs in [0i64, 59, 3600, 86_400, 951_782_399, 1_700_000_000, 4_102_444_800] {
        let p = civil_from_secs(secs);
        let mut days: i64 = 0;
        for y in 1970..p.year {
            days += if (y % 4 == 0 && y % 100 != 0) || y % 400 == 0 { 366 } else { 365 };
        }
        let leap = (p.year % 4 == 0 && p.year % 100 != 0) || p.year % 400 == 0;
        let months = [31, if leap { 29 } else { 28 }, 31, 30, 31, 30, 31, 31, 30, 31, 30, 31];
        for m in 0..(p.month - 1) as usize {
            days += months[m];
        }
        days += (p.day - 1) as i64;
        let back = days * 86_400 + (p.hour as i64) * 3600 + (p.min as i64) * 60 + p.sec as i64;
        assert_eq!(back, secs);
    }
}
