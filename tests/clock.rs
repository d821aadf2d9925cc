use hemp0x_core::clock::{
    ban_date, civil_date, full_minute_label, local_full_minute, local_month_day, month_day_label, transaction_date,
    LABEL_LIMIT,
};

fn chrono_utc(secs: i64, pattern: &str) -> String {
    chrono::DateTime::from_timestamp(secs, 0).unwrap().format(pattern).to_string()
}

#[test]
fn known_dates() {
    assert_eq!(civil_date(0), (1970, 1, 1));
    assert_eq!(civil_date(-1), (1969, 12, 31));
    assert_eq!(civil_date(59), (1970, 3, 1));
    assert_eq!(civil_date(11016), (2000, 2, 29));
    assert_eq!(month_day_label(1_700_000_000), "11/14 22:13");
    assert_eq!(full_minute_label(1_700_000_000), "2023-11-14 22:13");
    assert_eq!(full_minute_label(-1), "1969-12-31 23:59");
    assert_eq!(full_minute_label(253_402_300_800), "+10000-01-01 00:00");
    assert_eq!(full_minute_label(-62_167_219_200 - 86_400), "-0001-12-31 00:00");
}

#[test]
fn labels_match_chrono_in_utc() {
    let mut secs: i64 = -8_000_000_000_000;
    while secs <= 8_000_000_000_000 {
        assert_eq!(full_minute_label(secs), chrono_utc(secs, "%Y-%m-%d %H:%M"), "at {}", secs);
        assert_eq!(month_day_label(secs), chrono_utc(secs, "%m/%d %H:%M"), "at {}", secs);
        secs += 123_456_789_017;
    }
    for secs in [0i64, 59, 60, 3599, 3600, 86_399, 86_400, 951_782_400, 951_868_800, 4_107_542_400] {
        assert_eq!(full_minute_label(secs), chrono_utc(secs, "%Y-%m-%d %H:%M"));
        assert_eq!(full_minute_label(-secs), chrono_utc(-secs, "%Y-%m-%d %H:%M"));
    }
}

#[test]
fn offsets_shift_the_label() {
    assert_eq!(local_month_day(0, Some(3600)), Some("01/01 01:00".to_string()));
    assert_eq!(local_month_day(0, Some(-60)), Some("12/31 23:59".to_string()));
    assert_eq!(local_month_day(0, None), None);
    assert_eq!(local_full_minute(LABEL_LIMIT, Some(1)), None);
    assert_eq!(local_full_minute(86_400, Some(0)), Some("1970-01-02 00:00".to_string()));
}

#[test]
fn machine_labels_have_their_shape() {
    let d = transaction_date(1_700_000_000, 0);
    assert_eq!(d.len(), 11);
    assert_eq!(&d[2..3], "/");
    let b = ban_date(1_700_000_000).unwrap();
    assert_eq!(b.len(), 16);
    assert!(b.starts_with("2023-11-1"));
    assert_eq!(transaction_date(i64::MAX, 86_400).len(), 11);
    assert_eq!(transaction_date(i64::MAX, i64::MAX), "--");
    assert_eq!(ban_date(i64::MAX), None);
}
