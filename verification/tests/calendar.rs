use dsh_desktop::calendar::{civil_from_days, utc_stamp, utc_stamp_at};

#[test]
fn utc_stamp_shape() {
    let s = utc_stamp();
    assert_eq!(s.len(), 15);
    assert_eq!(&s[8..9], "-");
    assert!(s[..8].chars().all(|c| c.is_ascii_digit()));
}

#[test]
fn civil_from_days_known_dates() {
    assert_eq!(civil_from_days(0), (1970, 1, 1));
    assert_eq!(civil_from_days(-1), (1969, 12, 31));
    assert_eq!(civil_from_days(11_016), (2000, 2, 29));
    assert_eq!(civil_from_days(19_782), (2024, 2, 29));
    assert_eq!(civil_from_days(-719_468), (0, 3, 1));
    assert_eq!(civil_from_days(-719_528), (0, 1, 1));
    assert_eq!(civil_from_days(-719_529), (-1, 12, 31));
}

#[test]
fn stamps_of_known_seconds() {
    assert_eq!(utc_stamp_at(0), "19700101-000000");
    assert_eq!(utc_stamp_at(1_789_344_000), "20260914-000000");
    assert_eq!(utc_stamp_at(-1), "19691231-235959");
    assert_eq!(utc_stamp_at(951_782_400 + 3_661), "20000229-010101");
}

#[test]
fn stamps_sort_by_time() {
    let mut last = utc_stamp_at(0);
    for secs in [1, 59, 60, 3599, 3600, 86_399, 86_400, 31_536_000, 951_782_400, 253_402_300_799] {
        let next = utc_stamp_at(secs);
        assert!(last < next, "{last} {next}");
        last = next;
    }
    assert_eq!(last, "99991231-235959");
}
