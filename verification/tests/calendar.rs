use sysmon::calendar::fmt_ts;

#[test]
fn dates_of_timestamps() {
    assert_eq!(fmt_ts(0), "1970-01-01");
    assert_eq!(fmt_ts(86399), "1970-01-01");
    assert_eq!(fmt_ts(86400), "1970-01-02");
    assert_eq!(fmt_ts(951782400), "2000-02-29");
    assert_eq!(fmt_ts(1709164800), "2024-02-29");
    assert_eq!(fmt_ts(1735689599), "2024-12-31");
    assert_eq!(fmt_ts(1735689600), "2025-01-01");
}

#[test]
fn dates_of_none() {
    assert_eq!(fmt_ts(i64::MAX), "-");
    assert_eq!(fmt_ts(i64::MIN), "-");
}

#[test]
fn dates_before_the_epoch() {
    assert_eq!(fmt_ts(-1), "1970-01-01");
    assert_eq!(fmt_ts(-86400), "1970-01-00");
    assert_eq!(fmt_ts(-86400 * 20), "1970-01--19");
}
