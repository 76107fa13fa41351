use beckon::datetime::{
    civil_from_epoch, epoch_of_reading, epoch_to_date, epoch_to_make_time, now_epoch, parse_iso,
};

#[test]
fn known_times() {
    assert_eq!(epoch_to_make_time(0), "19700101T000000Z");
    assert_eq!(epoch_to_make_time(951_782_400), "20000229T000000Z");
    assert_eq!(epoch_to_make_time(1_781_967_600), "20260620T150000Z");
    assert_eq!(epoch_to_date(-1), "19691231");
    assert_eq!(epoch_to_make_time(-62_167_219_200), "00000101T000000Z");
    assert_eq!(epoch_to_make_time(253_402_300_799), "99991231T235959Z");
}

#[test]
fn extreme_times_have_a_date() {
    let c = civil_from_epoch(i64::MAX);
    assert_eq!((c.year, c.month, c.day), (292_277_026_596, 12, 4));
    let c = civil_from_epoch(i64::MIN);
    assert_eq!((c.year, c.month, c.day), (-292_277_022_657, 1, 27));
}

#[test]
fn reading_times() {
    assert_eq!(parse_iso("2026-06-20"), Ok((1_781_913_600, false)));
    assert_eq!(parse_iso("2026-06-20T15:00:00"), Ok((1_781_967_600, true)));
    assert_eq!(parse_iso("2026-06-20T15:00:00Z"), Ok((1_781_967_600, true)));
}

#[test]
fn refused_times() {
    for s in [
        "", "today", "2026-6-20", "2026-13-01", "2026-02-29", "2026-00-10", "2026-06-00",
        "2026-06-20T24:00:00", "2026-06-20T15:60:00", "2026-06-20T15:00", "2026-06-20T15:00:00X",
        "2026/06/20", "2026-06-20 15:00:00", "2026-06-20T15:00:00ZZ",
    ] {
        assert_eq!(parse_iso(s), Err(format!("not an ISO 8601 date or time: {s}")));
    }
    assert!(parse_iso("2024-02-29").is_ok());
}

#[test]
fn written_times_are_read_back() {
    for secs in [0i64, 1, 86_399, 86_400, 951_782_399, 1_781_967_645, 253_402_300_799] {
        let c = civil_from_epoch(secs);
        let iso = format!(
            "{:04}-{:02}-{:02}T{:02}:{:02}:{:02}Z",
            c.year, c.month, c.day, c.hour, c.minute, c.second
        );
        assert_eq!(parse_iso(&iso), Ok((secs, true)));
    }
}

#[test]
fn the_clock_runs() {
    // The start of 2020.
    assert!(now_epoch() > 1_577_836_800);
}

#[test]
fn readings_of_the_clock() {
    assert_eq!(epoch_of_reading(Some(0)), 0);
    assert_eq!(epoch_of_reading(Some(1_781_967_600)), 1_781_967_600);
    assert_eq!(epoch_of_reading(Some(9_223_372_036_854_775_807)), i64::MAX);
    assert_eq!(epoch_of_reading(Some(9_223_372_036_854_775_808)), i64::MAX);
    assert_eq!(epoch_of_reading(Some(u64::MAX)), i64::MAX);
    // A clock set to a time before 1970.
    assert_eq!(epoch_of_reading(None), 0);
}
