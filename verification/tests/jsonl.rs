use resc_client::jsonl::{civil_from_days, format_iso8601, numbered_path, shift_pairs, ts_wall, LogCounters};

#[test]
fn iso8601_matches_known_instants() {
    assert_eq!(format_iso8601(0, 0), "1970-01-01T00:00:00.000Z");
    assert_eq!(format_iso8601(1_700_000_000, 789), "2023-11-14T22:13:20.789Z");
    assert_eq!(format_iso8601(1_600_000_000, 5), "2020-09-13T12:26:40.005Z");
    assert_eq!(format_iso8601(1_754_200_000, 0), "2025-08-03T05:46:40.000Z");
    assert_eq!(format_iso8601(951_782_400, 0), "2000-02-29T00:00:00.000Z");
    assert_eq!(format_iso8601(946_684_799, 999), "1999-12-31T23:59:59.999Z");
}

#[test]
fn iso8601_before_the_epoch() {
    assert_eq!(format_iso8601(-1, 0), "1969-12-31T23:59:59.000Z");
    assert_eq!(format_iso8601(-86_400, 0), "1969-12-31T00:00:00.000Z");
    assert_eq!(format_iso8601(-62_167_219_200, 0), "0000-01-01T00:00:00.000Z");
    assert_eq!(format_iso8601(-62_167_219_201, 0), "-001-12-31T23:59:59.000Z");
}

#[test]
fn civil_from_days_known_dates() {
    assert_eq!(civil_from_days(0), (1970, 1, 1));
    assert_eq!(civil_from_days(-1), (1969, 12, 31));
    assert_eq!(civil_from_days(11_016), (2000, 2, 29));
    assert_eq!(civil_from_days(11_017), (2000, 3, 1));
    assert_eq!(civil_from_days(-25_508), (1900, 3, 1));
    assert_eq!(civil_from_days(-25_509), (1900, 2, 28));
}

#[test]
fn ts_wall_has_the_timestamp_shape() {
    let s = ts_wall();
    assert_eq!(s.len(), 24);
    assert_eq!(&s[4..5], "-");
    assert_eq!(&s[10..11], "T");
    assert!(s.ends_with('Z'));
}

#[test]
fn rotation_shift_order_is_highest_first() {
    assert_eq!(shift_pairs(4), vec![(3, 4), (2, 3), (1, 2)]);
    assert_eq!(numbered_path("/x/client.jsonl", 1), "/x/client.jsonl.1");
}

#[test]
fn shift_pairs_edge_cases() {
    assert!(shift_pairs(0).is_empty());
    assert!(shift_pairs(1).is_empty());
    assert_eq!(shift_pairs(2), vec![(1, 2)]);
    assert_eq!(numbered_path("a", 40), "a.40");
}

#[test]
fn write_plan_rotates_flushes_and_syncs() {
    let mut c = LogCounters { bytes_written: 0, records_since_flush: 0 };
    let p = c.plan_write(9, false);
    assert!(!p.rotate_first && !p.flush_after && !p.sync_after);
    assert_eq!(c, LogCounters { bytes_written: 10, records_since_flush: 1 });
    let p = c.plan_write(4, true);
    assert!(p.flush_after && p.sync_after);
    assert_eq!(c.records_since_flush, 0);
    let mut c = LogCounters { bytes_written: 10 * 1024 * 1024, records_since_flush: 31 };
    let p = c.plan_write(1, false);
    assert!(p.rotate_first && p.flush_after && !p.sync_after);
    assert_eq!(c, LogCounters { bytes_written: 2, records_since_flush: 0 });
}

#[test]
fn consecutive_days_walk_the_calendar() {
    fn leap(y: i64) -> bool {
        (y % 4 == 0 && y % 100 != 0) || y % 400 == 0
    }
    fn month_len(y: i64, m: u32) -> u32 {
        match m {
            2 => if leap(y) { 29 } else { 28 },
            4 | 6 | 9 | 11 => 30,
            _ => 31,
        }
    }
    let start: i64 = -800_000;
    let mut expected = civil_from_days(start);
    for z in start..start + 1_600_000 {
        let got = civil_from_days(z);
        assert_eq!(got, expected, "day {z}");
        let (y, m, d) = got;
        expected = if d < month_len(y, m) {
            (y, m, d + 1)
        } else if m < 12 {
            (y, m + 1, 1)
        } else {
            (y + 1, 1, 1)
        };
    }
}
