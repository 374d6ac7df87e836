use webtop::collector::folder_sizes::FolderSize;
use webtop::paths::path_components;
use webtop::storage::calendar::{day_buckets, week_buckets};
use webtop::storage::db::{bucket_start_ms, day_key, history_group, hour_window, month_prefix, months_back, HistoryGroup, HOUR_MS};
use webtop::storage::folders::{folder_record, leaf_name, parse_last_full_scan, subtree_prefix, SUBTREE_DELETE_SQL};
use webtop::storage::ring_buffer::RingBuffer;
use webtop::storage::rollup::{
    create_table_sql, parse_rollup_through, rolled_query_sql, roll_up_sql, rolled_window, rollup_range, rollup_serves,
    stored_col_names, ROLLUP_BUCKET_MS,
};

#[test]
fn push_and_retrieve() {
    let mut rb = RingBuffer::new(3);
    rb.push(1, 1u64);
    rb.push(2, 2u64);
    let all = rb.get_all();
    assert_eq!(all.len(), 2);
    assert_eq!(all[0], 1);
    assert_eq!(all[1], 2);
}

#[test]
fn evicts_oldest_when_full() {
    let mut rb = RingBuffer::new(2);
    rb.push(1, 1u64);
    rb.push(2, 2u64);
    rb.push(3, 3u64);
    let all = rb.get_all();
    assert_eq!(all.len(), 2);
    assert_eq!(all[0], 2);
    assert_eq!(all[1], 3);
}

#[test]
fn latest_returns_last() {
    let mut rb = RingBuffer::new(10);
    rb.push(100, 100u64);
    rb.push(200, 200u64);
    assert_eq!(*rb.latest().unwrap(), 200);
}

#[test]
fn get_since_filters_by_timestamp() {
    let mut rb = RingBuffer::new(10);
    for i in 0..5u64 {
        rb.push(i * 1000, i);
    }
    let since_2000 = rb.get_since(2000);
    assert_eq!(since_2000.len(), 3);
    assert_eq!(since_2000, vec![2, 3, 4]);
}

#[test]
fn an_empty_buffer_has_no_latest_sample() {
    let rb: RingBuffer<u64> = RingBuffer::new(4);
    assert!(rb.latest().is_none());
    assert_eq!(rb.len(), 0);
    assert!(rb.get_all().is_empty());
}

#[test]
fn a_zero_capacity_buffer_still_keeps_the_newest_sample() {
    let mut rb = RingBuffer::new(0);
    rb.push(1, 10u64);
    rb.push(2, 20u64);
    assert_eq!(rb.len(), 1);
    assert_eq!(*rb.latest().unwrap(), 20);
}

#[test]
fn only_whole_multiples_are_served_from_the_rollup() {
    assert!(rollup_serves(ROLLUP_BUCKET_MS));
    assert!(rollup_serves(ROLLUP_BUCKET_MS * 7));
    assert!(!rollup_serves(ROLLUP_BUCKET_MS / 2));
    // 30 minutes is not a multiple of 4.
    assert!(!rollup_serves(1_800_000));
}

#[test]
fn the_still_filling_bucket_is_never_frozen() {
    let now = 10 * ROLLUP_BUCKET_MS + 1_000;
    assert_eq!(rollup_range(now, 0), Some((0, 10 * ROLLUP_BUCKET_MS)));
    assert_eq!(rollup_range(now, 10 * ROLLUP_BUCKET_MS), None);
    assert_eq!(rollup_range(10 * ROLLUP_BUCKET_MS, 9 * ROLLUP_BUCKET_MS), Some((9 * ROLLUP_BUCKET_MS, 10 * ROLLUP_BUCKET_MS)));
}

#[test]
fn an_off_grid_since_is_floored() {
    let since = 3 * ROLLUP_BUCKET_MS + 60_000;
    assert_eq!(rolled_window(since, 10 * ROLLUP_BUCKET_MS), (3 * ROLLUP_BUCKET_MS, 10 * ROLLUP_BUCKET_MS));
    assert_eq!(rolled_window(since, 0), (3 * ROLLUP_BUCKET_MS, 3 * ROLLUP_BUCKET_MS));
}

#[test]
fn the_rollup_boundary_defaults_to_zero() {
    assert_eq!(parse_rollup_through(Some("960000")), 960_000);
    assert_eq!(parse_rollup_through(Some("junk")), 0);
    assert_eq!(parse_rollup_through(None), 0);
}

#[test]
fn rollup_statements_name_every_stored_column() {
    let cols = stored_col_names();
    assert!(!cols.is_empty());
    let create = create_table_sql();
    let roll = roll_up_sql();
    for c in &cols {
        assert!(create.contains(c.as_str()), "{c} missing from the table");
        assert!(roll.contains(c.as_str()), "{c} missing from the roll-up");
    }
    assert!(create.starts_with("CREATE TABLE IF NOT EXISTS metrics_4min"));
    assert!(rolled_query_sql().contains("FROM metrics_4min"));
}

#[test]
fn children_come_back_with_their_leaf_names() {
    assert_eq!(leaf_name("/home/big"), "big");
    assert_eq!(leaf_name("/home/mid/"), "mid");
    assert_eq!(leaf_name("/"), "/");
}

#[test]
fn a_replace_only_touches_its_own_subtree() {
    assert_eq!(subtree_prefix("/home"), "/home/");
    // A wildcard in a root's name is matched as itself.
    assert_eq!(subtree_prefix("/data_1%"), "/data_1%/");
    assert!(!SUBTREE_DELETE_SQL.contains("LIKE"));
}

#[test]
fn the_full_scan_time_is_read_back_as_a_number() {
    assert_eq!(parse_last_full_scan(Some("1700000000000")), Some(1_700_000_000_000));
    assert_eq!(parse_last_full_scan(Some("-5")), Some(-5));
    assert_eq!(parse_last_full_scan(Some("soon")), None);
    assert_eq!(parse_last_full_scan(None), None);
}

#[test]
fn folder_records_store_text_paths() {
    let f = FolderSize {
        path: path_components("/home/a"),
        parent: path_components("/home"),
        size_bytes: 900,
        file_count: 3,
        unreadable: 1,
    };
    let r = folder_record(&f, 1_000);
    assert_eq!(r.path, "/home/a");
    assert_eq!(r.parent, "/home");
    assert_eq!(r.size_bytes, 900);
    assert_eq!(r.file_count, 3);
    assert_eq!(r.unreadable, 1);
    assert_eq!(r.scanned_at, 1_000);
}

#[test]
fn history_groups_have_fixed_bucket_counts() {
    assert_eq!(history_group("hour"), Some(HistoryGroup::Hour));
    assert_eq!(history_group("day"), Some(HistoryGroup::Day(30)));
    assert_eq!(history_group("week"), Some(HistoryGroup::Week(12)));
    assert_eq!(history_group("month"), Some(HistoryGroup::Month(12)));
    assert_eq!(history_group("year"), None);
}

#[test]
fn monthly_buckets_cross_year_boundary() {
    assert_eq!(months_back(2026, 2, 0), (2026, 2));
    assert_eq!(months_back(2026, 2, 1), (2026, 1));
    assert_eq!(months_back(2026, 2, 2), (2025, 12));
    assert_eq!(months_back(2026, 1, 13), (2024, 12));
    assert_eq!(month_prefix(2025, 12), "2025-12-");
    assert_eq!(month_prefix(2026, 1), "2026-01-");
    assert!(day_key(2025, 12, 31).starts_with(month_prefix(2025, 12).as_str()));
}

#[test]
fn day_keys_are_zero_padded() {
    assert_eq!(day_key(2026, 4, 21), "2026-04-21");
    assert_eq!(day_key(2026, 1, 1), "2026-01-01");
}

#[test]
fn hour_buckets_align_to_local_hours() {
    // 10:30 UTC for a client two hours east (offset -120).
    let now = 1_700_000_000_000 - (1_700_000_000_000 % HOUR_MS) + 30 * 60_000;
    let (since, starts) = hour_window(now, -120);
    assert_eq!(starts.len(), 24);
    assert_eq!(starts[0], since);
    for w in starts.windows(2) {
        assert_eq!(w[1] - w[0], HOUR_MS);
    }
    let last = starts[23];
    assert!(last <= now && now < last + HOUR_MS);
    // A half-hour zone shifts the grid by thirty minutes.
    let (_, half) = hour_window(now, -330);
    assert_eq!((half[0] - starts[0]).rem_euclid(HOUR_MS), 30 * 60_000);
}

#[test]
fn negative_bucket_starts_clamp_to_zero() {
    assert_eq!(bucket_start_ms(-5), 0);
    assert_eq!(bucket_start_ms(42), 42);
}

#[test]
fn day_buckets_end_today_and_cross_month_ends() {
    let days = day_buckets((2026, 3, 2), 3).unwrap();
    assert_eq!(days, vec![(2026, 2, 28), (2026, 3, 1), (2026, 3, 2)]);
    let leap = day_buckets((2024, 3, 1), 2).unwrap();
    assert_eq!(leap, vec![(2024, 2, 29), (2024, 3, 1)]);
    assert_eq!(day_buckets((2026, 1, 1), 2).unwrap()[0], (2025, 12, 31));
    assert!(day_buckets((2026, 2, 30), 3).is_none(), "not a date");
    assert!(day_buckets((2026, 5, 5), 0).unwrap().is_empty());
    assert_eq!(day_buckets((2026, 4, 21), 30).unwrap().len(), 30);
}

#[test]
fn week_buckets_start_on_monday() {
    // 2026-04-22 is a Wednesday.
    let weeks = week_buckets((2026, 4, 22), 2).unwrap();
    assert_eq!(weeks.len(), 2);
    assert_eq!(weeks[0].monday, (2026, 4, 13));
    assert_eq!(weeks[1].monday, (2026, 4, 20));
    assert_eq!(weeks[1].days[0], (2026, 4, 20));
    assert_eq!(weeks[1].days[6], (2026, 4, 26));
    // A week spanning a month end.
    let w = week_buckets((2026, 5, 3), 1).unwrap();
    assert_eq!(w[0].monday, (2026, 4, 27));
    assert_eq!(w[0].days, vec![(2026, 4, 27), (2026, 4, 28), (2026, 4, 29), (2026, 4, 30), (2026, 5, 1), (2026, 5, 2), (2026, 5, 3)]);
    // On a Monday the current week starts today.
    assert_eq!(week_buckets((2026, 4, 20), 1).unwrap()[0].monday, (2026, 4, 20));
    assert!(week_buckets((2026, 13, 1), 1).is_none());
}
