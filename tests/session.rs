use ecg_acquisition::clock::{ClockOffset, NormalizedReading};
use ecg_acquisition::monitor::{Action, Effect, Monitor};
use ecg_acquisition::naming::{first_free_file_name, numbered_file_name, session_file_name};
use ecg_acquisition::recorder::csv_row;

#[test]
fn reconciliation_keeps_device_spacing() {
    let offset = ClockOffset::capture(1000, 5_000_000);
    assert_eq!(offset.reconcile(1000), Some(5_000_000));
    assert_eq!(offset.reconcile(1200), Some(5_000_200));
    assert_eq!(offset.reconcile(900), Some(4_999_900));
}

#[test]
fn reconciliation_out_of_range() {
    let offset = ClockOffset::capture(-1, i64::MAX);
    assert_eq!(offset.reconcile(-1), Some(i64::MAX));
    assert_eq!(offset.reconcile(0), None);
    let offset = ClockOffset::capture(i64::MAX, 0);
    assert_eq!(offset.reconcile(i64::MIN), None);
}

#[test]
fn file_names_count_up_within_a_day() {
    let mut taken: Vec<Vec<u8>> = vec![b"2024-04-30.csv".to_vec(), b"notes.txt".to_vec()];
    let first = first_free_file_name(b"2024-05-01", &taken);
    assert_eq!(first, b"2024-05-01.csv".to_vec());
    taken.push(first);
    let second = first_free_file_name(b"2024-05-01", &taken);
    assert_eq!(second, b"2024-05-01 (1).csv".to_vec());
    taken.push(second);
    let third = first_free_file_name(b"2024-05-01", &taken);
    assert_eq!(third, b"2024-05-01 (2).csv".to_vec());
}

#[test]
fn file_names_fill_the_smallest_gap() {
    let taken: Vec<Vec<u8>> = vec![
        b"2024-05-01.csv".to_vec(),
        b"2024-05-01 (2).csv".to_vec(),
        b"2024-05-01 (1).csv".to_vec(),
        b"2024-05-01 (4).csv".to_vec(),
    ];
    assert_eq!(first_free_file_name(b"2024-05-01", &taken), b"2024-05-01 (3).csv".to_vec());
    assert_eq!(numbered_file_name(b"2024-05-01", 12), b"2024-05-01 (12).csv".to_vec());
    assert_eq!(numbered_file_name(b"2024-05-01", 0), b"2024-05-01.csv".to_vec());
}

#[test]
fn session_file_name_from_calendar_date() {
    let mut taken: Vec<Vec<u8>> = Vec::new();
    let first = session_file_name(2024, 5, 1, &taken).unwrap();
    assert_eq!(first, b"2024-05-01.csv".to_vec());
    taken.push(first);
    assert_eq!(session_file_name(2024, 5, 1, &taken), Some(b"2024-05-01 (1).csv".to_vec()));
    assert_eq!(session_file_name(7, 12, 31, &taken), Some(b"0007-12-31.csv".to_vec()));
    assert_eq!(session_file_name(2024, 2, 29, &taken), Some(b"2024-02-29.csv".to_vec()));
    assert_eq!(session_file_name(2023, 2, 29, &taken), None);
    assert_eq!(session_file_name(1900, 2, 29, &taken), None);
    assert_eq!(session_file_name(2024, 13, 1, &taken), None);
    assert_eq!(session_file_name(2024, 4, 31, &taken), None);
    assert_eq!(session_file_name(10000, 1, 1, &taken), None);
}

#[test]
fn csv_rows_carry_rfc3339_time() {
    let r = NormalizedReading { wall_millis: 5_000_200, value: b"0.25".to_vec() };
    let row = csv_row(&r, 0).unwrap();
    assert_eq!(row.timestamp, "1970-01-01T01:23:20.200+00:00");
    assert_eq!(row.value, b"0.25".to_vec());
    let row = csv_row(&r, 3600).unwrap();
    assert_eq!(row.timestamp, "1970-01-01T02:23:20.200+01:00");
    let r = NormalizedReading { wall_millis: 1_714_521_600_000, value: b"1".to_vec() };
    assert_eq!(csv_row(&r, -7200).unwrap().timestamp, "2024-04-30T22:00:00-02:00");
    assert_eq!(csv_row(&r, 86_400), None);
    assert_eq!(csv_row(&r, -86_400), None);
}

fn feed(m: &mut Monitor, line: &str, wall_now: i64) -> Vec<Effect> {
    let mut out = Vec::new();
    for &b in line.as_bytes() {
        out.extend(m.on_byte(b, wall_now));
    }
    out
}

fn reading(wall: i64, value: &str) -> NormalizedReading {
    NormalizedReading { wall_millis: wall, value: value.as_bytes().to_vec() }
}

#[test]
fn malformed_frame_publishes_sentinel_only() {
    let mut m = Monitor::new();
    assert_eq!(m.on_connected(b"2024-05-01.csv".to_vec()), vec![Effect::ResetMonitor]);
    let mut effects = Vec::new();
    effects.extend(feed(&mut m, "(100 0.1)\n", 5_000_000));
    effects.extend(feed(&mut m, "()\n", 5_000_050));
    effects.extend(feed(&mut m, "(200 0.2)\n", 5_000_100));
    assert_eq!(
        effects,
        vec![
            Effect::Publish(reading(5_000_000, "0.1")),
            Effect::Persist(reading(5_000_000, "0.1")),
            Effect::Publish(reading(5_000_050, "0")),
            Effect::Publish(reading(5_000_100, "0.2")),
            Effect::Persist(reading(5_000_100, "0.2")),
        ]
    );
    let published = effects.iter().filter(|e| matches!(e, Effect::Publish(_))).count();
    let persisted = effects.iter().filter(|e| matches!(e, Effect::Persist(_))).count();
    assert_eq!((published, persisted), (3, 2));
}

#[test]
fn offset_is_taken_from_first_valid_reading() {
    let mut m = Monitor::new();
    m.on_connected(b"a.csv".to_vec());
    assert_eq!(feed(&mut m, "(1000 1.5)\n", 5_000_000), vec![
        Effect::Publish(reading(5_000_000, "1.5")),
        Effect::Persist(reading(5_000_000, "1.5")),
    ]);
    assert_eq!(feed(&mut m, "(1200 2.5)\n", 9_999_999), vec![
        Effect::Publish(reading(5_000_200, "2.5")),
        Effect::Persist(reading(5_000_200, "2.5")),
    ]);
}

#[test]
fn heartbeats_keep_their_interval() {
    let mut m = Monitor::new();
    assert_eq!(m.next_action(0), Action::Discover);
    m.on_connected(b"a.csv".to_vec());
    assert_eq!(m.next_action(10), Action::SendHeartbeat);
    m.on_heartbeat_sent(10);
    assert_eq!(m.next_action(11), Action::ReadByte);
    assert_eq!(m.next_action(509), Action::ReadByte);
    assert_eq!(m.next_action(510), Action::SendHeartbeat);
    m.on_heartbeat_sent(512);
    assert_eq!(m.next_action(1011), Action::ReadByte);
    assert_eq!(m.next_action(1012), Action::SendHeartbeat);
}

#[test]
fn heartbeat_timeline_spacing() {
    let mut m = Monitor::new();
    m.on_connected(b"a.csv".to_vec());
    let mut writes = Vec::new();
    let mut now: u64 = 0;
    while now < 5_000 {
        if m.next_action(now) == Action::SendHeartbeat {
            m.on_heartbeat_sent(now);
            writes.push(now);
        }
        now += 7;
    }
    assert!(writes.len() >= 9);
    for pair in writes.windows(2) {
        let gap = pair[1] - pair[0];
        assert!(gap >= 500 && gap < 507);
    }
}

#[test]
fn reconnect_resets_and_reanchors() {
    let mut m = Monitor::new();
    m.on_connected(b"2024-05-01.csv".to_vec());
    feed(&mut m, "(1000 1)\n", 5_000_000);
    feed(&mut m, "(50", 5_000_010);
    assert_eq!(m.on_link_failure(), vec![Effect::Flush]);
    assert_eq!(m.on_link_failure(), vec![]);
    assert!(!m.is_connected());
    assert_eq!(m.next_action(20_000), Action::Discover);
    assert_eq!(feed(&mut m, "(2000 1)\n", 6_000_000), vec![]);
    assert_eq!(m.on_connected(b"2024-05-01 (1).csv".to_vec()), vec![Effect::ResetMonitor]);
    assert!(m.is_connected());
    assert_eq!(m.next_action(20_001), Action::SendHeartbeat);
    // The partial line of the old session is gone, and the new session
    // anchors its clock at its own first reading.
    assert_eq!(feed(&mut m, "(7 3)\n", 7_000_000), vec![
        Effect::Publish(reading(7_000_000, "3")),
        Effect::Persist(reading(7_000_000, "3")),
    ]);
    assert_eq!(feed(&mut m, "(10 4)\n", 7_500_000), vec![
        Effect::Publish(reading(7_000_003, "4")),
        Effect::Persist(reading(7_000_003, "4")),
    ]);
}

#[test]
fn teardown_without_session_flushes_nothing() {
    let mut m = Monitor::new();
    assert_eq!(m.on_link_failure(), vec![]);
}

#[test]
fn csv_rows_exist_across_the_promised_range() {
    for wall in [-8_000_000_000_000_000i64, -1, 0, 8_000_000_000_000_000] {
        let r = NormalizedReading { wall_millis: wall, value: b"0.5".to_vec() };
        for offset in [-86_399, 0, 86_399] {
            assert!(csv_row(&r, offset).is_some(), "{} {}", wall, offset);
        }
    }
    let r = NormalizedReading { wall_millis: i64::MAX, value: b"0.5".to_vec() };
    assert_eq!(csv_row(&r, 0), None);
}
