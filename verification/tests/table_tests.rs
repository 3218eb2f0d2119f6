use iw4m_log_server::logreader::{second_from, LogReader};
use iw4m_log_server::table::ReadPlan;

fn key(s: &str) -> String {
    String::from(s)
}

#[test]
fn default_reader_is_empty_with_thirty_seconds() {
    let reader = LogReader::default();
    assert_eq!(reader.len(), 0);
    assert_eq!(reader.max_file_time_change(), 30);
    assert!(!reader.contains_key(&key("AAAAAAAA")));
}

#[test]
fn time_to_live_can_be_chosen() {
    let reader = LogReader::with_max_file_time_change(5);
    assert_eq!(reader.max_file_time_change(), 5);
    assert_eq!(reader.len(), 0);
}

#[test]
fn rotate_files_the_issued_record() {
    let mut reader = LogReader::default();
    reader.rotate(key("unknown"), false, 100, 1000, &key("AAAAAAAA"));
    assert_eq!(reader.len(), 1);
    let record = reader.get(&key("AAAAAAAA")).unwrap();
    assert_eq!(record.size, 100);
    assert_eq!(record.read, 1000);
    assert_eq!(record.next_key, "AAAAAAAA");
    assert_eq!(record.previous_key, Some(key("unknown")));
    assert!(reader.get(&key("unknown")).is_none());
}

#[test]
fn rotate_retires_the_presented_token() {
    let mut reader = LogReader::default();
    reader.rotate(key(""), false, 100, 1000, &key("AAAAAAAA"));
    reader.rotate(key("AAAAAAAA"), true, 150, 1001, &key("BBBBBBBB"));
    assert_eq!(reader.len(), 1);
    assert!(!reader.contains_key(&key("AAAAAAAA")));
    let record = reader.get(&key("BBBBBBBB")).unwrap();
    assert_eq!(record.size, 150);
    assert_eq!(record.read, 1001);
    assert_eq!(record.previous_key, Some(key("AAAAAAAA")));
}

#[test]
fn rotate_without_retiring_keeps_the_presented_token() {
    let mut reader = LogReader::default();
    reader.rotate(key(""), false, 100, 1000, &key("AAAAAAAA"));
    reader.rotate(key("AAAAAAAA"), false, 150, 1001, &key("BBBBBBBB"));
    assert_eq!(reader.len(), 2);
    assert!(reader.contains_key(&key("AAAAAAAA")));
    assert!(reader.contains_key(&key("BBBBBBBB")));
}

#[test]
fn issuing_a_token_twice_overwrites_its_record() {
    let mut reader = LogReader::default();
    reader.rotate(key("x"), false, 100, 1000, &key("AAAAAAAA"));
    reader.rotate(key("y"), false, 70, 1005, &key("AAAAAAAA"));
    assert_eq!(reader.len(), 1);
    let record = reader.get(&key("AAAAAAAA")).unwrap();
    assert_eq!(record.size, 70);
    assert_eq!(record.read, 1005);
    assert_eq!(record.previous_key, Some(key("y")));
}

#[test]
fn issuing_the_retired_token_leaves_no_record_under_it() {
    let mut reader = LogReader::default();
    reader.rotate(key(""), false, 100, 1000, &key("AAAAAAAA"));
    reader.rotate(key("AAAAAAAA"), true, 150, 1001, &key("AAAAAAAA"));
    assert_eq!(reader.len(), 0);
    assert!(!reader.contains_key(&key("AAAAAAAA")));
}

#[test]
fn plan_resumes_from_the_recorded_size() {
    let mut reader = LogReader::default();
    reader.rotate(key(""), false, 100, 1000, &key("AAAAAAAA"));
    assert_eq!(
        reader.plan_read(&key("AAAAAAAA"), 150, 1010),
        ReadPlan { start: 100, length: 50, retire: true }
    );
    assert_eq!(
        reader.plan_read(&key("AAAAAAAA"), 100, 1010),
        ReadPlan { start: 100, length: 0, retire: true }
    );
}

#[test]
fn plan_for_an_unknown_token_reads_the_whole_file() {
    let mut reader = LogReader::default();
    reader.rotate(key(""), false, 100, 1000, &key("AAAAAAAA"));
    assert_eq!(
        reader.plan_read(&key("ZZZZZZZZ"), 150, 1010),
        ReadPlan { start: 0, length: 150, retire: false }
    );
    assert_eq!(
        LogReader::default().plan_read(&key("AAAAAAAA"), 0, 0),
        ReadPlan { start: 0, length: 0, retire: false }
    );
}

#[test]
fn plan_for_an_expired_token_reads_the_whole_file() {
    let mut reader = LogReader::default();
    reader.rotate(key(""), false, 100, 1000, &key("AAAAAAAA"));
    assert_eq!(
        reader.plan_read(&key("AAAAAAAA"), 150, 1029),
        ReadPlan { start: 100, length: 50, retire: true }
    );
    assert_eq!(
        reader.plan_read(&key("AAAAAAAA"), 150, 1030),
        ReadPlan { start: 100, length: 50, retire: true }
    );
    assert_eq!(
        reader.plan_read(&key("AAAAAAAA"), 150, 1031),
        ReadPlan { start: 0, length: 150, retire: false }
    );
}

#[test]
fn plan_for_a_shrunk_file_reads_the_whole_file() {
    let mut reader = LogReader::default();
    reader.rotate(key(""), false, 150, 1000, &key("AAAAAAAA"));
    assert_eq!(
        reader.plan_read(&key("AAAAAAAA"), 50, 1001),
        ReadPlan { start: 0, length: 50, retire: false }
    );
}

#[test]
fn plan_covers_the_largest_file() {
    let mut reader = LogReader::default();
    reader.rotate(key(""), false, 1, 0, &key("AAAAAAAA"));
    assert_eq!(
        reader.plan_read(&key("AAAAAAAA"), u64::MAX, 0),
        ReadPlan { start: 1, length: u64::MAX - 1, retire: true }
    );
}

#[test]
fn sweep_keeps_a_record_whose_age_equals_the_time_to_live() {
    let mut reader = LogReader::default();
    reader.rotate(key(""), false, 10, 970, &key("AAAAAAAA"));
    reader.clear_old_logs_at(1000);
    assert!(reader.contains_key(&key("AAAAAAAA")));
    assert_eq!(reader.len(), 1);
    reader.clear_old_logs_at(1001);
    assert!(!reader.contains_key(&key("AAAAAAAA")));
    assert_eq!(reader.len(), 0);
}

#[test]
fn sweep_removes_records_older_than_the_time_to_live() {
    let mut reader = LogReader::default();
    reader.rotate(key(""), false, 10, 1000, &key("AAAAAAAA"));
    reader.rotate(key(""), false, 20, 1010, &key("BBBBBBBB"));
    reader.rotate(key(""), false, 30, 1020, &key("CCCCCCCC"));
    reader.clear_old_logs_at(1030);
    assert_eq!(reader.len(), 3);
    reader.clear_old_logs_at(1031);
    assert_eq!(reader.len(), 2);
    assert!(!reader.contains_key(&key("AAAAAAAA")));
    assert_eq!(reader.get(&key("BBBBBBBB")).unwrap().size, 20);
    reader.clear_old_logs_at(1050);
    assert_eq!(reader.len(), 1);
    assert!(reader.contains_key(&key("CCCCCCCC")));
    reader.clear_old_logs_at(1051);
    assert_eq!(reader.len(), 0);
    assert_eq!(reader.max_file_time_change(), 30);
}

#[test]
fn a_purged_token_stays_purged() {
    let mut reader = LogReader::default();
    reader.rotate(key(""), false, 10, 1000, &key("AAAAAAAA"));
    reader.clear_old_logs_at(1031);
    reader.clear_old_logs_at(1001);
    assert!(!reader.contains_key(&key("AAAAAAAA")));
    assert_eq!(
        reader.plan_read(&key("AAAAAAAA"), 40, 1001),
        ReadPlan { start: 0, length: 40, retire: false }
    );
}

#[test]
fn a_record_from_the_future_is_live() {
    let mut reader = LogReader::default();
    reader.rotate(key(""), false, 10, 2000, &key("AAAAAAAA"));
    reader.clear_old_logs_at(1000);
    assert!(reader.contains_key(&key("AAAAAAAA")));
    assert_eq!(
        reader.plan_read(&key("AAAAAAAA"), 15, 1000),
        ReadPlan { start: 10, length: 5, retire: true }
    );
}

#[test]
fn zero_time_to_live_keeps_nothing_from_the_past() {
    let mut reader = LogReader::with_max_file_time_change(0);
    reader.rotate(key(""), false, 10, 1000, &key("AAAAAAAA"));
    reader.clear_old_logs_at(1000);
    assert_eq!(reader.len(), 1);
    reader.clear_old_logs_at(1001);
    assert_eq!(reader.len(), 0);
}

#[test]
fn sweep_by_the_clock_purges_old_and_keeps_new() {
    let mut reader = LogReader::default();
    let now = std::time::SystemTime::now()
        .duration_since(std::time::SystemTime::UNIX_EPOCH)
        .unwrap()
        .as_secs();
    reader.rotate(key(""), false, 10, 0, &key("AAAAAAAA"));
    reader.rotate(key(""), false, 20, now, &key("BBBBBBBB"));
    reader.clear_old_logs();
    assert!(!reader.contains_key(&key("AAAAAAAA")));
    assert!(reader.contains_key(&key("BBBBBBBB")));
}

#[test]
fn a_clock_before_the_epoch_reads_as_second_zero() {
    assert_eq!(second_from(None), 0);
    assert_eq!(second_from(Some(0)), 0);
    assert_eq!(second_from(Some(1_700_000_000)), 1_700_000_000);
    assert_eq!(second_from(Some(u64::MAX)), u64::MAX);
}
