use guche::stats::{group_file_name, group_id_of_file_name, range_end, GroupStats, RenameRecord, StatsManager, group_ids_of_names};
use guche::paths::{config_path, data_dir, data_path};
use std::path::PathBuf;

fn rec(time: &str) -> RenameRecord {
    RenameRecord {
        old_name: "a".into(),
        new_name: "b".into(),
        user_id: 1,
        time: time.into(),
        code: "12345".into(),
    }
}

#[test]
fn range_end_date_only_includes_whole_day() {
    let mut s = GroupStats::default();
    s.records.push(rec("2026-09-17 00:00:00"));
    s.records.push(rec("2026-09-17 14:30:00"));
    s.records.push(rec("2026-09-17 23:59:59"));
    s.records.push(rec("2026-09-18 00:00:00"));
    assert_eq!(s.count_in_range("2026-09-17", "2026-09-17"), 3);
    assert_eq!(s.get_records_in_range("2026-09-17", "2026-09-17").len(), 3);
    assert_eq!(s.delete_records_in_range("2026-09-17", "2026-09-17"), 3);
    assert_eq!(s.records.len(), 1);
}

#[test]
fn range_end_explicit_datetime() {
    let mut s = GroupStats::default();
    s.records.push(rec("2026-09-17 10:00:00"));
    s.records.push(rec("2026-09-17 12:00:00"));
    assert_eq!(s.count_in_range("2026-09-17 00:00:00", "2026-09-17 11:00:00"), 1);
}

#[test]
fn range_end_widens_only_ten_byte_dates() {
    assert_eq!(range_end("2026-09-17"), "2026-09-17 23:59:59");
    assert_eq!(range_end("2026-09-17 11:00:00"), "2026-09-17 11:00:00");
    assert_eq!(range_end("2026-9-17"), "2026-9-17");
    // Ten bytes, not ten characters.
    assert_eq!(range_end("年年年a"), "年年年a 23:59:59");
}

#[test]
fn add_record_keeps_newest() {
    let mut s = GroupStats::default();
    for i in 0..5 {
        s.add_record(rec(&format!("2026-01-0{} 00:00:00", i + 1)), 3);
    }
    assert_eq!(s.records.len(), 3);
    assert_eq!(s.records[0].time, "2026-01-03 00:00:00");
    assert_eq!(s.records[2].time, "2026-01-05 00:00:00");
    s.add_record(rec("2026-02-01 00:00:00"), 0);
    assert!(s.records.is_empty());
}

#[test]
fn delete_keeps_order_of_the_rest() {
    let mut s = GroupStats::default();
    s.records.push(rec("2026-01-01 00:00:00"));
    s.records.push(rec("2026-01-02 00:00:00"));
    s.records.push(rec("2026-01-03 00:00:00"));
    s.records.push(rec("2026-01-04 00:00:00"));
    let counted = s.count_in_range("2026-01-02", "2026-01-03");
    let deleted = s.delete_records_in_range("2026-01-02", "2026-01-03");
    assert_eq!(counted, 2);
    assert_eq!(deleted, counted);
    let left: Vec<&str> = s.records.iter().map(|r| r.time.as_str()).collect();
    assert_eq!(left, vec!["2026-01-01 00:00:00", "2026-01-04 00:00:00"]);
    assert_eq!(s.count_in_range("2026-01-02", "2026-01-03"), 0);
}

#[test]
fn records_on_a_day() {
    let mut s = GroupStats::default();
    s.records.push(rec("2026-01-01 08:00:00"));
    s.records.push(rec("2026-01-01 09:00:00"));
    s.records.push(rec("2026-01-02 08:00:00"));
    assert_eq!(s.count_on_day("2026-01-01"), 2);
    assert_eq!(s.count_on_day("2026-01-03"), 0);
    assert!(s.count_today() <= 3);
}

#[test]
fn clear_drops_everything() {
    let mut s = GroupStats::default();
    s.records.push(rec("2026-01-01 08:00:00"));
    s.clear();
    assert!(s.records.is_empty());
}

#[test]
fn file_names_round_trip() {
    for g in [0i64, 7, 123456789, -42, i64::MAX, i64::MIN] {
        let name = group_file_name(g);
        assert_eq!(name, format!("{}.json", g));
        assert_eq!(group_id_of_file_name(&name), Some(g));
    }
}

#[test]
fn file_names_that_are_not_groups() {
    assert_eq!(group_id_of_file_name("abc.json"), None);
    assert_eq!(group_id_of_file_name("12.txt"), None);
    assert_eq!(group_id_of_file_name(".json"), None);
    assert_eq!(group_id_of_file_name("-.json"), None);
    assert_eq!(group_id_of_file_name("+7.json"), Some(7));
    assert_eq!(group_id_of_file_name("9223372036854775808.json"), None);
    assert_eq!(group_id_of_file_name("-9223372036854775808.json"), Some(i64::MIN));
    assert_eq!(group_id_of_file_name("1 2.json"), None);
}

#[test]
fn files_live_below_the_base_directory() {
    let base = PathBuf::from("/srv/guche");
    let m = StatsManager::new(base.clone());
    assert_eq!(m.group_dir(), PathBuf::from("/srv/guche/stats"));
    assert_eq!(m.group_path(-12), PathBuf::from("/srv/guche/stats/-12.json"));
    assert_eq!(config_path(&base), PathBuf::from("/srv/guche/config.json"));
    assert_eq!(data_dir(&base), PathBuf::from("/srv/guche/data"));
    assert_eq!(data_path(&base, "guche.log"), PathBuf::from("/srv/guche/data/guche.log"));
}

#[test]
fn listing_keeps_group_files_in_order() {
    let names: Vec<String> = vec!["12.json", "notes.txt", "-7.json", "x.json", "+3.json", ".json", "5.json.bak"]
        .into_iter()
        .map(String::from)
        .collect();
    assert_eq!(group_ids_of_names(&names), vec![12, -7, 3]);
    let saved = vec![group_file_name(-42)];
    assert_eq!(group_ids_of_names(&saved), vec![-42]);
}
