use guche::stats::{GroupStats, RenameRecord};
use guche::webui::{entry_matches, filter_logs, parse_log_line, stats_overview, summarize_group, summarize_group_on, unseen_lines};

fn rec(time: &str) -> RenameRecord {
    RenameRecord {
        old_name: "a".into(),
        new_name: "b".into(),
        user_id: 1,
        time: time.into(),
        code: "12345".into(),
    }
}

#[test]
fn parses_full_timestamp_lines() {
    let e = parse_log_line("[2026-01-02 03:04:05 INFO guche] [RECV] 收到消息").unwrap();
    assert_eq!(e.timestamp, "2026-01-02 03:04:05");
    assert_eq!(e.level, "INFO");
    assert_eq!(e.target, "guche");
    assert_eq!(e.message, "[RECV] 收到消息");
}

#[test]
fn parses_time_only_lines() {
    let e = parse_log_line("[03:04:05 WARN guche::onebot] hi").unwrap();
    assert_eq!(e.timestamp, "03:04:05");
    assert_eq!(e.level, "WARN");
    assert_eq!(e.target, "guche::onebot");
    assert_eq!(e.message, "hi");
}

#[test]
fn rejects_short_headers_and_unbracketed_lines() {
    assert!(parse_log_line("no bracket here").is_none());
    assert!(parse_log_line("[a b] m").is_none());
    assert!(parse_log_line("").is_none());
}

#[test]
fn message_starts_two_bytes_after_bracket() {
    assert_eq!(parse_log_line("[t l g]").unwrap().message, "");
    assert_eq!(parse_log_line("[t l g]x").unwrap().message, "");
    assert_eq!(parse_log_line("[t l g]xyz").unwrap().message, "yz");
    // The byte after the bracket starts a wider character: no boundary there.
    assert_eq!(parse_log_line("[t l g]车车").unwrap().message, "");
}

#[test]
fn filters_are_case_insensitive() {
    let lines: Vec<String> = vec![
        "[2026-01-02 03:04:05 INFO guche] Hello World".into(),
        "[2026-01-02 03:04:06 WARN guche::onebot] 连接池已满".into(),
        "garbage".into(),
        "[2026-01-02 03:04:07 info guche::webui] hello again".into(),
    ];
    let all = filter_logs(&lines, "", "", "");
    assert_eq!(all.len(), 3);
    let info = filter_logs(&lines, "INFO", "", "");
    assert_eq!(info.len(), 2);
    let web = filter_logs(&lines, "", "WEBUI", "");
    assert_eq!(web.len(), 1);
    assert_eq!(web[0].message, "hello again");
    let kw = filter_logs(&lines, "", "", "HELLO");
    assert_eq!(kw.len(), 2);
    let both = filter_logs(&lines, "info", "onebot", "");
    assert!(both.is_empty());
    let e = parse_log_line("[t WARN guche::onebot] 连接池已满").unwrap();
    assert!(entry_matches(&e, "warn", "ONEBOT", "连接池"));
    assert!(!entry_matches(&e, "info", "", ""));
}

#[test]
fn summary_counts_records() {
    let mut s = GroupStats::default();
    let empty = summarize_group(&s, "", "");
    assert_eq!(empty.rename_count, 0);
    assert_eq!(empty.today_count, 0);
    assert_eq!(empty.range_count, 0);
    assert!(empty.last_rename.is_none());
    s.records.push(rec("2026-09-17 00:00:00"));
    s.records.push(rec("2026-09-17 14:30:00"));
    s.records.push(rec("2026-09-18 00:00:00"));
    let sum = summarize_group(&s, "2026-09-17", "2026-09-17");
    assert_eq!(sum.rename_count, 3);
    assert_eq!(sum.range_count, 2);
    assert_eq!(sum.last_rename.as_deref(), Some("2026-09-18 00:00:00"));
    // Only a full range counts.
    assert_eq!(summarize_group(&s, "2026-09-17", "").range_count, 0);
    assert_eq!(summarize_group(&s, "", "2026-09-17").range_count, 0);
}

fn group(id: i64, times: &[&str]) -> (i64, GroupStats) {
    let mut s = GroupStats::default();
    s.group_id = id;
    for t in times {
        s.records.push(rec(t));
    }
    (id, s)
}

#[test]
fn summary_counts_the_given_day() {
    let (_, s) = group(1, &["2026-09-17 01:00:00", "2026-09-17 02:00:00", "2026-09-18 00:00:00"]);
    let sum = summarize_group_on(&s, "", "", "2026-09-17");
    assert_eq!(sum.today_count, 2);
    assert_eq!(sum.range_count, 0);
}

#[test]
fn overview_adds_up_groups() {
    let groups = vec![
        group(1, &["2026-09-17 01:00:00", "2026-09-18 00:00:00"]),
        group(2, &[]),
        group(3, &["2026-09-17 23:59:59", "2026-09-17 05:00:00", "2026-09-16 05:00:00"]),
    ];
    let o = stats_overview(&groups, "2026-09-17", "2026-09-17", "2026-09-18", None).unwrap();
    assert_eq!(o.total_renames, 5);
    assert_eq!(o.today_renames, 1);
    assert_eq!(o.range_renames, 3);
    assert_eq!(o.groups.len(), 3);
    assert_eq!(o.groups[0].0, 1);
    assert_eq!(o.groups[2].1.rename_count, 3);
    assert_eq!(o.groups[2].1.last_rename.as_deref(), Some("2026-09-16 05:00:00"));
    assert!(o.groups[1].1.last_rename.is_none());

    let only = stats_overview(&groups, "", "", "2026-09-17", Some(3)).unwrap();
    assert_eq!(only.total_renames, 3);
    assert_eq!(only.today_renames, 2);
    assert_eq!(only.range_renames, 0);
    assert_eq!(only.groups.len(), 1);
    assert_eq!(only.groups[0].0, 3);

    let none = stats_overview(&groups, "", "", "2026-09-17", Some(9)).unwrap();
    assert_eq!(none.total_renames, 0);
    assert!(none.groups.is_empty());
}

#[test]
fn stream_sends_only_new_lines() {
    let lines: Vec<String> = vec!["a".into(), "b".into(), "c".into()];
    assert_eq!(unseen_lines(&lines, 0), (lines.clone(), 3));
    assert_eq!(unseen_lines(&lines, 2), (vec!["c".to_string()], 3));
    assert_eq!(unseen_lines(&lines, 3), (Vec::new(), 3));
    // A buffer that shrank below the count sends nothing and keeps the count.
    assert_eq!(unseen_lines(&lines, 5), (Vec::new(), 5));
}
