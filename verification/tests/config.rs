use guche::config::{
    strip_json_comments, AppConfig, BuffersUpdate, CommandsUpdate, ConfigUpdate, GroupEntry, GucheUpdate,
    OneBotUpdate, StatsUpdate, UpdateOutcome, WebUiUpdate, update_config,
};

fn no_update() -> ConfigUpdate {
    ConfigUpdate {
        onebot: None,
        guche: None,
        webui: None,
        admin_users: None,
        stats: None,
        buffers: None,
        commands: None,
    }
}

#[test]
fn strip_removes_line_comments() {
    let raw = "{\n  // whole line\n  \"a\": 1, // trailing\n  \"b\": 2\n}";
    assert_eq!(strip_json_comments(raw), "{\n  \n  \"a\": 1, \n  \"b\": 2\n}");
}

#[test]
fn strip_keeps_slashes_inside_strings() {
    let raw = "\"url\": \"http://example.com\" // note";
    assert_eq!(strip_json_comments(raw), "\"url\": \"http://example.com\" ");
    assert_eq!(strip_json_comments(r#"{"u": "http://h"} // c"#), r#"{"u": "http://h"} "#);
    let kept = r#"{"u": "http://h"}"#;
    assert_eq!(strip_json_comments(kept), kept);
    // An escaped quote does not end the string.
    assert_eq!(strip_json_comments(r#""a\"//b" // c"#), r#""a\"//b" "#);
    // An escaped backslash does.
    assert_eq!(strip_json_comments(r#""a\\" // c"#), r#""a\\" "#);
    // A lone slash is not a comment.
    assert_eq!(strip_json_comments("1 / 2"), "1 / 2");
    let raw2 = "\"a\": \"x\", \"b\": 1 // c";
    assert_eq!(strip_json_comments(raw2), "\"a\": \"x\", \"b\": 1 ");
}

#[test]
fn strip_normalises_line_ends() {
    assert_eq!(strip_json_comments("a\r\nb // c\r\nd"), "a\nb \nd");
    assert_eq!(strip_json_comments("a\nb\n"), "a\nb");
    assert_eq!(strip_json_comments(""), "");
    assert_eq!(strip_json_comments("\n"), "");
    assert_eq!(strip_json_comments("a\n\nb"), "a\n\nb");
}

#[test]
fn defaults_are_valid() {
    let c = AppConfig::default();
    assert_eq!(c.onebot.host, "127.0.0.1");
    assert_eq!(c.onebot.port, 8901);
    assert!(c.onebot.token.is_none());
    assert_eq!(c.commands.guche_enable, "/开启固车拾取");
    assert_eq!(c.commands.guche_disable, "/关闭固车拾取");
    assert_eq!(c.commands.guche_help, "/固车拾取 使用方法");
    assert_eq!(c.commands.guche_mode, "/固车模式");
    assert_eq!(c.guche.cooldown_millis, 5000);
    assert!(!c.guche.fuzzy && !c.guche.pos_end);
    assert!(c.guche.groups.is_empty());
    assert_eq!(c.stats.max_records_per_group, 1024);
    assert!(c.webui.enabled);
    assert_eq!(c.webui.port, 8080);
    assert_eq!(c.buffers.log_buffer_size, 1024);
    assert_eq!(c.buffers.message_queue_size, 512);
    assert_eq!(c.buffers.connection_pool_size, 10);
    assert_eq!(c.validate(), Ok(()));
}

#[test]
fn validate_reports_each_problem() {
    let mut c = AppConfig::default();
    c.webui.port = 0;
    assert_eq!(c.validate(), Err("webui port cannot be 0".to_string()));
    c.guche.cooldown_millis = -1;
    assert_eq!(c.validate(), Err("cooldown_seconds must be non-negative".to_string()));
    c.onebot.port = 0;
    assert_eq!(c.validate(), Err("onebot port cannot be 0".to_string()));
    let mut d = AppConfig::default();
    d.guche.cooldown_millis = 0;
    assert_eq!(d.validate(), Ok(()));
}

#[test]
fn update_applies_named_values_only() {
    let mut c = AppConfig::default();
    let mut u = no_update();
    u.guche = Some(GucheUpdate { fuzzy: Some(Some(true)), pos_end: Some(None), cooldown_millis: Some(2500) });
    u.admin_users = Some(vec![Some(1), None, Some(3)]);
    u.stats = Some(StatsUpdate { max_records_per_group: Some(7) });
    u.buffers = Some(BuffersUpdate { log_buffer_size: None, message_queue_size: Some(9), connection_pool_size: None });
    u.commands = Some(CommandsUpdate {
        guche_enable: Some("/on".into()),
        guche_disable: None,
        guche_help: None,
        guche_mode: None,
    });
    match update_config(&mut c, &u) {
        UpdateOutcome::Saved { restart_ws } => assert!(!restart_ws),
        UpdateOutcome::Rejected(e) => panic!("rejected: {}", e),
    }
    assert!(c.guche.fuzzy);
    assert!(!c.guche.pos_end);
    assert_eq!(c.guche.cooldown_millis, 2500);
    assert_eq!(c.admin_users, vec![1, 3]);
    assert_eq!(c.stats.max_records_per_group, 7);
    assert_eq!(c.buffers.log_buffer_size, 1024);
    assert_eq!(c.buffers.message_queue_size, 9);
    assert_eq!(c.commands.guche_enable, "/on");
    assert_eq!(c.commands.guche_disable, "/关闭固车拾取");
}

#[test]
fn onebot_edit_restarts_and_token_can_be_cleared() {
    let mut c = AppConfig::default();
    c.onebot.token = Some("old".into());
    let mut u = no_update();
    u.onebot = Some(OneBotUpdate { host: Some("0.0.0.0".into()), port: Some(9000), token: Some(None) });
    match update_config(&mut c, &u) {
        UpdateOutcome::Saved { restart_ws } => assert!(restart_ws),
        UpdateOutcome::Rejected(e) => panic!("rejected: {}", e),
    }
    assert_eq!(c.onebot.host, "0.0.0.0");
    assert_eq!(c.onebot.port, 9000);
    assert!(c.onebot.token.is_none());
}

#[test]
fn ports_keep_their_low_bits() {
    let mut c = AppConfig::default();
    let mut u = no_update();
    u.webui = Some(WebUiUpdate { port: Some(65536 + 81) });
    c.apply_update(&u);
    assert_eq!(c.webui.port, 81);
}

#[test]
fn invalid_update_is_rejected() {
    let mut c = AppConfig::default();
    let mut u = no_update();
    u.webui = Some(WebUiUpdate { port: Some(0) });
    u.stats = Some(StatsUpdate { max_records_per_group: Some(3) });
    match update_config(&mut c, &u) {
        UpdateOutcome::Rejected(e) => assert_eq!(e, "webui port cannot be 0"),
        UpdateOutcome::Saved { .. } => panic!("a zero port was saved"),
    }
    // A rejected edit changes nothing.
    assert_eq!(c.webui.port, 8080);
    assert_eq!(c.stats.max_records_per_group, 1024);
    let mut v = no_update();
    v.guche = Some(GucheUpdate { fuzzy: Some(Some(true)), pos_end: None, cooldown_millis: Some(-1) });
    match update_config(&mut c, &v) {
        UpdateOutcome::Rejected(e) => assert_eq!(e, "cooldown_seconds must be non-negative"),
        UpdateOutcome::Saved { .. } => panic!("a negative cooldown was saved"),
    }
    assert!(!c.guche.fuzzy);
    assert_eq!(c.guche.cooldown_millis, 5000);
}

#[test]
fn group_settings_fall_back_to_global() {
    let mut c = AppConfig::default();
    c.guche.fuzzy = true;
    assert_eq!(c.guche.fuzzy_for(7), None);
    assert!(!c.guche.pos_end_for(7));
    assert!(c.guche.enable_group(7));
    assert!(!c.guche.enable_group(7));
    assert!(c.guche.is_enabled(7));
    assert_eq!(c.guche.fuzzy_for(7), Some(true));
    assert!(c.guche.patch_group(7, Some(Some(true)), Some(Some(false))));
    assert_eq!(c.guche.fuzzy_for(7), Some(false));
    assert!(c.guche.pos_end_for(7));
    assert!(!c.guche.patch_group(8, Some(Some(true)), None));
    assert!(!c.guche.is_enabled(8));
    assert!(c.guche.patch_group(7, Some(None), None));
    assert!(!c.guche.pos_end_for(7));
    assert!(c.guche.disable_group(7));
    assert!(!c.guche.disable_group(7));
}

#[test]
fn edit_and_record_name_report_changes() {
    let mut c = AppConfig::default();
    assert!(!c.guche.record_group_name(5, "x"));
    c.guche.enable_group(5);
    assert!(c.guche.record_group_name(5, "群"));
    assert!(!c.guche.record_group_name(5, "群"));
    assert_eq!(c.guche.entry_of(5).unwrap().name, Some("群".to_string()));
    let e = GroupEntry { pos: Some(true), mode: None, name: Some("群".into()) };
    assert!(c.guche.edit_group(5, e));
    let same = GroupEntry { pos: Some(true), mode: None, name: Some("群".into()) };
    assert!(!c.guche.edit_group(5, same));
    let other = GroupEntry { pos: None, mode: None, name: None };
    assert!(!c.guche.edit_group(6, other));
}
