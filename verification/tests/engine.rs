use guche::config::AppConfig;
use guche::engine::{extract_text, Action, Event, GucheEngine, MessageBody, Outcome, Segment};
use guche::help::generate;

fn group_msg(gid: i64, uid: i64, mid: i64, text: &str) -> Event {
    Event {
        post_type: Some("message".into()),
        message_type: Some("group".into()),
        group_id: Some(gid),
        user_id: Some(uid),
        message_id: Some(mid),
        message: MessageBody::Text(text.into()),
    }
}

fn reply_text(o: &Outcome) -> Option<(i64, i64, String)> {
    match o.actions.as_slice() {
        [Action::SendGroupMsg { group_id, reply_id, text }] => Some((*group_id, *reply_id, text.clone())),
        _ => None,
    }
}

fn asked_code(o: &Outcome) -> Option<(i64, String)> {
    match o.actions.as_slice() {
        [Action::GetGroupInfo { group_id, code }] => Some((*group_id, code.clone())),
        _ => None,
    }
}

#[test]
fn enable_then_pick_up_code() {
    let mut cfg = AppConfig::default();
    let mut eng = GucheEngine::new();
    let o = eng.handle_event(&mut cfg, &group_msg(100, 1, 11, "/开启固车拾取"), 1_000_000);
    assert_eq!(reply_text(&o), Some((100, 11, "已启动本群的自动拾取车牌功能，将自动使用车牌为群聊更名".into())));
    assert!(o.save_config && o.notify);
    assert!(cfg.guche.groups.contains_key(&100));

    let o = eng.handle_event(&mut cfg, &group_msg(100, 1, 12, "/开启固车拾取"), 1_000_000);
    assert_eq!(reply_text(&o), Some((100, 12, "本群已启用固车助手功能".into())));
    assert!(!o.save_config);

    let o = eng.handle_event(&mut cfg, &group_msg(100, 2, 13, "  12345  "), 1_000_000);
    assert_eq!(asked_code(&o), Some((100, "12345".into())));
    assert!(!o.save_config && !o.cooling_down);
}

#[test]
fn cooldown_holds_back_second_code() {
    let mut cfg = AppConfig::default();
    cfg.guche.enable_group(100);
    let mut eng = GucheEngine::new();
    let o = eng.handle_event(&mut cfg, &group_msg(100, 2, 1, "12345"), 1_000_000);
    assert!(asked_code(&o).is_some());
    let o = eng.handle_event(&mut cfg, &group_msg(100, 2, 2, "54321"), 1_004_999);
    assert!(o.actions.is_empty());
    assert!(o.cooling_down);
    // Another group is not held back.
    cfg.guche.enable_group(200);
    let o = eng.handle_event(&mut cfg, &group_msg(200, 2, 3, "54321"), 1_004_999);
    assert_eq!(asked_code(&o), Some((200, "54321".into())));
    let o = eng.handle_event(&mut cfg, &group_msg(100, 2, 4, "54321"), 1_005_000);
    assert_eq!(asked_code(&o), Some((100, "54321".into())));
}

#[test]
fn non_code_does_not_start_cooldown() {
    let mut cfg = AppConfig::default();
    cfg.guche.enable_group(100);
    let mut eng = GucheEngine::new();
    let o = eng.handle_event(&mut cfg, &group_msg(100, 2, 1, "hello"), 1_000_000);
    assert!(o.actions.is_empty() && !o.cooling_down);
    let o = eng.handle_event(&mut cfg, &group_msg(100, 2, 2, "12345"), 1_000_001);
    assert!(asked_code(&o).is_some());
}

#[test]
fn disabled_group_and_other_events_are_ignored() {
    let mut cfg = AppConfig::default();
    let mut eng = GucheEngine::new();
    let o = eng.handle_event(&mut cfg, &group_msg(100, 2, 1, "12345"), 1_000_000);
    assert!(o.actions.is_empty() && !o.cooling_down);
    cfg.guche.enable_group(100);
    let mut private = group_msg(100, 2, 1, "12345");
    private.message_type = Some("private".into());
    assert!(eng.handle_event(&mut cfg, &private, 1_000_000).actions.is_empty());
    let mut notice = group_msg(100, 2, 1, "12345");
    notice.post_type = Some("notice".into());
    assert!(eng.handle_event(&mut cfg, &notice, 1_000_000).actions.is_empty());
    let mut missing = group_msg(100, 2, 1, "12345");
    missing.post_type = None;
    assert!(eng.handle_event(&mut cfg, &missing, 1_000_000).actions.is_empty());
}

#[test]
fn only_admins_manage_when_listed() {
    let mut cfg = AppConfig::default();
    cfg.admin_users = vec![42];
    let mut eng = GucheEngine::new();
    let o = eng.handle_event(&mut cfg, &group_msg(100, 7, 5, "/开启固车拾取"), 1);
    assert_eq!(reply_text(&o), Some((100, 5, "权限不足".into())));
    assert!(!o.save_config);
    assert!(cfg.guche.groups.is_empty());
    let o = eng.handle_event(&mut cfg, &group_msg(100, 7, 6, "/固车模式 宽松"), 1);
    assert_eq!(reply_text(&o), Some((100, 6, "权限不足".into())));
    let o = eng.handle_event(&mut cfg, &group_msg(100, 42, 7, "/开启固车拾取"), 1);
    assert_eq!(reply_text(&o), Some((100, 7, "已启动本群的自动拾取车牌功能，将自动使用车牌为群聊更名".into())));
    let o = eng.handle_event(&mut cfg, &group_msg(100, 7, 8, "/关闭固车拾取"), 1);
    assert_eq!(reply_text(&o), Some((100, 8, "权限不足".into())));
    assert!(cfg.guche.groups.contains_key(&100));
}

#[test]
fn disable_is_silent_when_not_enabled() {
    let mut cfg = AppConfig::default();
    cfg.guche.enable_group(100);
    let mut eng = GucheEngine::new();
    let o = eng.handle_event(&mut cfg, &group_msg(100, 1, 9, "/关闭固车拾取"), 1);
    assert_eq!(reply_text(&o), Some((100, 9, "固车拾取功能已关闭，下一次冲榜见~".into())));
    assert!(o.save_config);
    assert!(cfg.guche.groups.is_empty());
    let o = eng.handle_event(&mut cfg, &group_msg(100, 1, 10, "/关闭固车拾取"), 1);
    assert!(o.actions.is_empty() && !o.save_config);
}

#[test]
fn help_answers_with_usage() {
    let mut cfg = AppConfig::default();
    let mut eng = GucheEngine::new();
    let o = eng.handle_event(&mut cfg, &group_msg(3, 1, 4, " /固车拾取 使用方法 "), 1);
    assert_eq!(reply_text(&o), Some((3, 4, generate())));
    assert!(generate().contains("/开启固车拾取"));
}

#[test]
fn mode_command_sets_and_reports() {
    let mut cfg = AppConfig::default();
    cfg.guche.enable_group(100);
    let mut eng = GucheEngine::new();

    let o = eng.handle_event(&mut cfg, &group_msg(100, 1, 1, "/固车模式"), 1);
    let (_, _, usage) = reply_text(&o).unwrap();
    assert!(usage.starts_with("固车模式设置\n"));
    assert!(usage.contains("/固车模式 后缀    - 车牌放在群名后面\n"));
    assert!(usage.ends_with("当前模式：前缀 + 严格"));

    let o = eng.handle_event(&mut cfg, &group_msg(100, 1, 2, "/固车模式 宽松"), 1);
    assert_eq!(reply_text(&o), Some((100, 2, "已切换为: 宽松".into())));
    assert!(o.save_config && o.notify);
    assert_eq!(cfg.guche.groups[&100].mode, Some(true));

    // Fuzzy now picks the code out of a longer message.
    let o = eng.handle_event(&mut cfg, &group_msg(100, 1, 3, "12345 来"), 1_000_000);
    assert_eq!(asked_code(&o), Some((100, "12345".into())));

    let o = eng.handle_event(&mut cfg, &group_msg(100, 1, 4, "/固车模式 后缀 宽松"), 1);
    assert_eq!(reply_text(&o), Some((100, 4, "已切换为: 后缀".into())));
    let o = eng.handle_event(&mut cfg, &group_msg(100, 1, 5, "/固车模式 前缀 严格"), 1);
    assert_eq!(reply_text(&o), Some((100, 5, "已切换为: 前缀 + 严格".into())));
    let o = eng.handle_event(&mut cfg, &group_msg(100, 1, 6, "/固车模式 前缀 严格"), 1);
    assert_eq!(reply_text(&o), Some((100, 6, "设置未变化".into())));
    assert!(!o.save_config);

    let o = eng.handle_event(&mut cfg, &group_msg(100, 1, 7, "/固车模式 前缀 随便"), 1);
    assert_eq!(reply_text(&o), Some((100, 7, "未知参数: 随便".into())));
    let o = eng.handle_event(&mut cfg, &group_msg(100, 1, 8, "/固车模式"), 1);
    let (_, _, usage) = reply_text(&o).unwrap();
    assert!(usage.ends_with("当前模式：前缀 + 严格"));
}

#[test]
fn mode_command_needs_enabled_group() {
    let mut cfg = AppConfig::default();
    let mut eng = GucheEngine::new();
    let o = eng.handle_event(&mut cfg, &group_msg(100, 1, 1, "/固车模式 宽松"), 1);
    assert!(o.actions.is_empty());
    assert!(cfg.guche.groups.is_empty());
}

#[test]
fn text_segments_are_joined() {
    let ev = Event {
        post_type: Some("message".into()),
        message_type: Some("group".into()),
        group_id: Some(1),
        user_id: None,
        message_id: None,
        message: MessageBody::Segments(vec![
            Segment { kind: Some("text".into()), text: Some("123".into()) },
            Segment { kind: Some("image".into()), text: Some("ignored".into()) },
            Segment { kind: Some("text".into()), text: None },
            Segment { kind: None, text: Some("ignored".into()) },
            Segment { kind: Some("text".into()), text: Some("45".into()) },
        ]),
    };
    assert_eq!(extract_text(&ev), "12345");
    let mut other = ev;
    other.message = MessageBody::Other;
    assert_eq!(extract_text(&other), "");
}

#[test]
fn rename_prefixes_code_and_records() {
    let mut cfg = AppConfig::default();
    cfg.guche.enable_group(100);
    let eng = GucheEngine::new();
    let r = eng.handle_rename(&mut cfg, 100, "娱乐群", "66666", 9, 77);
    match r.actions.as_slice() {
        [Action::SetGroupName { group_id, new_name }, Action::SendGroupMsg { group_id: g2, reply_id, text }] => {
            assert_eq!((*group_id, new_name.as_str()), (100, "66666 娱乐群"));
            assert_eq!((*g2, *reply_id), (100, 77));
            assert_eq!(text, "已将群聊名称从'娱乐群'改为'66666 娱乐群'");
        },
        other => panic!("unexpected actions {:?}", other),
    }
    assert!(r.save_config && !r.truncated);
    assert_eq!(r.max_records, 1024);
    assert_eq!(r.record.old_name, "娱乐群");
    assert_eq!(r.record.new_name, "66666 娱乐群");
    assert_eq!(r.record.user_id, 9);
    assert_eq!(r.record.code, "66666");
    assert_eq!(r.record.time.len(), 19);
    assert_eq!(cfg.guche.groups[&100].name.as_deref(), Some("66666 娱乐群"));

    // The same name again leaves the stored name unchanged.
    let r = eng.handle_rename(&mut cfg, 100, "娱乐群", "66666", 9, 78);
    assert!(!r.save_config);
}

#[test]
fn rename_follows_group_placement_and_truncates() {
    let mut cfg = AppConfig::default();
    cfg.guche.enable_group(100);
    cfg.guche.patch_group(100, Some(Some(true)), None);
    let eng = GucheEngine::new();
    let long: String = "长".repeat(80);
    let r = eng.handle_rename(&mut cfg, 100, &long, "12345", 1, 2);
    assert!(r.truncated);
    match &r.actions[..] {
        [Action::SetGroupName { new_name, .. }, Action::SendGroupMsg { text, .. }] => {
            assert!(new_name.ends_with(" 12345"));
            assert_eq!(new_name.chars().count(), 60);
            assert!(text.ends_with("'（群名过长已截断）"));
        },
        other => panic!("unexpected actions {:?}", other),
    }
    // A group that is not enabled follows the global placement and stores nothing.
    let r = eng.handle_rename(&mut cfg, 300, "群", "12345", 1, 2);
    assert!(!r.save_config);
    match &r.actions[..] {
        [Action::SetGroupName { new_name, .. }, _] => assert_eq!(new_name, "12345 群"),
        other => panic!("unexpected actions {:?}", other),
    }
}
