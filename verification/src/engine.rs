//! The decisions of the bot: what to do with an incoming group message and
//! with the group name fetched for a rename.
//!
//! The engine works on plain values and returns the actions to perform; the
//! caller talks to the OneBot client, saves the configuration when told to
//! and stores the rename record.
use vstd::prelude::*;

use crate::config::{AppConfig, EntryView, GroupEntry, copy_opt_string, group_fuzzy, group_pos_end};
use crate::cooldown::{Cooldown, is_ready};
use crate::help::{generate, help_text};
use crate::matcher::{match_message, message_code};
use crate::permission::{is_superuser, may_manage};
use crate::rename::{compute_new_name, renamed};
use crate::stats::RenameRecord;
use crate::text::{chars_eq, chars_of, copy_range, seqs_view, split_words, starts_with,
    starts_with_chars, string_from, string_of, trim, trim_chars, words};
use crate::utils::{date_text, hms_text, now_datetime};

verus! {

/// Something to ask of the OneBot client.
#[derive(Debug)]
pub enum Action {
    /// Fetch the group's name, then rename it with `code`.
    GetGroupInfo { group_id: i64, code: String },
    /// Set the group's name.
    SetGroupName { group_id: i64, new_name: String },
    /// Reply in the group, quoting message `reply_id`.
    SendGroupMsg { group_id: i64, reply_id: i64, text: String },
}

/// The view of an action, with texts as character sequences.
pub enum ActionView {
    GetGroupInfo(i64, Seq<char>),
    SetGroupName(i64, Seq<char>),
    SendGroupMsg(i64, i64, Seq<char>),
}

impl View for Action {
    type V = ActionView;

    open spec fn view(&self) -> ActionView {
        match self {
            Action::GetGroupInfo { group_id, code } => ActionView::GetGroupInfo(*group_id, code@),
            Action::SetGroupName { group_id, new_name } => ActionView::SetGroupName(*group_id, new_name@),
            Action::SendGroupMsg { group_id, reply_id, text } => ActionView::SendGroupMsg(
                *group_id,
                *reply_id,
                text@,
            ),
        }
    }
}

/// The views of a list of actions.
pub open spec fn actions_view(v: Seq<Action>) -> Seq<ActionView> {
    v.map_values(|a: Action| a@)
}

/// One segment of a message: its `type` and, when it has one, its text.
#[derive(Debug)]
pub struct Segment {
    pub kind: Option<String>,
    pub text: Option<String>,
}

/// The `message` of an event: a list of segments, a plain string, or
/// anything else (or nothing).
#[derive(Debug)]
pub enum MessageBody {
    Segments(Vec<Segment>),
    Text(String),
    Other,
}

/// An event from the OneBot client, with the fields the bot reads.
#[derive(Debug)]
pub struct Event {
    pub post_type: Option<String>,
    pub message_type: Option<String>,
    pub group_id: Option<i64>,
    pub user_id: Option<i64>,
    pub message_id: Option<i64>,
    pub message: MessageBody,
}

/// The text a segment contributes: its text when its type is `text`.
pub open spec fn segment_text(seg: Segment) -> Seq<char> {
    if seg.kind matches Some(k) && k@ == "text"@ {
        match seg.text {
            Some(t) => t@,
            None => Seq::empty(),
        }
    } else {
        Seq::empty()
    }
}

pub open spec fn segments_text(segs: Seq<Segment>) -> Seq<char>
    decreases segs.len(),
{
    if segs.len() == 0 {
        Seq::empty()
    } else {
        segments_text(segs.drop_last()) + segment_text(segs.last())
    }
}

/// The text of a message: its text segments joined, or the plain string.
pub open spec fn message_text(m: MessageBody) -> Seq<char> {
    match m {
        MessageBody::Segments(v) => segments_text(v@),
        MessageBody::Text(s) => s@,
        MessageBody::Other => Seq::empty(),
    }
}

fn is_literal(s: &Option<String>, lit: &str) -> (r: bool)
    ensures
        r == (s matches Some(k) && k@ == lit@),
{
    match s {
        Some(k) => {
            let a = chars_of(k.as_str());
            let b = chars_of(lit);
            chars_eq(&a, &b)
        },
        None => false,
    }
}

/// The text of an event's message.
pub fn extract_text(event: &Event) -> (r: String)
    ensures
        r@ == message_text(event.message),
{
    match &event.message {
        MessageBody::Segments(segs) => {
            let mut out = String::new();
            for i in 0..segs.len()
                invariant
                    out@ == segments_text(segs@.subrange(0, i as int)),
            {
                assert(segs@.subrange(0, i + 1).drop_last() =~= segs@.subrange(0, i as int));
                let seg = &segs[i];
                if is_literal(&seg.kind, "text") {
                    if let Some(t) = &seg.text {
                        out.append(t.as_str());
                    } else {
                        assert(out@ + Seq::<char>::empty() =~= out@);
                    }
                } else {
                    assert(out@ + Seq::<char>::empty() =~= out@);
                }
            }
            assert(segs@.subrange(0, segs@.len() as int) =~= segs@);
            out
        },
        MessageBody::Text(s) => string_from(s.as_str()),
        MessageBody::Other => String::new(),
    }
}


/// A missing id counts as zero.
pub open spec fn id_or_zero(o: Option<i64>) -> i64 {
    match o {
        Some(v) => v,
        None => 0,
    }
}

/// What an event asks for.
pub enum Command {
    /// Not a group message.
    Ignore,
    Enable,
    Disable,
    Help,
    Mode,
    /// Any other group message: a possible room code.
    Message,
}

/// The command an event carries, by its trimmed text against the trimmed
/// command strings (the mode command as a prefix, when it is not empty).
pub open spec fn classify(cfg: AppConfig, ev: Event) -> Command {
    if !(ev.post_type matches Some(p) && p@ == "message"@) || !(ev.message_type matches Some(m)
        && m@ == "group"@) {
        Command::Ignore
    } else {
        let t = trim(message_text(ev.message));
        if t == trim(cfg.commands.guche_enable@) {
            Command::Enable
        } else if t == trim(cfg.commands.guche_disable@) {
            Command::Disable
        } else if t == trim(cfg.commands.guche_help@) {
            Command::Help
        } else if trim(cfg.commands.guche_mode@).len() > 0 && starts_with(
            t,
            trim(cfg.commands.guche_mode@),
        ) {
            Command::Mode
        } else {
            Command::Message
        }
    }
}

/// How the enabled groups change.
pub enum GroupChange {
    Keep,
    /// The group's entry is set to one with this view.
    Put(EntryView),
    Remove,
}

/// The decision on one event.
pub struct Decision {
    pub actions: Seq<ActionView>,
    pub change: GroupChange,
    /// The configuration must be saved.
    pub save: bool,
    /// The management page must be told the configuration changed.
    pub notify: bool,
    /// The group's cooldown restarts now.
    pub stamp: bool,
    /// The group is still cooling down.
    pub cooling: bool,
}

pub open spec fn say(actions: Seq<ActionView>) -> Decision {
    Decision {
        actions,
        change: GroupChange::Keep,
        save: false,
        notify: false,
        stamp: false,
        cooling: false,
    }
}

pub open spec fn reply(gid: i64, mid: i64, text: Seq<char>) -> Seq<ActionView> {
    seq![ActionView::SendGroupMsg(gid, mid, text)]
}

/// A change of the groups that is saved and announced.
pub open spec fn changed(actions: Seq<ActionView>, change: GroupChange) -> Decision {
    Decision { actions, change, save: true, notify: true, stamp: false, cooling: false }
}

/// The setting a word of the mode command names: `(true, v)` placement
/// (`v`: code last), `(false, v)` matching (`v`: fuzzy).
pub open spec fn word_setting(w: Seq<char>) -> Option<(bool, bool)> {
    if w == "前缀"@ {
        Some((true, false))
    } else if w == "后缀"@ {
        Some((true, true))
    } else if w == "严格"@ {
        Some((false, false))
    } else if w == "宽松"@ {
        Some((false, true))
    } else {
        None
    }
}

/// The arguments of the mode command: the first unknown word, or the
/// placement and matching they set (the last word of each kind wins).
pub enum ModeArgs {
    Unknown(Seq<char>),
    Settings(Option<bool>, Option<bool>),
}

pub open spec fn parse_mode_args(ws: Seq<Seq<char>>) -> ModeArgs
    decreases ws.len(),
{
    if ws.len() == 0 {
        ModeArgs::Settings(None, None)
    } else {
        match parse_mode_args(ws.drop_last()) {
            ModeArgs::Unknown(w) => ModeArgs::Unknown(w),
            ModeArgs::Settings(p, m) => match word_setting(ws.last()) {
                Some((true, v)) => ModeArgs::Settings(Some(v), m),
                Some((false, v)) => ModeArgs::Settings(p, Some(v)),
                None => ModeArgs::Unknown(ws.last()),
            },
        }
    }
}

pub open spec fn pos_label(end: bool) -> Seq<char> {
    if end {
        "后缀"@
    } else {
        "前缀"@
    }
}

pub open spec fn mode_label(fuzzy: bool) -> Seq<char> {
    if fuzzy {
        "宽松"@
    } else {
        "严格"@
    }
}

/// The labels of the settings that actually change, placement first.
pub open spec fn mode_labels(e: EntryView, pos: Option<bool>, mode: Option<bool>) -> Seq<Seq<char>> {
    (match pos {
        Some(p) => if e.0 != Some(p) {
            seq![pos_label(p)]
        } else {
            Seq::empty()
        },
        None => Seq::empty(),
    }) + (match mode {
        Some(m) => if e.1 != Some(m) {
            seq![mode_label(m)]
        } else {
            Seq::empty()
        },
        None => Seq::empty(),
    })
}

/// The entry after the mode command sets the given settings.
pub open spec fn mode_entry(e: EntryView, pos: Option<bool>, mode: Option<bool>) -> EntryView {
    (
        match pos {
            Some(p) => Some(p),
            None => e.0,
        },
        match mode {
            Some(m) => Some(m),
            None => e.1,
        },
        e.2,
    )
}

/// The labels joined by ` + `.
pub open spec fn join_labels(ls: Seq<Seq<char>>) -> Seq<char>
    decreases ls.len(),
{
    if ls.len() == 0 {
        Seq::empty()
    } else if ls.len() == 1 {
        ls[0]
    } else {
        join_labels(ls.drop_last()) + " + "@ + ls.last()
    }
}

/// The answer to the mode command without arguments: the usage, written
/// with the command as the user configured it, and the current settings.
pub open spec fn mode_usage(p: Seq<char>, pos_end: bool, fuzzy: bool) -> Seq<char> {
    "固车模式设置\n━━━━━━━━━━━━━━━━\n\n"@ + p + " 前缀    - 车牌放在群名前面\n"@ + p
        + " 后缀    - 车牌放在群名后面\n"@ + p + " 严格    - 只识别纯5位数字\n"@ + p
        + " 宽松    - 消息开头提取5位数字\n"@ + p + " 前缀 严格  - 同时设置两个\n\n当前模式："@
        + pos_label(pos_end) + " + "@ + mode_label(fuzzy)
}

/// The decision on the mode command `t` (trimmed), whose command is `prefix`.
pub open spec fn mode_decision(cfg: AppConfig, t: Seq<char>, prefix: Seq<char>, gid: i64, uid: i64, mid: i64) -> Decision {
    if !may_manage(uid, cfg.admin_users@) {
        say(reply(gid, mid, "权限不足"@))
    } else if !cfg.guche.groups@.contains_key(gid) {
        say(Seq::empty())
    } else {
        let args = trim(t.subrange(prefix.len() as int, t.len() as int));
        if args.len() == 0 {
            say(
                reply(
                    gid,
                    mid,
                    mode_usage(
                        prefix,
                        group_pos_end(cfg.guche, gid),
                        group_fuzzy(cfg.guche, gid)->0,
                    ),
                ),
            )
        } else {
            match parse_mode_args(words(args)) {
                ModeArgs::Unknown(w) => say(reply(gid, mid, "未知参数: "@ + w)),
                ModeArgs::Settings(p, m) => {
                    let e = cfg.guche.groups@[gid]@;
                    let labels = mode_labels(e, p, m);
                    if labels.len() == 0 {
                        say(reply(gid, mid, "设置未变化"@))
                    } else {
                        changed(
                            reply(gid, mid, "已切换为: "@ + join_labels(labels)),
                            GroupChange::Put(mode_entry(e, p, m)),
                        )
                    }
                },
            }
        }
    }
}

/// The decision on the enable command.
pub open spec fn enable_decision(cfg: AppConfig, gid: i64, uid: i64, mid: i64) -> Decision {
    if !may_manage(uid, cfg.admin_users@) {
        say(reply(gid, mid, "权限不足"@))
    } else if cfg.guche.groups@.contains_key(gid) {
        say(reply(gid, mid, "本群已启用固车助手功能"@))
    } else {
        changed(
            reply(gid, mid, "已启动本群的自动拾取车牌功能，将自动使用车牌为群聊更名"@),
            GroupChange::Put((None, None, None)),
        )
    }
}

/// The decision on the disable command (silent when the group is not enabled).
pub open spec fn disable_decision(cfg: AppConfig, gid: i64, uid: i64, mid: i64) -> Decision {
    if !may_manage(uid, cfg.admin_users@) {
        say(reply(gid, mid, "权限不足"@))
    } else if !cfg.guche.groups@.contains_key(gid) {
        say(Seq::empty())
    } else {
        changed(reply(gid, mid, "固车拾取功能已关闭，下一次冲榜见~"@), GroupChange::Remove)
    }
}

/// The decision on any other message `t` (trimmed): in an enabled group that
/// is not cooling down, a room code starts a rename.
pub open spec fn message_decision(cfg: AppConfig, cd: Map<i64, i64>, t: Seq<char>, gid: i64, now: int) -> Decision {
    match group_fuzzy(cfg.guche, gid) {
        None => say(Seq::empty()),
        Some(fuzzy) => if !is_ready(cd, gid, now, cfg.guche.cooldown_millis as int) {
            Decision {
                actions: Seq::empty(),
                change: GroupChange::Keep,
                save: false,
                notify: false,
                stamp: false,
                cooling: true,
            }
        } else {
            match message_code(t, fuzzy) {
                None => say(Seq::empty()),
                Some(code) => Decision {
                    actions: seq![ActionView::GetGroupInfo(gid, code)],
                    change: GroupChange::Keep,
                    save: false,
                    notify: false,
                    stamp: true,
                    cooling: false,
                },
            }
        },
    }
}

/// The decision on an event, given the configuration, the cooldown state
/// and the time.
pub open spec fn decide(cfg: AppConfig, cd: Map<i64, i64>, ev: Event, now: int) -> Decision {
    let gid = id_or_zero(ev.group_id);
    let uid = id_or_zero(ev.user_id);
    let mid = id_or_zero(ev.message_id);
    let t = trim(message_text(ev.message));
    match classify(cfg, ev) {
        Command::Ignore => say(Seq::empty()),
        Command::Enable => enable_decision(cfg, gid, uid, mid),
        Command::Disable => disable_decision(cfg, gid, uid, mid),
        Command::Help => say(reply(gid, mid, help_text())),
        Command::Mode => mode_decision(cfg, t, trim(cfg.commands.guche_mode@), gid, uid, mid),
        Command::Message => message_decision(cfg, cd, t, gid, now),
    }
}

/// The groups after a change to group `gid`.
pub open spec fn groups_after(
    new: Map<i64, GroupEntry>,
    old: Map<i64, GroupEntry>,
    change: GroupChange,
    gid: i64,
) -> bool {
    match change {
        GroupChange::Keep => new == old,
        GroupChange::Put(v) => new == old.insert(gid, new[gid]) && new[gid]@ == v,
        GroupChange::Remove => new == old.remove(gid),
    }
}

/// Everything but the enabled groups stays as it was.
pub open spec fn only_groups_change(new: AppConfig, old: AppConfig) -> bool {
    &&& new.onebot == old.onebot
    &&& new.admin_users == old.admin_users
    &&& new.commands == old.commands
    &&& new.guche.fuzzy == old.guche.fuzzy
    &&& new.guche.pos_end == old.guche.pos_end
    &&& new.guche.cooldown_millis == old.guche.cooldown_millis
    &&& new.stats == old.stats
    &&& new.webui == old.webui
    &&& new.buffers == old.buffers
}

/// What handling an event produced.
#[derive(Debug)]
pub struct Outcome {
    pub actions: Vec<Action>,
    /// The configuration changed and must be saved.
    pub save_config: bool,
    /// The management page must be told the configuration changed.
    pub notify: bool,
    /// The message came while its group was cooling down.
    pub cooling_down: bool,
}

/// The bot's own state between events: the per-group cooldown.
pub struct GucheEngine {
    pub cooldown: Cooldown,
}

fn reply_actions(gid: i64, mid: i64, text: String) -> (r: Vec<Action>)
    ensures
        actions_view(r@) == reply(gid, mid, text@),
{
    let mut v = Vec::new();
    v.push(Action::SendGroupMsg { group_id: gid, reply_id: mid, text });
    assert(actions_view(v@) =~= reply(gid, mid, text@));
    v
}

fn outcome_of(actions: Vec<Action>, save: bool, cooling: bool) -> (r: Outcome)
    ensures
        r.actions == actions,
        r.save_config == save,
        r.notify == save,
        r.cooling_down == cooling,
{
    Outcome { actions, save_config: save, notify: save, cooling_down: cooling }
}

fn say_text(gid: i64, mid: i64, text: &str) -> (r: Outcome)
    ensures
        actions_view(r.actions@) == reply(gid, mid, text@),
        !r.save_config,
        !r.notify,
        !r.cooling_down,
{
    outcome_of(reply_actions(gid, mid, string_from(text)), false, false)
}

fn quiet() -> (r: Outcome)
    ensures
        actions_view(r.actions@) == Seq::<ActionView>::empty(),
        !r.save_config,
        !r.notify,
        !r.cooling_down,
{
    let v: Vec<Action> = Vec::new();
    assert(actions_view(v@) =~= Seq::<ActionView>::empty());
    outcome_of(v, false, false)
}

/// The outcome matches the decision's actions and flags.
pub open spec fn follows(r: Outcome, d: Decision) -> bool {
    &&& actions_view(r.actions@) == d.actions
    &&& r.save_config == d.save
    &&& r.notify == d.notify
    &&& r.cooling_down == d.cooling
}


fn word_setting_of(w: &[char]) -> (r: Option<(bool, bool)>)
    ensures
        r == word_setting(w@),
{
    if chars_eq(w, &chars_of("前缀")) {
        Some((true, false))
    } else if chars_eq(w, &chars_of("后缀")) {
        Some((true, true))
    } else if chars_eq(w, &chars_of("严格")) {
        Some((false, false))
    } else if chars_eq(w, &chars_of("宽松")) {
        Some((false, true))
    } else {
        None
    }
}

proof fn lemma_unknown_sticks(ws: Seq<Seq<char>>, k: int, w: Seq<char>)
    requires
        0 <= k <= ws.len(),
        parse_mode_args(ws.subrange(0, k)) == ModeArgs::Unknown(w),
    ensures
        parse_mode_args(ws) == ModeArgs::Unknown(w),
    decreases ws.len() - k,
{
    if k == ws.len() {
        assert(ws.subrange(0, k) =~= ws);
    } else {
        let ws2 = ws.subrange(0, k + 1);
        assert(ws2.drop_last() =~= ws.subrange(0, k));
        assert(parse_mode_args(ws2) == ModeArgs::Unknown(w));
        lemma_unknown_sticks(ws, k + 1, w);
    }
}

fn append_chars_to(dst: &mut String, v: &[char])
    ensures
        final(dst)@ == old(dst)@ + v@,
{
    let s = string_of(v);
    dst.append(s.as_str());
}

fn mode_usage_text(p: &[char], pos_end: bool, fuzzy: bool) -> (r: String)
    ensures
        r@ == mode_usage(p@, pos_end, fuzzy),
{
    let mut s = string_from("固车模式设置\n━━━━━━━━━━━━━━━━\n\n");
    append_chars_to(&mut s, p);
    s.append(" 前缀    - 车牌放在群名前面\n");
    append_chars_to(&mut s, p);
    s.append(" 后缀    - 车牌放在群名后面\n");
    append_chars_to(&mut s, p);
    s.append(" 严格    - 只识别纯5位数字\n");
    append_chars_to(&mut s, p);
    s.append(" 宽松    - 消息开头提取5位数字\n");
    append_chars_to(&mut s, p);
    s.append(" 前缀 严格  - 同时设置两个\n\n当前模式：");
    if !pos_end {
        s.append("前缀");
    } else {
        s.append("后缀");
    }
    s.append(" + ");
    if !fuzzy {
        s.append("严格");
    } else {
        s.append("宽松");
    }
    s
}

fn pos_label_text(end: bool) -> (r: &'static str)
    ensures
        r@ == pos_label(end),
{
    if end {
        "后缀"
    } else {
        "前缀"
    }
}

fn mode_label_text(fuzzy: bool) -> (r: &'static str)
    ensures
        r@ == mode_label(fuzzy),
{
    if fuzzy {
        "宽松"
    } else {
        "严格"
    }
}

fn chars_starting(t: &[char], prefix_len: usize) -> (r: Vec<char>)
    requires
        prefix_len <= t@.len(),
    ensures
        r@ == t@.subrange(prefix_len as int, t@.len() as int),
{
    copy_range(t, prefix_len, t.len())
}

impl GucheEngine {
    /// No group is cooling down.
    pub fn new() -> (r: Self)
        ensures
            r.cooldown@ == Map::<i64, i64>::empty(),
    {
        GucheEngine { cooldown: Cooldown::new() }
    }

    fn enable(config: &mut AppConfig, gid: i64, uid: i64, mid: i64) -> (r: Outcome)
        ensures
            follows(r, enable_decision(*old(config), gid, uid, mid)),
            groups_after(
                final(config).guche.groups@,
                old(config).guche.groups@,
                enable_decision(*old(config), gid, uid, mid).change,
                gid,
            ),
            only_groups_change(*final(config), *old(config)),
    {
        if !is_superuser(uid, config.admin_users.as_slice()) {
            return say_text(gid, mid, "权限不足");
        }
        if !config.guche.enable_group(gid) {
            return say_text(gid, mid, "本群已启用固车助手功能");
        }
        let r = outcome_of(reply_actions(gid, mid, string_from("已启动本群的自动拾取车牌功能，将自动使用车牌为群聊更名")), true, false);
        r
    }

    fn disable(config: &mut AppConfig, gid: i64, uid: i64, mid: i64) -> (r: Outcome)
        ensures
            follows(r, disable_decision(*old(config), gid, uid, mid)),
            groups_after(
                final(config).guche.groups@,
                old(config).guche.groups@,
                disable_decision(*old(config), gid, uid, mid).change,
                gid,
            ),
            only_groups_change(*final(config), *old(config)),
    {
        if !is_superuser(uid, config.admin_users.as_slice()) {
            return say_text(gid, mid, "权限不足");
        }
        if !config.guche.disable_group(gid) {
            assert(old(config).guche.groups@.remove(gid) =~= old(config).guche.groups@);
            return quiet();
        }
        outcome_of(reply_actions(gid, mid, string_from("固车拾取功能已关闭，下一次冲榜见~")), true, false)
    }

    fn mode_cmd(config: &mut AppConfig, t: &[char], prefix: &[char], gid: i64, uid: i64, mid: i64) -> (r: Outcome)
        requires
            starts_with(t@, prefix@),
        ensures
            follows(r, mode_decision(*old(config), t@, prefix@, gid, uid, mid)),
            groups_after(
                final(config).guche.groups@,
                old(config).guche.groups@,
                mode_decision(*old(config), t@, prefix@, gid, uid, mid).change,
                gid,
            ),
            only_groups_change(*final(config), *old(config)),
    {
        if !is_superuser(uid, config.admin_users.as_slice()) {
            return say_text(gid, mid, "权限不足");
        }
        let e = match config.guche.entry_of(gid) {
            Some(e) => e,
            None => return quiet(),
        };
        let rest = chars_starting(t, prefix.len());
        let args = trim_chars(&rest);
        if args.len() == 0 {
            let pos_end = config.guche.pos_end_for(gid);
            let fuzzy = match config.guche.fuzzy_for(gid) {
                Some(f) => f,
                None => config.guche.fuzzy,
            };
            let text = mode_usage_text(prefix, pos_end, fuzzy);
            return outcome_of(reply_actions(gid, mid, text), false, false);
        }
        let ws = split_words(&args);
        let ghost wsv = seqs_view(ws@);
        let mut pos: Option<bool> = None;
        let mut mode: Option<bool> = None;
        let mut i: usize = 0;
        assert(wsv.subrange(0, 0) =~= Seq::<Seq<char>>::empty());
        while i < ws.len()
            invariant
                *config == *old(config),
                old(config).guche.groups@.contains_key(gid),
                may_manage(uid, old(config).admin_users@),
                args@ == trim(t@.subrange(prefix@.len() as int, t@.len() as int)),
                args@.len() > 0,
                prefix@.len() <= t@.len(),
                wsv == seqs_view(ws@),
                wsv == words(args@),
                i <= ws@.len(),
                parse_mode_args(wsv.subrange(0, i as int)) == ModeArgs::Settings(pos, mode),
            decreases ws@.len() - i,
        {
            let ghost pre = wsv.subrange(0, i as int);
            assert(wsv.subrange(0, i + 1).drop_last() =~= pre);
            assert(wsv.subrange(0, i + 1).last() == ws@[i as int]@);
            match word_setting_of(&ws[i]) {
                Some((true, v)) => {
                    pos = Some(v);
                },
                Some((false, v)) => {
                    mode = Some(v);
                },
                None => {
                    proof {
                        lemma_unknown_sticks(wsv, i + 1, ws@[i as int]@);
                    }
                    let mut text = string_from("未知参数: ");
                    append_chars_to(&mut text, &ws[i]);
                    return outcome_of(reply_actions(gid, mid, text), false, false);
                },
            }
            i = i + 1;
        }
        assert(wsv.subrange(0, wsv.len() as int) =~= wsv);
        let ghost ev = e@;
        let mut text = string_from("已切换为: ");
        let mut has_label = false;
        let ghost labels: Seq<Seq<char>> = Seq::empty();
        if let Some(p) = pos {
            if e.pos != Some(p) {
                text.append(pos_label_text(p));
                has_label = true;
                proof {
                    labels = seq![pos_label(p)];
                }
            }
        }
        if let Some(m) = mode {
            if e.mode != Some(m) {
                if has_label {
                    text.append(" + ");
                }
                text.append(mode_label_text(m));
                proof {
                    labels = labels.push(mode_label(m));
                }
            }
        }
        proof {
            assert(labels =~= mode_labels(ev, pos, mode));
            reveal_with_fuel(join_labels, 3);
            if labels.len() == 2 {
                assert(labels.drop_last() =~= seq![labels[0]]);
            }
            assert(text@ =~= "已切换为: "@ + join_labels(labels));
        }
        let new_entry = GroupEntry {
            pos: match pos {
                Some(p) => Some(p),
                None => e.pos,
            },
            mode: match mode {
                Some(m) => Some(m),
                None => e.mode,
            },
            name: copy_opt_string(&e.name),
        };
        assert(new_entry@ == mode_entry(ev, pos, mode));
        if !config.guche.edit_group(gid, new_entry) {
            return say_text(gid, mid, "设置未变化");
        }
        outcome_of(reply_actions(gid, mid, text), true, false)
    }

    fn on_message(&mut self, config: &AppConfig, t: &[char], gid: i64, now_ms: i64) -> (r: Outcome)
        ensures
            follows(r, message_decision(*config, old(self).cooldown@, t@, gid, now_ms as int)),
            final(self).cooldown@ == if message_decision(
                *config,
                old(self).cooldown@,
                t@,
                gid,
                now_ms as int,
            ).stamp {
                old(self).cooldown@.insert(gid, now_ms)
            } else {
                old(self).cooldown@
            },
    {
        let fuzzy = match config.guche.fuzzy_for(gid) {
            Some(f) => f,
            None => return quiet(),
        };
        if !self.cooldown.check(gid, now_ms, config.guche.cooldown_millis) {
            let v: Vec<Action> = Vec::new();
            assert(actions_view(v@) =~= Seq::<ActionView>::empty());
            return outcome_of(v, false, true);
        }
        let text = string_of(t);
        let code = match match_message(text.as_str(), fuzzy) {
            Some(c) => c,
            None => return quiet(),
        };
        self.cooldown.update(gid, now_ms);
        let mut v: Vec<Action> = Vec::new();
        let ghost cv = code@;
        v.push(Action::GetGroupInfo { group_id: gid, code });
        assert(actions_view(v@) =~= seq![ActionView::GetGroupInfo(gid, cv)]);
        outcome_of(v, false, false)
    }

    /// Decides what to do with an event at time `now_ms`: answer a command
    /// (changing the enabled groups when it says so) or, for a room code in
    /// an enabled group that is not cooling down, ask for the group's name.
    pub fn handle_event(&mut self, config: &mut AppConfig, event: &Event, now_ms: i64) -> (r: Outcome)
        ensures
            follows(r, decide(*old(config), old(self).cooldown@, *event, now_ms as int)),
            groups_after(
                final(config).guche.groups@,
                old(config).guche.groups@,
                decide(*old(config), old(self).cooldown@, *event, now_ms as int).change,
                id_or_zero(event.group_id),
            ),
            only_groups_change(*final(config), *old(config)),
            final(self).cooldown@ == if decide(
                *old(config),
                old(self).cooldown@,
                *event,
                now_ms as int,
            ).stamp {
                old(self).cooldown@.insert(id_or_zero(event.group_id), now_ms)
            } else {
                old(self).cooldown@
            },
    {
        let is_msg = match &event.post_type {
            Some(p) => {
                let a = chars_of(p.as_str());
                chars_eq(&a, &chars_of("message"))
            },
            None => false,
        };
        let is_group = match &event.message_type {
            Some(m) => {
                let a = chars_of(m.as_str());
                chars_eq(&a, &chars_of("group"))
            },
            None => false,
        };
        if !is_msg || !is_group {
            return quiet();
        }
        let gid = match event.group_id {
            Some(v) => v,
            None => 0,
        };
        let uid = match event.user_id {
            Some(v) => v,
            None => 0,
        };
        let mid = match event.message_id {
            Some(v) => v,
            None => 0,
        };
        let text = extract_text(event);
        let t = trim_chars(&chars_of(text.as_str()));
        let en = trim_chars(&chars_of(config.commands.guche_enable.as_str()));
        let dis = trim_chars(&chars_of(config.commands.guche_disable.as_str()));
        let help = trim_chars(&chars_of(config.commands.guche_help.as_str()));
        let mode = trim_chars(&chars_of(config.commands.guche_mode.as_str()));
        if chars_eq(&t, &en) {
            return Self::enable(config, gid, uid, mid);
        }
        if chars_eq(&t, &dis) {
            return Self::disable(config, gid, uid, mid);
        }
        if chars_eq(&t, &help) {
            return outcome_of(reply_actions(gid, mid, generate()), false, false);
        }
        if mode.len() > 0 && starts_with_chars(&t, &mode) {
            return Self::mode_cmd(config, &t, &mode, gid, uid, mid);
        }
        self.on_message(config, &t, gid, now_ms)
    }
}


/// The reply after a rename.
pub open spec fn rename_reply(old: Seq<char>, new: Seq<char>, cut: bool) -> Seq<char> {
    "已将群聊名称从'"@ + old + "'改为'"@ + new + if cut {
        "'（群名过长已截断）"@
    } else {
        "'"@
    }
}

/// A `YYYY-MM-DD HH:MM:SS` text of some valid date and time of day.
pub open spec fn is_datetime_text(t: Seq<char>) -> bool {
    exists|y: nat, m: nat, d: nat, s: nat|
        1 <= m <= 12 && 1 <= d <= 31 && s < 86400 && t == date_text(y, m, d) + seq![' '] + hms_text(s)
}

/// What a rename produced.
#[derive(Debug)]
pub struct RenameOutcome {
    /// Set the name, then reply.
    pub actions: Vec<Action>,
    /// The group's stored name changed and the configuration must be saved.
    pub save_config: bool,
    /// The record to add to the group's statistics...
    pub record: RenameRecord,
    /// ...keeping at most this many records.
    pub max_records: usize,
    /// The old part of the name had to be cut.
    pub truncated: bool,
}

impl GucheEngine {
    /// Renames group `gid`, whose name is `old`, with `code` (fetched after
    /// `handle_event` asked for it): the new name, the reply, the stored
    /// name and the record of the rename, stamped with the local time.
    pub fn handle_rename(&self, config: &mut AppConfig, gid: i64, old_name: &str, code: &str, uid: i64, mid: i64) -> (r: RenameOutcome)
        ensures
            ({
                let named = renamed(old_name@, code@, group_pos_end(old(config).guche, gid));
                &&& actions_view(r.actions@) == seq![
                    ActionView::SetGroupName(gid, named.0),
                    ActionView::SendGroupMsg(gid, mid, rename_reply(old_name@, named.0, named.1)),
                ]
                &&& r.truncated == named.1
                &&& r.save_config == (old(config).guche.groups@.contains_key(gid)
                    && old(config).guche.groups@[gid]@.2 != Some(named.0))
                &&& r.save_config ==> final(config).guche.groups@ == old(config).guche.groups@.insert(
                    gid,
                    final(config).guche.groups@[gid],
                ) && final(config).guche.groups@[gid]@ == (
                    old(config).guche.groups@[gid]@.0,
                    old(config).guche.groups@[gid]@.1,
                    Some(named.0),
                )
                &&& !r.save_config ==> final(config).guche.groups@ == old(config).guche.groups@
                &&& r.record.new_name@ == named.0
            }),
            only_groups_change(*final(config), *old(config)),
            r.max_records == old(config).stats.max_records_per_group,
            r.record.old_name@ == old_name@,
            r.record.user_id == uid,
            r.record.code@ == code@,
            is_datetime_text(r.record.time@),
    {
        let pos_end = config.guche.pos_end_for(gid);
        let max = config.stats.max_records_per_group;
        let (new_name, truncated) = compute_new_name(old_name, code, pos_end);
        let save = config.guche.record_group_name(gid, new_name.as_str());
        let time = now_datetime();
        let record = RenameRecord {
            old_name: string_from(old_name),
            new_name: string_from(new_name.as_str()),
            user_id: uid,
            time,
            code: string_from(code),
        };
        let mut reply_text = string_from("已将群聊名称从'");
        reply_text.append(old_name);
        reply_text.append("'改为'");
        reply_text.append(new_name.as_str());
        if truncated {
            reply_text.append("'（群名过长已截断）");
        } else {
            reply_text.append("'");
        }
        let ghost nv = new_name@;
        let ghost rv = reply_text@;
        let mut actions: Vec<Action> = Vec::new();
        actions.push(Action::SetGroupName { group_id: gid, new_name });
        actions.push(Action::SendGroupMsg { group_id: gid, reply_id: mid, text: reply_text });
        assert(actions_view(actions@) =~= seq![
            ActionView::SetGroupName(gid, nv),
            ActionView::SendGroupMsg(gid, mid, rv),
        ]);
        RenameOutcome { actions, save_config: save, record, max_records: max, truncated }
    }
}


/// The actions ask for a rename.
pub open spec fn asks_rename(actions: Seq<ActionView>) -> bool {
    exists|i: int| 0 <= i < actions.len() && actions[i] is GetGroupInfo
}

/// Only a user who may manage changes the enabled groups: whatever event
/// another user sends, the groups stay as they are.
pub proof fn lemma_only_managers_change_groups(cfg: AppConfig, cd: Map<i64, i64>, ev: Event, now: int)
    requires
        !may_manage(id_or_zero(ev.user_id), cfg.admin_users@),
    ensures
        decide(cfg, cd, ev, now).change is Keep,
        !decide(cfg, cd, ev, now).save,
{
}

/// A rename is asked for only for a room code sent in an enabled group
/// whose cooldown has passed, and the cooldown then restarts.
pub proof fn lemma_rename_needs_enabled_ready_group(cfg: AppConfig, cd: Map<i64, i64>, ev: Event, now: int)
    requires
        asks_rename(decide(cfg, cd, ev, now).actions),
    ensures
        classify(cfg, ev) is Message,
        cfg.guche.groups@.contains_key(id_or_zero(ev.group_id)),
        is_ready(cd, id_or_zero(ev.group_id), now, cfg.guche.cooldown_millis as int),
        decide(cfg, cd, ev, now).stamp,
{
    let d = decide(cfg, cd, ev, now);
    let i = choose|i: int| 0 <= i < d.actions.len() && d.actions[i] is GetGroupInfo;
    match classify(cfg, ev) {
        Command::Ignore => {},
        Command::Enable => {},
        Command::Disable => {},
        Command::Help => {},
        Command::Mode => {},
        Command::Message => {},
    }
}

/// After a rename is asked for in a group, no other rename is asked for in
/// that group until the cooldown has passed.
pub proof fn lemma_cooldown_blocks_second_rename(
    cfg: AppConfig,
    cd: Map<i64, i64>,
    first: Event,
    second: Event,
    now1: i64,
    now2: int,
)
    requires
        decide(cfg, cd, first, now1 as int).stamp,
        id_or_zero(second.group_id) == id_or_zero(first.group_id),
        now2 - now1 < cfg.guche.cooldown_millis,
    ensures
        !asks_rename(decide(cfg, cd.insert(id_or_zero(first.group_id), now1), second, now2).actions),
{
    let gid = id_or_zero(first.group_id);
    assert(!is_ready(cd.insert(gid, now1), gid, now2, cfg.guche.cooldown_millis as int));
    let d = decide(cfg, cd.insert(gid, now1), second, now2);
    if asks_rename(d.actions) {
        lemma_rename_needs_enabled_ready_group(cfg, cd.insert(gid, now1), second, now2);
    }
}

/// The decision is one reply to the group, whose text ends with `text`.
pub open spec fn replies_ending_with(d: Decision, gid: i64, text: Seq<char>) -> bool {
    &&& d.actions.len() == 1
    &&& d.actions[0] matches ActionView::SendGroupMsg(g, _m, body) && g == gid && text.is_suffix_of(body)
}

/// The mode command without arguments, from a user who may manage, in an
/// enabled group, ends its reply with the group's own placement and
/// matching mode where it has them and the global ones otherwise
/// (`前缀`/`后缀` + `严格`/`宽松`); it changes nothing.
pub proof fn lemma_bare_mode_shows_group_settings(
    cfg: AppConfig,
    t: Seq<char>,
    prefix: Seq<char>,
    gid: i64,
    uid: i64,
    mid: i64,
)
    requires
        may_manage(uid, cfg.admin_users@),
        cfg.guche.groups@.contains_key(gid),
        prefix.len() <= t.len(),
        trim(t.subrange(prefix.len() as int, t.len() as int)).len() == 0,
    ensures
        ({
            let e = cfg.guche.groups@[gid];
            let p = match e.pos {
                Some(p) => p,
                None => cfg.guche.pos_end,
            };
            let m = match e.mode {
                Some(m) => m,
                None => cfg.guche.fuzzy,
            };
            replies_ending_with(
                mode_decision(cfg, t, prefix, gid, uid, mid),
                gid,
                pos_label(p) + " + "@ + mode_label(m),
            )
        }),
        mode_decision(cfg, t, prefix, gid, uid, mid).change is Keep,
        !mode_decision(cfg, t, prefix, gid, uid, mid).save,
{
    let e = cfg.guche.groups@[gid];
    let p = match e.pos {
        Some(p) => p,
        None => cfg.guche.pos_end,
    };
    let m = match e.mode {
        Some(m) => m,
        None => cfg.guche.fuzzy,
    };
    crate::config::lemma_placement_falls_back_to_global(cfg.guche, gid);
    crate::config::lemma_mode_falls_back_to_global(cfg.guche, gid);
    let body = mode_usage(prefix, p, m);
    let tail = pos_label(p) + " + "@ + mode_label(m);
    let head = "固车模式设置\n━━━━━━━━━━━━━━━━\n\n"@ + prefix + " 前缀    - 车牌放在群名前面\n"@ + prefix
        + " 后缀    - 车牌放在群名后面\n"@ + prefix + " 严格    - 只识别纯5位数字\n"@ + prefix
        + " 宽松    - 消息开头提取5位数字\n"@ + prefix + " 前缀 严格  - 同时设置两个\n\n当前模式："@;
    assert(body =~= head + tail);
    assert(body.subrange(body.len() - tail.len(), body.len() as int) =~= tail);
}

/// A placement set by the mode command shows up in the next bare mode
/// command: once a command of `uid` in group `gid` has put an entry whose
/// placement is `p` and matching mode is `m`, the bare command reports
/// exactly `p` and `m`.
pub proof fn lemma_mode_set_then_shown(
    cfg1: AppConfig,
    cfg2: AppConfig,
    t1: Seq<char>,
    t2: Seq<char>,
    prefix: Seq<char>,
    gid: i64,
    uid: i64,
    mid1: i64,
    mid2: i64,
    p: bool,
    m: bool,
)
    requires
        mode_decision(cfg1, t1, prefix, gid, uid, mid1).change matches GroupChange::Put(v) && v.0 == Some(p) && v.1
            == Some(m),
        groups_after(
            cfg2.guche.groups@,
            cfg1.guche.groups@,
            mode_decision(cfg1, t1, prefix, gid, uid, mid1).change,
            gid,
        ),
        only_groups_change(cfg2, cfg1),
        prefix.len() <= t2.len(),
        trim(t2.subrange(prefix.len() as int, t2.len() as int)).len() == 0,
    ensures
        replies_ending_with(
            mode_decision(cfg2, t2, prefix, gid, uid, mid2),
            gid,
            pos_label(p) + " + "@ + mode_label(m),
        ),
{
    let d = mode_decision(cfg1, t1, prefix, gid, uid, mid1);
    assert(may_manage(uid, cfg1.admin_users@));
    assert(cfg2.guche.groups@.contains_key(gid));
    assert(cfg2.guche.groups@[gid].pos == Some(p));
    assert(cfg2.guche.groups@[gid].mode == Some(m));
    lemma_bare_mode_shows_group_settings(cfg2, t2, prefix, gid, uid, mid2);
}

} // verus!
