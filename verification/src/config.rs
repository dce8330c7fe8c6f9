//! The bot's configuration: its parts and defaults, comment stripping for
//! the JSON file, validation, merging an edit from the management page, and
//! the per-group settings.
use std::collections::HashMap;
use vstd::prelude::*;

use crate::text::{chars_of, copy_range, find_from, string_from, string_of};

verus! {

broadcast use vstd::std_specs::hash::group_hash_axioms;

/// Where the OneBot client connects.
#[derive(Debug, Clone)]
pub struct OneBotConfig {
    pub host: String,
    pub port: u16,
    pub token: Option<String>,
}

/// The chat commands.
#[derive(Debug, Clone)]
pub struct CommandsConfig {
    pub guche_enable: String,
    pub guche_disable: String,
    pub guche_help: String,
    pub guche_mode: String,
}

/// One enabled group.  `pos`: `Some(false)` code first, `Some(true)` code
/// last; `mode`: `Some(false)` strict, `Some(true)` fuzzy; `None` follows the
/// global setting.  `name` is the last known group name.
#[derive(Debug, Clone)]
pub struct GroupEntry {
    pub pos: Option<bool>,
    pub mode: Option<bool>,
    pub name: Option<String>,
}

/// Matching and placement settings, the cooldown in milliseconds, and the
/// enabled groups (a key present means the group is enabled).
#[derive(Debug, Clone)]
pub struct GucheConfig {
    pub fuzzy: bool,
    pub pos_end: bool,
    pub cooldown_millis: i64,
    pub groups: HashMap<i64, GroupEntry>,
}

#[derive(Debug, Clone)]
pub struct StatsConfig {
    pub max_records_per_group: usize,
}

#[derive(Debug, Clone)]
pub struct WebUiConfig {
    pub enabled: bool,
    pub port: u16,
}

#[derive(Debug, Clone)]
pub struct BuffersConfig {
    pub log_buffer_size: usize,
    pub message_queue_size: usize,
    pub connection_pool_size: usize,
}

/// The whole configuration.
#[derive(Debug, Clone)]
pub struct AppConfig {
    pub onebot: OneBotConfig,
    pub admin_users: Vec<i64>,
    pub commands: CommandsConfig,
    pub guche: GucheConfig,
    pub stats: StatsConfig,
    pub webui: WebUiConfig,
    pub buffers: BuffersConfig,
}

/// The view of a group entry: its two settings and its name's characters.
pub type EntryView = (Option<bool>, Option<bool>, Option<Seq<char>>);

impl View for GroupEntry {
    type V = EntryView;

    open spec fn view(&self) -> EntryView {
        (
            self.pos,
            self.mode,
            match self.name {
                Some(n) => Some(n@),
                None => None,
            },
        )
    }
}

impl Default for OneBotConfig {
    fn default() -> (r: Self)
        ensures
            r.host@ == "127.0.0.1"@,
            r.port == 8901,
            r.token is None,
    {
        OneBotConfig { host: string_from("127.0.0.1"), port: 8901, token: None }
    }
}

impl Default for CommandsConfig {
    fn default() -> (r: Self)
        ensures
            r.guche_enable@ == "/开启固车拾取"@,
            r.guche_disable@ == "/关闭固车拾取"@,
            r.guche_help@ == "/固车拾取 使用方法"@,
            r.guche_mode@ == "/固车模式"@,
    {
        CommandsConfig {
            guche_enable: string_from("/开启固车拾取"),
            guche_disable: string_from("/关闭固车拾取"),
            guche_help: string_from("/固车拾取 使用方法"),
            guche_mode: string_from("/固车模式"),
        }
    }
}

impl Default for GroupEntry {
    fn default() -> (r: Self)
        ensures
            r.pos is None,
            r.mode is None,
            r.name is None,
    {
        GroupEntry { pos: None, mode: None, name: None }
    }
}

impl Default for GucheConfig {
    fn default() -> (r: Self)
        ensures
            !r.fuzzy,
            !r.pos_end,
            r.cooldown_millis == 5000,
            r.groups@ == Map::<i64, GroupEntry>::empty(),
    {
        GucheConfig { fuzzy: false, pos_end: false, cooldown_millis: 5000, groups: HashMap::new() }
    }
}

impl Default for StatsConfig {
    fn default() -> (r: Self)
        ensures
            r.max_records_per_group == 1024,
    {
        StatsConfig { max_records_per_group: 1024 }
    }
}

impl Default for WebUiConfig {
    fn default() -> (r: Self)
        ensures
            r.enabled,
            r.port == 8080,
    {
        WebUiConfig { enabled: true, port: 8080 }
    }
}

impl Default for BuffersConfig {
    fn default() -> (r: Self)
        ensures
            r.log_buffer_size == 1024,
            r.message_queue_size == 512,
            r.connection_pool_size == 10,
    {
        BuffersConfig { log_buffer_size: 1024, message_queue_size: 512, connection_pool_size: 10 }
    }
}

impl Default for AppConfig {
    fn default() -> (r: Self)
        ensures
            r.onebot.host@ == "127.0.0.1"@,
            r.onebot.port == 8901,
            r.onebot.token is None,
            r.admin_users@.len() == 0,
            r.commands.guche_enable@ == "/开启固车拾取"@,
            r.commands.guche_disable@ == "/关闭固车拾取"@,
            r.commands.guche_help@ == "/固车拾取 使用方法"@,
            r.commands.guche_mode@ == "/固车模式"@,
            !r.guche.fuzzy,
            !r.guche.pos_end,
            r.guche.cooldown_millis == 5000,
            r.guche.groups@ == Map::<i64, GroupEntry>::empty(),
            r.stats.max_records_per_group == 1024,
            r.webui.enabled,
            r.webui.port == 8080,
            r.buffers.log_buffer_size == 1024,
            r.buffers.message_queue_size == 512,
            r.buffers.connection_pool_size == 10,
            config_problem(r) is None,
    {
        AppConfig {
            onebot: OneBotConfig::default(),
            admin_users: Vec::new(),
            commands: CommandsConfig::default(),
            guche: GucheConfig::default(),
            stats: StatsConfig::default(),
            webui: WebUiConfig::default(),
            buffers: BuffersConfig::default(),
        }
    }
}


/// Index of the line feed that ends the line starting at `i` (or the length).
pub open spec fn line_break_from(s: Seq<char>, i: int) -> int
    decreases s.len() - i,
{
    if 0 <= i < s.len() && s[i] != '\n' {
        line_break_from(s, i + 1)
    } else {
        i
    }
}

pub proof fn lemma_line_break_bounds(s: Seq<char>, i: int)
    requires
        0 <= i <= s.len(),
    ensures
        i <= line_break_from(s, i) <= s.len(),
        line_break_from(s, i) < s.len() ==> s[line_break_from(s, i)] == '\n',
        forall|k: int| i <= k < line_break_from(s, i) ==> s[k] != '\n',
    decreases s.len() - i,
{
    if i < s.len() && s[i] != '\n' {
        lemma_line_break_bounds(s, i + 1);
    }
}

/// The line starting at `i`: up to the next line feed, without a carriage
/// return right before that line feed.
pub open spec fn line_at(s: Seq<char>, i: int) -> Seq<char> {
    let j = line_break_from(s, i);
    let l = s.subrange(i, j);
    if j < s.len() && l.len() > 0 && l[l.len() - 1] == '\r' {
        l.subrange(0, l.len() - 1)
    } else {
        l
    }
}

/// The lines from position `i` on, as `str::lines` yields them.
pub open spec fn lines_from(s: Seq<char>, i: int) -> Seq<Seq<char>>
    decreases s.len() + 1 - i,
{
    if i < 0 || i >= s.len() {
        Seq::empty()
    } else {
        proof {
            lemma_line_break_bounds(s, i);
        }
        seq![line_at(s, i)] + lines_from(s, line_break_from(s, i) + 1)
    }
}

/// The lines joined by line feeds.
pub open spec fn join_lines(ls: Seq<Seq<char>>) -> Seq<char>
    decreases ls.len(),
{
    if ls.len() == 0 {
        Seq::empty()
    } else if ls.len() == 1 {
        ls[0]
    } else {
        join_lines(ls.drop_last()) + seq!['\n'] + ls.last()
    }
}

/// Where the comment of a line starts: the first `//` that stands outside
/// every string literal, scanning from `i` with the given string state
/// (`in_str`: inside a string; `esc`: the previous character was a
/// backslash inside a string).  The line's length when there is none.
pub open spec fn comment_start(l: Seq<char>, i: int, in_str: bool, esc: bool) -> int
    decreases l.len() - i,
{
    if i < 0 || i >= l.len() {
        l.len() as int
    } else if in_str {
        if esc {
            comment_start(l, i + 1, true, false)
        } else if l[i] == '\\' {
            comment_start(l, i + 1, true, true)
        } else if l[i] == '"' {
            comment_start(l, i + 1, false, false)
        } else {
            comment_start(l, i + 1, true, false)
        }
    } else if l[i] == '"' {
        comment_start(l, i + 1, true, false)
    } else if l[i] == '/' && i + 1 < l.len() && l[i + 1] == '/' {
        i
    } else {
        comment_start(l, i + 1, false, false)
    }
}

pub proof fn lemma_comment_start_bounds(l: Seq<char>, i: int, in_str: bool, esc: bool)
    requires
        0 <= i <= l.len(),
    ensures
        i <= comment_start(l, i, in_str, esc) <= l.len(),
    decreases l.len() - i,
{
    if i < l.len() {
        lemma_comment_start_bounds(l, i + 1, true, false);
        lemma_comment_start_bounds(l, i + 1, true, true);
        lemma_comment_start_bounds(l, i + 1, false, false);
    }
}

/// A line without its `//` comment: cut at the first `//` outside every
/// string literal (a backslash inside a string escapes the next character).
pub open spec fn strip_line(l: Seq<char>) -> Seq<char> {
    l.subrange(0, comment_start(l, 0, false, false))
}

/// The text with every line's comment stripped, lines joined by line feeds.
pub open spec fn stripped_text(raw: Seq<char>) -> Seq<char> {
    join_lines(lines_from(raw, 0).map_values(|l: Seq<char>| strip_line(l)))
}

fn strip_line_chars(l: &[char]) -> (r: Vec<char>)
    ensures
        r@ == strip_line(l@),
{
    let n = l.len();
    let mut i: usize = 0;
    let mut in_str = false;
    let mut esc = false;
    while i < n
        invariant
            n == l@.len(),
            i <= n,
            comment_start(l@, i as int, in_str, esc) == comment_start(l@, 0, false, false),
        decreases n - i,
    {
        let c = l[i];
        if in_str {
            if esc {
                esc = false;
            } else if c == '\\' {
                esc = true;
            } else if c == '"' {
                in_str = false;
            }
        } else if c == '"' {
            in_str = true;
            esc = false;
        } else if c == '/' && i + 1 < n && l[i + 1] == '/' {
            return copy_range(l, 0, i);
        } else {
            esc = false;
        }
        i = i + 1;
    }
    copy_range(l, 0, n)
}

pub proof fn lemma_find_bound(h: Seq<char>, n: Seq<char>, i: int)
    ensures
        find_from(h, n, i) matches Some(p) ==> i <= p && p + n.len() <= h.len(),
    decreases h.len() + 1 - i,
{
    if i >= 0 && i + n.len() <= h.len() && !crate::text::occurs_at(h, n, i) {
        lemma_find_bound(h, n, i + 1);
    }
}

/// Removes `//` line comments from JSON text: each line is cut at its first
/// `//` that stands outside every string literal.
pub fn strip_json_comments(raw: &str) -> (r: String)
    ensures
        r@ == stripped_text(raw@),
{
    let s = chars_of(raw);
    let n = s.len();
    let mut out: Vec<char> = Vec::new();
    let mut i: usize = 0;
    let ghost mut done: Seq<Seq<char>> = Seq::empty();
    while i < n
        invariant
            s@ == raw@,
            n == s@.len(),
            i <= n,
            done + lines_from(s@, i as int) == lines_from(s@, 0),
            (i == 0) == (done.len() == 0),
            out@ == join_lines(done.map_values(|l: Seq<char>| strip_line(l))),
        decreases n - i,
    {
        let mut j = i;
        while j < n && s[j] != '\n'
            invariant
                i <= j <= n,
                n == s@.len(),
                line_break_from(s@, j as int) == line_break_from(s@, i as int),
            decreases n - j,
        {
            j = j + 1;
        }
        let mut e = j;
        if j < n && j > i && s[j - 1] == '\r' {
            e = j - 1;
        }
        let line = copy_range(&s, i, e);
        proof {
            lemma_line_break_bounds(s@, i as int);
            let l = s@.subrange(i as int, j as int);
            if j < n && j > i && s@[j - 1] == '\r' {
                assert(l.subrange(0, l.len() - 1) =~= s@.subrange(i as int, e as int));
            }
            assert(line@ == line_at(s@, i as int));
        }
        let stripped = strip_line_chars(&line);
        let ghost old_done = done;
        let ghost old_out = out@;
        if i > 0 {
            out.push('\n');
        }
        let mut k: usize = 0;
        let ghost mid = out@;
        while k < stripped.len()
            invariant
                k <= stripped@.len(),
                out@ == mid + stripped@.subrange(0, k as int),
            decreases stripped@.len() - k,
        {
            out.push(stripped[k]);
            k = k + 1;
            assert(out@ =~= mid + stripped@.subrange(0, k as int));
        }
        assert(stripped@.subrange(0, stripped@.len() as int) =~= stripped@);
        proof {
            done = done.push(line@);
            let f = |l: Seq<char>| strip_line(l);
            assert(lines_from(s@, i as int) == seq![line@] + lines_from(s@, j + 1));
            assert(old_done + lines_from(s@, i as int) =~= done + lines_from(s@, j + 1));
            assert(done.map_values(f) =~= old_done.map_values(f).push(stripped@));
            assert(done.map_values(f).drop_last() =~= old_done.map_values(f));
            assert(out@ =~= join_lines(done.map_values(f)));
        }
        if j == n {
            i = n;
            assert(lines_from(s@, j + 1) =~= Seq::<Seq<char>>::empty());
        } else {
            i = j + 1;
        }
    }
    proof {
        assert(done =~= lines_from(s@, 0));
    }
    string_of(&out)
}


/// What is wrong with a configuration, if anything (the first problem found).
pub open spec fn config_problem(c: AppConfig) -> Option<Seq<char>> {
    if c.onebot.port == 0 {
        Some("onebot port cannot be 0"@)
    } else if c.guche.cooldown_millis < 0 {
        Some("cooldown_seconds must be non-negative"@)
    } else if c.webui.port == 0 {
        Some("webui port cannot be 0"@)
    } else {
        None
    }
}

impl AppConfig {
    /// Rejects a zero port for either server and a negative cooldown.
    pub fn validate(&self) -> (r: Result<(), String>)
        ensures
            match r {
                Ok(()) => config_problem(*self) is None,
                Err(e) => config_problem(*self) == Some(e@),
            },
    {
        if self.onebot.port == 0 {
            return Err(string_from("onebot port cannot be 0"));
        }
        if self.guche.cooldown_millis < 0 {
            return Err(string_from("cooldown_seconds must be non-negative"));
        }
        if self.webui.port == 0 {
            return Err(string_from("webui port cannot be 0"));
        }
        Ok(())
    }
}

/// Changes to the OneBot section; `token: Some(None)` clears the token.
#[derive(Debug)]
pub struct OneBotUpdate {
    pub host: Option<String>,
    pub port: Option<u64>,
    pub token: Option<Option<String>>,
}

/// Changes to the matching section; a key given without a boolean
/// (`Some(None)`) leaves the setting as it is.
#[derive(Debug)]
pub struct GucheUpdate {
    pub fuzzy: Option<Option<bool>>,
    pub pos_end: Option<Option<bool>>,
    pub cooldown_millis: Option<i64>,
}

#[derive(Debug)]
pub struct WebUiUpdate {
    pub port: Option<u64>,
}

#[derive(Debug)]
pub struct StatsUpdate {
    pub max_records_per_group: Option<u64>,
}

#[derive(Debug)]
pub struct BuffersUpdate {
    pub log_buffer_size: Option<u64>,
    pub message_queue_size: Option<u64>,
    pub connection_pool_size: Option<u64>,
}

#[derive(Debug)]
pub struct CommandsUpdate {
    pub guche_enable: Option<String>,
    pub guche_disable: Option<String>,
    pub guche_help: Option<String>,
    pub guche_mode: Option<String>,
}

/// An edit of the configuration from the management page: each section
/// that is present changes the values it names.  `admin_users` is the new
/// list, whose entries that are not integers (`None`) are skipped.
#[derive(Debug)]
pub struct ConfigUpdate {
    pub onebot: Option<OneBotUpdate>,
    pub guche: Option<GucheUpdate>,
    pub webui: Option<WebUiUpdate>,
    pub admin_users: Option<Vec<Option<i64>>>,
    pub stats: Option<StatsUpdate>,
    pub buffers: Option<BuffersUpdate>,
    pub commands: Option<CommandsUpdate>,
}

/// The integers of a list, in order, skipping the entries that are not.
pub open spec fn present_ids(s: Seq<Option<i64>>) -> Seq<i64>
    decreases s.len(),
{
    if s.len() == 0 {
        Seq::empty()
    } else {
        match s.last() {
            Some(x) => present_ids(s.drop_last()).push(x),
            None => present_ids(s.drop_last()),
        }
    }
}

/// A string setting after an optional replacement.
pub open spec fn replaced(old: Seq<char>, new: Option<String>) -> Seq<char> {
    match new {
        Some(v) => v@,
        None => old,
    }
}

/// A flag after an edit that may lack a boolean.
pub open spec fn flag_after(old: bool, new: Option<Option<bool>>) -> bool {
    match new {
        Some(Some(v)) => v,
        _ => old,
    }
}

/// A number setting after an optional replacement (`as` keeps the low bits).
pub open spec fn size_after(old: usize, new: Option<u64>) -> usize {
    match new {
        Some(v) => v as usize,
        None => old,
    }
}

pub open spec fn port_after(old: u16, new: Option<u64>) -> u16 {
    match new {
        Some(v) => v as u16,
        None => old,
    }
}

pub open spec fn opt_str_view(o: Option<String>) -> Option<Seq<char>> {
    match o {
        Some(s) => Some(s@),
        None => None,
    }
}

/// `new` is `old` with the edit `u` applied.
pub open spec fn is_update_of(new: AppConfig, old: AppConfig, u: ConfigUpdate) -> bool {
    &&& match u.onebot {
        Some(ob) => {
            &&& new.onebot.host@ == replaced(old.onebot.host@, ob.host)
            &&& new.onebot.port == port_after(old.onebot.port, ob.port)
            &&& opt_str_view(new.onebot.token) == match ob.token {
                Some(t) => opt_str_view(t),
                None => opt_str_view(old.onebot.token),
            }
        },
        None => {
            &&& new.onebot.host@ == old.onebot.host@
            &&& new.onebot.port == old.onebot.port
            &&& opt_str_view(new.onebot.token) == opt_str_view(old.onebot.token)
        },
    }
    &&& match u.guche {
        Some(g) => {
            &&& new.guche.fuzzy == flag_after(old.guche.fuzzy, g.fuzzy)
            &&& new.guche.pos_end == flag_after(old.guche.pos_end, g.pos_end)
            &&& new.guche.cooldown_millis == match g.cooldown_millis {
                Some(c) => c,
                None => old.guche.cooldown_millis,
            }
        },
        None => {
            &&& new.guche.fuzzy == old.guche.fuzzy
            &&& new.guche.pos_end == old.guche.pos_end
            &&& new.guche.cooldown_millis == old.guche.cooldown_millis
        },
    }
    &&& new.guche.groups@ == old.guche.groups@
    &&& new.webui.enabled == old.webui.enabled
    &&& new.webui.port == match u.webui {
        Some(w) => port_after(old.webui.port, w.port),
        None => old.webui.port,
    }
    &&& new.admin_users@ == match u.admin_users {
        Some(ids) => present_ids(ids@),
        None => old.admin_users@,
    }
    &&& new.stats.max_records_per_group == match u.stats {
        Some(st) => size_after(old.stats.max_records_per_group, st.max_records_per_group),
        None => old.stats.max_records_per_group,
    }
    &&& match u.buffers {
        Some(b) => {
            &&& new.buffers.log_buffer_size == size_after(old.buffers.log_buffer_size, b.log_buffer_size)
            &&& new.buffers.message_queue_size == size_after(
                old.buffers.message_queue_size,
                b.message_queue_size,
            )
            &&& new.buffers.connection_pool_size == size_after(
                old.buffers.connection_pool_size,
                b.connection_pool_size,
            )
        },
        None => {
            &&& new.buffers.log_buffer_size == old.buffers.log_buffer_size
            &&& new.buffers.message_queue_size == old.buffers.message_queue_size
            &&& new.buffers.connection_pool_size == old.buffers.connection_pool_size
        },
    }
    &&& match u.commands {
        Some(c) => {
            &&& new.commands.guche_enable@ == replaced(old.commands.guche_enable@, c.guche_enable)
            &&& new.commands.guche_disable@ == replaced(old.commands.guche_disable@, c.guche_disable)
            &&& new.commands.guche_help@ == replaced(old.commands.guche_help@, c.guche_help)
            &&& new.commands.guche_mode@ == replaced(old.commands.guche_mode@, c.guche_mode)
        },
        None => {
            &&& new.commands.guche_enable@ == old.commands.guche_enable@
            &&& new.commands.guche_disable@ == old.commands.guche_disable@
            &&& new.commands.guche_help@ == old.commands.guche_help@
            &&& new.commands.guche_mode@ == old.commands.guche_mode@
        },
    }
}

fn copy_string(s: &String) -> (r: String)
    ensures
        r@ == s@,
{
    string_from(s.as_str())
}

pub(crate) fn copy_opt_string(s: &Option<String>) -> (r: Option<String>)
    ensures
        opt_str_view(r) == opt_str_view(*s),
{
    match s {
        Some(v) => Some(copy_string(v)),
        None => None,
    }
}

fn set_string(dst: &mut String, new: &Option<String>)
    ensures
        final(dst)@ == replaced(old(dst)@, *new),
{
    if let Some(v) = new {
        *dst = copy_string(v);
    }
}

fn set_flag(dst: &mut bool, new: &Option<Option<bool>>)
    ensures
        *final(dst) == flag_after(*old(dst), *new),
{
    if let Some(Some(v)) = new {
        *dst = *v;
    }
}

fn set_size(dst: &mut usize, new: &Option<u64>)
    ensures
        *final(dst) == size_after(*old(dst), *new),
{
    if let Some(v) = new {
        *dst = *v as usize;
    }
}

fn set_port(dst: &mut u16, new: &Option<u64>)
    ensures
        *final(dst) == port_after(*old(dst), *new),
{
    if let Some(v) = new {
        *dst = *v as u16;
    }
}

fn present_ids_of(ids: &Vec<Option<i64>>) -> (r: Vec<i64>)
    ensures
        r@ == present_ids(ids@),
{
    let mut r: Vec<i64> = Vec::new();
    for i in 0..ids.len()
        invariant
            r@ == present_ids(ids@.subrange(0, i as int)),
    {
        assert(ids@.subrange(0, i + 1).drop_last() =~= ids@.subrange(0, i as int));
        if let Some(x) = ids[i] {
            r.push(x);
        }
    }
    assert(ids@.subrange(0, ids@.len() as int) =~= ids@);
    r
}

impl AppConfig {
    /// Applies an edit from the management page, section by section.
    pub fn apply_update(&mut self, u: &ConfigUpdate)
        ensures
            is_update_of(*final(self), *old(self), *u),
    {
        if let Some(ob) = &u.onebot {
            set_string(&mut self.onebot.host, &ob.host);
            set_port(&mut self.onebot.port, &ob.port);
            if let Some(t) = &ob.token {
                self.onebot.token = copy_opt_string(t);
            }
        }
        if let Some(g) = &u.guche {
            set_flag(&mut self.guche.fuzzy, &g.fuzzy);
            set_flag(&mut self.guche.pos_end, &g.pos_end);
            if let Some(c) = g.cooldown_millis {
                self.guche.cooldown_millis = c;
            }
        }
        if let Some(w) = &u.webui {
            set_port(&mut self.webui.port, &w.port);
        }
        if let Some(ids) = &u.admin_users {
            self.admin_users = present_ids_of(ids);
        }
        if let Some(st) = &u.stats {
            set_size(&mut self.stats.max_records_per_group, &st.max_records_per_group);
        }
        if let Some(b) = &u.buffers {
            set_size(&mut self.buffers.log_buffer_size, &b.log_buffer_size);
            set_size(&mut self.buffers.message_queue_size, &b.message_queue_size);
            set_size(&mut self.buffers.connection_pool_size, &b.connection_pool_size);
        }
        if let Some(c) = &u.commands {
            set_string(&mut self.commands.guche_enable, &c.guche_enable);
            set_string(&mut self.commands.guche_disable, &c.guche_disable);
            set_string(&mut self.commands.guche_help, &c.guche_help);
            set_string(&mut self.commands.guche_mode, &c.guche_mode);
        }
    }
}

/// What became of an edit from the management page.
#[derive(Debug)]
pub enum UpdateOutcome {
    /// The edited configuration would be invalid; nothing is changed.
    Rejected(String),
    /// The edit is applied and must be saved; the OneBot server restarts
    /// when its section was edited.
    Saved { restart_ws: bool },
}

/// The OneBot port after an edit.
pub open spec fn onebot_port_after(c: AppConfig, u: ConfigUpdate) -> u16 {
    match u.onebot {
        Some(ob) => port_after(c.onebot.port, ob.port),
        None => c.onebot.port,
    }
}

/// The cooldown after an edit.
pub open spec fn cooldown_after(c: AppConfig, u: ConfigUpdate) -> i64 {
    match u.guche {
        Some(g) => match g.cooldown_millis {
            Some(v) => v,
            None => c.guche.cooldown_millis,
        },
        None => c.guche.cooldown_millis,
    }
}

/// The management page's port after an edit.
pub open spec fn webui_port_after(c: AppConfig, u: ConfigUpdate) -> u16 {
    match u.webui {
        Some(w) => port_after(c.webui.port, w.port),
        None => c.webui.port,
    }
}

/// What would be wrong with the configuration once the edit is applied.
pub open spec fn update_problem(c: AppConfig, u: ConfigUpdate) -> Option<Seq<char>> {
    if onebot_port_after(c, u) == 0 {
        Some("onebot port cannot be 0"@)
    } else if cooldown_after(c, u) < 0 {
        Some("cooldown_seconds must be non-negative"@)
    } else if webui_port_after(c, u) == 0 {
        Some("webui port cannot be 0"@)
    } else {
        None
    }
}

/// Whatever configuration results from applying an edit, its problem is the
/// one `update_problem` names.
pub proof fn lemma_update_problem(new: AppConfig, old: AppConfig, u: ConfigUpdate)
    requires
        is_update_of(new, old, u),
    ensures
        config_problem(new) == update_problem(old, u),
{
}

/// Checks an edit and applies it only when the result is valid: a rejected
/// edit leaves the configuration exactly as it was.
pub fn update_config(config: &mut AppConfig, update: &ConfigUpdate) -> (r: UpdateOutcome)
    ensures
        match r {
            UpdateOutcome::Rejected(e) => update_problem(*old(config), *update) == Some(e@)
                && *final(config) == *old(config),
            UpdateOutcome::Saved { restart_ws } => update_problem(*old(config), *update) is None
                && is_update_of(*final(config), *old(config), *update)
                && config_problem(*final(config)) is None
                && restart_ws == update.onebot is Some,
        },
{
    let onebot_port: u16 = match &update.onebot {
        Some(ob) => match ob.port {
            Some(v) => v as u16,
            None => config.onebot.port,
        },
        None => config.onebot.port,
    };
    let cooldown: i64 = match &update.guche {
        Some(g) => match g.cooldown_millis {
            Some(v) => v,
            None => config.guche.cooldown_millis,
        },
        None => config.guche.cooldown_millis,
    };
    let webui_port: u16 = match &update.webui {
        Some(w) => match w.port {
            Some(v) => v as u16,
            None => config.webui.port,
        },
        None => config.webui.port,
    };
    if onebot_port == 0 {
        return UpdateOutcome::Rejected(string_from("onebot port cannot be 0"));
    }
    if cooldown < 0 {
        return UpdateOutcome::Rejected(string_from("cooldown_seconds must be non-negative"));
    }
    if webui_port == 0 {
        return UpdateOutcome::Rejected(string_from("webui port cannot be 0"));
    }
    config.apply_update(update);
    proof {
        lemma_update_problem(*final(config), *old(config), *update);
    }
    UpdateOutcome::Saved { restart_ws: update.onebot.is_some() }
}


/// The matching mode of an enabled group: its own setting or the global
/// one; `None` when the group is not enabled.
pub open spec fn group_fuzzy(g: GucheConfig, gid: i64) -> Option<bool> {
    if g.groups@.contains_key(gid) {
        match g.groups@[gid].mode {
            Some(m) => Some(m),
            None => Some(g.fuzzy),
        }
    } else {
        None
    }
}

/// Whether the code goes last in the group's name: the group's own
/// setting, or the global one.
pub open spec fn group_pos_end(g: GucheConfig, gid: i64) -> bool {
    if g.groups@.contains_key(gid) {
        match g.groups@[gid].pos {
            Some(p) => p,
            None => g.pos_end,
        }
    } else {
        g.pos_end
    }
}

/// An entry with no overrides and no known name.
pub open spec fn fresh_entry() -> GroupEntry {
    GroupEntry { pos: None, mode: None, name: None }
}

/// An entry after `patch_group`: each given key replaces its setting.
pub open spec fn patched(e: EntryView, pos: Option<Option<bool>>, mode: Option<Option<bool>>) -> EntryView {
    (
        match pos {
            Some(p) => p,
            None => e.0,
        },
        match mode {
            Some(m) => m,
            None => e.1,
        },
        e.2,
    )
}

/// A copy of a group entry.
pub fn copy_entry(e: &GroupEntry) -> (r: GroupEntry)
    ensures
        r@ == e@,
{
    GroupEntry { pos: e.pos, mode: e.mode, name: copy_opt_string(&e.name) }
}

/// Whether two entries hold the same settings and name.
pub fn same_entry(a: &GroupEntry, b: &GroupEntry) -> (r: bool)
    ensures
        r == (a@ == b@),
{
    if a.pos != b.pos || a.mode != b.mode {
        return false;
    }
    match (&a.name, &b.name) {
        (Some(x), Some(y)) => {
            let xs = chars_of(x.as_str());
            let ys = chars_of(y.as_str());
            crate::text::chars_eq(&xs, &ys)
        },
        (None, None) => true,
        _ => false,
    }
}

impl GucheConfig {
    /// Whether the group is enabled.
    pub fn is_enabled(&self, gid: i64) -> (r: bool)
        ensures
            r == self.groups@.contains_key(gid),
    {
        self.groups.contains_key(&gid)
    }

    /// The group's entry, copied, if the group is enabled.
    pub fn entry_of(&self, gid: i64) -> (r: Option<GroupEntry>)
        ensures
            match r {
                Some(e) => self.groups@.contains_key(gid) && e@ == self.groups@[gid]@,
                None => !self.groups@.contains_key(gid),
            },
    {
        match self.groups.get(&gid) {
            Some(e) => Some(copy_entry(e)),
            None => None,
        }
    }

    /// The matching mode of an enabled group (`None`: not enabled).
    pub fn fuzzy_for(&self, gid: i64) -> (r: Option<bool>)
        ensures
            r == group_fuzzy(*self, gid),
    {
        match self.groups.get(&gid) {
            Some(e) => match e.mode {
                Some(m) => Some(m),
                None => Some(self.fuzzy),
            },
            None => None,
        }
    }

    /// Whether the code goes last in this group's name.
    pub fn pos_end_for(&self, gid: i64) -> (r: bool)
        ensures
            r == group_pos_end(*self, gid),
    {
        match self.groups.get(&gid) {
            Some(e) => match e.pos {
                Some(p) => p,
                None => self.pos_end,
            },
            None => self.pos_end,
        }
    }

    /// Enables a group with no overrides; an enabled group is left as it is.
    /// Tells whether the group was newly enabled.
    pub fn enable_group(&mut self, gid: i64) -> (added: bool)
        ensures
            added == !old(self).groups@.contains_key(gid),
            final(self).groups@ == if added {
                old(self).groups@.insert(gid, fresh_entry())
            } else {
                old(self).groups@
            },
            final(self).fuzzy == old(self).fuzzy,
            final(self).pos_end == old(self).pos_end,
            final(self).cooldown_millis == old(self).cooldown_millis,
    {
        if self.groups.contains_key(&gid) {
            return false;
        }
        self.groups.insert(gid, GroupEntry::default());
        true
    }

    /// Disables a group.  Tells whether it had been enabled.
    pub fn disable_group(&mut self, gid: i64) -> (removed: bool)
        ensures
            removed == old(self).groups@.contains_key(gid),
            final(self).groups@ == old(self).groups@.remove(gid),
            final(self).fuzzy == old(self).fuzzy,
            final(self).pos_end == old(self).pos_end,
            final(self).cooldown_millis == old(self).cooldown_millis,
    {
        self.groups.remove(&gid).is_some()
    }

    /// Replaces an enabled group's entry when it differs.  Tells whether
    /// anything changed; a group that is not enabled is not created.
    pub fn edit_group(&mut self, gid: i64, entry: GroupEntry) -> (changed: bool)
        ensures
            changed == (old(self).groups@.contains_key(gid) && old(self).groups@[gid]@ != entry@),
            final(self).groups@ == if changed {
                old(self).groups@.insert(gid, entry)
            } else {
                old(self).groups@
            },
            final(self).fuzzy == old(self).fuzzy,
            final(self).pos_end == old(self).pos_end,
            final(self).cooldown_millis == old(self).cooldown_millis,
    {
        let same = match self.groups.get(&gid) {
            None => true,
            Some(e) => same_entry(e, &entry),
        };
        if same {
            return false;
        }
        self.groups.insert(gid, entry);
        true
    }

    /// Sets or clears an enabled group's overrides; each given key replaces
    /// its setting.  Tells whether the group is enabled.
    pub fn patch_group(&mut self, gid: i64, pos: Option<Option<bool>>, mode: Option<Option<bool>>) -> (found: bool)
        ensures
            found == old(self).groups@.contains_key(gid),
            found ==> final(self).groups@ == old(self).groups@.insert(gid, final(self).groups@[gid]),
            found ==> final(self).groups@[gid]@ == patched(old(self).groups@[gid]@, pos, mode),
            !found ==> final(self).groups@ == old(self).groups@,
            final(self).fuzzy == old(self).fuzzy,
            final(self).pos_end == old(self).pos_end,
            final(self).cooldown_millis == old(self).cooldown_millis,
    {
        let mut e = match self.groups.get(&gid) {
            Some(e) => copy_entry(e),
            None => return false,
        };
        if let Some(p) = pos {
            e.pos = p;
        }
        if let Some(m) = mode {
            e.mode = m;
        }
        self.groups.insert(gid, e);
        true
    }

    /// Stores an enabled group's current name.  Tells whether it differed
    /// from the stored one.
    pub fn record_group_name(&mut self, gid: i64, name: &str) -> (changed: bool)
        ensures
            changed == (old(self).groups@.contains_key(gid) && old(self).groups@[gid]@.2 != Some(
                name@,
            )),
            changed ==> final(self).groups@ == old(self).groups@.insert(gid, final(self).groups@[gid]),
            changed ==> final(self).groups@[gid]@ == (
                old(self).groups@[gid]@.0,
                old(self).groups@[gid]@.1,
                Some(name@),
            ),
            !changed ==> final(self).groups@ == old(self).groups@,
            final(self).fuzzy == old(self).fuzzy,
            final(self).pos_end == old(self).pos_end,
            final(self).cooldown_millis == old(self).cooldown_millis,
    {
        let e = match self.groups.get(&gid) {
            Some(e) => copy_entry(e),
            None => return false,
        };
        let new_entry = GroupEntry { pos: e.pos, mode: e.mode, name: Some(string_from(name)) };
        self.edit_group(gid, new_entry)
    }
}

/// Where a group's code goes: an enabled group with a placement of its own
/// uses it; every other group, enabled without a placement of its own or
/// not enabled at all, follows the global `pos_end`.
pub proof fn lemma_placement_falls_back_to_global(g: GucheConfig, gid: i64)
    ensures
        g.groups@.contains_key(gid) && g.groups@[gid].pos is None ==> group_pos_end(g, gid) == g.pos_end,
        !g.groups@.contains_key(gid) ==> group_pos_end(g, gid) == g.pos_end,
        g.groups@.contains_key(gid) && g.groups@[gid].pos == Some(true) ==> group_pos_end(g, gid),
        g.groups@.contains_key(gid) && g.groups@[gid].pos == Some(false) ==> !group_pos_end(g, gid),
{
}

/// Likewise for the matching mode of an enabled group.
pub proof fn lemma_mode_falls_back_to_global(g: GucheConfig, gid: i64)
    ensures
        g.groups@.contains_key(gid) && g.groups@[gid].mode is None ==> group_fuzzy(g, gid) == Some(g.fuzzy),
        !g.groups@.contains_key(gid) ==> group_fuzzy(g, gid) is None,
        g.groups@.contains_key(gid) && g.groups@[gid].mode == Some(true) ==> group_fuzzy(g, gid) == Some(true),
        g.groups@.contains_key(gid) && g.groups@[gid].mode == Some(false) ==> group_fuzzy(g, gid) == Some(false),
{
}

/// An edit sets every value it names and keeps every value it does not
/// name; the enabled groups and the page switch are never touched.
pub proof fn lemma_update_sets_named_values(new: AppConfig, old: AppConfig, u: ConfigUpdate)
    requires
        is_update_of(new, old, u),
    ensures
        u.commands matches Some(c) ==> (c.guche_enable matches Some(v) ==> new.commands.guche_enable@ == v@),
        u.commands matches Some(c) ==> (c.guche_disable matches Some(v) ==> new.commands.guche_disable@ == v@),
        u.commands matches Some(c) ==> (c.guche_help matches Some(v) ==> new.commands.guche_help@ == v@),
        u.commands matches Some(c) ==> (c.guche_mode matches Some(v) ==> new.commands.guche_mode@ == v@),
        (u.commands is None || u.commands->0.guche_enable is None) ==> new.commands.guche_enable@ == old.commands.guche_enable@,
        (u.commands is None || u.commands->0.guche_disable is None) ==> new.commands.guche_disable@ == old.commands.guche_disable@,
        (u.commands is None || u.commands->0.guche_help is None) ==> new.commands.guche_help@ == old.commands.guche_help@,
        (u.commands is None || u.commands->0.guche_mode is None) ==> new.commands.guche_mode@ == old.commands.guche_mode@,
        u.onebot matches Some(ob) ==> (ob.host matches Some(v) ==> new.onebot.host@ == v@),
        (u.onebot is None || u.onebot->0.host is None) ==> new.onebot.host@ == old.onebot.host@,
        u.onebot matches Some(ob) ==> (ob.port matches Some(v) ==> new.onebot.port == v as u16),
        (u.onebot is None || u.onebot->0.port is None) ==> new.onebot.port == old.onebot.port,
        u.onebot matches Some(ob) ==> (ob.token == Some(None::<String>) ==> new.onebot.token is None),
        u.onebot matches Some(ob) ==> (ob.token matches Some(Some(v)) ==> (new.onebot.token matches Some(t) && t@ == v@)),
        u.guche matches Some(gu) ==> (gu.fuzzy matches Some(Some(v)) ==> new.guche.fuzzy == v),
        (u.guche is None || !(u.guche->0.fuzzy matches Some(Some(_)))) ==> new.guche.fuzzy == old.guche.fuzzy,
        u.guche matches Some(gu) ==> (gu.pos_end matches Some(Some(v)) ==> new.guche.pos_end == v),
        (u.guche is None || !(u.guche->0.pos_end matches Some(Some(_)))) ==> new.guche.pos_end == old.guche.pos_end,
        u.guche matches Some(gu) ==> (gu.cooldown_millis matches Some(v) ==> new.guche.cooldown_millis == v),
        (u.guche is None || u.guche->0.cooldown_millis is None) ==> new.guche.cooldown_millis == old.guche.cooldown_millis,
        u.webui matches Some(w) ==> (w.port matches Some(v) ==> new.webui.port == v as u16),
        (u.webui is None || u.webui->0.port is None) ==> new.webui.port == old.webui.port,
        u.stats matches Some(st) ==> (st.max_records_per_group matches Some(v) ==> new.stats.max_records_per_group == v as usize),
        (u.stats is None || u.stats->0.max_records_per_group is None) ==> new.stats.max_records_per_group == old.stats.max_records_per_group,
        u.buffers matches Some(b) ==> (b.log_buffer_size matches Some(v) ==> new.buffers.log_buffer_size == v as usize),
        u.buffers matches Some(b) ==> (b.message_queue_size matches Some(v) ==> new.buffers.message_queue_size == v as usize),
        u.buffers matches Some(b) ==> (b.connection_pool_size matches Some(v) ==> new.buffers.connection_pool_size == v as usize),
        (u.buffers is None || u.buffers->0.log_buffer_size is None) ==> new.buffers.log_buffer_size == old.buffers.log_buffer_size,
        (u.buffers is None || u.buffers->0.message_queue_size is None) ==> new.buffers.message_queue_size == old.buffers.message_queue_size,
        (u.buffers is None || u.buffers->0.connection_pool_size is None) ==> new.buffers.connection_pool_size == old.buffers.connection_pool_size,
        u.admin_users is None ==> new.admin_users@ == old.admin_users@,
        u.admin_users matches Some(ids) ==> forall|k: int| 0 <= k < ids@.len() && #[trigger] ids@[k] is Some
            ==> new.admin_users@.contains(ids@[k]->0),
        u.admin_users matches Some(ids) ==> forall|j: int| 0 <= j < new.admin_users@.len() ==> ids@.contains(
            Some(#[trigger] new.admin_users@[j]),
        ),
        new.guche.groups@ == old.guche.groups@,
        new.webui.enabled == old.webui.enabled,
{
    if let Some(ids) = u.admin_users {
        assert forall|k: int| 0 <= k < ids@.len() && #[trigger] ids@[k] is Some implies new.admin_users@.contains(
            ids@[k]->0,
        ) by {
            lemma_present_ids_contains(ids@, k);
        }
        assert forall|j: int| 0 <= j < new.admin_users@.len() implies ids@.contains(Some(#[trigger] new.admin_users@[j])) by {
            lemma_present_ids_from(ids@, j);
        }
    }
}

proof fn lemma_present_ids_from(s: Seq<Option<i64>>, j: int)
    requires
        0 <= j < present_ids(s).len(),
    ensures
        s.contains(Some(present_ids(s)[j])),
    decreases s.len(),
{
    let rest = present_ids(s.drop_last());
    match s.last() {
        Some(x) => {
            if j == rest.len() {
                assert(present_ids(s)[j] == x);
                assert(s[s.len() - 1] == Some(x));
            } else {
                assert(present_ids(s)[j] == rest[j]);
                lemma_present_ids_from(s.drop_last(), j);
                let i = choose|i: int| 0 <= i < s.drop_last().len() && s.drop_last()[i] == Some(rest[j]);
                assert(s[i] == Some(rest[j]));
            }
        },
        None => {
            lemma_present_ids_from(s.drop_last(), j);
            let i = choose|i: int| 0 <= i < s.drop_last().len() && s.drop_last()[i] == Some(rest[j]);
            assert(s[i] == Some(rest[j]));
        },
    }
}

proof fn lemma_present_ids_contains(s: Seq<Option<i64>>, k: int)
    requires
        0 <= k < s.len(),
        s[k] is Some,
    ensures
        present_ids(s).contains(s[k]->0),
    decreases s.len(),
{
    let rest = present_ids(s.drop_last());
    if k == s.len() - 1 {
        assert(present_ids(s) == rest.push(s[k]->0));
        assert(rest.push(s[k]->0)[rest.len() as int] == s[k]->0);
    } else {
        assert(s.drop_last()[k] == s[k]);
        lemma_present_ids_contains(s.drop_last(), k);
        let j = choose|j: int| 0 <= j < rest.len() && rest[j] == s[k]->0;
        match s.last() {
            Some(x) => {
                assert(rest.push(x)[j] == s[k]->0);
            },
            None => {},
        }
    }
}

} // verus!
