//! What the management page computes: log lines parsed into entries and
//! filtered, and the per-group statistics summary.
use vstd::prelude::*;

use crate::stats::{GroupStats, on_day, within};
use crate::text::{chars_eq, chars_of, contains_chars, contains_seq, copy_range, find_chars,
    find_from, lowercase_of, seqs_view, split_words, string_of, to_lowercase, words, words_from,
    skip_white_from, word_end_from, is_white, occurs_at, lemma_contains_iff_occurs, lemma_skip_white_bounds, lemma_word_end_bounds};
use crate::utils::{date_text, now_date};

verus! {

/// One log line, split into its parts.
#[derive(Debug)]
pub struct LogEntry {
    pub timestamp: String,
    pub level: String,
    pub target: String,
    pub message: String,
}

/// The parts of a log entry as character sequences.
pub type LogEntryView = (Seq<char>, Seq<char>, Seq<char>, Seq<char>);

impl View for LogEntry {
    type V = LogEntryView;

    open spec fn view(&self) -> LogEntryView {
        (self.timestamp@, self.level@, self.target@, self.message@)
    }
}

/// A line that can be cut at its first `]`: either it has none, or it
/// starts with an ASCII character other than `]` (the header is taken from
/// the second byte on).
pub open spec fn cuttable_line(line: Seq<char>) -> bool {
    find_from(line, seq![']'], 0) matches Some(e) ==> e > 0 && (line[0] as u32) < 0x80
}

/// A log line `[<time> <level> <target>] <message>`, where the time is
/// `YYYY-MM-DD HH:MM:SS` (two words, the second with a colon) or a single
/// word.  The message starts two bytes after the `]`; when that is not a
/// character boundary it is empty.
pub open spec fn parsed_log_line(line: Seq<char>) -> Option<LogEntryView> {
    match find_from(line, seq![']'], 0) {
        None => None,
        Some(e) => {
            let header = line.subrange(1, e);
            let message = if e + 1 < line.len() && (line[e + 1] as u32) < 0x80 {
                line.subrange(e + 2, line.len() as int)
            } else {
                Seq::empty()
            };
            let parts = words(header);
            if parts.len() >= 4 && contains_seq(parts[1], seq![':']) {
                Some((parts[0] + seq![' '] + parts[1], parts[2], parts[3], message))
            } else if parts.len() >= 3 {
                Some((parts[0], parts[1], parts[2], message))
            } else {
                None
            }
        },
    }
}

/// Splits a log line into time, level, target and message.
pub fn parse_log_line(line: &str) -> (r: Option<LogEntry>)
    requires
        cuttable_line(line@),
    ensures
        match r {
            Some(e) => parsed_log_line(line@) == Some(e@),
            None => parsed_log_line(line@) is None,
        },
{
    let v = chars_of(line);
    let close: Vec<char> = vec![']'];
    assert(close@ =~= seq![']']);
    let e = match find_chars(&v, &close) {
        Some(e) => e,
        None => return None,
    };
    proof {
        crate::config::lemma_find_bound(v@, seq![']'], 0);
    }
    assert(e < v@.len());
    let header = copy_range(&v, 1, e);
    let message = if v.len() - e > 1 && (v[e + 1] as u32) < 0x80 {
        copy_range(&v, e + 2, v.len())
    } else {
        Vec::new()
    };
    let parts = split_words(&header);
    let ghost pv = seqs_view(parts@);
    assert(pv == words(header@));
    let colon: Vec<char> = vec![':'];
    assert(colon@ =~= seq![':']);
    if parts.len() >= 4 && contains_chars(&parts[1], &colon) {
        assert(parts@[1]@ == pv[1]);
        let mut ts = parts[0].clone();
        assert(ts@ == pv[0]) by {
            assert(ts@ =~= parts@[0]@);
        }
        ts.push(' ');
        let p1 = &parts[1];
        let mut k: usize = 0;
        let ghost base = ts@;
        while k < p1.len()
            invariant
                k <= p1@.len(),
                ts@ == base + p1@.subrange(0, k as int),
            decreases p1@.len() - k,
        {
            ts.push(p1[k]);
            k = k + 1;
            assert(ts@ =~= base + p1@.subrange(0, k as int));
        }
        assert(p1@.subrange(0, p1@.len() as int) =~= p1@);
        Some(LogEntry {
            timestamp: string_of(&ts),
            level: string_of(&parts[2]),
            target: string_of(&parts[3]),
            message: string_of(&message),
        })
    } else if parts.len() >= 3 {
        Some(LogEntry {
            timestamp: string_of(&parts[0]),
            level: string_of(&parts[1]),
            target: string_of(&parts[2]),
            message: string_of(&message),
        })
    } else {
        None
    }
}


/// A word as the logger writes one into a line's header: not empty, with no
/// white space and no `]`.
pub open spec fn header_word(w: Seq<char>) -> bool {
    w.len() > 0 && forall|i: int| 0 <= i < w.len() ==> !is_white(#[trigger] w[i]) && w[i] != ']'
}

/// The line the logger writes: `[<date> <time> <level> <target>] <message>`.
pub open spec fn log_line(d: Seq<char>, h: Seq<char>, lv: Seq<char>, tg: Seq<char>, m: Seq<char>) -> Seq<char> {
    seq!['['] + d + seq![' '] + h + seq![' '] + lv + seq![' '] + tg + seq![']', ' '] + m
}

proof fn lemma_skip_white_shift(p: Seq<char>, r: Seq<char>, j: int)
    requires
        0 <= j <= r.len(),
    ensures
        skip_white_from(p + r, p.len() + j) == p.len() + skip_white_from(r, j),
    decreases r.len() - j,
{
    if j < r.len() {
        assert((p + r)[p.len() + j] == r[j]);
        lemma_skip_white_shift(p, r, j + 1);
    }
}

proof fn lemma_word_end_shift(p: Seq<char>, r: Seq<char>, j: int)
    requires
        0 <= j <= r.len(),
    ensures
        word_end_from(p + r, p.len() + j) == p.len() + word_end_from(r, j),
    decreases r.len() - j,
{
    if j < r.len() {
        assert((p + r)[p.len() + j] == r[j]);
        lemma_word_end_shift(p, r, j + 1);
    }
}

/// The words of a suffix are found the same way inside the whole.
proof fn lemma_words_shift(p: Seq<char>, r: Seq<char>, j: int)
    requires
        0 <= j <= r.len(),
    ensures
        words_from(p + r, p.len() + j) == words_from(r, j),
    decreases r.len() - j,
{
    let s = p + r;
    lemma_skip_white_shift(p, r, j);
    lemma_skip_white_bounds(r, j);
    let a = skip_white_from(r, j);
    if a < r.len() {
        lemma_word_end_shift(p, r, a);
        lemma_word_end_bounds(r, a);
        let b = word_end_from(r, a);
        assert(s.subrange(p.len() + a, p.len() + b) =~= r.subrange(a, b));
        if b == a {
            assert(!is_white(r[a]));
        }
        lemma_words_shift(p, r, b);
    }
}

proof fn lemma_word_end_within(s: Seq<char>, w: Seq<char>, k: int)
    requires
        0 <= k <= w.len(),
        w.len() <= s.len(),
        s.subrange(0, w.len() as int) == w,
        forall|i: int| 0 <= i < w.len() ==> !is_white(#[trigger] w[i]),
        w.len() < s.len() ==> is_white(s[w.len() as int]),
    ensures
        word_end_from(s, k) == w.len(),
    decreases w.len() - k,
{
    if k < w.len() {
        assert(s[k] == w[k]);
        lemma_word_end_within(s, w, k + 1);
    }
}

/// A word followed by a space and more text: its words are that word and
/// the words of the rest.
proof fn lemma_words_cons(w: Seq<char>, rest: Seq<char>)
    requires
        header_word(w),
    ensures
        words(w + seq![' '] + rest) == seq![w] + words(rest),
{
    let s = w + seq![' '] + rest;
    let p = w + seq![' '];
    assert(s =~= p + rest);
    assert(s[0] == w[0]);
    assert(s.subrange(0, w.len() as int) =~= w);
    assert(s[w.len() as int] == ' ');
    lemma_word_end_within(s, w, 0);
    assert(words_from(s, w.len() as int) == words_from(s, p.len() as int)) by {
        assert(is_white(s[w.len() as int]));
        lemma_skip_white_bounds(s, p.len() as int);
    }
    lemma_words_shift(p, rest, 0);
}

/// A single word: its words are itself.
proof fn lemma_words_single(w: Seq<char>)
    requires
        header_word(w),
    ensures
        words(w) == seq![w],
{
    assert(w.subrange(0, w.len() as int) =~= w);
    assert(!is_white(w[0]));
    assert(skip_white_from(w, 0) == 0);
    lemma_word_end_within(w, w, 0);
    assert(words_from(w, w.len() as int) =~= Seq::<Seq<char>>::empty());
    assert(words(w) =~= seq![w.subrange(0, w.len() as int)] + Seq::<Seq<char>>::empty());
}

proof fn lemma_find_bracket(line: Seq<char>, i: int, e: int)
    requires
        0 <= i <= e < line.len(),
        line[e] == ']',
        forall|k: int| i <= k < e ==> line[k] != ']',
    ensures
        find_from(line, seq![']'], i) == Some(e),
    decreases e - i,
{
    assert(line.subrange(i, i + 1) =~= seq![line[i]]);
    if i < e {
        assert(line[i] != ']');
        if line.subrange(i, i + 1) == seq![']'] {
            assert(line.subrange(i, i + 1)[0] == line[i]);
            assert(seq![']'][0] == ']');
        }
        assert(!occurs_at(line, seq![']'], i));
        lemma_find_bracket(line, i + 1, e);
    } else {
        assert(occurs_at(line, seq![']'], i));
    }
}

/// Parsing a line in the shape the logger writes gives back its parts: the
/// date and time as the timestamp, the level, the target and the message.
pub proof fn lemma_log_line_round_trip(d: Seq<char>, h: Seq<char>, lv: Seq<char>, tg: Seq<char>, m: Seq<char>)
    requires
        header_word(d),
        header_word(h),
        header_word(lv),
        header_word(tg),
        contains_seq(h, seq![':']),
    ensures
        cuttable_line(log_line(d, h, lv, tg, m)),
        parsed_log_line(log_line(d, h, lv, tg, m)) == Some((d + seq![' '] + h, lv, tg, m)),
{
    let header = d + seq![' '] + h + seq![' '] + lv + seq![' '] + tg;
    let line = log_line(d, h, lv, tg, m);
    let e: int = header.len() as int + 1;
    assert(line =~= seq!['['] + header + seq![']', ' '] + m);
    assert forall|k: int| 1 <= k < e implies line[k] != ']' by {
        assert(line[k] == header[k - 1]);
        let j = k - 1;
        if j < d.len() {
            assert(header[j] == d[j]);
        } else if j == d.len() {
        } else if j < d.len() + 1 + h.len() {
            assert(header[j] == h[j - d.len() - 1]);
        } else if j == d.len() + 1 + h.len() {
        } else if j < d.len() + 2 + h.len() + lv.len() {
            assert(header[j] == lv[j - d.len() - 2 - h.len()]);
        } else if j == d.len() + 2 + h.len() + lv.len() {
        } else {
            assert(header[j] == tg[j - d.len() - 3 - h.len() - lv.len()]);
        }
    }
    assert(line[0] == '[');
    assert(line[e] == ']');
    lemma_find_bracket(line, 1, e);
    assert(find_from(line, seq![']'], 0) == Some(e)) by {
        assert(line.subrange(0, 1) =~= seq!['[']);
    }
    assert(line.subrange(1, e) =~= header);
    assert(line[e + 1] == ' ');
    assert(line.subrange(e + 2, line.len() as int) =~= m);
    lemma_words_single(tg);
    lemma_words_cons(lv, tg);
    lemma_words_cons(h, lv + seq![' '] + tg);
    assert(h + seq![' '] + (lv + seq![' '] + tg) =~= h + seq![' '] + lv + seq![' '] + tg);
    lemma_words_cons(d, h + seq![' '] + lv + seq![' '] + tg);
    assert(d + seq![' '] + (h + seq![' '] + lv + seq![' '] + tg) =~= header);
    let ws = words(header);
    assert(ws =~= seq![d, h, lv, tg]);
}

/// A log entry passes the page's filters: the level equal, the target and
/// the message containing the given text, all compared in lowercase; an
/// empty filter lets everything through.
pub open spec fn log_matches(e: LogEntryView, level: Seq<char>, target: Seq<char>, keyword: Seq<char>) -> bool {
    &&& (level.len() == 0 || lowercase_of(e.1) == lowercase_of(level))
    &&& (target.len() == 0 || contains_seq(lowercase_of(e.2), lowercase_of(target)))
    &&& (keyword.len() == 0 || contains_seq(lowercase_of(e.3), lowercase_of(keyword)))
}

/// What the page's filters let through, said directly: the level equal in
/// lowercase, and the lowercase target and keyword each found at some
/// position of the entry's lowercase target and message; an empty filter
/// lets everything through.
pub proof fn lemma_filters_match_anywhere(e: LogEntryView, level: Seq<char>, target: Seq<char>, keyword: Seq<char>)
    ensures
        log_matches(e, level, target, keyword) <==> {
            &&& level.len() == 0 || lowercase_of(e.1) == lowercase_of(level)
            &&& target.len() == 0 || exists|i: int|
                0 <= i && i + lowercase_of(target).len() <= lowercase_of(e.2).len()
                    && #[trigger] lowercase_of(e.2).subrange(i, i + lowercase_of(target).len()) == lowercase_of(target)
            &&& keyword.len() == 0 || exists|i: int|
                0 <= i && i + lowercase_of(keyword).len() <= lowercase_of(e.3).len()
                    && #[trigger] lowercase_of(e.3).subrange(i, i + lowercase_of(keyword).len()) == lowercase_of(keyword)
        },
{
    lemma_contains_iff_occurs(lowercase_of(e.2), lowercase_of(target));
    lemma_contains_iff_occurs(lowercase_of(e.3), lowercase_of(keyword));
    if exists|i: int| #[trigger] occurs_at(lowercase_of(e.3), lowercase_of(keyword), i) {
        let i = choose|i: int| #[trigger] occurs_at(lowercase_of(e.3), lowercase_of(keyword), i);
        assert(lowercase_of(e.3).subrange(i, i + lowercase_of(keyword).len()) == lowercase_of(keyword));
    }
    if exists|i: int|
        0 <= i && i + lowercase_of(keyword).len() <= lowercase_of(e.3).len()
            && #[trigger] lowercase_of(e.3).subrange(i, i + lowercase_of(keyword).len()) == lowercase_of(keyword) {
        let i = choose|i: int|
            0 <= i && i + lowercase_of(keyword).len() <= lowercase_of(e.3).len()
                && #[trigger] lowercase_of(e.3).subrange(i, i + lowercase_of(keyword).len()) == lowercase_of(keyword);
        assert(occurs_at(lowercase_of(e.3), lowercase_of(keyword), i));
    }
    if exists|i: int| #[trigger] occurs_at(lowercase_of(e.2), lowercase_of(target), i) {
        let i = choose|i: int| #[trigger] occurs_at(lowercase_of(e.2), lowercase_of(target), i);
        assert(lowercase_of(e.2).subrange(i, i + lowercase_of(target).len()) == lowercase_of(target));
    }
    if exists|i: int|
        0 <= i && i + lowercase_of(target).len() <= lowercase_of(e.2).len()
            && #[trigger] lowercase_of(e.2).subrange(i, i + lowercase_of(target).len()) == lowercase_of(target) {
        let i = choose|i: int|
            0 <= i && i + lowercase_of(target).len() <= lowercase_of(e.2).len()
                && #[trigger] lowercase_of(e.2).subrange(i, i + lowercase_of(target).len()) == lowercase_of(target);
        assert(occurs_at(lowercase_of(e.2), lowercase_of(target), i));
    }
}

fn lower_chars(s: &str) -> (r: Vec<char>)
    ensures
        r@ == lowercase_of(s@),
{
    let l = to_lowercase(s);
    chars_of(l.as_str())
}

/// Whether a log entry passes the page's filters.
pub fn entry_matches(entry: &LogEntry, level: &str, target: &str, keyword: &str) -> (r: bool)
    ensures
        r == log_matches(entry@, level@, target@, keyword@),
{
    if !level.is_empty() {
        if !chars_eq(&lower_chars(entry.level.as_str()), &lower_chars(level)) {
            return false;
        }
    }
    if !target.is_empty() {
        if !contains_chars(&lower_chars(entry.target.as_str()), &lower_chars(target)) {
            return false;
        }
    }
    if !keyword.is_empty() {
        if !contains_chars(&lower_chars(entry.message.as_str()), &lower_chars(keyword)) {
            return false;
        }
    }
    true
}

/// The entries of the log lines that parse and pass the filters, in order.
pub open spec fn filtered_logs(lines: Seq<Seq<char>>, level: Seq<char>, target: Seq<char>, keyword: Seq<char>) -> Seq<LogEntryView>
    decreases lines.len(),
{
    if lines.len() == 0 {
        Seq::empty()
    } else {
        let rest = filtered_logs(lines.drop_last(), level, target, keyword);
        match parsed_log_line(lines.last()) {
            Some(e) => if log_matches(e, level, target, keyword) {
                rest.push(e)
            } else {
                rest
            },
            None => rest,
        }
    }
}

pub open spec fn lines_view(v: Seq<String>) -> Seq<Seq<char>> {
    v.map_values(|s: String| s@)
}

pub open spec fn entries_view(v: Seq<LogEntry>) -> Seq<LogEntryView> {
    v.map_values(|e: LogEntry| e@)
}

/// Parses the buffered log lines and keeps the entries that pass the filters.
pub fn filter_logs(lines: &[String], level: &str, target: &str, keyword: &str) -> (r: Vec<LogEntry>)
    requires
        forall|i: int| 0 <= i < lines@.len() ==> cuttable_line(#[trigger] lines@[i]@),
    ensures
        entries_view(r@) == filtered_logs(lines_view(lines@), level@, target@, keyword@),
{
    let mut out: Vec<LogEntry> = Vec::new();
    for i in 0..lines.len()
        invariant
            forall|k: int| 0 <= k < lines@.len() ==> cuttable_line(#[trigger] lines@[k]@),
            entries_view(out@) == filtered_logs(
                lines_view(lines@).subrange(0, i as int),
                level@,
                target@,
                keyword@,
            ),
    {
        let ghost pre = lines_view(lines@).subrange(0, i as int);
        assert(lines_view(lines@).subrange(0, i + 1).drop_last() =~= pre);
        assert(lines_view(lines@).subrange(0, i + 1).last() == lines@[i as int]@);
        let before = out.len();
        let ghost ob = out@;
        match parse_log_line(lines[i].as_str()) {
            Some(e) => {
                if entry_matches(&e, level, target, keyword) {
                    let ghost ev = e@;
                    out.push(e);
                    assert(entries_view(out@) =~= entries_view(ob).push(ev));
                }
            },
            None => {},
        }
    }
    assert(lines_view(lines@).subrange(0, lines@.len() as int) =~= lines_view(lines@));
    out
}

/// The log lines the stream has not sent yet: once the buffer holds more
/// than the `seen` lines already sent, the lines after them and the new
/// count; otherwise nothing, and the count stays.
pub fn unseen_lines(lines: &[String], seen: usize) -> (r: (Vec<String>, usize))
    ensures
        lines@.len() > seen ==> lines_view(r.0@) == lines_view(lines@).skip(seen as int) && r.1 == lines@.len(),
        lines@.len() <= seen ==> r.0@.len() == 0 && r.1 == seen,
{
    let mut out: Vec<String> = Vec::new();
    if lines.len() <= seen {
        return (out, seen);
    }
    let mut i: usize = seen;
    while i < lines.len()
        invariant
            seen <= i <= lines@.len(),
            lines_view(out@) == lines_view(lines@).subrange(seen as int, i as int),
        decreases lines@.len() - i,
    {
        let ghost before = out@;
        out.push(crate::text::string_from(lines[i].as_str()));
        assert(lines_view(out@) =~= lines_view(before).push(lines@[i as int]@));
        assert(lines_view(lines@).subrange(seen as int, i + 1) =~= lines_view(lines@).subrange(
            seen as int,
            i as int,
        ).push(lines@[i as int]@));
        i = i + 1;
    }
    assert(lines_view(lines@).skip(seen as int) =~= lines_view(lines@).subrange(seen as int, lines@.len() as int));
    (out, lines.len())
}

/// The statistics of one group as the page shows them.
#[derive(Debug)]
pub struct GroupSummary {
    pub rename_count: usize,
    pub today_count: usize,
    /// Records in the queried range; zero when no full range was given.
    pub range_count: usize,
    /// Time of the newest record.
    pub last_rename: Option<String>,
}

/// The summary of a group's records, with `today` as the current day.
pub open spec fn summary_of(g: GroupSummary, stats: GroupStats, start_date: Seq<char>, end_date: Seq<char>, today: Seq<char>) -> bool {
    &&& g.rename_count == stats.records@.len()
    &&& g.today_count == stats.records@.filter(on_day(today)).len()
    &&& g.range_count == if start_date.len() > 0 && end_date.len() > 0 {
        stats.records@.filter(within(start_date, end_date)).len()
    } else {
        0
    }
    &&& crate::text::opt_view(g.last_rename) == if stats.records@.len() > 0 {
        Some(stats.records@.last().time@)
    } else {
        None::<Seq<char>>
    }
}

/// Summarises a group's records for the page, counting the records of the
/// day `today`; the range counts only when both of its ends are given.
pub fn summarize_group_on(stats: &GroupStats, start_date: &str, end_date: &str, today: &str) -> (r: GroupSummary)
    ensures
        summary_of(r, *stats, start_date@, end_date@, today@),
{
    let today_count = stats.count_on_day(today);
    let range_count = if !start_date.is_empty() && !end_date.is_empty() {
        stats.count_in_range(start_date, end_date)
    } else {
        0
    };
    let n = stats.records.len();
    let last_rename = if n > 0 {
        Some(crate::text::string_from(stats.records[n - 1].time.as_str()))
    } else {
        None
    };
    GroupSummary { rename_count: n, today_count, range_count, last_rename }
}

/// Summarises a group's records for the page; the range counts only when
/// both of its ends are given.
pub fn summarize_group(stats: &GroupStats, start_date: &str, end_date: &str) -> (r: GroupSummary)
    ensures
        r.rename_count == stats.records@.len(),
        exists|y: nat, m: nat, d: nat|
            1 <= m <= 12 && 1 <= d <= 31 && r.today_count == stats.records@.filter(
                on_day(date_text(y, m, d)),
            ).len(),
        r.range_count == if start_date@.len() > 0 && end_date@.len() > 0 {
            stats.records@.filter(within(start_date@, end_date@)).len()
        } else {
            0
        },
        crate::text::opt_view(r.last_rename) == if stats.records@.len() > 0 {
            Some(stats.records@.last().time@)
        } else {
            None::<Seq<char>>
        },
{
    let today = now_date();
    summarize_group_on(stats, start_date, end_date, today.as_str())
}

/// The groups the page asks about: all of them, or only `only`.
pub open spec fn selected(groups: Seq<(i64, GroupStats)>, only: Option<i64>) -> Seq<(i64, GroupStats)>
    decreases groups.len(),
{
    if groups.len() == 0 {
        Seq::empty()
    } else {
        let rest = selected(groups.drop_last(), only);
        if only is None || only == Some(groups.last().0) {
            rest.push(groups.last())
        } else {
            rest
        }
    }
}

/// All records of the groups.
pub open spec fn sum_renames(gs: Seq<(i64, GroupStats)>) -> nat
    decreases gs.len(),
{
    if gs.len() == 0 {
        0
    } else {
        sum_renames(gs.drop_last()) + gs.last().1.records@.len()
    }
}

/// The records of the groups made on `today`.
pub open spec fn sum_today(gs: Seq<(i64, GroupStats)>, today: Seq<char>) -> nat
    decreases gs.len(),
{
    if gs.len() == 0 {
        0
    } else {
        sum_today(gs.drop_last(), today) + gs.last().1.records@.filter(on_day(today)).len()
    }
}

/// The records of the groups in the range; zero unless both ends are given.
pub open spec fn sum_range(gs: Seq<(i64, GroupStats)>, start_date: Seq<char>, end_date: Seq<char>) -> nat
    decreases gs.len(),
{
    if gs.len() == 0 {
        0
    } else {
        sum_range(gs.drop_last(), start_date, end_date) + if start_date.len() > 0 && end_date.len() > 0 {
            gs.last().1.records@.filter(within(start_date, end_date)).len()
        } else {
            0
        }
    }
}

/// Each row holds the id and the summary of the group at its place.
pub open spec fn rows_summarise(
    rows: Seq<(i64, GroupSummary)>,
    gs: Seq<(i64, GroupStats)>,
    start_date: Seq<char>,
    end_date: Seq<char>,
    today: Seq<char>,
) -> bool {
    &&& rows.len() == gs.len()
    &&& forall|k: int| 0 <= k < rows.len() ==> #[trigger] rows[k].0 == gs[k].0 && summary_of(
        rows[k].1,
        gs[k].1,
        start_date,
        end_date,
        today,
    )
}

/// The page's statistics over several groups: the totals and each group's
/// summary, in the order given.
#[derive(Debug)]
pub struct StatsOverview {
    pub total_renames: usize,
    pub today_renames: usize,
    pub range_renames: usize,
    pub groups: Vec<(i64, GroupSummary)>,
}

proof fn lemma_sums_push(gs: Seq<(i64, GroupStats)>, x: (i64, GroupStats), today: Seq<char>, start_date: Seq<char>, end_date: Seq<char>)
    ensures
        sum_renames(gs.push(x)) == sum_renames(gs) + x.1.records@.len(),
        sum_today(gs.push(x), today) == sum_today(gs, today) + x.1.records@.filter(on_day(today)).len(),
        sum_range(gs.push(x), start_date, end_date) == sum_range(gs, start_date, end_date) + if start_date.len() > 0
            && end_date.len() > 0 {
            x.1.records@.filter(within(start_date, end_date)).len()
        } else {
            0
        },
{
    assert(gs.push(x).drop_last() =~= gs);
}

proof fn lemma_selected_step(groups: Seq<(i64, GroupStats)>, only: Option<i64>, i: int)
    requires
        0 <= i < groups.len(),
    ensures
        selected(groups.subrange(0, i + 1), only) == if only is None || only == Some(groups[i].0) {
            selected(groups.subrange(0, i), only).push(groups[i])
        } else {
            selected(groups.subrange(0, i), only)
        },
{
    let p = groups.subrange(0, i + 1);
    assert(p.drop_last() =~= groups.subrange(0, i));
    assert(p.last() == groups[i]);
}

proof fn lemma_selected_prefix(groups: Seq<(i64, GroupStats)>, only: Option<i64>, i: int)
    requires
        0 <= i <= groups.len(),
    ensures
        sum_renames(selected(groups.subrange(0, i), only)) <= sum_renames(selected(groups, only)),
    decreases groups.len() - i,
{
    if i < groups.len() {
        lemma_selected_prefix(groups, only, i + 1);
        lemma_selected_step(groups, only, i);
        lemma_sums_push(selected(groups.subrange(0, i), only), groups[i], Seq::empty(), Seq::empty(), Seq::empty());
    } else {
        assert(groups.subrange(0, i) =~= groups);
    }
}

/// Summarises the given groups (only `only`, when given) with `today` as the
/// current day and adds up their counts; `None` when the number of records
/// does not fit in a `usize`.
pub fn stats_overview(
    groups: &[(i64, GroupStats)],
    start_date: &str,
    end_date: &str,
    today: &str,
    only: Option<i64>,
) -> (r: Option<StatsOverview>)
    ensures
        r is None <==> sum_renames(selected(groups@, only)) > usize::MAX,
        r matches Some(o) ==> o.total_renames == sum_renames(selected(groups@, only)),
        r matches Some(o) ==> o.today_renames == sum_today(selected(groups@, only), today@),
        r matches Some(o) ==> o.range_renames == sum_range(selected(groups@, only), start_date@, end_date@),
        r matches Some(o) ==> rows_summarise(o.groups@, selected(groups@, only), start_date@, end_date@, today@),
{
    let mut total: usize = 0;
    let mut today_n: usize = 0;
    let mut range_n: usize = 0;
    let mut rows: Vec<(i64, GroupSummary)> = Vec::new();
    let ghost gs = groups@;
    assert(gs.subrange(0, 0) =~= Seq::<(i64, GroupStats)>::empty());
    let mut i: usize = 0;
    while i < groups.len()
        invariant
            gs == groups@,
            i <= gs.len(),
            total == sum_renames(selected(gs.subrange(0, i as int), only)),
            today_n == sum_today(selected(gs.subrange(0, i as int), only), today@),
            range_n == sum_range(selected(gs.subrange(0, i as int), only), start_date@, end_date@),
            today_n <= total,
            range_n <= total,
            rows_summarise(rows@, selected(gs.subrange(0, i as int), only), start_date@, end_date@, today@),
        decreases gs.len() - i,
    {
        let ghost pre = gs.subrange(0, i as int);
        let ghost cur = gs.subrange(0, i + 1);
        let gid = groups[i].0;
        let keep = match only {
            None => true,
            Some(g) => g == gid,
        };
        proof {
            lemma_selected_step(gs, only, i as int);
            lemma_sums_push(selected(pre, only), gs[i as int], today@, start_date@, end_date@);
        }
        if keep {
            let st = &groups[i].1;
            let s = summarize_group_on(st, start_date, end_date, today);
            proof {
                st.records@.lemma_filter_len(on_day(today@));
                st.records@.lemma_filter_len(within(start_date@, end_date@));
            }
            match total.checked_add(s.rename_count) {
                None => {
                    proof {
                        lemma_selected_prefix(gs, only, i + 1);
                    }
                    return None;
                },
                Some(t) => {
                    total = t;
                },
            }
            today_n = today_n + s.today_count;
            range_n = range_n + s.range_count;
            let ghost before = rows@;
            let ghost sv = s;
            assert(summary_of(sv, gs[i as int].1, start_date@, end_date@, today@));
            rows.push((gid, s));
            assert(selected(cur, only) == selected(pre, only).push(gs[i as int]));
            assert forall|k: int| 0 <= k < rows@.len() implies #[trigger] rows@[k].0 == selected(cur, only)[k].0
                && summary_of(rows@[k].1, selected(cur, only)[k].1, start_date@, end_date@, today@) by {
                if k < before.len() {
                    assert(rows@[k] == before[k]);
                    assert(before[k].0 == selected(pre, only)[k].0);
                    assert(selected(cur, only)[k] == selected(pre, only)[k]);
                } else {
                    assert(rows@[k] == (gid, sv));
                    assert(selected(cur, only)[k] == gs[i as int]);
                }
            }
        } else {
            assert(selected(cur, only) == selected(pre, only));
        }
        i = i + 1;
    }
    assert(gs.subrange(0, i as int) =~= gs);
    Some(StatsOverview { total_renames: total, today_renames: today_n, range_renames: range_n, groups: rows })
}

} // verus!
