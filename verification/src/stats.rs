//! Rename records of one group and the queries over them.
//!
//! Record times are `YYYY-MM-DD HH:MM:SS` texts and are compared as
//! strings; a date-only upper bound covers its whole day.
use vstd::prelude::*;

use crate::text::{byte_len_is, chars_of, lemma_filter_step, starts_with, starts_with_chars, string_from};
use crate::paths::{joined, path_join};
use crate::utils::{date_text, decimal, decimal_chars, digit_char, now_date};
use crate::text::{all_digits, is_digit, copy_range, string_of};

verus! {

/// One rename that the bot carried out.
#[derive(Debug, Clone)]
pub struct RenameRecord {
    pub old_name: String,
    pub new_name: String,
    pub user_id: i64,
    pub time: String,
    pub code: String,
}

/// The records of one group, oldest first.
#[derive(Debug)]
pub struct GroupStats {
    pub group_id: i64,
    pub records: Vec<RenameRecord>,
}

impl Default for GroupStats {
    fn default() -> (r: Self)
        ensures
            r.group_id == 0,
            r.records@.len() == 0,
    {
        GroupStats { group_id: 0, records: Vec::new() }
    }
}

/// `a` sorts strictly before `b`, comparing from position `i` on
/// (lexicographic order by code point, which is the order of `str`).
pub open spec fn lex_lt_from(a: Seq<char>, b: Seq<char>, i: int) -> bool
    decreases a.len() - i,
{
    if i < 0 || i >= a.len() {
        0 <= i < b.len()
    } else if i >= b.len() {
        false
    } else if a[i] != b[i] {
        (a[i] as u32) < (b[i] as u32)
    } else {
        lex_lt_from(a, b, i + 1)
    }
}

/// `a < b` as strings.
pub open spec fn lex_lt(a: Seq<char>, b: Seq<char>) -> bool {
    lex_lt_from(a, b, 0)
}

/// The upper bound of a range: a ten-byte date is widened to the last
/// second of that day.
pub open spec fn range_end_of(end_date: Seq<char>) -> Seq<char> {
    if vstd::utf8::encode_utf8(end_date).len() == 10 {
        end_date + " 23:59:59"@
    } else {
        end_date
    }
}

/// `start <= time <= range_end_of(end)`.
pub open spec fn in_range(time: Seq<char>, start: Seq<char>, end_date: Seq<char>) -> bool {
    !lex_lt(time, start) && !lex_lt(range_end_of(end_date), time)
}

/// Records whose time lies in the range.
pub open spec fn within(start: Seq<char>, end_date: Seq<char>) -> spec_fn(RenameRecord) -> bool {
    |r: RenameRecord| in_range(r.time@, start, end_date)
}

/// Records whose time lies outside the range.
pub open spec fn outside(start: Seq<char>, end_date: Seq<char>) -> spec_fn(RenameRecord) -> bool {
    |r: RenameRecord| !in_range(r.time@, start, end_date)
}

/// Records made on the given day.
pub open spec fn on_day(day: Seq<char>) -> spec_fn(RenameRecord) -> bool {
    |r: RenameRecord| starts_with(r.time@, day)
}

/// The records after a new one is added and the oldest are dropped beyond
/// `max` records.
pub open spec fn after_add(records: Seq<RenameRecord>, rec: RenameRecord, max: nat) -> Seq<RenameRecord> {
    let s = records.push(rec);
    if s.len() > max {
        s.subrange(s.len() - max, s.len() as int)
    } else {
        s
    }
}

fn lex_lt_chars(a: &[char], b: &[char]) -> (r: bool)
    ensures
        r == lex_lt(a@, b@),
{
    let mut i: usize = 0;
    while i < a.len() && i < b.len() && a[i] == b[i]
        invariant
            i <= a@.len(),
            i <= b@.len(),
            lex_lt_from(a@, b@, i as int) == lex_lt(a@, b@),
        decreases a@.len() - i,
    {
        i = i + 1;
    }
    if i >= a.len() {
        i < b.len()
    } else if i >= b.len() {
        false
    } else {
        (a[i] as u32) < (b[i] as u32)
    }
}

/// The upper bound of a range (see `range_end_of`).
pub fn range_end(end_date: &str) -> (r: String)
    ensures
        r@ == range_end_of(end_date@),
{
    let mut r = string_from(end_date);
    if byte_len_is(end_date, 10) {
        r.append(" 23:59:59");
    }
    r
}

fn time_in_range(time: &str, start: &[char], end: &[char]) -> (r: bool)
    ensures
        r == (!lex_lt(time@, start@) && !lex_lt(end@, time@)),
{
    let t = chars_of(time);
    !lex_lt_chars(&t, start) && !lex_lt_chars(end, &t)
}

impl GroupStats {
    /// Appends a record and keeps only the newest `max_records`.
    pub fn add_record(&mut self, record: RenameRecord, max_records: usize)
        ensures
            final(self).group_id == old(self).group_id,
            final(self).records@ == after_add(old(self).records@, record, max_records as nat),
    {
        self.records.push(record);
        if self.records.len() > max_records {
            let at = self.records.len() - max_records;
            let kept = self.records.split_off(at);
            self.records = kept;
        }
    }

    /// How many records were made on `day` (their time starts with it).
    pub fn count_on_day(&self, day: &str) -> (r: usize)
        ensures
            r == self.records@.filter(on_day(day@)).len(),
    {
        let d = chars_of(day);
        let mut n: usize = 0;
        for i in 0..self.records.len()
            invariant
                d@ == day@,
                n == self.records@.subrange(0, i as int).filter(on_day(day@)).len(),
                n <= i,
        {
            let t = chars_of(self.records[i].time.as_str());
            proof { lemma_filter_step(self.records@, i as int, on_day(day@)); }
            if starts_with_chars(&t, &d) {
                n = n + 1;
            }
        }
        assert(self.records@.subrange(0, self.records@.len() as int) =~= self.records@);
        n
    }

    /// How many records were made today (local date).
    pub fn count_today(&self) -> (r: usize)
        ensures
            exists|y: nat, m: nat, d: nat|
                1 <= m <= 12 && 1 <= d <= 31 && r == self.records@.filter(on_day(date_text(y, m, d))).len(),
    {
        let today = now_date();
        self.count_on_day(today.as_str())
    }

    /// How many records lie in `start_date ..= end_date`.
    pub fn count_in_range(&self, start_date: &str, end_date: &str) -> (r: usize)
        ensures
            r == self.records@.filter(within(start_date@, end_date@)).len(),
    {
        let s = chars_of(start_date);
        let end = range_end(end_date);
        let e = chars_of(end.as_str());
        let mut n: usize = 0;
        for i in 0..self.records.len()
            invariant
                s@ == start_date@,
                e@ == range_end_of(end_date@),
                n == self.records@.subrange(0, i as int).filter(within(start_date@, end_date@)).len(),
                n <= i,
        {
            proof { lemma_filter_step(self.records@, i as int, within(start_date@, end_date@)); }
            if time_in_range(self.records[i].time.as_str(), &s, &e) {
                n = n + 1;
            }
        }
        assert(self.records@.subrange(0, self.records@.len() as int) =~= self.records@);
        n
    }

    /// The records that lie in `start_date ..= end_date`, oldest first.
    pub fn get_records_in_range(&self, start_date: &str, end_date: &str) -> (r: Vec<&RenameRecord>)
        ensures
            r@.map_values(|x: &RenameRecord| *x) == self.records@.filter(within(start_date@, end_date@)),
    {
        let s = chars_of(start_date);
        let end = range_end(end_date);
        let e = chars_of(end.as_str());
        let mut out: Vec<&RenameRecord> = Vec::new();
        for i in 0..self.records.len()
            invariant
                s@ == start_date@,
                e@ == range_end_of(end_date@),
                out@.map_values(|x: &RenameRecord| *x) == self.records@.subrange(0, i as int).filter(
                    within(start_date@, end_date@),
                ),
        {
            proof { lemma_filter_step(self.records@, i as int, within(start_date@, end_date@)); }
            let rec = &self.records[i];
            if time_in_range(rec.time.as_str(), &s, &e) {
                let ghost before = out@;
                out.push(rec);
                assert(out@.map_values(|x: &RenameRecord| *x) =~= before.map_values(
                    |x: &RenameRecord| *x,
                ).push(*rec));
            }
        }
        assert(self.records@.subrange(0, self.records@.len() as int) =~= self.records@);
        out
    }

    /// Removes the records that lie in `start_date ..= end_date` and tells
    /// how many went; the others stay in order.
    pub fn delete_records_in_range(&mut self, start_date: &str, end_date: &str) -> (r: usize)
        ensures
            final(self).group_id == old(self).group_id,
            final(self).records@ == old(self).records@.filter(outside(start_date@, end_date@)),
            r == old(self).records@.len() - final(self).records@.len(),
    {
        let s = chars_of(start_date);
        let end = range_end(end_date);
        let e = chars_of(end.as_str());
        let before = self.records.len();
        let mut all: Vec<RenameRecord> = Vec::new();
        std::mem::swap(&mut self.records, &mut all);
        let ghost src = all@;
        let mut kept: Vec<RenameRecord> = Vec::new();
        for rec in it: all
            invariant
                s@ == start_date@,
                e@ == range_end_of(end_date@),
                it.seq() == src,
                kept@ == src.subrange(0, it.index()).filter(outside(start_date@, end_date@)),
        {
            proof { lemma_filter_step(src, it.index(), outside(start_date@, end_date@)); }
            if !time_in_range(rec.time.as_str(), &s, &e) {
                kept.push(rec);
            }
        }
        assert(src.subrange(0, src.len() as int) =~= src);
        proof {
            src.lemma_filter_len(outside(start_date@, end_date@));
        }
        self.records = kept;
        before - self.records.len()
    }

    /// Drops every record.
    pub fn clear(&mut self)
        ensures
            final(self).group_id == old(self).group_id,
            final(self).records@.len() == 0,
    {
        self.records.clear();
    }
}


/// Every record lies either in a range or outside it: what
/// `count_in_range` counts and what `delete_records_in_range` keeps add up
/// to all records, so the number deleted is the number counted.
pub proof fn lemma_range_partition(records: Seq<RenameRecord>, start: Seq<char>, end_date: Seq<char>)
    ensures
        records.filter(within(start, end_date)).len() + records.filter(outside(start, end_date)).len()
            == records.len(),
    decreases records.len(),
{
    reveal(Seq::filter);
    if records.len() > 0 {
        lemma_range_partition(records.drop_last(), start, end_date);
    }
}

/// Once a range is deleted, no record is left in it.
pub proof fn lemma_deleted_range_is_empty(records: Seq<RenameRecord>, start: Seq<char>, end_date: Seq<char>)
    ensures
        records.filter(outside(start, end_date)).filter(within(start, end_date)).len() == 0,
    decreases records.len(),
{
    reveal(Seq::filter);
    if records.len() > 0 {
        let prev = records.drop_last().filter(outside(start, end_date));
        lemma_deleted_range_is_empty(records.drop_last(), start, end_date);
        let f = records.filter(outside(start, end_date));
        if outside(start, end_date)(records.last()) {
            assert(f == prev.push(records.last()));
            assert(f.drop_last() =~= prev);
            assert(f.last() == records.last());
        }
    }
}

/// Adding a record keeps at most `max` records, the newest of them last,
/// and the survivors are the newest of the old records in their order.
pub proof fn lemma_add_keeps_newest(records: Seq<RenameRecord>, rec: RenameRecord, max: nat)
    ensures
        after_add(records, rec, max).len() == if records.len() + 1 > max {
            max
        } else {
            records.len() + 1
        },
        max > 0 ==> after_add(records, rec, max).last() == rec,
        after_add(records, rec, max).is_suffix_of(records.push(rec)),
{
    let s = records.push(rec);
    if s.len() > max {
        assert(s.subrange(s.len() - max, s.len() as int) =~= s.subrange(
            s.len() - after_add(records, rec, max).len(),
            s.len() as int,
        ));
    } else {
        assert(s.subrange(0, s.len() as int) =~= s);
    }
}


/// The value of an ASCII digit.
pub open spec fn digit_value(c: char) -> int {
    (c as u32) as int - 48
}

/// The number that a string of ASCII digits spells.
pub open spec fn digits_value(s: Seq<char>) -> int
    decreases s.len(),
{
    if s.len() == 0 {
        0
    } else {
        digits_value(s.drop_last()) * 10 + digit_value(s.last())
    }
}

/// `str::parse::<i64>`: an optional `+` or `-`, then at least one ASCII
/// digit and nothing else, within the range of `i64`.
pub open spec fn parse_i64(s: Seq<char>) -> Option<i64> {
    let neg = s.len() > 0 && s[0] == '-';
    let body = if s.len() > 0 && (s[0] == '-' || s[0] == '+') {
        s.subrange(1, s.len() as int)
    } else {
        s
    };
    if body.len() == 0 || !all_digits(body) {
        None
    } else {
        let v = if neg {
            -digits_value(body)
        } else {
            digits_value(body)
        };
        if i64::MIN <= v <= i64::MAX {
            Some(v as i64)
        } else {
            None
        }
    }
}

/// A number in decimal, with a `-` when negative.
pub open spec fn int_text(g: int) -> Seq<char> {
    if g < 0 {
        seq!['-'] + decimal((-g) as nat)
    } else {
        decimal(g as nat)
    }
}

/// The group whose statistics a file holds, from the file's name
/// `<group id>.json`.
pub open spec fn group_of_file(name: Seq<char>) -> Option<i64> {
    if name.len() >= 5 && name.subrange(name.len() - 5, name.len() as int) == ".json"@ {
        parse_i64(name.subrange(0, name.len() - 5))
    } else {
        None
    }
}

proof fn lemma_digits_value_nonneg_mono(s: Seq<char>, k: int)
    requires
        all_digits(s),
        0 <= k <= s.len(),
    ensures
        0 <= digits_value(s.subrange(0, k)) <= digits_value(s),
    decreases s.len(),
{
    if s.len() > 0 {
        let d = s.drop_last();
        assert(all_digits(d)) by {
            assert forall|i: int| 0 <= i < d.len() implies is_digit(#[trigger] d[i]) by {
                assert(d[i] == s[i]);
            }
        }
        assert(is_digit(s[s.len() - 1]));
        if k == s.len() {
            assert(s.subrange(0, k) =~= s);
            lemma_digits_value_nonneg_mono(d, d.len() as int);
            assert(d.subrange(0, d.len() as int) =~= d);
        } else {
            lemma_digits_value_nonneg_mono(d, k);
            assert(d.subrange(0, k) =~= s.subrange(0, k));
            lemma_digits_value_nonneg_mono(d, d.len() as int);
            assert(d.subrange(0, d.len() as int) =~= d);
        }
    } else {
        assert(s.subrange(0, k) =~= s);
    }
}

/// Parses a decimal `i64` as `str::parse` does.
pub fn parse_i64_chars(s: &[char]) -> (r: Option<i64>)
    ensures
        r == parse_i64(s@),
{
    let neg = s.len() > 0 && s[0] == '-';
    let start: usize = if s.len() > 0 && (s[0] == '-' || s[0] == '+') {
        1
    } else {
        0
    };
    let body = copy_range(s, start, s.len());
    assert(s@.subrange(0, s@.len() as int) =~= s@);
    if body.len() == 0 {
        return None;
    }
    let limit: u128 = if neg {
        9223372036854775808
    } else {
        9223372036854775807
    };
    let mut acc: u128 = 0;
    let mut k: usize = 0;
    while k < body.len()
        invariant
            body@ == if s@.len() > 0 && (s@[0] == '-' || s@[0] == '+') {
                s@.subrange(1, s@.len() as int)
            } else {
                s@
            },
            neg == (s@.len() > 0 && s@[0] == '-'),
            limit == if neg {
                9223372036854775808u128
            } else {
                9223372036854775807u128
            },
            k <= body@.len(),
            forall|i: int| 0 <= i < k ==> is_digit(#[trigger] body@[i]),
            acc == digits_value(body@.subrange(0, k as int)),
            acc <= limit,
            limit <= 9223372036854775808,
        decreases body@.len() - k,
    {
        let c = body[k];
        if !('0' <= c && c <= '9') {
            assert(!is_digit(body@[k as int]));
            return None;
        }
        let d = (c as u32 - 48) as u128;
        assert(body@.subrange(0, k + 1).drop_last() =~= body@.subrange(0, k as int));
        acc = acc * 10 + d;
        k = k + 1;
        if acc > limit {
            proof {
                if all_digits(body@) {
                    lemma_digits_value_nonneg_mono(body@, k as int);
                }
            }
            return None;
        }
    }
    assert(body@.subrange(0, body@.len() as int) =~= body@);
    if neg {
        if acc == 9223372036854775808 {
            Some(i64::MIN)
        } else {
            Some(-(acc as i64))
        }
    } else {
        Some(acc as i64)
    }
}

/// The group whose statistics a file holds, from the file's name.
pub fn group_id_of_file_name(name: &str) -> (r: Option<i64>)
    ensures
        r == group_of_file(name@),
{
    let v = chars_of(name);
    let suffix = chars_of(".json");
    proof {
        reveal_strlit(".json");
    }
    if v.len() < 5 {
        return None;
    }
    let tail = copy_range(&v, v.len() - 5, v.len());
    if !crate::text::chars_eq(&tail, &suffix) {
        return None;
    }
    let head = copy_range(&v, 0, v.len() - 5);
    parse_i64_chars(&head)
}

/// The name of the file holding a group's statistics, `<group id>.json`.
pub fn group_file_name(group_id: i64) -> (r: String)
    ensures
        r@ == int_text(group_id as int) + ".json"@,
{
    let mut v: Vec<char> = Vec::new();
    if group_id < 0 {
        v.push('-');
        let m: u64 = (-(group_id as i128)) as u64;
        let d = decimal_chars(m);
        let mut i: usize = 0;
        while i < d.len()
            invariant
                i <= d@.len(),
                v@ == seq!['-'] + d@.subrange(0, i as int),
            decreases d@.len() - i,
        {
            v.push(d[i]);
            i = i + 1;
            assert(v@ =~= seq!['-'] + d@.subrange(0, i as int));
        }
        assert(d@.subrange(0, d@.len() as int) =~= d@);
    } else {
        v = decimal_chars(group_id as u64);
    }
    let mut r = string_of(&v);
    r.append(".json");
    r
}

proof fn lemma_digit_char(d: int)
    requires
        0 <= d < 10,
    ensures
        digit_value(digit_char(d)) == d,
        is_digit(digit_char(d)),
{
    if d == 0 {
        assert(('0' as u32) == 48);
    } else if d == 1 {
        assert(('1' as u32) == 49);
    } else if d == 2 {
        assert(('2' as u32) == 50);
    } else if d == 3 {
        assert(('3' as u32) == 51);
    } else if d == 4 {
        assert(('4' as u32) == 52);
    } else if d == 5 {
        assert(('5' as u32) == 53);
    } else if d == 6 {
        assert(('6' as u32) == 54);
    } else if d == 7 {
        assert(('7' as u32) == 55);
    } else if d == 8 {
        assert(('8' as u32) == 56);
    } else {
        assert(('9' as u32) == 57);
    }
}

proof fn lemma_decimal_digits(n: nat)
    ensures
        decimal(n).len() > 0,
        all_digits(decimal(n)),
        digits_value(decimal(n)) == n,
    decreases n,
{
    reveal_with_fuel(decimal, 2);
    if n < 10 {
        lemma_digit_char(n as int);
        let d = decimal(n);
        assert(d.drop_last() =~= Seq::<char>::empty());
        assert(d.last() == digit_char(n as int));
        assert(digits_value(d) == digits_value(d.drop_last()) * 10 + digit_value(d.last()));
        assert(digits_value(Seq::<char>::empty()) == 0);
    } else {
        lemma_decimal_digits(n / 10);
        lemma_digit_char((n % 10) as int);
        let d = decimal(n);
        assert(d.drop_last() =~= decimal(n / 10));
        assert(d.last() == digit_char((n % 10) as int));
        assert(digits_value(d) == digits_value(decimal(n / 10)) * 10 + digit_value(d.last()));
        assert((n / 10) * 10 + n % 10 == n);
        assert forall|i: int| 0 <= i < d.len() implies is_digit(#[trigger] d[i]) by {
            if i < d.len() - 1 {
                assert(d[i] == decimal(n / 10)[i]);
            }
        }
    }
}

/// A group's file name gives back that group.
pub proof fn lemma_file_name_round_trip(group_id: i64)
    ensures
        group_of_file(int_text(group_id as int) + ".json"@) == Some(group_id),
{
    reveal_strlit(".json");
    let t = int_text(group_id as int);
    let name = t + ".json"@;
    assert(name.subrange(name.len() - 5, name.len() as int) =~= ".json"@);
    assert(name.subrange(0, name.len() - 5) =~= t);
    if group_id < 0 {
        lemma_decimal_digits((-group_id) as nat);
        assert(t.subrange(1, t.len() as int) =~= decimal((-group_id) as nat));
    } else {
        lemma_decimal_digits(group_id as nat);
        let d = decimal(group_id as nat);
        assert(is_digit(d[0]));
    }
}


/// The groups of a directory listing: the names that are `<group id>.json`,
/// in listing order.
pub open spec fn groups_of_names(names: Seq<Seq<char>>) -> Seq<i64>
    decreases names.len(),
{
    if names.len() == 0 {
        Seq::empty()
    } else {
        let rest = groups_of_names(names.drop_last());
        match group_of_file(names.last()) {
            Some(g) => rest.push(g),
            None => rest,
        }
    }
}

/// The groups whose statistics files a directory listing shows.
pub fn group_ids_of_names(names: &[String]) -> (r: Vec<i64>)
    ensures
        r@ == groups_of_names(names@.map_values(|n: String| n@)),
{
    let ghost nv = names@.map_values(|n: String| n@);
    let mut r: Vec<i64> = Vec::new();
    let mut i: usize = 0;
    while i < names.len()
        invariant
            nv == names@.map_values(|n: String| n@),
            i <= names@.len(),
            r@ == groups_of_names(nv.subrange(0, i as int)),
        decreases names@.len() - i,
    {
        assert(nv.subrange(0, i + 1).drop_last() =~= nv.subrange(0, i as int));
        assert(nv.subrange(0, i + 1).last() == names@[i as int]@);
        if let Some(g) = group_id_of_file_name(names[i].as_str()) {
            r.push(g);
        }
        i = i + 1;
    }
    assert(nv.subrange(0, names@.len() as int) =~= nv);
    r
}

proof fn lemma_groups_of_names_contains(names: Seq<Seq<char>>, k: int, g: i64)
    requires
        0 <= k < names.len(),
        group_of_file(names[k]) == Some(g),
    ensures
        groups_of_names(names).contains(g),
    decreases names.len(),
{
    let rest = groups_of_names(names.drop_last());
    if k == names.len() - 1 {
        assert(groups_of_names(names) == rest.push(g));
        assert(rest.push(g)[rest.len() as int] == g);
    } else {
        assert(names.drop_last()[k] == names[k]);
        lemma_groups_of_names_contains(names.drop_last(), k, g);
        let j = choose|j: int| 0 <= j < rest.len() && rest[j] == g;
        match group_of_file(names.last()) {
            Some(h) => {
                assert(rest.push(h)[j] == g);
            },
            None => {},
        }
    }
}

/// Once a group's statistics file is in the directory, the listing shows
/// the group.
pub proof fn lemma_saved_group_is_listed(names: Seq<Seq<char>>, group_id: i64)
    requires
        names.contains(int_text(group_id as int) + ".json"@),
    ensures
        groups_of_names(names).contains(group_id),
{
    let k = choose|k: int| 0 <= k < names.len() && names[k] == int_text(group_id as int) + ".json"@;
    lemma_file_name_round_trip(group_id);
    lemma_groups_of_names_contains(names, k, group_id);
}

/// Where the per-group statistics files live: `<base>/stats/<group>.json`.
#[derive(Debug)]
pub struct StatsManager {
    base_dir: std::path::PathBuf,
}

impl StatsManager {
    pub fn new(base_dir: std::path::PathBuf) -> (r: Self)
        ensures
            r.base_dir() == base_dir,
    {
        StatsManager { base_dir }
    }

    pub closed spec fn base_dir(&self) -> std::path::PathBuf {
        self.base_dir
    }

    /// The directory of the statistics files, `<base>/stats`.
    pub fn group_dir(&self) -> (r: std::path::PathBuf)
        ensures
            r == joined(self.base_dir(), "stats"@),
    {
        path_join(&self.base_dir, "stats")
    }

    /// The statistics file of a group, `<base>/stats/<group id>.json`.
    pub fn group_path(&self, group_id: i64) -> (r: std::path::PathBuf)
        ensures
            r == joined(joined(self.base_dir(), "stats"@), int_text(group_id as int) + ".json"@),
    {
        let name = group_file_name(group_id);
        path_join(&self.group_dir(), name.as_str())
    }
}

} // verus!
