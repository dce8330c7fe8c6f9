//! Writing a room code into a group name.
//!
//! The code goes in front of the name (`end == false`) or behind it
//! (`end == true`); a code already standing at that place is replaced, and
//! a name that grows past the limit loses characters of its own part, never
//! of the code.
use vstd::prelude::*;

use crate::text::{all_digits, chars_of, copy_range, digits_in, drop_white_before, is_ascii_space, lemma_drop_white_bounds,
    is_ascii_space_char, is_code, is_white, string_of, trim_end, trim_end_chars};

verus! {

/// Longest group name, in characters.
pub const GROUP_NAME_MAX_LEN: usize = 60;

/// No line feed anywhere in `s`.
pub open spec fn no_newline(s: Seq<char>) -> bool {
    forall|i: int| 0 <= i < s.len() ==> s[i] != '\n'
}

/// Index just past the run of ASCII spaces that starts at `i`.
pub open spec fn skip_space_from(s: Seq<char>, i: int) -> int
    decreases s.len() - i,
{
    if 0 <= i < s.len() && is_ascii_space(s[i]) {
        skip_space_from(s, i + 1)
    } else {
        i
    }
}

/// A name that starts with a code: five ASCII digits, at least one ASCII
/// space, then the rest of the name on one line.  Gives that rest (when the
/// name ends in the spaces, the last space is the rest).
pub open spec fn head_body(n: Seq<char>) -> Option<Seq<char>> {
    if n.len() < 5 || !all_digits(n.subrange(0, 5)) {
        None
    } else {
        let e = skip_space_from(n, 5);
        if e == 5 {
            None
        } else if e < n.len() {
            if no_newline(n.subrange(e, n.len() as int)) {
                Some(n.subrange(e, n.len() as int))
            } else {
                None
            }
        } else if e - 5 >= 2 && n[n.len() - 1] != '\n' {
            Some(n.subrange(n.len() - 1, n.len() as int))
        } else {
            None
        }
    }
}

/// A name that ends with a code.  `Some(None)`: the name is the code alone;
/// `Some(Some(p))`: the code follows `p`, a single line ending in an ASCII
/// space; `None`: no code at the end.
pub open spec fn tail_prefix(n: Seq<char>) -> Option<Option<Seq<char>>> {
    if n.len() < 5 || !all_digits(n.subrange(n.len() - 5, n.len() as int)) {
        None
    } else if n.len() == 5 {
        Some(None)
    } else {
        let p = n.subrange(0, n.len() - 5);
        if is_ascii_space(p[p.len() - 1]) && no_newline(p.subrange(0, p.len() - 1)) {
            Some(Some(p))
        } else {
            None
        }
    }
}

/// The part of the old name that is kept, once an old code is taken away.
pub open spec fn base_name(old: Seq<char>, end: bool) -> Seq<char> {
    if !end {
        match head_body(old) {
            Some(b) => b,
            None => if is_code(old) {
                Seq::empty()
            } else {
                old
            },
        }
    } else {
        match tail_prefix(old) {
            Some(Some(p)) => trim_end(p),
            Some(None) => Seq::empty(),
            None => old,
        }
    }
}

/// The code and the kept part, separated by one space.
pub open spec fn join_name(base: Seq<char>, code: Seq<char>, end: bool) -> Seq<char> {
    if base.len() == 0 {
        code
    } else if !end {
        code + seq![' '] + base
    } else {
        base + seq![' '] + code
    }
}

/// The new name and whether the kept part had to be shortened.
pub open spec fn renamed(old: Seq<char>, code: Seq<char>, end: bool) -> (Seq<char>, bool) {
    let base = base_name(old, end);
    let full = join_name(base, code, end);
    if full.len() <= GROUP_NAME_MAX_LEN {
        (full, false)
    } else {
        let overflow = full.len() - GROUP_NAME_MAX_LEN;
        let kept = if base.len() > overflow {
            if !end {
                base.subrange(0, base.len() - overflow)
            } else {
                base.subrange(overflow, base.len() as int)
            }
        } else {
            Seq::empty()
        };
        (join_name(kept, code, end), true)
    }
}

fn skip_spaces(v: &[char], i: usize) -> (r: usize)
    requires
        i <= v@.len(),
    ensures
        r as int == skip_space_from(v@, i as int),
        i <= r <= v@.len(),
{
    let mut k = i;
    while k < v.len() && is_ascii_space_char(v[k])
        invariant
            i <= k <= v@.len(),
            skip_space_from(v@, k as int) == skip_space_from(v@, i as int),
        decreases v@.len() - k,
    {
        k = k + 1;
    }
    k
}

fn newline_free(v: &[char], a: usize, b: usize) -> (r: bool)
    requires
        a <= b <= v@.len(),
    ensures
        r == no_newline(v@.subrange(a as int, b as int)),
{
    let mut i = a;
    while i < b
        invariant
            a <= i <= b <= v@.len(),
            forall|k: int| a <= k < i ==> v@[k] != '\n',
        decreases b - i,
    {
        if v[i] == '\n' {
            assert(v@.subrange(a as int, b as int)[i - a] == '\n');
            return false;
        }
        i = i + 1;
    }
    assert forall|k: int| 0 <= k < b - a implies v@.subrange(a as int, b as int)[k] != '\n' by {
        assert(v@.subrange(a as int, b as int)[k] == v@[a + k]);
    }
    true
}

/// Where the kept part of a code-first name starts and ends.
fn head_span(v: &[char]) -> (r: Option<(usize, usize)>)
    ensures
        match r {
            Some((a, b)) => a <= b <= v@.len() && head_body(v@) == Some(v@.subrange(a as int, b as int)),
            None => head_body(v@) is None,
        },
{
    if v.len() < 5 || !digits_in(v, 0, 5) {
        return None;
    }
    let e = skip_spaces(v, 5);
    if e == 5 {
        None
    } else if e < v.len() {
        if newline_free(v, e, v.len()) {
            Some((e, v.len()))
        } else {
            None
        }
    } else if e - 5 >= 2 && v[v.len() - 1] != '\n' {
        Some((v.len() - 1, v.len()))
    } else {
        None
    }
}

/// Whether a name ends with a code, and whether something stands before it.
fn tail_match(v: &[char]) -> (r: Option<bool>)
    ensures
        match r {
            Some(true) => v@.len() > 5 && tail_prefix(v@) == Some(Some(v@.subrange(0, v@.len() - 5))),
            Some(false) => tail_prefix(v@) == Some(None::<Seq<char>>),
            None => tail_prefix(v@) is None,
        },
{
    if v.len() < 5 || !digits_in(v, v.len() - 5, v.len()) {
        return None;
    }
    if v.len() == 5 {
        return Some(false);
    }
    let p = v.len() - 5;
    if is_ascii_space_char(v[p - 1]) && newline_free(v, 0, p - 1) {
        proof {
            let ps = v@.subrange(0, p as int);
            assert(ps[ps.len() - 1] == v@[p - 1]);
            assert(ps.subrange(0, ps.len() - 1) =~= v@.subrange(0, p - 1));
        }
        Some(true)
    } else {
        proof {
            let ps = v@.subrange(0, p as int);
            assert(ps[ps.len() - 1] == v@[p - 1]);
            assert(ps.subrange(0, ps.len() - 1) =~= v@.subrange(0, p - 1));
        }
        None
    }
}

/// The kept part of the old name.
fn base_of(old: &[char], end: bool) -> (r: Vec<char>)
    ensures
        r@ == base_name(old@, end),
{
    if !end {
        match head_span(old) {
            Some((a, b)) => copy_range(old, a, b),
            None => {
                if old.len() == 5 && digits_in(old, 0, 5) {
                    assert(old@.subrange(0, 5) =~= old@);
                    Vec::new()
                } else {
                    proof {
                        if is_code(old@) {
                            assert(old@.subrange(0, 5) =~= old@);
                        }
                    }
                    copy_range(old, 0, old.len())
                }
            },
        }
    } else {
        match tail_match(old) {
            Some(true) => {
                let p = copy_range(old, 0, old.len() - 5);
                trim_end_chars(&p)
            },
            Some(false) => Vec::new(),
            None => copy_range(old, 0, old.len()),
        }
    }
}

fn append_chars(dst: &mut Vec<char>, src: &[char])
    ensures
        final(dst)@ == old(dst)@ + src@,
{
    let ghost start = dst@;
    for i in 0..src.len()
        invariant
            dst@ == start + src@.subrange(0, i as int),
    {
        dst.push(src[i]);
        assert(start + src@.subrange(0, i + 1) =~= start + src@.subrange(0, i as int) + seq![src@[i as int]]);
    }
    assert(src@.subrange(0, src@.len() as int) =~= src@);
}

fn join_chars(base: &[char], code: &[char], end: bool) -> (r: Vec<char>)
    ensures
        r@ == join_name(base@, code@, end),
{
    let mut r: Vec<char> = Vec::new();
    if base.len() == 0 {
        append_chars(&mut r, code);
        assert(r@ =~= code@);
    } else if !end {
        append_chars(&mut r, code);
        r.push(' ');
        append_chars(&mut r, base);
        assert(r@ =~= code@ + seq![' '] + base@);
    } else {
        append_chars(&mut r, base);
        r.push(' ');
        append_chars(&mut r, code);
        assert(r@ =~= base@ + seq![' '] + code@);
    }
    r
}

/// The new group name for `new_code`, and whether the old part was cut to
/// keep the name within the limit.
pub fn compute_new_name(old_name: &str, new_code: &str, end: bool) -> (r: (String, bool))
    ensures
        (r.0@, r.1) == renamed(old_name@, new_code@, end),
{
    let old = chars_of(old_name);
    let code = chars_of(new_code);
    let base = base_of(&old, end);
    let full = join_chars(&base, &code, end);
    if full.len() <= GROUP_NAME_MAX_LEN {
        return (string_of(&full), false);
    }
    let overflow = full.len() - GROUP_NAME_MAX_LEN;
    let kept = if base.len() > overflow {
        if !end {
            copy_range(&base, 0, base.len() - overflow)
        } else {
            copy_range(&base, overflow, base.len())
        }
    } else {
        Vec::new()
    };
    let name = join_chars(&kept, &code, end);
    (string_of(&name), true)
}


/// The kept part can stand next to a code and be recognised again: it holds
/// no line feed, and it does not start (code first) with an ASCII space or
/// end (code last) with white space.
pub open spec fn stands_alone(base: Seq<char>, end: bool) -> bool {
    &&& no_newline(base)
    &&& base.len() > 0 ==> if !end {
        !is_ascii_space(base[0])
    } else {
        !is_white(base[base.len() - 1])
    }
}

proof fn lemma_kept_part_comes_back(k: Seq<char>, c: Seq<char>, end: bool)
    requires
        is_code(c),
        stands_alone(k, end),
    ensures
        base_name(join_name(k, c, end), end) == k,
{
    let n = join_name(k, c, end);
    if k.len() == 0 {
        assert(n.subrange(0, 5) =~= c);
        assert(n.subrange(n.len() - 5, n.len() as int) =~= c);
        assert(skip_space_from(n, 5) == 5);
        assert(is_code(n));
    } else if !end {
        assert(n.subrange(0, 5) =~= c);
        assert(n[5] == ' ');
        assert(n[6] == k[0]);
        assert(skip_space_from(n, 6) == 6);
        assert(skip_space_from(n, 5) == 6);
        assert(n.subrange(6, n.len() as int) =~= k);
    } else {
        assert(n.subrange(n.len() - 5, n.len() as int) =~= c);
        let p = n.subrange(0, n.len() - 5);
        assert(p =~= k + seq![' ']);
        assert(p.subrange(0, p.len() - 1) =~= k);
        assert(p[p.len() - 1] == ' ');
        assert(p[p.len() - 2] == k[k.len() - 1]);
        assert(drop_white_before(p, p.len() - 1) == p.len() - 1);
        assert(drop_white_before(p, p.len() as int) == p.len() - 1);
        assert(trim_end(p) =~= k);
    }
}

/// Writing a second code into a renamed group gives the same name as writing
/// that code into the old name: the first code is taken out again and
/// replaced, and the kept part is the same.  The second rename never has to
/// cut anything, and when the first did not cut either, both results (name
/// and flag) equal those of writing the second code into the old name.
/// Holds for room codes when the kept part of the old name `stands_alone`.
pub proof fn lemma_new_code_replaces_old(old: Seq<char>, c1: Seq<char>, c2: Seq<char>, end: bool)
    requires
        is_code(c1),
        is_code(c2),
        stands_alone(base_name(old, end), end),
    ensures
        renamed(renamed(old, c1, end).0, c2, end).0 == renamed(old, c2, end).0,
        !renamed(renamed(old, c1, end).0, c2, end).1,
        renamed(old, c1, end).1 == renamed(old, c2, end).1,
        !renamed(old, c1, end).1 ==> renamed(renamed(old, c1, end).0, c2, end) == renamed(old, c2, end),
{
    let b = base_name(old, end);
    let full = join_name(b, c1, end);
    assert(join_name(b, c2, end).len() == full.len());
    if full.len() <= GROUP_NAME_MAX_LEN {
        lemma_kept_part_comes_back(b, c1, end);
        assert(join_name(b, c2, end).len() <= GROUP_NAME_MAX_LEN);
    } else {
        let overflow = full.len() - GROUP_NAME_MAX_LEN;
        let k = if !end {
            b.subrange(0, b.len() - overflow)
        } else {
            b.subrange(overflow, b.len() as int)
        };
        if !end {
            assert(k[0] == b[0]);
        } else {
            assert(k[k.len() - 1] == b[b.len() - 1]);
        }
        assert forall|i: int| 0 <= i < k.len() implies k[i] != '\n' by {
            if !end {
                assert(k[i] == b[i]);
            } else {
                assert(k[i] == b[overflow + i]);
            }
        }
        lemma_kept_part_comes_back(k, c1, end);
        if b.len() > overflow {
            assert(join_name(k, c1, end).len() == GROUP_NAME_MAX_LEN);
        } else {
            lemma_kept_part_comes_back(Seq::empty(), c1, end);
        }
    }
}

proof fn lemma_space_is_white(c: char)
    requires
        is_ascii_space(c),
    ensures
        is_white(c),
{
}

proof fn lemma_skip_space_bounds(s: Seq<char>, i: int)
    requires
        0 <= i <= s.len(),
    ensures
        i <= skip_space_from(s, i) <= s.len(),
        skip_space_from(s, i) < s.len() ==> !is_ascii_space(s[skip_space_from(s, i)]),
        forall|k: int| i <= k < skip_space_from(s, i) ==> is_ascii_space(#[trigger] s[k]),
    decreases s.len() - i,
{
    if i < s.len() && is_ascii_space(s[i]) {
        lemma_skip_space_bounds(s, i + 1);
    }
}

/// A name on one line that neither starts nor ends with white space keeps a
/// part that can stand next to a code, and that part is no longer than the
/// name.
pub proof fn lemma_plain_name_stands_alone(x: Seq<char>, end: bool)
    requires
        no_newline(x),
        x.len() > 0 ==> !is_white(x[0]) && !is_white(x[x.len() - 1]),
    ensures
        stands_alone(base_name(x, end), end),
        base_name(x, end).len() <= x.len(),
{
    if x.len() > 0 {
        if is_ascii_space(x[0]) {
            lemma_space_is_white(x[0]);
        }
        if is_ascii_space(x[x.len() - 1]) {
            lemma_space_is_white(x[x.len() - 1]);
        }
    }
    if !end {
        if x.len() >= 5 && all_digits(x.subrange(0, 5)) {
            lemma_skip_space_bounds(x, 5);
            let e = skip_space_from(x, 5);
            if e > 5 && e < x.len() {
                let b = x.subrange(e, x.len() as int);
                assert(b[0] == x[e]);
                assert forall|i: int| 0 <= i < b.len() implies b[i] != '\n' by {
                    assert(b[i] == x[e + i]);
                }
            } else if e > 5 && e == x.len() {
                assert(is_ascii_space(x[x.len() - 1]));
            }
        }
    } else {
        match tail_prefix(x) {
            Some(Some(p)) => {
                lemma_drop_white_bounds(p, p.len() as int);
                lemma_space_is_white(p[p.len() - 1]);
                let d = drop_white_before(p, p.len() as int);
                assert(d <= p.len() - 1);
                let t = trim_end(p);
                assert forall|i: int| 0 <= i < t.len() implies t[i] != '\n' by {
                    assert(t[i] == p.subrange(0, p.len() - 1)[i]);
                }
                if t.len() > 0 {
                    assert(t[t.len() - 1] == p[d - 1]);
                }
            },
            _ => {},
        }
    }
}

/// Replacing a code in a name that was renamed before: for a name on one
/// line, without white space at either end and of at most 54 characters,
/// writing `c2` into the name that writing `c1` gave is the same as writing
/// `c2` into the name itself, flag included (neither rename cuts anything).
pub proof fn lemma_code_replacement(x: Seq<char>, c1: Seq<char>, c2: Seq<char>, end: bool)
    requires
        is_code(c1),
        is_code(c2),
        no_newline(x),
        x.len() > 0 ==> !is_white(x[0]) && !is_white(x[x.len() - 1]),
        x.len() <= 54,
    ensures
        renamed(renamed(x, c1, end).0, c2, end) == renamed(x, c2, end),
        !renamed(x, c1, end).1,
        !renamed(x, c2, end).1,
{
    lemma_plain_name_stands_alone(x, end);
    lemma_new_code_replaces_old(x, c1, c2, end);
}


/// The code always stands at its end of the new name; the new name fits the
/// limit unless it is the code alone; and the flag tells exactly when the
/// kept part had to be cut.
pub proof fn lemma_renamed_shape(old: Seq<char>, code: Seq<char>, end: bool)
    ensures
        !end ==> code.is_prefix_of(renamed(old, code, end).0),
        end ==> code.is_suffix_of(renamed(old, code, end).0),
        renamed(old, code, end).0.len() <= GROUP_NAME_MAX_LEN || renamed(old, code, end).0 == code,
        renamed(old, code, end).1 == (join_name(base_name(old, end), code, end).len()
            > GROUP_NAME_MAX_LEN),
{
    let base = base_name(old, end);
    let full = join_name(base, code, end);
    let n = renamed(old, code, end).0;
    if full.len() <= GROUP_NAME_MAX_LEN {
        if base.len() > 0 {
            if !end {
                assert(n.subrange(0, code.len() as int) =~= code);
            } else {
                assert(n.subrange(n.len() - code.len(), n.len() as int) =~= code);
            }
        } else {
            assert(n.subrange(0, code.len() as int) =~= code);
            assert(n.subrange(n.len() - code.len(), n.len() as int) =~= code);
        }
    } else {
        let overflow = full.len() - GROUP_NAME_MAX_LEN;
        let kept = if base.len() > overflow {
            if !end {
                base.subrange(0, base.len() - overflow)
            } else {
                base.subrange(overflow, base.len() as int)
            }
        } else {
            Seq::empty()
        };
        if kept.len() > 0 {
            if !end {
                assert(n.subrange(0, code.len() as int) =~= code);
            } else {
                assert(n.subrange(n.len() - code.len(), n.len() as int) =~= code);
            }
        } else {
            assert(n.subrange(0, code.len() as int) =~= code);
            assert(n.subrange(n.len() - code.len(), n.len() as int) =~= code);
        }
    }
}

} // verus!
