//! Per-group cooldown between two renames.
//!
//! Times are whole milliseconds.  `check` only reads; `update` is called once
//! the rename it guarded has gone ahead.
use std::collections::HashMap;
use vstd::prelude::*;

verus! {

broadcast use vstd::std_specs::hash::group_hash_axioms;

/// When each group last triggered a rename.
pub struct Cooldown {
    timestamps: HashMap<i64, i64>,
}

/// The last rename time of a group; a group never seen counts as time zero.
pub open spec fn last_seen(m: Map<i64, i64>, group_id: i64) -> int {
    if m.contains_key(group_id) {
        m[group_id] as int
    } else {
        0
    }
}

/// At least `cooldown` milliseconds have passed since the group's last rename.
pub open spec fn is_ready(m: Map<i64, i64>, group_id: i64, now: int, cooldown: int) -> bool {
    now - last_seen(m, group_id) >= cooldown
}

impl View for Cooldown {
    type V = Map<i64, i64>;

    closed spec fn view(&self) -> Map<i64, i64> {
        self.timestamps@
    }
}

impl Cooldown {
    /// No group has renamed yet.
    pub fn new() -> (r: Self)
        ensures
            r@ == Map::<i64, i64>::empty(),
    {
        Cooldown { timestamps: HashMap::new() }
    }

    /// Whether the group may rename again at `now_ms`.
    pub fn check(&self, group_id: i64, now_ms: i64, cooldown_ms: i64) -> (r: bool)
        ensures
            r == is_ready(self@, group_id, now_ms as int, cooldown_ms as int),
    {
        let last: i64 = match self.timestamps.get(&group_id) {
            Some(t) => *t,
            None => 0,
        };
        (now_ms as i128) - (last as i128) >= cooldown_ms as i128
    }

    /// Records that the group renamed at `now_ms`.
    pub fn update(&mut self, group_id: i64, now_ms: i64)
        ensures
            final(self)@ == old(self)@.insert(group_id, now_ms),
    {
        self.timestamps.insert(group_id, now_ms);
    }
}

/// Right after a group renames at `t`, it is ready again exactly when
/// `cooldown` has passed since `t`; other groups are not affected.
pub proof fn lemma_update_then_check(
    m: Map<i64, i64>,
    group_id: i64,
    t: i64,
    other: i64,
    now: int,
    cooldown: int,
)
    ensures
        is_ready(m.insert(group_id, t), group_id, now, cooldown) == (now - t >= cooldown),
        other != group_id ==> is_ready(m.insert(group_id, t), other, now, cooldown) == is_ready(
            m,
            other,
            now,
            cooldown,
        ),
{
}

/// A group that never renamed is ready once `now` reaches the cooldown.
pub proof fn lemma_fresh_group_ready(group_id: i64, now: int, cooldown: int)
    ensures
        is_ready(Map::<i64, i64>::empty(), group_id, now, cooldown) == (now >= cooldown),
{
}

/// The stored times after a fresh cooldown sees the updates `h` in order,
/// each a group and a time.
pub open spec fn replay(h: Seq<(i64, i64)>) -> Map<i64, i64>
    decreases h.len(),
{
    if h.len() == 0 {
        Map::empty()
    } else {
        replay(h.drop_last()).insert(h.last().0, h.last().1)
    }
}

/// The time of the group's latest update in `h`, or zero when it has none.
pub open spec fn latest_update(h: Seq<(i64, i64)>, group_id: i64) -> int
    decreases h.len(),
{
    if h.len() == 0 {
        0
    } else if h.last().0 == group_id {
        h.last().1 as int
    } else {
        latest_update(h.drop_last(), group_id)
    }
}

/// After any history of updates, a group is ready exactly when `cooldown`
/// has passed since its own latest update (time zero when it never
/// renamed); the updates of other groups do not count.
pub proof fn lemma_history_then_check(h: Seq<(i64, i64)>, group_id: i64, now: int, cooldown: int)
    ensures
        is_ready(replay(h), group_id, now, cooldown) == (now - latest_update(h, group_id) >= cooldown),
    decreases h.len(),
{
    if h.len() > 0 {
        lemma_history_then_check(h.drop_last(), group_id, now, cooldown);
    }
}

} // verus!
