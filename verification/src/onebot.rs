//! The OneBot server's bookkeeping: the pool of client connections and the
//! check of an incoming WebSocket handshake.
//!
//! Times are milliseconds on a monotonic clock chosen by the caller.
use vstd::prelude::*;

use crate::utils::{decimal, decimal_chars};
use crate::text::{string_of, chars_eq, chars_of, contains_chars, contains_seq, copy_range, eq_ignore_ascii_case,
    eq_ignore_ascii_case_chars, lowercase_of, starts_with, starts_with_chars, string_from, to_lowercase};

verus! {

/// The connections by peer address, with the time each was last active.
/// Holds each peer once and never more than `max_connections` of them.
pub struct ConnectionPool {
    connections: Vec<(String, u64)>,
    max_connections: usize,
    timeout_ms: u64,
}

/// The peers and times of a list of connections.
pub open spec fn conns_view(v: Seq<(String, u64)>) -> Seq<(Seq<char>, u64)> {
    v.map_values(|c: (String, u64)| (c.0@, c.1))
}

/// No peer appears twice.
pub open spec fn unique_peers(s: Seq<(Seq<char>, u64)>) -> bool {
    forall|i: int, j: int| 0 <= i < s.len() && 0 <= j < s.len() && i != j ==> s[i].0 != s[j].0
}

/// Where `peer` stands in the list, if it does.
pub open spec fn peer_index(s: Seq<(Seq<char>, u64)>, peer: Seq<char>) -> Option<int> {
    if exists|i: int| 0 <= i < s.len() && s[i].0 == peer {
        Some(choose|i: int| 0 <= i < s.len() && s[i].0 == peer)
    } else {
        None
    }
}

/// A connection idle for longer than the timeout (a time before its last
/// activity counts as no idle time).
pub open spec fn expired(last: u64, now: u64, timeout: u64) -> bool {
    (if now >= last {
        now - last
    } else {
        0
    }) > timeout
}

/// Connections idle for too long at `now`.
pub open spec fn idle_too_long(now: u64, timeout: u64) -> spec_fn((Seq<char>, u64)) -> bool {
    |c: (Seq<char>, u64)| expired(c.1, now, timeout)
}

/// Connections still within the timeout at `now`.
pub open spec fn still_fresh(now: u64, timeout: u64) -> spec_fn((Seq<char>, u64)) -> bool {
    |c: (Seq<char>, u64)| !expired(c.1, now, timeout)
}

/// The peers of a list of connections.
pub open spec fn peers_of(s: Seq<(Seq<char>, u64)>) -> Seq<Seq<char>> {
    s.map_values(|c: (Seq<char>, u64)| c.0)
}

impl View for ConnectionPool {
    type V = Seq<(Seq<char>, u64)>;

    closed spec fn view(&self) -> Seq<(Seq<char>, u64)> {
        conns_view(self.connections@)
    }
}

impl ConnectionPool {
    #[verifier::type_invariant]
    spec fn wf(self) -> bool {
        &&& self.connections@.len() <= self.max_connections
        &&& unique_peers(conns_view(self.connections@))
    }

    pub closed spec fn max(self) -> usize {
        self.max_connections
    }

    pub closed spec fn timeout(self) -> u64 {
        self.timeout_ms
    }

    /// An empty pool.
    pub fn new(max_connections: usize, timeout_ms: u64) -> (r: Self)
        ensures
            r@ == Seq::<(Seq<char>, u64)>::empty(),
            r.max() == max_connections,
            r.timeout() == timeout_ms,
    {
        let p = ConnectionPool { connections: Vec::new(), max_connections, timeout_ms };
        assert(conns_view(p.connections@) =~= Seq::<(Seq<char>, u64)>::empty());
        p
    }

    fn find(&self, peer: &[char]) -> (r: Option<usize>)
        ensures
            match r {
                Some(i) => i < self@.len() && self@[i as int].0 == peer@,
                None => peer_index(self@, peer@) is None,
            },
    {
        let mut i: usize = 0;
        while i < self.connections.len()
            invariant
                i <= self.connections@.len(),
                forall|k: int| 0 <= k < i ==> self@[k].0 != peer@,
            decreases self.connections@.len() - i,
        {
            let name = chars_of(self.connections[i].0.as_str());
            if chars_eq(&name, peer) {
                return Some(i);
            }
            i = i + 1;
        }
        None
    }

    /// Admits a peer at `now`, unless the pool is full.  A peer already in
    /// the pool has its time refreshed.
    pub fn add_connection(&mut self, peer: &str, now: u64) -> (r: bool)
        ensures
            r == (old(self)@.len() < old(self).max()),
            final(self).max() == old(self).max(),
            final(self).timeout() == old(self).timeout(),
            !r ==> final(self)@ == old(self)@,
            r ==> match peer_index(old(self)@, peer@) {
                Some(i) => final(self)@ == old(self)@.update(i, (peer@, now)),
                None => final(self)@ == old(self)@.push((peer@, now)),
            },
    {
        proof {
            use_type_invariant(&*self);
        }
        if self.connections.len() >= self.max_connections {
            return false;
        }
        let p = chars_of(peer);
        match self.find(&p) {
            Some(i) => {
                proof {
                    let s = old(self)@;
                    assert(peer_index(s, peer@) == Some(i as int)) by {
                        let k = choose|k: int| 0 <= k < s.len() && s[k].0 == peer@;
                        assert(k == i);
                    }
                }
                let mut v: Vec<(String, u64)> = Vec::new();
                std::mem::swap(&mut self.connections, &mut v);
                let ghost before = v@;
                v.set(i, (string_from(peer), now));
                assert(conns_view(v@) =~= conns_view(before).update(i as int, (peer@, now)));
                self.connections = v;
            },
            None => {
                let mut v: Vec<(String, u64)> = Vec::new();
                std::mem::swap(&mut self.connections, &mut v);
                let ghost before = v@;
                v.push((string_from(peer), now));
                assert(conns_view(v@) =~= conns_view(before).push((peer@, now)));
                self.connections = v;
            },
        }
        true
    }

    /// Drops a peer's connection, if it is in the pool.
    pub fn remove_connection(&mut self, peer: &str)
        ensures
            final(self).max() == old(self).max(),
            final(self).timeout() == old(self).timeout(),
            match peer_index(old(self)@, peer@) {
                Some(i) => final(self)@ == old(self)@.remove(i),
                None => final(self)@ == old(self)@,
            },
    {
        proof {
            use_type_invariant(&*self);
        }
        let p = chars_of(peer);
        match self.find(&p) {
            Some(i) => {
                proof {
                    let s = old(self)@;
                    assert(peer_index(s, peer@) == Some(i as int)) by {
                        let k = choose|k: int| 0 <= k < s.len() && s[k].0 == peer@;
                        assert(k == i);
                    }
                }
                let mut v: Vec<(String, u64)> = Vec::new();
                std::mem::swap(&mut self.connections, &mut v);
                let ghost before = v@;
                v.remove(i);
                assert(conns_view(v@) =~= conns_view(before).remove(i as int));
                self.connections = v;
            },
            None => {},
        }
    }

    /// Marks a peer active at `now`, if it is in the pool.
    pub fn update_activity(&mut self, peer: &str, now: u64)
        ensures
            final(self).max() == old(self).max(),
            final(self).timeout() == old(self).timeout(),
            match peer_index(old(self)@, peer@) {
                Some(i) => final(self)@ == old(self)@.update(i, (peer@, now)),
                None => final(self)@ == old(self)@,
            },
    {
        proof {
            use_type_invariant(&*self);
        }
        let p = chars_of(peer);
        match self.find(&p) {
            Some(i) => {
                proof {
                    let s = old(self)@;
                    assert(peer_index(s, peer@) == Some(i as int)) by {
                        let k = choose|k: int| 0 <= k < s.len() && s[k].0 == peer@;
                        assert(k == i);
                    }
                }
                let mut v: Vec<(String, u64)> = Vec::new();
                std::mem::swap(&mut self.connections, &mut v);
                let ghost before = v@;
                v.set(i, (string_from(peer), now));
                assert(conns_view(v@) =~= conns_view(before).update(i as int, (peer@, now)));
                self.connections = v;
            },
            None => {},
        }
    }

    /// Drops the connections idle for longer than the timeout at `now` and
    /// returns their peers, in pool order.
    pub fn cleanup_expired(&mut self, now: u64) -> (removed: Vec<String>)
        ensures
            final(self).max() == old(self).max(),
            final(self).timeout() == old(self).timeout(),
            final(self)@ == old(self)@.filter(still_fresh(now, old(self).timeout())),
            removed@.map_values(|s: String| s@) == peers_of(
                old(self)@.filter(idle_too_long(now, old(self).timeout())),
            ),
    {
        proof {
            use_type_invariant(&*self);
        }
        let ghost src = self@;
        let ghost t = self.timeout_ms;
        let mut all: Vec<(String, u64)> = Vec::new();
        std::mem::swap(&mut self.connections, &mut all);
        let mut kept: Vec<(String, u64)> = Vec::new();
        let mut removed: Vec<String> = Vec::new();
        let ghost raw = all@;
        for c in it: all
            invariant
                it.seq() == raw,
                conns_view(raw) == src,
                self.timeout_ms == t,
                conns_view(kept@) == src.subrange(0, it.index()).filter(still_fresh(now, t)),
                removed@.map_values(|s: String| s@) == peers_of(
                    src.subrange(0, it.index()).filter(idle_too_long(now, t)),
                ),
        {
            let ghost i = it.index();
            proof {
                crate::text::lemma_filter_step(src, i, still_fresh(now, t));
                crate::text::lemma_filter_step(src, i, idle_too_long(now, t));
                assert(src[i] == (c.0@, c.1));
            }
            let idle = if now >= c.1 { now - c.1 } else { 0 };
            if idle > self.timeout_ms {
                let ghost before = removed@;
                let ghost fb = src.subrange(0, i).filter(idle_too_long(now, t));
                removed.push(c.0);
                assert(removed@.map_values(|s: String| s@) =~= before.map_values(|s: String| s@).push(src[i].0));
                assert(peers_of(fb.push(src[i])) =~= peers_of(fb).push(src[i].0));
            } else {
                let ghost before = kept@;
                kept.push(c);
                assert(conns_view(kept@) =~= conns_view(before).push(src[i]));
            }
        }
        assert(src.subrange(0, src.len() as int) =~= src);
        proof {
            assert forall|a: int, b: int|
                0 <= a < conns_view(kept@).len() && 0 <= b < conns_view(kept@).len() && a != b
                implies conns_view(kept@)[a].0 != conns_view(kept@)[b].0 by {
                lemma_filter_unique(src, still_fresh(now, t));
            }
            src.lemma_filter_len(still_fresh(now, t));
        }
        self.connections = kept;
        removed
    }

    /// How many connections the pool holds: never more than its limit, and
    /// each peer counted once.
    pub fn connection_count(&self) -> (r: usize)
        ensures
            r == self@.len(),
            r <= self.max(),
            unique_peers(self@),
    {
        proof {
            use_type_invariant(self);
        }
        self.connections.len()
    }
}

proof fn lemma_filter_from<A>(s: Seq<A>, p: spec_fn(A) -> bool)
    ensures
        forall|k: int| 0 <= k < s.filter(p).len() ==> exists|j: int| 0 <= j < s.len() && s[j] == #[trigger] s.filter(p)[k],
    decreases s.len(),
{
    reveal(Seq::filter);
    if s.len() > 0 {
        let d = s.drop_last();
        lemma_filter_from(d, p);
        let f = s.filter(p);
        assert forall|k: int| 0 <= k < f.len() implies exists|j: int| 0 <= j < s.len() && s[j] == #[trigger] f[k] by {
            if k < d.filter(p).len() {
                let j = choose|j: int| 0 <= j < d.len() && d[j] == d.filter(p)[k];
                assert(s[j] == d[j]);
                assert(f[k] == d.filter(p)[k]);
            } else {
                assert(s[s.len() - 1] == f[k]);
            }
        }
    }
}

proof fn lemma_filter_unique(s: Seq<(Seq<char>, u64)>, p: spec_fn((Seq<char>, u64)) -> bool)
    requires
        unique_peers(s),
    ensures
        unique_peers(s.filter(p)),
    decreases s.len(),
{
    reveal(Seq::filter);
    if s.len() > 0 {
        let d = s.drop_last();
        assert(unique_peers(d));
        lemma_filter_unique(d, p);
        if p(s.last()) {
            let f = d.filter(p);
            assert forall|k: int| 0 <= k < f.len() implies f[k].0 != s.last().0 by {
                lemma_filter_from(d, p);
                let j = choose|j: int| 0 <= j < d.len() && d[j] == f[k];
                assert(s[j] == d[j]);
            }
        }
    }
}


/// The `echo` text of the API call with the given id: `guche_<id>`.
pub open spec fn echo_text(id: u64) -> Seq<char> {
    "guche_"@ + decimal(id as nat)
}

/// Calls sent in the same order have increasing ids.
pub open spec fn ids_increasing(s: Seq<(u64, u64)>) -> bool {
    forall|a: int, b: int| 0 <= a < b < s.len() ==> s[a].0 < s[b].0
}

/// Calls that have waited longer than `limit` at `now`.
pub open spec fn call_stale(now: u64, limit: u64) -> spec_fn((u64, u64)) -> bool {
    |c: (u64, u64)| expired(c.1, now, limit)
}

/// Calls still within `limit` at `now`.
pub open spec fn call_waiting(now: u64, limit: u64) -> spec_fn((u64, u64)) -> bool {
    |c: (u64, u64)| !expired(c.1, now, limit)
}

/// Where the first call whose echo is `echo` stands, if any.
pub open spec fn echo_index(s: Seq<(u64, u64)>, echo: Seq<char>) -> Option<int> {
    if exists|k: int| 0 <= k < s.len() && echo_text(s[k].0) == echo {
        Some(choose|k: int| 0 <= k < s.len() && echo_text(s[k].0) == echo && forall|j: int| 0 <= j < k ==> echo_text(s[j].0) != echo)
    } else {
        None
    }
}

fn echo_chars(id: u64) -> (r: Vec<char>)
    ensures
        r@ == echo_text(id),
{
    let mut text = chars_of("guche_");
    let digits = decimal_chars(id);
    let ghost base = text@;
    let mut d: usize = 0;
    while d < digits.len()
        invariant
            d <= digits@.len(),
            text@ == base + digits@.subrange(0, d as int),
        decreases digits@.len() - d,
    {
        text.push(digits[d]);
        d = d + 1;
        assert(text@ =~= base + digits@.subrange(0, d as int));
    }
    assert(digits@.subrange(0, digits@.len() as int) =~= digits@);
    text
}

proof fn lemma_remove_keeps_order(s: Seq<(u64, u64)>, k: int, issued: u64)
    requires
        0 <= k < s.len(),
        ids_increasing(s),
        forall|j: int| 0 <= j < s.len() ==> 1 <= #[trigger] s[j].0 <= issued,
    ensures
        ids_increasing(s.remove(k)),
        forall|j: int| 0 <= j < s.remove(k).len() ==> 1 <= #[trigger] s.remove(k)[j].0 <= issued,
{
    let r = s.remove(k);
    assert forall|a: int, b: int| 0 <= a < b < r.len() implies r[a].0 < r[b].0 by {
        let aa = if a < k { a } else { a + 1 };
        let bb = if b < k { b } else { b + 1 };
        assert(r[a] == s[aa]);
        assert(r[b] == s[bb]);
    }
    assert forall|j: int| 0 <= j < r.len() implies 1 <= #[trigger] r[j].0 <= issued by {
        let jj = if j < k { j } else { j + 1 };
        assert(r[j] == s[jj]);
    }
}

/// The API calls sent on one connection and not answered yet, each as its id
/// and the time it was sent.  Ids count up from 1 in the order of sending.
pub struct PendingCalls {
    issued: u64,
    calls: Vec<(u64, u64)>,
}

impl View for PendingCalls {
    type V = Seq<(u64, u64)>;

    closed spec fn view(&self) -> Seq<(u64, u64)> {
        self.calls@
    }
}

impl PendingCalls {
    #[verifier::type_invariant]
    spec fn wf(self) -> bool {
        &&& ids_increasing(self.calls@)
        &&& forall|k: int| 0 <= k < self.calls@.len() ==> 1 <= #[trigger] self.calls@[k].0 <= self.issued
    }

    /// The id of the last call sent (zero before the first).
    pub closed spec fn last_id(self) -> u64 {
        self.issued
    }

    /// No call sent yet.
    pub fn new() -> (r: Self)
        ensures
            r@ == Seq::<(u64, u64)>::empty(),
            r.last_id() == 0,
    {
        PendingCalls { issued: 0, calls: Vec::new() }
    }

    /// The id of the last call sent.
    pub fn last_issued(&self) -> (r: u64)
        ensures
            r == self.last_id(),
    {
        self.issued
    }

    /// Registers a call sent at `now`: it gets the next id, returned with its
    /// echo text.
    pub fn issue(&mut self, now: u64) -> (r: (u64, String))
        requires
            old(self).last_id() < u64::MAX,
        ensures
            r.0 == old(self).last_id() + 1,
            r.1@ == echo_text(r.0),
            final(self).last_id() == r.0,
            final(self)@ == old(self)@.push((r.0, now)),
    {
        proof {
            use_type_invariant(&*self);
        }
        let id = self.issued + 1;
        let mut calls: Vec<(u64, u64)> = Vec::new();
        std::mem::swap(&mut self.calls, &mut calls);
        calls.push((id, now));
        self.issued = id;
        self.calls = calls;
        let mut echo = string_from("guche_");
        let digits = string_of(&decimal_chars(id));
        echo.append(digits.as_str());
        (id, echo)
    }

    /// Takes out the call whose echo text is `echo` (the first, if several
    /// matched) and returns its id; `None` when no call has that echo.
    pub fn resolve(&mut self, echo: &str) -> (r: Option<u64>)
        ensures
            final(self).last_id() == old(self).last_id(),
            match echo_index(old(self)@, echo@) {
                Some(k) => r == Some(old(self)@[k].0) && final(self)@ == old(self)@.remove(k),
                None => r is None && final(self)@ == old(self)@,
            },
    {
        proof {
            use_type_invariant(&*self);
        }
        let e = chars_of(echo);
        let mut k: usize = 0;
        while k < self.calls.len()
            invariant
                e@ == echo@,
                self.calls@ == old(self).calls@,
                self.issued == old(self).issued,
                ids_increasing(self.calls@),
                forall|j: int| 0 <= j < self.calls@.len() ==> 1 <= #[trigger] self.calls@[j].0 <= self.issued,
                k <= self.calls@.len(),
                forall|j: int| 0 <= j < k ==> echo_text(self.calls@[j].0) != echo@,
            decreases self.calls@.len() - k,
        {
            let id = self.calls[k].0;
            let text = echo_chars(id);
            if chars_eq(&text, &e) {
                let ghost s = self.calls@;
                proof {
                    assert(echo_text(s[k as int].0) == echo@);
                    let c = choose|c: int| 0 <= c < s.len() && echo_text(s[c].0) == echo@ && forall|j: int| 0 <= j < c ==> echo_text(s[j].0) != echo@;
                    assert(echo_index(s, echo@) == Some(c));
                    if c < k {
                    } else if c > k {
                        assert(echo_text(s[k as int].0) != echo@);
                    }
                    assert(c == k);
                }
                let mut calls: Vec<(u64, u64)> = Vec::new();
                std::mem::swap(&mut self.calls, &mut calls);
                calls.remove(k);
                proof {
                    lemma_remove_keeps_order(s, k as int, self.issued);
                }
                self.calls = calls;
                return Some(id);
            }
            k = k + 1;
        }
        None
    }

    /// Takes out the calls that have waited longer than `limit` at `now` and
    /// returns their ids, in the order sent.
    pub fn expire(&mut self, now: u64, limit: u64) -> (removed: Vec<u64>)
        ensures
            final(self).last_id() == old(self).last_id(),
            final(self)@ == old(self)@.filter(call_waiting(now, limit)),
            removed@ == old(self)@.filter(call_stale(now, limit)).map_values(|c: (u64, u64)| c.0),
    {
        proof {
            use_type_invariant(&*self);
        }
        let ghost src = self.calls@;
        let mut all: Vec<(u64, u64)> = Vec::new();
        std::mem::swap(&mut self.calls, &mut all);
        let mut kept: Vec<(u64, u64)> = Vec::new();
        let mut removed: Vec<u64> = Vec::new();
        let mut i: usize = 0;
        while i < all.len()
            invariant
                all@ == src,
                i <= src.len(),
                ids_increasing(src),
                forall|k: int| 0 <= k < src.len() ==> 1 <= #[trigger] src[k].0 <= self.issued,
                kept@ == src.subrange(0, i as int).filter(call_waiting(now, limit)),
                removed@ == src.subrange(0, i as int).filter(call_stale(now, limit)).map_values(|c: (u64, u64)| c.0),
                ids_increasing(kept@),
                forall|a: int, j: int| 0 <= a < kept@.len() && i <= j < src.len() ==> kept@[a].0 < src[j].0,
                forall|a: int| 0 <= a < kept@.len() ==> 1 <= #[trigger] kept@[a].0 <= self.issued,
            decreases src.len() - i,
        {
            proof {
                crate::text::lemma_filter_step(src, i as int, call_waiting(now, limit));
                crate::text::lemma_filter_step(src, i as int, call_stale(now, limit));
            }
            let c = all[i];
            let idle = if now >= c.1 { now - c.1 } else { 0 };
            if idle > limit {
                let ghost before = src.subrange(0, i as int).filter(call_stale(now, limit));
                removed.push(c.0);
                assert(before.push(c).map_values(|x: (u64, u64)| x.0) =~= before.map_values(|x: (u64, u64)| x.0).push(c.0));
            } else {
                let ghost before = kept@;
                kept.push(c);
                assert forall|a: int, b: int| 0 <= a < b < kept@.len() implies kept@[a].0 < kept@[b].0 by {
                    if b == kept@.len() - 1 {
                        assert(kept@[b] == src[i as int]);
                        assert(before[a].0 < src[i as int].0);
                    } else {
                        assert(kept@[a] == before[a]);
                        assert(kept@[b] == before[b]);
                    }
                }
                assert forall|a: int, j: int| 0 <= a < kept@.len() && i + 1 <= j < src.len() implies kept@[a].0 < src[j].0 by {
                    if a == kept@.len() - 1 {
                        assert(kept@[a] == src[i as int]);
                    } else {
                        assert(kept@[a] == before[a]);
                    }
                }
                assert forall|a: int| 0 <= a < kept@.len() implies 1 <= #[trigger] kept@[a].0 <= self.issued by {
                    if a == kept@.len() - 1 {
                        assert(kept@[a] == src[i as int]);
                    } else {
                        assert(kept@[a] == before[a]);
                    }
                }
            }
            i = i + 1;
        }
        assert(src.subrange(0, src.len() as int) =~= src);
        self.calls = kept;
        removed
    }
}

/// The answer to a WebSocket handshake.
#[derive(Debug, Clone, Copy, PartialEq, Eq)]
pub enum Handshake {
    Accept,
    /// Not a WebSocket upgrade request.
    NotWebSocket,
    /// A token is configured and the request carries neither the matching
    /// bearer header nor the matching `access_token` query parameter.
    Unauthorized,
}

pub open spec fn opt_text(o: Option<&str>) -> Option<Seq<char>> {
    match o {
        Some(s) => Some(s@),
        None => None,
    }
}

/// Index of the next `&` at or after `i` (or the length).
pub open spec fn amp_from(s: Seq<char>, i: int) -> int
    decreases s.len() - i,
{
    if 0 <= i < s.len() && s[i] != '&' {
        amp_from(s, i + 1)
    } else {
        i
    }
}

pub proof fn lemma_amp_bounds(s: Seq<char>, i: int)
    requires
        0 <= i <= s.len(),
    ensures
        i <= amp_from(s, i) <= s.len(),
    decreases s.len() - i,
{
    if i < s.len() && s[i] != '&' {
        lemma_amp_bounds(s, i + 1);
    }
}

/// The value of the first `&`-separated part of the query, from `i` on,
/// that starts with `access_token=`.
pub open spec fn token_param_from(q: Seq<char>, i: int) -> Option<Seq<char>>
    decreases q.len() + 1 - i,
{
    if i < 0 || i > q.len() {
        None
    } else {
        proof {
            lemma_amp_bounds(q, i);
        }
        let j = amp_from(q, i);
        let part = q.subrange(i, j);
        if starts_with(part, "access_token="@) {
            Some(part.subrange("access_token="@.len() as int, part.len() as int))
        } else if j < q.len() {
            token_param_from(q, j + 1)
        } else {
            None
        }
    }
}

/// Whether the handshake asks for a WebSocket: `Upgrade: websocket` (any
/// ASCII case) and a `Connection` header whose lowercase form mentions
/// `upgrade`.
pub open spec fn is_ws_upgrade(upgrade: Option<Seq<char>>, connection: Option<Seq<char>>) -> bool {
    &&& upgrade matches Some(u) && eq_ignore_ascii_case(u, "websocket"@)
    &&& connection matches Some(c) && contains_seq(lowercase_of(c), "upgrade"@)
}

/// The verdict on a handshake, given its `Upgrade`, `Connection` and
/// `Authorization` headers and its query string, and the configured token.
pub open spec fn handshake_verdict(
    upgrade: Option<Seq<char>>,
    connection: Option<Seq<char>>,
    authorization: Option<Seq<char>>,
    query: Option<Seq<char>>,
    token: Option<Seq<char>>,
) -> Handshake {
    if !is_ws_upgrade(upgrade, connection) {
        Handshake::NotWebSocket
    } else {
        match token {
            None => Handshake::Accept,
            Some(t) => {
                let auth_ok = authorization == Some("Bearer "@ + t);
                let query_ok = query matches Some(q) && token_param_from(q, 0) == Some(t);
                if !auth_ok && !query_ok {
                    Handshake::Unauthorized
                } else {
                    Handshake::Accept
                }
            },
        }
    }
}

fn token_param_matches(q: &[char], expected: &[char]) -> (r: bool)
    ensures
        r == (token_param_from(q@, 0) == Some(expected@)),
{
    let key = chars_of("access_token=");
    let n = q.len();
    let mut i: usize = 0;
    loop
        invariant
            n == q@.len(),
            i <= n,
            key@ == "access_token="@,
            token_param_from(q@, i as int) == token_param_from(q@, 0),
        decreases n - i,
    {
        let mut j = i;
        while j < n && q[j] != '&'
            invariant
                i <= j <= n,
                n == q@.len(),
                amp_from(q@, j as int) == amp_from(q@, i as int),
            decreases n - j,
        {
            j = j + 1;
        }
        proof {
            lemma_amp_bounds(q@, i as int);
        }
        let part = copy_range(q, i, j);
        if starts_with_chars(&part, &key) {
            let value = copy_range(&part, key.len(), part.len());
            return chars_eq(&value, expected);
        }
        if j >= n {
            return false;
        }
        i = j + 1;
    }
}

/// Checks a WebSocket handshake: it must be an upgrade request, and when a
/// token is configured it must carry `Authorization: Bearer <token>` or the
/// query parameter `access_token=<token>` (the first such parameter counts).
pub fn check_handshake(
    upgrade: Option<&str>,
    connection: Option<&str>,
    authorization: Option<&str>,
    query: Option<&str>,
    token: Option<&str>,
) -> (r: Handshake)
    ensures
        r == handshake_verdict(
            opt_text(upgrade),
            opt_text(connection),
            opt_text(authorization),
            opt_text(query),
            opt_text(token),
        ),
{
    let up_ok = match upgrade {
        Some(u) => eq_ignore_ascii_case_chars(&chars_of(u), &chars_of("websocket")),
        None => false,
    };
    let conn_ok = match connection {
        Some(c) => {
            let lower = to_lowercase(c);
            contains_chars(&chars_of(lower.as_str()), &chars_of("upgrade"))
        },
        None => false,
    };
    if !(up_ok && conn_ok) {
        return Handshake::NotWebSocket;
    }
    match token {
        None => Handshake::Accept,
        Some(t) => {
            let tc = chars_of(t);
            let auth_ok = match authorization {
                Some(a) => {
                    let mut want = string_from("Bearer ");
                    want.append(t);
                    chars_eq(&chars_of(a), &chars_of(want.as_str()))
                },
                None => false,
            };
            let query_ok = match query {
                Some(q) => token_param_matches(&chars_of(q), &tc),
                None => false,
            };
            if !auth_ok && !query_ok {
                Handshake::Unauthorized
            } else {
                Handshake::Accept
            }
        },
    }
}

} // verus!
