//! Per-client sliding-window rate limiting.
//!
//! Time is an argument: the caller reads a monotonic clock and passes the
//! instant in, in any unit it likes, as long as the window uses the same one.

use vstd::hash_map::StringHashMap;
use vstd::prelude::*;

verus! {

/// Whether a request recorded at `stamp` still counts at `now`, for a window
/// of length `window`. A stamp exactly `window` old has expired.
pub open spec fn in_window(stamp: u64, now: u64, window: u64) -> bool {
    stamp as int > now as int - window as int
}

/// The stamps of `record` that still count at `now`, in recorded order.
pub open spec fn live_stamps(record: Seq<u64>, now: u64, window: u64) -> Seq<u64>
    decreases record.len(),
{
    if record.len() == 0 {
        Seq::empty()
    } else if in_window(record.last(), now, window) {
        live_stamps(record.drop_last(), now, window).push(record.last())
    } else {
        live_stamps(record.drop_last(), now, window)
    }
}

/// What is on record for `key`: nothing, for a client never seen.
pub open spec fn record_of(windows: Map<Seq<char>, Seq<u64>>, key: Seq<char>) -> Seq<u64> {
    if windows.contains_key(key) {
        windows[key]
    } else {
        Seq::empty()
    }
}

/// Whether a request of `key` at `now` is admitted: fewer than `max_requests`
/// of its recorded requests still count.
pub open spec fn admits(
    windows: Map<Seq<char>, Seq<u64>>,
    key: Seq<char>,
    now: u64,
    window: u64,
    max_requests: nat,
) -> bool {
    live_stamps(record_of(windows, key), now, window).len() < max_requests
}

/// The records after a request of `key` at `now`. An admitted request drops
/// the client's expired stamps and records `now`; a rejected one changes
/// nothing.
pub open spec fn after_allow(
    windows: Map<Seq<char>, Seq<u64>>,
    key: Seq<char>,
    now: u64,
    window: u64,
    max_requests: nat,
) -> Map<Seq<char>, Seq<u64>> {
    if admits(windows, key, now, window, max_requests) {
        windows.insert(key, live_stamps(record_of(windows, key), now, window).push(now))
    } else {
        windows
    }
}

/// The records after dropping every client none of whose requests counts at
/// `now`. The clients that stay keep their records as they are.
pub open spec fn after_sweep(windows: Map<Seq<char>, Seq<u64>>, now: u64, window: u64) -> Map<
    Seq<char>,
    Seq<u64>,
> {
    Map::new(
        |key: Seq<char>| windows.contains_key(key) && live_stamps(windows[key], now, window).len() > 0,
        |key: Seq<char>| windows[key],
    )
}

/// Whether `key` is one of `keys`.
pub open spec fn listed(keys: Seq<String>, key: Seq<char>) -> bool {
    exists|i: int| 0 <= i < keys.len() && (#[trigger] keys[i])@ == key
}

/// The stamps of `record` that still count at `now`.
pub fn live_part(record: &Vec<u64>, now: u64, window: u64) -> (kept: Vec<u64>)
    ensures
        kept@ == live_stamps(record@, now, window),
{
    let mut kept: Vec<u64> = Vec::new();
    let mut i: usize = 0;
    while i < record.len()
        invariant
            i <= record.len(),
            kept@ == live_stamps(record@.take(i as int), now, window),
        decreases record.len() - i,
    {
        let stamp: u64 = record[i];
        proof {
            assert(record@.take(i + 1).drop_last() == record@.take(i as int));
        }
        if stamp > now || now - stamp < window {
            kept.push(stamp);
        }
        i += 1;
    }
    proof {
        assert(record@.take(record.len() as int) == record@);
    }
    kept
}

/// Whether any stamp of `record` still counts at `now`.
pub fn any_live(record: &Vec<u64>, now: u64, window: u64) -> (found: bool)
    ensures
        found == (live_stamps(record@, now, window).len() > 0),
{
    let mut i: usize = 0;
    while i < record.len()
        invariant
            i <= record.len(),
            live_stamps(record@.take(i as int), now, window).len() == 0,
        decreases record.len() - i,
    {
        let stamp: u64 = record[i];
        proof {
            assert(record@.take(i + 1).drop_last() == record@.take(i as int));
        }
        if stamp > now || now - stamp < window {
            proof {
                lemma_live_empty_iff(record@.take(i + 1), now, window);
                lemma_live_empty_iff(record@, now, window);
                assert(record@.take(i + 1)[i as int] == record@[i as int]);
            }
            return true;
        }
        i += 1;
    }
    proof {
        assert(record@.take(record.len() as int) == record@);
    }
    false
}

/// No stamp counts exactly when each stamp has expired.
pub proof fn lemma_live_empty_iff(record: Seq<u64>, now: u64, window: u64)
    ensures
        live_stamps(record, now, window).len() == 0 <==> forall|i: int|
            0 <= i < record.len() ==> !in_window(#[trigger] record[i], now, window),
    decreases record.len(),
{
    if record.len() > 0 {
        let front = record.drop_last();
        lemma_live_empty_iff(front, now, window);
        if live_stamps(record, now, window).len() == 0 {
            assert forall|i: int| 0 <= i < record.len() implies !in_window(
                #[trigger] record[i],
                now,
                window,
            ) by {
                if i < front.len() {
                    assert(front[i] == record[i]);
                }
            }
        } else if !in_window(record.last(), now, window) {
            let i = choose|i: int| 0 <= i < front.len() && in_window(#[trigger] front[i], now, window);
            assert(front[i] == record[i]);
        }
    }
}

/// Where every stamp still counts, none is dropped.
pub proof fn lemma_live_all(record: Seq<u64>, now: u64, window: u64)
    requires
        forall|i: int| 0 <= i < record.len() ==> in_window(#[trigger] record[i], now, window),
    ensures
        live_stamps(record, now, window) == record,
    decreases record.len(),
{
    if record.len() > 0 {
        let front = record.drop_last();
        assert forall|i: int| 0 <= i < front.len() implies in_window(
            #[trigger] front[i],
            now,
            window,
        ) by {
            assert(front[i] == record[i]);
        }
        lemma_live_all(front, now, window);
        assert(front.push(record.last()) == record);
    }
}

/// Stamps only expire as time goes on: a window that is empty stays empty.
pub proof fn lemma_live_stays_empty(record: Seq<u64>, earlier: u64, later: u64, window: u64)
    requires
        earlier <= later,
        live_stamps(record, earlier, window).len() == 0,
    ensures
        live_stamps(record, later, window).len() == 0,
{
    lemma_live_empty_iff(record, earlier, window);
    lemma_live_empty_iff(record, later, window);
}

/// Dropping stamps never makes a record longer, and leaves it as it is
/// where it makes it no shorter.
pub proof fn lemma_live_len(record: Seq<u64>, now: u64, window: u64)
    ensures
        live_stamps(record, now, window).len() <= record.len(),
        live_stamps(record, now, window).len() == record.len() ==> live_stamps(
            record,
            now,
            window,
        ) == record,
    decreases record.len(),
{
    if record.len() > 0 {
        lemma_live_len(record.drop_last(), now, window);
        if live_stamps(record, now, window).len() == record.len() {
            assert(record.drop_last().push(record.last()) == record);
        }
    }
}

proof fn lemma_listed_push(keys: Seq<String>, last: String, key: Seq<char>)
    ensures
        listed(keys.push(last), key) <==> listed(keys, key) || last@ == key,
{
    let longer = keys.push(last);
    if listed(longer, key) {
        let i = choose|i: int| 0 <= i < longer.len() && (#[trigger] longer[i])@ == key;
        if i < keys.len() {
            assert(keys[i]@ == key);
        }
    }
    if listed(keys, key) {
        let i = choose|i: int| 0 <= i < keys.len() && (#[trigger] keys[i])@ == key;
        assert(longer[i]@ == key);
    }
    if last@ == key {
        assert(longer[keys.len() as int]@ == key);
    }
}

proof fn lemma_listed_take(keys: Seq<String>, i: int, key: Seq<char>)
    requires
        0 <= i < keys.len(),
    ensures
        listed(keys.take(i + 1), key) <==> listed(keys.take(i), key) || keys[i]@ == key,
{
    assert(keys.take(i + 1) == keys.take(i).push(keys[i]));
    lemma_listed_push(keys.take(i), keys[i], key);
}

/// A sliding-window limiter: at most `max_requests` admitted requests per
/// client within any `window` of time.
pub struct RateLimiter {
    max_requests: usize,
    window: u64,
    windows: StringHashMap<Vec<u64>>,
    clients: Vec<String>,
}

impl View for RateLimiter {
    type V = Map<Seq<char>, Seq<u64>>;

    /// Each known client's admitted requests that have not been dropped yet,
    /// oldest first.
    closed spec fn view(&self) -> Self::V {
        Map::new(
            |key: Seq<char>| self.windows@.contains_key(key),
            |key: Seq<char>| self.windows@[key]@,
        )
    }
}

impl RateLimiter {
    /// The number of requests a client may make within one window.
    pub closed spec fn max_requests(&self) -> nat {
        self.max_requests as nat
    }

    /// The length of the window.
    pub closed spec fn window(&self) -> u64 {
        self.window
    }

    /// The representation is consistent: every record is non-empty and no
    /// longer than the quota, and the clients listed are those on record.
    pub closed spec fn wf(&self) -> bool {
        &&& self.windows@.dom().finite()
        &&& forall|key: Seq<char>| #[trigger]
            self.windows@.contains_key(key) ==> 0 < self.windows@[key]@.len() <= self.max_requests
        &&& forall|key: Seq<char>| #[trigger]
            self.windows@.contains_key(key) <==> listed(self.clients@, key)
    }

    /// What a well-formed limiter has on record: finitely many clients, and
    /// of each at least one request and no more than the quota.
    pub proof fn law_records_within_quota(&self)
        requires
            self.wf(),
        ensures
            self@.dom().finite(),
            forall|key: Seq<char>| #[trigger]
                self@.contains_key(key) ==> 0 < self@[key].len() <= self.max_requests(),
    {
        assert(self@.dom() =~= self.windows@.dom());
    }

    /// A limiter that knows no client yet.
    pub fn new(max_requests: usize, window: u64) -> (limiter: Self)
        ensures
            limiter.wf(),
            limiter@ == Map::<Seq<char>, Seq<u64>>::empty(),
            limiter.max_requests() == max_requests,
            limiter.window() == window,
    {
        let limiter = RateLimiter {
            max_requests,
            window,
            windows: StringHashMap::new(),
            clients: Vec::new(),
        };
        proof {
            assert(limiter@ =~= Map::<Seq<char>, Seq<u64>>::empty());
        }
        limiter
    }

    /// Decides whether `client_key` may make a request at `now`, and records
    /// the request if it may. Check and record are one step.
    pub fn allow(&mut self, client_key: &str, now: u64) -> (admitted: bool)
        requires
            old(self).wf(),
        ensures
            final(self).wf(),
            final(self).max_requests() == old(self).max_requests(),
            final(self).window() == old(self).window(),
            admitted == admits(
                old(self)@,
                client_key@,
                now,
                old(self).window(),
                old(self).max_requests(),
            ),
            final(self)@ == after_allow(
                old(self)@,
                client_key@,
                now,
                old(self).window(),
                old(self).max_requests(),
            ),
    {
        let (known, mut kept) = match self.windows.get(client_key) {
            Some(record) => (true, live_part(record, now, self.window)),
            None => (false, Vec::new()),
        };
        if kept.len() < self.max_requests {
            kept.push(now);
            self.windows.insert(client_key.to_owned(), kept);
            if !known {
                self.clients.push(client_key.to_owned());
            }
            proof {
                assert forall|key: Seq<char>| #[trigger]
                    self.windows@.contains_key(key) <==> listed(self.clients@, key) by {
                    if !known {
                        lemma_listed_push(old(self).clients@, self.clients@.last(), key);
                        assert(self.clients@ == old(self).clients@.push(self.clients@.last()));
                    }
                }
                assert(self@ =~= after_allow(
                    old(self)@,
                    client_key@,
                    now,
                    old(self).window(),
                    old(self).max_requests(),
                ));
            }
            true
        } else {
            false
        }
    }

    /// The number of requests a client may make within one window.
    pub fn quota(&self) -> (limit: usize)
        ensures
            limit == self.max_requests(),
    {
        self.max_requests
    }

    /// The length of the window.
    pub fn window_length(&self) -> (length: u64)
        ensures
            length == self.window(),
    {
        self.window
    }

    /// The number of clients on record.
    pub fn tracked_clients(&self) -> (count: usize)
        requires
            self.wf(),
        ensures
            count == self@.dom().len(),
    {
        proof {
            assert(self@.dom() =~= self.windows@.dom());
        }
        self.windows.len()
    }

    /// Drops every client none of whose requests counts at `now`, so that
    /// clients that went away do not pile up. No later decision changes: see
    /// `law_sweep_unnoticed`.
    pub fn sweep(&mut self, now: u64)
        requires
            old(self).wf(),
        ensures
            final(self).wf(),
            final(self).max_requests() == old(self).max_requests(),
            final(self).window() == old(self).window(),
            final(self)@ == after_sweep(old(self)@, now, old(self).window()),
    {
        let ghost before = self.windows@;
        let ghost keys = self.clients@;
        let mut remaining: Vec<String> = Vec::new();
        let mut i: usize = 0;
        while i < self.clients.len()
            invariant
                i <= self.clients.len(),
                self.clients@ == keys,
                self.window == old(self).window,
                self.max_requests == old(self).max_requests,
                self.windows@.dom().finite(),
                forall|key: Seq<char>| #[trigger] before.contains_key(key) <==> listed(keys, key),
                forall|key: Seq<char>| #[trigger]
                    self.windows@.contains_key(key) ==> before.contains_key(key)
                        && self.windows@[key] == before[key],
                forall|key: Seq<char>| #[trigger]
                    before.contains_key(key) ==> (self.windows@.contains_key(key) <==> !(listed(
                        keys.take(i as int),
                        key,
                    ) && live_stamps(before[key]@, now, self.window).len() == 0)),
                forall|key: Seq<char>| #[trigger]
                    listed(remaining@, key) <==> listed(keys.take(i as int), key)
                        && self.windows@.contains_key(key),
            decreases self.clients.len() - i,
        {
            let key: &String = &self.clients[i];
            let ghost windows_before = self.windows@;
            let ghost remaining_before = remaining@;
            let keep = match self.windows.get(key.as_str()) {
                Some(record) => any_live(record, now, self.window),
                None => false,
            };
            if keep {
                remaining.push(key.clone());
            } else {
                self.windows.remove(key.as_str());
            }
            proof {
                assert(before.contains_key(key@)) by {
                    assert(keys[i as int]@ == key@);
                }
                assert forall|k: Seq<char>|
                    (#[trigger] before.contains_key(k)) implies (self.windows@.contains_key(k)
                    <==> !(listed(keys.take(i + 1), k) && live_stamps(
                    before[k]@,
                    now,
                    self.window,
                ).len() == 0)) by {
                    lemma_listed_take(keys, i as int, k);
                    assert(windows_before.contains_key(k) ==> windows_before[k] == before[k]);
                }
                assert forall|k: Seq<char>| #[trigger]
                    listed(remaining@, k) <==> listed(keys.take(i + 1), k)
                        && self.windows@.contains_key(k) by {
                    lemma_listed_take(keys, i as int, k);
                    if keep {
                        lemma_listed_push(remaining_before, remaining@.last(), k);
                        assert(remaining@ == remaining_before.push(remaining@.last()));
                    }
                    assert(listed(remaining_before, k) <==> listed(keys.take(i as int), k)
                        && windows_before.contains_key(k));
                }
            }
            i += 1;
        }
        proof {
            assert(keys.take(i as int) == keys);
        }
        self.clients = remaining;
        proof {
            assert forall|k: Seq<char>| #[trigger]
                self.windows@.contains_key(k) <==> listed(self.clients@, k) by {
                assert(self.windows@.contains_key(k) ==> before.contains_key(k));
            }
            assert(self@ =~= after_sweep(old(self)@, now, old(self).window()));
        }
    }
}

/// The records after `key` makes one request at each of `times`, in order.
pub open spec fn after_requests(
    windows: Map<Seq<char>, Seq<u64>>,
    key: Seq<char>,
    times: Seq<u64>,
    window: u64,
    max_requests: nat,
) -> Map<Seq<char>, Seq<u64>>
    decreases times.len(),
{
    if times.len() == 0 {
        windows
    } else {
        after_allow(
            after_requests(windows, key, times.drop_last(), window, max_requests),
            key,
            times.last(),
            window,
            max_requests,
        )
    }
}

/// The decision on the request at `times[i]`, the earlier ones having been
/// made in order.
pub open spec fn decision(
    windows: Map<Seq<char>, Seq<u64>>,
    key: Seq<char>,
    times: Seq<u64>,
    i: int,
    window: u64,
    max_requests: nat,
) -> bool {
    admits(
        after_requests(windows, key, times.take(i), window, max_requests),
        key,
        times[i],
        window,
        max_requests,
    )
}

/// The instants never go back.
pub open spec fn non_decreasing(times: Seq<u64>) -> bool {
    forall|i: int, j: int| 0 <= i <= j < times.len() ==> times[i] <= times[j]
}

/// The records after the requests `(client, instant)` of `requests`, in order.
pub open spec fn after_batch(
    windows: Map<Seq<char>, Seq<u64>>,
    requests: Seq<(Seq<char>, u64)>,
    window: u64,
    max_requests: nat,
) -> Map<Seq<char>, Seq<u64>>
    decreases requests.len(),
{
    if requests.len() == 0 {
        windows
    } else {
        after_allow(
            after_batch(windows, requests.drop_last(), window, max_requests),
            requests.last().0,
            requests.last().1,
            window,
            max_requests,
        )
    }
}

/// No client occurs twice.
pub open spec fn distinct_clients(requests: Seq<(Seq<char>, u64)>) -> bool {
    forall|i: int, j: int| 0 <= i < j < requests.len() ==> requests[i].0 != requests[j].0
}

proof fn lemma_record_after_prefix(
    windows: Map<Seq<char>, Seq<u64>>,
    key: Seq<char>,
    times: Seq<u64>,
    window: u64,
    max_requests: nat,
    i: int,
    at: u64,
)
    requires
        non_decreasing(times),
        times.len() > 0,
        0 <= i <= times.len(),
        in_window(times[0], times.last(), window),
        live_stamps(record_of(windows, key), times[0], window).len() == 0,
        times[0] <= at <= times.last(),
        i > 0 ==> times[i - 1] <= at,
    ensures
        live_stamps(
            record_of(after_requests(windows, key, times.take(i), window, max_requests), key),
            at,
            window,
        ) == times.take(if i <= max_requests { i } else { max_requests as int }),
    decreases i,
{
    if i == 0 {
        lemma_live_stays_empty(record_of(windows, key), times[0], at, window);
        assert(live_stamps(record_of(windows, key), at, window) =~= times.take(0));
    } else {
        let prefix = times.take(i - 1);
        let this = times[i - 1];
        assert(times.take(i).drop_last() == prefix);
        assert(times.take(i).last() == this);
        lemma_record_after_prefix(windows, key, times, window, max_requests, i - 1, this);
        if i - 1 < max_requests {
            assert(prefix.push(this) == times.take(i));
            lemma_live_all(times.take(i), at, window);
        } else {
            lemma_record_after_prefix(windows, key, times, window, max_requests, i - 1, at);
        }
    }
}

/// A client none of whose earlier requests counts any more makes requests
/// that all fall within one window. The first `max_requests` of them are
/// admitted, and every one after those is rejected.
pub proof fn law_quota_within_window(
    windows: Map<Seq<char>, Seq<u64>>,
    key: Seq<char>,
    times: Seq<u64>,
    window: u64,
    max_requests: nat,
)
    requires
        non_decreasing(times),
        times.len() > 0,
        in_window(times[0], times.last(), window),
        live_stamps(record_of(windows, key), times[0], window).len() == 0,
    ensures
        forall|i: int|
            0 <= i < times.len() ==> (#[trigger] decision(
                windows,
                key,
                times,
                i,
                window,
                max_requests,
            ) <==> i < max_requests),
{
    assert forall|i: int| 0 <= i < times.len() implies (#[trigger] decision(
        windows,
        key,
        times,
        i,
        window,
        max_requests,
    ) <==> i < max_requests) by {
        lemma_record_after_prefix(windows, key, times, window, max_requests, i, times[i]);
    }
}

/// Once a whole window has passed since a client's last request, nothing of
/// its record counts any more, and it has its full quota again: of its next
/// requests within one window, the first `max_requests` are admitted.
pub proof fn law_quota_resets(
    windows: Map<Seq<char>, Seq<u64>>,
    key: Seq<char>,
    last: u64,
    times: Seq<u64>,
    window: u64,
    max_requests: nat,
)
    requires
        forall|i: int|
            0 <= i < record_of(windows, key).len() ==> #[trigger] record_of(windows, key)[i]
                <= last,
        non_decreasing(times),
        times.len() > 0,
        in_window(times[0], times.last(), window),
        times[0] >= last + window,
    ensures
        live_stamps(record_of(windows, key), times[0], window).len() == 0,
        forall|i: int|
            0 <= i < times.len() ==> (#[trigger] decision(
                windows,
                key,
                times,
                i,
                window,
                max_requests,
            ) <==> i < max_requests),
{
    lemma_live_empty_iff(record_of(windows, key), times[0], window);
    law_quota_within_window(windows, key, times, window, max_requests);
}

/// A sweep changes no later decision: at any instant from the sweep on, the
/// same requests of each client count as would have without it.
pub proof fn law_sweep_unnoticed(
    windows: Map<Seq<char>, Seq<u64>>,
    swept_at: u64,
    key: Seq<char>,
    now: u64,
    window: u64,
    max_requests: nat,
)
    requires
        swept_at <= now,
    ensures
        live_stamps(record_of(after_sweep(windows, swept_at, window), key), now, window)
            == live_stamps(record_of(windows, key), now, window),
        admits(after_sweep(windows, swept_at, window), key, now, window, max_requests) == admits(
            windows,
            key,
            now,
            window,
            max_requests,
        ),
{
    let swept = after_sweep(windows, swept_at, window);
    if windows.contains_key(key) && !swept.contains_key(key) {
        lemma_live_stays_empty(windows[key], swept_at, now, window);
        assert(live_stamps(windows[key], now, window) =~= Seq::<u64>::empty());
    }
}

/// One client's request leaves every other client's record and decision as
/// they were, and two clients' requests give the same records in either
/// order.
pub proof fn law_clients_independent(
    windows: Map<Seq<char>, Seq<u64>>,
    one: Seq<char>,
    other: Seq<char>,
    at_one: u64,
    at_other: u64,
    window: u64,
    max_requests: nat,
)
    requires
        one != other,
    ensures
        record_of(after_allow(windows, one, at_one, window, max_requests), other) == record_of(
            windows,
            other,
        ),
        admits(
            after_allow(windows, one, at_one, window, max_requests),
            other,
            at_other,
            window,
            max_requests,
        ) == admits(windows, other, at_other, window, max_requests),
        after_allow(
            after_allow(windows, one, at_one, window, max_requests),
            other,
            at_other,
            window,
            max_requests,
        ) == after_allow(
            after_allow(windows, other, at_other, window, max_requests),
            one,
            at_one,
            window,
            max_requests,
        ),
{
    assert(after_allow(
        after_allow(windows, one, at_one, window, max_requests),
        other,
        at_other,
        window,
        max_requests,
    ) =~= after_allow(
        after_allow(windows, other, at_other, window, max_requests),
        one,
        at_one,
        window,
        max_requests,
    ));
}

/// Every decision leaves of the client's record exactly the requests that
/// still count, with the new one where it was admitted. A rejection finds
/// nothing to drop, so it leaves the record as it was.
pub proof fn law_decision_leaves_live_requests(
    windows: Map<Seq<char>, Seq<u64>>,
    key: Seq<char>,
    now: u64,
    window: u64,
    max_requests: nat,
)
    requires
        record_of(windows, key).len() <= max_requests,
    ensures
        record_of(after_allow(windows, key, now, window, max_requests), key) == if admits(
            windows,
            key,
            now,
            window,
            max_requests,
        ) {
            live_stamps(record_of(windows, key), now, window).push(now)
        } else {
            live_stamps(record_of(windows, key), now, window)
        },
{
    lemma_live_len(record_of(windows, key), now, window);
}

proof fn lemma_batch_leaves_others(
    windows: Map<Seq<char>, Seq<u64>>,
    requests: Seq<(Seq<char>, u64)>,
    key: Seq<char>,
    window: u64,
    max_requests: nat,
)
    requires
        forall|i: int| 0 <= i < requests.len() ==> (#[trigger] requests[i]).0 != key,
    ensures
        record_of(after_batch(windows, requests, window, max_requests), key) == record_of(
            windows,
            key,
        ),
    decreases requests.len(),
{
    if requests.len() > 0 {
        let front = requests.drop_last();
        assert forall|i: int| 0 <= i < front.len() implies (#[trigger] front[i]).0 != key by {
            assert(front[i] == requests[i]);
        }
        lemma_batch_leaves_others(windows, front, key, window, max_requests);
    }
}

/// Requests of distinct clients, each of which would be admitted on its own,
/// are all admitted, in whatever order they are served.
pub proof fn law_distinct_clients_all_admitted(
    windows: Map<Seq<char>, Seq<u64>>,
    requests: Seq<(Seq<char>, u64)>,
    window: u64,
    max_requests: nat,
)
    requires
        distinct_clients(requests),
        forall|i: int|
            0 <= i < requests.len() ==> admits(
                windows,
                (#[trigger] requests[i]).0,
                requests[i].1,
                window,
                max_requests,
            ),
    ensures
        forall|i: int|
            0 <= i < requests.len() ==> admits(
                after_batch(windows, #[trigger] requests.take(i), window, max_requests),
                requests[i].0,
                requests[i].1,
                window,
                max_requests,
            ),
{
    assert forall|i: int| 0 <= i < requests.len() implies admits(
        after_batch(windows, #[trigger] requests.take(i), window, max_requests),
        requests[i].0,
        requests[i].1,
        window,
        max_requests,
    ) by {
        let earlier = requests.take(i);
        assert forall|j: int| 0 <= j < earlier.len() implies (#[trigger] earlier[j]).0
            != requests[i].0 by {
            assert(earlier[j] == requests[j]);
        }
        lemma_batch_leaves_others(windows, earlier, requests[i].0, window, max_requests);
    }
}

} // verus!
