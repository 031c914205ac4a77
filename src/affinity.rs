//! The affinity store: which provider a key is pinned to, until when, and how
//! often the pin has been used.
//!
//! Time is a count of milliseconds since the Unix epoch. Every operation that
//! depends on the time has a form that takes the instant as an argument
//! (`get_at`, `set_at`, `sweep_at`) and a form that reads the system clock.
use vstd::prelude::*;

verus! {

/// One sticky-provider record.
pub struct CacheAffinity {
    pub provider_id: String,
    /// The instant from which the record no longer counts, in milliseconds
    /// since the Unix epoch.
    pub expire_at: u64,
    pub request_count: u32,
}

/// The mathematical value of a record.
pub struct AffinityRecord {
    pub provider_id: Seq<char>,
    pub expire_at: u64,
    pub request_count: u32,
}

impl View for CacheAffinity {
    type V = AffinityRecord;

    open spec fn view(&self) -> AffinityRecord {
        AffinityRecord {
            provider_id: self.provider_id@,
            expire_at: self.expire_at,
            request_count: self.request_count,
        }
    }
}

/// Milliseconds in one second.
pub const MILLIS_PER_SECOND: u64 = 1000;

/// The expiry of a record written at `now` with a time-to-live of `ttl`
/// seconds; it saturates at the largest instant.
pub open spec fn expiry_after(now: u64, ttl: u64) -> u64 {
    let e = now as int + ttl as int * MILLIS_PER_SECOND as int;
    if e > u64::MAX as int {
        u64::MAX
    } else {
        e as u64
    }
}

/// A record counts at `now` strictly before its expiry; at the expiry
/// instant it is already gone.
pub open spec fn is_live(r: AffinityRecord, now: u64) -> bool {
    now < r.expire_at
}

/// The usage counter after one more use; it saturates.
pub open spec fn bumped(n: u32) -> u32 {
    if n < u32::MAX {
        (n + 1) as u32
    } else {
        n
    }
}

/// What a lookup of `k` at `now` returns.
pub open spec fn get_result(m: Map<Seq<char>, AffinityRecord>, k: Seq<char>, now: u64) -> Option<Seq<char>> {
    if m.contains_key(k) && is_live(m[k], now) {
        Some(m[k].provider_id)
    } else {
        None
    }
}

/// The store after a lookup of `k` at `now`: a live record has its counter
/// bumped, an expired one is dropped, the rest is untouched.
pub open spec fn after_get(m: Map<Seq<char>, AffinityRecord>, k: Seq<char>, now: u64) -> Map<Seq<char>, AffinityRecord> {
    if m.contains_key(k) {
        if is_live(m[k], now) {
            m.insert(k, AffinityRecord { request_count: bumped(m[k].request_count), ..m[k] })
        } else {
            m.remove(k)
        }
    } else {
        m
    }
}

/// The store after pinning `k` to `p` at `now`: a fresh window with one use.
pub open spec fn after_set(m: Map<Seq<char>, AffinityRecord>, k: Seq<char>, p: Seq<char>, now: u64, ttl: u64) -> Map<Seq<char>, AffinityRecord> {
    m.insert(k, AffinityRecord { provider_id: p, expire_at: expiry_after(now, ttl), request_count: 1 })
}

/// The store after a sweep at `now`: exactly the live records remain.
pub open spec fn after_sweep(m: Map<Seq<char>, AffinityRecord>, now: u64) -> Map<Seq<char>, AffinityRecord> {
    Map::new(|k: Seq<char>| m.contains_key(k) && is_live(m[k], now), |k: Seq<char>| m[k])
}

/// The text of an optional string.
pub open spec fn opt_view(o: Option<String>) -> Option<Seq<char>> {
    match o {
        Some(s) => Some(s@),
        None => None,
    }
}

/// No two entries share a key.
pub open spec fn unique_keys(s: Seq<(String, CacheAffinity)>) -> bool {
    forall|i: int, j: int| 0 <= i < s.len() && 0 <= j < s.len() && i != j ==> #[trigger] s[i].0@ != #[trigger] s[j].0@
}

/// The map that a list of entries stands for.
pub open spec fn map_of(s: Seq<(String, CacheAffinity)>) -> Map<Seq<char>, AffinityRecord> {
    Map::new(
        |k: Seq<char>| exists|i: int| 0 <= i < s.len() && #[trigger] s[i].0@ == k,
        |k: Seq<char>| s[choose|i: int| 0 <= i < s.len() && #[trigger] s[i].0@ == k].1@,
    )
}

proof fn lemma_map_of_at(s: Seq<(String, CacheAffinity)>, i: int)
    requires
        unique_keys(s),
        0 <= i < s.len(),
    ensures
        map_of(s).contains_key(s[i].0@),
        map_of(s)[s[i].0@] == s[i].1@,
{
    let k = s[i].0@;
    assert(exists|j: int| 0 <= j < s.len() && #[trigger] s[j].0@ == k);
    let j = choose|j: int| 0 <= j < s.len() && #[trigger] s[j].0@ == k;
    assert(j == i);
}

proof fn lemma_map_of_len(s: Seq<(String, CacheAffinity)>)
    requires
        unique_keys(s),
    ensures
        map_of(s).dom().finite(),
        map_of(s).dom().len() == s.len(),
    decreases s.len(),
{
    if s.len() == 0 {
        assert(map_of(s).dom() =~= Set::<Seq<char>>::empty());
    } else {
        let t = s.drop_last();
        let e = s.last();
        assert(unique_keys(t)) by {
            assert forall|a: int, b: int| 0 <= a < t.len() && 0 <= b < t.len() && a != b implies #[trigger] t[a].0@ != #[trigger] t[b].0@ by {
                assert(s[a].0@ != s[b].0@);
            }
        }
        lemma_map_of_len(t);
        assert forall|j: int| 0 <= j < t.len() implies #[trigger] t[j].0@ != e.0@ by {
            assert(s[j].0@ != s[s.len() - 1].0@);
        }
        lemma_map_of_absent(t, e.0@);
        lemma_map_of_push(t, e);
        assert(t.push(e) =~= s);
    }
}

proof fn lemma_map_of_absent(s: Seq<(String, CacheAffinity)>, k: Seq<char>)
    requires
        forall|i: int| 0 <= i < s.len() ==> #[trigger] s[i].0@ != k,
    ensures
        !map_of(s).contains_key(k),
{
}

proof fn lemma_map_of_update(s: Seq<(String, CacheAffinity)>, i: int, e: (String, CacheAffinity))
    requires
        unique_keys(s),
        0 <= i < s.len(),
        e.0@ == s[i].0@,
    ensures
        unique_keys(s.update(i, e)),
        map_of(s.update(i, e)) == map_of(s).insert(e.0@, e.1@),
{
    let t = s.update(i, e);
    assert(unique_keys(t)) by {
        assert forall|a: int, b: int| 0 <= a < t.len() && 0 <= b < t.len() && a != b implies #[trigger] t[a].0@ != #[trigger] t[b].0@ by {
            assert(s[a].0@ != s[b].0@);
        }
    }
    let m = map_of(s).insert(e.0@, e.1@);
    assert forall|k: Seq<char>| #[trigger] map_of(t).contains_key(k) <==> m.contains_key(k) by {
        if m.contains_key(k) && k != e.0@ {
            let j = choose|j: int| 0 <= j < s.len() && #[trigger] s[j].0@ == k;
            assert(t[j].0@ == k);
        }
        if k == e.0@ {
            assert(t[i].0@ == k);
        }
        if map_of(t).contains_key(k) {
            let j = choose|j: int| 0 <= j < t.len() && #[trigger] t[j].0@ == k;
            if j != i {
                assert(s[j].0@ == k);
            }
        }
    }
    assert forall|k: Seq<char>| #[trigger] map_of(t).contains_key(k) implies map_of(t)[k] == m[k] by {
        let j = choose|j: int| 0 <= j < t.len() && #[trigger] t[j].0@ == k;
        lemma_map_of_at(t, j);
        if j != i {
            lemma_map_of_at(s, j);
        }
    }
    assert(map_of(t) =~= m);
}

proof fn lemma_map_of_push(s: Seq<(String, CacheAffinity)>, e: (String, CacheAffinity))
    requires
        unique_keys(s),
        !map_of(s).contains_key(e.0@),
    ensures
        unique_keys(s.push(e)),
        map_of(s.push(e)) == map_of(s).insert(e.0@, e.1@),
{
    let t = s.push(e);
    assert forall|j: int| 0 <= j < s.len() implies #[trigger] s[j].0@ != e.0@ by {
        lemma_map_of_at(s, j);
    }
    assert(unique_keys(t)) by {
        assert forall|a: int, b: int| 0 <= a < t.len() && 0 <= b < t.len() && a != b implies #[trigger] t[a].0@ != #[trigger] t[b].0@ by {
            if a < s.len() && b < s.len() {
                assert(s[a].0@ != s[b].0@);
            }
        }
    }
    let m = map_of(s).insert(e.0@, e.1@);
    assert forall|k: Seq<char>| #[trigger] map_of(t).contains_key(k) <==> m.contains_key(k) by {
        if m.contains_key(k) && k != e.0@ {
            let j = choose|j: int| 0 <= j < s.len() && #[trigger] s[j].0@ == k;
            assert(t[j].0@ == k);
        }
        if k == e.0@ {
            assert(t[s.len() as int].0@ == k);
        }
        if map_of(t).contains_key(k) {
            let j = choose|j: int| 0 <= j < t.len() && #[trigger] t[j].0@ == k;
            if j < s.len() {
                assert(s[j].0@ == k);
            }
        }
    }
    assert forall|k: Seq<char>| #[trigger] map_of(t).contains_key(k) implies map_of(t)[k] == m[k] by {
        let j = choose|j: int| 0 <= j < t.len() && #[trigger] t[j].0@ == k;
        lemma_map_of_at(t, j);
        if j < s.len() {
            lemma_map_of_at(s, j);
        }
    }
    assert(map_of(t) =~= m);
}

proof fn lemma_map_of_remove(s: Seq<(String, CacheAffinity)>, i: int)
    requires
        unique_keys(s),
        0 <= i < s.len(),
    ensures
        unique_keys(s.remove(i)),
        map_of(s.remove(i)) == map_of(s).remove(s[i].0@),
{
    let t = s.remove(i);
    let k0 = s[i].0@;
    assert forall|j: int| 0 <= j < t.len() implies #[trigger] t[j] == (if j < i { s[j] } else { s[j + 1] }) by {}
    assert(unique_keys(t)) by {
        assert forall|a: int, b: int| 0 <= a < t.len() && 0 <= b < t.len() && a != b implies #[trigger] t[a].0@ != #[trigger] t[b].0@ by {
            let sa = if a < i { a } else { a + 1 };
            let sb = if b < i { b } else { b + 1 };
            assert(t[a] == s[sa]);
            assert(t[b] == s[sb]);
            assert(s[sa].0@ != s[sb].0@);
        }
    }
    let m = map_of(s).remove(k0);
    assert forall|k: Seq<char>| #[trigger] map_of(t).contains_key(k) <==> m.contains_key(k) by {
        if m.contains_key(k) {
            let j = choose|j: int| 0 <= j < s.len() && #[trigger] s[j].0@ == k;
            assert(j != i);
            let tj = if j < i { j } else { j - 1 };
            assert(t[tj] == s[j]);
        }
        if map_of(t).contains_key(k) {
            let j = choose|j: int| 0 <= j < t.len() && #[trigger] t[j].0@ == k;
            let sj = if j < i { j } else { j + 1 };
            assert(t[j] == s[sj]);
            assert(s[sj].0@ == k);
            assert(sj != i);
            assert(s[sj].0@ != s[i].0@);
        }
    }
    assert forall|k: Seq<char>| #[trigger] map_of(t).contains_key(k) implies map_of(t)[k] == m[k] by {
        let j = choose|j: int| 0 <= j < t.len() && #[trigger] t[j].0@ == k;
        let sj = if j < i { j } else { j + 1 };
        assert(t[j] == s[sj]);
        lemma_map_of_at(t, j);
        lemma_map_of_at(s, sj);
    }
    assert(map_of(t) =~= m);
}

impl CacheAffinity {
    /// A field-by-field copy.
    pub fn duplicate(&self) -> (r: CacheAffinity)
        ensures
            r == *self,
    {
        CacheAffinity {
            provider_id: self.provider_id.clone(),
            expire_at: self.expire_at,
            request_count: self.request_count,
        }
    }
}

/// The expiry of a record written at `now` with a time-to-live of `ttl` seconds.
fn expiry(now: u64, ttl: u64) -> (r: u64)
    ensures
        r == expiry_after(now, ttl),
{
    let room = (u64::MAX - now) / MILLIS_PER_SECOND;
    if ttl > room {
        assert(ttl as int * 1000 > u64::MAX - now) by (nonlinear_arith)
            requires
                ttl > room,
                room == (u64::MAX - now) / 1000,
        ;
        u64::MAX
    } else {
        assert(ttl as int * 1000 <= u64::MAX - now) by (nonlinear_arith)
            requires
                ttl <= room,
                room == (u64::MAX - now) / 1000,
        ;
        now + ttl * MILLIS_PER_SECOND
    }
}

/// Relies on std's `SystemTime::now`: the wall-clock time as milliseconds
/// since the Unix epoch (0 for a clock set before it). Nothing is promised of
/// the value.
#[verifier::external_body]
pub(crate) fn current_time() -> u64 {
    std::time::SystemTime::now().duration_since(std::time::UNIX_EPOCH).map_or(0, |d| d.as_millis() as u64)
}

/// The affinity store. Each key has at most one record; its view is the map
/// from key to record. The records are held in a list with unique keys, since
/// a `HashMap` keyed by `String` has no specification of its lookups to prove
/// against; lookups are linear in the number of live pins.
pub struct CacheAffinityManager {
    entries: Vec<(String, CacheAffinity)>,
    default_ttl: u64,
}

impl View for CacheAffinityManager {
    type V = Map<Seq<char>, AffinityRecord>;

    closed spec fn view(&self) -> Map<Seq<char>, AffinityRecord> {
        map_of(self.entries@)
    }
}

impl CacheAffinityManager {
    /// The store's internal invariant: keys are unique.
    pub closed spec fn wf(&self) -> bool {
        unique_keys(self.entries@)
    }

    /// The time-to-live of a fresh record, in seconds.
    pub closed spec fn ttl(&self) -> u64 {
        self.default_ttl
    }

    /// An empty store whose records live `default_ttl` seconds.
    pub fn new(default_ttl: u64) -> (r: CacheAffinityManager)
        ensures
            r.wf(),
            r@ == Map::<Seq<char>, AffinityRecord>::empty(),
            r.ttl() == default_ttl,
    {
        let r = CacheAffinityManager { entries: Vec::new(), default_ttl };
        assert(r@ =~= Map::<Seq<char>, AffinityRecord>::empty());
        r
    }

    /// The affinity key of a caller, a request kind and a model:
    /// `{user_id}:{kind}:{model}`.
    pub fn generate_key(user_id: &str, kind: &str, model: &str) -> (r: String)
        ensures
            r@ == user_id@ + ":"@ + kind@ + ":"@ + model@,
    {
        let mut r = String::from_str(user_id);
        r.append(":");
        r.append(kind);
        r.append(":");
        r.append(model);
        r
    }

    /// The time-to-live of a fresh record, in seconds.
    pub fn default_ttl(&self) -> (r: u64)
        ensures
            r == self.ttl(),
    {
        self.default_ttl
    }

    /// The position of `key` among the entries, if it is there.
    fn find(&self, key: &str) -> (r: Option<usize>)
        requires
            self.wf(),
        ensures
            match r {
                Some(i) => i < self.entries@.len() && self.entries@[i as int].0@ == key@,
                None => !self@.contains_key(key@),
            },
    {
        let mut i: usize = 0;
        while i < self.entries.len()
            invariant
                i <= self.entries@.len(),
                forall|j: int| 0 <= j < i ==> #[trigger] self.entries@[j].0@ != key@,
            decreases self.entries@.len() - i,
        {
            if crate::text::same_text(self.entries[i].0.as_str(), key) {
                return Some(i);
            }
            i += 1;
        }
        proof {
            lemma_map_of_absent(self.entries@, key@);
        }
        None
    }

    /// Whether a record for `key` is stored, live or not.
    pub fn contains_key(&self, key: &str) -> (r: bool)
        requires
            self.wf(),
        ensures
            r == self@.contains_key(key@),
    {
        match self.find(key) {
            Some(i) => {
                proof {
                    lemma_map_of_at(self.entries@, i as int);
                }
                true
            },
            None => false,
        }
    }

    /// The usage counter of the record stored for `key`, live or not.
    pub fn hit_count(&self, key: &str) -> (r: Option<u32>)
        requires
            self.wf(),
        ensures
            r == (if self@.contains_key(key@) { Some(self@[key@].request_count) } else { None::<u32> }),
    {
        match self.find(key) {
            Some(i) => {
                proof {
                    lemma_map_of_at(self.entries@, i as int);
                }
                Some(self.entries[i].1.request_count)
            },
            None => None,
        }
    }

    /// The provider pinned to `key` at instant `now`, if its record is live;
    /// a live record has its counter bumped, an expired one is removed.
    pub fn get_at(&mut self, key: &str, now: u64) -> (r: Option<String>)
        requires
            old(self).wf(),
        ensures
            final(self).wf(),
            final(self).ttl() == old(self).ttl(),
            opt_view(r) == get_result(old(self)@, key@, now),
            final(self)@ == after_get(old(self)@, key@, now),
    {
        match self.find(key) {
            None => None,
            Some(i) => {
                proof {
                    lemma_map_of_at(self.entries@, i as int);
                }
                let expire_at = self.entries[i].1.expire_at;
                if now >= expire_at {
                    proof {
                        lemma_map_of_remove(self.entries@, i as int);
                    }
                    self.entries.remove(i);
                    None
                } else {
                    let provider_id = self.entries[i].1.provider_id.clone();
                    let count = self.entries[i].1.request_count;
                    let request_count = if count < u32::MAX {
                        count + 1
                    } else {
                        count
                    };
                    let record = CacheAffinity { provider_id: provider_id.clone(), expire_at, request_count };
                    let entry = (self.entries[i].0.clone(), record);
                    proof {
                        lemma_map_of_update(self.entries@, i as int, entry);
                    }
                    self.entries.set(i, entry);
                    Some(provider_id)
                }
            },
        }
    }

    /// `get_at` at the current system time.
    pub fn get(&mut self, key: &str) -> (r: Option<String>)
        requires
            old(self).wf(),
        ensures
            final(self).wf(),
            final(self).ttl() == old(self).ttl(),
            exists|now: u64|
                opt_view(r) == get_result(old(self)@, key@, now) && final(self)@ == after_get(old(self)@, key@, now),
    {
        let now = current_time();
        self.get_at(key, now)
    }

    /// Pins `key` to `provider_id` from instant `now` on, for the store's
    /// time-to-live, with a counter of one.
    pub fn set_at(&mut self, key: &str, provider_id: &str, now: u64)
        requires
            old(self).wf(),
        ensures
            final(self).wf(),
            final(self).ttl() == old(self).ttl(),
            final(self)@ == after_set(old(self)@, key@, provider_id@, now, old(self).ttl()),
    {
        let expire_at = expiry(now, self.default_ttl);
        let record = CacheAffinity { provider_id: String::from_str(provider_id), expire_at, request_count: 1 };
        let entry = (String::from_str(key), record);
        match self.find(key) {
            Some(i) => {
                proof {
                    lemma_map_of_update(self.entries@, i as int, entry);
                }
                self.entries.set(i, entry);
            },
            None => {
                proof {
                    lemma_map_of_push(self.entries@, entry);
                }
                self.entries.push(entry);
            },
        }
        assert(final(self)@ =~= after_set(old(self)@, key@, provider_id@, now, old(self).ttl()));
    }

    /// `set_at` at the current system time.
    pub fn set(&mut self, key: &str, provider_id: &str)
        requires
            old(self).wf(),
        ensures
            final(self).wf(),
            final(self).ttl() == old(self).ttl(),
            exists|now: u64| final(self)@ == after_set(old(self)@, key@, provider_id@, now, old(self).ttl()),
    {
        let now = current_time();
        self.set_at(key, provider_id, now);
    }

    /// Removes the record of `key`, whatever time it has left.
    pub fn invalidate(&mut self, key: &str)
        requires
            old(self).wf(),
        ensures
            final(self).wf(),
            final(self).ttl() == old(self).ttl(),
            final(self)@ == old(self)@.remove(key@),
    {
        match self.find(key) {
            Some(i) => {
                proof {
                    lemma_map_of_remove(self.entries@, i as int);
                }
                self.entries.remove(i);
            },
            None => {
                assert(self@ =~= old(self)@.remove(key@));
            },
        }
    }

    /// Removes every record that is expired at `now`; live records stay.
    pub fn sweep_at(&mut self, now: u64)
        requires
            old(self).wf(),
        ensures
            final(self).wf(),
            final(self).ttl() == old(self).ttl(),
            final(self)@ == after_sweep(old(self)@, now),
    {
        let ghost s = self.entries@;
        let mut kept: Vec<(String, CacheAffinity)> = Vec::new();
        let mut i: usize = 0;
        while i < self.entries.len()
            invariant
                s == self.entries@,
                unique_keys(s),
                i <= s.len(),
                unique_keys(kept@),
                forall|j: int| 0 <= j < kept@.len() ==> exists|t: int|
                    0 <= t < i && #[trigger] s[t] == #[trigger] kept@[j] && is_live(s[t].1@, now),
                forall|t: int| 0 <= t < i && is_live(s[t].1@, now) ==> exists|j: int|
                    0 <= j < kept@.len() && #[trigger] kept@[j] == #[trigger] s[t],
            decreases s.len() - i,
        {
            if now < self.entries[i].1.expire_at {
                let entry = (self.entries[i].0.clone(), self.entries[i].1.duplicate());
                assert(entry == s[i as int]);
                proof {
                    assert forall|a: int, b: int| 0 <= a < kept@.push(entry).len() && 0 <= b < kept@.push(entry).len() && a != b implies
                        #[trigger] kept@.push(entry)[a].0@ != #[trigger] kept@.push(entry)[b].0@ by {
                        let p = kept@.push(entry);
                        if a < kept@.len() && b < kept@.len() {
                            assert(kept@[a].0@ != kept@[b].0@);
                        } else if a < kept@.len() {
                            let t = choose|t: int| 0 <= t < i && #[trigger] s[t] == #[trigger] kept@[a] && is_live(s[t].1@, now);
                            assert(s[t].0@ != s[i as int].0@);
                        } else if b < kept@.len() {
                            let t = choose|t: int| 0 <= t < i && #[trigger] s[t] == #[trigger] kept@[b] && is_live(s[t].1@, now);
                            assert(s[t].0@ != s[i as int].0@);
                        }
                    }
                }
                let ghost prev = kept@;
                kept.push(entry);
                proof {
                    assert forall|j: int| 0 <= j < kept@.len() implies exists|t: int|
                        0 <= t < i + 1 && #[trigger] s[t] == #[trigger] kept@[j] && is_live(s[t].1@, now) by {
                        if j == kept@.len() - 1 {
                            assert(s[i as int] == kept@[j]);
                        } else {
                            let t = choose|t: int| 0 <= t < i && #[trigger] s[t] == #[trigger] prev[j] && is_live(s[t].1@, now);
                            assert(s[t] == kept@[j]);
                        }
                    }
                    assert forall|t: int| 0 <= t < i + 1 && is_live(s[t].1@, now) implies exists|j: int|
                        0 <= j < kept@.len() && #[trigger] kept@[j] == #[trigger] s[t] by {
                        if t == i {
                            assert(kept@[kept@.len() - 1] == s[t]);
                        } else {
                            let j = choose|j: int| 0 <= j < prev.len() && #[trigger] prev[j] == #[trigger] s[t];
                            assert(kept@[j] == s[t]);
                        }
                    }
                }
            }
            i += 1;
        }
        proof {
            let m = after_sweep(map_of(s), now);
            assert forall|k: Seq<char>| #[trigger] map_of(kept@).contains_key(k) <==> m.contains_key(k) by {
                if map_of(kept@).contains_key(k) {
                    let j = choose|j: int| 0 <= j < kept@.len() && #[trigger] kept@[j].0@ == k;
                    let t = choose|t: int| 0 <= t < i && #[trigger] s[t] == #[trigger] kept@[j] && is_live(s[t].1@, now);
                    lemma_map_of_at(s, t);
                }
                if m.contains_key(k) {
                    let t = choose|t: int| 0 <= t < s.len() && #[trigger] s[t].0@ == k;
                    lemma_map_of_at(s, t);
                    let j = choose|j: int| 0 <= j < kept@.len() && #[trigger] kept@[j] == #[trigger] s[t];
                    assert(kept@[j].0@ == k);
                }
            }
            assert forall|k: Seq<char>| #[trigger] map_of(kept@).contains_key(k) implies map_of(kept@)[k] == m[k] by {
                let j = choose|j: int| 0 <= j < kept@.len() && #[trigger] kept@[j].0@ == k;
                let t = choose|t: int| 0 <= t < i && #[trigger] s[t] == #[trigger] kept@[j] && is_live(s[t].1@, now);
                lemma_map_of_at(s, t);
                lemma_map_of_at(kept@, j);
            }
            assert(map_of(kept@) =~= m);
        }
        self.entries = kept;
    }

    /// `sweep_at` at the current system time.
    pub fn sweep(&mut self)
        requires
            old(self).wf(),
        ensures
            final(self).wf(),
            final(self).ttl() == old(self).ttl(),
            exists|now: u64| final(self)@ == after_sweep(old(self)@, now),
    {
        let now = current_time();
        self.sweep_at(now);
    }

    /// The number of stored records, live or not.
    pub fn len(&self) -> (r: usize)
        requires
            self.wf(),
        ensures
            r == self@.dom().len(),
    {
        proof {
            lemma_map_of_len(self.entries@);
        }
        self.entries.len()
    }
}

/// A key that no write has pinned is absent. A new store holds no key;
/// lookups, invalidations, sweeps and writes of other keys never add it; and
/// a lookup of an absent key finds nothing and changes nothing.
pub proof fn law_unset_key_is_absent(
    m: Map<Seq<char>, AffinityRecord>,
    k: Seq<char>,
    other: Seq<char>,
    any: Seq<char>,
    p: Seq<char>,
    now: u64,
    ttl: u64,
)
    requires
        !m.contains_key(k),
        other != k,
    ensures
        !Map::<Seq<char>, AffinityRecord>::empty().contains_key(k),
        get_result(m, k, now) is None,
        after_get(m, k, now) == m,
        !after_get(m, any, now).contains_key(k),
        !after_set(m, other, p, now, ttl).contains_key(k),
        !m.remove(any).contains_key(k),
        !after_sweep(m, now).contains_key(k),
{
}

/// After `set(k, p)` at `t0`, a lookup of `k` at `t1` returns `p` while
/// `t1` is before the expiry (`t0` plus the time-to-live) and nothing from the
/// expiry on; a lookup of a live record keeps its provider and its expiry.
pub proof fn law_set_then_get(
    m: Map<Seq<char>, AffinityRecord>,
    k: Seq<char>,
    p: Seq<char>,
    t0: u64,
    ttl: u64,
    t1: u64,
)
    ensures
        get_result(after_set(m, k, p, t0, ttl), k, t1) == (if t1 < expiry_after(t0, ttl) { Some(p) } else { None }),
        t0 as int + ttl as int * 1000 <= u64::MAX ==> expiry_after(t0, ttl) == t0 as int + ttl as int * 1000,
        t0 as int + ttl as int * 1000 <= u64::MAX ==> get_result(after_set(m, k, p, t0, ttl), k, t1) == (if t1 < t0 as int
            + ttl as int * 1000 { Some(p) } else { None }),
        t0 as int + ttl as int * 1000 > u64::MAX ==> get_result(after_set(m, k, p, t0, ttl), k, t1) == (if t1 < u64::MAX {
            Some(p)
        } else {
            None
        }),
        after_set(m, k, p, t0, ttl)[k] == (AffinityRecord { provider_id: p, expire_at: expiry_after(t0, ttl), request_count: 1 }),
        m.contains_key(k) && is_live(m[k], t1) ==> after_get(m, k, t1)[k].provider_id == m[k].provider_id
            && after_get(m, k, t1)[k].expire_at == m[k].expire_at,
{
}

/// One write and two lookups within the window leave a counter of three.
pub proof fn law_two_hits_after_set(
    m: Map<Seq<char>, AffinityRecord>,
    k: Seq<char>,
    p: Seq<char>,
    t0: u64,
    ttl: u64,
    t1: u64,
    t2: u64,
)
    requires
        t1 < expiry_after(t0, ttl),
        t2 < expiry_after(t0, ttl),
    ensures
        ({
            let m1 = after_set(m, k, p, t0, ttl);
            let m2 = after_get(m1, k, t1);
            let m3 = after_get(m2, k, t2);
            &&& m1[k].request_count == 1
            &&& get_result(m1, k, t1) == Some(p)
            &&& get_result(m2, k, t2) == Some(p)
            &&& m3[k].request_count == 3
        }),
{
}

/// Right after an invalidation of `k`, a lookup of `k` finds nothing,
/// whatever time the record had left.
pub proof fn law_invalidate_then_get(m: Map<Seq<char>, AffinityRecord>, k: Seq<char>, now: u64)
    ensures
        get_result(m.remove(k), k, now) is None,
{
}

/// A sweep at `now` removes exactly the records whose expiry is at or before
/// `now`; the records that remain are unchanged.
pub proof fn law_sweep_keeps_live(m: Map<Seq<char>, AffinityRecord>, now: u64)
    ensures
        forall|k: Seq<char>| #[trigger] after_sweep(m, now).contains_key(k) <==> (m.contains_key(k) && m[k].expire_at > now),
        forall|k: Seq<char>| #[trigger] after_sweep(m, now).contains_key(k) ==> after_sweep(m, now)[k] == m[k],
{
}

} // verus!
