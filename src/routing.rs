//! The routing engine: what a request is keyed by, and the per-request
//! failover state machine that decides which provider to try next and how the
//! affinity store changes after each attempt.
//!
//! The engine makes no network call itself. A driver starts a session, makes
//! the attempt that each `RouteAction::Attempt` names, and hands the outcome
//! back through `record` or `record_at`.
use vstd::prelude::*;
use crate::affinity::{after_get, after_set, expiry_after, get_result, AffinityRecord, CacheAffinityManager};
use crate::digest::{digest_text, hash_string};
use crate::registry::{id_of, of_kind, provider_id, providers_for_kind, views, ResolvedProvider, ResolvedView};
use crate::text::{same_text, trim_text, trimmed};

verus! {

/// A request that cannot be routed.
#[derive(Debug, Clone, Copy, PartialEq, Eq)]
pub enum RouteError {
    /// The body is not a JSON document.
    InvalidBody,
    /// No provider serves the requested kind; nothing was attempted.
    NoProviders,
}

/// What the driver does next.
#[derive(Debug, Clone, Copy, PartialEq, Eq)]
pub enum RouteAction {
    /// Attempt delivery to the candidate at this index.
    Attempt(usize),
    /// The candidate at this index delivered; its response goes to the
    /// caller.
    Delivered(usize),
    /// Every candidate failed; `tried` is the number of candidates.
    Exhausted { tried: usize },
}

/// The string found under a field of a JSON document: `None` when the bytes
/// are not one JSON document, `Some(None)` when the document has no string
/// under that field.
pub uninterp spec fn json_string_field_of(body: Seq<u8>, field: Seq<char>) -> Option<Option<Seq<char>>>;

/// The text of a nested optional string.
pub open spec fn opt_opt_view(o: Option<Option<String>>) -> Option<Option<Seq<char>>> {
    match o {
        Some(Some(s)) => Some(Some(s@)),
        Some(None) => Some(None),
        None => None,
    }
}

/// Relies on serde_json's `from_slice` into a `Value`, then `Value::get` of
/// the field and `Value::as_str`: the document's string under `field`, if the
/// bytes parse.
#[verifier::external_body]
fn json_string_field(body: &[u8], field: &str) -> (r: Option<Option<String>>)
    ensures
        opt_opt_view(r) == json_string_field_of(body@, field@),
{
    match serde_json::from_slice::<serde_json::Value>(body) {
        Ok(v) => Some(v.get(field).and_then(|x| x.as_str()).map(|s| s.to_string())),
        Err(_) => None,
    }
}

/// The model of a request, from what a lookup of its `model` field found:
/// an unparseable body is an input error, a missing model is `unknown`.
pub open spec fn model_from_spec(found: Option<Option<Seq<char>>>) -> Result<Seq<char>, RouteError> {
    match found {
        None => Err(RouteError::InvalidBody),
        Some(None) => Ok("unknown"@),
        Some(Some(m)) => Ok(m),
    }
}

/// The model of a request body.
pub open spec fn request_model_spec(body: Seq<u8>) -> Result<Seq<char>, RouteError> {
    model_from_spec(json_string_field_of(body, "model"@))
}

/// The text of a result whose success is a string.
pub open spec fn result_view(r: Result<String, RouteError>) -> Result<Seq<char>, RouteError> {
    match r {
        Ok(s) => Ok(s@),
        Err(e) => Err(e),
    }
}

/// The model of a request, from what a lookup of its `model` field found.
pub fn model_from_lookup(found: Option<Option<String>>) -> (r: Result<String, RouteError>)
    ensures
        result_view(r) == model_from_spec(opt_opt_view(found)),
{
    match found {
        None => Err(RouteError::InvalidBody),
        Some(None) => Ok(String::from_str("unknown")),
        Some(Some(m)) => Ok(m),
    }
}

/// The model named by a request body; see `model_from_lookup`.
pub fn request_model(body: &[u8]) -> (r: Result<String, RouteError>)
    ensures
        result_view(r) == request_model_spec(body@),
{
    model_from_lookup(json_string_field(body, "model"))
}

/// The credential in an `Authorization` value: the text after a leading
/// `Bearer `, if there is one.
pub open spec fn strip_bearer(s: Seq<char>) -> Seq<char> {
    if s.len() >= 7 && s.subrange(0, 7) == "Bearer "@ {
        s.subrange(7, s.len() as int)
    } else {
        s
    }
}

/// The caller id of a request: the digest of its trimmed credential, or
/// `anonymous` when it presents none.
pub open spec fn user_id_of(auth: Option<Seq<char>>) -> Seq<char> {
    match auth {
        Some(a) => digest_text(trimmed(strip_bearer(a))),
        None => "anonymous"@,
    }
}

/// The affinity key of a request: caller id, kind and model.
pub open spec fn route_key(auth: Option<Seq<char>>, kind: Seq<char>, model: Seq<char>) -> Seq<char> {
    user_id_of(auth) + ":"@ + kind + ":"@ + model
}

/// The text of an optional string slice.
pub open spec fn opt_str_view(o: Option<&str>) -> Option<Seq<char>> {
    match o {
        Some(s) => Some(s@),
        None => None,
    }
}

/// The caller id of a request from its `Authorization` value, if it has a
/// readable one; see `user_id_of`.
pub fn extract_user_id(auth: Option<&str>) -> (r: String)
    ensures
        r@ == user_id_of(opt_str_view(auth)),
{
    match auth {
        Some(a) => {
            let n = a.unicode_len();
            let token = if n >= 7 && same_text(a.substring_char(0, 7), "Bearer ") {
                a.substring_char(7, n)
            } else {
                a
            };
            assert(token@ == strip_bearer(a@));
            let trimmed_token = trim_text(token);
            hash_string(trimmed_token.as_str())
        },
        None => String::from_str("anonymous"),
    }
}

/// The first of the first `n` candidates whose identity is the pinned one.
pub open spec fn first_match_upto(c: Seq<ResolvedView>, cached: Option<Seq<char>>, n: int) -> Option<int>
    decreases n,
{
    if n <= 0 {
        None
    } else {
        match first_match_upto(c, cached, n - 1) {
            Some(i) => Some(i),
            None => if cached == Some(id_of(c[n - 1])) {
                Some(n - 1)
            } else {
                None
            },
        }
    }
}

/// The first `n` candidates, in order, less those whose identity is the
/// pinned one.
pub open spec fn sweep_upto(c: Seq<ResolvedView>, cached: Option<Seq<char>>, n: int) -> Seq<int>
    decreases n,
{
    if n <= 0 {
        Seq::empty()
    } else {
        let prev = sweep_upto(c, cached, n - 1);
        if cached == Some(id_of(c[n - 1])) {
            prev
        } else {
            prev.push(n - 1)
        }
    }
}

/// The candidate that the pinned identity designates, if it is still among
/// the candidates.
pub open spec fn sticky_index(c: Seq<ResolvedView>, cached: Option<Seq<char>>) -> Option<int> {
    first_match_upto(c, cached, c.len() as int)
}

/// The order in which candidates are attempted: the pinned candidate first,
/// if it is present, then every candidate in registry order whose identity
/// is not the pinned one.
pub open spec fn attempt_order(c: Seq<ResolvedView>, cached: Option<Seq<char>>) -> Seq<int> {
    match sticky_index(c, cached) {
        Some(s) => seq![s] + sweep_upto(c, cached, c.len() as int),
        None => sweep_upto(c, cached, c.len() as int),
    }
}

/// A list of indices as integers.
pub open spec fn ints(s: Seq<usize>) -> Seq<int> {
    s.map_values(|x: usize| x as int)
}

/// The state of one request's routing.
pub struct SessionView {
    /// The affinity key of the request.
    pub key: Seq<char>,
    /// The model the request names.
    pub model: Seq<char>,
    /// The providers of the request's kind, in registry order.
    pub candidates: Seq<ResolvedView>,
    /// The identity that the affinity store held for the key, if any.
    pub cached: Option<Seq<char>>,
    /// How many attempts have failed.
    pub tried: nat,
    /// Whether a candidate delivered or every one failed.
    pub finished: bool,
}

/// The candidate of the attempt that is under way.
pub open spec fn current_candidate(v: SessionView) -> int {
    attempt_order(v.candidates, v.cached)[v.tried as int]
}

/// The affinity store after the outcome of the current attempt: a delivery
/// pins the key to that candidate; a failure of the pinned candidate removes
/// the key's record; any other failure leaves the store as it is.
pub open spec fn store_after(
    m: Map<Seq<char>, AffinityRecord>,
    v: SessionView,
    delivered: bool,
    now: u64,
    ttl: u64,
) -> Map<Seq<char>, AffinityRecord> {
    if delivered {
        after_set(m, v.key, id_of(v.candidates[current_candidate(v)]), now, ttl)
    } else if v.tried == 0 && sticky_index(v.candidates, v.cached) is Some {
        m.remove(v.key)
    } else {
        m
    }
}

/// What to do after the outcome of the current attempt.
pub open spec fn action_after(v: SessionView, delivered: bool) -> RouteAction {
    let order = attempt_order(v.candidates, v.cached);
    if delivered {
        RouteAction::Delivered(current_candidate(v) as usize)
    } else if v.tried + 1 < order.len() {
        RouteAction::Attempt(order[v.tried + 1int] as usize)
    } else {
        RouteAction::Exhausted { tried: v.candidates.len() as usize }
    }
}

/// The session after the outcome of the current attempt.
pub open spec fn view_after(v: SessionView, delivered: bool) -> SessionView {
    if delivered {
        SessionView { finished: true, ..v }
    } else {
        SessionView {
            tried: v.tried + 1,
            finished: v.tried + 1 >= attempt_order(v.candidates, v.cached).len(),
            ..v
        }
    }
}

proof fn lemma_order_bounds(c: Seq<ResolvedView>, cached: Option<Seq<char>>, n: int)
    requires
        0 <= n <= c.len(),
    ensures
        forall|j: int| 0 <= j < sweep_upto(c, cached, n).len() ==> 0 <= #[trigger] sweep_upto(c, cached, n)[j] < n,
        match first_match_upto(c, cached, n) {
            Some(i) => 0 <= i < n,
            None => sweep_upto(c, cached, n).len() == n,
        },
    decreases n,
{
    if n > 0 {
        lemma_order_bounds(c, cached, n - 1);
    }
}

proof fn lemma_attempt_order(c: Seq<ResolvedView>, cached: Option<Seq<char>>)
    ensures
        c.len() > 0 ==> attempt_order(c, cached).len() > 0,
        forall|j: int| 0 <= j < attempt_order(c, cached).len() ==> 0 <= #[trigger] attempt_order(c, cached)[j] < c.len(),
{
    lemma_order_bounds(c, cached, c.len() as int);
    let sw = sweep_upto(c, cached, c.len() as int);
    match sticky_index(c, cached) {
        Some(s) => {
            assert forall|j: int| 0 <= j < attempt_order(c, cached).len() implies 0 <= #[trigger] attempt_order(c, cached)[j] < c.len() by {
                if j > 0 {
                    assert(attempt_order(c, cached)[j] == sw[j - 1]);
                }
            }
        },
        None => {},
    }
}

/// The attempt order of `candidates` given the pinned identity `cached`,
/// and whether it starts with the pinned candidate.
fn plan_order(candidates: &Vec<ResolvedProvider>, cached: &Option<String>) -> (r: (Vec<usize>, bool))
    ensures
        ints(r.0@) == attempt_order(views(candidates@), crate::affinity::opt_view(*cached)),
        r.1 == sticky_index(views(candidates@), crate::affinity::opt_view(*cached)) is Some,
{
    let ghost c = views(candidates@);
    let ghost cv = crate::affinity::opt_view(*cached);
    let mut sweep: Vec<usize> = Vec::new();
    let mut sticky: Option<usize> = None;
    let mut i: usize = 0;
    while i < candidates.len()
        invariant
            i <= candidates@.len(),
            c == views(candidates@),
            cv == crate::affinity::opt_view(*cached),
            ints(sweep@) == sweep_upto(c, cv, i as int),
            match sticky {
                Some(s) => first_match_upto(c, cv, i as int) == Some(s as int),
                None => first_match_upto(c, cv, i as int) is None,
            },
        decreases candidates@.len() - i,
    {
        let matches = match cached {
            Some(cid) => {
                let id = provider_id(&candidates[i]);
                id == *cid
            },
            None => false,
        };
        assert(matches == (cv == Some(id_of(c[i as int]))));
        if matches {
            if sticky.is_none() {
                sticky = Some(i);
            }
        } else {
            let ghost before = sweep@;
            sweep.push(i);
            assert(ints(sweep@) =~= ints(before).push(i as int));
        }
        i += 1;
    }
    match sticky {
        Some(s) => {
            let mut order: Vec<usize> = Vec::new();
            order.push(s);
            let ghost tail = sweep@;
            order.append(&mut sweep);
            assert(ints(order@) =~= seq![s as int] + ints(tail));
            (order, true)
        },
        None => (sweep, false),
    }
}

/// One request's routing: its key, its candidates, the attempt order and how
/// far it has gone.
pub struct RouteSession {
    key: String,
    model: String,
    candidates: Vec<ResolvedProvider>,
    cached: Option<String>,
    order: Vec<usize>,
    sticky: bool,
    tried: usize,
    finished: bool,
}

impl View for RouteSession {
    type V = SessionView;

    closed spec fn view(&self) -> SessionView {
        SessionView {
            key: self.key@,
            model: self.model@,
            candidates: views(self.candidates@),
            cached: crate::affinity::opt_view(self.cached),
            tried: self.tried as nat,
            finished: self.finished,
        }
    }
}

impl RouteSession {
    /// The session's internal invariant.
    pub closed spec fn wf(&self) -> bool {
        let order = attempt_order(self@.candidates, self@.cached);
        &&& ints(self.order@) == order
        &&& self.sticky == sticky_index(self@.candidates, self@.cached) is Some
        &&& self.tried <= self.order@.len()
        &&& !self.finished ==> self.tried < self.order@.len()
        &&& forall|j: int| 0 <= j < order.len() ==> 0 <= #[trigger] order[j] < self.candidates@.len()
    }

    /// Starts routing a request with affinity key `key` over `candidates`,
    /// given the identity that the affinity store holds for the key. With no
    /// candidate it fails at once and nothing is attempted; otherwise the
    /// first action is an attempt at the head of the attempt order.
    pub fn start(key: String, model: String, cached: Option<String>, candidates: Vec<ResolvedProvider>) -> (r: Result<
        (RouteSession, RouteAction),
        RouteError,
    >)
        ensures
            candidates@.len() == 0 <==> r is Err,
            match r {
                Ok((s, a)) => {
                    &&& s.wf()
                    &&& s@ == (SessionView {
                        key: key@,
                        model: model@,
                        candidates: views(candidates@),
                        cached: crate::affinity::opt_view(cached),
                        tried: 0,
                        finished: false,
                    })
                    &&& a == RouteAction::Attempt(attempt_order(s@.candidates, s@.cached)[0] as usize)
                },
                Err(e) => e == RouteError::NoProviders,
            },
    {
        if candidates.len() == 0 {
            return Err(RouteError::NoProviders);
        }
        let (order, sticky) = plan_order(&candidates, &cached);
        proof {
            lemma_attempt_order(views(candidates@), crate::affinity::opt_view(cached));
        }
        let first = order[0];
        let s = RouteSession { key, model, candidates, cached, order, sticky, tried: 0, finished: false };
        Ok((s, RouteAction::Attempt(first)))
    }

    /// Starts routing a request of kind `kind` with body `body` and
    /// `Authorization` value `auth`, at instant `now`: reads the model (an
    /// unparseable body fails before anything else), derives the affinity
    /// key, looks the key up in `store`, takes the providers of the kind from
    /// `registry`, and starts the session (see `start`).
    pub fn begin_at(
        store: &mut CacheAffinityManager,
        registry: &Vec<ResolvedProvider>,
        kind: &str,
        body: &[u8],
        auth: Option<&str>,
        now: u64,
    ) -> (r: Result<(RouteSession, RouteAction), RouteError>)
        requires
            old(store).wf(),
        ensures
            final(store).wf(),
            final(store).ttl() == old(store).ttl(),
            match request_model_spec(body@) {
                Err(e) => final(store)@ == old(store)@ && match r {
                    Err(e2) => e2 == e,
                    Ok(_) => false,
                },
                Ok(model) => {
                    let key = route_key(opt_str_view(auth), kind@, model);
                    let candidates = of_kind(views(registry@), kind@);
                    &&& final(store)@ == after_get(old(store)@, key, now)
                    &&& (candidates.len() == 0 <==> r is Err)
                    &&& match r {
                        Ok((s, a)) => {
                            &&& s.wf()
                            &&& s@ == (SessionView {
                                key,
                                model,
                                candidates,
                                cached: get_result(old(store)@, key, now),
                                tried: 0,
                                finished: false,
                            })
                            &&& a == RouteAction::Attempt(attempt_order(candidates, s@.cached)[0] as usize)
                        },
                        Err(e) => e == RouteError::NoProviders,
                    }
                },
            },
    {
        let model = match request_model(body) {
            Ok(m) => m,
            Err(e) => return Err(e),
        };
        let user_id = extract_user_id(auth);
        let key = CacheAffinityManager::generate_key(user_id.as_str(), kind, model.as_str());
        let cached = store.get_at(key.as_str(), now);
        let candidates = providers_for_kind(registry, kind);
        RouteSession::start(key, model, cached, candidates)
    }

    /// `begin_at` at the current system time.
    pub fn begin(
        store: &mut CacheAffinityManager,
        registry: &Vec<ResolvedProvider>,
        kind: &str,
        body: &[u8],
        auth: Option<&str>,
    ) -> (r: Result<(RouteSession, RouteAction), RouteError>)
        requires
            old(store).wf(),
        ensures
            final(store).wf(),
            final(store).ttl() == old(store).ttl(),
            match request_model_spec(body@) {
                Err(e) => final(store)@ == old(store)@ && match r {
                    Err(e2) => e2 == e,
                    Ok(_) => false,
                },
                Ok(model) => {
                    let key = route_key(opt_str_view(auth), kind@, model);
                    let candidates = of_kind(views(registry@), kind@);
                    &&& (candidates.len() == 0 <==> r is Err)
                    &&& exists|now: u64| {
                        &&& final(store)@ == after_get(old(store)@, key, now)
                        &&& match r {
                            Ok((s, a)) => {
                                &&& s.wf()
                                &&& s@ == (SessionView {
                                    key,
                                    model,
                                    candidates,
                                    cached: get_result(old(store)@, key, now),
                                    tried: 0,
                                    finished: false,
                                })
                                &&& a == RouteAction::Attempt(attempt_order(candidates, s@.cached)[0] as usize)
                            },
                            Err(e) => e == RouteError::NoProviders,
                        }
                    }
                },
            },
    {
        let now = crate::affinity::current_time();
        RouteSession::begin_at(store, registry, kind, body, auth, now)
    }

    /// The affinity key of the request.
    pub fn key(&self) -> (r: &String)
        ensures
            r@ == self@.key,
    {
        &self.key
    }

    /// The model the request names.
    pub fn model(&self) -> (r: &String)
        ensures
            r@ == self@.model,
    {
        &self.model
    }

    /// The number of candidates.
    pub fn candidate_count(&self) -> (r: usize)
        ensures
            r == self@.candidates.len(),
    {
        self.candidates.len()
    }

    /// The candidate at index `i`.
    pub fn candidate(&self, i: usize) -> (r: &ResolvedProvider)
        requires
            i < self@.candidates.len(),
        ensures
            r@ == self@.candidates[i as int],
    {
        &self.candidates[i]
    }

    /// The candidate whose attempt is under way, unless the session is over.
    pub fn pending(&self) -> (r: Option<usize>)
        requires
            self.wf(),
        ensures
            r == (if self@.finished { None } else { Some(current_candidate(self@) as usize) }),
    {
        if self.finished {
            None
        } else {
            Some(self.order[self.tried])
        }
    }

    /// Records the outcome of the attempt under way, at instant `now`:
    /// updates the affinity store and says what to do next (see
    /// `store_after`, `action_after` and `view_after`).
    pub fn record_at(&mut self, store: &mut CacheAffinityManager, delivered: bool, now: u64) -> (r: RouteAction)
        requires
            old(self).wf(),
            !old(self)@.finished,
            old(store).wf(),
        ensures
            final(self).wf(),
            final(store).wf(),
            final(store).ttl() == old(store).ttl(),
            final(store)@ == store_after(old(store)@, old(self)@, delivered, now, old(store).ttl()),
            r == action_after(old(self)@, delivered),
            final(self)@ == view_after(old(self)@, delivered),
    {
        let i = self.order[self.tried];
        if delivered {
            let id = provider_id(&self.candidates[i]);
            store.set_at(self.key.as_str(), id.as_str(), now);
            self.finished = true;
            RouteAction::Delivered(i)
        } else {
            if self.tried == 0 && self.sticky {
                store.invalidate(self.key.as_str());
            }
            let n = self.order.len();
            self.tried += 1;
            if self.tried < n {
                RouteAction::Attempt(self.order[self.tried])
            } else {
                self.finished = true;
                RouteAction::Exhausted { tried: self.candidates.len() }
            }
        }
    }

    /// `record_at` at the current system time.
    pub fn record(&mut self, store: &mut CacheAffinityManager, delivered: bool) -> (r: RouteAction)
        requires
            old(self).wf(),
            !old(self)@.finished,
            old(store).wf(),
        ensures
            final(self).wf(),
            final(store).wf(),
            final(store).ttl() == old(store).ttl(),
            exists|now: u64| final(store)@ == store_after(old(store)@, old(self)@, delivered, now, old(store).ttl()),
            r == action_after(old(self)@, delivered),
            final(self)@ == view_after(old(self)@, delivered),
    {
        let now = crate::affinity::current_time();
        self.record_at(store, delivered, now)
    }
}

/// With two candidates of different identities and no pinned provider, the
/// first is attempted first; when it fails the store is untouched and the
/// second is attempted; when the second delivers, its response is the one
/// delivered and the key is pinned to the second's identity.
pub proof fn law_failover_pins_next(
    c: Seq<ResolvedView>,
    key: Seq<char>,
    model: Seq<char>,
    m: Map<Seq<char>, AffinityRecord>,
    now: u64,
    ttl: u64,
)
    requires
        c.len() == 2,
        id_of(c[0]) != id_of(c[1]),
    ensures
        ({
            let v0 = SessionView { key, model, candidates: c, cached: None, tried: 0, finished: false };
            let v1 = view_after(v0, false);
            let m1 = store_after(m, v0, false, now, ttl);
            &&& attempt_order(c, None) == seq![0int, 1int]
            &&& action_after(v0, false) == RouteAction::Attempt(1)
            &&& m1 == m
            &&& !v1.finished
            &&& action_after(v1, true) == RouteAction::Delivered(1)
            &&& store_after(m1, v1, true, now, ttl) == after_set(m, key, id_of(c[1]), now, ttl)
            &&& store_after(m1, v1, true, now, ttl)[key].provider_id == id_of(c[1])
            &&& store_after(m1, v1, true, now, ttl)[key] == (AffinityRecord {
                provider_id: id_of(c[1]),
                expire_at: expiry_after(now, ttl),
                request_count: 1,
            })
            &&& (now as int + ttl as int * 1000 <= u64::MAX ==> store_after(m1, v1, true, now, ttl)[key].expire_at
                == now as int + ttl as int * 1000)
        }),
{
    let cv: Option<Seq<char>> = None;
    assert(sweep_upto(c, cv, 0) == Seq::<int>::empty());
    assert(sweep_upto(c, cv, 1) =~= seq![0int]);
    assert(sweep_upto(c, cv, 2) =~= seq![0int, 1int]);
    assert(first_match_upto(c, cv, 0) is None);
    assert(first_match_upto(c, cv, 1) is None);
    assert(first_match_upto(c, cv, 2) is None);
}

/// With two candidates of different identities and the key pinned to the
/// first, the first is attempted first; when it fails the key's record is
/// removed and the second is attempted; when the second delivers, the key is
/// pinned to the second's identity.
pub proof fn law_failed_pin_moves_to_next(
    c: Seq<ResolvedView>,
    key: Seq<char>,
    model: Seq<char>,
    m: Map<Seq<char>, AffinityRecord>,
    now: u64,
    ttl: u64,
)
    requires
        c.len() == 2,
        id_of(c[0]) != id_of(c[1]),
    ensures
        ({
            let v0 = SessionView { key, model, candidates: c, cached: Some(id_of(c[0])), tried: 0, finished: false };
            let v1 = view_after(v0, false);
            let m1 = store_after(m, v0, false, now, ttl);
            &&& attempt_order(c, Some(id_of(c[0]))) == seq![0int, 1int]
            &&& m1 == m.remove(key)
            &&& !m1.contains_key(key)
            &&& action_after(v0, false) == RouteAction::Attempt(1)
            &&& action_after(v1, true) == RouteAction::Delivered(1)
            &&& store_after(m1, v1, true, now, ttl)[key].provider_id == id_of(c[1])
            &&& store_after(m1, v1, true, now, ttl)[key] == (AffinityRecord {
                provider_id: id_of(c[1]),
                expire_at: expiry_after(now, ttl),
                request_count: 1,
            })
            &&& (now as int + ttl as int * 1000 <= u64::MAX ==> store_after(m1, v1, true, now, ttl)[key].expire_at
                == now as int + ttl as int * 1000)
        }),
{
    let cv = Some(id_of(c[0]));
    assert(sweep_upto(c, cv, 0) == Seq::<int>::empty());
    assert(sweep_upto(c, cv, 1) == Seq::<int>::empty());
    assert(sweep_upto(c, cv, 2) =~= seq![1int]);
    assert(first_match_upto(c, cv, 0) is None);
    assert(first_match_upto(c, cv, 1) == Some(0int));
    assert(first_match_upto(c, cv, 2) == Some(0int));
    assert(attempt_order(c, cv) =~= seq![0int, 1int]);
}

} // verus!
