//! A fixed-window rate limiter keyed by client address.
//!
//! Each client has a window that opens with its first request.  Within a
//! window at most `max_requests` requests are admitted; the first request
//! that arrives after the window has run out opens a new one.

use vstd::prelude::*;
use vstd::string::StringExecFns;
use crate::response::ApiError;

verus! {

/// The window of one client: the requests admitted in it, and when it opened.
pub struct Window {
    pub count: nat,
    pub started: nat,
}

/// What a limiter is: the open windows by client, and its two settings.
pub struct RateLimiterModel {
    pub windows: Map<Seq<char>, Window>,
    pub max_requests: nat,
    pub window: nat,
}

/// The time that has passed between `started` and `now`; none if the clock
/// reads earlier than `started`.
pub open spec fn elapsed(started: nat, now: nat) -> nat {
    if now >= started {
        (now - started) as nat
    } else {
        0
    }
}

/// The window of `ip` when a request arrives at `now`: the one on record, or
/// a fresh one that opens at `now` and has admitted nothing yet.
pub open spec fn window_on_arrival(m: RateLimiterModel, ip: Seq<char>, now: nat) -> Window {
    if m.windows.contains_key(ip) {
        m.windows[ip]
    } else {
        Window { count: 0, started: now }
    }
}

/// Whether a request of `ip` that arrives at `now` is admitted.
pub open spec fn admitted(m: RateLimiterModel, ip: Seq<char>, now: nat) -> bool {
    let w = window_on_arrival(m, ip, now);
    elapsed(w.started, now) > m.window || w.count < m.max_requests
}

/// The limiter after a request of `ip` has arrived at `now`.
pub open spec fn after_request(m: RateLimiterModel, ip: Seq<char>, now: nat) -> RateLimiterModel {
    let w = window_on_arrival(m, ip, now);
    let next = if elapsed(w.started, now) > m.window {
        Window { count: 1, started: now }
    } else if w.count < m.max_requests {
        Window { count: w.count + 1, started: w.started }
    } else {
        w
    };
    RateLimiterModel { windows: m.windows.insert(ip, next), ..m }
}

/// A request of `ip` took `before` to `after` with the answer `allowed`, for
/// the clock reading `now`.
pub open spec fn request_at(
    before: RateLimiterModel,
    after: RateLimiterModel,
    ip: Seq<char>,
    now: nat,
    allowed: bool,
) -> bool {
    after == after_request(before, ip, now) && allowed == admitted(before, ip, now)
}

/// `std::time::Instant`: a reading of the monotonic clock.  Nothing is known
/// of what it holds.
#[verifier::external_type_specification]
#[verifier::external_body]
pub struct ExInstant(std::time::Instant);

/// `std::time::Instant::now`: a reading of the monotonic clock.  Nothing is
/// claimed of it.
#[verifier::external_body]
fn clock_start() -> (origin: std::time::Instant) {
    std::time::Instant::now()
}

/// `std::time::Instant::elapsed`: the time that has passed since `origin`
/// was read.  Nothing is claimed of it.
#[verifier::external_body]
fn clock_elapsed(origin: &std::time::Instant) -> (passed: std::time::Duration) {
    origin.elapsed()
}

/// `std::time::Duration::as_nanos`: a length of time in whole nanoseconds.
/// Nothing is claimed of it.
#[verifier::external_body]
fn whole_nanos(passed: &std::time::Duration) -> (nanos: u128) {
    passed.as_nanos()
}

/// The record kept for one client.
struct ClientWindow {
    ip: String,
    count: usize,
    started: u128,
}

/// A fixed-window rate limiter.  Times are in nanoseconds since the limiter
/// was made.
pub struct RateLimiter {
    clients: Vec<ClientWindow>,
    max_requests: usize,
    window: u128,
    origin: std::time::Instant,
}

impl View for RateLimiter {
    type V = RateLimiterModel;

    closed spec fn view(&self) -> RateLimiterModel {
        RateLimiterModel {
            windows: Map::new(
                |ip: Seq<char>| self.position(ip) >= 0,
                |ip: Seq<char>|
                    Window {
                        count: self.clients@[self.position(ip)].count as nat,
                        started: self.clients@[self.position(ip)].started as nat,
                    },
            ),
            max_requests: self.max_requests as nat,
            window: self.window as nat,
        }
    }
}

impl RateLimiter {
    /// Where the record of `ip` is kept, or -1.
    closed spec fn position(&self, ip: Seq<char>) -> int {
        if exists|i: int| 0 <= i < self.clients@.len() && self.clients@[i].ip@ == ip {
            choose|i: int| 0 <= i < self.clients@.len() && self.clients@[i].ip@ == ip
        } else {
            -1
        }
    }

    /// No client has two records.
    pub closed spec fn wf(&self) -> bool {
        forall|i: int, j: int|
            0 <= i < j < self.clients@.len() ==> self.clients@[i].ip@ != self.clients@[j].ip@
    }

    /// A limiter that admits `max_requests` requests per window of
    /// `window_nanos` nanoseconds, with no window open.
    pub fn new(max_requests: usize, window_nanos: u128) -> (limiter: RateLimiter)
        ensures
            limiter.wf(),
            limiter@.windows == Map::<Seq<char>, Window>::empty(),
            limiter@.max_requests == max_requests,
            limiter@.window == window_nanos,
    {
        let limiter = RateLimiter {
            clients: Vec::new(),
            max_requests,
            window: window_nanos,
            origin: clock_start(),
        };
        assert(limiter@.windows =~= Map::<Seq<char>, Window>::empty());
        limiter
    }

    /// The number of requests a client may make per window.
    pub fn max_requests(&self) -> (n: usize)
        ensures
            n == self@.max_requests,
    {
        self.max_requests
    }

    /// The length of a window, in nanoseconds.
    pub fn window_nanos(&self) -> (n: u128)
        ensures
            n == self@.window,
    {
        self.window
    }

    /// The index of the record of `ip`, if there is one.
    fn find(&self, ip: &str) -> (found: Option<usize>)
        requires
            self.wf(),
        ensures
            match found {
                Some(i) => i < self.clients@.len() && self.clients@[i as int].ip@ == ip@
                    && self.position(ip@) == i,
                None => self.position(ip@) == -1 && !self@.windows.contains_key(ip@),
            },
    {
        let key = String::from_str(ip);
        let mut i: usize = 0;
        while i < self.clients.len()
            invariant
                self.wf(),
                i <= self.clients@.len(),
                key@ == ip@,
                forall|j: int| 0 <= j < i ==> self.clients@[j].ip@ != ip@,
            decreases self.clients@.len() - i,
        {
            if self.clients[i].ip == key {
                proof {
                    self.lemma_lookup(ip@);
                }
                return Some(i);
            }
            i += 1;
        }
        proof {
            self.lemma_lookup(ip@);
        }
        None
    }

    /// The requests admitted in the window of `ip`, and when it opened; `None`
    /// if `ip` has no window.
    pub fn window_of(&self, ip: &str) -> (w: Option<(usize, u128)>)
        requires
            self.wf(),
        ensures
            w.is_some() == self@.windows.contains_key(ip@),
            w matches Some((count, started)) ==> self@.windows[ip@] == (Window {
                count: count as nat,
                started: started as nat,
            }),
    {
        match self.find(ip) {
            Some(i) => Some((self.clients[i].count, self.clients[i].started)),
            None => None,
        }
    }

    /// Records a request of `ip` that arrives at `now`, and says whether it
    /// is admitted.
    pub fn is_allowed_at(&mut self, ip: &str, now: u128) -> (allowed: bool)
        requires
            old(self).wf(),
        ensures
            final(self).wf(),
            allowed == admitted(old(self)@, ip@, now as nat),
            final(self)@ == after_request(old(self)@, ip@, now as nat),
    {
        let ghost before = self@;
        let found = self.find(ip);
        let (count, started, allowed): (usize, u128, bool) = match found {
            None => {
                if 0 < self.max_requests {
                    (1, now, true)
                } else {
                    (0, now, false)
                }
            },
            Some(i) => {
                let count: usize = self.clients[i].count;
                let started: u128 = self.clients[i].started;
                let passed: u128 = if now >= started {
                    now - started
                } else {
                    0
                };
                if passed > self.window {
                    (1, now, true)
                } else if count < self.max_requests {
                    (count + 1, started, true)
                } else {
                    (count, started, false)
                }
            },
        };
        let record = ClientWindow { ip: String::from_str(ip), count, started };
        match found {
            None => {
                self.clients.push(record);
            },
            Some(i) => {
                self.clients.set(i, record);
            },
        }
        proof {
            let after = self@;
            let want = after_request(before, ip@, now as nat);
            let at: int = match found {
                None => old(self).clients@.len() as int,
                Some(i) => i as int,
            };
            old(self).lemma_lookup(ip@);
            assert(self.clients@[at].ip@ == ip@);
            assert forall|j: int| 0 <= j < self.clients@.len() && j != at implies (
            #[trigger] self.clients@[j]) == old(self).clients@[j] && self.clients@[j].ip@ != ip@ by {}
            assert(self.wf());
            assert forall|k: Seq<char>|
                (#[trigger] after.windows.dom().contains(k)) == want.windows.dom().contains(k) && (
                after.windows.dom().contains(k) ==> after.windows[k] == want.windows[k]) by {
                self.lemma_lookup(k);
                old(self).lemma_lookup(k);
                if k == ip@ {
                    assert(self.clients@[at].ip@ == k);
                } else {
                    if before.windows.contains_key(k) {
                        let j = choose|j: int|
                            0 <= j < old(self).clients@.len() && old(self).clients@[j].ip@ == k;
                        assert(self.clients@[j].ip@ == k);
                    }
                    if after.windows.contains_key(k) {
                        let j = choose|j: int|
                            0 <= j < self.clients@.len() && self.clients@[j].ip@ == k;
                        assert(old(self).clients@[j].ip@ == k);
                    }
                }
            }
            assert(after.windows =~= want.windows);
        }
        allowed
    }

    /// Records a request of `ip` that arrives now, and says whether it is
    /// admitted.  The clock is read once; what is recorded and answered is
    /// what [`RateLimiter::is_allowed_at`] gives for that reading.
    pub fn is_allowed(&mut self, ip: &str) -> (allowed: bool)
        requires
            old(self).wf(),
        ensures
            final(self).wf(),
            exists|now: nat| #[trigger] request_at(old(self)@, final(self)@, ip@, now, allowed),
    {
        let now = whole_nanos(&clock_elapsed(&self.origin));
        let ghost before = self@;
        let allowed = self.is_allowed_at(ip, now);
        assert(request_at(before, self@, ip@, now as nat, allowed));
        allowed
    }

    /// Admits or refuses a request by the address of its peer, read at
    /// `now`.  A request without a peer address is let through unrecorded.
    pub fn check_rate_limit_at(&mut self, peer: Option<&str>, now: u128) -> (checked: Result<
        (),
        ApiError,
    >)
        requires
            old(self).wf(),
        ensures
            final(self).wf(),
            match peer {
                Some(ip) => final(self)@ == after_request(old(self)@, ip@, now as nat) && (
                checked.is_ok() == admitted(old(self)@, ip@, now as nat)),
                None => final(self)@ == old(self)@ && checked.is_ok(),
            },
            checked is Err ==> checked->Err_0 is TooManyRequests,
    {
        match peer {
            Some(ip) => {
                if !self.is_allowed_at(ip, now) {
                    return Err(ApiError::TooManyRequests);
                }
            },
            None => {},
        }
        Ok(())
    }

    /// Admits or refuses a request by the address of its peer, read now.
    pub fn check_rate_limit(&mut self, peer: Option<&str>) -> (checked: Result<(), ApiError>)
        requires
            old(self).wf(),
        ensures
            final(self).wf(),
            match peer {
                Some(ip) => exists|now: nat| #[trigger]
                    request_at(old(self)@, final(self)@, ip@, now, checked.is_ok()),
                None => final(self)@ == old(self)@ && checked.is_ok(),
            },
            checked is Err ==> checked->Err_0 is TooManyRequests,
    {
        let now = whole_nanos(&clock_elapsed(&self.origin));
        let ghost before = self@;
        let checked = self.check_rate_limit_at(peer, now);
        proof {
            if let Some(ip) = peer {
                assert(request_at(before, self@, ip@, now as nat, checked.is_ok()));
            }
        }
        checked
    }

    /// With distinct records, the window of a client is the record that
    /// bears its address.
    proof fn lemma_lookup(&self, ip: Seq<char>)
        requires
            self.wf(),
        ensures
            self@.windows.contains_key(ip) <==> exists|i: int|
                0 <= i < self.clients@.len() && self.clients@[i].ip@ == ip,
            forall|i: int|
                0 <= i < self.clients@.len() && self.clients@[i].ip@ == ip
                    ==> self@.windows.contains_key(ip) && self@.windows[ip] == (Window {
                    count: self.clients@[i].count as nat,
                    started: self.clients@[i].started as nat,
                }),
    {
        if exists|i: int| 0 <= i < self.clients@.len() && self.clients@[i].ip@ == ip {
            let at = self.position(ip);
            assert(0 <= at < self.clients@.len() && self.clients@[at].ip@ == ip);
        }
    }
}

/// The limiter of the template: one hundred requests per minute.
pub fn rate_limiter() -> (limiter: RateLimiter)
    ensures
        limiter.wf(),
        limiter@.windows == Map::<Seq<char>, Window>::empty(),
        limiter@.max_requests == 100,
        limiter@.window == 60_000_000_000u128,
{
    RateLimiter::new(100, 60_000_000_000)
}

} // verus!
