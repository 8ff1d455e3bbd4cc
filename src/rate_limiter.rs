//! The rate limiter: per category and client, admit or drop each request.
use vstd::prelude::*;

use crate::config::RateLimitConfig;
use crate::storage_handler::StorageHandler;
use crate::time::Timestamp;
use crate::window::{count_current_window, leading_stale_count, pruned, step, weighted_estimate_below};

verus! {

/// The category of a request; each category has its own quota.
#[derive(Clone, Copy, Debug, PartialEq, Eq, Hash, Structural)]
pub enum RequestType {
    Login,
    Message,
}

/// The decision on one request.
#[derive(Clone, Copy, Debug, PartialEq, Eq, Structural)]
pub enum RateLimiterResponse {
    /// The client has used up its quota: the request is refused.
    Drop,
    /// The request is within quota and has been recorded.
    Success,
}

/// Why a request could not be decided.
#[derive(Clone, Copy, Debug, PartialEq, Eq, Structural)]
pub enum RateLimitError {
    /// The request's category has no quota.
    Configuration,
    /// The log store failed.
    Store,
    /// A stored log entry is not a date-time.
    DataCorruption,
}

/// The name of a category, as used in log keys and in the configuration.
pub open spec fn request_type_name(req: RequestType) -> Seq<char> {
    match req {
        RequestType::Login => "Login"@,
        RequestType::Message => "Message"@,
    }
}

/// The decimal digits of `n`, most significant first, without sign or padding.
pub open spec fn decimal_digits(n: nat) -> Seq<char>
    decreases n,
{
    if n < 10 {
        seq![digit_char(n)]
    } else {
        decimal_digits(n / 10).push(digit_char(n % 10))
    }
}

/// The character of a decimal digit.
pub open spec fn digit_char(d: nat) -> char {
    if d == 0 {
        '0'
    } else if d == 1 {
        '1'
    } else if d == 2 {
        '2'
    } else if d == 3 {
        '3'
    } else if d == 4 {
        '4'
    } else if d == 5 {
        '5'
    } else if d == 6 {
        '6'
    } else if d == 7 {
        '7'
    } else if d == 8 {
        '8'
    } else {
        '9'
    }
}

/// The key of the log of `user_id`'s requests of category `req`: the
/// category's name, a colon, and the id in decimal.
pub open spec fn request_key(req: RequestType, user_id: u32) -> Seq<char> {
    request_type_name(req) + ":"@ + decimal_digits(user_id as nat)
}

proof fn lemma_decimal_injective(m: nat, n: nat)
    requires
        decimal_digits(m) == decimal_digits(n),
    ensures
        m == n,
    decreases m,
{
    if m >= 10 && n >= 10 {
        let dm = decimal_digits(m);
        assert(dm.last() == digit_char(m % 10));
        assert(decimal_digits(n).last() == digit_char(n % 10));
        assert(dm.drop_last() =~= decimal_digits(m / 10));
        assert(decimal_digits(n).drop_last() =~= decimal_digits(n / 10));
        lemma_decimal_injective(m / 10, n / 10);
    } else if m >= 10 {
        assert(decimal_digits(m).len() == decimal_digits(m / 10).len() + 1);
        lemma_decimal_nonempty(m / 10);
    } else if n >= 10 {
        assert(decimal_digits(n).len() == decimal_digits(n / 10).len() + 1);
        lemma_decimal_nonempty(n / 10);
    } else {
        assert(decimal_digits(m)[0] == digit_char(m));
        assert(decimal_digits(n)[0] == digit_char(n));
    }
}

proof fn lemma_decimal_nonempty(n: nat)
    ensures
        decimal_digits(n).len() >= 1,
    decreases n,
{
    if n >= 10 {
        lemma_decimal_nonempty(n / 10);
    }
}

/// Log keys identify their (category, client) pair: two distinct pairs never
/// share a key.
pub proof fn lemma_request_keys_distinct(a: RequestType, x: u32, b: RequestType, y: u32)
    requires
        a != b || x != y,
    ensures
        request_key(a, x) != request_key(b, y),
{
    reveal_strlit("Login");
    reveal_strlit("Message");
    reveal_strlit(":");
    lemma_decimal_nonempty(x as nat);
    lemma_decimal_nonempty(y as nat);
    let ka = request_key(a, x);
    let kb = request_key(b, y);
    if a != b {
        assert(ka[0] == request_type_name(a)[0]);
        assert(kb[0] == request_type_name(b)[0]);
    } else if ka == kb {
        let p = (request_type_name(a) + ":"@).len() as int;
        assert(ka.subrange(p, ka.len() as int) =~= decimal_digits(x as nat));
        assert(kb.subrange(p, kb.len() as int) =~= decimal_digits(y as nat));
        lemma_decimal_injective(x as nat, y as nat);
    }
}

/// Relies on std's `Display` for `u32` (through `ToString`): the decimal
/// digits of the number, with no sign and no padding.
#[verifier::external_body]
fn decimal(n: u32) -> (r: String)
    ensures
        r@ == decimal_digits(n as nat),
{
    n.to_string()
}

impl RequestType {
    /// The name of the category.
    pub fn to_string(&self) -> (r: String)
        ensures
            r@ == request_type_name(*self),
    {
        match self {
            RequestType::Login => String::from_str("Login"),
            RequestType::Message => String::from_str("Message"),
        }
    }

    /// The name of the category `req`.
    #[allow(non_snake_case)]
    pub fn toString(req: &RequestType) -> (r: String)
        ensures
            r@ == request_type_name(*req),
    {
        req.to_string()
    }
}

/// Decides, per category and client, whether a request stays within its quota,
/// keeping each client's log of admitted requests.
pub struct RateLimiter {
    /// The logs of past admitted requests, keyed by `request_key`.
    pub storage_handler: StorageHandler,
    /// The quota of each category; read only.
    pub conf: RateLimitConfig,
}

impl RateLimiter {
    /// The store and the configuration are well formed.
    pub open spec fn wf(&self) -> bool {
        self.storage_handler.wf() && self.conf.wf()
    }

    /// A rate limiter with the quotas of `conf` and no past requests.
    pub fn new(conf: RateLimitConfig) -> (r: RateLimiter)
        requires
            conf.wf(),
        ensures
            r.wf(),
            r.conf == conf,
            r.storage_handler@ == Map::<Seq<char>, Seq<Timestamp>>::empty(),
    {
        RateLimiter { storage_handler: StorageHandler::new(), conf }
    }

    /// The quota of `req_type`; a category without one is a configuration error.
    pub fn get_bucket_size_for_request_type(&self, req_type: RequestType) -> (r: Result<
        u32,
        RateLimitError,
    >)
        requires
            self.wf(),
        ensures
            match self.conf.quota_of(req_type) {
                Some(q) => r == Ok::<u32, RateLimitError>(q) && q > 0,
                None => r == Err::<u32, RateLimitError>(RateLimitError::Configuration),
            },
    {
        self.conf.quota(req_type)
    }

    /// The key of the log of `user_id`'s requests of category `req`.
    pub fn get_request_key(req: &RequestType, user_id: u32) -> (r: String)
        ensures
            r@ == request_key(*req, user_id),
    {
        let mut key = req.to_string();
        key.append(":");
        let digits = decimal(user_id);
        key.append(digits.as_str());
        key
    }

    /// Decides a request of category `req` from `user_id` made at `now`.
    ///
    /// The head of the client's log that lies more than a minute before `now`
    /// is pruned; the request is admitted, and `now` appended to the log, when
    /// the weighted estimate of the remaining entries lies strictly under the
    /// category's quota. The logs of other keys are untouched.
    pub fn recv_request_at(&mut self, req: RequestType, user_id: u32, now: Timestamp) -> (r: Result<
        RateLimiterResponse,
        RateLimitError,
    >)
        requires
            old(self).wf(),
        ensures
            final(self).wf(),
            final(self).conf == old(self).conf,
            forall|k: Seq<char>|
                k != request_key(req, user_id) ==> #[trigger] final(self).storage_handler.log_of(k)
                    == old(self).storage_handler.log_of(k),
            match old(self).conf.quota_of(req) {
                None => r == Err::<RateLimiterResponse, RateLimitError>(
                    RateLimitError::Configuration,
                ) && final(self).storage_handler@ == old(self).storage_handler@,
                Some(q) => {
                    let (log, response) = step(
                        old(self).storage_handler.log_of(request_key(req, user_id)),
                        now,
                        q as int,
                    );
                    r == Ok::<RateLimiterResponse, RateLimitError>(response)
                        && final(self).storage_handler.log_of(request_key(req, user_id)) == log
                },
            },
    {
        let key = RateLimiter::get_request_key(&req, user_id);
        let quota = match self.get_bucket_size_for_request_type(req) {
            Ok(q) => q,
            Err(e) => return Err(e),
        };
        let past_user_reqs = self.storage_handler.get(&key);
        let stale = leading_stale_count(&past_user_reqs, now);
        let ghost before = self.storage_handler;
        let mut i: usize = 0;
        while i < stale
            invariant
                i <= stale <= past_user_reqs.len(),
                self.storage_handler.wf(),
                self.conf == old(self).conf,
                past_user_reqs@ == before.log_of(key@),
                self.storage_handler.log_of(key@) == past_user_reqs@.subrange(
                    i as int,
                    past_user_reqs.len() as int,
                ),
                forall|k: Seq<char>|
                    k != key@ ==> #[trigger] self.storage_handler.log_of(k) == before.log_of(k),
            decreases stale - i,
        {
            let ghost prev = self.storage_handler;
            self.storage_handler.pop_oldest_request(&key);
            proof {
                assert forall|k: Seq<char>| k != key@ implies #[trigger] self.storage_handler.log_of(k)
                    == before.log_of(k) by {
                    assert(prev.log_of(k) == before.log_of(k));
                }
                assert(past_user_reqs@.subrange(i as int, past_user_reqs.len() as int).drop_first()
                    =~= past_user_reqs@.subrange(i + 1, past_user_reqs.len() as int));
            }
            i = i + 1;
        }
        let kept = self.storage_handler.get(&key);
        assert(kept@ == pruned(past_user_reqs@, now));
        let current = count_current_window(&kept, 0, now);
        proof {
            assert(kept@.subrange(0, kept.len() as int) =~= kept@);
        }
        let below = weighted_estimate_below(
            current,
            kept.len() - current,
            now.second_of_minute(),
            quota,
        );
        if below {
            let ghost prev = self.storage_handler;
            self.storage_handler.append(&key, now);
            proof {
                assert forall|k: Seq<char>| k != key@ implies #[trigger] self.storage_handler.log_of(k)
                    == before.log_of(k) by {
                    assert(prev.log_of(k) == before.log_of(k));
                }
            }
            Ok(RateLimiterResponse::Success)
        } else {
            Ok(RateLimiterResponse::Drop)
        }
    }

    /// Decides a request of category `req` from `user_id` made now, by the
    /// system clock: as `recv_request_at` at the instant the clock gave.
    pub fn recv_request(&mut self, req: RequestType, user_id: u32) -> (r: Result<
        RateLimiterResponse,
        RateLimitError,
    >)
        requires
            old(self).wf(),
        ensures
            final(self).wf(),
            final(self).conf == old(self).conf,
            forall|k: Seq<char>|
                k != request_key(req, user_id) ==> #[trigger] final(self).storage_handler.log_of(k)
                    == old(self).storage_handler.log_of(k),
            match old(self).conf.quota_of(req) {
                None => r == Err::<RateLimiterResponse, RateLimitError>(
                    RateLimitError::Configuration,
                ) && final(self).storage_handler@ == old(self).storage_handler@,
                Some(q) => exists|now: Timestamp|
                    {
                        let (log, response) = #[trigger] step(
                            old(self).storage_handler.log_of(request_key(req, user_id)),
                            now,
                            q as int,
                        );
                        r == Ok::<RateLimiterResponse, RateLimitError>(response)
                            && final(self).storage_handler.log_of(request_key(req, user_id))
                            == log
                    },
            },
    {
        let now = Timestamp::now();
        let r = self.recv_request_at(req, user_id, now);
        proof {
            if let Some(q) = old(self).conf.quota_of(req) {
                let _ = step(
                    old(self).storage_handler.log_of(request_key(req, user_id)),
                    now,
                    q as int,
                );
            }
        }
        r
    }
}

} // verus!
