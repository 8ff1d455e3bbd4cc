//! Per-category quotas, and reading them from a YAML document.
use vstd::prelude::*;

use crate::rate_limiter::{RateLimitError, RequestType};

verus! {

/// The integer that yaml_rust finds under `domains[index][name]` of the first
/// document of `text`, if the text parses and the value there is an integer.
pub uninterp spec fn yaml_domain_integer(text: Seq<char>, index: int, name: Seq<char>) -> Option<
    i64,
>;

/// Relies on yaml_rust::YamlLoader::load_from_str, yaml_rust's `Index` on
/// `Yaml` (a missing key or position gives `BadValue`, never a panic) and
/// `Yaml::as_i64`.
#[verifier::external_body]
fn domain_integer(text: &str, index: usize, name: &str) -> (r: Option<i64>)
    ensures
        r == yaml_domain_integer(text@, index as int, name@),
{
    match yaml_rust::YamlLoader::load_from_str(text) {
        Ok(docs) => match docs.first() {
            Some(doc) => doc["domains"][index][name].as_i64(),
            None => None,
        },
        Err(_) => None,
    }
}

/// The quota (admitted requests per minute) of each request category.
pub struct RateLimitConfig {
    login: Option<u32>,
    message: Option<u32>,
}

/// The quota that a YAML value gives: a positive integer that fits in `u32`.
pub open spec fn quota_from_yaml(v: Option<i64>) -> Result<Option<u32>, RateLimitError> {
    match v {
        None => Ok(None),
        Some(q) => if 0 < q <= u32::MAX {
            Ok(Some(q as u32))
        } else {
            Err(RateLimitError::Configuration)
        },
    }
}

fn read_quota(text: &str, index: usize, name: &str) -> (r: Result<Option<u32>, RateLimitError>)
    ensures
        r == quota_from_yaml(yaml_domain_integer(text@, index as int, name@)),
{
    match domain_integer(text, index, name) {
        None => Ok(None),
        Some(q) => if 0 < q && q <= u32::MAX as i64 {
            Ok(Some(q as u32))
        } else {
            Err(RateLimitError::Configuration)
        },
    }
}

impl RateLimitConfig {
    /// The quota of `req`; nothing when the category is not configured.
    pub closed spec fn quota_of(&self, req: RequestType) -> Option<u32> {
        match req {
            RequestType::Login => self.login,
            RequestType::Message => self.message,
        }
    }

    /// Every configured quota is positive.
    pub open spec fn wf(&self) -> bool {
        forall|req: RequestType| (#[trigger] self.quota_of(req)) is Some ==> self.quota_of(req)->0 > 0
    }

    /// A configuration with no category.
    pub fn new() -> (r: RateLimitConfig)
        ensures
            r.wf(),
            forall|req: RequestType| #[trigger] r.quota_of(req) is None,
    {
        RateLimitConfig { login: None, message: None }
    }

    /// Sets the quota of `req`, leaving the other categories as they were.
    pub fn set_quota(&mut self, req: RequestType, quota: u32)
        requires
            old(self).wf(),
            quota > 0,
        ensures
            final(self).wf(),
            final(self).quota_of(req) == Some(quota),
            forall|other: RequestType|
                other != req ==> #[trigger] final(self).quota_of(other) == old(self).quota_of(other),
    {
        match req {
            RequestType::Login => self.login = Some(quota),
            RequestType::Message => self.message = Some(quota),
        }
        proof {
            assert forall|r: RequestType| (#[trigger] self.quota_of(r)) is Some implies self.quota_of(r)->0 > 0 by {
                if r != req {
                    assert(old(self).quota_of(r) == self.quota_of(r));
                }
            }
        }
    }

    /// The quota of `req`; a category without one is a configuration error.
    pub fn quota(&self, req: RequestType) -> (r: Result<u32, RateLimitError>)
        requires
            self.wf(),
        ensures
            match self.quota_of(req) {
                Some(q) => r == Ok::<u32, RateLimitError>(q) && q > 0,
                None => r == Err::<u32, RateLimitError>(RateLimitError::Configuration),
            },
    {
        let q = match req {
            RequestType::Login => self.login,
            RequestType::Message => self.message,
        };
        match q {
            Some(v) => Ok(v),
            None => Err(RateLimitError::Configuration),
        }
    }

    /// Reads the quotas from a YAML document whose `domains` list holds
    /// `Message: <quota>` first and `Login: <quota>` second. A category that
    /// is absent stays unconfigured; a value there that is not a positive
    /// integer fitting in `u32` is a configuration error.
    pub fn from_yaml(text: &str) -> (r: Result<RateLimitConfig, RateLimitError>)
        ensures
            match (
                quota_from_yaml(yaml_domain_integer(text@, 0, "Message"@)),
                quota_from_yaml(yaml_domain_integer(text@, 1, "Login"@)),
            ) {
                (Ok(m), Ok(l)) => r matches Ok(c) && c.wf() && c.quota_of(RequestType::Message)
                    == m && c.quota_of(RequestType::Login) == l,
                _ => r == Err::<RateLimitConfig, RateLimitError>(RateLimitError::Configuration),
            },
    {
        let message = read_quota(text, 0, "Message");
        let login = read_quota(text, 1, "Login");
        match (message, login) {
            (Ok(m), Ok(l)) => {
                let c = RateLimitConfig { login: l, message: m };
                proof {
                    assert forall|req: RequestType| (#[trigger] c.quota_of(req)) is Some implies c.quota_of(req)->0 > 0 by {
                        match req {
                            RequestType::Login => {},
                            RequestType::Message => {},
                        }
                    }
                }
                Ok(c)
            },
            _ => Err(RateLimitError::Configuration),
        }
    }
}

} // verus!
