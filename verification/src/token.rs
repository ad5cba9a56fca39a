//! The bearer credential of the remote service and the time at which it
//! was acquired.

use crate::json::{json_document, json_member, json_text, member, parse_document, text};
use crate::status::{is_success, success_status};
use serde_json::Value;
use vstd::prelude::*;

verus! {

/// The age, in seconds, from which a cached credential is stale: 50
/// minutes.
pub const TOKEN_LIFETIME_SECS: u64 = 3000;

/// A credential with the time of its acquisition, in seconds of a clock
/// that never runs backwards.
#[derive(Debug)]
pub struct TokenStore {
    pub token: Option<(String, u64)>,
}

/// The seconds that passed from `since` to `now`; none where the clock
/// reads less than it did.
pub open spec fn elapsed(since: u64, now: u64) -> int {
    if now >= since {
        now - since
    } else {
        0
    }
}

/// The credential that the answer of the authority holds: the string
/// member `accessToken` of a JSON document.
pub open spec fn access_token(doc: Value) -> Option<Seq<char>> {
    match json_member(doc, "accessToken"@) {
        Some(t) => json_text(t),
        None => None,
    }
}

/// The credential that an answer of the authority with the status
/// `status` and the body `body` supplies.
pub open spec fn supplied_token(status: u16, body: Seq<char>) -> Option<Seq<char>> {
    if success_status(status) {
        match json_document(body) {
            Some(doc) => access_token(doc),
            None => None,
        }
    } else {
        None
    }
}

/// The credential in the JSON document `doc`.
pub fn access_token_of(doc: &Value) -> (r: Option<String>)
    ensures
        match r {
            Some(t) => access_token(*doc) == Some(t@),
            None => access_token(*doc).is_none(),
        },
{
    match member(doc, "accessToken") {
        Some(t) => match text(t) {
            Some(s) => Some(s.to_owned()),
            None => None,
        },
        None => None,
    }
}

impl TokenStore {
    /// The cached credential, where there is one and it is younger than 50
    /// minutes at the time `now`.
    pub open spec fn fresh(&self, now: u64) -> Option<Seq<char>> {
        match self.token {
            Some((t, since)) => if elapsed(since, now) < TOKEN_LIFETIME_SECS {
                Some(t@)
            } else {
                None
            },
            None => None,
        }
    }

    /// A store without a credential.
    pub fn new() -> (r: Self)
        ensures
            r.token.is_none(),
    {
        TokenStore { token: None }
    }

    /// The cached credential, if it is still fresh at the time `now`. On
    /// `None` a credential has to be requested from the authority.
    pub fn get_token(&self, now: u64) -> (r: Option<String>)
        ensures
            match r {
                Some(t) => self.fresh(now) == Some(t@),
                None => self.fresh(now).is_none(),
            },
    {
        match &self.token {
            Some((t, since)) => {
                let age = if now >= *since {
                    now - *since
                } else {
                    0
                };
                if age < TOKEN_LIFETIME_SECS {
                    Some(t.clone())
                } else {
                    None
                }
            },
            None => None,
        }
    }

    /// Installs `token` as acquired at the time `now`.
    pub fn set_token(&mut self, token: String, now: u64)
        ensures
            final(self).token == Some((token, now)),
    {
        self.token = Some((token, now));
    }

    /// Takes the answer of the authority to a request for a credential.
    /// Where it supplies one, that credential is cached as acquired at
    /// `now` and returned; else the store stays as it is.
    pub fn accept_answer(&mut self, status: u16, body: &str, now: u64) -> (r: Option<String>)
        ensures
            match r {
                Some(t) => {
                    &&& supplied_token(status, body@) == Some(t@)
                    &&& final(self).fresh(now) == Some(t@)
                    &&& final(self).token matches Some(cached) && cached.0@ == t@ && cached.1
                        == now
                },
                None => supplied_token(status, body@).is_none() && final(self).token == old(
                    self,
                ).token,
            },
    {
        if !is_success(status) {
            return None;
        }
        let doc = match parse_document(body) {
            Some(d) => d,
            None => {
                return None;
            },
        };
        match access_token_of(&doc) {
            Some(t) => {
                self.token = Some((t.clone(), now));
                Some(t)
            },
            None => None,
        }
    }
}

} // verus!
