//! HTTP Basic authentication with a per-client limit on recent failures.

use vstd::prelude::*;
use vstd::string::StrSliceExecFns;
use vstd::utf8::{decode_utf8, valid_utf8};
use crate::command::{split_first, split_once_char};
use crate::config::AuthConfig;
use crate::text::occurs_at_exec;

verus! {

/// How long a failure counts against a client, in milliseconds.
pub const FAILURE_WINDOW_MS: u64 = 120_000;

/// Recent failures at which a client is refused outright.
pub const MAX_FAILURES: usize = 10;

/// What base64's standard engine decodes `s` to, if it is valid.
pub uninterp spec fn base64_decoded(s: Seq<char>) -> Option<Seq<u8>>;

/// Relies on base64's `STANDARD` engine `decode`: the bytes that the text
/// encodes, or an error when it is not valid padded standard base64.
#[verifier::external_body]
fn decode_base64(s: &str) -> (r: Option<Vec<u8>>)
    ensures
        r is Some == base64_decoded(s@) is Some,
        r matches Some(v) ==> base64_decoded(s@) == Some(v@),
{
    base64::Engine::decode(&base64::engine::general_purpose::STANDARD, s).ok()
}

/// Relies on `String::from_utf8`: it succeeds exactly on valid UTF-8 and
/// then holds the decoded characters.
#[verifier::external_body]
fn utf8_string(b: Vec<u8>) -> (r: Option<String>)
    ensures
        r is Some == valid_utf8(b@),
        r matches Some(s) ==> s@ == decode_utf8(b@),
{
    String::from_utf8(b).ok()
}

/// The scheme prefix of a Basic authorization header.
pub open spec fn basic_prefix() -> Seq<char> {
    seq!['B', 'a', 's', 'i', 'c', ' ']
}

/// The user name and password in decoded credentials `user:password`.
pub open spec fn credentials_in(decoded: Seq<u8>) -> Option<(Seq<char>, Seq<char>)> {
    if valid_utf8(decoded) {
        split_first(decode_utf8(decoded), ':')
    } else {
        None
    }
}

/// The user name and password that a Basic authorization header carries.
pub open spec fn header_credentials(h: Seq<char>) -> Option<(Seq<char>, Seq<char>)> {
    if h.len() >= 6 && h.subrange(0, 6) == basic_prefix() {
        match base64_decoded(h.subrange(6, h.len() as int)) {
            Some(b) => credentials_in(b),
            None => None,
        }
    } else {
        None
    }
}

/// The credentials are the configured ones.
pub open spec fn admits(cfg: AuthConfig, c: Option<(Seq<char>, Seq<char>)>) -> bool {
    c matches Some(p) && p.0 == cfg.username@ && p.1 == cfg.password@
}

/// The user name and password in decoded credentials.
pub fn credentials_from_decoded(decoded: Vec<u8>) -> (r: Option<(String, String)>)
    ensures
        match r {
            Some(p) => credentials_in(decoded@) == Some((p.0@, p.1@)),
            None => credentials_in(decoded@) is None,
        },
{
    match utf8_string(decoded) {
        Some(s) => split_once_char(s.as_str(), ':'),
        None => None,
    }
}

/// The user name and password of a Basic authorization header.
pub fn parse_basic(header: &str) -> (r: Option<(String, String)>)
    ensures
        match r {
            Some(p) => header_credentials(header@) == Some((p.0@, p.1@)),
            None => header_credentials(header@) is None,
        },
{
    let prefix = "Basic ";
    proof {
        reveal_strlit("Basic ");
        assert(prefix@ =~= basic_prefix());
    }
    if !occurs_at_exec(header, prefix, 0) {
        return None;
    }
    let n = header.unicode_len();
    let encoded = header.substring_char(6, n);
    match decode_base64(encoded) {
        Some(b) => credentials_from_decoded(b),
        None => None,
    }
}

/// Whether decoded credentials are the configured ones.
pub fn check_decoded(cfg: &AuthConfig, decoded: Vec<u8>) -> (r: bool)
    ensures
        r == admits(*cfg, credentials_in(decoded@)),
{
    match credentials_from_decoded(decoded) {
        Some(p) => cfg.check(p.0.as_str(), p.1.as_str()),
        None => false,
    }
}

/// Whether a Basic authorization header carries the configured credentials.
pub fn check_header(cfg: &AuthConfig, header: &str) -> (r: bool)
    ensures
        r == admits(*cfg, header_credentials(header@)),
{
    match parse_basic(header) {
        Some(p) => cfg.check(p.0.as_str(), p.1.as_str()),
        None => false,
    }
}

/// A failure at `t` still counts at `now`; a time after `now` counts as now.
pub open spec fn counts(t: u64, now: u64) -> bool {
    now <= t || now - t <= FAILURE_WINDOW_MS
}

/// The failures of `s` that still count at `now`, in order.
pub open spec fn recent(s: Seq<u64>, now: u64) -> Seq<u64>
    decreases s.len(),
{
    if s.len() == 0 {
        s
    } else if counts(s.last(), now) {
        recent(s.drop_last(), now).push(s.last())
    } else {
        recent(s.drop_last(), now)
    }
}

/// How a request is answered.
#[derive(Clone, Copy, Debug, PartialEq, Eq, Structural)]
pub enum Verdict {
    /// Let the request through.
    Pass,
    /// Too many recent failures from this client.
    Forbidden,
    /// Wrong or missing credentials.
    Unauthorized,
}

/// The failed attempts of one client, oldest first, in milliseconds of a
/// monotonic clock.
pub struct FailureLog {
    times: Vec<u64>,
}

impl FailureLog {
    pub closed spec fn view(&self) -> Seq<u64> {
        self.times@
    }

    /// A log with no failures.
    pub fn new() -> (r: Self)
        ensures
            r@.len() == 0,
    {
        FailureLog { times: Vec::new() }
    }

    /// The number of failures held.
    pub fn len(&self) -> (r: usize)
        ensures
            r == self@.len(),
    {
        self.times.len()
    }

    /// Forgets the failures that no longer count at `now`; says whether
    /// none is left.
    pub fn prune(&mut self, now: u64) -> (empty: bool)
        ensures
            final(self)@ == recent(old(self)@, now),
            empty == (final(self)@.len() == 0),
    {
        let mut kept: Vec<u64> = Vec::new();
        let mut i: usize = 0;
        while i < self.times.len()
            invariant
                i <= self.times@.len(),
                kept@ == recent(self.times@.subrange(0, i as int), now),
            decreases self.times.len() - i,
        {
            let t = self.times[i];
            let ghost pre = self.times@.subrange(0, i as int);
            assert(self.times@.subrange(0, i + 1).drop_last() == pre);
            assert(self.times@.subrange(0, i + 1).last() == t);
            if now <= t || now - t <= FAILURE_WINDOW_MS {
                kept.push(t);
            }
            i = i + 1;
        }
        assert(self.times@.subrange(0, self.times@.len() as int) == self.times@);
        self.times = kept;
        self.times.len() == 0
    }

    /// Records a failure at `now`, after forgetting those that no longer count.
    pub fn record_failure(&mut self, now: u64)
        ensures
            final(self)@ == recent(old(self)@, now).push(now),
    {
        self.prune(now);
        self.times.push(now);
    }
}

/// Decides a request from a client with failure log `log`, at `now`, with
/// authorization header `header`. No user name configured lets everything
/// through; a client with too many recent failures is refused whatever it
/// sends; wrong or missing credentials add a failure.
pub fn authorize(cfg: &AuthConfig, log: &mut FailureLog, header: Option<&str>, now: u64) -> (r: Verdict)
    ensures
        cfg.username@.len() == 0 ==> r == Verdict::Pass && final(log)@ == old(log)@,
        cfg.username@.len() > 0 ==> {
            let kept = recent(old(log)@, now);
            let good = header matches Some(h) && admits(*cfg, header_credentials(h@));
            &&& r == (if kept.len() >= MAX_FAILURES {
                Verdict::Forbidden
            } else if good {
                Verdict::Pass
            } else {
                Verdict::Unauthorized
            })
            &&& final(log)@ == (if kept.len() < MAX_FAILURES && !good { kept.push(now) } else { kept })
        },
{
    if cfg.username.unicode_len() == 0 {
        return Verdict::Pass;
    }
    log.prune(now);
    if log.len() >= MAX_FAILURES {
        return Verdict::Forbidden;
    }
    let good = match header {
        Some(h) => check_header(cfg, h),
        None => false,
    };
    if good {
        Verdict::Pass
    } else {
        proof {
            assert(recent(log@, now) == log@) by {
                lemma_recent_idempotent(old(log)@, now);
            }
        }
        log.record_failure(now);
        Verdict::Unauthorized
    }
}

proof fn lemma_recent_idempotent(s: Seq<u64>, now: u64)
    ensures
        recent(recent(s, now), now) == recent(s, now),
    decreases s.len(),
{
    if s.len() > 0 {
        lemma_recent_idempotent(s.drop_last(), now);
        let r = recent(s.drop_last(), now);
        if counts(s.last(), now) {
            assert(r.push(s.last()).drop_last() == r);
        }
    }
}

} // verus!
