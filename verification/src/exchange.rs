//! Decision and formatting logic of the install-nonce exchange command.
//!
//! The exchange itself — reading the environment, the HTTP round trip, and
//! storing the credentials — happens outside; here live the parts that only
//! compute: which action the inputs call for, the token-endpoint URL, the
//! expiry instants, and the user-facing failure message.

use vstd::prelude::*;
use vstd::string::StringExecFns;
use vstd::string::StrSliceExecFns;

verus! {

/// Whether an input value was given: present and non-empty.
pub open spec fn given(o: Option<String>) -> bool {
    match o {
        Some(s) => s@.len() > 0,
        None => false,
    }
}

/// What the nonce-exchange command does.
pub enum ExchangePlan {
    /// No nonce was given: exit silently — that just means no auto-login.
    Silent,
    /// A nonce without an API base: warn and stop.
    WarnMissingApiBase,
    /// Exchange this nonce at this API base.
    Exchange { nonce: String, api_base: String },
}

/// Decide what the nonce-exchange command does from its two inputs; an empty
/// value counts as absent.
pub fn exchange_nonce_plan(nonce: &Option<String>, api_base: &Option<String>) -> (r: ExchangePlan)
    ensures
        !given(*nonce) ==> r is Silent,
        given(*nonce) && !given(*api_base) ==> r is WarnMissingApiBase,
        given(*nonce) && given(*api_base) ==> (nonce matches Some(ns) ==> (api_base matches Some(
            ab,
        ) ==> r matches ExchangePlan::Exchange { nonce: n, api_base: a } && n@ == ns@ && a@
            == ab@)),
{
    let n = match nonce {
        Some(s) if !s.as_str().is_empty() => s,
        _ => {
            return ExchangePlan::Silent;
        },
    };
    let a = match api_base {
        Some(s) if !s.as_str().is_empty() => s,
        _ => {
            return ExchangePlan::WarnMissingApiBase;
        },
    };
    ExchangePlan::Exchange { nonce: n.clone(), api_base: a.clone() }
}

/// `s` without its trailing `/` characters.
pub open spec fn strip_trailing_slashes(s: Seq<char>) -> Seq<char>
    decreases s.len(),
{
    if s.len() > 0 && s.last() == '/' {
        strip_trailing_slashes(s.drop_last())
    } else {
        s
    }
}

fn strip_end_index(s: &str) -> (r: usize)
    ensures
        r <= s@.len(),
        s@.take(r as int) == strip_trailing_slashes(s@),
{
    let n = s.unicode_len();
    let mut e = n;
    proof {
        assert(s@.take(n as int) =~= s@);
    }
    while e > 0
        invariant
            e <= n,
            n == s@.len(),
            strip_trailing_slashes(s@) == strip_trailing_slashes(s@.take(e as int)),
        decreases e,
    {
        if s.get_char(e - 1) != '/' {
            proof {
                assert(s@.take(e as int).last() == s@[e - 1]);
            }
            return e;
        }
        proof {
            assert(s@.take(e as int).last() == s@[e - 1]);
            assert(s@.take(e as int).drop_last() =~= s@.take(e - 1));
        }
        e -= 1;
    }
    proof {
        assert(s@.take(0) =~= Seq::<char>::empty());
    }
    0
}

/// The token endpoint under an API base: the base without trailing slashes,
/// then `/worker/oauth/token`.
pub fn token_endpoint_url(api_base: &str) -> (r: String)
    ensures
        r@ == strip_trailing_slashes(api_base@) + ("/worker/oauth/token")@,
{
    let e = strip_end_index(api_base);
    let base = api_base.substring_char(0, e);
    proof {
        assert(api_base@.subrange(0, e as int) =~= api_base@.take(e as int));
    }
    base.to_owned().concat("/worker/oauth/token")
}

/// Compute the two credential expiry instants from the exchange response:
/// `now` plus each granted lifetime, with the documented defaults — one hour
/// and ninety days — where the response carried none.
pub fn credential_expiry(now: i64, expires_in: Option<u64>, refresh_expires_in: Option<u64>) -> (r:
    (i64, i64))
    requires
        0 <= now,
        (match expires_in {
            Some(e) => e as int,
            None => 3600,
        }) <= i64::MAX - now,
        (match refresh_expires_in {
            Some(e) => e as int,
            None => 7776000,
        }) <= i64::MAX - now,
    ensures
        r.0 == now + (match expires_in {
            Some(e) => e as int,
            None => 3600,
        }),
        r.1 == now + (match refresh_expires_in {
            Some(e) => e as int,
            None => 7776000,
        }),
{
    let e: u64 = match expires_in {
        Some(e) => e,
        None => 3600,
    };
    let f: u64 = match refresh_expires_in {
        Some(e) => e,
        None => 7776000,
    };
    (now + (e as i64), now + (f as i64))
}

/// The user-facing message for a failed exchange: it points at the install
/// page when one is known, and at the organization's install page otherwise.
/// The failure prefix and detail are deliberately not echoed.
pub fn format_error(_prefix: &str, _detail: String, install_page_url: Option<&str>) -> (r: String)
    ensures
        install_page_url matches Some(u) ==> r@ == (
        "\x1b[33mNonce exchange failed. Get a new install command from:\n  ")@ + u@ + ("\x1b[0m")@,
        install_page_url is None ==> r@ == (
        "\x1b[33mNonce exchange failed. Get a new install command from your organization's install page.\x1b[0m")@,
{
    match install_page_url {
        Some(url) => String::from_str(
            "\x1b[33mNonce exchange failed. Get a new install command from:\n  ",
        ).concat(url).concat("\x1b[0m"),
        None => String::from_str(
            "\x1b[33mNonce exchange failed. Get a new install command from your organization's install page.\x1b[0m",
        ),
    }
}

} // verus!
