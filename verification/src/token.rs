//! Decisions of the token lifecycle: when the cached token is still good,
//! and the exact token-exchange request. The surrounding application
//! performs the HTTP calls and feeds the responses back through
//! `crate::auth`.

use vstd::prelude::*;

use crate::auth::{spec_token_expired, CachedAccessToken};
use crate::text::{dec_str, push_dec, string_from_chars, chars_of};

verus! {

/// Maximum age of a cached shared secret: 24 hours.
pub const SECRET_CACHE_MAX_AGE_MS: u64 = 86400000;

/// Refresh buffer before token expiry, in seconds.
pub const TOKEN_REFRESH_BUFFER_SECS: u64 = 60;

/// Fast path of the token lifecycle: a cached token is used as long as it
/// is not within the refresh buffer of its expiry; anything else forces
/// the full refresh sequence.
pub fn cached_token_usable(cached: &Option<CachedAccessToken>, now: u64) -> (r: bool)
    ensures
        r == match cached {
            Some(t) => !spec_token_expired(*t, TOKEN_REFRESH_BUFFER_SECS, now),
            None => false,
        },
{
    match cached {
        Some(t) => !t.is_expired(TOKEN_REFRESH_BUFFER_SECS, now),
        None => false,
    }
}

/// The query part of the token-exchange request for a code, a secret
/// version and a timestamp in milliseconds.
pub open spec fn spec_token_query(totp: Seq<char>, version: Seq<char>, ts_ms: u64) -> Seq<char> {
    seq!['?', 'r', 'e', 'a', 's', 'o', 'n', '=', 'i', 'n', 'i', 't', '&', 'p', 'r', 'o', 'd', 'u',
        'c', 't', 'T', 'y', 'p', 'e', '=', 'w', 'e', 'b', '-', 'p', 'l', 'a', 'y', 'e', 'r', '&',
        't', 'o', 't', 'p', '='] + totp + seq!['&', 't', 'o', 't', 'p', 'V', 'e', 'r', '=']
        + version + seq!['&', 't', 's', '='] + dec_str(ts_ms as nat)
}

/// Build the token-exchange query string.
pub fn build_token_query(totp: &str, version: &str, ts_ms: u64) -> (r: String)
    ensures
        r@ == spec_token_query(totp@, version@, ts_ms),
{
    let mut out: Vec<char> = Vec::new();
    out.push('?');
    out.push('r');
    out.push('e');
    out.push('a');
    out.push('s');
    out.push('o');
    out.push('n');
    out.push('=');
    out.push('i');
    out.push('n');
    out.push('i');
    out.push('t');
    out.push('&');
    out.push('p');
    out.push('r');
    out.push('o');
    out.push('d');
    out.push('u');
    out.push('c');
    out.push('t');
    out.push('T');
    out.push('y');
    out.push('p');
    out.push('e');
    out.push('=');
    out.push('w');
    out.push('e');
    out.push('b');
    out.push('-');
    out.push('p');
    out.push('l');
    out.push('a');
    out.push('y');
    out.push('e');
    out.push('r');
    out.push('&');
    out.push('t');
    out.push('o');
    out.push('t');
    out.push('p');
    out.push('=');
    let ghost head = out@;
    let tchars = chars_of(totp);
    let mut i: usize = 0;
    while i < tchars.len()
        invariant
            0 <= i <= tchars@.len(),
            out@ == head + tchars@.subrange(0, i as int),
        decreases tchars@.len() - i,
    {
        out.push(tchars[i]);
        proof {
            assert(head + tchars@.subrange(0, i + 1 as int) =~= (head + tchars@.subrange(
                0,
                i as int,
            )).push(tchars@[i as int]));
        }
        i += 1;
    }
    proof {
        assert(tchars@.subrange(0, tchars@.len() as int) =~= tchars@);
    }
    out.push('&');
    out.push('t');
    out.push('o');
    out.push('t');
    out.push('p');
    out.push('V');
    out.push('e');
    out.push('r');
    out.push('=');
    let ghost mid = out@;
    let vchars = chars_of(version);
    let mut j: usize = 0;
    while j < vchars.len()
        invariant
            0 <= j <= vchars@.len(),
            out@ == mid + vchars@.subrange(0, j as int),
        decreases vchars@.len() - j,
    {
        out.push(vchars[j]);
        proof {
            assert(mid + vchars@.subrange(0, j + 1 as int) =~= (mid + vchars@.subrange(
                0,
                j as int,
            )).push(vchars@[j as int]));
        }
        j += 1;
    }
    proof {
        assert(vchars@.subrange(0, vchars@.len() as int) =~= vchars@);
    }
    out.push('&');
    out.push('t');
    out.push('s');
    out.push('=');
    push_dec(ts_ms, &mut out);
    proof {
        assert(out@ =~= spec_token_query(totp@, version@, ts_ms));
    }
    string_from_chars(&out)
}

} // verus!
