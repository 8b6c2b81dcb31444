//! Credential types for the TOTP-gated bearer-token flow: the cached
//! token with relative-clock expiry, the cached shared secret, and the
//! decoding of the published secret dictionary.
//!
//! All expiry arithmetic is relative: a monotonic fetch instant plus the
//! system time captured at that instant, so a later check never trusts the
//! wall clock to have stood still.

use vstd::prelude::*;

use crate::text::{dec_str, dec_val, is_u64_numeral, push_dec, string_from_chars};

verus! {

/// Authentication errors of the TOTP flow.
#[derive(Clone, Debug)]
pub enum SpotifyAuthError {
    /// The server-time endpoint failed.
    ServerTimeFailed { reason: String },
    /// The secret-key dictionary could not be fetched.
    SecretKeyFailed { reason: String },
    /// The secret-key dictionary held no usable version.
    SecretDecodeError,
    /// The token endpoint failed.
    TokenFetchFailed { reason: String },
    /// The long-lived session cookie is invalid or expired; retrying
    /// cannot help.
    SpDcInvalid,
    /// A transport failure.
    Network { reason: String },
}

/// Cached bearer token with the two clock readings taken when it was
/// fetched.
#[derive(Clone, Debug)]
pub struct CachedAccessToken {
    pub access_token: String,
    /// Expiry in milliseconds since the Unix epoch, as the server gave it.
    pub expires_at_ms: u64,
    /// Monotonic-clock reading (milliseconds) at fetch time.
    pub fetched_at: u64,
    /// System time (milliseconds since the Unix epoch) at fetch time.
    pub fetched_at_system_ms: u64,
}

/// Whether the token is expired, or within `buffer_secs` of expiry, at the
/// monotonic reading `now`: the current epoch time is reconstructed from
/// the fetch-time pair rather than read from the wall clock.
pub open spec fn spec_token_expired(
    t: CachedAccessToken,
    buffer_secs: u64,
    now: u64,
) -> bool {
    let elapsed: int = if now >= t.fetched_at {
        now - t.fetched_at
    } else {
        0
    };
    let current: int = if t.fetched_at_system_ms + elapsed <= u64::MAX {
        t.fetched_at_system_ms + elapsed
    } else {
        u64::MAX as int
    };
    let buffer: int = if buffer_secs * 1000 <= u64::MAX {
        buffer_secs * 1000
    } else {
        u64::MAX as int
    };
    let horizon: int = if current + buffer <= u64::MAX {
        current + buffer
    } else {
        u64::MAX as int
    };
    horizon >= t.expires_at_ms
}

impl CachedAccessToken {
    /// Whether the token is expired or will expire within the buffer,
    /// judged at the monotonic reading `now`.
    pub fn is_expired(&self, buffer_secs: u64, now: u64) -> (r: bool)
        ensures
            r == spec_token_expired(*self, buffer_secs, now),
    {
        let elapsed: u64 = if now >= self.fetched_at {
            now - self.fetched_at
        } else {
            0
        };
        let current = self.fetched_at_system_ms.saturating_add(elapsed);
        let buffer: u64 = if buffer_secs <= u64::MAX / 1000 {
            buffer_secs * 1000
        } else {
            u64::MAX
        };
        current.saturating_add(buffer) >= self.expires_at_ms
    }
}

/// Cached shared secret for code generation.
#[derive(Clone, Debug)]
pub struct CachedSecret {
    /// Decoded secret bytes.
    pub secret: Vec<u8>,
    /// Version tag of the dictionary entry the secret came from.
    pub version: String,
    /// Monotonic-clock reading (milliseconds) at fetch time.
    pub fetched_at: u64,
}

impl CachedSecret {
    /// Whether the cached secret is older than `max_age_ms` at the
    /// monotonic reading `now`.
    pub fn should_refresh(&self, max_age_ms: u64, now: u64) -> (r: bool)
        ensures
            r == (if now >= self.fetched_at {
                now - self.fetched_at > max_age_ms
            } else {
                false
            }),
    {
        let elapsed: u64 = if now >= self.fetched_at {
            now - self.fetched_at
        } else {
            0
        };
        elapsed > max_age_ms
    }
}

/// Body of the server-time endpoint.
#[derive(Clone, Copy, Debug)]
pub struct ServerTimeResponse {
    /// Server time in seconds since the Unix epoch.
    pub server_time: u64,
}

/// Body of the token endpoint.
#[derive(Clone, Debug)]
pub struct TokenResponse {
    pub access_token: String,
    /// Expiry in milliseconds since the Unix epoch.
    pub access_token_expiration_timestamp_ms: u64,
    /// Set when the server handed out an anonymous token: the session
    /// cookie is invalid.
    pub is_anonymous: bool,
}

/// Accept or reject a token response: an anonymous token is the distinct
/// signal that the session cookie is dead, not a transport failure.
pub fn accept_token_response(
    response: TokenResponse,
    now_monotonic_ms: u64,
    now_system_ms: u64,
) -> (r: Result<CachedAccessToken, SpotifyAuthError>)
    ensures
        r is Ok <==> !response.is_anonymous,
        r is Ok ==> r->Ok_0 == (CachedAccessToken {
            access_token: response.access_token,
            expires_at_ms: response.access_token_expiration_timestamp_ms,
            fetched_at: now_monotonic_ms,
            fetched_at_system_ms: now_system_ms,
        }),
        r is Err ==> r->Err_0 is SpDcInvalid,
{
    if response.is_anonymous {
        Err(SpotifyAuthError::SpDcInvalid)
    } else {
        Ok(
            CachedAccessToken {
                access_token: response.access_token,
                expires_at_ms: response.access_token_expiration_timestamp_ms,
                fetched_at: now_monotonic_ms,
                fetched_at_system_ms: now_system_ms,
            },
        )
    }
}

// ---------------------------------------------------------------------------
// Secret dictionary decoding
// ---------------------------------------------------------------------------

/// The XOR key applied at position `i` of the raw secret.
pub open spec fn spec_xor_key(i: int) -> u8 {
    ((i % 33) + 9) as u8
}

/// The decoded secret as text: each raw byte is XORed with its position
/// key and written out as its decimal numeral, all numerals concatenated.
pub open spec fn spec_transformed(b: Seq<u8>) -> Seq<char>
    decreases b.len(),
{
    if b.len() == 0 {
        Seq::empty()
    } else {
        spec_transformed(b.drop_last()) + dec_str((b.last() ^ spec_xor_key(b.len() - 1)) as nat)
    }
}

/// The secret bytes: the ASCII codes of the decoded text.
pub open spec fn spec_secret_bytes(b: Seq<u8>) -> Seq<u8> {
    spec_transformed(b).map_values(|c: char| c as u8)
}

/// The entry the decoder picks: the one with the highest numeric version,
/// the later of equals winning.
pub open spec fn spec_latest(entries: Seq<(Seq<char>, Seq<u8>)>) -> Option<(Seq<char>, Seq<u8>)>
    decreases entries.len(),
{
    if entries.len() == 0 {
        None
    } else {
        let rest = spec_latest(entries.drop_last());
        let e = entries.last();
        if is_u64_numeral(e.0) {
            match rest {
                None => Some(e),
                Some(b) => if dec_val(e.0) >= dec_val(b.0) {
                    Some(e)
                } else {
                    rest
                },
            }
        } else {
            rest
        }
    }
}

pub open spec fn view_entries(entries: Seq<(String, Vec<u8>)>) -> Seq<(Seq<char>, Seq<u8>)> {
    entries.map_values(|e: (String, Vec<u8>)| (e.0@, e.1@))
}

/// Decode the fetched secret dictionary: pick the highest numeric version
/// and decode its bytes. Fails exactly when no key is numeric.
pub fn decode_secret_payload(entries: Vec<(String, Vec<u8>)>, fetched_at: u64) -> (r: Result<
    CachedSecret,
    SpotifyAuthError,
>)
    ensures
        r is Ok <==> spec_latest(view_entries(entries@)) is Some,
        r is Ok ==> ({
            let best = spec_latest(view_entries(entries@))->0;
            &&& r->Ok_0.secret@ == spec_secret_bytes(best.1)
            &&& r->Ok_0.version@ == best.0
            &&& r->Ok_0.fetched_at == fetched_at
        }),
        r is Err ==> r->Err_0 is SecretDecodeError,
{
    let ghost evs = view_entries(entries@);
    let mut best: Option<(String, Vec<u8>)> = None;
    let mut best_val: u64 = 0;
    let mut i: usize = 0;
    proof {
        assert(evs.subrange(0, 0) =~= Seq::<(Seq<char>, Seq<u8>)>::empty());
    }
    while i < entries.len()
        invariant
            0 <= i <= entries@.len(),
            evs == view_entries(entries@),
            match best {
                Some(b) => spec_latest(evs.subrange(0, i as int)) == Some((b.0@, b.1@))
                    && is_u64_numeral(b.0@) && best_val == dec_val(b.0@),
                None => spec_latest(evs.subrange(0, i as int)) is None,
            },
        decreases entries@.len() - i,
    {
        proof {
            let pre = evs.subrange(0, i + 1 as int);
            assert(pre.drop_last() =~= evs.subrange(0, i as int));
            assert(evs[i as int] == (entries@[i as int].0@, entries@[i as int].1@));
            assert(pre.last() == evs[i as int]);
        }
        let key_chars = crate::text::chars_of(entries[i].0.as_str());
        match crate::text::parse_u64(&key_chars) {
            Some(v) => {
                let take: bool = match &best {
                    Some(_) => v >= best_val,
                    None => true,
                };
                if take {
                    best = Some((entries[i].0.clone(), clone_bytes(&entries[i].1)));
                    best_val = v;
                }
            },
            None => {},
        }
        i += 1;
    }
    proof {
        assert(evs.subrange(0, evs.len() as int) =~= evs);
    }
    match best {
        Some((version, raw)) => {
            let secret = decode_bytes(&raw);
            Ok(CachedSecret { secret, version, fetched_at })
        },
        None => Err(SpotifyAuthError::SecretDecodeError),
    }
}

fn clone_bytes(b: &Vec<u8>) -> (r: Vec<u8>)
    ensures
        r@ == b@,
{
    let mut r: Vec<u8> = Vec::new();
    let mut i: usize = 0;
    while i < b.len()
        invariant
            0 <= i <= b@.len(),
            r@ == b@.subrange(0, i as int),
        decreases b@.len() - i,
    {
        r.push(b[i]);
        proof {
            assert(b@.subrange(0, i + 1 as int) =~= b@.subrange(0, i as int).push(b@[i as int]));
        }
        i += 1;
    }
    proof {
        assert(b@.subrange(0, b@.len() as int) =~= b@);
    }
    r
}

fn decode_bytes(raw: &Vec<u8>) -> (r: Vec<u8>)
    ensures
        r@ == spec_secret_bytes(raw@),
{
    let mut text: Vec<char> = Vec::new();
    let mut i: usize = 0;
    proof {
        assert(spec_transformed(raw@.subrange(0, 0)) =~= Seq::<char>::empty());
    }
    while i < raw.len()
        invariant
            0 <= i <= raw@.len(),
            text@ == spec_transformed(raw@.subrange(0, i as int)),
        decreases raw@.len() - i,
    {
        let key: u8 = ((i % 33) + 9) as u8;
        let decoded: u8 = raw[i] ^ key;
        let d64: u64 = decoded as u64;
        push_dec(d64, &mut text);
        proof {
            let pre = raw@.subrange(0, i + 1 as int);
            assert(pre.drop_last() =~= raw@.subrange(0, i as int));
            assert(pre.last() == raw@[i as int]);
            assert(key == spec_xor_key(i as int));
        }
        i += 1;
    }
    proof {
        assert(raw@.subrange(0, raw@.len() as int) =~= raw@);
    }
    let mut out: Vec<u8> = Vec::new();
    let mut k: usize = 0;
    while k < text.len()
        invariant
            0 <= k <= text@.len(),
            out@.len() == k,
            forall|j: int| 0 <= j < k ==> out@[j] == (text@[j] as u8),
        decreases text@.len() - k,
    {
        out.push(text[k] as u8);
        k += 1;
    }
    proof {
        assert forall|j: int| 0 <= j < out@.len() implies out@[j] == spec_secret_bytes(raw@)[j] by {
            assert(spec_secret_bytes(raw@)[j] == (spec_transformed(raw@)[j] as u8));
        }
        assert(out@ =~= spec_secret_bytes(raw@));
    }
    out
}

} // verus!
