//! Time-based one-time codes (HMAC-SHA1 dynamic truncation, 30-second
//! step, six digits), used to authorize the token exchange.

use vstd::prelude::*;

use crate::text::{digit_char, is_digit_char, string_from_chars};

verus! {

/// Errors of code generation.
#[derive(Clone, Copy, PartialEq, Eq, Structural, Debug)]
pub enum TotpError {
    /// The secret was rejected as an HMAC key.
    InvalidKeyLength,
}

/// The HMAC-SHA1 tag of `msg` under `key`: a function of the two alone.
pub uninterp spec fn hmac_sha1_of(key: Seq<u8>, msg: Seq<u8>) -> Seq<u8>;

/// Relies on `hmac::Hmac<sha1::Sha1>` (`new_from_slice`, `update`,
/// `finalize`): the tag is 20 bytes and depends on key and message alone,
/// and `new_from_slice` accepts a key of any length, so the `unwrap`
/// cannot fail.
#[verifier::external_body]
fn hmac_sha1(key: &[u8], msg: &[u8]) -> (r: Vec<u8>)
    ensures
        r@ == hmac_sha1_of(key@, msg@),
        r@.len() == 20,
{
    let mut mac = <hmac::Hmac<sha1::Sha1> as hmac::Mac>::new_from_slice(key).unwrap();
    hmac::Mac::update(&mut mac, msg);
    hmac::Mac::finalize(mac).into_bytes().to_vec()
}

/// The eight big-endian bytes of a counter.
pub open spec fn spec_be_bytes(x: u64) -> Seq<u8> {
    seq![
        (x >> 56) as u8,
        (x >> 48) as u8,
        (x >> 40) as u8,
        (x >> 32) as u8,
        (x >> 24) as u8,
        (x >> 16) as u8,
        (x >> 8) as u8,
        x as u8,
    ]
}

fn u64_be_bytes(x: u64) -> (r: Vec<u8>)
    ensures
        r@ == spec_be_bytes(x),
{
    let mut r: Vec<u8> = Vec::new();
    r.push((x >> 56) as u8);
    r.push((x >> 48) as u8);
    r.push((x >> 40) as u8);
    r.push((x >> 32) as u8);
    r.push((x >> 24) as u8);
    r.push((x >> 16) as u8);
    r.push((x >> 8) as u8);
    r.push(x as u8);
    proof {
        assert(r@ =~= spec_be_bytes(x));
    }
    r
}

/// Dynamic truncation: the 31-bit big-endian word at the offset named by
/// the low four bits of the last tag byte.
pub open spec fn spec_truncated(mac: Seq<u8>) -> int
    recommends
        mac.len() == 20,
{
    let off = (mac[19] & 0x0f) as int;
    ((mac[off] & 0x7f) as int) * 0x1000000 + (mac[off + 1] as int) * 0x10000 + (mac[off
        + 2] as int) * 0x100 + (mac[off + 3] as int)
}

/// The six-digit code value of a tag.
pub open spec fn spec_code(mac: Seq<u8>) -> int {
    spec_truncated(mac) % 1000000
}

/// The six characters of a code value, zero padded.
pub open spec fn spec_six_digits(code: int) -> Seq<char>
    recommends
        0 <= code < 1000000,
{
    seq![
        digit_char((code / 100000 % 10) as nat),
        digit_char((code / 10000 % 10) as nat),
        digit_char((code / 1000 % 10) as nat),
        digit_char((code / 100 % 10) as nat),
        digit_char((code / 10 % 10) as nat),
        digit_char((code % 10) as nat),
    ]
}

/// The code for `secret` at `server_time_seconds`: counter is the
/// 30-second bucket, the code the truncated HMAC-SHA1 tag modulo a
/// million, zero-padded to six digits.
pub open spec fn spec_totp(secret: Seq<u8>, server_time_seconds: u64) -> Seq<char> {
    spec_six_digits(spec_code(hmac_sha1_of(secret, spec_be_bytes(server_time_seconds / 30))))
}

/// Generate the six-digit code for a secret and a server time.
pub fn generate_totp(secret: &[u8], server_time_seconds: u64) -> (r: Result<String, TotpError>)
    ensures
        r is Ok,
        r->Ok_0@ == spec_totp(secret@, server_time_seconds),
        r->Ok_0@.len() == 6,
        forall|i: int| 0 <= i < 6 ==> is_digit_char(#[trigger] r->Ok_0@[i]),
{
    let counter: u64 = server_time_seconds / 30;
    let counter_bytes = u64_be_bytes(counter);
    let mac = hmac_sha1(secret, counter_bytes.as_slice());
    let last: u8 = mac[19];
    proof {
        assert(last & 0x0f < 16) by (bit_vector);
    }
    let off: usize = (last & 0x0f) as usize;
    let binary: u32 = ((mac[off] & 0x7f) as u32) * 0x1000000 + (mac[off + 1] as u32) * 0x10000 + (
    mac[off + 2] as u32) * 0x100 + (mac[off + 3] as u32);
    let code: u32 = binary % 1000000;
    let mut digits: Vec<char> = Vec::new();
    digits.push((('0' as u8) + ((code / 100000 % 10) as u8)) as char);
    digits.push((('0' as u8) + ((code / 10000 % 10) as u8)) as char);
    digits.push((('0' as u8) + ((code / 1000 % 10) as u8)) as char);
    digits.push((('0' as u8) + ((code / 100 % 10) as u8)) as char);
    digits.push((('0' as u8) + ((code / 10 % 10) as u8)) as char);
    digits.push((('0' as u8) + ((code % 10) as u8)) as char);
    proof {
        assert(digits@ =~= spec_six_digits(code as int));
        assert(code as int == spec_code(mac@));
        assert forall|i: int| 0 <= i < 6 implies is_digit_char(#[trigger] digits@[i]) by {
            assert(('0' as u8) as char == '0');
        }
    }
    Ok(string_from_chars(&digits))
}

/// Two server times in the same 30-second bucket yield the same code: the
/// code is a function of the counter and the secret alone.
pub proof fn lemma_totp_stable_within_bucket(secret: Seq<u8>, t1: u64, t2: u64)
    requires
        t1 / 30 == t2 / 30,
    ensures
        spec_totp(secret, t1) == spec_totp(secret, t2),
{
}

} // verus!
