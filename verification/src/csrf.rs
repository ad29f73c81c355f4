//! CSRF protection for cookie-based sessions.
//!
//! A random token lives in the server-side session. Pages emit it so every
//! htmx request carries `X-CSRF-Token`. State-changing methods without a
//! matching header are rejected.

use vstd::prelude::*;
use vstd::string::StringSliceAdditionalSpecFns;

use rand::distr::Alphanumeric;
use rand::rngs::ThreadRng;
use rand::Rng;

use crate::text::push_char;

verus! {

/// The session key under which the token is stored.
pub const SESSION_KEY: &'static str = "csrf_token";

/// The request header that must carry the token.
pub const HEADER: &'static str = "x-csrf-token";

/// Number of characters in a token.
pub const TOKEN_LEN: usize = 32;

/// An ASCII letter or digit.
pub open spec fn is_alphanumeric_byte(b: u8) -> bool {
    ||| 0x30 <= b <= 0x39
    ||| 0x41 <= b <= 0x5a
    ||| 0x61 <= b <= 0x7a
}

/// A well-formed token: `TOKEN_LEN` ASCII letters and digits.
pub open spec fn is_token(t: Seq<char>) -> bool {
    &&& t.len() == TOKEN_LEN
    &&& forall|i: int| 0 <= i < t.len() ==> is_alphanumeric_byte(#[trigger] t[i] as u8) && (t[i] as u32)
        < 0x80
}

#[verifier::external_type_specification]
#[verifier::external_body]
pub struct ExThreadRng(ThreadRng);

/// Calls `rand::rng`, the handle to the thread-local generator. Nothing is
/// claimed of the handle.
#[verifier::external_body]
fn thread_rng() -> ThreadRng {
    rand::rng()
}

/// Calls `Rng::sample` with `rand::distr::Alphanumeric`. Claimed, as rand
/// documents and its source shows (a pick from `A-Z`, `a-z`, `0-9`): the byte is
/// an ASCII letter or digit. Which one is left open: it is random.
#[verifier::external_body]
fn sample_alphanumeric(rng: &mut ThreadRng) -> (b: u8)
    ensures
        is_alphanumeric_byte(b),
{
    rng.sample(Alphanumeric)
}

/// The characters for these bytes: each byte becomes the character with that code.
pub open spec fn bytes_as_chars(b: Seq<u8>) -> Seq<char> {
    b.map_values(|x: u8| x as char)
}

/// `t` is the text of `TOKEN_LEN` bytes, each an ASCII letter or digit.
pub open spec fn is_drawn_token(t: Seq<char>) -> bool {
    exists|b: Seq<u8>|
        {
            &&& b.len() == TOKEN_LEN
            &&& forall|i: int| 0 <= i < b.len() ==> is_alphanumeric_byte(#[trigger] b[i])
            &&& t == bytes_as_chars(b)
        }
}

/// The token text for the drawn bytes: each byte becomes the character with
/// that code, in order.
pub fn token_from_bytes(bytes: &Vec<u8>) -> (t: String)
    ensures
        t@ == bytes_as_chars(bytes@),
{
    let n = bytes.len();
    let mut t = String::new();
    let mut i: usize = 0;
    while i < n
        invariant
            n == bytes@.len(),
            i <= n,
            t@ == bytes_as_chars(bytes@.take(i as int)),
        decreases n - i,
    {
        let c = bytes[i] as char;
        push_char(&mut t, c);
        assert(bytes@.take(i + 1) =~= bytes@.take(i as int).push(bytes@[i as int]));
        assert(t@ =~= bytes_as_chars(bytes@.take(i + 1)));
        i = i + 1;
    }
    assert(bytes@.take(n as int) =~= bytes@);
    t
}

/// A fresh random token: `TOKEN_LEN` bytes drawn from the letters and digits,
/// turned into characters.
pub fn fresh_token() -> (t: String)
    ensures
        is_token(t@),
        is_drawn_token(t@),
{
    let mut rng = thread_rng();
    let mut bytes: Vec<u8> = Vec::new();
    let mut i: usize = 0;
    while i < TOKEN_LEN
        invariant
            i <= TOKEN_LEN,
            bytes@.len() == i,
            forall|k: int| 0 <= k < i ==> is_alphanumeric_byte(#[trigger] bytes@[k]),
        decreases TOKEN_LEN - i,
    {
        let b = sample_alphanumeric(&mut rng);
        bytes.push(b);
        i = i + 1;
    }
    let t = token_from_bytes(&bytes);
    proof {
        assert forall|k: int| 0 <= k < t@.len() implies is_alphanumeric_byte(
            #[trigger] t@[k] as u8,
        ) && (t@[k] as u32) < 0x80 by {
            let x = bytes@[k];
            assert(t@[k] == x as char);
            assert(is_alphanumeric_byte(x));
        }
    }
    t
}

/// The session's token, creating one on first use: given what the session
/// holds, returns the token and whether it is new (and must be stored).
pub fn token(stored: Option<String>) -> (r: (String, bool))
    ensures
        match stored {
            Some(t) => r.0 == t && !r.1,
            None => r.1 && is_token(r.0@) && is_drawn_token(r.0@),
        },
{
    match stored {
        Some(t) => (t, false),
        None => (fresh_token(), true),
    }
}

/// HTTP request methods, as the CSRF check tells them apart.
#[derive(Debug, Clone, Copy, PartialEq, Eq, Structural)]
pub enum Method {
    Get,
    Head,
    Options,
    Trace,
    Post,
    Put,
    Patch,
    Delete,
    Connect,
    Other,
}

/// Methods that do not change state and so need no token.
pub open spec fn is_safe(m: Method) -> bool {
    m is Get || m is Head || m is Options || m is Trace
}

/// Whether requests with this method pass without a token check.
pub fn is_safe_method(m: Method) -> (r: bool)
    ensures
        r == is_safe(m),
{
    match m {
        Method::Get | Method::Head | Method::Options | Method::Trace => true,
        _ => false,
    }
}

/// Byte-wise equality whose running time depends only on the lengths.
pub fn constant_time_eq(a: &[u8], b: &[u8]) -> (r: bool)
    ensures
        r == (a@ == b@),
{
    if a.len() != b.len() {
        return false;
    }
    let n = a.len();
    let mut acc: u8 = 0;
    let mut i: usize = 0;
    while i < n
        invariant
            n == a@.len(),
            n == b@.len(),
            i <= n,
            (acc == 0) == (forall|k: int| 0 <= k < i ==> a@[k] == b@[k]),
        decreases n - i,
    {
        let x = a[i];
        let y = b[i];
        let prev = acc;
        acc = acc | (x ^ y);
        assert((prev | (x ^ y)) == 0 <==> (prev == 0 && x == y)) by (bit_vector);
        assert((acc == 0) == (forall|k: int| 0 <= k < i + 1 ==> a@[k] == b@[k])) by {
            if acc == 0 {
                assert forall|k: int| 0 <= k < i + 1 implies a@[k] == b@[k] by {
                    if k == i {
                        assert(a@[k] == x && b@[k] == y);
                    }
                }
            } else if prev == 0 {
                assert(a@[i as int] != b@[i as int]);
            }
        }
        i = i + 1;
    }
    if acc == 0 {
        assert(a@ =~= b@);
        true
    } else {
        false
    }
}

/// The session's token and the header's token are both present and equal
/// byte for byte.
pub fn token_matches(expected: Option<&str>, provided: Option<&str>) -> (r: bool)
    ensures
        r == match (expected, provided) {
            (Some(e), Some(p)) => e.spec_bytes() == p.spec_bytes(),
            _ => false,
        },
        (expected matches Some(e) && provided matches Some(p) && e@ == p@) ==> r,
        provided is None ==> !r,
{
    match (expected, provided) {
        (Some(e), Some(p)) => constant_time_eq(e.as_bytes(), p.as_bytes()),
        _ => false,
    }
}

} // verus!
