//! Bearer-token authentication.
use vstd::prelude::*;

use crate::error::AppError;
use crate::models::TokenRow;
use crate::text::{ascii_chars, is_visible_ascii, push_char, trim, trimmed};

verus! {

/// A request that presented the token of a known player or admin.
pub struct RequireToken(pub TokenRow);

/// A request that presented an admin's token.
pub struct RequireAdmin(pub TokenRow);

/// The scheme prefix of an `Authorization: Bearer <token>` header.
pub open spec fn bearer_prefix() -> Seq<char> {
    seq!['B', 'e', 'a', 'r', 'e', 'r', ' ']
}

/// `HeaderValue::to_str` accepts the value: every byte is visible ASCII.
pub open spec fn header_is_text(bytes: Seq<u8>) -> bool {
    forall|i: int| 0 <= i < bytes.len() ==> is_visible_ascii(#[trigger] bytes[i])
}

/// The token an `Authorization` header value carries: the header must be
/// visible ASCII, start with `Bearer `, and the token is the rest, trimmed.
pub open spec fn bearer_token(header: Option<Seq<u8>>) -> Option<Seq<char>> {
    match header {
        None => None,
        Some(bytes) => {
            let text = ascii_chars(bytes);
            if header_is_text(bytes) && text.len() >= 7 && text.take(7) == bearer_prefix() {
                Some(trimmed(text.skip(7)))
            } else {
                None
            }
        },
    }
}

/// The bytes of a header value, if present.
pub open spec fn header_bytes(header: Option<&[u8]>) -> Option<Seq<u8>> {
    match header {
        Some(b) => Some(b@),
        None => None,
    }
}

fn has_bearer_prefix(bytes: &[u8]) -> (b: bool)
    ensures
        b == (bytes@.len() >= 7 && ascii_chars(bytes@).take(7) == bearer_prefix()),
{
    if bytes.len() < 7 {
        return false;
    }
    let b = bytes[0] == 66 && bytes[1] == 101 && bytes[2] == 97 && bytes[3] == 114 && bytes[4]
        == 101 && bytes[5] == 114 && bytes[6] == 32;
    proof {
        let t = ascii_chars(bytes@).take(7);
        if b {
            assert(t =~= bearer_prefix());
        } else {
            if t == bearer_prefix() {
                assert(t[0] == 'B' && t[1] == 'e' && t[2] == 'a' && t[3] == 'r');
                assert(t[4] == 'e' && t[5] == 'r' && t[6] == ' ');
            }
        }
    }
    b
}

/// The bearer token of an `Authorization` header value, if it carries one.
pub fn extract_bearer(header: Option<&[u8]>) -> (r: Option<String>)
    ensures
        r is Some <==> bearer_token(header_bytes(header)) is Some,
        r matches Some(t) ==> t@ == bearer_token(header_bytes(header))->Some_0,
{
    let bytes = match header {
        None => {
            return None;
        },
        Some(b) => b,
    };
    assert(header_bytes(header) == Some(bytes@));
    let n = bytes.len();
    let mut i: usize = 0;
    while i < n
        invariant
            n == bytes@.len(),
            header_bytes(header) == Some(bytes@),
            i <= n,
            forall|k: int| 0 <= k < i ==> is_visible_ascii(#[trigger] bytes@[k]),
        decreases n - i,
    {
        let b = bytes[i];
        if !((32 <= b && b < 127) || b == 9) {
            assert(!is_visible_ascii(bytes@[i as int]));
            assert(!header_is_text(bytes@));
            return None;
        }
        i = i + 1;
    }
    if !has_bearer_prefix(bytes) {
        return None;
    }
    let mut rest = String::new();
    let mut j: usize = 7;
    while j < n
        invariant
            n == bytes@.len(),
            7 <= j <= n,
            rest@ == ascii_chars(bytes@).subrange(7, j as int),
        decreases n - j,
    {
        push_char(&mut rest, bytes[j] as char);
        j = j + 1;
        assert(rest@ =~= ascii_chars(bytes@).subrange(7, j as int));
    }
    assert(ascii_chars(bytes@).skip(7) =~= ascii_chars(bytes@).subrange(7, n as int));
    Some(trim(rest.as_str()))
}

/// What checking a header's token yields, before the token is looked up:
/// the token to look up, or `Unauthorized` when the header carries none.
pub fn token_to_look_up(header: Option<&[u8]>) -> (r: Result<String, AppError>)
    ensures
        bearer_token(header_bytes(header)) is None ==> r matches Err(AppError::Unauthorized),
        bearer_token(header_bytes(header)) matches Some(t) ==> (r matches Ok(s) && s@ == t),
{
    match extract_bearer(header) {
        Some(t) => Ok(t),
        None => Err(AppError::Unauthorized),
    }
}

impl RequireToken {
    /// The lookup of the presented token found this row, or nothing.
    pub fn from_lookup(row: Option<TokenRow>) -> (r: Result<RequireToken, AppError>)
        ensures
            row is None ==> r matches Err(AppError::Unauthorized),
            row matches Some(t) ==> (r matches Ok(rt) && rt.0 == t),
    {
        match row {
            Some(t) => Ok(RequireToken(t)),
            None => Err(AppError::Unauthorized),
        }
    }
}

impl RequireAdmin {
    /// An authenticated token passes only if it is an admin's.
    pub fn from_token(token: RequireToken) -> (r: Result<RequireAdmin, AppError>)
        ensures
            token.0.is_admin == 0 ==> r matches Err(AppError::Forbidden),
            token.0.is_admin != 0 ==> (r matches Ok(ra) && ra.0 == token.0),
    {
        let RequireToken(t) = token;
        if !t.is_admin() {
            return Err(AppError::Forbidden);
        }
        Ok(RequireAdmin(t))
    }
}

/// The token of an `Authorization` header is exactly its text after
/// `Bearer `, trimmed: each of its characters is the header byte at that
/// place, taken as a character, so letters keep their case.  A header that
/// is not visible ASCII, or does not start with `Bearer `, carries none.
pub proof fn lemma_bearer_token_is_header_text(bytes: Seq<u8>)
    ensures
        (header_is_text(bytes) && bytes.len() >= 7 && bytes[0] == 66 && bytes[1] == 101
            && bytes[2] == 97 && bytes[3] == 114 && bytes[4] == 101 && bytes[5] == 114
            && bytes[6] == 32) ==> bearer_token(Some(bytes)) == Some(
            trimmed(Seq::new((bytes.len() - 7) as nat, |i: int| bytes[i + 7] as char)),
        ),
        !(header_is_text(bytes) && bytes.len() >= 7 && bytes[0] == 66 && bytes[1] == 101
            && bytes[2] == 97 && bytes[3] == 114 && bytes[4] == 101 && bytes[5] == 114
            && bytes[6] == 32) ==> bearer_token(Some(bytes)) is None,
        bearer_token(None) is None,
{
    let text = ascii_chars(bytes);
    if bytes.len() >= 7 {
        let t = text.take(7);
        let is_prefix = bytes[0] == 66 && bytes[1] == 101 && bytes[2] == 97 && bytes[3] == 114
            && bytes[4] == 101 && bytes[5] == 114 && bytes[6] == 32;
        if is_prefix {
            assert(t =~= bearer_prefix());
            assert(text.skip(7) =~= Seq::new((bytes.len() - 7) as nat, |i: int| bytes[i + 7] as char));
        } else if t == bearer_prefix() {
            assert(t[0] == 'B' && t[1] == 'e' && t[2] == 'a' && t[3] == 'r');
            assert(t[4] == 'e' && t[5] == 'r' && t[6] == ' ');
        }
    }
}

} // verus!
