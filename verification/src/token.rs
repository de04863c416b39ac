//! Choosing bearer tokens for new players and for the first admin.
use vstd::prelude::*;

use crate::text::{lemma_trimmed_is_inner_text, trim, trimmed};

verus! {

#[verifier::external_type_specification]
#[verifier::external_body]
pub struct ExUuid(uuid::Uuid);

/// `uuid::Uuid::new_v4`: a UUID drawn from the system's random source.
/// Nothing is claimed of which UUID comes back.
#[verifier::external_body]
fn random_uuid() -> uuid::Uuid {
    uuid::Uuid::new_v4()
}

/// A lowercase hexadecimal digit.
pub open spec fn is_lower_hex(c: char) -> bool {
    ('0' <= c && c <= '9') || ('a' <= c && c <= 'f')
}

/// The hyphenated lowercase form of a UUID: 36 characters, `-` at positions
/// 8, 13, 18 and 23, lowercase hex digits everywhere else.
pub open spec fn is_hyphenated_uuid(t: Seq<char>) -> bool {
    &&& t.len() == 36
    &&& forall|i: int|
        0 <= i < 36 ==> if i == 8 || i == 13 || i == 18 || i == 23 {
            t[i] == '-'
        } else {
            is_lower_hex(#[trigger] t[i])
        }
}

/// `<uuid::Uuid as Display>::to_string`: the UUID's `LowerHex` form, which is
/// the hyphenated form with lowercase digits; what is claimed is that shape,
/// not which digits.
#[verifier::external_body]
fn uuid_text(u: &uuid::Uuid) -> (t: String)
    ensures
        is_hyphenated_uuid(t@),
{
    u.to_string()
}

/// A fresh random token in UUID form.
pub fn fresh_token() -> (t: String)
    ensures
        is_hyphenated_uuid(t@),
{
    let u = random_uuid();
    uuid_text(&u)
}

/// The given token, trimmed, if there is one and it is not blank.
pub open spec fn usable_token(given: Option<String>) -> Option<Seq<char>> {
    match given {
        Some(g) => if trimmed(g@).len() > 0 {
            Some(trimmed(g@))
        } else {
            None
        },
        None => None,
    }
}

/// The token a new player gets: the one the admin gave, trimmed, unless it is
/// missing or blank; then a fresh random UUID.
pub fn player_token(given: &Option<String>) -> (t: String)
    ensures
        usable_token(*given) matches Some(u) ==> t@ == u,
        usable_token(*given) is None ==> is_hyphenated_uuid(t@),
        t@.len() > 0,
{
    match given {
        Some(g) => {
            let t = trim(g.as_str());
            if t.unicode_len() > 0 {
                return t;
            }
        },
        None => {},
    }
    fresh_token()
}

/// The first admin's token: the configured one, as given, else a fresh
/// random UUID.
pub fn admin_token(configured: Option<String>) -> (t: String)
    ensures
        configured matches Some(c) ==> t == c,
        configured is None ==> is_hyphenated_uuid(t@),
{
    match configured {
        Some(c) => c,
        None => fresh_token(),
    }
}

/// A new player keeps the token the admin gave, trimmed and otherwise
/// unchanged, character for character, whenever it is not blank; a blank or
/// missing token gives none.
pub proof fn lemma_given_token_kept(given: String)
    ensures
        trimmed(given@).len() > 0 ==> usable_token(Some(given)) == Some(trimmed(given@)),
        trimmed(given@).len() > 0 ==> exists|i: int, j: int|
            0 <= i <= j <= given@.len() && usable_token(Some(given)) == Some(given@.subrange(i, j)),
        trimmed(given@).len() == 0 ==> usable_token(Some(given)) is None,
        usable_token(None) is None,
{
    lemma_trimmed_is_inner_text(given@);
}

} // verus!
