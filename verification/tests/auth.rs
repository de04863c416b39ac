use league_scoring::auth::{extract_bearer, token_to_look_up, RequireAdmin, RequireToken};
use league_scoring::error::AppError;
use league_scoring::models::TokenRow;

fn bearer(h: &str) -> Option<String> {
    extract_bearer(Some(h.as_bytes()))
}

#[test]
fn bearer_token_is_read_and_trimmed() {
    assert_eq!(bearer("Bearer abc-123"), Some("abc-123".to_string()));
    assert_eq!(bearer("Bearer   abc \t"), Some("abc".to_string()));
    assert_eq!(bearer("Bearer "), Some(String::new()));
}

#[test]
fn other_headers_carry_no_token() {
    assert_eq!(extract_bearer(None), None);
    assert_eq!(bearer("bearer abc"), None);
    assert_eq!(bearer("Basic abc"), None);
    assert_eq!(bearer("Bearer"), None);
    assert_eq!(bearer("Token Bearer abc"), None);
    assert_eq!(extract_bearer(Some(&b"Bearer ab\x01c"[..])), None);
    assert_eq!(extract_bearer(Some(&b"Bearer \xc3\xa4"[..])), None);
    assert_eq!(extract_bearer(Some(&b"Bearer a\x7f"[..])), None);
}

#[test]
fn missing_token_is_unauthorized() {
    assert!(matches!(token_to_look_up(None), Err(AppError::Unauthorized)));
    assert_eq!(token_to_look_up(Some(b"Bearer xyz")).ok(), Some("xyz".to_string()));
}

fn row(is_admin: i64) -> TokenRow {
    TokenRow {
        id: 3,
        token: "tok".to_string(),
        name: "Ann".to_string(),
        is_admin,
        created_at: "then".to_string(),
    }
}

#[test]
fn unknown_token_is_unauthorized() {
    assert!(matches!(RequireToken::from_lookup(None), Err(AppError::Unauthorized)));
    let RequireToken(t) = RequireToken::from_lookup(Some(row(0))).ok().unwrap();
    assert_eq!(t.id, 3);
}

#[test]
fn admin_routes_need_an_admin() {
    let player = RequireToken::from_lookup(Some(row(0))).ok().unwrap();
    assert!(matches!(RequireAdmin::from_token(player), Err(AppError::Forbidden)));
    let admin = RequireToken::from_lookup(Some(row(1))).ok().unwrap();
    let RequireAdmin(t) = RequireAdmin::from_token(admin).ok().unwrap();
    assert_eq!(t.name, "Ann");
}
