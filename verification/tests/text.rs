use league_scoring::text::{push_decimal, text_around_number, text_before, text_equals, trim};
use league_scoring::token::{admin_token, fresh_token, player_token};

#[test]
fn trim_removes_unicode_white_space() {
    assert_eq!(trim("  Ann  "), "Ann");
    assert_eq!(trim("\t\n Ann Lee\r\n"), "Ann Lee");
    assert_eq!(trim("\u{3000}Ann\u{a0}"), "Ann");
    assert_eq!(trim("   "), "");
    assert_eq!(trim(""), "");
    assert_eq!(trim("x"), "x");
}

#[test]
fn decimals_match_display() {
    for n in [0i64, 7, -7, 10, 1234567890, i64::MAX, i64::MIN, -100] {
        let mut s = String::from("n=");
        push_decimal(&mut s, n);
        assert_eq!(s, format!("n={}", n));
    }
    assert_eq!(text_around_number("Player ", 42, " not found"), "Player 42 not found");
}

#[test]
fn text_comparisons() {
    assert!(text_equals("pending", "pending"));
    assert!(!text_equals("pending", "pendin"));
    assert!(!text_equals("pending", "Pending"));
    assert!(text_before("Ann", "Bob"));
    assert!(text_before("Ann", "Anna"));
    assert!(!text_before("Anna", "Ann"));
    assert!(!text_before("Ann", "Ann"));
    assert!(text_before("Zed", "ann"));
}

fn is_uuid_text(t: &str) -> bool {
    t.len() == 36
        && t.chars().enumerate().all(|(i, c)| {
            if [8, 13, 18, 23].contains(&i) {
                c == '-'
            } else {
                c.is_ascii_digit() || ('a'..='f').contains(&c)
            }
        })
}

#[test]
fn tokens_are_given_or_random() {
    assert_eq!(player_token(&Some("  secret ".to_string())), "secret");
    assert!(is_uuid_text(&player_token(&Some("   ".to_string()))));
    assert!(is_uuid_text(&player_token(&None)));
    assert_ne!(fresh_token(), fresh_token());
    assert_eq!(admin_token(Some(" as-is ".to_string())), " as-is ");
    assert!(is_uuid_text(&admin_token(None)));
}
