use keefuzz::key::{empty_key, password_from_file, password_key};
use keepass::DatabaseKey;

#[test]
fn password_file_line_ending_is_dropped() {
    assert_eq!(password_from_file("secret\n".into()), "secret");
    assert_eq!(password_from_file("secret\r\n".into()), "secret");
    assert_eq!(password_from_file("secret".into()), "secret");
    assert_eq!(password_from_file("secret\r".into()), "secret\r");
    assert_eq!(password_from_file("secret\n\n".into()), "secret\n");
    assert_eq!(password_from_file("\n".into()), "");
    assert_eq!(password_from_file("".into()), "");
}

#[test]
fn password_key_holds_the_password_alone() {
    assert!(empty_key().is_empty());
    assert_eq!(empty_key(), DatabaseKey::new());
    assert!(!password_key("secret").is_empty());
    assert_eq!(password_key("secret"), DatabaseKey::new().with_password("secret"));
    assert_ne!(password_key("secret"), password_key("other"));
    assert_ne!(password_key(""), empty_key());
}
