use calendar_notifier::secrets::{delete_refresh_token, get_refresh_token, save_refresh_token, TokenStore};

#[test]
fn token_saved_is_read_back() {
    let mut s = TokenStore::new();
    assert_eq!(get_refresh_token(&s, "a@x.com"), None);
    save_refresh_token(&mut s, "a@x.com", "rt-1");
    save_refresh_token(&mut s, "b@x.com", "rt-2");
    assert_eq!(get_refresh_token(&s, "a@x.com"), Some("rt-1".to_string()));
    save_refresh_token(&mut s, "a@x.com", "rt-3");
    assert_eq!(get_refresh_token(&s, "a@x.com"), Some("rt-3".to_string()));
    assert_eq!(get_refresh_token(&s, "b@x.com"), Some("rt-2".to_string()));
}

#[test]
fn token_deleted_is_gone() {
    let mut s = TokenStore::new();
    save_refresh_token(&mut s, "a@x.com", "rt-1");
    save_refresh_token(&mut s, "b@x.com", "rt-2");
    delete_refresh_token(&mut s, "a@x.com");
    assert_eq!(get_refresh_token(&s, "a@x.com"), None);
    assert_eq!(get_refresh_token(&s, "b@x.com"), Some("rt-2".to_string()));
    delete_refresh_token(&mut s, "nobody@x.com");
    assert_eq!(get_refresh_token(&s, "b@x.com"), Some("rt-2".to_string()));
}
