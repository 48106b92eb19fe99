use stoat_client::invite::invite_code;

#[test]
fn invite_codes() {
    assert_eq!(invite_code("https://stt.gg/abc123", Some("/abc123")), "abc123");
    assert_eq!(invite_code("https://stoat.chat/invite/Xy9", Some("/invite/Xy9")), "Xy9");
    assert_eq!(invite_code("abc123", None), "abc123");
    assert_eq!(invite_code("abc123", Some("abc123")), "abc123");
    assert_eq!(invite_code("https://stt.gg/", Some("/")), "");
    assert_eq!(invite_code("a/b c", None), "a/b c");
}
