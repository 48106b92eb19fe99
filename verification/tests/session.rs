use stoat_client::connection::{
    banner_style, BannerAction, ConnectionBanner, ConnectionState, RECONNECTED_BANNER_MILLIS,
};
use stoat_client::login::{LoginForm, LoginReply, CLIENT_NAME};

#[test]
fn banner_follows_the_connection() {
    let mut b = ConnectionBanner::new();
    assert!(!b.visible);
    assert_eq!(b.on_state(ConnectionState::Connected), BannerAction::Nothing);
    assert!(!b.visible);
    assert_eq!(b.on_state(ConnectionState::Disconnected), BannerAction::Nothing);
    assert!(b.visible);
    assert_eq!(b.on_state(ConnectionState::Reconnecting), BannerAction::Nothing);
    assert!(b.visible);
    assert_eq!(b.on_state(ConnectionState::Reconnected), BannerAction::HideAfterDelay);
    assert!(b.visible);
    assert_eq!(b.after_delay(), ConnectionState::Connected);
    assert!(!b.visible);
    assert_eq!(RECONNECTED_BANNER_MILLIS, 2500);
}

#[test]
fn banner_styles() {
    assert_eq!(banner_style(ConnectionState::Disconnected), (0xff90909a, 0xff292a2f, "Disconnected"));
    assert_eq!(banner_style(ConnectionState::Connected), (0xffdde1ff, 0xff384379, "Connected"));
    assert_eq!(banner_style(ConnectionState::Reconnecting), (0xff90909a, 0xff292a2f, "Reconnecting"));
    assert_eq!(banner_style(ConnectionState::Reconnected), (0xffdde1ff, 0xff384379, "Reconnected"));
}

#[test]
fn login_replies() {
    assert_eq!(CLIENT_NAME, "Stoat-Freya");
    let mut f = LoginForm::new();
    f.on_login(Err("Network".to_string()));
    assert_eq!(f.error, Some("Network".to_string()));
    f.on_login(Ok(LoginReply::Disabled));
    assert_eq!(f.error, Some("Disabled Account".to_string()));
    f.on_login(Ok(LoginReply::Mfa { ticket: "T".to_string() }));
    assert_eq!(f.mfa_ticket, Some("T".to_string()));
    assert_eq!(f.token, None);
    f.mfa_value = "123456".to_string();
    f.on_mfa(Err("bad code".to_string()));
    assert_eq!(f.mfa_error, Some("bad code".to_string()));
    assert_eq!(f.mfa_ticket, Some("T".to_string()));
    f.on_mfa(Ok(LoginReply::Success { token: "tok".to_string() }));
    assert_eq!(f.token, Some("tok".to_string()));
    assert_eq!(f.mfa_ticket, None);
    assert_eq!(f.mfa_value, "");
    assert_eq!(f.mfa_error, None);
}

#[test]
fn login_success_and_closing() {
    let mut f = LoginForm::new();
    f.on_login(Ok(LoginReply::Success { token: "abc".to_string() }));
    assert_eq!(f.token, Some("abc".to_string()));
    f.mfa_ticket = Some("x".to_string());
    f.mfa_value = "1".to_string();
    f.mfa_error = Some("e".to_string());
    f.close_mfa();
    assert_eq!(f.mfa_ticket, None);
    assert_eq!(f.mfa_value, "");
    assert_eq!(f.mfa_error, None);
    assert_eq!(f.token, Some("abc".to_string()));
}
