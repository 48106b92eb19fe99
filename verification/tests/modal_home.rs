use stoat_client::home::{nav_selected, HomeNav};
use stoat_client::home::saved_notes_selection;
use stoat_client::press::{press_reaches_handler, MouseButton, PressSource};
use stoat_client::home::HomeSelection;
use stoat_client::modal::{ModalController, ModalValue};

#[test]
fn modal_push_get_pop() {
    let mut c = ModalController::new();
    assert_eq!(c.get_modal(), None);
    c.push_modal(ModalValue::CreateServer);
    c.push_modal(ModalValue::DeleteMessage { channel: "c".to_string(), message: "m".to_string() });
    assert_eq!(
        c.get_modal(),
        Some(ModalValue::DeleteMessage { channel: "c".to_string(), message: "m".to_string() })
    );
    assert_eq!(
        c.pop_modal(),
        Some(ModalValue::DeleteMessage { channel: "c".to_string(), message: "m".to_string() })
    );
    assert_eq!(c.pop_modal(), None);
    assert_eq!(c.get_modal(), None);
}

#[test]
fn home_channel_id() {
    assert_eq!(HomeSelection::new().channel_id(), None);
    assert_eq!(HomeSelection::Friends.channel_id(), None);
    assert_eq!(HomeSelection::DM("xyz".to_string()).channel_id(), Some("xyz"));
}

#[test]
fn dialog_buttons() {
    let mut c = ModalController::new();
    c.push_modal(ModalValue::JoinServer);
    c.dialog_button_pressed(Some(false));
    assert_eq!(c.get_modal(), Some(ModalValue::JoinServer));
    c.dialog_button_pressed(Some(true));
    assert_eq!(c.get_modal(), None);
    c.push_modal(ModalValue::CreateServer);
    c.dialog_button_pressed(None);
    assert_eq!(c.get_modal(), None);
}

#[test]
fn nav_highlights() {
    let welcome = HomeSelection::Welcome;
    let friends = HomeSelection::Friends;
    let notes = HomeSelection::DM("N".to_string());
    let other = HomeSelection::DM("X".to_string());
    assert!(nav_selected(HomeNav::Home, &welcome, Some("N")));
    assert!(!nav_selected(HomeNav::Home, &friends, Some("N")));
    assert!(nav_selected(HomeNav::Friends, &friends, None));
    assert!(!nav_selected(HomeNav::Friends, &notes, None));
    assert!(nav_selected(HomeNav::SavedNotes, &notes, Some("N")));
    assert!(!nav_selected(HomeNav::SavedNotes, &other, Some("N")));
    assert!(!nav_selected(HomeNav::SavedNotes, &welcome, Some("N")));
    assert!(!nav_selected(HomeNav::SavedNotes, &notes, None));
    assert!(nav_selected(HomeNav::SavedNotes, &welcome, None));
}

#[test]
fn saved_notes_press() {
    assert_eq!(saved_notes_selection(Some("N")), Some(HomeSelection::DM("N".to_string())));
    assert_eq!(saved_notes_selection(None), None);
}

#[test]
fn press_filter() {
    assert!(press_reaches_handler(PressSource::Mouse(Some(MouseButton::Left))));
    assert!(!press_reaches_handler(PressSource::Mouse(Some(MouseButton::Right))));
    assert!(!press_reaches_handler(PressSource::Mouse(Some(MouseButton::Middle))));
    assert!(!press_reaches_handler(PressSource::Mouse(None)));
    assert!(press_reaches_handler(PressSource::Touch));
    assert!(press_reaches_handler(PressSource::Keyboard));
}
