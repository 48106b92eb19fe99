use vstd::prelude::*;

pub mod text;
pub mod color;
pub mod markdown;
pub mod replies;
pub mod modal;
pub mod home;
pub mod timeline;
pub mod grouping;
pub mod emoji;
pub mod order;
pub mod members;
pub mod names;
pub mod sidebar;
pub mod messages;
pub mod connection;
pub mod login;
pub mod server_settings;
pub mod attachments;
pub mod reactions;
pub mod invite;
pub mod press;

verus! {

} // verus!
