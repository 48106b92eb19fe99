//! The single modal dialog that may be open over the client.
use vstd::prelude::*;

verus! {

#[derive(PartialEq, Clone, Debug)]
pub enum ModalValue {
    ServerInfo { server: String },
    CreateJoinServer,
    CreateServer,
    JoinServer,
    ChannelDescription { channel: String },
    CreateRole { server: String },
    DeleteMessage { channel: String, message: String },
}

impl ModalValue {
    /// A copy of this value.
    pub fn duplicate(&self) -> (r: ModalValue)
        ensures
            r == *self,
    {
        match self {
            ModalValue::ServerInfo { server } => ModalValue::ServerInfo { server: server.clone() },
            ModalValue::CreateJoinServer => ModalValue::CreateJoinServer,
            ModalValue::CreateServer => ModalValue::CreateServer,
            ModalValue::JoinServer => ModalValue::JoinServer,
            ModalValue::ChannelDescription { channel } => ModalValue::ChannelDescription {
                channel: channel.clone(),
            },
            ModalValue::CreateRole { server } => ModalValue::CreateRole { server: server.clone() },
            ModalValue::DeleteMessage { channel, message } => ModalValue::DeleteMessage {
                channel: channel.clone(),
                message: message.clone(),
            },
        }
    }
}

/// Holds the open modal, if any.
pub struct ModalController {
    pub modal: Option<ModalValue>,
}

impl ModalController {
    pub fn new() -> (r: Self)
        ensures
            r.modal is None,
    {
        ModalController { modal: None }
    }

    /// Opens `modal`, replacing any open one.
    pub fn push_modal(&mut self, modal: ModalValue)
        ensures
            final(self).modal == Some(modal),
    {
        self.modal = Some(modal);
    }

    /// Closes the open modal and gives it back.
    pub fn pop_modal(&mut self) -> (r: Option<ModalValue>)
        ensures
            r == old(self).modal,
            final(self).modal is None,
    {
        self.modal.take()
    }

    /// The open modal.
    pub fn get_modal(&self) -> (r: Option<ModalValue>)
        ensures
            r == self.modal,
    {
        match &self.modal {
            Some(m) => Some(m.duplicate()),
            None => None,
        }
    }
}

impl ModalController {
    /// A button of the open dialog was pressed: a button without an action
    /// closes the dialog, and so does an action that returned `true`
    /// (`action` holds what the button's action returned, if it has one).
    pub fn dialog_button_pressed(&mut self, action: Option<bool>)
        ensures
            final(self).modal == if action == Some(false) {
                old(self).modal
            } else {
                None::<ModalValue>
            },
    {
        match action {
            Some(false) => {},
            _ => {
                let _ = self.pop_modal();
            },
        }
    }
}

} // verus!
