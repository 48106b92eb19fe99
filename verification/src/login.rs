//! The sign-in form: what a reply to a sign-in, or to a second-factor code,
//! does to it.
use vstd::prelude::*;

verus! {

/// The name the client gives its session.
pub const CLIENT_NAME: &'static str = "Stoat-Freya";

/// The server's answer to a sign-in.
pub enum LoginReply {
    Success { token: String },
    /// A second factor is needed; the ticket goes with the code.
    Mfa { ticket: String },
    Disabled,
}

/// The state of the sign-in screen.
pub struct LoginForm {
    /// The session token, once signed in.
    pub token: Option<String>,
    pub error: Option<String>,
    /// While set, the second-factor dialog is open.
    pub mfa_ticket: Option<String>,
    pub mfa_value: String,
    pub mfa_error: Option<String>,
}

pub open spec fn disabled_text() -> Seq<char> {
    "Disabled Account"@
}

impl LoginForm {
    pub fn new() -> (r: Self)
        ensures
            r.token is None,
            r.error is None,
            r.mfa_ticket is None,
            r.mfa_value@ == Seq::<char>::empty(),
            r.mfa_error is None,
    {
        LoginForm {
            token: None,
            error: None,
            mfa_ticket: None,
            mfa_value: String::new(),
            mfa_error: None,
        }
    }

    /// A reply to signing in with email and password (`Err` holds the
    /// failure as text): success keeps the token, a second factor opens its
    /// dialog, a disabled account and a failure show an error. Nothing else
    /// changes.
    pub fn on_login(&mut self, reply: Result<LoginReply, String>)
        ensures
            final(self).mfa_value == old(self).mfa_value,
            final(self).mfa_error == old(self).mfa_error,
            match reply {
                Ok(LoginReply::Success { token }) => {
                    &&& final(self).token == Some(token)
                    &&& final(self).error == old(self).error
                    &&& final(self).mfa_ticket == old(self).mfa_ticket
                },
                Ok(LoginReply::Mfa { ticket }) => {
                    &&& final(self).mfa_ticket == Some(ticket)
                    &&& final(self).token == old(self).token
                    &&& final(self).error == old(self).error
                },
                Ok(LoginReply::Disabled) => {
                    &&& final(self).error is Some
                    &&& final(self).error.unwrap()@ == disabled_text()
                    &&& final(self).token == old(self).token
                    &&& final(self).mfa_ticket == old(self).mfa_ticket
                },
                Err(e) => {
                    &&& final(self).error == Some(e)
                    &&& final(self).token == old(self).token
                    &&& final(self).mfa_ticket == old(self).mfa_ticket
                },
            },
    {
        match reply {
            Ok(LoginReply::Success { token }) => {
                self.token = Some(token);
            },
            Ok(LoginReply::Mfa { ticket }) => {
                self.mfa_ticket = Some(ticket);
            },
            Ok(LoginReply::Disabled) => {
                self.error = Some(String::from_str("Disabled Account"));
            },
            Err(e) => {
                self.error = Some(e);
            },
        }
    }

    /// Closing the second-factor dialog forgets its ticket, code and error.
    pub fn close_mfa(&mut self)
        ensures
            final(self).mfa_ticket is None,
            final(self).mfa_value@ == Seq::<char>::empty(),
            final(self).mfa_error is None,
            final(self).token == old(self).token,
            final(self).error == old(self).error,
    {
        self.mfa_ticket = None;
        self.mfa_value = String::new();
        self.mfa_error = None;
    }

    /// A reply to a second-factor code: success closes the dialog and keeps
    /// the token; a failure shows in the dialog. The server answers a code
    /// with nothing else.
    pub fn on_mfa(&mut self, reply: Result<LoginReply, String>)
        requires
            match reply {
                Ok(LoginReply::Success { .. }) => true,
                Ok(_) => false,
                Err(_) => true,
            },
        ensures
            final(self).error == old(self).error,
            match reply {
                Ok(LoginReply::Success { token }) => {
                    &&& final(self).token == Some(token)
                    &&& final(self).mfa_ticket is None
                    &&& final(self).mfa_value@ == Seq::<char>::empty()
                    &&& final(self).mfa_error is None
                },
                Err(e) => {
                    &&& final(self).mfa_error == Some(e)
                    &&& final(self).token == old(self).token
                    &&& final(self).mfa_ticket == old(self).mfa_ticket
                    &&& final(self).mfa_value == old(self).mfa_value
                },
                _ => true,
            },
    {
        match reply {
            Ok(LoginReply::Success { token }) => {
                self.close_mfa();
                self.token = Some(token);
            },
            Ok(_) => {},
            Err(e) => {
                self.mfa_error = Some(e);
            },
        }
    }
}

} // verus!
