//! The banner that tells the reader about the connection to the server.
use vstd::prelude::*;

verus! {

#[derive(Clone, Copy, Debug, PartialEq, Eq, Structural)]
pub enum ConnectionState {
    Disconnected,
    Connected,
    Reconnecting,
    Reconnected,
}

/// What the banner asks the caller to do after a change of state.
#[derive(Clone, Copy, Debug, PartialEq, Eq)]
pub enum BannerAction {
    Nothing,
    /// Wait 2.5 seconds, then call `ConnectionBanner::after_delay` and set
    /// the state it returns.
    HideAfterDelay,
}

/// Whether the banner is shown.
pub struct ConnectionBanner {
    pub visible: bool,
}

/// How long the "Reconnected" banner stays, in milliseconds.
pub const RECONNECTED_BANNER_MILLIS: u64 = 2500;

impl ConnectionBanner {
    pub fn new() -> (r: Self)
        ensures
            !r.visible,
    {
        ConnectionBanner { visible: false }
    }

    /// The state changed: losing the connection or reconnecting shows the
    /// banner; having reconnected shows it and hides it after a delay; being
    /// connected changes nothing.
    pub fn on_state(&mut self, state: ConnectionState) -> (r: BannerAction)
        ensures
            final(self).visible == (state != ConnectionState::Connected || old(self).visible),
            r == if state == ConnectionState::Reconnected {
                BannerAction::HideAfterDelay
            } else {
                BannerAction::Nothing
            },
    {
        match state {
            ConnectionState::Disconnected => {
                self.visible = true;
                BannerAction::Nothing
            },
            ConnectionState::Reconnecting => {
                self.visible = true;
                BannerAction::Nothing
            },
            ConnectionState::Reconnected => {
                self.visible = true;
                BannerAction::HideAfterDelay
            },
            ConnectionState::Connected => BannerAction::Nothing,
        }
    }

    /// The delay after reconnecting is over: the banner goes and the
    /// connection counts as connected.
    pub fn after_delay(&mut self) -> (r: ConnectionState)
        ensures
            !final(self).visible,
            r == ConnectionState::Connected,
    {
        self.visible = false;
        ConnectionState::Connected
    }
}

/// The banner's text colour, background and text for a state.
pub fn banner_style(state: ConnectionState) -> (r: (u32, u32, &'static str))
    ensures
        r == match state {
            ConnectionState::Disconnected => (0xff90909au32, 0xff292a2fu32, "Disconnected"),
            ConnectionState::Connected => (0xffdde1ffu32, 0xff384379u32, "Connected"),
            ConnectionState::Reconnecting => (0xff90909au32, 0xff292a2fu32, "Reconnecting"),
            ConnectionState::Reconnected => (0xffdde1ffu32, 0xff384379u32, "Reconnected"),
        },
{
    match state {
        ConnectionState::Disconnected => (0xff90909a, 0xff292a2f, "Disconnected"),
        ConnectionState::Connected => (0xffdde1ff, 0xff384379, "Connected"),
        ConnectionState::Reconnecting => (0xff90909a, 0xff292a2f, "Reconnecting"),
        ConnectionState::Reconnected => (0xffdde1ff, 0xff384379, "Reconnected"),
    }
}

} // verus!
