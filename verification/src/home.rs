//! What the home screen shows.
use vstd::prelude::*;
use crate::text::text_eq;

verus! {

#[derive(Clone, PartialEq, Debug)]
pub enum HomeSelection {
    Welcome,
    Friends,
    DM(String),
}

impl HomeSelection {
    pub fn new() -> (r: Self)
        ensures
            r == HomeSelection::Welcome,
    {
        HomeSelection::Welcome
    }

    /// The direct-message channel shown, if a channel is shown.
    pub fn channel_id(&self) -> (r: Option<&str>)
        ensures
            match self {
                HomeSelection::DM(id) => r is Some && r.unwrap()@ == id@,
                _ => r is None,
            },
    {
        match self {
            HomeSelection::DM(id) => Some(id.as_str()),
            _ => None,
        }
    }
}

/// The entries at the top of the direct-message list.
#[derive(Clone, Copy, PartialEq, Eq, Debug)]
pub enum HomeNav {
    Home,
    Friends,
    SavedNotes,
}

/// The direct-message channel a selection shows, as text.
pub open spec fn shown_channel(selection: HomeSelection) -> Option<Seq<char>> {
    match selection {
        HomeSelection::DM(id) => Some(id@),
        _ => None,
    }
}

/// Whether a navigation entry shows as selected: Home on the welcome page,
/// Friends on the friends list, and Saved Notes when the id of the
/// saved-notes channel, if it is known, equals the id of the channel shown,
/// if one is (so with neither known nor shown it counts as selected too).
pub fn nav_selected(nav: HomeNav, selection: &HomeSelection, saved_notes: Option<&str>) -> (r: bool)
    ensures
        r == match nav {
            HomeNav::Home => *selection == HomeSelection::Welcome,
            HomeNav::Friends => *selection == HomeSelection::Friends,
            HomeNav::SavedNotes => match saved_notes {
                Some(s) => shown_channel(*selection) == Some(s@),
                None => shown_channel(*selection) is None,
            },
        },
{
    match nav {
        HomeNav::Home => match selection {
            HomeSelection::Welcome => true,
            _ => false,
        },
        HomeNav::Friends => match selection {
            HomeSelection::Friends => true,
            _ => false,
        },
        HomeNav::SavedNotes => match (saved_notes, selection.channel_id()) {
            (Some(s), Some(c)) => text_eq(s, c),
            (None, None) => true,
            _ => false,
        },
    }
}

/// What pressing Saved Notes selects: the saved-notes channel when it is
/// known; when it is not, `None`, and the direct message with oneself has to
/// be opened first, whose id is then selected.
pub fn saved_notes_selection(saved_notes: Option<&str>) -> (r: Option<HomeSelection>)
    ensures
        match saved_notes {
            Some(s) => r matches Some(HomeSelection::DM(id)) && id@ == s@,
            None => r is None,
        },
{
    match saved_notes {
        Some(s) => Some(HomeSelection::DM(s.to_owned())),
        None => None,
    }
}

} // verus!
