//! The overview page of a server's settings: its fields remember the value
//! they started from, and saving sends only what changed.
use vstd::prelude::*;
use crate::text::text_eq;

verus! {

/// A text field and the value it started from.
pub struct TrackedText {
    pub initial: String,
    pub current: String,
}

/// A choice of channel (or none) and the choice it started from.
pub struct TrackedChoice {
    pub initial: Option<String>,
    pub current: Option<String>,
}

pub open spec fn same_choice(a: Option<String>, b: Option<String>) -> bool {
    match (a, b) {
        (Some(x), Some(y)) => x@ == y@,
        (None, None) => true,
        _ => false,
    }
}

fn same_choice_exec(a: &Option<String>, b: &Option<String>) -> (r: bool)
    ensures
        r == same_choice(*a, *b),
{
    match (a, b) {
        (Some(x), Some(y)) => text_eq(x.as_str(), y.as_str()),
        (None, None) => true,
        _ => false,
    }
}

impl TrackedText {
    pub fn new(value: String) -> (r: Self)
        ensures
            r.initial == value,
            r.current == value,
    {
        TrackedText { initial: value.clone(), current: value }
    }

    /// The value, when it differs from the one it started from.
    pub fn get_if_different(&self) -> (r: Option<String>)
        ensures
            r == if self.current@ != self.initial@ {
                Some(self.current)
            } else {
                None::<String>
            },
    {
        if text_eq(self.current.as_str(), self.initial.as_str()) {
            None
        } else {
            Some(self.current.clone())
        }
    }

    /// Back to the value it started from.
    pub fn reset(&mut self)
        ensures
            final(self).initial == old(self).initial,
            final(self).current == old(self).initial,
    {
        self.current = self.initial.clone();
    }

    /// A value that both starts over and is current.
    pub fn set_new(&mut self, value: String)
        ensures
            final(self).initial == value,
            final(self).current == value,
    {
        self.initial = value.clone();
        self.current = value;
    }
}

impl TrackedChoice {
    pub fn new(value: Option<String>) -> (r: Self)
        ensures
            r.initial == value,
            r.current == value,
    {
        TrackedChoice { initial: value.clone(), current: value }
    }

    pub fn get_if_different(&self) -> (r: Option<Option<String>>)
        ensures
            r == if !same_choice(self.current, self.initial) {
                Some(self.current)
            } else {
                None::<Option<String>>
            },
    {
        if same_choice_exec(&self.current, &self.initial) {
            None
        } else {
            Some(self.current.clone())
        }
    }

    pub fn reset(&mut self)
        ensures
            final(self).initial == old(self).initial,
            final(self).current == old(self).initial,
    {
        self.current = self.initial.clone();
    }

    pub fn set_new(&mut self, value: Option<String>)
        ensures
            final(self).initial == value,
            final(self).current == value,
    {
        self.initial = value.clone();
        self.current = value;
    }
}

/// The channels that get the system messages of a server.
pub struct SystemChannels {
    pub user_joined: Option<String>,
    pub user_left: Option<String>,
    pub user_kicked: Option<String>,
    pub user_banned: Option<String>,
}

pub open spec fn same_channels(a: SystemChannels, b: SystemChannels) -> bool {
    &&& same_choice(a.user_joined, b.user_joined)
    &&& same_choice(a.user_left, b.user_left)
    &&& same_choice(a.user_kicked, b.user_kicked)
    &&& same_choice(a.user_banned, b.user_banned)
}

/// A choice of channel, compared by the characters of its id.
pub open spec fn choice_view(c: Option<String>) -> Option<Seq<char>> {
    match c {
        Some(s) => Some(s@),
        None => None,
    }
}

/// The channel a form field asks to save: its current choice when that
/// differs from the one it started from, else the server's current channel.
pub open spec fn to_send(field: TrackedChoice, server: Option<String>) -> Option<Seq<char>> {
    if choice_view(field.current) != choice_view(field.initial) {
        choice_view(field.current)
    } else {
        choice_view(server)
    }
}

/// The changes to send for a server.
pub struct ServerEdit {
    pub name: Option<String>,
    pub description: Option<String>,
    pub system_messages: Option<SystemChannels>,
}

/// The overview form of a server's settings.
pub struct ServerSettingsForm {
    pub name: TrackedText,
    pub description: TrackedText,
    pub user_joined: TrackedChoice,
    pub user_left: TrackedChoice,
    pub user_kicked: TrackedChoice,
    pub user_banned: TrackedChoice,
}

pub open spec fn text_or_empty(s: Option<String>) -> Seq<char> {
    match s {
        Some(t) => t@,
        None => Seq::empty(),
    }
}

pub open spec fn channel_of(s: Option<SystemChannels>, pick: spec_fn(SystemChannels) -> Option<String>) -> Option<String> {
    match s {
        Some(c) => pick(c),
        None => None,
    }
}

/// A field's change, else the server's current value.
pub open spec fn merged(field: TrackedChoice, current: Option<String>) -> Option<String> {
    if !same_choice(field.current, field.initial) {
        field.current
    } else {
        current
    }
}

pub open spec fn none_channels() -> SystemChannels {
    SystemChannels { user_joined: None, user_left: None, user_kicked: None, user_banned: None }
}

/// The system channels to save: each field's change, else the server's
/// current channel.
pub open spec fn merged_channels(form: ServerSettingsForm, current: SystemChannels) -> SystemChannels {
    SystemChannels {
        user_joined: merged(form.user_joined, current.user_joined),
        user_left: merged(form.user_left, current.user_left),
        user_kicked: merged(form.user_kicked, current.user_kicked),
        user_banned: merged(form.user_banned, current.user_banned),
    }
}

fn merge_choice(field: &TrackedChoice, current: &Option<String>) -> (r: Option<String>)
    ensures
        r == merged(*field, *current),
{
    match field.get_if_different() {
        Some(v) => v,
        None => current.clone(),
    }
}

fn clone_choice(c: &Option<String>) -> (r: Option<String>)
    ensures
        r == *c,
{
    match c {
        Some(s) => Some(s.clone()),
        None => None,
    }
}

impl ServerSettingsForm {
    /// The form for a server as it is: its name, its description (empty
    /// when it has none) and its system channels.
    pub fn new(name: &String, description: &Option<String>, system: &Option<SystemChannels>) -> (r: Self)
        ensures
            r.name.initial@ == name@ && r.name.current@ == name@,
            r.description.initial@ == text_or_empty(*description),
            r.description.current@ == text_or_empty(*description),
            r.user_joined.initial == r.user_joined.current,
            r.user_left.initial == r.user_left.current,
            r.user_kicked.initial == r.user_kicked.current,
            r.user_banned.initial == r.user_banned.current,
            r.user_joined.current == channel_of(*system, |c: SystemChannels| c.user_joined),
            r.user_left.current == channel_of(*system, |c: SystemChannels| c.user_left),
            r.user_kicked.current == channel_of(*system, |c: SystemChannels| c.user_kicked),
            r.user_banned.current == channel_of(*system, |c: SystemChannels| c.user_banned),
    {
        let desc = match description {
            Some(d) => d.clone(),
            None => String::new(),
        };
        let (j, l, k, b) = match system {
            Some(c) => (
                clone_choice(&c.user_joined),
                clone_choice(&c.user_left),
                clone_choice(&c.user_kicked),
                clone_choice(&c.user_banned),
            ),
            None => (None, None, None, None),
        };
        ServerSettingsForm {
            name: TrackedText::new(name.clone()),
            description: TrackedText::new(desc),
            user_joined: TrackedChoice::new(j),
            user_left: TrackedChoice::new(l),
            user_kicked: TrackedChoice::new(k),
            user_banned: TrackedChoice::new(b),
        }
    }

    /// "Reset": every field back to where it started.
    pub fn reset(&mut self)
        ensures
            final(self).name.current == old(self).name.initial,
            final(self).description.current == old(self).description.initial,
            final(self).user_joined.current == old(self).user_joined.initial,
            final(self).user_left.current == old(self).user_left.initial,
            final(self).user_kicked.current == old(self).user_kicked.initial,
            final(self).user_banned.current == old(self).user_banned.initial,
            final(self).name.initial == old(self).name.initial,
            final(self).description.initial == old(self).description.initial,
            final(self).user_joined.initial == old(self).user_joined.initial,
            final(self).user_left.initial == old(self).user_left.initial,
            final(self).user_kicked.initial == old(self).user_kicked.initial,
            final(self).user_banned.initial == old(self).user_banned.initial,
    {
        self.name.reset();
        self.description.reset();
        self.user_joined.reset();
        self.user_left.reset();
        self.user_kicked.reset();
        self.user_banned.reset();
    }

    /// "Save": the changed name and description, and the system channels
    /// (each field's change, else the server's current channel) when they
    /// differ from the server's current ones.
    pub fn save_payload(&self, current: &Option<SystemChannels>) -> (r: ServerEdit)
        ensures
            r.name == self.name.get_if_different_spec(),
            r.description == self.description.get_if_different_spec(),
            ({
                let cur = match *current {
                    Some(c) => c,
                    None => none_channels(),
                };
                let m = merged_channels(*self, cur);
                match r.system_messages {
                    Some(s) => !same_channels(cur, m) && same_channels(s, m),
                    None => same_channels(cur, m),
                }
            }),
            ({
                let cur = match *current {
                    Some(c) => c,
                    None => none_channels(),
                };
                &&& (r.system_messages is Some <==> {
                    ||| to_send(self.user_joined, cur.user_joined) != choice_view(cur.user_joined)
                    ||| to_send(self.user_left, cur.user_left) != choice_view(cur.user_left)
                    ||| to_send(self.user_kicked, cur.user_kicked) != choice_view(cur.user_kicked)
                    ||| to_send(self.user_banned, cur.user_banned) != choice_view(cur.user_banned)
                })
                &&& (r.system_messages matches Some(s) ==> {
                    &&& choice_view(s.user_joined) == to_send(self.user_joined, cur.user_joined)
                    &&& choice_view(s.user_left) == to_send(self.user_left, cur.user_left)
                    &&& choice_view(s.user_kicked) == to_send(self.user_kicked, cur.user_kicked)
                    &&& choice_view(s.user_banned) == to_send(self.user_banned, cur.user_banned)
                })
            }),
    {

        proof {
            match current {
                Some(c) => law_save_sends_changed_channels(*self, *c),
                None => law_save_sends_changed_channels(*self, none_channels()),
            }
        }
        let cur = match current {
            Some(c) => SystemChannels {
                user_joined: clone_choice(&c.user_joined),
                user_left: clone_choice(&c.user_left),
                user_kicked: clone_choice(&c.user_kicked),
                user_banned: clone_choice(&c.user_banned),
            },
            None => SystemChannels { user_joined: None, user_left: None, user_kicked: None, user_banned: None },
        };
        let m = SystemChannels {
            user_joined: merge_choice(&self.user_joined, &cur.user_joined),
            user_left: merge_choice(&self.user_left, &cur.user_left),
            user_kicked: merge_choice(&self.user_kicked, &cur.user_kicked),
            user_banned: merge_choice(&self.user_banned, &cur.user_banned),
        };
        let same = same_choice_exec(&cur.user_joined, &m.user_joined) && same_choice_exec(
            &cur.user_left,
            &m.user_left,
        ) && same_choice_exec(&cur.user_kicked, &m.user_kicked) && same_choice_exec(
            &cur.user_banned,
            &m.user_banned,
        );
        ServerEdit {
            name: self.name.get_if_different(),
            description: self.description.get_if_different(),
            system_messages: if same {
                None
            } else {
                Some(m)
            },
        }
    }

    /// The server as saved: its name and description start over, and so do
    /// the system channels when the server has them.
    pub fn apply_saved(&mut self, name: String, description: Option<String>, system: Option<SystemChannels>)
        ensures
            final(self).name.initial@ == name@ && final(self).name.current@ == name@,
            final(self).description.initial@ == text_or_empty(description),
            final(self).description.current@ == text_or_empty(description),
            match system {
                Some(c) => {
                    &&& final(self).user_joined.initial == c.user_joined
                    &&& final(self).user_joined.current == c.user_joined
                    &&& final(self).user_left.initial == c.user_left
                    &&& final(self).user_left.current == c.user_left
                    &&& final(self).user_kicked.initial == c.user_kicked
                    &&& final(self).user_kicked.current == c.user_kicked
                    &&& final(self).user_banned.initial == c.user_banned
                    &&& final(self).user_banned.current == c.user_banned
                },
                None => {
                    &&& final(self).user_joined == old(self).user_joined
                    &&& final(self).user_left == old(self).user_left
                    &&& final(self).user_kicked == old(self).user_kicked
                    &&& final(self).user_banned == old(self).user_banned
                },
            },
    {
        self.name.set_new(name);
        let desc = match description {
            Some(d) => d,
            None => String::new(),
        };
        self.description.set_new(desc);
        match system {
            Some(c) => {
                self.user_joined.set_new(c.user_joined);
                self.user_left.set_new(c.user_left);
                self.user_kicked.set_new(c.user_kicked);
                self.user_banned.set_new(c.user_banned);
            },
            None => {},
        }
    }
}

impl TrackedText {
    pub open spec fn get_if_different_spec(&self) -> Option<String> {
        if self.current@ != self.initial@ {
            Some(self.current)
        } else {
            None
        }
    }
}

/// No field changed: neither since the form was made nor after "Reset".
pub open spec fn unchanged(form: ServerSettingsForm) -> bool {
    &&& form.name.current@ == form.name.initial@
    &&& form.description.current@ == form.description.initial@
    &&& same_choice(form.user_joined.current, form.user_joined.initial)
    &&& same_choice(form.user_left.current, form.user_left.initial)
    &&& same_choice(form.user_kicked.current, form.user_kicked.initial)
    &&& same_choice(form.user_banned.current, form.user_banned.initial)
}

/// Saving a form in which nothing changed sends no change: no name, no
/// description, and no system channels, whatever the server holds now.
pub proof fn law_unchanged_form_sends_nothing(form: ServerSettingsForm, current: SystemChannels)
    requires
        unchanged(form),
    ensures
        form.name.get_if_different_spec() is None,
        form.description.get_if_different_spec() is None,
        same_channels(current, merged_channels(form, current)),
{
}

/// Saving sends the system channels exactly when some field asks for a
/// channel other than the server's current one, and then each field carries
/// what that field asks for: its new choice when it changed, else the
/// server's current channel. So a single field changed to a channel the
/// server does not have yet is always sent, whichever of the four it is.
pub proof fn law_save_sends_changed_channels(form: ServerSettingsForm, current: SystemChannels)
    ensures
        same_channels(current, merged_channels(form, current)) <==> {
            &&& to_send(form.user_joined, current.user_joined) == choice_view(current.user_joined)
            &&& to_send(form.user_left, current.user_left) == choice_view(current.user_left)
            &&& to_send(form.user_kicked, current.user_kicked) == choice_view(current.user_kicked)
            &&& to_send(form.user_banned, current.user_banned) == choice_view(current.user_banned)
        },
        choice_view(merged_channels(form, current).user_joined) == to_send(form.user_joined, current.user_joined),
        choice_view(merged_channels(form, current).user_left) == to_send(form.user_left, current.user_left),
        choice_view(merged_channels(form, current).user_kicked) == to_send(form.user_kicked, current.user_kicked),
        choice_view(merged_channels(form, current).user_banned) == to_send(form.user_banned, current.user_banned),
        forall|a: SystemChannels, b: SystemChannels|
            #![trigger same_channels(a, b)]
            same_channels(a, b) <==> (choice_view(a.user_joined) == choice_view(b.user_joined)
                && choice_view(a.user_left) == choice_view(b.user_left) && choice_view(a.user_kicked)
                == choice_view(b.user_kicked) && choice_view(a.user_banned) == choice_view(
                b.user_banned)),
{
}

/// Saving right after "Reset" (every field back where it started) sends no
/// change.
pub proof fn law_save_after_reset_sends_nothing(form: ServerSettingsForm, current: SystemChannels)
    requires
        form.name.current == form.name.initial,
        form.description.current == form.description.initial,
        form.user_joined.current == form.user_joined.initial,
        form.user_left.current == form.user_left.initial,
        form.user_kicked.current == form.user_kicked.initial,
        form.user_banned.current == form.user_banned.initial,
    ensures
        form.name.get_if_different_spec() is None,
        form.description.get_if_different_spec() is None,
        same_channels(current, merged_channels(form, current)),
{
    law_unchanged_form_sends_nothing(form, current);
}

// ------------------------------------------------------------ selector

/// A channel the client knows, with its name.
pub struct NamedChannel {
    pub id: String,
    pub name: String,
}

pub open spec fn first_named(channels: Seq<NamedChannel>, id: Seq<char>) -> Option<int> {
    if exists|i: int| 0 <= i < channels.len() && #[trigger] channels[i].id@ == id {
        Some(
            choose|i: int|
                0 <= i < channels.len() && #[trigger] channels[i].id@ == id && forall|j: int|
                    0 <= j < i ==> #[trigger] channels[j].id@ != id,
        )
    } else {
        None
    }
}

fn find_named(channels: &Vec<NamedChannel>, id: &str) -> (r: Option<usize>)
    ensures
        match r {
            Some(i) => first_named(channels@, id@) == Some(i as int) && i < channels.len(),
            None => first_named(channels@, id@) is None,
        },
        match r {
            Some(i) => channels@[i as int].id@ == id@ && forall|j: int| 0 <= j < i ==> #[trigger] channels@[j].id@ != id@,
            None => forall|j: int| 0 <= j < channels.len() ==> #[trigger] channels@[j].id@ != id@,
        },
{
    let mut i: usize = 0;
    while i < channels.len()
        invariant
            0 <= i <= channels.len(),
            forall|j: int| 0 <= j < i ==> #[trigger] channels@[j].id@ != id@,
        decreases channels.len() - i,
    {
        if text_eq(channels[i].id.as_str(), id) {
            proof {
                let c = choose|c: int|
                    0 <= c < channels@.len() && #[trigger] channels@[c].id@ == id@ && forall|j: int|
                        0 <= j < c ==> #[trigger] channels@[j].id@ != id@;
                assert(channels@[i as int].id@ == id@);
                if c < i {
                    assert(channels@[c].id@ != id@);
                }
                if c > i {
                    assert(channels@[i as int].id@ != id@);
                }
            }
            return Some(i);
        }
        i = i + 1;
    }
    None
}

/// What a system-channel choice shows: the chosen channel's name when the
/// client knows it, else "Disabled".
pub open spec fn choice_label(value: Option<String>, channels: Seq<NamedChannel>) -> Seq<char> {
    match value {
        Some(id) => match first_named(channels, id@) {
            Some(i) => channels[i].name@,
            None => "Disabled"@,
        },
        None => "Disabled"@,
    }
}

pub fn selector_label(value: &Option<String>, channels: &Vec<NamedChannel>) -> (r: String)
    ensures
        r@ == choice_label(*value, channels@),
        value is None ==> r@ == "Disabled"@,
        (value matches Some(id) && forall|j: int| 0 <= j < channels.len() ==> #[trigger] channels@[j].id@ != id@)
            ==> r@ == "Disabled"@,
        (value matches Some(id) && exists|j: int| 0 <= j < channels.len() && #[trigger] channels@[j].id@ == id@)
            ==> exists|i: int|
            0 <= i < channels.len() && #[trigger] channels@[i].id@ == value.unwrap()@ && (forall|j: int|
                0 <= j < i ==> #[trigger] channels@[j].id@ != value.unwrap()@) && r@ == channels@[i].name@,
{
    match value {
        Some(id) => match find_named(channels, id.as_str()) {
            Some(i) => channels[i].name.clone(),
            None => String::from_str("Disabled"),
        },
        None => String::from_str("Disabled"),
    }
}

/// The channels a system-channel choice offers: the server's channels the
/// client knows, in the server's order, each as the position of the first
/// known channel with its id.
pub open spec fn options_upto(server_channels: Seq<String>, channels: Seq<NamedChannel>, n: int) -> Seq<usize>
    decreases n,
{
    if n <= 0 {
        seq![]
    } else {
        let acc = options_upto(server_channels, channels, n - 1);
        match first_named(channels, server_channels[n - 1]@) {
            Some(i) => acc.push(i as usize),
            None => acc,
        }
    }
}

pub fn selector_options(server_channels: &Vec<String>, channels: &Vec<NamedChannel>) -> (r: Vec<usize>)
    ensures
        r@ == options_upto(server_channels@, channels@, server_channels.len() as int),
        r.len() <= server_channels.len(),
        forall|k: int|
            0 <= k < r.len() ==> #[trigger] r@[k] < channels.len() && exists|q: int|
                0 <= q < server_channels.len() && #[trigger] server_channels@[q]@ == channels@[r@[k] as int].id@,
        forall|q: int|
            #![trigger server_channels@[q]]
            0 <= q < server_channels.len() && (exists|j: int|
                0 <= j < channels.len() && #[trigger] channels@[j].id@ == server_channels@[q]@) ==> exists|k: int|
                0 <= k < r.len() && #[trigger] channels@[r@[k] as int].id@ == server_channels@[q]@,
{
    let mut r: Vec<usize> = Vec::new();
    let mut k: usize = 0;
    while k < server_channels.len()
        invariant
            0 <= k <= server_channels.len(),
            r@ == options_upto(server_channels@, channels@, k as int),
            r.len() <= k,
            forall|t: int|
                0 <= t < r.len() ==> #[trigger] r@[t] < channels.len() && exists|q: int|
                    0 <= q < k && #[trigger] server_channels@[q]@ == channels@[r@[t] as int].id@,
            forall|q: int|
                #![trigger server_channels@[q]]
                0 <= q < k && (exists|j: int|
                    0 <= j < channels.len() && #[trigger] channels@[j].id@ == server_channels@[q]@) ==> exists|t: int|
                    0 <= t < r.len() && #[trigger] channels@[r@[t] as int].id@ == server_channels@[q]@,
        decreases server_channels.len() - k,
    {
        let ghost before = r@;
        match find_named(channels, server_channels[k].as_str()) {
            Some(i) => {
                r.push(i);
                proof {
                    assert(r@[r.len() - 1] == i);
                    assert forall|q: int|
                        #![trigger server_channels@[q]]
                        0 <= q < k + 1 && (exists|j: int|
                            0 <= j < channels.len() && #[trigger] channels@[j].id@ == server_channels@[q]@) implies exists|t: int|
                        0 <= t < r.len() && #[trigger] channels@[r@[t] as int].id@ == server_channels@[q]@ by {
                        if q < k {
                            let t = choose|t: int|
                                0 <= t < before.len() && #[trigger] channels@[before[t] as int].id@ == server_channels@[q]@;
                            assert(r@[t] == before[t]);
                        } else {
                            assert(channels@[r@[r.len() - 1] as int].id@ == server_channels@[q]@);
                        }
                    }
                    assert forall|t: int| 0 <= t < r.len() implies #[trigger] r@[t] < channels.len() && exists|q: int|
                        0 <= q < k + 1 && #[trigger] server_channels@[q]@ == channels@[r@[t] as int].id@ by {
                        if t < before.len() {
                            assert(r@[t] == before[t]);
                        } else {
                            assert(server_channels@[k as int]@ == channels@[r@[t] as int].id@);
                        }
                    }
                }
            },
            None => {
                proof {
                    assert forall|q: int|
                        #![trigger server_channels@[q]]
                        0 <= q < k + 1 && (exists|j: int|
                            0 <= j < channels.len() && #[trigger] channels@[j].id@ == server_channels@[q]@) implies exists|t: int|
                        0 <= t < r.len() && #[trigger] channels@[r@[t] as int].id@ == server_channels@[q]@ by {
                        if q == k {
                            let j = choose|j: int| 0 <= j < channels.len() && #[trigger] channels@[j].id@ == server_channels@[q]@;
                            assert(channels@[j].id@ != server_channels@[k as int]@);
                        }
                    }
                }
            },
        }
        k = k + 1;
    }
    r
}

} // verus!
