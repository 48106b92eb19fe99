//! How a message is shown: the text of system messages, the time stamp
//! beside the author, and which body a message shows.
use vstd::prelude::*;
use crate::grouping::LocalDate;
use crate::names::{contains_text, find_user, lookup, KnownUser};
use crate::text::{decimal, digit, push_decimal, push_str_chars, push_two_digits, string_of, text_eq, two_digits};

verus! {

// ------------------------------------------------------------ system

/// A message the server writes about an event, with the ids of the users
/// it names.
pub enum SystemMessage {
    Text { content: String },
    UserAdded { id: String, by: String },
    UserRemove { id: String, by: String },
    UserJoined { id: String },
    UserLeft { id: String },
    UserKicked { id: String },
    UserBanned { id: String },
    ChannelRenamed { name: String, by: String },
    ChannelDescriptionChanged { by: String },
    ChannelIconChanged { by: String },
    ChannelOwnershipChanged { from: String, to: String },
    MessagePinned { id: String, by: String },
    MessageUnpinned { id: String, by: String },
    CallStarted { by: String },
}

/// The icon beside a system message.
#[derive(Clone, Copy, Debug, PartialEq, Eq)]
pub enum SystemIcon {
    Info,
    Plus,
    Cross,
    ArrowRight,
    ArrowLeft,
    CircleCross,
    ShieldCross,
    Tag,
    TextAlign,
    Image,
    Key,
    Pin,
    PinOff,
    Volume,
}

pub open spec fn icon_of(m: SystemMessage) -> SystemIcon {
    match m {
        SystemMessage::Text { .. } => SystemIcon::Info,
        SystemMessage::UserAdded { .. } => SystemIcon::Plus,
        SystemMessage::UserRemove { .. } => SystemIcon::Cross,
        SystemMessage::UserJoined { .. } => SystemIcon::ArrowRight,
        SystemMessage::UserLeft { .. } => SystemIcon::ArrowLeft,
        SystemMessage::UserKicked { .. } => SystemIcon::CircleCross,
        SystemMessage::UserBanned { .. } => SystemIcon::ShieldCross,
        SystemMessage::ChannelRenamed { .. } => SystemIcon::Tag,
        SystemMessage::ChannelDescriptionChanged { .. } => SystemIcon::TextAlign,
        SystemMessage::ChannelIconChanged { .. } => SystemIcon::Image,
        SystemMessage::ChannelOwnershipChanged { .. } => SystemIcon::Key,
        SystemMessage::MessagePinned { .. } => SystemIcon::Pin,
        SystemMessage::MessageUnpinned { .. } => SystemIcon::PinOff,
        SystemMessage::CallStarted { .. } => SystemIcon::Volume,
    }
}

pub fn system_icon(m: &SystemMessage) -> (r: SystemIcon)
    ensures
        r == icon_of(*m),
{
    match m {
        SystemMessage::Text { .. } => SystemIcon::Info,
        SystemMessage::UserAdded { .. } => SystemIcon::Plus,
        SystemMessage::UserRemove { .. } => SystemIcon::Cross,
        SystemMessage::UserJoined { .. } => SystemIcon::ArrowRight,
        SystemMessage::UserLeft { .. } => SystemIcon::ArrowLeft,
        SystemMessage::UserKicked { .. } => SystemIcon::CircleCross,
        SystemMessage::UserBanned { .. } => SystemIcon::ShieldCross,
        SystemMessage::ChannelRenamed { .. } => SystemIcon::Tag,
        SystemMessage::ChannelDescriptionChanged { .. } => SystemIcon::TextAlign,
        SystemMessage::ChannelIconChanged { .. } => SystemIcon::Image,
        SystemMessage::ChannelOwnershipChanged { .. } => SystemIcon::Key,
        SystemMessage::MessagePinned { .. } => SystemIcon::Pin,
        SystemMessage::MessageUnpinned { .. } => SystemIcon::PinOff,
        SystemMessage::CallStarted { .. } => SystemIcon::Volume,
    }
}

pub open spec fn known(users: Seq<KnownUser>, id: String) -> bool {
    lookup(users, id@) is Some
}

/// The username of a known user.
pub open spec fn name_of(users: Seq<KnownUser>, id: String) -> Seq<char> {
    users[lookup(users, id@).unwrap()].username@
}

/// Every user a system message names is known.
pub open spec fn names_known(m: SystemMessage, users: Seq<KnownUser>) -> bool {
    match m {
        SystemMessage::Text { .. } => true,
        SystemMessage::UserAdded { id, by } => known(users, id) && known(users, by),
        SystemMessage::UserRemove { id, by } => known(users, id) && known(users, by),
        SystemMessage::UserJoined { id } => known(users, id),
        SystemMessage::UserLeft { id } => known(users, id),
        SystemMessage::UserKicked { id } => known(users, id),
        SystemMessage::UserBanned { id } => known(users, id),
        SystemMessage::ChannelRenamed { by, .. } => known(users, by),
        SystemMessage::ChannelDescriptionChanged { by } => known(users, by),
        SystemMessage::ChannelIconChanged { by } => known(users, by),
        SystemMessage::ChannelOwnershipChanged { from, to } => known(users, from) && known(users, to),
        SystemMessage::MessagePinned { by, .. } => known(users, by),
        SystemMessage::MessageUnpinned { by, .. } => known(users, by),
        SystemMessage::CallStarted { by } => known(users, by),
    }
}

/// The text of a system message, naming users by username.
pub open spec fn system_text_of(m: SystemMessage, users: Seq<KnownUser>) -> Seq<char> {
    match m {
        SystemMessage::Text { content } => content@,
        SystemMessage::UserAdded { id, by } => name_of(users, id) + " has been added by "@ + name_of(users, by),
        SystemMessage::UserRemove { id, by } => name_of(users, id) + " has been removed by "@ + name_of(users, by),
        SystemMessage::UserJoined { id } => name_of(users, id) + " joined the server"@,
        SystemMessage::UserLeft { id } => name_of(users, id) + " left the server"@,
        SystemMessage::UserKicked { id } => name_of(users, id) + " has been kicked from the server"@,
        SystemMessage::UserBanned { id } => name_of(users, id) + " has been banned from the server"@,
        SystemMessage::ChannelRenamed { name, by } => name_of(users, by) + " updated the group name to "@ + name@,
        SystemMessage::ChannelDescriptionChanged { by } => name_of(users, by) + " updated the group description"@,
        SystemMessage::ChannelIconChanged { by } => name_of(users, by) + " updated the group icon"@,
        SystemMessage::ChannelOwnershipChanged { from, to } => name_of(users, from) + " transferred group ownership to "@ + name_of(users, to),
        SystemMessage::MessagePinned { by, .. } => name_of(users, by) + " pinned"@,
        SystemMessage::MessageUnpinned { by, .. } => name_of(users, by) + " unpinned"@,
        SystemMessage::CallStarted { by } => name_of(users, by) + " started a call"@,
    }
}

fn push_name(out: &mut Vec<char>, users: &Vec<KnownUser>, id: &String)
    requires
        known(users@, *id),
    ensures
        final(out)@ == old(out)@ + name_of(users@, *id),
{
    let u = find_user(users, id.as_str());
    let i = u.unwrap();
    push_str_chars(out, users[i].username.as_str());
}

/// The text of a system message (see `system_text_of`).
pub fn system_text(m: &SystemMessage, users: &Vec<KnownUser>) -> (r: String)
    requires
        names_known(*m, users@),
    ensures
        r@ == system_text_of(*m, users@),
{
    let mut v: Vec<char> = Vec::new();
    match m {
        SystemMessage::Text { content } => {
            push_str_chars(&mut v, content.as_str());
        },
        SystemMessage::UserAdded { id, by } => {
            push_name(&mut v, users, id);
            push_str_chars(&mut v, " has been added by ");
            push_name(&mut v, users, by);
        },
        SystemMessage::UserRemove { id, by } => {
            push_name(&mut v, users, id);
            push_str_chars(&mut v, " has been removed by ");
            push_name(&mut v, users, by);
        },
        SystemMessage::UserJoined { id } => {
            push_name(&mut v, users, id);
            push_str_chars(&mut v, " joined the server");
        },
        SystemMessage::UserLeft { id } => {
            push_name(&mut v, users, id);
            push_str_chars(&mut v, " left the server");
        },
        SystemMessage::UserKicked { id } => {
            push_name(&mut v, users, id);
            push_str_chars(&mut v, " has been kicked from the server");
        },
        SystemMessage::UserBanned { id } => {
            push_name(&mut v, users, id);
            push_str_chars(&mut v, " has been banned from the server");
        },
        SystemMessage::ChannelRenamed { name, by } => {
            push_name(&mut v, users, by);
            push_str_chars(&mut v, " updated the group name to ");
            push_str_chars(&mut v, name.as_str());
        },
        SystemMessage::ChannelDescriptionChanged { by } => {
            push_name(&mut v, users, by);
            push_str_chars(&mut v, " updated the group description");
        },
        SystemMessage::ChannelIconChanged { by } => {
            push_name(&mut v, users, by);
            push_str_chars(&mut v, " updated the group icon");
        },
        SystemMessage::ChannelOwnershipChanged { from, to } => {
            push_name(&mut v, users, from);
            push_str_chars(&mut v, " transferred group ownership to ");
            push_name(&mut v, users, to);
        },
        SystemMessage::MessagePinned { by, .. } => {
            push_name(&mut v, users, by);
            push_str_chars(&mut v, " pinned");
        },
        SystemMessage::MessageUnpinned { by, .. } => {
            push_name(&mut v, users, by);
            push_str_chars(&mut v, " unpinned");
        },
        SystemMessage::CallStarted { by } => {
            push_name(&mut v, users, by);
            push_str_chars(&mut v, " started a call");
        },
    }
    assert(v@ =~= system_text_of(*m, users@));
    string_of(&v)
}

// ------------------------------------------------------------ time stamps

pub open spec fn is_leap(y: int) -> bool {
    (y % 4 == 0 && y % 100 != 0) || y % 400 == 0
}

pub open spec fn days_in_month(y: int, m: int) -> int {
    if m == 2 {
        if is_leap(y) {
            29
        } else {
            28
        }
    } else if m == 4 || m == 6 || m == 9 || m == 11 {
        30
    } else {
        31
    }
}

/// A date of the proleptic Gregorian calendar in jiff's range.
pub open spec fn valid_date(d: LocalDate) -> bool {
    &&& -9999 <= d.year <= 9999
    &&& 1 <= d.month <= 12
    &&& 1 <= d.day <= days_in_month(d.year as int, d.month as int)
}

/// The day before `d`; none before the first day of year -9999.
pub open spec fn previous_day(d: LocalDate) -> Option<LocalDate> {
    if d.day > 1 {
        Some(LocalDate { year: d.year, month: d.month, day: (d.day - 1) as i8 })
    } else if d.month > 1 {
        Some(
            LocalDate {
                year: d.year,
                month: (d.month - 1) as i8,
                day: days_in_month(d.year as int, d.month - 1) as i8,
            },
        )
    } else if d.year > -9999 {
        Some(LocalDate { year: (d.year - 1) as i16, month: 12, day: 31 })
    } else {
        None
    }
}

/// jiff's `civil::Date::new` followed by `Date::yesterday`: the calendar day
/// before a valid date, none for the first day jiff can hold.
#[verifier::external_body]
fn day_before(d: LocalDate) -> (r: Option<LocalDate>)
    requires
        valid_date(d),
    ensures
        r == previous_day(d),
{
    match jiff::civil::Date::new(d.year, d.month, d.day) {
        Ok(date) => match date.yesterday() {
            Ok(y) => Some(LocalDate { year: y.year(), month: y.month(), day: y.day() }),
            Err(_) => None,
        },
        Err(_) => None,
    }
}

/// When a message was sent, in the reader's time zone.
#[derive(Clone, Copy, Debug, PartialEq, Eq)]
pub struct MessageTime {
    pub date: LocalDate,
    pub hour: u8,
    pub minute: u8,
}

pub open spec fn clock_text(t: MessageTime) -> Seq<char> {
    two_digits(t.hour as nat) + seq![':'] + two_digits(t.minute as nat)
}

pub open spec fn year_text(y: int) -> Seq<char> {
    if y < 0 {
        seq!['-'] + decimal((-y) as nat)
    } else {
        decimal(y as nat)
    }
}

/// The time stamp beside a message: "Today at HH:MM" for a message of
/// today, "Yesterday at HH:MM" for one of yesterday, else "DD/MM/YYYY".
pub open spec fn timestamp_text(sent: MessageTime, today: LocalDate) -> Seq<char> {
    if sent.date == today {
        "Today at "@ + clock_text(sent)
    } else if previous_day(today) == Some(sent.date) {
        "Yesterday at "@ + clock_text(sent)
    } else {
        two_digits(sent.date.day as nat) + seq!['/'] + two_digits(sent.date.month as nat) + seq!['/']
            + year_text(sent.date.year as int)
    }
}

/// A date as "DD/MM/YYYY".
pub open spec fn date_text(d: LocalDate) -> Seq<char> {
    two_digits(d.day as nat) + seq!['/'] + two_digits(d.month as nat) + seq!['/'] + year_text(
        d.year as int,
    )
}

/// The time stamp of a message of today reads "Today at HH:MM"; of the day
/// before today (jiff's `yesterday`), "Yesterday at HH:MM"; of any other
/// day, that day as "DD/MM/YYYY".
pub proof fn law_timestamp_cases(sent: MessageTime, today: LocalDate)
    ensures
        sent.date == today ==> timestamp_text(sent, today) == "Today at "@ + clock_text(sent),
        sent.date != today && previous_day(today) == Some(sent.date) ==> timestamp_text(sent, today)
            == "Yesterday at "@ + clock_text(sent),
        sent.date != today && previous_day(today) != Some(sent.date) ==> timestamp_text(sent, today)
            == date_text(sent.date),
{
}

/// The day before a valid date is a valid date; and it is the last day of
/// the month before when the date is the first of its month.
pub proof fn law_previous_day(d: LocalDate)
    requires
        valid_date(d),
    ensures
        (previous_day(d) matches Some(p) ==> valid_date(p) && p != d),
        d.day > 1 ==> previous_day(d) == Some(LocalDate { day: (d.day - 1) as i8, ..d }),
        d.day == 1 && d.month > 1 ==> (previous_day(d) matches Some(p) && p.year == d.year && p.month
            == d.month - 1 && p.day as int == days_in_month(d.year as int, d.month - 1)),
        d.day == 1 && d.month == 1 && d.year > -9999 ==> previous_day(d) == Some(
            LocalDate { year: (d.year - 1) as i16, month: 12, day: 31 },
        ),
{
}

fn push_clock(out: &mut Vec<char>, t: MessageTime)
    ensures
        final(out)@ == old(out)@ + clock_text(t),
{
    push_two_digits(out, t.hour as u64);
    out.push(':');
    push_two_digits(out, t.minute as u64);
    assert(out@ =~= old(out)@ + clock_text(t));
}

/// The time stamp of a message (see `timestamp_text`), given the reader's
/// date today.
pub fn timestamp_label(sent: MessageTime, today: LocalDate) -> (r: String)
    requires
        valid_date(sent.date),
        valid_date(today),
        previous_day(today) is Some,
    ensures
        r@ == timestamp_text(sent, today),
        sent.date == today ==> r@ == "Today at "@ + clock_text(sent),
        sent.date != today && previous_day(today) == Some(sent.date) ==> r@ == "Yesterday at "@
            + clock_text(sent),
        sent.date != today && previous_day(today) != Some(sent.date) ==> r@ == date_text(sent.date),
{
    proof {
        law_timestamp_cases(sent, today);
    }
    let mut v: Vec<char> = Vec::new();
    if sent.date == today {
        push_str_chars(&mut v, "Today at ");
        push_clock(&mut v, sent);
    } else if day_before(today) == Some(sent.date) {
        push_str_chars(&mut v, "Yesterday at ");
        push_clock(&mut v, sent);
    } else {
        push_two_digits(&mut v, sent.date.day as u64);
        v.push('/');
        push_two_digits(&mut v, sent.date.month as u64);
        v.push('/');
        let y: i16 = sent.date.year;
        if y < 0 {
            v.push('-');
            push_decimal(&mut v, (-(y as i32)) as u64);
        } else {
            push_decimal(&mut v, y as u64);
        }
    }
    assert(v@ =~= timestamp_text(sent, today));
    string_of(&v)
}

// ------------------------------------------------------------ bodies

/// What a message shows as its body.
#[derive(Clone, Debug, PartialEq, Eq)]
pub enum Body {
    /// The editor, when the reader is editing this message.
    Editor,
    Text(String),
    Nothing,
}

pub fn message_body(editing: &Option<String>, message_id: &str, content: &Option<String>) -> (r: Body)
    ensures
        r == match editing {
            Some(e) if e@ == message_id@ => Body::Editor,
            _ => match content {
                Some(c) if c@.len() > 0 => Body::Text(*c),
                _ => Body::Nothing,
            },
        },
{
    let is_editing = match editing {
        Some(e) => text_eq(e.as_str(), message_id),
        None => false,
    };
    if is_editing {
        return Body::Editor;
    }
    match content {
        Some(c) => {
            if !c.as_str().is_empty() {
                Body::Text(c.clone())
            } else {
                Body::Nothing
            }
        },
        None => Body::Nothing,
    }
}

/// Whether a message mentions the reader, which highlights it.
pub fn mentions_reader(mentions: &Option<Vec<String>>, me: &str) -> (r: bool)
    ensures
        r == match mentions {
            Some(m) => exists|k: int| 0 <= k < m.len() && #[trigger] m@[k]@ == me@,
            None => false,
        },
{
    match mentions {
        Some(m) => contains_text(m, me),
        None => false,
    }
}

/// The mark shown beside the time of a message once it has been edited:
/// "(edited)" when the message has an edit time, else nothing.
pub fn edited_mark(edited: &Option<String>) -> (r: Option<String>)
    ensures
        match edited {
            Some(_) => r is Some && r.unwrap()@ == "(edited)"@,
            None => r is None,
        },
{
    match edited {
        Some(_) => Some("(edited)".to_owned()),
        None => None,
    }
}

/// `a / b` rounded toward zero, as Rust divides.
pub open spec fn div_toward_zero(a: int, b: int) -> int {
    if a >= 0 {
        a / b
    } else {
        -((-a) / b)
    }
}

/// The size shown for a file: whole kilobytes (of 1000 bytes), then " KB".
pub open spec fn size_text(size: i64) -> Seq<char> {
    year_text(div_toward_zero(size as int, 1000)) + " KB"@
}

pub fn size_label(size: i64) -> (r: String)
    ensures
        r@ == size_text(size),
        size >= 0 ==> r@ == decimal((size / 1000) as nat) + " KB"@,
        -1000 < size < 1000 ==> r@ == seq!['0', ' ', 'K', 'B'],
{
    let kb: i64 = size / 1000;
    let mut v: Vec<char> = Vec::new();
    if kb < 0 {
        v.push('-');
        push_decimal(&mut v, (-(kb as i128)) as u64);
    } else {
        push_decimal(&mut v, kb as u64);
    }
    push_str_chars(&mut v, " KB");
    assert(v@ =~= size_text(size));
    proof {
        if -1000 < size < 1000 {
            reveal_strlit(" KB");
            assert(div_toward_zero(size as int, 1000) == 0);
            assert(digit(0) == '0');
            assert(size_text(size) =~= seq!['0', ' ', 'K', 'B']);
        }
    }
    string_of(&v)
}

/// The keys the message box and the message editor tell apart.
#[derive(Clone, Copy, Debug, PartialEq, Eq)]
pub enum Key {
    Enter,
    Escape,
    Other,
}

/// What a key press in the message box or editor does.
#[derive(Clone, Copy, Debug, PartialEq, Eq)]
pub enum KeyIntent {
    /// Send the draft, or save the edit.
    Submit,
    /// Stop editing.
    Cancel,
    /// Hand the key to the text editor.
    Edit,
}

/// Enter without shift submits; Escape cancels where `can_cancel` (the
/// editor of a sent message); every other key edits the text.
pub fn key_intent(key: Key, shift: bool, can_cancel: bool) -> (r: KeyIntent)
    ensures
        r == if key == Key::Enter && !shift {
            KeyIntent::Submit
        } else if key == Key::Escape && can_cancel {
            KeyIntent::Cancel
        } else {
            KeyIntent::Edit
        },
{
    match key {
        Key::Enter => if !shift {
            KeyIntent::Submit
        } else {
            KeyIntent::Edit
        },
        Key::Escape => if can_cancel {
            KeyIntent::Cancel
        } else {
            KeyIntent::Edit
        },
        Key::Other => KeyIntent::Edit,
    }
}

} // verus!
