//! The conversation steps of the bot: what to do on each command, and what
//! to do with each result of the storage it asks for, down to the reply that
//! is sent.
//!
//! `answer` starts a step from a command; it and `resume` return the next
//! session and the action for the caller to carry out. After an action that
//! loads or stores, the caller hands the result back to `resume` as an
//! event. `Action::Ignore`, `Action::SendHelp` and `Action::Send` end a step.

use vstd::prelude::*;
use crate::bth::{Birthday, valid_birthday, check_bth, sort_bths_name, sort_bths_date, sort_bths_after_date};
use crate::user_config::{UserConfig, valid_user_config, check_user_config};
use crate::sort::{ListOrder, stably_sorted, group_from_date, lemma_after_date_sorted_groups};
use crate::text::{birthday_lines, birthdays_text, int_text, padded2, push_int, push_padded2};

verus! {

/// A command that a user sends to the bot.
pub enum Command {
    /// Show the list of commands.
    Help,
    /// List the birthdays from today on.
    Fetch,
    /// List the birthdays by name.
    FetchAlpha,
    /// List the birthdays by date.
    FetchOrder,
    /// Add a birthday: name, month, day and reminder offset, in this order.
    Add(String, i32, i32, i32),
    /// Delete the birthday with this id.
    Delete(i32),
    /// Show the reminder time.
    FetchConfig,
    /// Set the reminder time: hour and minute.
    UpdateConfig(i32, i32),
}

/// The order a listing is sent in.
pub enum Listing {
    /// From today on (`Command::Fetch`).
    FromToday,
    /// By name (`Command::FetchAlpha`).
    ByName,
    /// By date (`Command::FetchOrder`).
    ByDate,
}

/// Where a conversation step stands.
pub enum Session {
    /// The step is over.
    Over,
    /// Waiting for the user's birthdays, to list them in this order.
    Listing(Listing),
    /// Adding this birthday for this user; waiting for the user's reminder
    /// time, if there is one.
    AddCheckingConfig(i32, Birthday),
    /// Adding this birthday for this user; waiting for the default reminder
    /// time to be stored.
    AddCreatingConfig(i32, Birthday),
    /// Waiting for the birthday to be stored; whether a default reminder time
    /// was created first.
    AddStoring(bool),
    /// Waiting for the birthday with this id to be deleted.
    Deleting(i32),
    /// Waiting for the reminder time, to show it.
    ShowingConfig,
    /// Setting the reminder time of this user to this hour and minute;
    /// waiting for the current one, if there is one: it is replaced when
    /// there is, and created when there is not.
    UpdateCheckingConfig(i32, i32, i32),
    /// Waiting for the reminder time to be stored; whether there was one.
    UpdateStoring(bool),
}

/// What the caller is to do next.
pub enum Action {
    /// Nothing; the step is over.
    Ignore,
    /// Send the list of commands; the step is over.
    SendHelp,
    /// Send this text; the step is over.
    Send(String),
    /// Load the birthdays of this user, and hand them back with today's date.
    LoadBirthdays(i32),
    /// Load the reminder time of this user, and hand it back (`None` when it
    /// cannot be had).
    LoadConfig(i32),
    /// Store this reminder time for this user, who has none yet, and hand
    /// back whether it worked.
    CreateConfig(i32, UserConfig),
    /// Replace the stored reminder time of this user with this one, and hand
    /// back whether it worked.
    EditConfig(i32, UserConfig),
    /// Store this birthday for this user, and hand back whether it worked.
    CreateBirthday(i32, Birthday),
    /// Delete the birthday with this id (second) of this user (first), and
    /// hand back whether it worked.
    DeleteBirthday(i32, i32),
}

/// A result handed back after an action.
pub enum Event {
    /// The user's birthdays, with today's month and day.
    Birthdays(Vec<Birthday>, i32, i32),
    /// The user's reminder time, or `None` when it cannot be had.
    Config(Option<UserConfig>),
    /// Whether the store or delete worked.
    Stored(bool),
}

/// The order a listing sorts the birthdays in, given today's date.
pub open spec fn listing_order(l: Listing, month: i32, day: i32) -> ListOrder {
    match l {
        Listing::FromToday => ListOrder::AfterDate(month, day),
        Listing::ByName => ListOrder::Name,
        Listing::ByDate => ListOrder::Date,
    }
}

/// The reminder time given to a user who adds a birthday and has none.
pub open spec fn default_config() -> UserConfig {
    UserConfig { hour: 9, minute: 0 }
}

/// The action sends the text `t`.
pub open spec fn sends(action: Action, t: Seq<char>) -> bool {
    action matches Action::Send(s) && s@ == t
}

/// Every birthday that a session is about to store is valid.
pub open spec fn session_ok(s: Session) -> bool {
    match s {
        Session::AddCheckingConfig(_, b) => valid_birthday(b),
        Session::AddCreatingConfig(_, b) => valid_birthday(b),
        _ => true,
    }
}

/// Every birthday and every reminder time that an action stores is valid.
pub open spec fn action_ok(a: Action) -> bool {
    match a {
        Action::CreateBirthday(_, b) => valid_birthday(b),
        Action::CreateConfig(_, c) => valid_user_config(&c),
        Action::EditConfig(_, c) => valid_user_config(&c),
        _ => true,
    }
}

/// The step that a command from the chat `chat_id` starts. Chats with a
/// negative id are not answered; the user is the chat id cut to 32 bits.
pub open spec fn answered(chat_id: i64, command: Command, next: Session, action: Action) -> bool {
    let user = chat_id as i32;
    if chat_id < 0 {
        next == Session::Over && action == Action::Ignore
    } else {
        match command {
            Command::Help => next == Session::Over && action == Action::SendHelp,
            Command::Fetch => next == Session::Listing(Listing::FromToday) && action == Action::LoadBirthdays(user),
            Command::FetchAlpha => next == Session::Listing(Listing::ByName) && action == Action::LoadBirthdays(user),
            Command::FetchOrder => next == Session::Listing(Listing::ByDate) && action == Action::LoadBirthdays(user),
            Command::Add(name, month, day, reminder) => {
                let b = Birthday { name: name, day: day, month: month, reminder: reminder, id: 0 };
                if valid_birthday(b) {
                    next == Session::AddCheckingConfig(user, b) && action == Action::LoadConfig(user)
                } else {
                    next == Session::Over && sends(action, "Could not parse to a valid birthday"@)
                }
            },
            Command::Delete(id) => next == Session::Deleting(id) && action == Action::DeleteBirthday(user, id),
            Command::FetchConfig => next == Session::ShowingConfig && action == Action::LoadConfig(user),
            Command::UpdateConfig(hour, minute) => next == Session::UpdateCheckingConfig(user, hour, minute)
                && action == Action::LoadConfig(user),
        }
    }
}

/// The next step from `session` on the result `event`. A result that the
/// session does not wait for ends the step with nothing sent.
pub open spec fn resumed(session: Session, event: Event, next: Session, action: Action) -> bool {
    match (session, event) {
        (Session::Listing(l), Event::Birthdays(list, month, day)) => {
            &&& next == Session::Over
            &&& if list@.len() == 0 {
                sends(action, "You have no reminder start by creating one"@)
            } else {
                exists|sorted: Seq<Birthday>|
                    #[trigger] stably_sorted(listing_order(l, month, day), list@, sorted)
                        && sorted.to_multiset() == list@.to_multiset()
                        && sends(action, "You have the following birthdays:\n"@ + birthday_lines(sorted))
            }
        },
        (Session::AddCheckingConfig(user, b), Event::Config(c)) => match c {
            Some(_) => next == Session::AddStoring(false) && action == Action::CreateBirthday(user, b),
            None => next == Session::AddCreatingConfig(user, b) && action == Action::CreateConfig(user, default_config()),
        },
        (Session::AddCreatingConfig(user, b), Event::Stored(_)) => next == Session::AddStoring(true)
            && action == Action::CreateBirthday(user, b),
        (Session::AddStoring(created), Event::Stored(ok)) => {
            let prefix = if created { "Creating user config ! \n"@ } else { Seq::<char>::empty() };
            let outcome = if ok { "Birthady added !"@ } else { "Could not add Birthday to database"@ };
            next == Session::Over && sends(action, prefix + outcome)
        },
        (Session::Deleting(id), Event::Stored(ok)) => {
            &&& next == Session::Over
            &&& if ok {
                sends(action, "Birthady (id: "@ + int_text(id as int) + ") deleted !"@)
            } else {
                sends(action, "Could not delete Birthday (id: "@ + int_text(id as int) + ")"@)
            }
        },
        (Session::ShowingConfig, Event::Config(c)) => {
            &&& next == Session::Over
            &&& match c {
                Some(conf) => sends(
                    action,
                    "Your reminder is scheduled for "@ + padded2(conf.hour as int) + "h"@ + padded2(conf.minute as int),
                ),
                None => sends(action, "You have no user config"@),
            }
        },
        (Session::UpdateCheckingConfig(user, hour, minute), Event::Config(c)) => {
            let conf = UserConfig { hour: hour, minute: minute };
            if valid_user_config(&conf) {
                &&& next == Session::UpdateStoring(c is Some)
                &&& match c {
                    Some(_) => action == Action::EditConfig(user, conf),
                    None => action == Action::CreateConfig(user, conf),
                }
            } else {
                next == Session::Over && sends(action, "Your config is not valid"@)
            }
        },
        (Session::UpdateStoring(existed), Event::Stored(ok)) => {
            &&& next == Session::Over
            &&& if !ok {
                sends(action, "Error creating your config"@)
            } else if existed {
                sends(action, "Your config is updated!"@)
            } else {
                sends(action, "Your config is created!"@)
            }
        },
        _ => next == Session::Over && action == Action::Ignore,
    }
}

/// `/fetch` on the date `month`/`day` lists every birthday of the user once:
/// first those on that date, then those later in the year, then those
/// earlier (every birthday before the date comes after every birthday on or
/// after it), and within each group in month order, then day order.
pub proof fn lemma_fetch_lists_from_today(
    list: Vec<Birthday>,
    month: i32,
    day: i32,
    next: Session,
    action: Action,
)
    requires
        resumed(Session::Listing(Listing::FromToday), Event::Birthdays(list, month, day), next, action),
        list@.len() > 0,
    ensures
        exists|sorted: Seq<Birthday>|
            sends(action, "You have the following birthdays:\n"@ + #[trigger] birthday_lines(sorted))
                && sorted.to_multiset() == list@.to_multiset()
                && (forall|i: int, j: int|
                0 <= i < j < sorted.len() ==> group_from_date(#[trigger] sorted[i], month, day)
                    <= group_from_date(#[trigger] sorted[j], month, day))
                && (forall|i: int, j: int|
                0 <= i < j < sorted.len() && group_from_date(sorted[i], month, day) == group_from_date(
                    sorted[j],
                    month,
                    day,
                ) ==> (#[trigger] sorted[i]).month < (#[trigger] sorted[j]).month || (sorted[i].month
                    == sorted[j].month && sorted[i].day <= sorted[j].day)),
{
    let sorted = choose|sorted: Seq<Birthday>|
        #[trigger] stably_sorted(listing_order(Listing::FromToday, month, day), list@, sorted)
            && sorted.to_multiset() == list@.to_multiset()
            && sends(action, "You have the following birthdays:\n"@ + birthday_lines(sorted));
    lemma_after_date_sorted_groups(list@, sorted, month, day);
    assert(sends(action, "You have the following birthdays:\n"@ + birthday_lines(sorted)));
}

/// `/add name month day reminder` with a valid birthday goes on to store a
/// birthday with that name, that month, that day and that reminder: the
/// month comes before the day.
pub proof fn lemma_add_takes_month_then_day(
    chat_id: i64,
    name: String,
    month: i32,
    day: i32,
    reminder: i32,
    next: Session,
    action: Action,
)
    requires
        answered(chat_id, Command::Add(name, month, day, reminder), next, action),
        chat_id >= 0,
        1 <= month <= 12,
        0 <= day <= 28,
        reminder >= 0,
        name@.len() > 0,
    ensures
        next matches Session::AddCheckingConfig(_, b) && b.name == name && b.month == month && b.day == day
            && b.reminder == reminder && b.id == 0,
{
}

/// A command is ignored, with nothing sent, exactly when it comes from a
/// chat with a negative id.
pub proof fn lemma_only_negative_chats_are_ignored(chat_id: i64, command: Command, next: Session, action: Action)
    requires
        answered(chat_id, command, next, action),
    ensures
        (action == Action::Ignore) == (chat_id < 0),
{
}

/// `/updateconfig hour minute` with a time of day replaces the stored
/// reminder time of the user when there is one, and creates one when there is
/// none.
pub proof fn lemma_update_replaces_the_stored_time(
    user: i32,
    hour: i32,
    minute: i32,
    found: Option<UserConfig>,
    next: Session,
    action: Action,
)
    requires
        resumed(Session::UpdateCheckingConfig(user, hour, minute), Event::Config(found), next, action),
        0 <= hour < 24,
        0 <= minute < 60,
    ensures
        found is Some ==> action == Action::EditConfig(user, UserConfig { hour: hour, minute: minute }),
        found is None ==> action == Action::CreateConfig(user, UserConfig { hour: hour, minute: minute }),
{
}

fn text(s: &str) -> (t: String)
    ensures
        t@ == s@,
{
    String::from_str(s)
}

/// Starts the step that answers `command` from the chat `chat_id`.
pub fn answer(chat_id: i64, command: Command) -> (r: (Session, Action))
    ensures
        answered(chat_id, command, r.0, r.1),
        session_ok(r.0),
        action_ok(r.1),
{
    if chat_id < 0 {
        return (Session::Over, Action::Ignore);
    }
    let user = chat_id as i32;
    match command {
        Command::Help => (Session::Over, Action::SendHelp),
        Command::Fetch => (Session::Listing(Listing::FromToday), Action::LoadBirthdays(user)),
        Command::FetchAlpha => (Session::Listing(Listing::ByName), Action::LoadBirthdays(user)),
        Command::FetchOrder => (Session::Listing(Listing::ByDate), Action::LoadBirthdays(user)),
        Command::Add(name, month, day, reminder) => {
            let bth = Birthday { name: name, day: day, month: month, reminder: reminder, id: 0 };
            if !check_bth(&bth) {
                (Session::Over, Action::Send(text("Could not parse to a valid birthday")))
            } else {
                (Session::AddCheckingConfig(user, bth), Action::LoadConfig(user))
            }
        },
        Command::Delete(id) => (Session::Deleting(id), Action::DeleteBirthday(user, id)),
        Command::FetchConfig => (Session::ShowingConfig, Action::LoadConfig(user)),
        Command::UpdateConfig(hour, minute) => (Session::UpdateCheckingConfig(user, hour, minute), Action::LoadConfig(user)),
    }
}

fn listing_reply(l: Listing, list: Vec<Birthday>, month: i32, day: i32) -> (a: Action)
    ensures
        if list@.len() == 0 {
            sends(a, "You have no reminder start by creating one"@)
        } else {
            exists|sorted: Seq<Birthday>|
                #[trigger] stably_sorted(listing_order(l, month, day), list@, sorted)
                    && sorted.to_multiset() == list@.to_multiset()
                    && sends(a, "You have the following birthdays:\n"@ + birthday_lines(sorted))
        },
{
    if list.len() == 0 {
        return Action::Send(text("You have no reminder start by creating one"));
    }
    let mut result = list;
    match l {
        Listing::FromToday => sort_bths_after_date(&mut result, month, day),
        Listing::ByName => sort_bths_name(&mut result),
        Listing::ByDate => sort_bths_date(&mut result),
    }
    let msg = birthdays_text("You have the following birthdays:\n", &result);
    assert(stably_sorted(listing_order(l, month, day), list@, result@));
    Action::Send(msg)
}

/// Takes the step from `session` on the result `event`.
pub fn resume(session: Session, event: Event) -> (r: (Session, Action))
    ensures
        resumed(session, event, r.0, r.1),
        session_ok(session) ==> session_ok(r.0) && action_ok(r.1),
{
    match (session, event) {
        (Session::Listing(l), Event::Birthdays(list, month, day)) => {
            (Session::Over, listing_reply(l, list, month, day))
        },
        (Session::AddCheckingConfig(user, bth), Event::Config(c)) => match c {
            Some(_) => (Session::AddStoring(false), Action::CreateBirthday(user, bth)),
            None => {
                let myconf = UserConfig { hour: 9, minute: 0 };
                (Session::AddCreatingConfig(user, bth), Action::CreateConfig(user, myconf))
            },
        },
        (Session::AddCreatingConfig(user, bth), Event::Stored(_)) => {
            (Session::AddStoring(true), Action::CreateBirthday(user, bth))
        },
        (Session::AddStoring(created), Event::Stored(ok)) => {
            let mut msg = String::new();
            if created {
                msg.append("Creating user config ! \n");
            }
            if ok {
                msg.append("Birthady added !");
            } else {
                msg.append("Could not add Birthday to database");
            }
            (Session::Over, Action::Send(msg))
        },
        (Session::Deleting(id), Event::Stored(ok)) => {
            let mut msg = String::new();
            if ok {
                msg.append("Birthady (id: ");
                push_int(&mut msg, id);
                msg.append(") deleted !");
            } else {
                msg.append("Could not delete Birthday (id: ");
                push_int(&mut msg, id);
                msg.append(")");
            }
            (Session::Over, Action::Send(msg))
        },
        (Session::ShowingConfig, Event::Config(c)) => {
            let mut msg = String::new();
            match c {
                Some(myconf) => {
                    msg.append("Your reminder is scheduled for ");
                    push_padded2(&mut msg, myconf.hour);
                    msg.append("h");
                    push_padded2(&mut msg, myconf.minute);
                },
                None => {
                    msg.append("You have no user config");
                },
            }
            (Session::Over, Action::Send(msg))
        },
        (Session::UpdateCheckingConfig(user, hour, minute), Event::Config(c)) => {
            let existed = c.is_some();
            let myconf = UserConfig { hour: hour, minute: minute };
            if check_user_config(&myconf) {
                if existed {
                    (Session::UpdateStoring(true), Action::EditConfig(user, myconf))
                } else {
                    (Session::UpdateStoring(false), Action::CreateConfig(user, myconf))
                }
            } else {
                (Session::Over, Action::Send(text("Your config is not valid")))
            }
        },
        (Session::UpdateStoring(existed), Event::Stored(ok)) => {
            let reply = if !ok {
                "Error creating your config"
            } else if existed {
                "Your config is updated!"
            } else {
                "Your config is created!"
            };
            (Session::Over, Action::Send(text(reply)))
        },
        _ => (Session::Over, Action::Ignore),
    }
}

/// The text that reminds a user of the given birthdays, listed by name;
/// `None` when there are none.
pub fn reminder_text(bths: Vec<Birthday>) -> (t: Option<String>)
    ensures
        bths@.len() == 0 ==> t is None,
        bths@.len() > 0 ==> exists|sorted: Seq<Birthday>|
            #[trigger] stably_sorted(ListOrder::Name, bths@, sorted) && sorted.to_multiset() == bths@.to_multiset() && (t matches Some(s)
                && s@ == "Your comming soon birthdays:\n"@ + birthday_lines(sorted)),
{
    if bths.len() == 0 {
        return None;
    }
    let mut sorted = bths;
    sort_bths_name(&mut sorted);
    let msg = birthdays_text("Your comming soon birthdays:\n", &sorted);
    assert(stably_sorted(ListOrder::Name, bths@, sorted@));
    Some(msg)
}

} // verus!
