use birthday_tg_rs::bot::{answer, reminder_text, resume, Action, Command, Event, Session};
use birthday_tg_rs::bth::Birthday;
use birthday_tg_rs::text::{birthdays_text, push_int, push_padded2};
use birthday_tg_rs::user_config::UserConfig;

fn bth(name: &str, day: i32, month: i32, reminder: i32, id: i32) -> Birthday {
    Birthday { name: name.to_string(), day, month, reminder, id }
}

fn sent(a: &Action) -> String {
    match a {
        Action::Send(s) => s.clone(),
        _ => panic!("no text sent"),
    }
}

#[test]
fn numbers_are_written_in_decimal() {
    let mut s = String::new();
    push_int(&mut s, 0);
    s.push(' ');
    push_int(&mut s, 42);
    s.push(' ');
    push_int(&mut s, -7);
    s.push(' ');
    push_int(&mut s, i32::MIN);
    assert_eq!(s, "0 42 -7 -2147483648");
}

#[test]
fn padded_numbers_have_two_characters() {
    let mut s = String::new();
    for n in [5, 0, 12, -3, 123] {
        push_padded2(&mut s, n);
        s.push(',');
    }
    assert_eq!(s, format!("{:0>2},{:0>2},{:0>2},{:0>2},{:0>2},", 5, 0, 12, -3, 123));
}

#[test]
fn birthday_lines_follow_the_listing_format() {
    let v = vec![bth("Ann", 5, 3, 2, 7), bth("Bo", 12, 11, 0, 8)];
    let text = birthdays_text("Head:\n", &v);
    assert_eq!(text, "Head:\n- Ann: 05/03 (id: 7) (reminder: 2)\n- Bo: 12/11 (id: 8) (reminder: 0)\n");
}

#[test]
fn negative_chats_are_ignored() {
    let (s, a) = answer(-5, Command::Help);
    assert!(matches!(s, Session::Over));
    assert!(matches!(a, Action::Ignore));
}

#[test]
fn help_sends_the_command_list() {
    let (s, a) = answer(5, Command::Help);
    assert!(matches!(s, Session::Over));
    assert!(matches!(a, Action::SendHelp));
}

#[test]
fn chat_ids_are_cut_to_32_bits() {
    let (_, a) = answer(1 << 32 | 3, Command::FetchConfig);
    assert!(matches!(a, Action::LoadConfig(3)));
}

#[test]
fn fetch_with_no_birthdays_says_so() {
    let (s, a) = answer(5, Command::Fetch);
    assert!(matches!(a, Action::LoadBirthdays(5)));
    let (s, a) = resume(s, Event::Birthdays(Vec::new(), 6, 15));
    assert!(matches!(s, Session::Over));
    assert_eq!(sent(&a), "You have no reminder start by creating one");
}

#[test]
fn fetch_lists_from_today_on() {
    let (s, _) = answer(5, Command::Fetch);
    let list = vec![bth("Jan", 1, 1, 0, 1), bth("Jul", 1, 7, 0, 2), bth("Now", 15, 6, 1, 3)];
    let (_, a) = resume(s, Event::Birthdays(list, 6, 15));
    assert_eq!(
        sent(&a),
        "You have the following birthdays:\n- Now: 15/06 (id: 3) (reminder: 1)\n- Jul: 01/07 (id: 2) (reminder: 0)\n- Jan: 01/01 (id: 1) (reminder: 0)\n"
    );
}

#[test]
fn fetch_alpha_and_fetch_order_sort_their_way() {
    let list = || vec![bth("bo", 1, 1, 0, 1), bth("Al", 1, 7, 0, 2)];
    let (s, _) = answer(5, Command::FetchAlpha);
    let (_, a) = resume(s, Event::Birthdays(list(), 6, 15));
    assert_eq!(
        sent(&a),
        "You have the following birthdays:\n- Al: 01/07 (id: 2) (reminder: 0)\n- bo: 01/01 (id: 1) (reminder: 0)\n"
    );
    let (s, _) = answer(5, Command::FetchOrder);
    let (_, a) = resume(s, Event::Birthdays(list(), 6, 15));
    assert_eq!(
        sent(&a),
        "You have the following birthdays:\n- bo: 01/01 (id: 1) (reminder: 0)\n- Al: 01/07 (id: 2) (reminder: 0)\n"
    );
}

#[test]
fn add_rejects_an_invalid_birthday() {
    let (s, a) = answer(5, Command::Add("Ann".to_string(), 2, 30, 1));
    assert!(matches!(s, Session::Over));
    assert_eq!(sent(&a), "Could not parse to a valid birthday");
}

#[test]
fn add_creates_a_default_config_when_missing() {
    let (s, a) = answer(5, Command::Add("Ann".to_string(), 4, 3, 1));
    assert!(matches!(a, Action::LoadConfig(5)));
    let (s, a) = resume(s, Event::Config(None));
    match a {
        Action::CreateConfig(5, c) => assert!(c.hour == 9 && c.minute == 0),
        _ => panic!("expected a config to be created"),
    }
    let (s, a) = resume(s, Event::Stored(true));
    match a {
        Action::CreateBirthday(5, b) => {
            assert_eq!(b.name, "Ann");
            assert_eq!((b.day, b.month, b.reminder, b.id), (3, 4, 1, 0));
        },
        _ => panic!("expected the birthday to be stored"),
    }
    let (s, a) = resume(s, Event::Stored(true));
    assert!(matches!(s, Session::Over));
    assert_eq!(sent(&a), "Creating user config ! \nBirthady added !");
}

#[test]
fn add_with_a_config_reports_a_failed_store() {
    let (s, _) = answer(5, Command::Add("Ann".to_string(), 4, 3, 1));
    let (s, a) = resume(s, Event::Config(Some(UserConfig { hour: 8, minute: 0 })));
    assert!(matches!(a, Action::CreateBirthday(5, _)));
    let (_, a) = resume(s, Event::Stored(false));
    assert_eq!(sent(&a), "Could not add Birthday to database");
}

#[test]
fn delete_reports_the_id() {
    let (s, a) = answer(5, Command::Delete(12));
    assert!(matches!(a, Action::DeleteBirthday(5, 12)));
    let (_, a) = resume(s, Event::Stored(true));
    assert_eq!(sent(&a), "Birthady (id: 12) deleted !");
    let (s, _) = answer(5, Command::Delete(-3));
    let (_, a) = resume(s, Event::Stored(false));
    assert_eq!(sent(&a), "Could not delete Birthday (id: -3)");
}

#[test]
fn fetch_config_shows_the_time() {
    let (s, _) = answer(5, Command::FetchConfig);
    let (_, a) = resume(s, Event::Config(Some(UserConfig { hour: 7, minute: 5 })));
    assert_eq!(sent(&a), "Your reminder is scheduled for 07h05");
    let (s, _) = answer(5, Command::FetchConfig);
    let (_, a) = resume(s, Event::Config(None));
    assert_eq!(sent(&a), "You have no user config");
}

#[test]
fn update_config_checks_and_stores() {
    let (s, _) = answer(5, Command::UpdateConfig(25, 0));
    let (s, a) = resume(s, Event::Config(None));
    assert!(matches!(s, Session::Over));
    assert_eq!(sent(&a), "Your config is not valid");

    let (s, _) = answer(5, Command::UpdateConfig(20, 30));
    let (s, a) = resume(s, Event::Config(Some(UserConfig { hour: 9, minute: 0 })));
    match a {
        Action::EditConfig(5, c) => assert!(c.hour == 20 && c.minute == 30),
        _ => panic!("expected the stored config to be replaced"),
    }
    let (_, a) = resume(s, Event::Stored(true));
    assert_eq!(sent(&a), "Your config is updated!");

    let (s, _) = answer(5, Command::UpdateConfig(20, 30));
    let (s, a) = resume(s, Event::Config(None));
    match a {
        Action::CreateConfig(5, c) => assert!(c.hour == 20 && c.minute == 30),
        _ => panic!("expected a config to be created"),
    }
    let (_, a) = resume(s, Event::Stored(true));
    assert_eq!(sent(&a), "Your config is created!");

    let (s, _) = answer(5, Command::UpdateConfig(20, 30));
    let (s, _) = resume(s, Event::Config(None));
    let (_, a) = resume(s, Event::Stored(false));
    assert_eq!(sent(&a), "Error creating your config");
}

#[test]
fn unexpected_results_end_the_step() {
    let (s, a) = resume(Session::ShowingConfig, Event::Stored(true));
    assert!(matches!(s, Session::Over));
    assert!(matches!(a, Action::Ignore));
}

#[test]
fn reminder_text_lists_by_name() {
    assert!(reminder_text(Vec::new()).is_none());
    let t = reminder_text(vec![bth("zed", 1, 2, 3, 4), bth("Amy", 5, 6, 7, 8)]).unwrap();
    assert_eq!(
        t,
        "Your comming soon birthdays:\n- Amy: 05/06 (id: 8) (reminder: 7)\n- zed: 01/02 (id: 4) (reminder: 3)\n"
    );
}

#[test]
fn add_takes_the_month_before_the_day() {
    // "/add Bob 12 25 3": name, month, day, reminder offset.
    let (s, a) = answer(5, Command::Add("Bob".to_string(), 12, 25, 3));
    assert!(matches!(a, Action::LoadConfig(5)));
    let (s, a) = resume(s, Event::Config(Some(UserConfig { hour: 9, minute: 0 })));
    match a {
        Action::CreateBirthday(5, b) => {
            assert_eq!(b.name, "Bob");
            assert_eq!((b.month, b.day, b.reminder), (12, 25, 3));
        },
        _ => panic!("expected the birthday to be stored"),
    }
    let (_, a) = resume(s, Event::Stored(true));
    assert_eq!(sent(&a), "Birthady added !");
}
