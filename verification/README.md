# birthday_tg_rs

A Telegram bot that keeps birthdays and reminds its users of them, as a
verified library (`src/`) and the program around it (`app/`).

- `src/bth.rs`: birthdays, their validity rule, date comparison, the sorts
  that list them, and the choice of the birthdays whose reminder is due.
- `src/sort.rs`: the list orders and the stable sort, with its laws.
- `src/mytime.rs`: times of day, reminder windows, and the users whose
  reminder time has come.
- `src/user_config.rs`: reminder times and their validity rule.
- `src/text.rs`: the reply texts.
- `src/bot.rs`: the conversation steps that answer each command.
- `app/`: configuration, SQLite storage, the Telegram loop and the clock.

`Cargo.toml` also pins two crates that teloxide 0.7.3 pulls in: `takecell`
at 0.1.0, since later releases need a newer compiler than this project's,
and `tokio-util` 0.6 with its `codec` feature, which teloxide-core uses but
no longer gets from its other dependencies.
