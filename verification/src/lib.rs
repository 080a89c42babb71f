//! Birthday reminders for a chat bot: the birthday and reminder-time records,
//! their validity rules, the orders in which birthdays are listed, the choice
//! of which reminders are due, the reply texts, and the conversation steps
//! that answer each bot command.

pub mod order;
pub mod user_config;
pub mod mytime;
pub mod calendar;
pub mod bth;
pub mod sort;
pub mod text;
pub mod bot;
