//! The time of day at which a user wants to be reminded.

use vstd::prelude::*;

verus! {

/// The hour and minute of the daily reminder of one user.
#[derive(Debug)]
pub struct UserConfig {
    pub hour: i32,
    pub minute: i32,
}

/// A reminder time is valid when it names a time of day: an hour from 0 to
/// 23 and a minute from 0 to 59.
pub open spec fn valid_user_config(a: &UserConfig) -> bool {
    0 <= a.hour <= 23 && 0 <= a.minute <= 59
}

/// The valid reminder times are exactly the 24 * 60 minutes of a day: each
/// hour from 0 to 23 with each minute from 0 to 59.
pub proof fn lemma_valid_user_config_is_a_time_of_day(a: UserConfig)
    ensures
        valid_user_config(&a) == (0 <= a.hour && a.hour < 24 && 0 <= a.minute && a.minute < 60),
{
}

/// Tells whether the reminder time is a time of day.
pub fn check_user_config(a: &UserConfig) -> (ok: bool)
    ensures
        ok == valid_user_config(a),
{
    if a.hour < 0 || a.hour > 23 {
        return false;
    }
    if a.minute < 0 || a.minute > 59 {
        return false;
    }
    true
}

} // verus!
