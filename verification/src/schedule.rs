//! Schedules of the recurring jobs, as cron expressions with a description.

use crate::config::{NotificationSchedule, ScheduleType};
use crate::text::{decimal_string, decimal_text, two_digit_string, two_digit_text};
use vstd::prelude::*;
use vstd::string::StringExecFns;

verus! {

/// The description of a job that recurs every `seconds` seconds.
pub open spec fn period_description(seconds: nat) -> Seq<char> {
    if seconds < 60 {
        "every "@ + decimal_text(seconds) + " seconds"@
    } else if seconds % 60 == 0 {
        "every "@ + decimal_text(seconds / 60) + " minutes"@
    } else {
        "every "@ + decimal_text(seconds / 60) + " minutes "@ + decimal_text(seconds % 60)
            + " seconds"@
    }
}

/// The cron expression of a job that recurs every `seconds` seconds: by
/// the second below a minute, by whole minutes from there on.
pub open spec fn period_expression(seconds: nat) -> Seq<char> {
    if seconds < 60 {
        "*/"@ + decimal_text(seconds) + " * * * * *"@
    } else {
        "0 */"@ + decimal_text(seconds / 60) + " * * * *"@
    }
}

/// The description and the cron expression of a job that recurs every
/// `seconds` seconds.
pub fn build_cron_expr(seconds: u64) -> (out: (String, String))
    ensures
        out.0@ == period_description(seconds as nat),
        out.1@ == period_expression(seconds as nat),
{
    let mut desc = String::new();
    desc.append("every ");
    if seconds < 60 {
        desc.append(decimal_string(seconds).as_str());
        desc.append(" seconds");
    } else if seconds % 60 == 0 {
        desc.append(decimal_string(seconds / 60).as_str());
        desc.append(" minutes");
    } else {
        desc.append(decimal_string(seconds / 60).as_str());
        desc.append(" minutes ");
        desc.append(decimal_string(seconds % 60).as_str());
        desc.append(" seconds");
    }
    assert(desc@ =~= period_description(seconds as nat));
    let mut expr = String::new();
    if seconds < 60 {
        expr.append("*/");
        expr.append(decimal_string(seconds).as_str());
        expr.append(" * * * * *");
    } else {
        expr.append("0 */");
        expr.append(decimal_string(seconds / 60).as_str());
        expr.append(" * * * *");
    }
    assert(expr@ =~= period_expression(seconds as nat));
    (desc, expr)
}

/// When notifications go out, with the defaults filled in.
#[derive(Debug, Clone, Copy, PartialEq, Eq, Structural)]
pub enum NotificationCronType {
    Weekly { weekday: u8, hour: u8, minute: u8, seconds: u8 },
    Monthly { day: u8, hour: u8, minute: u8, seconds: u8 },
}

/// The schedule with its defaults filled in: the first weekday, or the
/// first day of the month, where none is given.
pub open spec fn cron_type_of(schedule: NotificationSchedule) -> NotificationCronType {
    match schedule.schedule_type {
        ScheduleType::Weekly => NotificationCronType::Weekly {
            weekday: match schedule.weekday {
                Some(d) => d,
                None => 1,
            },
            hour: schedule.hour,
            minute: schedule.minute,
            seconds: schedule.seconds,
        },
        ScheduleType::Monthly => NotificationCronType::Monthly {
            day: match schedule.day {
                Some(d) => d,
                None => 1,
            },
            hour: schedule.hour,
            minute: schedule.minute,
            seconds: schedule.seconds,
        },
    }
}

/// The schedule with its defaults filled in.
pub fn build_notification_cron_type(schedule: &NotificationSchedule) -> (out: NotificationCronType)
    ensures
        out == cron_type_of(*schedule),
{
    match schedule.schedule_type {
        ScheduleType::Weekly => NotificationCronType::Weekly {
            weekday: match schedule.weekday {
                Some(d) => d,
                None => 1,
            },
            hour: schedule.hour,
            minute: schedule.minute,
            seconds: schedule.seconds,
        },
        ScheduleType::Monthly => NotificationCronType::Monthly {
            day: match schedule.day {
                Some(d) => d,
                None => 1,
            },
            hour: schedule.hour,
            minute: schedule.minute,
            seconds: schedule.seconds,
        },
    }
}

/// The description of a notification schedule.
pub open spec fn notification_description(kind: NotificationCronType) -> Seq<char> {
    match kind {
        NotificationCronType::Weekly { weekday, hour, minute, seconds } => "Weekly on weekday "@
            + decimal_text(weekday as nat) + " at "@ + two_digit_text(hour as nat) + ":"@
            + two_digit_text(minute as nat),
        NotificationCronType::Monthly { day, hour, minute, seconds } => "Monthly on day "@
            + decimal_text(day as nat) + " at "@ + two_digit_text(hour as nat) + ":"@
            + two_digit_text(minute as nat),
    }
}

/// The cron expression of a notification schedule: second, minute, hour,
/// day of the month, month, day of the week.
pub open spec fn notification_expression(kind: NotificationCronType) -> Seq<char> {
    match kind {
        NotificationCronType::Weekly { weekday, hour, minute, seconds } => decimal_text(
            seconds as nat,
        ) + " "@ + decimal_text(minute as nat) + " "@ + decimal_text(hour as nat) + " * * "@
            + decimal_text(weekday as nat),
        NotificationCronType::Monthly { day, hour, minute, seconds } => decimal_text(
            seconds as nat,
        ) + " "@ + decimal_text(minute as nat) + " "@ + decimal_text(hour as nat) + " "@
            + decimal_text(day as nat) + " * *"@,
    }
}

/// The description and the cron expression of the notification schedule.
pub fn build_notification_cron_expr(schedule: &NotificationSchedule) -> (out: (String, String))
    ensures
        out.0@ == notification_description(cron_type_of(*schedule)),
        out.1@ == notification_expression(cron_type_of(*schedule)),
{
    let kind = build_notification_cron_type(schedule);
    match kind {
        NotificationCronType::Weekly { weekday, hour, minute, seconds } => {
            let mut desc = String::new();
            desc.append("Weekly on weekday ");
            desc.append(decimal_string(weekday as u64).as_str());
            desc.append(" at ");
            desc.append(two_digit_string(hour).as_str());
            desc.append(":");
            desc.append(two_digit_string(minute).as_str());
            assert(desc@ =~= notification_description(kind));
            let mut expr = String::new();
            expr.append(decimal_string(seconds as u64).as_str());
            expr.append(" ");
            expr.append(decimal_string(minute as u64).as_str());
            expr.append(" ");
            expr.append(decimal_string(hour as u64).as_str());
            expr.append(" * * ");
            expr.append(decimal_string(weekday as u64).as_str());
            assert(expr@ =~= notification_expression(kind));
            (desc, expr)
        },
        NotificationCronType::Monthly { day, hour, minute, seconds } => {
            let mut desc = String::new();
            desc.append("Monthly on day ");
            desc.append(decimal_string(day as u64).as_str());
            desc.append(" at ");
            desc.append(two_digit_string(hour).as_str());
            desc.append(":");
            desc.append(two_digit_string(minute).as_str());
            assert(desc@ =~= notification_description(kind));
            let mut expr = String::new();
            expr.append(decimal_string(seconds as u64).as_str());
            expr.append(" ");
            expr.append(decimal_string(minute as u64).as_str());
            expr.append(" ");
            expr.append(decimal_string(hour as u64).as_str());
            expr.append(" ");
            expr.append(decimal_string(day as u64).as_str());
            expr.append(" * *");
            assert(expr@ =~= notification_expression(kind));
            (desc, expr)
        },
    }
}

} // verus!
