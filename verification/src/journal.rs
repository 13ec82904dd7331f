//! The lines that tell what the crawler is doing, each with the local time
//! of day in front.

use crate::text::{decimal, push_decimal};
use chrono::{Local, NaiveTime, Timelike};
use vstd::prelude::*;

verus! {

/// A time of day as `chrono` holds it. Nothing inside it is looked at here.
#[verifier::external_type_specification]
#[verifier::external_body]
pub struct ExNaiveTime(NaiveTime);

/// `chrono::Local::now`, then `DateTime::time`: the time of day on the local
/// clock. Nothing is claimed of it. The clock is taken to stand after the
/// start of 1970, where `chrono` can read it.
#[verifier::external_body]
fn local_time() -> NaiveTime {
    Local::now().time()
}

/// `Timelike::hour` of a `NaiveTime` is a number from 0 to 23.
#[verifier::external_body]
fn hour_of(time: &NaiveTime) -> (hour: u32)
    ensures
        hour <= 23,
{
    time.hour()
}

/// `Timelike::minute` of a `NaiveTime` is a number from 0 to 59.
#[verifier::external_body]
fn minute_of(time: &NaiveTime) -> (minute: u32)
    ensures
        minute <= 59,
{
    time.minute()
}

/// `Timelike::second` of a `NaiveTime` is a number from 0 to 59, also
/// during a leap second.
#[verifier::external_body]
fn second_of(time: &NaiveTime) -> (second: u32)
    ensures
        second <= 59,
{
    time.second()
}

/// A number written with at least two digits.
pub open spec fn two_digits(n: nat) -> Seq<char> {
    if n < 10 {
        seq!['0'] + decimal(n)
    } else {
        decimal(n)
    }
}

/// The time of day as it stands in front of a line: `[HHhMMmSSs]:`.
pub open spec fn time_stamp(hour: nat, minute: nat, second: nat) -> Seq<char> {
    seq!['['] + two_digits(hour) + seq!['h'] + two_digits(minute) + seq!['m'] + two_digits(second)
        + "s]:"@
}

/// A line with its time in front.
pub open spec fn stamped_line(hour: nat, minute: nat, second: nat, message: Seq<char>) -> Seq<
    char,
> {
    time_stamp(hour, minute, second) + seq![' '] + message
}

/// What is said when a selector is requested from a server.
pub open spec fn requesting_message(selector: Seq<char>, server_details: Seq<char>) -> Seq<char> {
    "REQUESTING "@ + selector + " FROM "@ + server_details
}

/// What is said when a connection to a server is attempted.
pub open spec fn connecting_message(server_details: Seq<char>) -> Seq<char> {
    "CONNECTING TO "@ + server_details
}

/// What is said when an external server has been tried.
pub open spec fn external_message(server_name: Seq<char>, server_port: u16, connected: bool) -> Seq<
    char,
> {
    (if connected {
        "CONNECTED TO EXTERNAL "@
    } else {
        "FAILED TO CONNECT TO EXTERNAL "@
    }) + server_name + " ON "@ + decimal(server_port as nat)
}

/// Appends `n` with at least two digits.
fn push_two_digits(s: &mut String, n: u32)
    ensures
        final(s)@ == old(s)@ + two_digits(n as nat),
{
    if n < 10 {
        s.push('0');
    }
    push_decimal(s, n as u64);
    assert(s@ =~= old(s)@ + two_digits(n as nat));
}

/// Puts the given time of day in front of `message`.
pub fn stamp(hour: u32, minute: u32, second: u32, message: &str) -> (line: String)
    ensures
        line@ == stamped_line(hour as nat, minute as nat, second as nat, message@),
{
    let mut line = String::new();
    line.push('[');
    push_two_digits(&mut line, hour);
    line.push('h');
    push_two_digits(&mut line, minute);
    line.push('m');
    push_two_digits(&mut line, second);
    line.append("s]:");
    line.push(' ');
    line.append(message);
    assert(line@ =~= stamped_line(hour as nat, minute as nat, second as nat, message@));
    line
}

/// Puts the time of day that the local clock shows in front of `message`.
pub fn stamp_now(message: &str) -> (line: String)
    ensures
        exists|hour: nat, minute: nat, second: nat|
            hour <= 23 && minute <= 59 && second <= 59 && line@ == #[trigger] stamped_line(
                hour,
                minute,
                second,
                message@,
            ),
{
    let time = local_time();
    let hour = hour_of(&time);
    let minute = minute_of(&time);
    let second = second_of(&time);
    let line = stamp(hour, minute, second, message);
    assert(line@ == stamped_line(hour as nat, minute as nat, second as nat, message@));
    line
}

/// Says that `selector` is requested from `server_details`.
pub fn requesting(selector: &str, server_details: &str) -> (message: String)
    ensures
        message@ == requesting_message(selector@, server_details@),
{
    let mut message = "REQUESTING ".to_owned();
    message.append(selector);
    message.append(" FROM ");
    message.append(server_details);
    message
}

/// Says that a connection to `server_details` is attempted.
pub fn connecting(server_details: &str) -> (message: String)
    ensures
        message@ == connecting_message(server_details@),
{
    let mut message = "CONNECTING TO ".to_owned();
    message.append(server_details);
    message
}

/// Says what came of trying an external server.
pub fn external(server_name: &str, server_port: u16, connected: bool) -> (message: String)
    ensures
        message@ == external_message(server_name@, server_port, connected),
{
    let mut message = if connected {
        "CONNECTED TO EXTERNAL ".to_owned()
    } else {
        "FAILED TO CONNECT TO EXTERNAL ".to_owned()
    };
    message.append(server_name);
    message.append(" ON ");
    push_decimal(&mut message, server_port as u64);
    message
}

} // verus!
