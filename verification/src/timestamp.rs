//! Timestamps: an instant in UTC written as `YYYY-MM-DDTHH:MM:SS.mmmZ`.

use crate::calendar::{
    civil_from_days, date_of_day, lemma_date_exists, lemma_dates_in_order,
    lemma_year_has_four_digits, CivilDate,
};
use crate::text::{
    is_digit, lemma_lex_concat, lemma_lex_field, lemma_lex_irreflexive, lemma_lex_total,
    lemma_zero_padded_order, lex_lt, pow10, push_zero_padded, zero_padded,
};
use std::time::Duration;
use std::time::SystemTime;
use vstd::prelude::*;
use vstd::string::*;

verus! {

/// A date as `YYYY-MM-DD`.
pub open spec fn date_text(d: CivilDate) -> Seq<char> {
    zero_padded(d.year as nat, 4) + seq!['-'] + zero_padded(d.month as nat, 2) + seq!['-']
        + zero_padded(d.day as nat, 2)
}

/// A time of day as `HH:MM:SS.mmm`, from the second of the day and the
/// milliseconds of that second.
pub open spec fn time_text(second_of_day: nat, millis: nat) -> Seq<char> {
    zero_padded(second_of_day / 3600, 2) + seq![':'] + zero_padded((second_of_day % 3600) / 60, 2)
        + seq![':'] + zero_padded(second_of_day % 60, 2) + seq!['.'] + zero_padded(millis, 3)
}

/// The instant `secs` seconds and `millis` milliseconds after
/// 1970-01-01T00:00:00Z, written in UTC.
pub open spec fn iso_text(secs: nat, millis: nat) -> Seq<char> {
    date_text(date_of_day((secs / 86400) as int)) + seq!['T'] + time_text(secs % 86400, millis)
        + seq!['Z']
}

/// A text that writes some instant with millisecond precision.
pub open spec fn is_timestamp(s: Seq<char>) -> bool {
    exists|secs: nat, millis: nat| millis < 1000 && s == #[trigger] iso_text(secs, millis)
}

/// The first second of the year 10000: from there on the year takes more
/// than four digits.
pub open spec fn end_of_four_digit_years() -> nat {
    253402300800
}

/// The fixed form `YYYY-MM-DDTHH:MM:SS.mmmZ`: 24 characters, digits but for
/// the marks between the fields and the `Z` at the end.
pub open spec fn has_timestamp_shape(s: Seq<char>) -> bool {
    &&& s.len() == 24
    &&& s[4] == '-'
    &&& s[7] == '-'
    &&& s[10] == 'T'
    &&& s[13] == ':'
    &&& s[16] == ':'
    &&& s[19] == '.'
    &&& s[23] == 'Z'
    &&& forall|i: int|
        0 <= i < 23 && i != 4 && i != 7 && i != 10 && i != 13 && i != 16 && i != 19 ==> is_digit(
            #[trigger] s[i],
        )
}

/// Writes the instant `secs` seconds and `millis` milliseconds after the epoch.
pub fn format_iso(secs: u64, millis: u32) -> (stamp: String)
    ensures
        stamp@ == iso_text(secs as nat, millis as nat),
{
    let date = civil_from_days(secs / 86400);
    let second_of_day: u64 = secs % 86400;
    proof {
        reveal_strlit("-");
        reveal_strlit("T");
        reveal_strlit(":");
        reveal_strlit(".");
        reveal_strlit("Z");
    }
    let mut out = String::new();
    push_zero_padded(&mut out, date.year, 4);
    out.append("-");
    push_zero_padded(&mut out, date.month, 2);
    out.append("-");
    push_zero_padded(&mut out, date.day, 2);
    assert(out@ =~= date_text(date@));
    out.append("T");
    let ghost date_part = out@;
    push_zero_padded(&mut out, second_of_day / 3600, 2);
    out.append(":");
    push_zero_padded(&mut out, (second_of_day % 3600) / 60, 2);
    out.append(":");
    push_zero_padded(&mut out, second_of_day % 60, 2);
    out.append(".");
    push_zero_padded(&mut out, millis as u64, 3);
    assert(out@ =~= date_part + time_text(second_of_day as nat, millis as nat));
    out.append("Z");
    assert(out@ =~= iso_text(secs as nat, millis as nat));
    out
}

/// `std::time::SystemTime`, a reading of the system clock.
#[verifier::external_type_specification]
#[verifier::external_body]
pub struct ExSystemTime(SystemTime);

/// `SystemTime::now` reads the system clock; nothing is known of the reading.
pub assume_specification[ SystemTime::now ]() -> SystemTime;

/// `SystemTime::duration_since` from `UNIX_EPOCH`: the time that has passed
/// since 1970-01-01T00:00:00Z, and nothing where the clock reads an earlier time.
#[verifier::external_body]
fn since_epoch(reading: &SystemTime) -> Option<Duration> {
    reading.duration_since(std::time::UNIX_EPOCH).ok()
}

/// `Duration::as_secs`: the whole seconds of a duration.
pub assume_specification[ Duration::as_secs ](d: &Duration) -> u64;

/// `Duration::subsec_millis`: the part of a duration below one second, in
/// whole milliseconds, which is less than a thousand.
pub assume_specification[ Duration::subsec_millis ](d: &Duration) -> (millis: u32)
    ensures
        millis < 1000,
;

/// The current instant in UTC, as the system clock gives it. A clock that
/// reads a time before 1970 counts as 1970-01-01T00:00:00.000Z.
pub fn get_now_iso() -> (stamp: String)
    ensures
        is_timestamp(stamp@),
{
    let reading = SystemTime::now();
    match since_epoch(&reading) {
        Some(elapsed) => format_iso(elapsed.as_secs(), elapsed.subsec_millis()),
        None => format_iso(0, 0),
    }
}

/// The numbers that a timestamp writes.
ghost struct Fields {
    year: nat,
    month: nat,
    day: nat,
    hour: nat,
    minute: nat,
    second: nat,
    millis: nat,
}

impl Fields {
    spec fn of(secs: nat, millis: nat) -> Fields {
        let date = date_of_day((secs / 86400) as int);
        let second_of_day = secs % 86400;
        Fields {
            year: date.year as nat,
            month: date.month as nat,
            day: date.day as nat,
            hour: second_of_day / 3600,
            minute: (second_of_day % 3600) / 60,
            second: second_of_day % 60,
            millis,
        }
    }

    spec fn fit(self) -> bool {
        &&& self.year < 10000
        &&& self.month < 100
        &&& self.day < 100
        &&& self.hour < 100
        &&& self.minute < 100
        &&& self.second < 100
        &&& self.millis < 1000
    }

    spec fn precedes(self, other: Fields) -> bool {
        ||| self.year < other.year
        ||| self.year == other.year && self.month < other.month
        ||| self.year == other.year && self.month == other.month && self.day < other.day
        ||| self.year == other.year && self.month == other.month && self.day == other.day
            && self.hour < other.hour
        ||| self.year == other.year && self.month == other.month && self.day == other.day
            && self.hour == other.hour && self.minute < other.minute
        ||| self.year == other.year && self.month == other.month && self.day == other.day
            && self.hour == other.hour && self.minute == other.minute && self.second
            < other.second
        ||| self.year == other.year && self.month == other.month && self.day == other.day
            && self.hour == other.hour && self.minute == other.minute && self.second
            == other.second && self.millis < other.millis
    }

    /// The text from the milliseconds on; the functions below each put one
    /// more field and its mark in front.
    spec fn from_millis(self) -> Seq<char> {
        zero_padded(self.millis, 3) + seq!['Z']
    }

    spec fn from_second(self) -> Seq<char> {
        zero_padded(self.second, 2) + (seq!['.'] + self.from_millis())
    }

    spec fn from_minute(self) -> Seq<char> {
        zero_padded(self.minute, 2) + (seq![':'] + self.from_second())
    }

    spec fn from_hour(self) -> Seq<char> {
        zero_padded(self.hour, 2) + (seq![':'] + self.from_minute())
    }

    spec fn from_day(self) -> Seq<char> {
        zero_padded(self.day, 2) + (seq!['T'] + self.from_hour())
    }

    spec fn from_month(self) -> Seq<char> {
        zero_padded(self.month, 2) + (seq!['-'] + self.from_day())
    }

    spec fn text(self) -> Seq<char> {
        zero_padded(self.year, 4) + (seq!['-'] + self.from_month())
    }
}

/// A timestamp is the text of its fields.
proof fn lemma_iso_text_by_fields(secs: nat, millis: nat)
    ensures
        iso_text(secs, millis) == Fields::of(secs, millis).text(),
{
    let f = Fields::of(secs, millis);
    let year = zero_padded(f.year, 4);
    let month = zero_padded(f.month, 2);
    let day = zero_padded(f.day, 2);
    let hour = zero_padded(f.hour, 2);
    let minute = zero_padded(f.minute, 2);
    let second = zero_padded(f.second, 2);
    let ms = zero_padded(f.millis, 3);
    let dash = seq!['-'];
    let colon = seq![':'];
    let date = date_text(date_of_day((secs / 86400) as int));
    let time = time_text(secs % 86400, millis);
    lemma_date_exists(secs / 86400);
    assert(date == year + dash + month + dash + day);
    assert(time == hour + colon + minute + colon + second + seq!['.'] + ms);
    lemma_concat_assoc(hour + colon + minute + colon + second + seq!['.'], ms, seq!['Z']);
    lemma_concat_assoc(hour + colon + minute + colon + second, seq!['.'], f.from_millis());
    lemma_concat_assoc(hour + colon + minute + colon, second, seq!['.'] + f.from_millis());
    lemma_concat_assoc(hour + colon + minute, colon, f.from_second());
    lemma_concat_assoc(hour + colon, minute, colon + f.from_second());
    lemma_concat_assoc(hour, colon, f.from_minute());
    assert(time + seq!['Z'] == f.from_hour());
    lemma_concat_assoc(date + seq!['T'], time, seq!['Z']);
    lemma_concat_assoc(date, seq!['T'], f.from_hour());
    lemma_concat_assoc(year + dash + month + dash, day, seq!['T'] + f.from_hour());
    lemma_concat_assoc(year + dash + month, dash, f.from_day());
    lemma_concat_assoc(year + dash, month, dash + f.from_day());
    lemma_concat_assoc(year, dash, f.from_month());
}

proof fn lemma_concat_assoc(a: Seq<char>, b: Seq<char>, c: Seq<char>)
    ensures
        (a + b) + c == a + (b + c),
{
    assert((a + b) + c =~= a + (b + c));
}

proof fn lemma_pow10_values()
    ensures
        pow10(2) == 100,
        pow10(3) == 1000,
        pow10(4) == 10000,
{
    reveal_with_fuel(pow10, 5);
}

/// Fields that fit their widths give a text of the fixed form.
proof fn lemma_fields_shape(f: Fields)
    requires
        f.fit(),
    ensures
        has_timestamp_shape(f.text()),
{
    lemma_pow10_values();
    lemma_zero_padded_order(f.year, f.year, 4);
    lemma_zero_padded_order(f.month, f.month, 2);
    lemma_zero_padded_order(f.day, f.day, 2);
    lemma_zero_padded_order(f.hour, f.hour, 2);
    lemma_zero_padded_order(f.minute, f.minute, 2);
    lemma_zero_padded_order(f.second, f.second, 2);
    lemma_zero_padded_order(f.millis, f.millis, 3);
    let s = f.text();
    assert(s.len() == 24);
    assert forall|i: int|
        0 <= i < 23 && i != 4 && i != 7 && i != 10 && i != 13 && i != 16 && i != 19 implies is_digit(
        #[trigger] s[i],
    ) by {
        if i < 4 {
            assert(s[i] == zero_padded(f.year, 4)[i]);
        } else if i < 7 {
            assert(s[i] == zero_padded(f.month, 2)[i - 5]);
        } else if i < 10 {
            assert(s[i] == zero_padded(f.day, 2)[i - 8]);
        } else if i < 13 {
            assert(s[i] == zero_padded(f.hour, 2)[i - 11]);
        } else if i < 16 {
            assert(s[i] == zero_padded(f.minute, 2)[i - 14]);
        } else if i < 19 {
            assert(s[i] == zero_padded(f.second, 2)[i - 17]);
        } else {
            assert(s[i] == zero_padded(f.millis, 3)[i - 20]);
        }
    }
}

/// Texts of fields that fit their widths are ordered as the fields are.
proof fn lemma_fields_in_order(a: Fields, b: Fields)
    requires
        a.fit(),
        b.fit(),
    ensures
        lex_lt(a.text(), b.text()) <==> a.precedes(b),
{
    lemma_pow10_values();
    lemma_zero_padded_order(a.year, b.year, 4);
    lemma_zero_padded_order(a.month, b.month, 2);
    lemma_zero_padded_order(a.day, b.day, 2);
    lemma_zero_padded_order(a.hour, b.hour, 2);
    lemma_zero_padded_order(a.minute, b.minute, 2);
    lemma_zero_padded_order(a.second, b.second, 2);
    lemma_zero_padded_order(a.millis, b.millis, 3);
    lemma_zero_padded_order(b.year, a.year, 4);
    lemma_zero_padded_order(b.month, a.month, 2);
    lemma_zero_padded_order(b.day, a.day, 2);
    lemma_zero_padded_order(b.hour, a.hour, 2);
    lemma_zero_padded_order(b.minute, a.minute, 2);
    lemma_zero_padded_order(b.second, a.second, 2);
    lemma_zero_padded_order(b.millis, a.millis, 3);
    lemma_lex_concat(zero_padded(a.millis, 3), seq!['Z'], zero_padded(b.millis, 3), seq!['Z']);
    lemma_lex_irreflexive(seq!['Z']);
    lemma_lex_field(
        zero_padded(a.second, 2),
        a.from_millis(),
        zero_padded(b.second, 2),
        b.from_millis(),
        seq!['.'],
    );
    lemma_lex_field(
        zero_padded(a.minute, 2),
        a.from_second(),
        zero_padded(b.minute, 2),
        b.from_second(),
        seq![':'],
    );
    lemma_lex_field(
        zero_padded(a.hour, 2),
        a.from_minute(),
        zero_padded(b.hour, 2),
        b.from_minute(),
        seq![':'],
    );
    lemma_lex_field(
        zero_padded(a.day, 2),
        a.from_hour(),
        zero_padded(b.day, 2),
        b.from_hour(),
        seq!['T'],
    );
    lemma_lex_field(
        zero_padded(a.month, 2),
        a.from_day(),
        zero_padded(b.month, 2),
        b.from_day(),
        seq!['-'],
    );
    lemma_lex_field(
        zero_padded(a.year, 4),
        a.from_month(),
        zero_padded(b.year, 4),
        b.from_month(),
        seq!['-'],
    );
}

/// The fields of an instant before the year 10000 fit their widths.
proof fn lemma_fields_fit(secs: nat, millis: nat)
    requires
        secs < end_of_four_digit_years(),
        millis < 1000,
    ensures
        Fields::of(secs, millis).fit(),
{
    lemma_year_has_four_digits(secs / 86400);
    lemma_date_exists(secs / 86400);
}

/// The fields of two instants are ordered as the instants are.
proof fn lemma_fields_follow_time(secs1: nat, millis1: nat, secs2: nat, millis2: nat)
    ensures
        Fields::of(secs1, millis1).precedes(Fields::of(secs2, millis2)) <==> (secs1 < secs2 || (
        secs1 == secs2 && millis1 < millis2)),
{
    let a = Fields::of(secs1, millis1);
    let b = Fields::of(secs2, millis2);
    let d1 = secs1 / 86400;
    let d2 = secs2 / 86400;
    let t1 = secs1 % 86400;
    let t2 = secs2 % 86400;
    lemma_dates_in_order(d1, d2);
    lemma_date_exists(d1);
    lemma_date_exists(d2);
    let date1 = date_of_day(d1 as int);
    let date2 = date_of_day(d2 as int);
    assert(date1.precedes(date2) <==> (a.year < b.year || (a.year == b.year && a.month < b.month)
        || (a.year == b.year && a.month == b.month && a.day < b.day)));
    assert(date1 == date2 <==> (a.year == b.year && a.month == b.month && a.day == b.day));
    assert(t1 == a.hour * 3600 + a.minute * 60 + a.second);
    assert(t2 == b.hour * 3600 + b.minute * 60 + b.second);
    assert(a.minute < 60 && a.second < 60 && b.minute < 60 && b.second < 60);
    assert(secs1 == d1 * 86400 + t1);
    assert(secs2 == d2 * 86400 + t2);
}

/// A timestamp of an instant before the year 10000 has the fixed form.
pub proof fn lemma_timestamp_shape(secs: nat, millis: nat)
    requires
        secs < end_of_four_digit_years(),
        millis < 1000,
    ensures
        has_timestamp_shape(iso_text(secs, millis)),
{
    lemma_iso_text_by_fields(secs, millis);
    lemma_fields_fit(secs, millis);
    lemma_fields_shape(Fields::of(secs, millis));
}

/// Before the year 10000, timestamps are ordered as strings just as their
/// instants are ordered in time, and two instants never share a timestamp.
pub proof fn lemma_timestamps_in_order(secs1: nat, millis1: nat, secs2: nat, millis2: nat)
    requires
        secs1 < end_of_four_digit_years(),
        secs2 < end_of_four_digit_years(),
        millis1 < 1000,
        millis2 < 1000,
    ensures
        lex_lt(iso_text(secs1, millis1), iso_text(secs2, millis2)) <==> (secs1 < secs2 || (secs1
            == secs2 && millis1 < millis2)),
        iso_text(secs1, millis1) == iso_text(secs2, millis2) <==> (secs1 == secs2 && millis1
            == millis2),
{
    lemma_iso_text_by_fields(secs1, millis1);
    lemma_iso_text_by_fields(secs2, millis2);
    lemma_fields_fit(secs1, millis1);
    lemma_fields_fit(secs2, millis2);
    lemma_fields_in_order(Fields::of(secs1, millis1), Fields::of(secs2, millis2));
    lemma_fields_in_order(Fields::of(secs2, millis2), Fields::of(secs1, millis1));
    lemma_fields_follow_time(secs1, millis1, secs2, millis2);
    lemma_fields_follow_time(secs2, millis2, secs1, millis1);
    lemma_lex_irreflexive(iso_text(secs1, millis1));
    if iso_text(secs1, millis1) != iso_text(secs2, millis2) {
        lemma_lex_total(iso_text(secs1, millis1), iso_text(secs2, millis2));
    }
}

} // verus!
