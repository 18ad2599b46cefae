//! Modification and access timestamps: two stamps of six 16-bit fields
//! each, exactly as BGNLIB and BGNSTR carry them.

use vstd::prelude::*;
use chrono::{Datelike, Timelike};
use crate::gds_error::{GDSIIError, GdsErrorKind};
use crate::gds_writer::{push_i16_be, spec_i16_bytes};

verus! {

/// A pair of timestamps: last modification, then last access, each as
/// year, month, day, hour, minute, second.
#[derive(Clone, Copy, Debug, PartialEq, Eq, Structural)]
pub struct Date {
    pub mod_year: i16,
    pub mod_month: i16,
    pub mod_day: i16,
    pub mod_hour: i16,
    pub mod_minute: i16,
    pub mod_second: i16,
    pub acc_year: i16,
    pub acc_month: i16,
    pub acc_day: i16,
    pub acc_hour: i16,
    pub acc_minute: i16,
    pub acc_second: i16,
}

/// The twelve 16-bit fields of a date tuple in wire order.
pub open spec fn spec_date_fields(d: Date) -> Seq<i16> {
    seq![
        d.mod_year,
        d.mod_month,
        d.mod_day,
        d.mod_hour,
        d.mod_minute,
        d.mod_second,
        d.acc_year,
        d.acc_month,
        d.acc_day,
        d.acc_hour,
        d.acc_minute,
        d.acc_second,
    ]
}

/// The 24 payload bytes of a date tuple: twelve big-endian 16-bit values.
pub open spec fn spec_date_bytes(d: Date) -> Seq<u8> {
    spec_i16_bytes(d.mod_year as int) + spec_i16_bytes(d.mod_month as int) + spec_i16_bytes(
        d.mod_day as int,
    ) + spec_i16_bytes(d.mod_hour as int) + spec_i16_bytes(d.mod_minute as int) + spec_i16_bytes(
        d.mod_second as int,
    ) + spec_i16_bytes(d.acc_year as int) + spec_i16_bytes(d.acc_month as int) + spec_i16_bytes(
        d.acc_day as int,
    ) + spec_i16_bytes(d.acc_hour as int) + spec_i16_bytes(d.acc_minute as int) + spec_i16_bytes(
        d.acc_second as int,
    )
}

/// Relies on chrono's `Utc::now`, read through the `Datelike` and
/// `Timelike` accessors, for the current UTC date and time.  Only the
/// ranges chrono documents for month, day, hour, minute and second are
/// assumed; nothing is assumed of the year.  `Utc::now` itself panics
/// on a machine whose clock is set before the Unix epoch; that is a
/// machine limit of the clock, not an input this function can exclude.
#[verifier::external_body]
fn utc_now_parts() -> (r: (i16, i16, i16, i16, i16, i16))
    ensures
        1 <= r.1 <= 12,
        1 <= r.2 <= 31,
        0 <= r.3 <= 23,
        0 <= r.4 <= 59,
        0 <= r.5 <= 59,
{
    let now = chrono::Utc::now();
    (
        now.year() as i16,
        now.month() as i16,
        now.day() as i16,
        now.hour() as i16,
        now.minute() as i16,
        now.second() as i16,
    )
}

impl Date {
    /// The all-zero date tuple.
    pub fn new() -> (r: Date)
        ensures
            r == (Date {
                mod_year: 0i16,
                mod_month: 0i16,
                mod_day: 0i16,
                mod_hour: 0i16,
                mod_minute: 0i16,
                mod_second: 0i16,
                acc_year: 0i16,
                acc_month: 0i16,
                acc_day: 0i16,
                acc_hour: 0i16,
                acc_minute: 0i16,
                acc_second: 0i16,
            }),
    {
        Date {
            mod_year: 0,
            mod_month: 0,
            mod_day: 0,
            mod_hour: 0,
            mod_minute: 0,
            mod_second: 0,
            acc_year: 0,
            acc_month: 0,
            acc_day: 0,
            acc_hour: 0,
            acc_minute: 0,
            acc_second: 0,
        }
    }

    /// Both stamps set to the current UTC date and time.
    pub fn now() -> (r: Date)
        ensures
            r.mod_year == r.acc_year && r.mod_month == r.acc_month && r.mod_day == r.acc_day
                && r.mod_hour == r.acc_hour && r.mod_minute == r.acc_minute && r.mod_second
                == r.acc_second,
            1 <= r.mod_month <= 12 && 1 <= r.mod_day <= 31 && 0 <= r.mod_hour <= 23 && 0
                <= r.mod_minute <= 59 && 0 <= r.mod_second <= 59,
    {
        let (year, month, day, hour, minute, second) = utc_now_parts();
        Date {
            mod_year: year,
            mod_month: month,
            mod_day: day,
            mod_hour: hour,
            mod_minute: minute,
            mod_second: second,
            acc_year: year,
            acc_month: month,
            acc_day: day,
            acc_hour: hour,
            acc_minute: minute,
            acc_second: second,
        }
    }

    /// A date tuple from the twelve 16-bit values of a BGNLIB or BGNSTR
    /// payload.  Fails exactly when fewer than twelve values are given.
    pub fn from_i16_array(date: &[i16]) -> (r: Result<Date, GDSIIError>)
        ensures
            r is Ok <==> date@.len() >= 12,
            r is Ok ==> spec_date_fields(r->Ok_0) =~= date@.subrange(0, 12),
            r is Err ==> r->Err_0.kind == GdsErrorKind::MalformedRecord,
    {
        if date.len() < 12 {
            return Err(GDSIIError::new("Can't create gds Date for data length less than 12"));
        }
        Ok(
            Date {
                mod_year: date[0],
                mod_month: date[1],
                mod_day: date[2],
                mod_hour: date[3],
                mod_minute: date[4],
                mod_second: date[5],
                acc_year: date[6],
                acc_month: date[7],
                acc_day: date[8],
                acc_hour: date[9],
                acc_minute: date[10],
                acc_second: date[11],
            },
        )
    }

    /// The 24 payload bytes of the date tuple.
    pub fn to_gds(&self) -> (r: Vec<u8>)
        ensures
            r@ == spec_date_bytes(*self),
    {
        let mut data: Vec<u8> = Vec::new();
        push_i16_be(&mut data, self.mod_year);
        push_i16_be(&mut data, self.mod_month);
        push_i16_be(&mut data, self.mod_day);
        push_i16_be(&mut data, self.mod_hour);
        push_i16_be(&mut data, self.mod_minute);
        push_i16_be(&mut data, self.mod_second);
        push_i16_be(&mut data, self.acc_year);
        push_i16_be(&mut data, self.acc_month);
        push_i16_be(&mut data, self.acc_day);
        push_i16_be(&mut data, self.acc_hour);
        push_i16_be(&mut data, self.acc_minute);
        push_i16_be(&mut data, self.acc_second);
        assert(data@ =~= spec_date_bytes(*self));
        data
    }
}

} // verus!
