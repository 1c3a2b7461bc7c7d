use vstd::prelude::*;

use crate::errors::Error;
use chrono::Datelike;
use chrono::Timelike;

verus! {

/// The lowest epoch (seconds since the Unix reference instant) that maps
/// to a representable calendar instant: 00:00:00 on January 1 of year
/// -262143, the first calendar year chrono represents.
pub const EPOCH_MIN: i64 = -8334601228800;

/// The highest representable epoch: 23:59:59 on December 31 of year
/// 262142, the last calendar year chrono represents.
pub const EPOCH_MAX: i64 = 8210266876799;

/// The calendar decomposition (UTC) that chrono derives from an epoch
/// in `EPOCH_MIN ..= EPOCH_MAX`, as
/// (year, month, day, hour, minute, second).
pub uninterp spec fn calendar_of(epoch: int) -> (int, int, int, int, int, int);

/// A calendar instant in UTC, split into its displayable fields.
#[derive(Clone, Copy, Debug, PartialEq, Eq, Structural)]
pub struct Calendar {
    pub year: i32,
    pub month: u8,
    pub day: u8,
    pub hour: u8,
    pub minute: u8,
    pub second: u8,
}

impl Calendar {
    /// Field ranges of a valid calendar instant.
    pub open spec fn wf(self) -> bool {
        &&& -262143 <= self.year <= 262142
        &&& 1 <= self.month <= 12
        &&& 1 <= self.day <= 31
        &&& self.hour < 24
        &&& self.minute < 60
        &&& self.second < 60
    }

    /// The fields as a tuple of integers, for comparison against
    /// `calendar_of`.
    pub open spec fn as_ints(self) -> (int, int, int, int, int, int) {
        (
            self.year as int,
            self.month as int,
            self.day as int,
            self.hour as int,
            self.minute as int,
            self.second as int,
        )
    }
}

/// Relies on chrono's `DateTime::<Utc>::from_timestamp` (with zero
/// nanoseconds) and the `Datelike` / `Timelike` accessors `year`,
/// `month`, `day`, `hour`, `minute` and `second`: the conversion
/// succeeds exactly for epochs whose calendar year lies in chrono's
/// representable range, and the accessors return the UTC calendar
/// fields in their documented ranges.
#[verifier::external_body]
fn calendar_from_epoch(epoch: i64) -> (r: Option<Calendar>)
    ensures
        r is Some <==> EPOCH_MIN <= epoch <= EPOCH_MAX,
        r matches Some(c) ==> c.wf() && c.as_ints() == calendar_of(epoch as int),
{
    let dt = chrono::DateTime::from_timestamp(epoch, 0)?;
    Some(Calendar {
        year: dt.year(),
        month: dt.month() as u8,
        day: dt.day() as u8,
        hour: dt.hour() as u8,
        minute: dt.minute() as u8,
        second: dt.second() as u8,
    })
}

/// The character for one decimal digit.
pub open spec fn spec_digit(d: int) -> char {
    if d == 0 {
        '0'
    } else if d == 1 {
        '1'
    } else if d == 2 {
        '2'
    } else if d == 3 {
        '3'
    } else if d == 4 {
        '4'
    } else if d == 5 {
        '5'
    } else if d == 6 {
        '6'
    } else if d == 7 {
        '7'
    } else if d == 8 {
        '8'
    } else {
        '9'
    }
}

/// The decimal digits of a non-negative number, most significant first.
pub open spec fn spec_digits(n: int) -> Seq<char>
    decreases n,
{
    if n <= 9 {
        seq![spec_digit(n)]
    } else {
        spec_digits(n / 10).push(spec_digit(n % 10))
    }
}

/// A number below 100, zero-padded to two digits.
pub open spec fn spec_two(n: int) -> Seq<char> {
    seq![spec_digit(n / 10), spec_digit(n % 10)]
}

/// A calendar year: a sign for negative years, and the magnitude
/// zero-padded to at least four digits.
pub open spec fn spec_year(y: int) -> Seq<char> {
    let mag = if y < 0 { -y } else { y };
    let pad = if mag < 10 {
        seq!['0', '0', '0']
    } else if mag < 100 {
        seq!['0', '0']
    } else if mag < 1000 {
        seq!['0']
    } else {
        Seq::<char>::empty()
    };
    let digits = pad + spec_digits(mag);
    if y < 0 {
        seq!['-'] + digits
    } else {
        digits
    }
}

/// The fixed-width display form `MM/DD/YYYY HH:MM:SS` of a calendar
/// instant, in UTC.
pub open spec fn display_spec(c: Calendar) -> Seq<char> {
    spec_two(c.month as int) + seq!['/'] + spec_two(c.day as int) + seq!['/'] + spec_year(
        c.year as int,
    ) + seq![' '] + spec_two(c.hour as int) + seq![':'] + spec_two(c.minute as int) + seq![':']
        + spec_two(c.second as int)
}

/// The one-character string for a decimal digit.
fn digit_str(d: u8) -> (r: &'static str)
    requires
        d < 10,
    ensures
        r@ == seq![spec_digit(d as int)],
{
    proof {
        reveal_strlit("0");
        reveal_strlit("1");
        reveal_strlit("2");
        reveal_strlit("3");
        reveal_strlit("4");
        reveal_strlit("5");
        reveal_strlit("6");
        reveal_strlit("7");
        reveal_strlit("8");
        reveal_strlit("9");
    }
    let r: &'static str = match d {
        0 => "0",
        1 => "1",
        2 => "2",
        3 => "3",
        4 => "4",
        5 => "5",
        6 => "6",
        7 => "7",
        8 => "8",
        _ => "9",
    };
    proof {
        assert(r@ =~= seq![spec_digit(d as int)]);
    }
    r
}

/// Appends a number below 100 as two zero-padded digits.
fn push_two(s: &mut String, n: u8)
    requires
        n < 100,
    ensures
        final(s)@ == old(s)@ + spec_two(n as int),
{
    s.append(digit_str(n / 10));
    s.append(digit_str(n % 10));
    proof {
        assert(s@ =~= old(s)@ + spec_two(n as int));
    }
}

/// Appends the decimal digits of a number, most significant first.
fn push_digits(s: &mut String, n: u32)
    ensures
        final(s)@ == old(s)@ + spec_digits(n as int),
    decreases n,
{
    if n > 9 {
        push_digits(s, n / 10);
    }
    s.append(digit_str((n % 10) as u8));
    proof {
        assert(s@ =~= old(s)@ + spec_digits(n as int));
    }
}

/// A commit timestamp: the raw epoch together with the calendar instant
/// derived from it at load time.
#[derive(Clone, Copy, Debug, PartialEq, Eq, Structural)]
pub struct Timestamp {
    pub epoch: i64,
    pub cal: Calendar,
}

impl Timestamp {
    /// A valid timestamp: the calendar fields are exactly the
    /// decomposition of the epoch.
    pub open spec fn wf(self) -> bool {
        &&& EPOCH_MIN <= self.epoch <= EPOCH_MAX
        &&& self.cal.wf()
        &&& self.cal.as_ints() == calendar_of(self.epoch as int)
    }

    /// Decodes a native commit time. Fails with `InvalidEpoch` exactly
    /// when the epoch cannot be mapped to a representable calendar
    /// instant. The reported UTC offset is not applied: the calendar
    /// value renders the epoch as UTC.
    #[allow(unused_variables)]
    pub fn from_native(epoch: i64, offset_minutes: i32) -> (r: Result<Timestamp, Error>)
        ensures
            r is Ok <==> EPOCH_MIN <= epoch <= EPOCH_MAX,
            r matches Ok(t) ==> t.epoch == epoch && t.wf(),
            r matches Err(e) ==> e == Error::InvalidEpoch,
    {
        match calendar_from_epoch(epoch) {
            Option::Some(cal) => Ok(Timestamp { epoch, cal }),
            Option::None => Err(Error::InvalidEpoch),
        }
    }

    /// The raw epoch, in signed seconds.
    pub fn epoch(&self) -> (r: i64)
        ensures
            r == self.epoch,
    {
        self.epoch
    }

    /// Renders the calendar instant as the fixed-width
    /// `MM/DD/YYYY HH:MM:SS` string, in UTC.
    pub fn display_string(&self) -> (r: String)
        requires
            self.cal.wf(),
        ensures
            r@ == display_spec(self.cal),
    {
        proof {
            reveal_strlit("/");
            reveal_strlit(" ");
            reveal_strlit(":");
            reveal_strlit("-");
        }
        let mut s = String::new();
        push_two(&mut s, self.cal.month);
        s.append("/");
        push_two(&mut s, self.cal.day);
        s.append("/");
        let y: i32 = self.cal.year;
        if y < 0 {
            s.append("-");
        }
        let mag: u32 = if y < 0 {
            (-(y as i64)) as u32
        } else {
            y as u32
        };
        if mag < 10 {
            s.append("0");
            s.append("0");
            s.append("0");
        } else if mag < 100 {
            s.append("0");
            s.append("0");
        } else if mag < 1000 {
            s.append("0");
        }
        proof {
            reveal_strlit("0");
        }
        push_digits(&mut s, mag);
        s.append(" ");
        push_two(&mut s, self.cal.hour);
        s.append(":");
        push_two(&mut s, self.cal.minute);
        s.append(":");
        push_two(&mut s, self.cal.second);
        proof {
            assert(s@ =~= display_spec(self.cal));
        }
        s
    }
}

} // verus!
