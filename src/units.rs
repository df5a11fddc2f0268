//! Percentages and byte quantities rendered for transfer progress.
use crate::text::{decimal, digit_char, push_char, push_decimal, push_two_digits};
use vstd::prelude::*;

verus! {

/// Why a progress quantity could not be rendered.
#[derive(Debug, PartialEq, Eq, Structural)]
pub enum Error {
    /// A percentage of a zero total was asked for.
    DivideByZero,
    /// A unit index beyond exbibytes was asked for.
    UnsupportedUnits,
    /// A rate over no elapsed time was asked for.
    NoTimeElapsed,
    /// The elapsed time does not fit in 32 bits of whole seconds.
    ElapsedTooLong,
}

/// The whole percent that `num` is of `den`, rounded down.
pub open spec fn percent(num: nat, den: nat) -> nat
    recommends
        den > 0,
{
    (100 * num / den) as nat
}

/// The rendering of a percentage: its digits followed by `%`.
pub open spec fn percent_text(num: nat, den: nat) -> Seq<char> {
    decimal(percent(num, den)).push('%')
}

/// Generates a percent string from a numerator and a denominator.
pub fn to_percent(num_pre: usize, dem_pre: usize) -> (r: Result<String, Error>)
    ensures
        dem_pre == 0 <==> r is Err,
        r is Err ==> r == Err::<String, Error>(Error::DivideByZero),
        r is Ok ==> r->Ok_0@ == percent_text(num_pre as nat, dem_pre as nat),
{
    if dem_pre > 0 {
        let p: u128 = (100 * num_pre as u128) / dem_pre as u128;
        let mut s = String::new();
        push_decimal(&mut s, p);
        push_char(&mut s, '%');
        Ok(s)
    } else {
        Err(Error::DivideByZero)
    }
}

/// Supported byte units (that can fit in a usize).
#[derive(Debug, PartialEq, Eq, Structural)]
pub enum ByteUnits {
    /// 0 to 1024^1 - 1
    Byte,
    /// 1024 to 1024^2 - 1
    Kibibyte,
    /// 1024^2 to 1024^3 - 1
    Mebibyte,
    /// 1024^3 to 1024^4 - 1
    Gibibyte,
    /// 1024^4 to 1024^5 - 1
    Tebibyte,
    /// 1024^5 to 1024^6 - 1
    Pebibyte,
    /// 1024^6 and above
    Exbibyte,
}

/// The highest unit index, that of exbibytes.
pub const MAX_UNIT: usize = 6;

impl ByteUnits {
    /// The power of 1024 that this unit stands for.
    pub open spec fn index(self) -> nat {
        match self {
            ByteUnits::Byte => 0,
            ByteUnits::Kibibyte => 1,
            ByteUnits::Mebibyte => 2,
            ByteUnits::Gibibyte => 3,
            ByteUnits::Tebibyte => 4,
            ByteUnits::Pebibyte => 5,
            ByteUnits::Exbibyte => 6,
        }
    }

    /// The unit for a power of 1024; an error past exbibytes.
    pub fn try_from(idx: usize) -> (r: Result<ByteUnits, Error>)
        ensures
            idx <= MAX_UNIT <==> r is Ok,
            r is Ok ==> r->Ok_0.index() == idx,
            r is Err ==> r == Err::<ByteUnits, Error>(Error::UnsupportedUnits),
    {
        match idx {
            0 => Ok(ByteUnits::Byte),
            1 => Ok(ByteUnits::Kibibyte),
            2 => Ok(ByteUnits::Mebibyte),
            3 => Ok(ByteUnits::Gibibyte),
            4 => Ok(ByteUnits::Tebibyte),
            5 => Ok(ByteUnits::Pebibyte),
            6 => Ok(ByteUnits::Exbibyte),
            _ => Err(Error::UnsupportedUnits),
        }
    }

    /// The short name of this unit.
    pub fn symbol(&self) -> (r: &'static str)
        ensures
            r@ == unit_symbol(self.index()),
    {
        match self {
            ByteUnits::Byte => "B",
            ByteUnits::Kibibyte => "KiB",
            ByteUnits::Mebibyte => "MiB",
            ByteUnits::Gibibyte => "GiB",
            ByteUnits::Tebibyte => "TiB",
            ByteUnits::Pebibyte => "PiB",
            ByteUnits::Exbibyte => "EiB",
        }
    }
}

/// The short name of the unit for the `k`-th power of 1024.
pub open spec fn unit_symbol(k: nat) -> Seq<char> {
    if k == 0 {
        "B"@
    } else if k == 1 {
        "KiB"@
    } else if k == 2 {
        "MiB"@
    } else if k == 3 {
        "GiB"@
    } else if k == 4 {
        "TiB"@
    } else if k == 5 {
        "PiB"@
    } else {
        "EiB"@
    }
}

/// Divides `b` by 1024 while it is at least 1024, at most `6 - k` more times;
/// gives the final unit index and the quotient.
pub open spec fn scale_down(b: nat, k: nat) -> (nat, nat)
    decreases 6 - k,
{
    if b >= 1024 && k < 6 {
        scale_down(b / 1024, k + 1)
    } else {
        (k, b)
    }
}

/// The unit index, whole amount and carried fraction numerator (over 1024)
/// by which `b` bytes are shown. The fraction is the whole amount taken
/// modulo 1024 after the last division, none where no division was made.
pub open spec fn max_units(b: nat) -> (nat, nat, nat) {
    let (k, curr) = scale_down(b, 0);
    (k, curr, if k == 0 { 0 } else { curr % 1024 })
}

/// Converts bytes to the maximum unit representation.
pub fn bytes_to_max_units(bytes_pre: usize) -> (r: Result<(ByteUnits, usize, usize), Error>)
    ensures
        r is Ok,
        r->Ok_0.0.index() == max_units(bytes_pre as nat).0,
        r->Ok_0.1 == max_units(bytes_pre as nat).1,
        r->Ok_0.2 == max_units(bytes_pre as nat).2,
{
    let mut curr_bytes: usize = bytes_pre;
    let mut rem_pre: usize = 0;
    let mut unit_idx: usize = 0;
    while curr_bytes >= 1024 && unit_idx < MAX_UNIT
        invariant
            unit_idx <= MAX_UNIT,
            scale_down(curr_bytes as nat, unit_idx as nat) == scale_down(bytes_pre as nat, 0),
            unit_idx == 0 ==> rem_pre == 0,
            unit_idx > 0 ==> rem_pre == curr_bytes % 1024,
        decreases MAX_UNIT - unit_idx,
    {
        curr_bytes = curr_bytes / 1024;
        rem_pre = curr_bytes % 1024;
        unit_idx = unit_idx + 1;
    }
    let units = ByteUnits::try_from(unit_idx);
    match units {
        Ok(u) => Ok((u, curr_bytes, rem_pre)),
        Err(e) => Err(e),
    }
}

/// The digits of `h` hundredths, with exactly two places after the point.
pub open spec fn fixed_two(h: nat) -> Seq<char> {
    decimal(h / 100).push('.') + seq![digit_char((h % 100) / 10), digit_char(h % 10)]
}

/// The digits of `h` hundredths in the shortest form that keeps their value:
/// no point for a whole number, one place where the second would be zero.
pub open spec fn shortest(h: nat) -> Seq<char> {
    if h % 100 == 0 {
        decimal(h / 100)
    } else if h % 10 == 0 {
        decimal(h / 100).push('.').push(digit_char((h % 100) / 10))
    } else {
        fixed_two(h)
    }
}

/// An amount of `h` hundredths in the unit of index `k`: bytes in the
/// shortest form, larger units with two places.
pub open spec fn amount_text(h: nat, k: nat) -> Seq<char> {
    (if k == 0 { shortest(h) } else { fixed_two(h) }) + seq![' '] + unit_symbol(k)
}

/// Appends an amount of `h` hundredths in the given unit.
fn push_amount(s: &mut String, h: u128, units: &ByteUnits)
    ensures
        final(s)@ == old(s)@ + amount_text(h as nat, units.index()),
{
    let whole: u128 = h / 100;
    let frac: u128 = h % 100;
    push_decimal(s, whole);
    match units {
        ByteUnits::Byte => {
            if frac != 0 {
                push_char(s, '.');
                push_char(s, (48u8 + (frac / 10) as u8) as char);
                if frac % 10 != 0 {
                    push_char(s, (48u8 + (frac % 10) as u8) as char);
                }
            }
        },
        _ => {
            push_char(s, '.');
            push_two_digits(s, frac);
        },
    }
    push_char(s, ' ');
    s.append(units.symbol());
    proof {
        let hn = h as nat;
        assert(hn % 10 == (hn % 100) % 10);
        assert(final(s)@ =~= old(s)@ + amount_text(hn, units.index()));
    }
}

/// The hundredths, rounded down, of the amount shown for `b` bytes: the
/// whole amount plus the carried fraction over 1024.
pub open spec fn byte_hundredths(b: nat) -> nat {
    let (k, curr, rem) = max_units(b);
    100 * curr + (100 * rem) / 1024
}

/// The rendering of `b` bytes in the largest unit that they reach.
pub open spec fn bytes_text(b: nat) -> Seq<char> {
    amount_text(byte_hundredths(b), max_units(b).0)
}

/// Converts the bytes value to a properly unit-ed string.
pub fn bytes_to_string(bytes_pre: usize) -> (r: Result<String, Error>)
    ensures
        r is Ok,
        r->Ok_0@ == bytes_text(bytes_pre as nat),
{
    match bytes_to_max_units(bytes_pre) {
        Ok((units, curr_bytes, rem_pre)) => {
            let h: u128 = 100 * curr_bytes as u128 + (100 * rem_pre as u128) / 1024;
            let mut s = String::new();
            push_amount(&mut s, h, &units);
            Ok(s)
        },
        Err(e) => Err(e),
    }
}

/// Nanoseconds in one second.
pub const NANOS_PER_SEC: u128 = 1_000_000_000;

/// Scales the rate `num / den` down by 1024 while it is at least 1024, at
/// most `6 - k` more times; gives the final unit index and denominator.
pub open spec fn rate_scale(num: nat, den: nat, k: nat) -> (nat, nat)
    decreases 6 - k,
{
    if num >= 1024 * den && k < 6 {
        rate_scale(num, 1024 * den, k + 1)
    } else {
        (k, den)
    }
}

/// The rendering of `bytes` transferred over `nanos` nanoseconds, as a
/// rate per second in the largest unit that it reaches, rounded down to
/// hundredths.
pub open spec fn rate_text(bytes: nat, nanos: nat) -> Seq<char> {
    let num = (bytes * NANOS_PER_SEC) as nat;
    let (k, den) = rate_scale(num, nanos, 0);
    let scaled = (100 * num) as nat;
    amount_text(scaled / den, k) + "/s"@
}

/// Converts the current bytes to a rate, given the time elapsed since the
/// transfer started.
pub fn bytes_to_rate(bytes_pre: usize, elapsed_nanos: u128) -> (r: Result<String, Error>)
    ensures
        elapsed_nanos == 0 ==> r == Err::<String, Error>(Error::NoTimeElapsed),
        elapsed_nanos > 0 && elapsed_nanos / NANOS_PER_SEC > u32::MAX ==> r == Err::<
            String,
            Error,
        >(Error::ElapsedTooLong),
        elapsed_nanos > 0 && elapsed_nanos / NANOS_PER_SEC <= u32::MAX ==> r is Ok && r->Ok_0@
            == rate_text(bytes_pre as nat, elapsed_nanos as nat),
{
    if elapsed_nanos == 0 {
        return Err(Error::NoTimeElapsed);
    }
    if elapsed_nanos / NANOS_PER_SEC > u32::MAX as u128 {
        return Err(Error::ElapsedTooLong);
    }
    assert(elapsed_nanos < 0x4000_0000_0000_0000);
    assert(bytes_pre as u128 * NANOS_PER_SEC < 0x4000_0000_0000_0000_0000_0000) by (nonlinear_arith)
        requires
            bytes_pre <= usize::MAX,
    ;
    let num: u128 = bytes_pre as u128 * NANOS_PER_SEC;
    let mut den: u128 = elapsed_nanos;
    let mut unit_idx: usize = 0;
    while num >= 1024 * den && unit_idx < MAX_UNIT
        invariant
            unit_idx <= MAX_UNIT,
            num < 0x4000_0000_0000_0000_0000_0000,
            elapsed_nanos < 0x4000_0000_0000_0000,
            0 < den,
            (unit_idx == 0 && den == elapsed_nanos) || den <= num,
            rate_scale(num as nat, den as nat, unit_idx as nat) == rate_scale(
                num as nat,
                elapsed_nanos as nat,
                0,
            ),
        decreases MAX_UNIT - unit_idx,
    {
        den = 1024 * den;
        unit_idx = unit_idx + 1;
    }
    let h: u128 = (100 * num) / den;
    match ByteUnits::try_from(unit_idx) {
        Ok(units) => {
            let mut s = String::new();
            push_amount(&mut s, h, &units);
            s.append("/s");
            Ok(s)
        },
        Err(e) => Err(e),
    }
}

} // verus!
