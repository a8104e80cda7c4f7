//! Temperatures in the sensor's own fixed-point unit, and the ports that
//! deliver them.

use core::cmp::Ordering;
use vstd::prelude::*;
use vstd::string::*;

use crate::decimal::{push_decimal, push_three_digits};

verus! {

/// Longest time a conversion can take, in milliseconds.
pub const CONVERSION_MS: u32 = 750;

/// A temperature in steps of one sixteenth of a degree Celsius.
#[derive(Debug, Clone, Copy, PartialEq, Eq, Ord, Hash, Structural)]
pub struct Celsius(i16);

/// Thousandths of a degree in a count of sixteenths, where one sixteenth is
/// 62.5 of them. Halves are rounded away from zero.
pub open spec fn milli_of(sixteenths: int) -> int {
    if sixteenths >= 0 {
        (sixteenths * 125 + 1) / 2
    } else {
        -((-sixteenths * 125 + 1) / 2)
    }
}

/// Whole degrees in a count of sixteenths, with the fraction dropped.
pub open spec fn whole_of(sixteenths: int) -> int {
    if sixteenths >= 0 {
        sixteenths / 16
    } else {
        -(-sixteenths / 16)
    }
}

impl View for Celsius {
    type V = int;

    /// The temperature as a count of sixteenths of a degree.
    closed spec fn view(&self) -> int {
        self.0 as int
    }
}

impl Celsius {
    /// The freezing point of water.
    pub fn zero() -> (celsius: Self)
        ensures
            celsius@ == 0,
    {
        Self(0)
    }

    pub fn from_sixteenths(sixteenths: i16) -> (celsius: Self)
        ensures
            celsius@ == sixteenths,
    {
        Self(sixteenths)
    }

    pub fn sixteenths(self) -> (sixteenths: i16)
        ensures
            sixteenths == self@,
    {
        self.0
    }

    /// The temperature in millionths of a degree, without loss.
    pub fn microdegrees(self) -> (microdegrees: i32)
        ensures
            microdegrees == self@ * 62_500,
            microdegrees * 16 == self@ * 1_000_000,
    {
        self.0 as i32 * 62_500
    }

    /// The temperature in thousandths of a degree, rounded half away from zero.
    pub fn millidegrees(self) -> (millidegrees: i32)
        ensures
            millidegrees == milli_of(self@),
    {
        let scaled: i32 = self.0 as i32 * 125;
        if scaled >= 0 {
            (scaled + 1) / 2
        } else {
            (scaled - 1) / 2
        }
    }

    /// The temperature as a person reads it: sign, whole degrees and three
    /// decimals.
    pub open spec fn text(self) -> Seq<char> {
        let milli = milli_of(self@);
        let magnitude = (if milli < 0 {
            -milli
        } else {
            milli
        }) as nat;
        let sign = if milli < 0 {
            "-"@
        } else {
            Seq::empty()
        };
        sign + crate::decimal::decimal(magnitude / 1000) + "."@ + crate::decimal::three_digits(
            magnitude,
        ) + " °C"@
    }

    /// Renders the temperature, such as `-0.500 °C`.
    pub fn render(self) -> (text: String)
        ensures
            text@ == self.text(),
    {
        let milli: i32 = self.millidegrees();
        let mut text = String::new();
        let magnitude: u64 = if milli < 0 {
            text.append("-");
            (-milli) as u64
        } else {
            milli as u64
        };
        push_decimal(&mut text, magnitude / 1000);
        text.append(".");
        push_three_digits(&mut text, magnitude);
        text.append(" °C");
        assert(text@ =~= self.text());
        text
    }

    /// The whole degrees, truncated towards zero.
    pub fn whole_degrees(self) -> (degrees: i16)
        ensures
            degrees == whole_of(self@),
    {
        self.0 / 16
    }
}

impl vstd::std_specs::cmp::PartialOrdSpecImpl for Celsius {
    open spec fn obeys_partial_cmp_spec() -> bool {
        true
    }

    /// Temperatures are ordered as the degrees they stand for.
    open spec fn partial_cmp_spec(&self, other: &Self) -> Option<Ordering> {
        if self@ < other@ {
            Some(Ordering::Less)
        } else if self@ == other@ {
            Some(Ordering::Equal)
        } else {
            Some(Ordering::Greater)
        }
    }
}

impl PartialOrd for Celsius {
    fn partial_cmp(&self, other: &Self) -> (order: Option<Ordering>) {
        if self.0 < other.0 {
            Some(Ordering::Less)
        } else if self.0 == other.0 {
            Some(Ordering::Equal)
        } else {
            Some(Ordering::Greater)
        }
    }
}

/// Why a reading could not be had.
#[derive(Debug, Clone, Copy, PartialEq, Eq, Structural)]
pub enum SensorError {
    NotPresent,
    Crc,
    Timeout,
    Bus,
}

/// The error of the [`Thermometer`] port.
pub type ThermometerError = SensorError;

impl SensorError {
    /// The text that describes the error to a person.
    pub open spec fn text(self) -> Seq<char> {
        match self {
            SensorError::NotPresent => "no sensor present on the bus"@,
            SensorError::Crc => "sensor payload failed its checksum"@,
            SensorError::Timeout => "sensor did not respond in time"@,
            SensorError::Bus => "sensor bus failure"@,
        }
    }

    /// The error as a message for the journal.
    pub fn message(self) -> (message: &'static str)
        ensures
            message@ == self.text(),
    {
        match self {
            SensorError::NotPresent => "no sensor present on the bus",
            SensorError::Crc => "sensor payload failed its checksum",
            SensorError::Timeout => "sensor did not respond in time",
            SensorError::Bus => "sensor bus failure",
        }
    }
}

/// A sensor whose conversion is started and collected in two calls.
pub trait TemperatureSensor {
    fn start_conversion(&mut self) -> Result<(), SensorError>;

    fn read_conversion(&mut self) -> Result<Celsius, SensorError>;
}

/// A thermometer that blocks until it has either a value or an error.
pub trait Thermometer {
    fn read(&mut self) -> Result<Celsius, ThermometerError>;
}

/// Two temperatures with the same count of sixteenths are equal: fixed point
/// makes equality exact.
pub proof fn law_equality_is_exact(a: Celsius, b: Celsius)
    requires
        a@ == b@,
    ensures
        a == b,
{
}

/// A temperature is a signed 16-bit count of sixteenths.
pub proof fn law_celsius_is_bounded(celsius: Celsius)
    ensures
        i16::MIN <= celsius@ <= i16::MAX,
{
}

/// Every sixteenth of a degree from -55 to 125 degrees, the range of the
/// sensor, has a temperature that stands for it.
pub proof fn law_the_sensor_range_is_covered(sixteenths: int)
    requires
        -55 * 16 <= sixteenths <= 125 * 16,
    ensures
        exists|celsius: Celsius| celsius@ == sixteenths,
{
    assert(Celsius(sixteenths as i16)@ == sixteenths);
}

/// Thousandths of a degree are the nearest ones: they miss the exact
/// temperature by at most half of one, and a tie goes away from zero.
pub proof fn law_millidegrees_are_nearest(sixteenths: int)
    ensures
        -8 <= milli_of(sixteenths) * 16 - sixteenths * 1000 <= 8,
        sixteenths > 0 && milli_of(sixteenths) * 16 - sixteenths * 1000 != 0 ==> milli_of(
            sixteenths,
        ) * 16 > sixteenths * 1000,
        milli_of(-sixteenths) == -milli_of(sixteenths),
{
}

/// A higher temperature has more thousandths, so no two temperatures share
/// them.
pub proof fn law_millidegrees_follow_the_temperature(lower: int, higher: int)
    requires
        lower < higher,
    ensures
        milli_of(lower) < milli_of(higher),
{
}

/// Whole degrees drop the fraction towards zero, on both sides of it.
pub proof fn law_whole_degrees_truncate(sixteenths: int)
    ensures
        sixteenths >= 0 ==> whole_of(sixteenths) * 16 <= sixteenths < whole_of(sixteenths) * 16
            + 16,
        whole_of(-sixteenths) == -whole_of(sixteenths),
{
}

/// The rendered text starts with a minus sign exactly when the temperature is
/// below zero, also when its whole degrees are zero.
pub proof fn law_the_text_shows_the_sign(celsius: Celsius)
    ensures
        celsius@ < 0 <==> celsius.text()[0] == '-',
{
    reveal_strlit("-");
    let milli = milli_of(celsius@);
    let magnitude = (if milli < 0 {
        -milli
    } else {
        milli
    }) as nat;
    crate::decimal::lemma_decimal_starts_with_a_digit(magnitude / 1000);
    if celsius@ >= 0 {
        assert(celsius.text()[0] == crate::decimal::decimal(magnitude / 1000)[0]);
    } else {
        assert(milli < 0);
        assert(celsius.text()[0] == "-"@[0]);
    }
}

/// Where the whole degrees start in the text of a temperature: behind the minus
/// sign, which is there exactly below zero.
pub open spec fn sign_len(celsius: Celsius) -> int {
    if celsius@ < 0 {
        1
    } else {
        0
    }
}

/// The rendered text is read back as the temperature. In front of ` °C` stand
/// three digits, a point, the digits of the whole degrees without leading
/// zeros, and a minus sign exactly below zero. The digits before the point
/// times 1000 plus those behind it are the magnitude in thousandths of a
/// degree: the smallest number of them that is not below it.
pub proof fn law_the_text_reads_back(celsius: Celsius, text: String, millidegrees: i32)
    requires
        call_ensures(Celsius::render, (celsius,), text),
        call_ensures(Celsius::millidegrees, (celsius,), millidegrees),
    ensures
        ({
            let n = text@.len() as int;
            let start = sign_len(celsius);
            let whole = text@.subrange(start, n - 7);
            let thousandths = text@.subrange(n - 6, n - 3);
            let read = crate::decimal::number_of(whole) * 1000 + crate::decimal::number_of(
                thousandths,
            );
            let sixteenths = if celsius@ < 0 {
                -celsius@
            } else {
                celsius@
            };
            &&& n > start + 7
            &&& celsius@ < 0 ==> text@[0] == '-'
            &&& crate::decimal::is_numeral_of(whole, crate::decimal::number_of(whole))
            &&& text@[n - 7] == '.'
            &&& crate::decimal::all_digits(thousandths)
            &&& text@[n - 3] == ' '
            &&& text@[n - 2] == '°'
            &&& text@[n - 1] == 'C'
            &&& 0 <= read * 16 - sixteenths * 1000 < 16
            &&& millidegrees == if celsius@ < 0 {
                -read
            } else {
                read
            }
        }),
{
    reveal_strlit("-");
    reveal_strlit(".");
    reveal_strlit(" °C");
    let milli = milli_of(celsius@);
    let magnitude = (if milli < 0 {
        -milli
    } else {
        milli
    }) as nat;
    let n = text@.len() as int;
    let start = sign_len(celsius);
    crate::decimal::law_numerals_read_back(magnitude / 1000);
    crate::decimal::law_three_digits_read_back(magnitude);
    assert(text@.subrange(start, n - 7) =~= crate::decimal::decimal(magnitude / 1000));
    assert(text@.subrange(n - 6, n - 3) =~= crate::decimal::three_digits(magnitude));
}

/// No two temperatures render alike.
pub proof fn law_no_two_temperatures_render_alike(
    a: Celsius,
    b: Celsius,
    rendered_a: String,
    rendered_b: String,
)
    requires
        call_ensures(Celsius::render, (a,), rendered_a),
        call_ensures(Celsius::render, (b,), rendered_b),
        rendered_a@ == rendered_b@,
    ensures
        a == b,
{
    law_the_text_shows_the_sign(a);
    law_the_text_shows_the_sign(b);
    law_celsius_is_bounded(a);
    law_celsius_is_bounded(b);
    reveal_strlit("-");
    reveal_strlit(".");
    reveal_strlit(" °C");
    let milli_a = milli_of(a@);
    let milli_b = milli_of(b@);
    let size_a = (if milli_a < 0 {
        -milli_a
    } else {
        milli_a
    }) as nat;
    let size_b = (if milli_b < 0 {
        -milli_b
    } else {
        milli_b
    }) as nat;
    let n = rendered_a@.len() as int;
    let start = sign_len(a);
    crate::decimal::law_numerals_read_back(size_a / 1000);
    crate::decimal::law_numerals_read_back(size_b / 1000);
    crate::decimal::law_three_digits_read_back(size_a);
    crate::decimal::law_three_digits_read_back(size_b);
    assert(rendered_a@.subrange(start, n - 7) =~= crate::decimal::decimal(size_a / 1000));
    assert(rendered_b@.subrange(start, n - 7) =~= crate::decimal::decimal(size_b / 1000));
    assert(rendered_a@.subrange(n - 6, n - 3) =~= crate::decimal::three_digits(size_a));
    assert(rendered_b@.subrange(n - 6, n - 3) =~= crate::decimal::three_digits(size_b));
    assert(size_a == size_b);
}

/// The conversions of a temperature: sixteenths come back as they went in, none
/// of them are the freezing point, millionths of a degree are exact, thousandths
/// are the nearest with ties away from zero, and whole degrees are the exact ones
/// cut off towards zero.
pub proof fn law_conversions_are_of_the_same_temperature(
    sixteenths: i16,
    celsius: Celsius,
    back: i16,
    microdegrees: i32,
    millidegrees: i32,
    degrees: i16,
    zero: Celsius,
)
    requires
        call_ensures(Celsius::zero, (), zero),
        call_ensures(Celsius::from_sixteenths, (sixteenths,), celsius),
        call_ensures(Celsius::sixteenths, (celsius,), back),
        call_ensures(Celsius::microdegrees, (celsius,), microdegrees),
        call_ensures(Celsius::millidegrees, (celsius,), millidegrees),
        call_ensures(Celsius::whole_degrees, (celsius,), degrees),
    ensures
        back == sixteenths,
        celsius == zero <==> sixteenths == 0,
        microdegrees * 16 == sixteenths * 1_000_000,
        sixteenths >= 0 ==> 0 <= millidegrees * 1000 - microdegrees <= 500,
        sixteenths <= 0 ==> -500 <= millidegrees * 1000 - microdegrees <= 0,
        sixteenths >= 0 ==> degrees * 16 <= sixteenths < degrees * 16 + 16,
        sixteenths <= 0 ==> degrees * 16 - 16 < sixteenths <= degrees * 16,
{
}

/// Temperatures compare as the counts of sixteenths they were made from.
pub proof fn law_order_follows_the_temperature(
    x: i16,
    y: i16,
    a: Celsius,
    b: Celsius,
    order: Option<Ordering>,
)
    requires
        call_ensures(Celsius::partial_cmp, (&a, &b), order),
        call_ensures(Celsius::from_sixteenths, (x,), a),
        call_ensures(Celsius::from_sixteenths, (y,), b),
    ensures
        order == Some(Ordering::Less) <==> x < y,
        order == Some(Ordering::Equal) <==> x == y,
        order == Some(Ordering::Greater) <==> x > y,
{
}

/// The message tells which error it is.
pub proof fn law_errors_can_be_told_apart(
    a: SensorError,
    b: SensorError,
    message_a: &'static str,
    message_b: &'static str,
)
    requires
        call_ensures(SensorError::message, (a,), message_a),
        call_ensures(SensorError::message, (b,), message_b),
    ensures
        message_a@ == message_b@ <==> a == b,
{
    reveal_strlit("no sensor present on the bus");
    reveal_strlit("sensor payload failed its checksum");
    reveal_strlit("sensor did not respond in time");
    reveal_strlit("sensor bus failure");
    assert(SensorError::NotPresent.text().len() == 28);
    assert(SensorError::Crc.text().len() == 34);
    assert(SensorError::Timeout.text().len() == 30);
    assert(SensorError::Bus.text().len() == 18);
}

} // verus!
