//! What the DS18B20 datasheet says: command bytes, the configuration register
//! and the scratchpad with its Dallas CRC-8.

use core::cmp::Ordering;
use vstd::prelude::*;

use crate::temperature::{Celsius, ThermometerError, CONVERSION_MS};

verus! {

/// Bytes in the scratchpad: eight of data and their checksum.
pub const SCRATCHPAD_LEN: usize = 9;

pub const CONVERT_TEMPERATURE: u8 = 0x44;

pub const WRITE_SCRATCHPAD: u8 = 0x4E;

pub const READ_SCRATCHPAD: u8 = 0xBE;

/// Low byte of the ROM address of every DS18B20.
pub const FAMILY_CODE: u8 = 0x28;

pub const ALARM_HIGH_DEFAULT: u8 = 0x4B;

pub const ALARM_LOW_DEFAULT: u8 = 0x46;

/// Precision of a conversion.
#[derive(Debug, Clone, Copy, PartialEq, Eq, Ord, Structural)]
pub enum Resolution {
    Bits9,
    Bits10,
    Bits11,
    Bits12,
}

impl Resolution {
    /// Width of the result in bits.
    pub open spec fn bits(self) -> int {
        match self {
            Resolution::Bits9 => 9,
            Resolution::Bits10 => 10,
            Resolution::Bits11 => 11,
            Resolution::Bits12 => 12,
        }
    }

    /// How many of the finest steps one step of this resolution spans.
    pub open spec fn coarseness(self) -> int {
        match self {
            Resolution::Bits9 => 8,
            Resolution::Bits10 => 4,
            Resolution::Bits11 => 2,
            Resolution::Bits12 => 1,
        }
    }

    /// Milliseconds until the result of a conversion is there.
    pub open spec fn conversion_time(self) -> int {
        match self {
            Resolution::Bits9 => 94,
            Resolution::Bits10 => 188,
            Resolution::Bits11 => 375,
            Resolution::Bits12 => 750,
        }
    }

    /// The configuration register: the two resolution bits above five set bits.
    pub fn config_byte(self) -> (byte: u8)
        ensures
            byte == 0x1F + 0x20 * (self.bits() - 9),
    {
        match self {
            Resolution::Bits9 => 0x1F,
            Resolution::Bits10 => 0x3F,
            Resolution::Bits11 => 0x5F,
            Resolution::Bits12 => 0x7F,
        }
    }

    /// The time a conversion takes, in milliseconds.
    pub fn conversion_ms(self) -> (ms: u32)
        ensures
            ms == self.conversion_time(),
    {
        match self {
            Resolution::Bits9 => 94,
            Resolution::Bits10 => 188,
            Resolution::Bits11 => 375,
            Resolution::Bits12 => 750,
        }
    }

    /// The smallest change of temperature that can be told apart.
    pub fn step(self) -> (step: Celsius)
        ensures
            step@ == self.coarseness(),
    {
        Celsius::from_sixteenths(
            match self {
                Resolution::Bits9 => 8,
                Resolution::Bits10 => 4,
                Resolution::Bits11 => 2,
                Resolution::Bits12 => 1,
            },
        )
    }
}

impl vstd::std_specs::cmp::PartialOrdSpecImpl for Resolution {
    open spec fn obeys_partial_cmp_spec() -> bool {
        true
    }

    /// A resolution with more bits is the greater one.
    open spec fn partial_cmp_spec(&self, other: &Self) -> Option<Ordering> {
        if self.bits() < other.bits() {
            Some(Ordering::Less)
        } else if self.bits() == other.bits() {
            Some(Ordering::Equal)
        } else {
            Some(Ordering::Greater)
        }
    }
}

impl PartialOrd for Resolution {
    fn partial_cmp(&self, other: &Self) -> (order: Option<Ordering>) {
        let own: u8 = self.config_byte();
        let others: u8 = other.config_byte();
        if own < others {
            Some(Ordering::Less)
        } else if own == others {
            Some(Ordering::Equal)
        } else {
            Some(Ordering::Greater)
        }
    }
}

/// Multiplication by `x` modulo `x^8 + x^5 + x^4 + 1` over GF(2), where bit 7
/// of a byte is the coefficient of `x^0` and bit 0 that of `x^7`.
pub open spec fn times_x(polynomial: u8) -> u8 {
    if polynomial & 1 == 1 {
        (polynomial >> 1) ^ 0x8C
    } else {
        polynomial >> 1
    }
}

/// Multiplication by `x^power` in the same ring.
pub open spec fn times_x_to_the(power: nat, polynomial: u8) -> u8
    decreases power,
{
    if power == 0 {
        polynomial
    } else {
        times_x(times_x_to_the((power - 1) as nat, polynomial))
    }
}

/// The Dallas CRC-8: the message polynomial, times `x^8`, reduced modulo the
/// generator byte by byte.
pub open spec fn checksum(bytes: Seq<u8>) -> u8
    decreases bytes.len(),
{
    if bytes.len() == 0 {
        0
    } else {
        times_x_to_the(8, checksum(bytes.drop_last()) ^ bytes.last())
    }
}

/// The signed 16-bit value of two bytes in two's complement, low byte first.
pub open spec fn signed_le(low: u8, high: u8) -> int {
    if high < 0x80 {
        low + 256 * high
    } else {
        low + 256 * high - 0x1_0000
    }
}

/// What a scratchpad stands for: a checksum failure unless the checksum over
/// all of it is zero, and otherwise the temperature in its first two bytes.
pub open spec fn decodes_to(
    scratchpad: Seq<u8>,
    parsed: Result<Celsius, ThermometerError>,
) -> bool {
    if checksum(scratchpad) != 0 {
        parsed == Err::<Celsius, ThermometerError>(ThermometerError::Crc)
    } else {
        parsed matches Ok(celsius) && celsius@ == signed_le(scratchpad[0], scratchpad[1])
    }
}

/// Decodes a scratchpad. A checksum over all nine bytes that is not zero
/// means that the bytes were not read as they were sent.
pub fn parse_scratchpad(scratchpad: &[u8; SCRATCHPAD_LEN]) -> (parsed: Result<
    Celsius,
    ThermometerError,
>)
    ensures
        decodes_to(scratchpad@, parsed),
{
    if crc8(scratchpad) != 0 {
        return Err(ThermometerError::Crc);
    }
    let low: u8 = scratchpad[0];
    let high: u8 = scratchpad[1];
    let word: u16 = low as u16 | ((high as u16) << 8);
    assert(word == low as u16 + 256 * (high as u16)) by (bit_vector)
        requires
            word == low as u16 | ((high as u16) << 8),
    ;
    assert(word < 0x8000 ==> word as i16 == word) by (bit_vector);
    assert(word >= 0x8000 ==> word as i16 == word - 0x1_0000) by (bit_vector);
    Ok(Celsius::from_sixteenths(#[verifier::truncate] (word as i16)))
}

/// The Dallas CRC-8 of `bytes`.
pub fn crc8(bytes: &[u8]) -> (crc: u8)
    ensures
        crc == checksum(bytes@),
{
    let mut crc: u8 = 0;

    for i in 0..bytes.len()
        invariant
            crc == checksum(bytes@.take(i as int)),
    {
        let mut byte: u8 = bytes[i];
        let ghost sum: u8 = crc ^ byte;
        assert(byte >> 0u8 == byte) by (bit_vector);

        for k in 0u8..8u8
            invariant
                k <= 8,
                byte == bytes@[i as int] >> k,
                crc ^ byte == times_x_to_the(k as nat, sum),
        {
            let mix: u8 = (crc ^ byte) & 1;
            let ghost before: u8 = crc;
            crc = crc >> 1;

            if mix != 0 {
                crc = crc ^ 0x8C;
            }
            let ghost shifted: u8 = byte >> 1;
            let ghost whole: u8 = bytes@[i as int];
            assert((whole >> k) >> 1 == whole >> ((k + 1) as u8)) by (bit_vector)
                requires
                    k < 8,
            ;
            assert(crc ^ shifted == times_x(before ^ byte)) by (bit_vector)
                requires
                    mix == (before ^ byte) & 1,
                    mix != 0 ==> crc == (before >> 1) ^ 0x8C,
                    mix == 0 ==> crc == before >> 1,
                    shifted == byte >> 1,
            ;
            byte = byte >> 1;
        }
        let ghost whole: u8 = bytes@[i as int];
        assert(whole >> 8u8 == 0) by (bit_vector);
        assert(crc ^ 0 == crc) by (bit_vector);
        assert(bytes@.take(i + 1).drop_last() =~= bytes@.take(i as int));
    }
    assert(bytes@.take(bytes@.len() as int) =~= bytes@);

    crc
}

proof fn lemma_times_x_is_injective(a: u8, b: u8)
    requires
        times_x(a) == times_x(b),
    ensures
        a == b,
{
    assert(times_x(a) == times_x(b) ==> a == b) by (bit_vector);
}

proof fn lemma_times_x_to_the_is_injective(power: nat, a: u8, b: u8)
    requires
        times_x_to_the(power, a) == times_x_to_the(power, b),
    ensures
        a == b,
    decreases power,
{
    if power > 0 {
        let less = (power - 1) as nat;
        lemma_times_x_is_injective(times_x_to_the(less, a), times_x_to_the(less, b));
        lemma_times_x_to_the_is_injective(less, a, b);
    }
}

proof fn lemma_times_x_to_the_zero(power: nat)
    ensures
        times_x_to_the(power, 0) == 0,
    decreases power,
{
    if power > 0 {
        lemma_times_x_to_the_zero((power - 1) as nat);
        assert(times_x(0) == 0) by (bit_vector);
    }
}

/// A message followed by one more byte has checksum zero exactly when that
/// byte is the checksum of the message. So a scratchpad is accepted exactly
/// when its last byte is the checksum of the eight before it.
pub proof fn law_zero_means_the_checksum_was_appended(message: Seq<u8>, last: u8)
    ensures
        checksum(message.push(last)) == 0 <==> last == checksum(message),
{
    let crc: u8 = checksum(message);
    assert(message.push(last).drop_last() =~= message);
    assert(crc ^ last == 0 <==> last == crc) by (bit_vector);
    lemma_times_x_to_the_zero(8);
    if checksum(message.push(last)) == 0 {
        lemma_times_x_to_the_is_injective(8, crc ^ last, 0);
    }
}

proof fn lemma_one_byte_changes_the_checksum(sent: Seq<u8>, received: Seq<u8>, at: int)
    requires
        sent.len() == received.len(),
        0 <= at < sent.len(),
        sent[at] != received[at],
        forall|i: int| 0 <= i < sent.len() && i != at ==> sent[i] == received[i],
    ensures
        checksum(sent) != checksum(received),
    decreases sent.len(),
{
    let a: u8 = checksum(sent.drop_last());
    let b: u8 = checksum(received.drop_last());
    let x: u8 = sent.last();
    let y: u8 = received.last();
    if at == sent.len() - 1 {
        assert(sent.drop_last() =~= received.drop_last());
        assert(a ^ x == a ^ y ==> x == y) by (bit_vector);
    } else {
        lemma_one_byte_changes_the_checksum(sent.drop_last(), received.drop_last(), at);
        assert(a ^ x == b ^ x ==> a == b) by (bit_vector);
    }
    if checksum(sent) == checksum(received) {
        lemma_times_x_to_the_is_injective(8, a ^ x, b ^ y);
    }
}

/// Changing any one byte of a message with checksum zero, in any way, leaves a
/// message whose checksum is not zero: a scratchpad corrupted in one byte is
/// always rejected.
pub proof fn law_corruption_of_one_byte_is_detected(sent: Seq<u8>, received: Seq<u8>, at: int)
    requires
        sent.len() == received.len(),
        0 <= at < sent.len(),
        sent[at] != received[at],
        forall|i: int| 0 <= i < sent.len() && i != at ==> sent[i] == received[i],
        checksum(sent) == 0,
    ensures
        checksum(received) != 0,
{
    lemma_one_byte_changes_the_checksum(sent, received, at);
}

/// The two temperature bytes are determined by the temperature they stand for.
pub proof fn law_words_decode_without_loss(low1: u8, high1: u8, low2: u8, high2: u8)
    requires
        signed_le(low1, high1) == signed_le(low2, high2),
    ensures
        low1 == low2,
        high1 == high2,
{
}

/// With every bit of resolution that is given up the conversion time halves,
/// rounded up, and the step doubles. No resolution takes longer than the
/// longest conversion.
pub proof fn law_each_bit_halves_the_conversion(finer: Resolution, coarser: Resolution)
    requires
        finer.bits() == coarser.bits() + 1,
    ensures
        coarser.conversion_time() == (finer.conversion_time() + 1) / 2,
        coarser.coarseness() == 2 * finer.coarseness(),
        finer.conversion_time() <= CONVERSION_MS,
{
}

/// The part of a byte of a polynomial, times `x^8 + x^5 + x^4 + 1`, that stays
/// in its place. The highest power stands in the lowest bit, so that lower
/// powers lie to the left.
pub open spec fn kept_part(byte: u8) -> u8 {
    byte ^ (byte << 3) ^ (byte << 4)
}

/// The part of that product that is carried into the next byte.
pub open spec fn carried_part(byte: u8) -> u8 {
    byte ^ (byte >> 4) ^ (byte >> 5)
}

/// The product of a polynomial over GF(2) and the generator
/// `x^8 + x^5 + x^4 + 1`, which is one byte longer.
pub open spec fn times_generator(polynomial: Seq<u8>) -> Seq<u8> {
    Seq::new(
        polynomial.len() + 1,
        |i: int|
            {
                let kept = if i < polynomial.len() {
                    kept_part(polynomial[i])
                } else {
                    0
                };
                let carried = if i > 0 {
                    carried_part(polynomial[i - 1])
                } else {
                    0
                };
                kept ^ carried
            },
    )
}

proof fn lemma_one_byte_of_the_division(sum: u8)
    ensures
        kept_part(sum ^ (sum << 3) ^ (sum << 4) ^ (sum << 6)) == sum,
        carried_part(sum ^ (sum << 3) ^ (sum << 4) ^ (sum << 6)) == times_x_to_the(8, sum),
        times_x_to_the(8, kept_part(sum)) == carried_part(sum),
{
    reveal_with_fuel(times_x_to_the, 9);
    assert(kept_part(sum ^ (sum << 3) ^ (sum << 4) ^ (sum << 6)) == sum) by (bit_vector);
    assert(carried_part(sum ^ (sum << 3) ^ (sum << 4) ^ (sum << 6)) == times_x(
        times_x(times_x(times_x(times_x(times_x(times_x(times_x(sum))))))),
    )) by (bit_vector);
    assert(carried_part(sum) == times_x(
        times_x(times_x(times_x(times_x(times_x(times_x(times_x(kept_part(sum)))))))),
    )) by (bit_vector);
}

/// A quotient of `message`, followed by its checksum, by the generator.
spec fn quotient(message: Seq<u8>) -> Seq<u8>
    decreases message.len(),
{
    if message.len() == 0 {
        Seq::empty()
    } else {
        let sum: u8 = checksum(message.drop_last()) ^ message.last();
        quotient(message.drop_last()).push(sum ^ (sum << 3) ^ (sum << 4) ^ (sum << 6))
    }
}

proof fn lemma_the_quotient_divides(message: Seq<u8>)
    ensures
        quotient(message).len() == message.len(),
        message.push(checksum(message)) == times_generator(quotient(message)),
    decreases message.len(),
{
    let product = times_generator(quotient(message));
    assert(0u8 ^ 0u8 == 0) by (bit_vector);
    if message.len() > 0 {
        let front = message.drop_last();
        let n = front.len() as int;
        lemma_the_quotient_divides(front);
        let earlier = times_generator(quotient(front));
        let before: u8 = checksum(front);
        let last: u8 = message.last();
        let sum: u8 = before ^ last;
        lemma_one_byte_of_the_division(sum);
        let crc: u8 = checksum(message);
        assert(forall|byte: u8| #[trigger] (0u8 ^ byte) == byte) by (bit_vector);
        assert(before == earlier[n]) by {
            assert(front.push(before)[n] == before);
        }
        assert((before ^ last) ^ before == last) by (bit_vector);
        assert forall|i: int| 0 <= i <= n + 1 implies #[trigger] message.push(crc)[i]
            == product[i] by {
            if i < n {
                assert(front.push(before)[i] == earlier[i]);
            }
        }
    }
    assert(message.push(checksum(message)) =~= product);
}

proof fn lemma_the_remainder_is_unique(message: Seq<u8>, last: u8, polynomial: Seq<u8>)
    requires
        polynomial.len() == message.len(),
        message.push(last) == times_generator(polynomial),
    ensures
        last == checksum(message),
    decreases message.len(),
{
    let product = times_generator(polynomial);
    assert(forall|byte: u8| #[trigger] (0u8 ^ byte) == byte) by (bit_vector);
    assert(message.push(last)[message.len() as int] == last);
    if message.len() > 0 {
        let front = message.drop_last();
        let n = front.len() as int;
        let fewer = polynomial.drop_last();
        let between: u8 = if n > 0 {
            carried_part(polynomial[n - 1])
        } else {
            0
        };
        let earlier = times_generator(fewer);
        assert forall|i: int| 0 <= i <= n implies #[trigger] front.push(between)[i]
            == earlier[i] by {
            if i < n {
                assert(message.push(last)[i] == product[i]);
            }
        }
        assert(front.push(between) =~= earlier);
        lemma_the_remainder_is_unique(front, between, fewer);
        lemma_one_byte_of_the_division(polynomial[n]);
        let kept: u8 = kept_part(polynomial[n]);
        assert(message.push(last)[n] == product[n]);
        assert(between ^ (kept ^ between) == kept) by (bit_vector);
    }
}

/// The checksum is the remainder of a division: a message followed by its
/// checksum is a multiple of `x^8 + x^5 + x^4 + 1` over GF(2), and so it is
/// followed by no other byte.
pub proof fn law_the_checksum_is_the_remainder(message: &[u8], crc: u8, other: u8)
    requires
        call_ensures(crc8, (message,), crc),
    ensures
        exists|polynomial: Seq<u8>|
            polynomial.len() == message@.len() && message@.push(crc)
                == #[trigger] times_generator(polynomial),
        other == crc <==> exists|polynomial: Seq<u8>|
            polynomial.len() == message@.len() && message@.push(other)
                == #[trigger] times_generator(polynomial),
{
    lemma_the_quotient_divides(message@);
    assert(message@.push(crc) == times_generator(quotient(message@)));
    if exists|polynomial: Seq<u8>|
        polynomial.len() == message@.len() && message@.push(other)
            == #[trigger] times_generator(polynomial) {
        let polynomial = choose|polynomial: Seq<u8>|
            polynomial.len() == message@.len() && message@.push(other)
                == #[trigger] times_generator(polynomial);
        lemma_the_remainder_is_unique(message@, other, polynomial);
    }
}

/// A scratchpad is accepted exactly when its nine bytes are a multiple of
/// `x^8 + x^5 + x^4 + 1` over GF(2), and rejected for its checksum otherwise.
/// The first two bytes of an accepted one are the low and the high byte of the
/// 16-bit two's complement of the temperature, whatever the other seven are.
pub proof fn law_the_first_two_bytes_are_the_temperature(
    scratchpad: &[u8; SCRATCHPAD_LEN],
    parsed: Result<Celsius, ThermometerError>,
)
    requires
        call_ensures(parse_scratchpad, (scratchpad,), parsed),
    ensures
        match parsed {
            Ok(celsius) => {
                &&& exists|polynomial: Seq<u8>|
                    polynomial.len() == 8 && scratchpad@ == #[trigger] times_generator(polynomial)
                &&& -0x8000 <= celsius@ < 0x8000
                &&& celsius@ % 256 == scratchpad@[0]
                &&& celsius@ / 256 % 256 == scratchpad@[1]
            },
            Err(error) => {
                &&& forall|polynomial: Seq<u8>|
                    polynomial.len() == 8 ==> scratchpad@ != #[trigger] times_generator(polynomial)
                &&& error == ThermometerError::Crc
            },
        },
{
    let message = scratchpad@.drop_last();
    let last: u8 = scratchpad@.last();
    assert(message.push(last) =~= scratchpad@);
    law_zero_means_the_checksum_was_appended(message, last);
    lemma_the_quotient_divides(message);
    if parsed is Err {
        assert forall|polynomial: Seq<u8>| polynomial.len() == 8 implies scratchpad@
            != #[trigger] times_generator(polynomial) by {
            if scratchpad@ == times_generator(polynomial) {
                lemma_the_remainder_is_unique(message, last, polynomial);
            }
        }
    }
}

/// Whatever the other bytes are, a scratchpad with checksum zero that starts
/// with the bytes of a 16-bit value decodes to that value.
pub proof fn law_every_value_decodes_to_itself(
    value: i16,
    scratchpad: &[u8; SCRATCHPAD_LEN],
    parsed: Result<Celsius, ThermometerError>,
)
    requires
        call_ensures(parse_scratchpad, (scratchpad,), parsed),
        checksum(scratchpad@) == 0,
        scratchpad@[0] == value % 256,
        scratchpad@[1] == value as int / 256 % 256,
    ensures
        parsed matches Ok(celsius) && celsius@ == value,
{
}

/// Each resolution has its own configuration byte, a conversion that takes the
/// time of the datasheet, and a step that divides a whole degree: the more bits,
/// the greater the byte, the longer the conversion and the finer the step.
pub proof fn law_resolutions_are_those_of_the_datasheet(
    resolution: Resolution,
    byte: u8,
    ms: u32,
    step: Celsius,
)
    requires
        call_ensures(Resolution::config_byte, (resolution,), byte),
        call_ensures(Resolution::conversion_ms, (resolution,), ms),
        call_ensures(Resolution::step, (resolution,), step),
    ensures
        match resolution {
            Resolution::Bits9 => byte == 0x1F && ms == 94 && step@ * 2 == 16,
            Resolution::Bits10 => byte == 0x3F && ms == 188 && step@ * 4 == 16,
            Resolution::Bits11 => byte == 0x5F && ms == 375 && step@ * 8 == 16,
            Resolution::Bits12 => byte == 0x7F && ms == 750 && step@ * 16 == 16,
        },
{
}

/// Resolutions compare as their configuration bytes do.
pub proof fn law_the_finer_resolution_is_the_greater(
    a: Resolution,
    b: Resolution,
    byte_a: u8,
    byte_b: u8,
    order: Option<Ordering>,
)
    requires
        call_ensures(Resolution::partial_cmp, (&a, &b), order),
        call_ensures(Resolution::config_byte, (a,), byte_a),
        call_ensures(Resolution::config_byte, (b,), byte_b),
    ensures
        order == Some(Ordering::Less) <==> byte_a < byte_b,
        order == Some(Ordering::Equal) <==> byte_a == byte_b,
        order == Some(Ordering::Greater) <==> byte_a > byte_b,
{
}

} // verus!
