//! The wake cycle of the sensor node: one wake, one reading, and sleep for the
//! balance of the period.

use vstd::prelude::*;
use vstd::string::*;

use crate::decimal::push_decimal;
use crate::ds18b20::Resolution;
use crate::log_buffer::{Journal, Level, LogBuffer, Record};
use crate::temperature::{Celsius, ThermometerError};

verus! {

/// Time from one wake to the next, in microseconds.
pub const SAMPLE_PERIOD_US: u64 = 10_000_000;

/// Shortest time to sleep, in microseconds.
pub const MINIMUM_SLEEP_US: u64 = 1_000_000;

/// Time for which a reset holds the serial port open, in seconds.
pub const FLASH_WINDOW_S: u64 = 10;

/// Time between two looks at a button that is held down.
pub const BUTTON_POLL_MS: u32 = 20;

/// Resolution at which the node samples.
pub const RESOLUTION: Resolution = Resolution::Bits11;

/// Capacity of the journal of one cycle.
pub const JOURNAL_BYTES: usize = 512;

/// What woke the chip.
#[derive(Debug, Clone, Copy, PartialEq, Eq, Structural)]
pub enum Wakeup {
    Timer,
    Button,
    /// Neither the timer nor the button: a reset or a power-on.
    Reset,
}

impl Wakeup {
    pub open spec fn name(self) -> Seq<char> {
        match self {
            Wakeup::Timer => "timer"@,
            Wakeup::Button => "button"@,
            Wakeup::Reset => "reset"@,
        }
    }

    pub fn label(self) -> (label: &'static str)
        ensures
            label@ == self.name(),
    {
        match self {
            Wakeup::Timer => "timer",
            Wakeup::Button => "button",
            Wakeup::Reset => "reset",
        }
    }

    /// How many seconds to idle before sampling, so that a flash attempt can
    /// catch the chip.
    pub fn flash_window(self) -> (seconds: u64)
        ensures
            seconds == if self is Reset {
                FLASH_WINDOW_S
            } else {
                0
            },
    {
        match self {
            Wakeup::Reset => FLASH_WINDOW_S,
            _ => 0,
        }
    }
}

/// Microseconds since the chip was reset, from the count of its timer.
pub fn since_boot(timer: i64) -> (awake: u64)
    ensures
        awake == if timer < 0 {
            0
        } else {
            timer as int
        },
{
    if timer < 0 {
        0
    } else {
        timer as u64
    }
}

/// Microseconds to sleep after `awake` of them: the balance of the period, but
/// never less than the minimum.
pub open spec fn balance(awake: int) -> int {
    if awake + MINIMUM_SLEEP_US <= SAMPLE_PERIOD_US {
        SAMPLE_PERIOD_US - awake
    } else {
        MINIMUM_SLEEP_US as int
    }
}

/// How long to sleep, both times in microseconds.
pub fn sleep_for(awake: u64) -> (sleep: u64)
    ensures
        sleep == balance(awake as int),
{
    let rest: u64 = SAMPLE_PERIOD_US.saturating_sub(awake);
    if rest < MINIMUM_SLEEP_US {
        MINIMUM_SLEEP_US
    } else {
        rest
    }
}

/// The journal text of a wake.
pub open spec fn wake_line(wakeup: Wakeup) -> Seq<char> {
    "woke on "@ + wakeup.name()
}

pub fn wake_text(wakeup: Wakeup) -> (text: String)
    ensures
        text@ == wake_line(wakeup),
{
    let mut text = String::new();
    text.append("woke on ");
    text.append(wakeup.label());
    assert(text@ =~= wake_line(wakeup));
    text
}

/// The journal record of a reading: the temperature, or a warning that says why
/// there is none.
pub open spec fn reading_line(reading: Result<Celsius, ThermometerError>) -> Record {
    match reading {
        Ok(celsius) => (Level::Info, "temperature: "@ + celsius.text()),
        Err(error) => (Level::Warn, "temperature unavailable: "@ + error.text()),
    }
}

pub fn reading_text(reading: Result<Celsius, ThermometerError>) -> (record: (Level, String))
    ensures
        (record.0, record.1@) == reading_line(reading),
{
    let mut text = String::new();
    match reading {
        Ok(celsius) => {
            let rendered = celsius.render();
            text.append("temperature: ");
            text.append(rendered.as_str());
            assert(text@ =~= "temperature: "@ + celsius.text());
            (Level::Info, text)
        },
        Err(error) => {
            text.append("temperature unavailable: ");
            text.append(error.message());
            assert(text@ =~= "temperature unavailable: "@ + error.text());
            (Level::Warn, text)
        },
    }
}

/// The journal text of the end of a cycle, in whole milliseconds.
pub open spec fn sleep_line(awake: nat, sleep: nat) -> Seq<char> {
    "awake for "@ + crate::decimal::decimal(awake / 1000) + " ms, sleeping for "@
        + crate::decimal::decimal(sleep / 1000) + " ms"@
}

pub fn sleep_text(awake: u64, sleep: u64) -> (text: String)
    ensures
        text@ == sleep_line(awake as nat, sleep as nat),
{
    let mut text = String::new();
    text.append("awake for ");
    push_decimal(&mut text, awake / 1000);
    text.append(" ms, sleeping for ");
    push_decimal(&mut text, sleep / 1000);
    text.append(" ms");
    assert(text@ =~= sleep_line(awake as nat, sleep as nat));
    text
}

/// The warning that closes the output of a journal that dropped records.
pub open spec fn dropped_line(dropped: nat) -> Record {
    (
        Level::Warn,
        crate::decimal::decimal(dropped) + " records did not fit in "@ + crate::decimal::decimal(
            JOURNAL_BYTES as nat,
        ) + " bytes"@,
    )
}

/// What goes to the console for a journal: every record it kept, then a warning
/// if it dropped any.
pub open spec fn console_lines(journal: Journal) -> Seq<Record> {
    if journal.dropped > 0 {
        journal.records.push(dropped_line(journal.dropped))
    } else {
        journal.records
    }
}

/// Lines with their texts taken by value.
pub open spec fn lines_of(lines: Seq<(Level, String)>) -> Seq<Record> {
    lines.map_values(|line: (Level, String)| (line.0, line.1@))
}

/// The lines that the journal leaves on the console, in order.
pub fn flush(journal: &LogBuffer<JOURNAL_BYTES>) -> (lines: Vec<(Level, String)>)
    ensures
        lines_of(lines@) == console_lines(journal@),
{
    let mut lines: Vec<(Level, String)> = Vec::new();
    let entries = journal.entries().collect();

    for i in 0..entries.len()
        invariant
            lines_of(lines@) == crate::log_buffer::records_of(entries@).take(i as int),
    {
        let (level, text) = entries[i];
        let ghost records = crate::log_buffer::records_of(entries@);
        let ghost before = lines@;
        let owned: String = text.to_owned();
        lines.push((level, owned));
        assert(records[i as int] == (level, text@));
        assert(lines_of(lines@) =~= lines_of(before).push((level, text@)));
        assert(records.take(i + 1) =~= records.take(i as int).push(records[i as int]));
    }
    assert(crate::log_buffer::records_of(entries@).take(entries@.len() as int)
        =~= journal@.records);
    if journal.dropped() > 0 {
        let mut text = String::new();
        push_decimal(&mut text, journal.dropped() as u64);
        text.append(" records did not fit in ");
        push_decimal(&mut text, JOURNAL_BYTES as u64);
        text.append(" bytes");
        assert(text@ =~= dropped_line(journal@.dropped).1);
        let ghost before = lines@;
        lines.push((Level::Warn, text));
        assert(lines_of(lines@) =~= lines_of(before).push(dropped_line(journal@.dropped)));
    }
    lines
}

/// The time awake is charged against the period: a wake that leaves room for
/// the minimum sleep is followed by the next one exactly one period later, and
/// any other by the minimum sleep.
pub proof fn law_the_cadence_holds(awake: int)
    requires
        0 <= awake,
    ensures
        MINIMUM_SLEEP_US <= balance(awake) <= SAMPLE_PERIOD_US,
        awake + MINIMUM_SLEEP_US <= SAMPLE_PERIOD_US ==> awake + balance(awake)
            == SAMPLE_PERIOD_US,
        awake + MINIMUM_SLEEP_US > SAMPLE_PERIOD_US ==> balance(awake) == MINIMUM_SLEEP_US,
{
}

/// The journal at the end of a cycle.
pub open spec fn cycle_journal(
    wakeup: Wakeup,
    reading: Result<Celsius, ThermometerError>,
    awake: nat,
) -> Journal {
    let (level, text) = reading_line(reading);
    Journal::empty().offered(Level::Info, wake_line(wakeup), JOURNAL_BYTES as nat).offered(
        level,
        text,
        JOURNAL_BYTES as nat,
    ).offered(Level::Info, sleep_line(awake, balance(awake as int) as nat), JOURNAL_BYTES as nat)
}

proof fn lemma_utf8_len(text: Seq<char>)
    ensures
        vstd::utf8::encode_utf8(text).len() <= 4 * text.len(),
    decreases text.len(),
{
    if text.len() > 0 {
        lemma_utf8_len(text.drop_first());
    }
}

proof fn lemma_ascii_len(text: Seq<char>)
    requires
        vstd::utf8::is_ascii_chars(text),
    ensures
        vstd::utf8::encode_utf8(text).len() == text.len(),
{
    vstd::utf8::is_ascii_chars_encode_utf8(text);
}

proof fn lemma_wake_line_len(wakeup: Wakeup)
    ensures
        vstd::utf8::encode_utf8(wake_line(wakeup)).len() <= 14,
{
    reveal_strlit("woke on ");
    reveal_strlit("timer");
    reveal_strlit("button");
    reveal_strlit("reset");
    lemma_ascii_len(wake_line(wakeup));
}

proof fn lemma_reading_line_len(reading: Result<Celsius, ThermometerError>)
    ensures
        reading_line(reading).1.len() <= 59,
{
    reveal_strlit("temperature: ");
    reveal_strlit("temperature unavailable: ");
    match reading {
        Ok(celsius) => {
            reveal_strlit("-");
            reveal_strlit(".");
            reveal_strlit(" °C");
            crate::temperature::law_celsius_is_bounded(celsius);
            let milli = crate::temperature::milli_of(celsius@);
            let magnitude = (if milli < 0 {
                -milli
            } else {
                milli
            }) as nat;
            reveal_with_fuel(vstd::arithmetic::power::pow, 5);
            crate::decimal::lemma_decimal_len(magnitude / 1000, 4);
        },
        Err(_) => {
            reveal_strlit("no sensor present on the bus");
            reveal_strlit("sensor payload failed its checksum");
            reveal_strlit("sensor did not respond in time");
            reveal_strlit("sensor bus failure");
        },
    }
}

proof fn lemma_sleep_line_len(awake: u64)
    ensures
        sleep_line(awake as nat, balance(awake as int) as nat).len() <= 53,
{
    reveal_strlit("awake for ");
    reveal_strlit(" ms, sleeping for ");
    reveal_strlit(" ms");
    reveal_with_fuel(vstd::arithmetic::power::pow, 18);
    crate::decimal::lemma_decimal_len((awake / 1000) as nat, 17);
    crate::decimal::lemma_decimal_len(balance(awake as int) as nat / 1000, 5);
}

/// The journal holds everything one cycle has to say: whatever woke the node,
/// whatever came of the reading and however long it was awake, its three
/// records are kept, and exactly these reach the console.
pub proof fn law_one_cycle_fits_the_journal(
    wakeup: Wakeup,
    reading: Result<Celsius, ThermometerError>,
    awake: u64,
)
    ensures
        console_lines(cycle_journal(wakeup, reading, awake as nat)) == seq![
            (Level::Info, wake_line(wakeup)),
            reading_line(reading),
            (Level::Info, sleep_line(awake as nat, balance(awake as int) as nat)),
        ],
{
    let woke = (Level::Info, wake_line(wakeup));
    let read = reading_line(reading);
    let slept = (Level::Info, sleep_line(awake as nat, balance(awake as int) as nat));
    lemma_wake_line_len(wakeup);
    lemma_reading_line_len(reading);
    lemma_sleep_line_len(awake);
    lemma_utf8_len(read.1);
    lemma_utf8_len(slept.1);
    reveal_with_fuel(crate::log_buffer::encoded, 4);
    let none = Seq::<Record>::empty();
    assert(none.push(woke).drop_last() =~= none);
    assert(none.push(woke).push(read).drop_last() =~= none.push(woke));
    assert(none.push(woke).push(read).push(slept) =~= seq![woke, read, slept]);
}

/// The time awake is the count of the timer, and none while that is negative.
pub proof fn law_the_timer_counts_from_the_reset(timer: i64, awake: u64)
    requires
        call_ensures(since_boot, (timer,), awake),
    ensures
        timer >= 0 ==> awake == timer,
        timer <= 0 ==> awake == 0,
{
}

/// Sleep and the time awake make up ten seconds together, unless that would
/// leave less than one second to sleep: then it is one second.
pub proof fn law_sleep_is_what_is_left_of_ten_seconds(awake: u64, sleep: u64)
    requires
        call_ensures(sleep_for, (awake,), sleep),
    ensures
        sleep >= 1_000_000,
        sleep > 1_000_000 ==> awake + sleep == 10_000_000,
        sleep == 1_000_000 <==> awake >= 9_000_000,
{
}

/// Only a reset holds the serial port open, and the record of a wake ends with
/// the name of what woke the chip, which no two causes share.
pub proof fn law_causes_of_a_wake_can_be_told_apart(
    a: Wakeup,
    b: Wakeup,
    label_a: &'static str,
    label_b: &'static str,
    text: String,
    seconds: u64,
)
    requires
        call_ensures(Wakeup::label, (a,), label_a),
        call_ensures(Wakeup::label, (b,), label_b),
        call_ensures(wake_text, (a,), text),
        call_ensures(Wakeup::flash_window, (a,), seconds),
    ensures
        label_a@ == label_b@ <==> a == b,
        text@ == "woke on "@ + label_a@,
        seconds == if label_a@ == "reset"@ {
            10u64
        } else {
            0u64
        },
{
    reveal_strlit("timer");
    reveal_strlit("button");
    reveal_strlit("reset");
    assert("timer"@[0] == 't' && "button"@[0] == 'b' && "reset"@[0] == 'r');
}

/// The record of a reading is information and shows the temperature as it is
/// rendered, or it is a warning and shows the message of the error.
pub proof fn law_a_reading_is_recorded_as_it_is(
    celsius: Celsius,
    rendered: String,
    of_celsius: (Level, String),
    error: ThermometerError,
    message: &'static str,
    of_error: (Level, String),
)
    requires
        call_ensures(Celsius::render, (celsius,), rendered),
        call_ensures(ThermometerError::message, (error,), message),
        call_ensures(reading_text, (Ok(celsius),), of_celsius),
        call_ensures(reading_text, (Err(error),), of_error),
    ensures
        of_celsius.0 == Level::Info,
        of_celsius.1@ == "temperature: "@ + rendered@,
        of_error.0 == Level::Warn,
        of_error.1@ == "temperature unavailable: "@ + message@,
{
}

/// Both times of the record that ends a cycle are read back as whole
/// milliseconds.
pub proof fn law_times_are_shown_in_milliseconds(awake: u64, sleep: u64, text: String)
    requires
        call_ensures(sleep_text, (awake, sleep), text),
    ensures
        exists|first: Seq<char>, second: Seq<char>|
            #[trigger] crate::decimal::is_numeral_of(first, awake as int / 1000)
                && #[trigger] crate::decimal::is_numeral_of(second, sleep as int / 1000) && text@
                == "awake for "@ + first + " ms, sleeping for "@ + second + " ms"@,
{
    crate::decimal::law_numerals_read_back(awake as nat / 1000);
    crate::decimal::law_numerals_read_back(sleep as nat / 1000);
}

proof fn lemma_the_capacity_is_spelled_out(number: Seq<char>)
    ensures
        number + " records did not fit in "@ + crate::decimal::decimal(JOURNAL_BYTES as nat)
            + " bytes"@ == number + " records did not fit in 512 bytes"@,
{
    reveal_strlit(" records did not fit in ");
    reveal_strlit(" bytes");
    reveal_strlit(" records did not fit in 512 bytes");
    let capacity = crate::decimal::decimal(512);
    assert(capacity =~= seq!['5', '1', '2']) by {
        reveal_with_fuel(crate::decimal::decimal, 3);
    }
    assert(" records did not fit in "@ + capacity + " bytes"@
        =~= " records did not fit in 512 bytes"@);
    assert(number + " records did not fit in "@ + capacity + " bytes"@ =~= number + (
    " records did not fit in "@ + capacity + " bytes"@));
}

/// The console shows every record that the journal kept, in order, with its
/// level and text. Behind them stands a warning with the number of those it
/// dropped exactly when it dropped any.
pub proof fn law_the_console_shows_the_whole_journal(
    journal: &LogBuffer<JOURNAL_BYTES>,
    dropped: usize,
    lines: Vec<(Level, String)>,
)
    requires
        call_ensures(LogBuffer::<JOURNAL_BYTES>::dropped, (journal,), dropped),
        call_ensures(flush, (journal,), lines),
    ensures
        lines@.len() == journal@.records.len() + if dropped > 0 {
            1int
        } else {
            0int
        },
        forall|i: int|
            0 <= i < journal@.records.len() ==> {
                &&& #[trigger] lines@[i].0 == journal@.records[i].0
                &&& lines@[i].1@ == journal@.records[i].1
            },
        dropped > 0 ==> {
            &&& lines@.last().0 == Level::Warn
            &&& exists|number: Seq<char>| #[trigger]
                crate::decimal::is_numeral_of(number, dropped as int) && lines@.last().1@ == number
                    + " records did not fit in 512 bytes"@
        },
{
    let records = lines_of(lines@);
    assert(records.len() == lines@.len());
    assert forall|i: int| 0 <= i < journal@.records.len() implies {
        &&& #[trigger] lines@[i].0 == journal@.records[i].0
        &&& lines@[i].1@ == journal@.records[i].1
    } by {
        assert(records[i] == (lines@[i].0, lines@[i].1@));
    }
    if dropped > 0 {
        let number = crate::decimal::decimal(dropped as nat);
        crate::decimal::law_numerals_read_back(dropped as nat);
        lemma_the_capacity_is_spelled_out(number);
        assert(records.last() == (lines@.last().0, lines@.last().1@));
    }
}

} // verus!
