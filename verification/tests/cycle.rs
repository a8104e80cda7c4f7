use centinela::cycle::{
    flush, reading_text, since_boot, sleep_for, sleep_text, wake_text, Wakeup, JOURNAL_BYTES,
};
use centinela::decimal::{push_decimal, push_three_digits};
use centinela::{Celsius, Level, LogBuffer, ThermometerError};

#[test]
fn the_time_awake_is_charged_against_the_period() {
    assert_eq!(sleep_for(600_000), 9_400_000);
    assert_eq!(sleep_for(0), 10_000_000);
    assert_eq!(sleep_for(9_000_000), 1_000_000);
}

#[test]
fn the_node_always_sleeps_for_a_while() {
    assert_eq!(sleep_for(9_000_001), 1_000_000);
    assert_eq!(sleep_for(10_000_000), 1_000_000);
    assert_eq!(sleep_for(u64::MAX), 1_000_000);
}

#[test]
fn a_timer_before_zero_counts_as_zero() {
    assert_eq!(since_boot(-1), 0);
    assert_eq!(since_boot(i64::MIN), 0);
    assert_eq!(since_boot(612_345), 612_345);
    assert_eq!(since_boot(i64::MAX), 9_223_372_036_854_775_807);
}

#[test]
fn only_a_reset_holds_the_serial_port_open() {
    assert_eq!(Wakeup::Reset.flash_window(), 10);
    assert_eq!(Wakeup::Timer.flash_window(), 0);
    assert_eq!(Wakeup::Button.flash_window(), 0);
}

#[test]
fn wakes_are_named_in_the_journal() {
    assert_eq!(wake_text(Wakeup::Timer), "woke on timer");
    assert_eq!(wake_text(Wakeup::Button), "woke on button");
    assert_eq!(wake_text(Wakeup::Reset), "woke on reset");
}

#[test]
fn readings_are_information_and_failures_are_warnings() {
    assert_eq!(
        reading_text(Ok(Celsius::from_sixteenths(276))),
        (Level::Info, "temperature: 17.250 °C".to_string())
    );
    assert_eq!(
        reading_text(Err(ThermometerError::Timeout)),
        (
            Level::Warn,
            "temperature unavailable: sensor did not respond in time".to_string()
        )
    );
}

#[test]
fn the_end_of_a_cycle_is_told_in_milliseconds() {
    assert_eq!(
        sleep_text(612_999, 9_387_001),
        "awake for 612 ms, sleeping for 9387 ms"
    );
}

#[test]
fn one_cycle_reaches_the_console_in_full() {
    let mut journal = LogBuffer::<JOURNAL_BYTES>::new();
    let awake = u64::MAX;

    journal.info(&wake_text(Wakeup::Button));
    let (level, text) = reading_text(Err(ThermometerError::Crc));
    journal.record(level, &text);
    journal.info(&sleep_text(awake, sleep_for(awake)));

    assert_eq!(
        flush(&journal),
        [
            (Level::Info, "woke on button".to_string()),
            (
                Level::Warn,
                "temperature unavailable: sensor payload failed its checksum".to_string()
            ),
            (
                Level::Info,
                "awake for 18446744073709551 ms, sleeping for 1000 ms".to_string()
            ),
        ]
    );
}

#[test]
fn dropped_records_are_reported_last() {
    let mut journal = LogBuffer::<JOURNAL_BYTES>::new();

    journal.info(&"x".repeat(600));
    journal.info("kept");
    journal.warn(&"y".repeat(510));

    assert_eq!(
        flush(&journal),
        [
            (Level::Info, "kept".to_string()),
            (
                Level::Warn,
                "2 records did not fit in 512 bytes".to_string()
            ),
        ]
    );
}

#[test]
fn numerals_have_no_leading_zeros_unless_asked_for() {
    let mut text = String::from("n=");

    push_decimal(&mut text, 0);
    text.push(' ');
    push_decimal(&mut text, u64::MAX);
    text.push(' ');
    push_decimal(&mut text, 1020);
    text.push(' ');
    push_three_digits(&mut text, 7);
    text.push(' ');
    push_three_digits(&mut text, 12_345);

    assert_eq!(text, "n=0 18446744073709551615 1020 007 345");
}
