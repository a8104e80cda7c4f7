use centinela::{Level, LogBuffer};

#[test]
fn entries_replay_in_order_with_their_levels() {
    let mut buffer = LogBuffer::<128>::new();

    buffer.info(&format!("woke on {}", "timer"));
    buffer.warn(&format!("temperature unavailable: {}", "timeout"));

    let entries: Vec<_> = buffer.entries().collect();

    assert_eq!(
        entries,
        [
            (Level::Info, "woke on timer"),
            (Level::Warn, "temperature unavailable: timeout"),
        ]
    );
}

#[test]
fn a_new_buffer_is_empty() {
    let buffer = LogBuffer::<32>::new();

    assert!(buffer.is_empty());
    assert_eq!(buffer.entries().count(), 0);
    assert_eq!(buffer.dropped(), 0);
}

#[test]
fn an_entry_that_does_not_fit_is_dropped_whole() {
    let mut buffer = LogBuffer::<32>::new();

    buffer.info("kept");
    buffer.info(&format!("{:40}", "too long"));

    let entries: Vec<_> = buffer.entries().collect();

    assert_eq!(entries, [(Level::Info, "kept")]);
    assert_eq!(buffer.dropped(), 1);
}

#[test]
fn recording_continues_after_a_dropped_entry() {
    let mut buffer = LogBuffer::<32>::new();

    buffer.info(&format!("{:40}", "too long"));
    buffer.info("kept");

    let entries: Vec<_> = buffer.entries().collect();

    assert_eq!(entries, [(Level::Info, "kept")]);
    assert_eq!(buffer.dropped(), 1);
}

#[test]
fn clearing_discards_entries_and_the_dropped_count() {
    let mut buffer = LogBuffer::<32>::new();

    buffer.info(&format!("{:40}", "too long"));
    buffer.info("kept");
    buffer.clear();

    assert!(buffer.is_empty());
    assert_eq!(buffer.entries().count(), 0);
    assert_eq!(buffer.dropped(), 0);
}

#[test]
fn multibyte_text_survives_the_round_trip() {
    let mut buffer = LogBuffer::<64>::new();

    buffer.info("17.250 °C");

    assert_eq!(buffer.entries().next(), Some((Level::Info, "17.250 °C")));
}

#[test]
fn pieces_are_joined_into_one_record() {
    let mut buffer = LogBuffer::<64>::new();

    buffer.record_pieces(Level::Warn, &["1-Wire ", "", "search", " failed"]);
    buffer.record_pieces(Level::Info, &[]);

    assert_eq!(
        buffer.entries().collect(),
        [(Level::Warn, "1-Wire search failed"), (Level::Info, "")]
    );
}

#[test]
fn a_record_whose_last_piece_overruns_leaves_nothing_behind() {
    let mut buffer = LogBuffer::<16>::new();

    buffer.record_pieces(Level::Info, &["0123456789", "abcd"]);

    assert!(buffer.is_empty());
    assert_eq!(buffer.dropped(), 1);

    buffer.record_pieces(Level::Info, &["0123456789", "abc"]);

    assert_eq!(
        buffer.entries().collect(),
        [(Level::Info, "0123456789abc")]
    );
    assert_eq!(buffer.dropped(), 1);
}

#[test]
fn a_record_may_fill_the_buffer_to_the_last_byte() {
    let mut buffer = LogBuffer::<8>::new();

    buffer.record(Level::Warn, "exact");
    buffer.info("");

    assert_eq!(buffer.entries().collect(), [(Level::Warn, "exact")]);
    assert_eq!(buffer.dropped(), 1);
}

#[test]
fn a_buffer_without_room_for_a_header_drops_everything() {
    let mut buffer = LogBuffer::<2>::new();

    buffer.info("");
    buffer.warn("x");

    assert!(buffer.is_empty());
    assert_eq!(buffer.dropped(), 2);
}

#[test]
fn a_text_longer_than_one_length_byte_replays() {
    let text = "x".repeat(300);
    let mut buffer = LogBuffer::<512>::new();

    buffer.info(&text);
    buffer.warn("next");

    assert_eq!(
        buffer.entries().collect(),
        [(Level::Info, text.as_str()), (Level::Warn, "next")]
    );
}

#[test]
fn the_longest_exact_text_replays() {
    let text = "x".repeat(65_535);
    let mut buffer = LogBuffer::<65_538>::new();

    buffer.info(&text);

    assert_eq!(
        buffer.entries().collect(),
        [(Level::Info, text.as_str())]
    );
}

#[test]
fn a_text_beyond_the_length_field_is_kept_but_not_replayed() {
    let mut buffer = LogBuffer::<70_000>::new();

    buffer.info(&"a".repeat(65_536));

    assert!(!buffer.is_empty());
    assert_eq!(buffer.dropped(), 0);
    assert_eq!(buffer.entries().collect(), [(Level::Info, "")]);
}

#[test]
fn replay_stops_at_bytes_that_are_not_text() {
    let mut buffer = LogBuffer::<70_000>::new();

    buffer.info("first");
    buffer.info(&format!("é{}", "a".repeat(65_535)));

    assert_eq!(buffer.entries().collect(), [(Level::Info, "first")]);
}

#[test]
fn the_cursor_stays_at_the_end() {
    let mut buffer = LogBuffer::<32>::new();
    buffer.warn("only");

    let mut entries = buffer.entries();

    assert_eq!(entries.next(), Some((Level::Warn, "only")));
    assert_eq!(entries.next(), None);
    assert_eq!(entries.next(), None);
}

#[test]
fn the_default_buffer_is_empty() {
    let buffer = LogBuffer::<16>::default();

    assert!(buffer.is_empty());
    assert_eq!(buffer.dropped(), 0);
}

#[test]
fn levels_survive_their_byte() {
    assert_eq!(Level::from_byte(Level::Info.to_byte()), Some(Level::Info));
    assert_eq!(Level::from_byte(Level::Warn.to_byte()), Some(Level::Warn));
    assert_eq!(Level::from_byte(0), Some(Level::Info));
    assert_eq!(Level::from_byte(1), Some(Level::Warn));
    assert_eq!(Level::from_byte(2), None);
    assert_eq!(Level::from_byte(255), None);
}
